use vstd::prelude::*;
use crate::game::{Game, GameError, State};
use crate::guess::Guess;
use crate::validation::{is_word, lemma_validation_ok_iff_word, validate, validation_of, ValidationError};

verus! {

/// What a session does after the player typed a word.
#[derive(Debug)]
pub enum Turn {
    /// The input is not a word of the game; the player is asked again.
    Rejected(ValidationError),
    /// The word is not in the dictionary; the player is asked again.
    Unknown,
    /// The guess was scored and the game goes on.
    Scored(Guess),
    /// The guess was scored and won the game.
    Won(Guess),
    /// The guess was scored and used the last attempt without winning.
    Lost(Guess),
}

/// Some entry of the dictionary is `word`.
pub open spec fn in_dictionary(dictionary: Seq<String>, word: Seq<char>) -> bool {
    exists|i: int| 0 <= i < dictionary.len() && (#[trigger] dictionary[i])@ == word
}

/// Whether `word` is an entry of `dictionary`.
pub fn contains_word(dictionary: &Vec<String>, word: &String) -> (r: bool)
    ensures
        r == in_dictionary(dictionary@, word@),
{
    let mut i: usize = 0;
    while i < dictionary.len()
        invariant
            i <= dictionary@.len(),
            forall|k: int| 0 <= k < i ==> (#[trigger] dictionary@[k])@ != word@,
        decreases dictionary@.len() - i,
    {
        if dictionary[i] == *word {
            return true;
        }
        i = i + 1;
    }
    false
}

/// The turn that reports the guess `g`, played into a game that is now in
/// the state `s`.
pub open spec fn turn_for(s: State, g: Guess) -> Turn {
    match s {
        State::Won => Turn::Won(g),
        State::Lost => Turn::Lost(g),
        State::Playing => Turn::Scored(g),
    }
}

/// Takes one word typed by the player. A word that fails validation, or
/// that the dictionary lacks, is turned away with the game left as it was;
/// any other word is played, and the turn says whether the game goes on,
/// was won or was lost. A game that is already over refuses the word with
/// its error.
pub fn take_turn(game: &mut Game, dictionary: &Vec<String>, word: String) -> (r: Result<
    Turn,
    GameError,
>)
    ensures
        validation_of(word@) is Err ==> r == Ok::<Turn, GameError>(
            Turn::Rejected(validation_of(word@)->Err_0),
        ) && *final(game) == *old(game),
        is_word(word@) && !in_dictionary(dictionary@, word@) ==> r == Ok::<Turn, GameError>(
            Turn::Unknown,
        ) && *final(game) == *old(game),
        is_word(word@) && in_dictionary(dictionary@, word@) ==> {
            &&& old(game).state == State::Lost ==> r == Err::<Turn, GameError>(
                GameError::GameOver,
            ) && *final(game) == *old(game)
            &&& old(game).state == State::Won ==> r == Err::<Turn, GameError>(GameError::GameWon)
                && *final(game) == *old(game)
            &&& old(game).state == State::Playing && !is_word(old(game).target@) ==> r == Err::<
                Turn,
                GameError,
            >(GameError::InvalidArguments) && *final(game) == *old(game)
            &&& old(game).state == State::Playing && is_word(old(game).target@) ==> exists|
                g: Guess,
            |
                old(game).records(word@, g, *final(game)) && r == Ok::<Turn, GameError>(
                    #[trigger] turn_for(final(game).state, g),
                )
        },
        old(game).wf() ==> final(game).wf(),
{
    proof {
        lemma_validation_ok_iff_word(word@);
    }
    match validate(word.as_str()) {
        Err(e) => {
            return Ok(Turn::Rejected(e));
        },
        Ok(()) => {},
    }
    if !contains_word(dictionary, &word) {
        return Ok(Turn::Unknown);
    }
    let g = match game.play(word) {
        Err(e) => {
            return Err(e);
        },
        Ok(g) => g,
    };
    let ghost played = g;
    let turn = match game.state() {
        State::Won => Turn::Won(g),
        State::Lost => Turn::Lost(g),
        State::Playing => Turn::Scored(g),
    };
    assert(turn == turn_for(game.state, played));
    Ok(turn)
}

} // verus!

use vstd::prelude::*;
use vstd::string::StringExecFns;
use crate::correctness::{evaluate, score, Correctness};
use crate::guess::{all_correct, Guess};
use crate::validation::{is_word, ValidationError};

verus! {

/// How many guesses a game allows.
pub const MAX_ATTEMPTS: usize = 6;

/// Where a game stands.
#[derive(PartialEq, Eq, Debug, Clone, Copy, Structural)]
pub enum State {
    Playing,
    Won,
    Lost,
}

/// Why a game refused to start or to take a guess.
#[derive(Debug, Clone, Copy, PartialEq, Eq, Structural)]
pub enum GameError {
    /// The game was lost already.
    GameOver,
    /// The game was won already.
    GameWon,
    /// The secret or the guess is not a word of the game.
    InvalidArguments,
}

impl GameError {
    /// A sentence for the player.
    pub fn message(&self) -> (r: String)
        ensures
            r@ == match self {
                GameError::GameOver => "You've lost this game. Start a new one to keep playing"@,
                GameError::GameWon => "You've already won this game. Start a new one to play again"@,
                GameError::InvalidArguments => "You've passed invalid arguments to this game. Please only use 5 letters a-z"@,
            },
    {
        match self {
            GameError::GameOver => String::from_str(
                "You've lost this game. Start a new one to keep playing",
            ),
            GameError::GameWon => String::from_str(
                "You've already won this game. Start a new one to play again",
            ),
            GameError::InvalidArguments => String::from_str(
                "You've passed invalid arguments to this game. Please only use 5 letters a-z",
            ),
        }
    }
}

impl From<ValidationError> for GameError {
    fn from(_e: ValidationError) -> Self {
        GameError::InvalidArguments
    }
}

impl vstd::std_specs::convert::FromSpecImpl<ValidationError> for GameError {
    open spec fn obeys_from_spec() -> bool {
        true
    }

    open spec fn from_spec(v: ValidationError) -> Self {
        GameError::InvalidArguments
    }
}

/// One round of the game for one secret word.
#[derive(Debug)]
pub struct Game {
    pub target: String,
    pub state: State,
    pub history: Vec<Guess>,
    pub max_attempts: usize,
}

impl Game {
    /// Some guess in the history has every letter `Correct`.
    pub open spec fn some_win(self) -> bool {
        exists|k: int| 0 <= k < self.history@.len() && all_correct(#[trigger] self.history@[k].result@)
    }

    /// The state that follows the guesses of `self` and one more guess
    /// scored `tags`.
    pub open spec fn next_state(self, tags: Seq<Correctness>) -> State {
        if all_correct(tags) {
            State::Won
        } else if self.history@.len() + 1 == self.max_attempts {
            State::Lost
        } else {
            State::Playing
        }
    }

    /// `next` is `self` after the guess `g`, the score of `word` against the
    /// secret, was played.
    pub open spec fn records(self, word: Seq<char>, g: Guess, next: Game) -> bool {
        &&& g.word@ == word
        &&& g.result@ == score(self.target@, word)
        &&& next.history@ == self.history@.push(g)
        &&& next.state == self.next_state(g.result@)
        &&& next.target == self.target
        &&& next.max_attempts == self.max_attempts
    }

    /// The invariant of a game that was started and played by its own
    /// operations: the secret is a word, each guess is a word scored against
    /// the secret, no guess but the last has won, and the state agrees with
    /// the history and the bound on attempts.
    pub open spec fn wf(self) -> bool {
        &&& is_word(self.target@)
        &&& self.history@.len() <= self.max_attempts
        &&& forall|k: int|
            0 <= k < self.history@.len() ==> {
                &&& is_word(#[trigger] self.history@[k].word@)
                &&& self.history@[k].result@ == score(self.target@, self.history@[k].word@)
            }
        &&& forall|k: int|
            0 <= k < self.history@.len() - 1 ==> !all_correct(#[trigger] self.history@[k].result@)
        &&& match self.state {
            State::Playing => self.history@.len() < self.max_attempts && !self.some_win(),
            State::Won => self.history@.len() > 0 && all_correct(
                self.history@.last().result@,
            ),
            State::Lost => self.history@.len() == self.max_attempts && !self.some_win(),
        }
    }

    /// Starts a game for the secret word `target`.
    pub fn new(target: String) -> (r: Result<Self, GameError>)
        ensures
            r is Ok <==> is_word(target@),
            r is Err ==> r == Err::<Self, GameError>(GameError::InvalidArguments),
            r matches Ok(g) ==> {
                &&& g.target == target
                &&& g.state == State::Playing
                &&& g.history@.len() == 0
                &&& g.max_attempts == MAX_ATTEMPTS
                &&& g.wf()
            },
    {
        match crate::validation::validate(target.as_str()) {
            Err(e) => {
                return Err(GameError::from(e));
            },
            Ok(()) => {},
        }
        Ok(Game { target: target, state: State::Playing, history: Vec::new(), max_attempts: MAX_ATTEMPTS })
    }

    /// The state the game is in.
    pub fn state(&self) -> (r: State)
        ensures
            r == self.state,
    {
        self.state
    }

    /// The secret word.
    pub fn target(&self) -> (r: &str)
        ensures
            r@ == self.target@,
    {
        self.target.as_str()
    }

    /// How many guesses the player may still make.
    pub fn attempts_left(&self) -> (r: usize)
        requires
            self.history@.len() <= self.max_attempts,
        ensures
            r == self.max_attempts - self.history@.len(),
    {
        self.max_attempts - self.history.len()
    }

    /// Plays `word` as the next guess. A game that is over refuses it, and so
    /// does a game whose secret or guess is not a word; a refusal leaves the
    /// game as it was. Otherwise the guess is scored against the secret,
    /// appended to the history and returned, and the game is won if every
    /// letter is `Correct`, or lost if that was the last attempt.
    pub fn play(&mut self, word: String) -> (r: Result<Guess, GameError>)
        ensures
            old(self).state == State::Lost ==> r == Err::<Guess, GameError>(GameError::GameOver)
                && *final(self) == *old(self),
            old(self).state == State::Won ==> r == Err::<Guess, GameError>(GameError::GameWon)
                && *final(self) == *old(self),
            old(self).state == State::Playing && !(is_word(old(self).target@) && is_word(word@))
                ==> r == Err::<Guess, GameError>(GameError::InvalidArguments) && *final(self)
                == *old(self),
            old(self).state == State::Playing && is_word(old(self).target@) && is_word(word@)
                ==> (r matches Ok(g) && old(self).records(word@, g, *final(self))),
            old(self).wf() ==> final(self).wf(),
    {
        match self.state {
            State::Lost => Err(GameError::GameOver),
            State::Won => Err(GameError::GameWon),
            State::Playing => {
                let result = match evaluate(self.target.as_str(), word.as_str()) {
                    Err(e) => {
                        return Err(GameError::from(e));
                    },
                    Ok(result) => result,
                };
                let won = Guess::is_winning_guess(&result);
                let scored = Guess { word: word.clone(), result };
                let ghost before = self.history@;
                self.history.push(Guess { word, result });
                assert(self.history@ == before.push(scored));
                if won {
                    self.state = State::Won;
                } else if self.history.len() == self.max_attempts {
                    self.state = State::Lost;
                }
                proof {
                    if old(self).wf() {
                        assert(self.history@.last() == scored);
                        assert forall|k: int| 0 <= k < self.history@.len() implies {
                            &&& is_word(#[trigger] self.history@[k].word@)
                            &&& self.history@[k].result@ == score(
                                self.target@,
                                self.history@[k].word@,
                            )
                        } by {
                            if k < before.len() {
                                assert(self.history@[k] == before[k]);
                            }
                        }
                        assert forall|k: int| 0 <= k < self.history@.len() - 1 implies !all_correct(
                            #[trigger] self.history@[k].result@,
                        ) by {
                            assert(self.history@[k] == before[k]);
                        }
                        if !won {
                            assert(!self.some_win()) by {
                                if self.some_win() {
                                    let k = choose|k: int|
                                        0 <= k < self.history@.len() && all_correct(
                                            #[trigger] self.history@[k].result@,
                                        );
                                    if k < before.len() {
                                        assert(self.history@[k] == before[k]);
                                        assert(old(self).some_win());
                                    }
                                }
                            }
                        }
                    }
                }
                Ok(scored)
            },
        }
    }
}

/// A game that keeps its invariant never holds more guesses than it allows;
/// it is won exactly when some guess has every letter `Correct`, and lost
/// exactly when all attempts are used and no guess has.
pub proof fn lemma_state_agrees_with_history(g: Game)
    requires
        g.wf(),
    ensures
        g.history@.len() <= g.max_attempts,
        g.state == State::Won <==> g.some_win(),
        g.state == State::Lost <==> (g.history@.len() == g.max_attempts && !g.some_win()),
{
    if g.state == State::Won {
        assert(all_correct(g.history@[g.history@.len() - 1].result@));
    }
}

} // verus!

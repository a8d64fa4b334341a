use vstd::prelude::*;
use crate::correctness::Correctness;
use crate::validation::WORD_LEN;

verus! {

/// Every tag of a scored guess is `Correct`.
pub open spec fn all_correct(tags: Seq<Correctness>) -> bool {
    forall|i: int| 0 <= i < tags.len() ==> #[trigger] tags[i] == Correctness::Correct
}

/// A word that was played, with the tag of each of its letters.
#[derive(Debug)]
pub struct Guess {
    pub word: String,
    pub result: [Correctness; 5],
}

impl Guess {
    /// Whether every letter of a scored guess is `Correct`.
    pub fn is_winning_guess(result: &[Correctness; 5]) -> (r: bool)
        ensures
            r == all_correct(result@),
    {
        let mut i: usize = 0;
        while i < WORD_LEN
            invariant
                i <= WORD_LEN,
                forall|k: int| 0 <= k < i ==> #[trigger] result@[k] == Correctness::Correct,
            decreases WORD_LEN - i,
        {
            if result[i] != Correctness::Correct {
                return false;
            }
            i = i + 1;
        }
        true
    }
}

} // verus!

use rusty_wordle::Correctness::{Correct as C, Misplaced as M, Wrong as W};
use rusty_wordle::Guess;

#[test]
fn is_winning_guess() {
    assert_eq!(Guess::is_winning_guess(&[C, C, C, C, C]), true);
}

#[test]
fn is_not_winning_guess() {
    assert_eq!(Guess::is_winning_guess(&[C, W, C, C, C]), false);
    assert_eq!(Guess::is_winning_guess(&[C, C, C, M, C]), false);
}

#[test]
fn last_tag_decides_too() {
    assert_eq!(Guess::is_winning_guess(&[C, C, C, C, W]), false);
}

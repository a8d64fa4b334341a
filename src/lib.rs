//! A word-guessing game: scoring a guess letter by letter against a secret
//! word, and the turn-based state machine around it.
pub mod correctness;
pub mod game;
pub mod guess;
pub mod session;
pub mod validation;

pub use crate::correctness::{evaluate, Correctness};
pub use crate::game::{Game, GameError, State, MAX_ATTEMPTS};
pub use crate::guess::Guess;
pub use crate::session::{contains_word, take_turn, Turn};
pub use crate::validation::{validate, ValidationError};

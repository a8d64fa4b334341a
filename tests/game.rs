use rusty_wordle::Correctness::{Correct as C, Misplaced as M, Wrong as W};
use rusty_wordle::{Game, GameError, State, ValidationError, MAX_ATTEMPTS};

#[test]
fn regular_init_works() {
    let game = Game::new(String::from("abcde")).unwrap();
    assert_eq!(game.state, State::Playing);
    assert_eq!(game.target, String::from("abcde"));
    assert_eq!(game.history.len(), 0);
}

#[test]
fn lost_game_throws_error() {
    let mut lost_game = Game {
        target: String::from(""),
        state: State::Lost,
        history: vec![],
        max_attempts: 6,
    };
    let result = lost_game.play(String::from("guess"));
    assert_eq!(result.unwrap_err(), GameError::GameOver);
}

#[test]
fn won_game_throws_error() {
    let mut won_game = Game {
        target: String::from(""),
        state: State::Won,
        history: vec![],
        max_attempts: 6,
    };
    let result = won_game.play(String::from("guess"));
    assert_eq!(result.unwrap_err(), GameError::GameWon);
}

#[test]
fn incorrect_init_error() {
    assert_eq!(
        Game::new(String::from("")).unwrap_err(),
        GameError::InvalidArguments
    );
}

#[test]
fn incorrect_guess_error() {
    let mut game = Game::new(String::from("abcde")).unwrap();
    let result = game.play(String::from("a"));
    assert_eq!(result.unwrap_err(), GameError::InvalidArguments);
}

#[test]
fn win_in_first_round() {
    let mut game = Game::new(String::from("guess")).unwrap();
    let guess = game.play(String::from("guess")).unwrap();
    assert_eq!(guess.result, [C, C, C, C, C]);
    assert_eq!(game.state, State::Won);
}

#[test]
fn loose() {
    let mut game = Game::new(String::from("guess")).unwrap();
    for _ in 0..5 {
        let _ = game.play(String::from("xxxxx")).unwrap();
    }
    let guess = game.play(String::from("xuxxg")).unwrap();
    assert_eq!(guess.result, [W, C, W, W, M]);
    assert_eq!(game.state, State::Lost);
}

#[test]
fn accessors_report_the_game() {
    let mut game = Game::new(String::from("world")).unwrap();
    assert_eq!(game.state(), State::Playing);
    assert_eq!(game.target(), "world");
    assert_eq!(game.attempts_left(), MAX_ATTEMPTS);
    let guess = game.play(String::from("words")).unwrap();
    assert_eq!(guess.word, "words");
    assert_eq!(guess.result, [C, C, C, M, W]);
    assert_eq!(game.attempts_left(), 5);
    assert_eq!(game.history.len(), 1);
}

#[test]
fn refused_guess_leaves_game_unchanged() {
    let mut game = Game::new(String::from("guess")).unwrap();
    game.play(String::from("gauss")).unwrap();
    assert_eq!(game.play(String::from("Gauss")).unwrap_err(), GameError::InvalidArguments);
    assert_eq!(game.history.len(), 1);
    assert_eq!(game.state, State::Playing);
}

#[test]
fn finished_game_keeps_history() {
    let mut game = Game::new(String::from("guess")).unwrap();
    for _ in 0..6 {
        game.play(String::from("xxxxx")).unwrap();
        assert!(game.history.len() <= game.max_attempts);
    }
    assert_eq!(game.state, State::Lost);
    assert_eq!(game.play(String::from("guess")).unwrap_err(), GameError::GameOver);
    assert_eq!(game.history.len(), 6);

    let mut won = Game::new(String::from("guess")).unwrap();
    won.play(String::from("xxxxx")).unwrap();
    won.play(String::from("guess")).unwrap();
    assert_eq!(won.state, State::Won);
    assert_eq!(won.play(String::from("xxxxx")).unwrap_err(), GameError::GameWon);
    assert_eq!(won.history.len(), 2);
    assert_eq!(won.attempts_left(), 4);
}

#[test]
fn win_on_last_attempt_is_won() {
    let mut game = Game::new(String::from("guess")).unwrap();
    for _ in 0..5 {
        game.play(String::from("xxxxx")).unwrap();
    }
    game.play(String::from("guess")).unwrap();
    assert_eq!(game.state, State::Won);
    assert_eq!(game.attempts_left(), 0);
}

#[test]
fn validation_error_becomes_invalid_arguments() {
    assert_eq!(GameError::from(ValidationError::TooLong), GameError::InvalidArguments);
}

#[test]
fn game_error_messages() {
    assert_eq!(
        GameError::GameOver.message(),
        "You've lost this game. Start a new one to keep playing"
    );
    assert_eq!(
        GameError::GameWon.message(),
        "You've already won this game. Start a new one to play again"
    );
    assert_eq!(
        GameError::InvalidArguments.message(),
        "You've passed invalid arguments to this game. Please only use 5 letters a-z"
    );
}

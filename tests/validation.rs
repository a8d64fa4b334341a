use rusty_wordle::{validate, ValidationError};

#[test]
fn accepts_five_lowercase_letters() {
    assert_eq!(validate("abcde"), Ok(()));
    assert_eq!(validate("zzzzz"), Ok(()));
}

#[test]
fn rejects_by_length() {
    assert_eq!(validate(""), Err(ValidationError::TooShort));
    assert_eq!(validate("abcd"), Err(ValidationError::TooShort));
    assert_eq!(validate("abcdef"), Err(ValidationError::TooLong));
}

#[test]
fn rejects_other_characters() {
    assert_eq!(validate("abc1e"), Err(ValidationError::InvalidCharacters));
    assert_eq!(validate("ABCDE"), Err(ValidationError::InvalidCharacters));
    assert_eq!(validate("abc e"), Err(ValidationError::InvalidCharacters));
}

#[test]
fn length_counts_bytes() {
    // 'é' takes two bytes in UTF-8.
    assert_eq!(validate("éabc"), Err(ValidationError::InvalidCharacters));
    assert_eq!(validate("héllo"), Err(ValidationError::TooLong));
}

#[test]
fn validation_error_messages() {
    assert_eq!(
        ValidationError::TooShort.message(),
        "Input too short. Please supply a 5 letter word"
    );
    assert_eq!(
        ValidationError::TooLong.message(),
        "Input too long. Please supply a 5 letter word"
    );
    assert_eq!(
        ValidationError::InvalidCharacters.message(),
        "Input contains invalid characters. Please only use a-z"
    );
}

use vstd::prelude::*;
use vstd::string::StringExecFns;
use vstd::utf8::{encode_utf8, is_ascii_chars_encode_utf8};

verus! {

/// The number of letters in every word of the game.
pub const WORD_LEN: usize = 5;

/// Why a string is not a word of the game.
#[derive(Debug, Clone, Copy, PartialEq, Eq, Structural)]
pub enum ValidationError {
    TooShort,
    TooLong,
    InvalidCharacters,
}

impl ValidationError {
    /// A sentence for the player.
    pub fn message(&self) -> (r: String)
        ensures
            r@ == match self {
                ValidationError::TooShort => "Input too short. Please supply a 5 letter word"@,
                ValidationError::TooLong => "Input too long. Please supply a 5 letter word"@,
                ValidationError::InvalidCharacters => "Input contains invalid characters. Please only use a-z"@,
            },
    {
        match self {
            ValidationError::TooShort => String::from_str(
                "Input too short. Please supply a 5 letter word",
            ),
            ValidationError::TooLong => String::from_str(
                "Input too long. Please supply a 5 letter word",
            ),
            ValidationError::InvalidCharacters => String::from_str(
                "Input contains invalid characters. Please only use a-z",
            ),
        }
    }
}

/// One of the 26 letters `a` to `z`.
pub open spec fn is_letter(c: char) -> bool {
    'a' <= c && c <= 'z'
}

/// A non-empty sequence of letters `a` to `z`.
pub open spec fn all_letters(s: Seq<char>) -> bool {
    s.len() > 0 && forall|i: int| 0 <= i < s.len() ==> #[trigger] is_letter(s[i])
}

/// A word of the game: exactly `WORD_LEN` letters, each from `a` to `z`.
pub open spec fn is_word(s: Seq<char>) -> bool {
    s.len() == WORD_LEN && forall|i: int| 0 <= i < s.len() ==> #[trigger] is_letter(s[i])
}

/// The length of a string in UTF-8 bytes.
pub open spec fn byte_len(s: Seq<char>) -> nat {
    encode_utf8(s).len()
}

/// The verdict on a string: its length is measured in UTF-8 bytes first,
/// then its characters are checked.
pub open spec fn validation_of(s: Seq<char>) -> Result<(), ValidationError> {
    let n = byte_len(s);
    if n < WORD_LEN {
        Err(ValidationError::TooShort)
    } else if n > WORD_LEN {
        Err(ValidationError::TooLong)
    } else if !all_letters(s) {
        Err(ValidationError::InvalidCharacters)
    } else {
        Ok(())
    }
}

/// A string passes validation exactly when it is a word of the game.
pub proof fn lemma_validation_ok_iff_word(s: Seq<char>)
    ensures
        validation_of(s) is Ok <==> is_word(s),
{
    if all_letters(s) || is_word(s) {
        assert(vstd::utf8::is_ascii_chars(s)) by {
            assert forall|i: int| 0 <= i < s.len() implies '\0' <= #[trigger] s[i] <= '\u{7f}' by {
                assert(is_letter(s[i]));
            }
        }
        is_ascii_chars_encode_utf8(s);
    }
}

/// Relies on regex::Regex::new and regex::Regex::is_match: the pattern
/// `^[a-z]+$` compiles, and matches a haystack exactly when the haystack is
/// non-empty and each of its characters is one of `a` to `z`.
#[verifier::external_body]
fn only_letters(s: &str) -> (r: bool)
    ensures
        r == all_letters(s@),
{
    regex::Regex::new("^[a-z]+$").unwrap().is_match(s)
}

/// Checks that `input` is a word of the game: `WORD_LEN` bytes long, all of
/// them letters `a` to `z`.
pub fn validate(input: &str) -> (r: Result<(), ValidationError>)
    ensures
        r == validation_of(input@),
        r is Ok <==> is_word(input@),
{
    proof {
        lemma_validation_ok_iff_word(input@);
    }
    let n = input.as_bytes().len();
    if n < WORD_LEN {
        return Err(ValidationError::TooShort);
    }
    if n > WORD_LEN {
        return Err(ValidationError::TooLong);
    }
    if !only_letters(input) {
        return Err(ValidationError::InvalidCharacters);
    }
    Ok(())
}

} // verus!

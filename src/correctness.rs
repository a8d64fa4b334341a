use vstd::prelude::*;
use vstd::string::StrSliceExecFns;
use crate::validation::{
    is_letter, is_word, lemma_validation_ok_iff_word, validate, validation_of, ValidationError,
    WORD_LEN,
};

verus! {

/// How one letter of a guess relates to the secret word.
#[derive(Copy, Clone, Debug, PartialEq, Eq, Structural)]
pub enum Correctness {
    /// The secret has this letter at this position.
    Correct,
    /// The letter does not count towards the secret.
    Wrong,
    /// The secret has this letter at another position that no other letter
    /// of the guess has claimed.
    Misplaced,
}

/// The number of letters in the alphabet of the game.
pub const ALPHABET_LEN: usize = 26;

/// The position of a letter in the alphabet, `a` being 0.
pub open spec fn letter_index(c: char) -> int {
    (c as u32) - ('a' as u32)
}

/// How many of the first `n` positions hold `c` in the secret while the
/// guess has another letter there: the occurrences of `c` in the secret that
/// are left over for `Misplaced` claims.
pub open spec fn open_in_secret(secret: Seq<char>, guess: Seq<char>, c: char, n: int) -> nat
    decreases n,
{
    if n <= 0 {
        0
    } else {
        open_in_secret(secret, guess, c, n - 1) + if secret[n - 1] == c && guess[n - 1]
            != secret[n - 1] {
            1nat
        } else {
            0nat
        }
    }
}

/// How many of the first `n` positions hold `c` in the guess while the
/// secret has another letter there.
pub open spec fn open_in_guess(secret: Seq<char>, guess: Seq<char>, c: char, n: int) -> nat
    decreases n,
{
    if n <= 0 {
        0
    } else {
        open_in_guess(secret, guess, c, n - 1) + if guess[n - 1] == c && guess[n - 1]
            != secret[n - 1] {
            1nat
        } else {
            0nat
        }
    }
}

/// The tag of position `i` of `guess`: `Correct` where the letters agree;
/// otherwise `Misplaced` while earlier unmatched copies of the letter in the
/// guess have not yet used up its unmatched copies in the secret, and `Wrong`
/// after that.
pub open spec fn tag(secret: Seq<char>, guess: Seq<char>, i: int) -> Correctness {
    if guess[i] == secret[i] {
        Correctness::Correct
    } else if open_in_guess(secret, guess, guess[i], i) < open_in_secret(
        secret,
        guess,
        guess[i],
        secret.len() as int,
    ) {
        Correctness::Misplaced
    } else {
        Correctness::Wrong
    }
}

/// The tags of all positions of `guess` against `secret`.
pub open spec fn score(secret: Seq<char>, guess: Seq<char>) -> Seq<Correctness> {
    Seq::new(guess.len(), |i: int| tag(secret, guess, i))
}

/// How many unmatched copies of `c` in the secret are still unclaimed once
/// each unmatched `c` among the guess's first `n` positions has claimed one
/// where one was left.
pub open spec fn still_open(secret: Seq<char>, guess: Seq<char>, c: char, n: int) -> nat {
    let s = open_in_secret(secret, guess, c, secret.len() as int);
    let g = open_in_guess(secret, guess, c, n);
    if g <= s {
        (s - g) as nat
    } else {
        0
    }
}

/// How many of the first `n` letters of `s` are `c`.
pub open spec fn count_in_prefix(s: Seq<char>, c: char, n: int) -> nat
    decreases n,
{
    if n <= 0 {
        0
    } else {
        count_in_prefix(s, c, n - 1) + if s[n - 1] == c {
            1nat
        } else {
            0nat
        }
    }
}

/// How many times `c` occurs in `s`.
pub open spec fn occurrences(s: Seq<char>, c: char) -> nat {
    count_in_prefix(s, c, s.len() as int)
}

/// How many of the first `n` positions of `guess` hold `c` with a tag other
/// than `Wrong`: the copies of `c` that a score credits to the guess.
pub open spec fn credited(guess: Seq<char>, tags: Seq<Correctness>, c: char, n: int) -> nat
    decreases n,
{
    if n <= 0 {
        0
    } else {
        credited(guess, tags, c, n - 1) + if guess[n - 1] == c && tags[n - 1]
            != Correctness::Wrong {
            1nat
        } else {
            0nat
        }
    }
}

/// How many of the first `n` positions hold `c` in both words.
spec fn matched(secret: Seq<char>, guess: Seq<char>, c: char, n: int) -> nat
    decreases n,
{
    if n <= 0 {
        0
    } else {
        matched(secret, guess, c, n - 1) + if secret[n - 1] == c && guess[n - 1] == c {
            1nat
        } else {
            0nat
        }
    }
}

proof fn lemma_secret_split(secret: Seq<char>, guess: Seq<char>, c: char, n: int)
    requires
        0 <= n <= secret.len(),
        secret.len() == guess.len(),
    ensures
        count_in_prefix(secret, c, n) == matched(secret, guess, c, n) + open_in_secret(
            secret,
            guess,
            c,
            n,
        ),
    decreases n,
{
    if n > 0 {
        lemma_secret_split(secret, guess, c, n - 1);
    }
}

proof fn lemma_credited_bound(secret: Seq<char>, guess: Seq<char>, c: char, n: int)
    requires
        0 <= n <= secret.len(),
        secret.len() == guess.len(),
    ensures
        credited(guess, score(secret, guess), c, n) <= matched(secret, guess, c, n)
            + open_in_guess(secret, guess, c, n),
        credited(guess, score(secret, guess), c, n) <= matched(secret, guess, c, n)
            + open_in_secret(secret, guess, c, secret.len() as int),
    decreases n,
{
    if n > 0 {
        lemma_credited_bound(secret, guess, c, n - 1);
        assert(score(secret, guess)[n - 1] == tag(secret, guess, n - 1));
    }
}

/// No letter is credited to a guess, as `Correct` or `Misplaced`, more
/// often than it occurs in the secret.
pub proof fn lemma_no_letter_over_credited(secret: Seq<char>, guess: Seq<char>, c: char)
    requires
        is_word(secret),
        is_word(guess),
    ensures
        credited(guess, score(secret, guess), c, guess.len() as int) <= occurrences(secret, c),
{
    lemma_credited_bound(secret, guess, c, guess.len() as int);
    lemma_secret_split(secret, guess, c, secret.len() as int);
}

/// A word scored against itself is `Correct` at every position.
pub proof fn lemma_self_all_correct(w: Seq<char>)
    requires
        is_word(w),
    ensures
        score(w, w) =~= Seq::new(w.len(), |_i: int| Correctness::Correct),
{
}

proof fn lemma_absent_never_open(secret: Seq<char>, guess: Seq<char>, c: char, n: int)
    requires
        0 <= n <= secret.len(),
        forall|k: int| 0 <= k < secret.len() ==> secret[k] != c,
    ensures
        open_in_secret(secret, guess, c, n) == 0,
    decreases n,
{
    if n > 0 {
        lemma_absent_never_open(secret, guess, c, n - 1);
    }
}

/// A guess that shares no letter with the secret is `Wrong` at every
/// position.
pub proof fn lemma_disjoint_all_wrong(secret: Seq<char>, guess: Seq<char>)
    requires
        is_word(secret),
        is_word(guess),
        forall|i: int, j: int|
            0 <= i < secret.len() && 0 <= j < guess.len() ==> secret[i] != guess[j],
    ensures
        score(secret, guess) =~= Seq::new(guess.len(), |_i: int| Correctness::Wrong),
{
    assert forall|i: int| 0 <= i < guess.len() implies #[trigger] tag(secret, guess, i)
        == Correctness::Wrong by {
        lemma_absent_never_open(secret, guess, guess[i], secret.len() as int);
    }
}

proof fn lemma_unmatched_counts(secret: Seq<char>, guess: Seq<char>, c: char, n: int)
    requires
        0 <= n <= secret.len(),
        secret.len() == guess.len(),
        forall|k: int| 0 <= k < secret.len() ==> secret[k] != guess[k],
    ensures
        open_in_secret(secret, guess, c, n) == count_in_prefix(secret, c, n),
        open_in_guess(secret, guess, c, n) == count_in_prefix(guess, c, n),
    decreases n,
{
    if n > 0 {
        lemma_unmatched_counts(secret, guess, c, n - 1);
    }
}

proof fn lemma_prefix_count_grows(s: Seq<char>, c: char, i: int, n: int)
    requires
        0 <= i < n <= s.len(),
        s[i] == c,
    ensures
        count_in_prefix(s, c, i) < count_in_prefix(s, c, n),
    decreases n,
{
    if n - 1 > i {
        lemma_prefix_count_grows(s, c, i, n - 1);
    }
}

/// A guess that rearranges the secret's letters so that no position keeps
/// its letter is `Misplaced` at every position.
pub proof fn lemma_derangement_all_misplaced(secret: Seq<char>, guess: Seq<char>)
    requires
        is_word(secret),
        is_word(guess),
        forall|c: char| occurrences(secret, c) == #[trigger] occurrences(guess, c),
        forall|i: int| 0 <= i < secret.len() ==> secret[i] != guess[i],
    ensures
        score(secret, guess) =~= Seq::new(guess.len(), |_i: int| Correctness::Misplaced),
{
    assert forall|i: int| 0 <= i < guess.len() implies #[trigger] tag(secret, guess, i)
        == Correctness::Misplaced by {
        let c = guess[i];
        lemma_unmatched_counts(secret, guess, c, i);
        lemma_unmatched_counts(secret, guess, c, secret.len() as int);
        lemma_prefix_count_grows(guess, c, i, guess.len() as int);
        assert(occurrences(secret, c) == occurrences(guess, c));
    }
}

/// Scores `word` against `target`, position by position, after both have
/// passed validation.
pub fn evaluate(target: &str, word: &str) -> (r: Result<[Correctness; 5], ValidationError>)
    ensures
        validation_of(target@) is Err ==> r == Err::<[Correctness; 5], ValidationError>(
            validation_of(target@)->Err_0,
        ),
        validation_of(target@) is Ok && validation_of(word@) is Err ==> r == Err::<
            [Correctness; 5],
            ValidationError,
        >(validation_of(word@)->Err_0),
        r is Ok <==> is_word(target@) && is_word(word@),
        r is Ok ==> r->Ok_0@ == score(target@, word@),
{
    proof {
        lemma_validation_ok_iff_word(target@);
        lemma_validation_ok_iff_word(word@);
    }
    match validate(target) {
        Err(e) => {
            return Err(e);
        },
        Ok(()) => {},
    }
    match validate(word) {
        Err(e) => {
            return Err(e);
        },
        Ok(()) => {},
    }
    let ghost t = target@;
    let ghost w = word@;
    let mut result = [Correctness::Wrong; 5];
    let mut unaccounted = [0usize; 26];
    let mut i: usize = 0;
    while i < WORD_LEN
        invariant
            is_word(t),
            is_word(w),
            t == target@,
            w == word@,
            i <= WORD_LEN,
            forall|k: int|
                0 <= k < WORD_LEN ==> #[trigger] result@[k] == if k < i && w[k] == t[k] {
                    Correctness::Correct
                } else {
                    Correctness::Wrong
                },
            forall|c: char|
                is_letter(c) ==> unaccounted@[letter_index(c)] == #[trigger] open_in_secret(
                    t,
                    w,
                    c,
                    i as int,
                ),
            forall|l: int| 0 <= l < ALPHABET_LEN ==> #[trigger] unaccounted@[l] <= i,
        decreases WORD_LEN - i,
    {
        let ghost before = unaccounted@;
        let g = word.get_char(i);
        let s = target.get_char(i);
        assert(is_letter(t[i as int]));
        if g == s {
            result[i] = Correctness::Correct;
        } else {
            let idx = (s as u32 - 'a' as u32) as usize;
            unaccounted[idx] = unaccounted[idx] + 1;
        }
        assert forall|c: char| is_letter(c) implies unaccounted@[letter_index(c)]
            == #[trigger] open_in_secret(t, w, c, i + 1) by {
            assert(open_in_secret(t, w, c, i + 1) == open_in_secret(t, w, c, i as int) + if t[i as int]
                == c && w[i as int] != t[i as int] {
                1nat
            } else {
                0nat
            });
            assert(before[letter_index(c)] == open_in_secret(t, w, c, i as int));
            if c != s {
                assert(letter_index(c) != letter_index(s));
            }
        }
        i = i + 1;
    }
    i = 0;
    while i < WORD_LEN
        invariant
            is_word(t),
            is_word(w),
            t == target@,
            w == word@,
            i <= WORD_LEN,
            forall|k: int|
                0 <= k < WORD_LEN ==> #[trigger] result@[k] == if k < i {
                    tag(t, w, k)
                } else if w[k] == t[k] {
                    Correctness::Correct
                } else {
                    Correctness::Wrong
                },
            forall|c: char|
                is_letter(c) ==> unaccounted@[letter_index(c)] == #[trigger] still_open(
                    t,
                    w,
                    c,
                    i as int,
                ),
        decreases WORD_LEN - i,
    {
        let ghost before = unaccounted@;
        let g = word.get_char(i);
        assert(is_letter(w[i as int]));
        assert(before[letter_index(g)] == still_open(t, w, g, i as int));
        if result[i] != Correctness::Correct {
            let idx = (g as u32 - 'a' as u32) as usize;
            if unaccounted[idx] > 0 {
                result[i] = Correctness::Misplaced;
                unaccounted[idx] = unaccounted[idx] - 1;
            }
        }
        assert forall|c: char| is_letter(c) implies unaccounted@[letter_index(c)]
            == #[trigger] still_open(t, w, c, i + 1) by {
            assert(open_in_guess(t, w, c, i + 1) == open_in_guess(t, w, c, i as int) + if w[i as int]
                == c && w[i as int] != t[i as int] {
                1nat
            } else {
                0nat
            });
            assert(before[letter_index(c)] == still_open(t, w, c, i as int));
            if c != g {
                assert(letter_index(c) != letter_index(g));
            }
        }
        assert(result@[i as int] == tag(t, w, i as int));
        i = i + 1;
    }
    assert(result@ =~= score(t, w));
    Ok(result)
}

} // verus!

//! The patterns that are taken as header filters.
//!
//! A filter is a regular expression of the plain kind: literals, classes,
//! alternation, groups and repetition, the group `(?:`, and the groups that
//! set one of the flags `i`, `m`, `s`, `U`, as in `(?i)` and `(?i:`.
//!
//! Look-around, back references, conditionals, atomic groups, possessive
//! repetition, named groups, comments and the flag `x` are not taken. Neither
//! is a pattern of more than [`MAX_PATTERN_LEN`] bytes, or one whose counts
//! `{n` have more than [`MAX_COUNT_DIGITS`] digits together.
//!
//! The test reads bytes and knows nothing of what they mean, so it errs on
//! the side of turning down: `\(?a`, in which the bracket is escaped, is
//! turned down for its `(?a`.
//!
//! A pattern of the plain kind is one that the regex engine hands whole to its
//! automaton. Its counts are small enough for every size that the engine
//! computes from them to stay below 2^31.

use vstd::prelude::*;

verus! {

/// The longest pattern that is taken, in bytes.
pub const MAX_PATTERN_LEN: usize = 2000;

/// The most digits that the lower counts of all `{..}` of a pattern may have
/// together.
pub const MAX_COUNT_DIGITS: usize = 6;

/// An ASCII digit.
pub open spec fn is_digit(byte: u8) -> bool {
    48 <= byte && byte <= 57
}

/// One of the flag letters `i`, `m`, `s`, `U`.
pub open spec fn is_flag(byte: u8) -> bool {
    byte == 105 || byte == 109 || byte == 115 || byte == 85
}

/// A `(?` at position `i`, if there is one, opens `(?:` or sets one flag:
/// `(?f)` or `(?f:`.
pub open spec fn group_is_plain(pattern: Seq<u8>, i: int) -> bool {
    pattern[i] == 40 && i + 1 < pattern.len() && pattern[i + 1] == 63 ==> (i + 2 < pattern.len()
        && pattern[i + 2] == 58) || (i + 3 < pattern.len() && is_flag(pattern[i + 2]) && (pattern[i
        + 3] == 41 || pattern[i + 3] == 58))
}

/// A backslash at position `i`, if there is one, is not followed by a digit
/// or by one of `k`, `K`, `G`.
pub open spec fn escape_is_plain(pattern: Seq<u8>, i: int) -> bool {
    pattern[i] == 92 && i + 1 < pattern.len() ==> !(is_digit(pattern[i + 1]) || pattern[i + 1] == 107
        || pattern[i + 1] == 75 || pattern[i + 1] == 71)
}

/// A `+` at position `i`, if there is one, does not follow one of `?`, `*`,
/// `+`, `}`.
pub open spec fn repeat_is_plain(pattern: Seq<u8>, i: int) -> bool {
    pattern[i] == 43 && i > 0 ==> !(pattern[i - 1] == 63 || pattern[i - 1] == 42 || pattern[i - 1]
        == 43 || pattern[i - 1] == 125)
}

/// Nothing at position `i` goes beyond the plain kind.
pub open spec fn locally_plain(pattern: Seq<u8>, i: int) -> bool {
    group_is_plain(pattern, i) && escape_is_plain(pattern, i) && repeat_is_plain(pattern, i)
}

/// The byte at position `j` is a digit of the run of digits that follows a `{`
/// directly.
pub open spec fn in_count(pattern: Seq<u8>, j: int) -> bool {
    is_digit(pattern[j]) && exists|i: int|
        0 <= i < j && #[trigger] pattern[i] == 123 && forall|k: int|
            i < k < j ==> is_digit(#[trigger] pattern[k])
}

/// The number of positions before `end` that are digits of a count.
pub open spec fn count_digits(pattern: Seq<u8>, end: int) -> nat
    decreases end,
{
    if end <= 0 {
        0
    } else {
        count_digits(pattern, end - 1) + if in_count(pattern, end - 1) {
            1nat
        } else {
            0nat
        }
    }
}

/// The bytes are those of a pattern of the plain kind.
pub open spec fn plain_bytes(pattern: Seq<u8>) -> bool {
    &&& pattern.len() <= MAX_PATTERN_LEN
    &&& forall|i: int| 0 <= i < pattern.len() ==> locally_plain(pattern, i)
    &&& count_digits(pattern, pattern.len() as int) <= MAX_COUNT_DIGITS
}

/// A digit belongs to a count exactly if it follows a `{` or a digit of a count.
pub proof fn lemma_in_count_step(pattern: Seq<u8>, j: int)
    requires
        0 <= j < pattern.len(),
    ensures
        in_count(pattern, j) <==> is_digit(pattern[j]) && j > 0 && (pattern[j - 1] == 123
            || in_count(pattern, j - 1)),
{
    if in_count(pattern, j) {
        let i = choose|i: int|
            0 <= i < j && #[trigger] pattern[i] == 123 && forall|k: int|
                i < k < j ==> is_digit(#[trigger] pattern[k]);
        if i < j - 1 {
            assert(is_digit(pattern[j - 1]));
            assert(pattern[i] == 123);
            assert(in_count(pattern, j - 1));
        }
    }
    if is_digit(pattern[j]) && j > 0 {
        if pattern[j - 1] == 123 {
            assert(pattern[j - 1] == 123);
            assert(in_count(pattern, j));
        } else if in_count(pattern, j - 1) {
            let i = choose|i: int|
                0 <= i < j - 1 && #[trigger] pattern[i] == 123 && forall|k: int|
                    i < k < j - 1 ==> is_digit(#[trigger] pattern[k]);
            assert(pattern[i] == 123);
            assert forall|k: int| i < k < j implies is_digit(#[trigger] pattern[k]) by {}
            assert(in_count(pattern, j));
        }
    }
}

/// The count of count digits does not fall as more of the pattern is read.
pub proof fn lemma_count_digits_grows(pattern: Seq<u8>, early: int, late: int)
    requires
        early <= late,
    ensures
        count_digits(pattern, early) <= count_digits(pattern, late),
    decreases late - early,
{
    if early < late {
        lemma_count_digits_grows(pattern, early, late - 1);
    }
}

/// Tells whether the bytes are those of a pattern of the plain kind.
pub fn bytes_are_plain(pattern: &[u8]) -> (plain: bool)
    ensures
        plain == plain_bytes(pattern@),
{
    let len = pattern.len();
    if len > MAX_PATTERN_LEN {
        return false;
    }
    let mut i: usize = 0;
    let mut digits: usize = 0;
    let mut counting = false;
    while i < len
        invariant
            len == pattern@.len(),
            len <= MAX_PATTERN_LEN,
            i <= len,
            forall|j: int| 0 <= j < i ==> locally_plain(pattern@, j),
            digits == count_digits(pattern@, i as int),
            digits <= MAX_COUNT_DIGITS,
            counting == (i > 0 && (pattern@[i - 1] == 123 || in_count(pattern@, i - 1))),
        decreases len - i,
    {
        let byte = pattern[i];
        proof {
            lemma_in_count_step(pattern@, i as int);
            lemma_count_digits_grows(pattern@, i + 1, len as int);
        }
        if byte == 40 && i + 1 < len && pattern[i + 1] == 63 {
            let unflagged = i + 2 < len && pattern[i + 2] == 58;
            let flagged = i + 3 < len && (pattern[i + 2] == 105 || pattern[i + 2] == 109
                || pattern[i + 2] == 115 || pattern[i + 2] == 85) && (pattern[i + 3] == 41
                || pattern[i + 3] == 58);
            if !unflagged && !flagged {
                assert(!locally_plain(pattern@, i as int));
                return false;
            }
        }
        if byte == 92 && i + 1 < len {
            let escaped = pattern[i + 1];
            if (48 <= escaped && escaped <= 57) || escaped == 107 || escaped == 75 || escaped == 71 {
                assert(!locally_plain(pattern@, i as int));
                return false;
            }
        }
        if byte == 43 && i > 0 {
            let before = pattern[i - 1];
            if before == 63 || before == 42 || before == 43 || before == 125 {
                assert(!locally_plain(pattern@, i as int));
                return false;
            }
        }
        let digit = 48 <= byte && byte <= 57;
        if counting && digit {
            if digits == MAX_COUNT_DIGITS {
                assert(count_digits(pattern@, i + 1) > MAX_COUNT_DIGITS);
                return false;
            }
            digits += 1;
        }
        counting = byte == 123 || (counting && digit);
        i += 1;
    }
    true
}

} // verus!

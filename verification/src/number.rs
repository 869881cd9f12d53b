//! The value of an integer literal.
use vstd::prelude::*;
use crate::chars::is_digit;

verus! {

/// The value of one decimal digit.
pub open spec fn digit_value(c: char) -> int {
    c as int - '0' as int
}

/// The number that `text` denotes when read as decimal digits, most significant first.
pub open spec fn decimal(text: Seq<char>) -> int
    decreases text.len(),
{
    if text.len() == 0 {
        0
    } else {
        10 * decimal(text.drop_last()) + digit_value(text.last())
    }
}

/// Whether every character of `text` is an ASCII decimal digit.
pub open spec fn all_digits(text: Seq<char>) -> bool {
    forall|i: int| 0 <= i < text.len() ==> is_digit(#[trigger] text[i])
}

/// Whether `text` is a literal whose value a token can carry: at least one character,
/// nothing but ASCII decimal digits, and a value within `isize`.
pub open spec fn representable(text: Seq<char>) -> bool {
    &&& text.len() > 0
    &&& all_digits(text)
    &&& decimal(text) <= isize::MAX
}

/// A prefix of a digit string denotes no more than the whole string.
pub proof fn lemma_decimal_prefix(text: Seq<char>, n: int)
    requires
        all_digits(text),
        0 <= n <= text.len(),
    ensures
        0 <= decimal(text.subrange(0, n)) <= decimal(text),
    decreases text.len() - n,
{
    if n == text.len() {
        assert(text.subrange(0, n) =~= text);
        lemma_decimal_nonnegative(text);
    } else {
        lemma_decimal_prefix(text, n + 1);
        let longer = text.subrange(0, n + 1);
        assert(longer.drop_last() =~= text.subrange(0, n));
        assert(longer.last() == text[n]);
        lemma_decimal_nonnegative(text.subrange(0, n));
    }
}

/// A digit string denotes a natural number.
pub proof fn lemma_decimal_nonnegative(text: Seq<char>)
    requires
        all_digits(text),
    ensures
        0 <= decimal(text),
    decreases text.len(),
{
    if text.len() > 0 {
        lemma_decimal_nonnegative(text.drop_last());
    }
}

/// Reads `text` as an integer literal: its value where it is representable, `None`
/// where it is empty, holds anything but ASCII decimal digits, or exceeds `isize`.
pub fn parse_integer(text: &str) -> (value: Option<isize>)
    ensures
        value == if representable(text@) {
            Some(decimal(text@) as isize)
        } else {
            None
        },
{
    let len = text.unicode_len();
    if len == 0 {
        return None;
    }
    let mut value: isize = 0;
    let mut i: usize = 0;
    while i < len
        invariant
            len == text@.len(),
            0 <= i <= len,
            all_digits(text@.subrange(0, i as int)),
            value == decimal(text@.subrange(0, i as int)),
            0 <= value,
        decreases len - i,
    {
        let c = text.get_char(i);
        let ghost before = text@.subrange(0, i as int);
        let ghost after = text@.subrange(0, i + 1);
        proof {
            assert(after.drop_last() =~= before);
            assert(after.last() == c);
        }
        if !('0' <= c && c <= '9') {
            assert(!is_digit(text@[i as int]));
            return None;
        }
        let digit: isize = ((c as u32) - ('0' as u32)) as isize;
        assert(digit == digit_value(c));
        if value > (isize::MAX - digit) / 10 {
            proof {
                assert(decimal(after) > isize::MAX);
                if all_digits(text@) {
                    lemma_decimal_prefix(text@, i + 1);
                }
            }
            return None;
        }
        value = value * 10 + digit;
        i = i + 1;
        proof {
            assert forall|k: int| 0 <= k < after.len() implies is_digit(#[trigger] after[k]) by {
                if k < i - 1 {
                    assert(after[k] == before[k]);
                }
            }
        }
    }
    proof {
        assert(text@.subrange(0, len as int) =~= text@);
    }
    Some(value)
}

} // verus!

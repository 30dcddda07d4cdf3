//! Decimal integers as they stand on the wire: an optional sign and one or
//! more ASCII digits.

use vstd::prelude::*;

verus! {

/// The byte `+`.
pub const PLUS: u8 = 43;

/// The byte `-`.
pub const MINUS: u8 = 45;

/// The byte `0`.
pub const ZERO: u8 = 48;

/// The byte `9`.
pub const NINE: u8 = 57;

/// The largest magnitude a negative `i64` can have, 2^63.
pub const I64_MIN_MAGNITUDE: u64 = 9223372036854775808;

/// Whether `b` is one of the ASCII digits `0` to `9`.
pub open spec fn is_digit(b: u8) -> bool {
    ZERO <= b <= NINE
}

/// Whether every byte of `s` is an ASCII digit.
pub open spec fn all_digits(s: Seq<u8>) -> bool {
    forall|i: int| 0 <= i < s.len() ==> is_digit(#[trigger] s[i])
}

/// The number a digit stands for; zero for any other byte.
pub open spec fn digit_value(b: u8) -> nat {
    if is_digit(b) {
        (b - ZERO) as nat
    } else {
        0
    }
}

/// The number that the digits of `s` write in base ten, most significant
/// digit first.
pub open spec fn digits_value(s: Seq<u8>) -> nat
    decreases s.len(),
{
    if s.len() == 0 {
        0
    } else {
        digits_value(s.drop_last()) * 10 + digit_value(s.last())
    }
}

/// The number written by `s` if `s` is one or more digits and nothing else.
pub open spec fn magnitude(s: Seq<u8>) -> Option<nat> {
    if s.len() > 0 && all_digits(s) {
        Some(digits_value(s))
    } else {
        None
    }
}

/// The text after an optional leading `+`.
pub open spec fn after_plus(s: Seq<u8>) -> Seq<u8> {
    if s.len() > 0 && s[0] == PLUS {
        s.drop_first()
    } else {
        s
    }
}

/// Reads `s` as an unsigned decimal: an optional `+`, then one or more
/// digits whose value fits in a `u64`. Anything else is no number.
pub open spec fn parse_u64_spec(s: Seq<u8>) -> Option<u64> {
    match magnitude(after_plus(s)) {
        Some(m) => if m <= u64::MAX {
            Some(m as u64)
        } else {
            None
        },
        None => None,
    }
}

/// Reads `s` as a signed decimal: an optional `+` or `-`, then one or more
/// digits whose signed value fits in an `i64`. Anything else is no number.
pub open spec fn parse_i64_spec(s: Seq<u8>) -> Option<i64> {
    if s.len() > 0 && s[0] == MINUS {
        match magnitude(s.drop_first()) {
            Some(m) => if m <= I64_MIN_MAGNITUDE {
                Some((-(m as int)) as i64)
            } else {
                None
            },
            None => None,
        }
    } else {
        match magnitude(after_plus(s)) {
            Some(m) => if m <= i64::MAX {
                Some(m as i64)
            } else {
                None
            },
            None => None,
        }
    }
}

/// The shortest digit string that writes `n` in base ten.
pub open spec fn decimal_digits(n: nat) -> Seq<u8>
    decreases n,
{
    if n < 10 {
        seq![(ZERO + n) as u8]
    } else {
        decimal_digits(n / 10).push((ZERO + n % 10) as u8)
    }
}

/// The text that writes the signed number `n` in base ten, with a leading
/// `-` for a negative number and no sign otherwise.
pub open spec fn decimal_text(n: int) -> Seq<u8> {
    if n < 0 {
        seq![MINUS] + decimal_digits((-n) as nat)
    } else {
        decimal_digits(n as nat)
    }
}

/// A digit string is worth at least as much as any of its prefixes.
proof fn lemma_digits_value_prefix(s: Seq<u8>, k: int)
    requires
        0 <= k <= s.len(),
    ensures
        digits_value(s.subrange(0, k)) <= digits_value(s),
    decreases s.len(),
{
    if k == s.len() {
        assert(s.subrange(0, k) =~= s);
    } else {
        lemma_digits_value_prefix(s.drop_last(), k);
        assert(s.drop_last().subrange(0, k) =~= s.subrange(0, k));
    }
}

/// The digits written for `n` are digits, and read back as `n`.
pub proof fn lemma_decimal_digits(n: nat)
    ensures
        decimal_digits(n).len() > 0,
        all_digits(decimal_digits(n)),
        digits_value(decimal_digits(n)) == n,
    decreases n,
{
    if n < 10 {
        let s = decimal_digits(n);
        assert(s.drop_last() =~= Seq::<u8>::empty());
        assert(digits_value(s.drop_last()) == 0);
    } else {
        lemma_decimal_digits(n / 10);
        let s = decimal_digits(n);
        assert(s.drop_last() =~= decimal_digits(n / 10));
    }
}

/// Every number of the `i64` range reads back from the text written for it.
pub proof fn lemma_decimal_text_round_trip(n: i64)
    ensures
        parse_i64_spec(decimal_text(n as int)) == Some(n),
{
    if n < 0 {
        let m = (-(n as int)) as nat;
        lemma_decimal_digits(m);
        let t = decimal_text(n as int);
        assert(t.drop_first() =~= decimal_digits(m));
    } else {
        let m = n as nat;
        lemma_decimal_digits(m);
        let t = decimal_text(n as int);
        assert(t[0] == decimal_digits(m)[0]);
        assert(is_digit(t[0]));
        assert(after_plus(t) == t);
    }
}

/// Reads the bytes of `buf` from `start` up to `end` as a run of digits.
fn read_digits(buf: &[u8], start: usize, end: usize) -> (r: Option<u64>)
    requires
        start <= end <= buf@.len(),
    ensures
        r == match magnitude(buf@.subrange(start as int, end as int)) {
            Some(m) => if m <= u64::MAX {
                Some(m as u64)
            } else {
                None
            },
            None => None,
        },
{
    if start == end {
        return None;
    }
    let ghost text = buf@.subrange(start as int, end as int);
    let mut acc: u64 = 0;
    let mut i: usize = start;
    while i < end
        invariant
            start <= i <= end <= buf@.len(),
            text == buf@.subrange(start as int, end as int),
            all_digits(text.subrange(0, i - start)),
            acc == digits_value(text.subrange(0, i - start)),
        decreases end - i,
    {
        let b: u8 = buf[i];
        if b < ZERO || b > NINE {
            assert(!is_digit(text[i - start]));
            return None;
        }
        let d: u64 = (b - ZERO) as u64;
        let ghost before = text.subrange(0, i - start);
        let ghost after = text.subrange(0, i - start + 1);
        proof {
            assert(after.drop_last() =~= before);
            assert(after.last() == b);
            assert(digits_value(after) == acc * 10 + d);
            assert forall|j: int| 0 <= j < after.len() implies is_digit(#[trigger] after[j]) by {
                if j < before.len() {
                    assert(after[j] == before[j]);
                }
            }
        }
        if acc > (u64::MAX - d) / 10 {
            proof {
                lemma_digits_value_prefix(text, i - start + 1);
            }
            return None;
        }
        acc = acc * 10 + d;
        i = i + 1;
    }
    proof {
        assert(text.subrange(0, end - start) =~= text);
    }
    Some(acc)
}

/// Reads the bytes of `buf` from `start` up to `end` as an unsigned decimal.
fn read_unsigned(buf: &[u8], start: usize, end: usize) -> (r: Option<u64>)
    requires
        start <= end <= buf@.len(),
    ensures
        r == parse_u64_spec(buf@.subrange(start as int, end as int)),
{
    let ghost text = buf@.subrange(start as int, end as int);
    if start < end && buf[start] == PLUS {
        proof {
            assert(text[0] == PLUS);
            assert(buf@.subrange(start + 1, end as int) =~= text.drop_first());
        }
        read_digits(buf, start + 1, end)
    } else {
        proof {
            if start < end {
                assert(text[0] == buf@[start as int]);
            }
        }
        read_digits(buf, start, end)
    }
}

/// Reads `text` as an unsigned decimal.
pub fn parse_u64(text: &[u8]) -> (r: Option<u64>)
    ensures
        r == parse_u64_spec(text@),
{
    proof {
        assert(text@.subrange(0, text@.len() as int) =~= text@);
    }
    read_unsigned(text, 0, text.len())
}

/// Reads `text` as a signed decimal.
pub fn parse_i64(text: &[u8]) -> (r: Option<i64>)
    ensures
        r == parse_i64_spec(text@),
{
    let end = text.len();
    proof {
        assert(text@.subrange(0, end as int) =~= text@);
    }
    if 0 < end && text[0] == MINUS {
        proof {
            assert(text@.subrange(1, end as int) =~= text@.drop_first());
        }
        match read_digits(text, 1, end) {
            Some(m) => {
                if m < I64_MIN_MAGNITUDE {
                    Some(-(m as i64))
                } else if m == I64_MIN_MAGNITUDE {
                    Some(i64::MIN)
                } else {
                    None
                }
            },
            None => None,
        }
    } else {
        match read_unsigned(text, 0, end) {
            Some(m) => {
                if m <= i64::MAX as u64 {
                    Some(m as i64)
                } else {
                    None
                }
            },
            None => None,
        }
    }
}

} // verus!

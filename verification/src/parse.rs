//! Parsers for the two string fields the providers hand over: a local
//! timestamp written `YYYY-MM-DDTHH:MM:SS`, and a signed decimal minutes
//! count. Each parser's result is pinned exactly by a spec function, and a
//! string outside the grammar yields `None` rather than a default.

use crate::datetime::{wf, wf_x, DateTime};
use vstd::prelude::*;

verus! {

pub open spec fn is_digit(c: char) -> bool {
    48 <= c as u32 <= 57
}

pub open spec fn digit_val(c: char) -> int {
    c as u32 - 48
}

/// Value of the two digits at `i` and `i + 1`.
pub open spec fn two_digits(s: Seq<char>, i: int) -> int {
    digit_val(s[i]) * 10 + digit_val(s[i + 1])
}

/// Value of the four digits starting at `i`.
pub open spec fn four_digits(s: Seq<char>, i: int) -> int {
    digit_val(s[i]) * 1000 + digit_val(s[i + 1]) * 100 + digit_val(s[i + 2]) * 10 + digit_val(
        s[i + 3],
    )
}

/// The characters spell `YYYY-MM-DDTHH:MM:SS`.
pub open spec fn timestamp_shape_ok(s: Seq<char>) -> bool {
    &&& s.len() == 19
    &&& is_digit(s[0]) && is_digit(s[1]) && is_digit(s[2]) && is_digit(s[3])
    &&& s[4] == '-'
    &&& is_digit(s[5]) && is_digit(s[6])
    &&& s[7] == '-'
    &&& is_digit(s[8]) && is_digit(s[9])
    &&& s[10] == 'T'
    &&& is_digit(s[11]) && is_digit(s[12])
    &&& s[13] == ':'
    &&& is_digit(s[14]) && is_digit(s[15])
    &&& s[16] == ':'
    &&& is_digit(s[17]) && is_digit(s[18])
}

pub open spec fn timestamp_fields(s: Seq<char>) -> DateTime {
    DateTime {
        year: four_digits(s, 0) as i64,
        month: two_digits(s, 5) as u8,
        day: two_digits(s, 8) as u8,
        hour: two_digits(s, 11) as u8,
        minute: two_digits(s, 14) as u8,
        second: two_digits(s, 17) as u8,
    }
}

/// What a timestamp string denotes: its fields, when it spells
/// `YYYY-MM-DDTHH:MM:SS` and those fields name a real calendar time;
/// nothing otherwise.
pub open spec fn timestamp_of(s: Seq<char>) -> Option<DateTime> {
    if timestamp_shape_ok(s) && wf(timestamp_fields(s)) {
        Some(timestamp_fields(s))
    } else {
        None
    }
}

fn digit_of(c: char) -> (r: Option<u8>)
    ensures
        r is Some <==> is_digit(c),
        r is Some ==> r->0 == digit_val(c),
{
    let v = c as u32;
    if 48 <= v && v <= 57 {
        Some((v - 48) as u8)
    } else {
        None
    }
}

/// Parse a provider timestamp. Exactly the strings of shape
/// `YYYY-MM-DDTHH:MM:SS` naming a real calendar time are accepted.
pub fn parse_timestamp(s: &str) -> (r: Option<DateTime>)
    ensures
        r == timestamp_of(s@),
{
    if s.unicode_len() != 19 {
        return None;
    }
    if s.get_char(4) != '-' || s.get_char(7) != '-' || s.get_char(10) != 'T' || s.get_char(13)
        != ':' || s.get_char(16) != ':' {
        return None;
    }
    let d0 = match digit_of(s.get_char(0)) {
        Some(d) => d,
        None => { return None },
    };
    let d1 = match digit_of(s.get_char(1)) {
        Some(d) => d,
        None => { return None },
    };
    let d2 = match digit_of(s.get_char(2)) {
        Some(d) => d,
        None => { return None },
    };
    let d3 = match digit_of(s.get_char(3)) {
        Some(d) => d,
        None => { return None },
    };
    let mo0 = match digit_of(s.get_char(5)) {
        Some(d) => d,
        None => { return None },
    };
    let mo1 = match digit_of(s.get_char(6)) {
        Some(d) => d,
        None => { return None },
    };
    let da0 = match digit_of(s.get_char(8)) {
        Some(d) => d,
        None => { return None },
    };
    let da1 = match digit_of(s.get_char(9)) {
        Some(d) => d,
        None => { return None },
    };
    let h0 = match digit_of(s.get_char(11)) {
        Some(d) => d,
        None => { return None },
    };
    let h1 = match digit_of(s.get_char(12)) {
        Some(d) => d,
        None => { return None },
    };
    let mi0 = match digit_of(s.get_char(14)) {
        Some(d) => d,
        None => { return None },
    };
    let mi1 = match digit_of(s.get_char(15)) {
        Some(d) => d,
        None => { return None },
    };
    let se0 = match digit_of(s.get_char(17)) {
        Some(d) => d,
        None => { return None },
    };
    let se1 = match digit_of(s.get_char(18)) {
        Some(d) => d,
        None => { return None },
    };
    let dt = DateTime {
        year: d0 as i64 * 1000 + d1 as i64 * 100 + d2 as i64 * 10 + d3 as i64,
        month: mo0 * 10 + mo1,
        day: da0 * 10 + da1,
        hour: h0 * 10 + h1,
        minute: mi0 * 10 + mi1,
        second: se0 * 10 + se1,
    };
    if wf_x(&dt) {
        Some(dt)
    } else {
        None
    }
}

/// Magnitude of `i64::MIN`, the largest magnitude a parsed value may carry.
pub const I64_MAG_LIMIT: u64 = 9_223_372_036_854_775_808;

pub open spec fn all_digits(s: Seq<char>) -> bool {
    forall|i: int| 0 <= i < s.len() ==> is_digit(s[i])
}

/// The number the digit characters of `s` spell, most significant first.
pub open spec fn digits_val(s: Seq<char>) -> int
    decreases s.len(),
{
    if s.len() == 0 {
        0
    } else {
        digits_val(s.drop_last()) * 10 + digit_val(s.last())
    }
}

/// The characters spell an integer: digits, with one optional leading sign.
pub open spec fn int_grammar_ok(s: Seq<char>) -> bool {
    if s.len() > 0 && (s[0] == '-' || s[0] == '+') {
        s.len() >= 2 && all_digits(s.skip(1))
    } else {
        s.len() >= 1 && all_digits(s)
    }
}

pub open spec fn int_value(s: Seq<char>) -> int {
    if s.len() > 0 && s[0] == '-' {
        -digits_val(s.skip(1))
    } else if s.len() > 0 && s[0] == '+' {
        digits_val(s.skip(1))
    } else {
        digits_val(s)
    }
}

/// What an integer string denotes: its value, when it spells an integer that
/// fits in an `i64`; nothing otherwise.
pub open spec fn i64_of_str(s: Seq<char>) -> Option<i64> {
    if int_grammar_ok(s) && i64::MIN <= int_value(s) <= i64::MAX {
        Some(int_value(s) as i64)
    } else {
        None
    }
}

proof fn lemma_digits_val_nonneg(s: Seq<char>)
    requires
        all_digits(s),
    ensures
        digits_val(s) >= 0,
    decreases s.len(),
{
    if s.len() > 0 {
        assert(all_digits(s.drop_last()));
        lemma_digits_val_nonneg(s.drop_last());
    }
}

/// A digit string's value never shrinks as digits are appended.
proof fn lemma_digits_val_prefix(s: Seq<char>, k: int)
    requires
        all_digits(s),
        0 <= k <= s.len(),
    ensures
        digits_val(s.take(k)) <= digits_val(s),
    decreases s.len() - k,
{
    if k == s.len() {
        assert(s.take(k) =~= s);
    } else {
        lemma_digits_val_prefix(s, k + 1);
        assert(s.take(k + 1).drop_last() =~= s.take(k));
        assert(all_digits(s.take(k)));
        lemma_digits_val_nonneg(s.take(k));
    }
}

/// Parse a signed decimal integer: digits with one optional leading sign,
/// rejected when the value does not fit in an `i64`.
pub fn parse_i64(s: &str) -> (r: Option<i64>)
    ensures
        r == i64_of_str(s@),
{
    let n = s.unicode_len();
    if n == 0 {
        return None;
    }
    let c0 = s.get_char(0);
    let neg = c0 == '-';
    let signed = neg || c0 == '+';
    let start: usize = if signed {
        1
    } else {
        0
    };
    if start >= n {
        return None;
    }
    let mut i: usize = start;
    let mut mag: u64 = 0;
    while i < n
        invariant
            start <= i <= n,
            n == s@.len(),
            start == if signed {
                1int
            } else {
                0int
            },
            neg ==> s@[0] == '-',
            signed ==> (s@[0] == '-' || s@[0] == '+'),
            !signed ==> (s@[0] != '-' && s@[0] != '+'),
            start < n,
            forall|j: int| start <= j < i ==> is_digit(s@[j]),
            mag == digits_val(s@.subrange(start as int, i as int)),
            mag <= I64_MAG_LIMIT,
        decreases n - i,
    {
        let ghost tail = s@.skip(start as int);
        let c = s.get_char(i);
        let d = match digit_of(c) {
            Some(d) => d,
            None => {
                proof {
                    assert(!all_digits(tail)) by {
                        assert(tail[i - start] == s@[i as int]);
                    }
                }
                return None;
            },
        };
        proof {
            assert(s@.subrange(start as int, i + 1).drop_last() =~= s@.subrange(
                start as int,
                i as int,
            ));
        }
        let next = match mag.checked_mul(10) {
            None => None,
            Some(x) => x.checked_add(d as u64),
        };
        let over = match next {
            None => true,
            Some(v) => v > I64_MAG_LIMIT,
        };
        if over {
            proof {
                let pre = s@.subrange(start as int, i + 1);
                assert(digits_val(pre) > I64_MAG_LIMIT);
                if int_grammar_ok(s@) {
                    assert(pre =~= tail.take(i + 1 - start));
                    assert(all_digits(tail));
                    lemma_digits_val_prefix(tail, i + 1 - start);
                    if signed {
                        assert(s@.skip(1) == tail);
                    } else {
                        assert(tail =~= s@);
                    }
                }
            }
            return None;
        }
        mag = match next {
            Some(v) => v,
            None => 0,
        };
        i = i + 1;
    }
    proof {
        let tail = s@.skip(start as int);
        assert(s@.subrange(start as int, n as int) =~= tail);
        assert(all_digits(tail));
        if signed {
            assert(s@.skip(1) == tail);
        } else {
            assert(tail =~= s@);
        }
        assert(int_grammar_ok(s@));
    }
    if neg {
        if mag == I64_MAG_LIMIT {
            Some(i64::MIN)
        } else {
            Some(-(mag as i64))
        }
    } else {
        if mag == I64_MAG_LIMIT {
            None
        } else {
            Some(mag as i64)
        }
    }
}

} // verus!

//! The printed lines. A record with a prediction becomes
//! `{route} {direction}: {name} at {12-hour time} ({minutes}m away)`;
//! one without becomes `{route}: {name} (no prediction)`. Each piece —
//! decimal numbers, the 12-hour clock — is pinned by a spec function.

use crate::datetime::{diff_minutes, minutes_between, wf, DateTime};
use crate::records::{StopInfo, StopInfoV};
use vstd::prelude::*;

verus! {

pub open spec fn digit_char(d: int) -> char {
    if d == 0 {
        '0'
    } else if d == 1 {
        '1'
    } else if d == 2 {
        '2'
    } else if d == 3 {
        '3'
    } else if d == 4 {
        '4'
    } else if d == 5 {
        '5'
    } else if d == 6 {
        '6'
    } else if d == 7 {
        '7'
    } else if d == 8 {
        '8'
    } else {
        '9'
    }
}

/// Decimal digits of a non-negative number, most significant first.
pub open spec fn dec_nat(n: int) -> Seq<char>
    decreases n,
{
    if n <= 9 {
        seq![digit_char(n)]
    } else {
        dec_nat(n / 10).push(digit_char(n % 10))
    }
}

/// A number written in decimal, with `-` ahead of a negative one.
pub open spec fn dec_str(v: int) -> Seq<char> {
    if v < 0 {
        seq!['-'] + dec_nat(-v)
    } else {
        dec_nat(v)
    }
}

/// Two decimal digits, zero-padded.
pub open spec fn pad2(n: int) -> Seq<char> {
    seq![digit_char(n / 10), digit_char(n % 10)]
}

pub open spec fn hour12(h: int) -> int {
    if h % 12 == 0 {
        12
    } else {
        h % 12
    }
}

/// A time of day on the 12-hour clock: `HH:MM AM` or `HH:MM PM`.
pub open spec fn time12_chars(h: int, mi: int) -> Seq<char> {
    pad2(hour12(h)) + ":"@ + pad2(mi) + " "@ + (if h < 12 {
        "AM"@
    } else {
        "PM"@
    })
}

/// The line for a record that carries a prediction.
pub open spec fn line_with_prediction(
    route: Seq<char>,
    direction: Seq<char>,
    name: Seq<char>,
    pred: DateTime,
    now: DateTime,
) -> Seq<char> {
    route + " "@ + direction + ": "@ + name + " at "@ + time12_chars(
        pred.hour as int,
        pred.minute as int,
    ) + " ("@ + dec_str(minutes_between(pred, now)) + "m away)"@
}

/// The line for a record without one.
pub open spec fn line_without_prediction(route: Seq<char>, name: Seq<char>) -> Seq<char> {
    route + ": "@ + name + " (no prediction)"@
}

/// The line a record prints against the current time `now`: the
/// no-prediction form without a prediction; the full form where the record
/// carries a well-formed prediction and a direction; nothing where it
/// carries a prediction the form cannot print.
pub open spec fn rendered(info: StopInfoV, now: DateTime) -> Option<Seq<char>> {
    match info.prediction {
        None => Some(line_without_prediction(info.route, info.name)),
        Some(p) => match info.direction {
            Some(d) => if wf(p) {
                Some(line_with_prediction(info.route, d, info.name, p, now))
            } else {
                None
            },
            None => None,
        },
    }
}

fn digit_str(d: u64) -> (r: &'static str)
    requires
        d <= 9,
    ensures
        r@ == seq![digit_char(d as int)],
{
    if d == 0 {
        proof {
            reveal_strlit("0");
            assert("0"@ =~= seq![digit_char(0)]);
        }
        "0"
    } else if d == 1 {
        proof {
            reveal_strlit("1");
            assert("1"@ =~= seq![digit_char(1)]);
        }
        "1"
    } else if d == 2 {
        proof {
            reveal_strlit("2");
            assert("2"@ =~= seq![digit_char(2)]);
        }
        "2"
    } else if d == 3 {
        proof {
            reveal_strlit("3");
            assert("3"@ =~= seq![digit_char(3)]);
        }
        "3"
    } else if d == 4 {
        proof {
            reveal_strlit("4");
            assert("4"@ =~= seq![digit_char(4)]);
        }
        "4"
    } else if d == 5 {
        proof {
            reveal_strlit("5");
            assert("5"@ =~= seq![digit_char(5)]);
        }
        "5"
    } else if d == 6 {
        proof {
            reveal_strlit("6");
            assert("6"@ =~= seq![digit_char(6)]);
        }
        "6"
    } else if d == 7 {
        proof {
            reveal_strlit("7");
            assert("7"@ =~= seq![digit_char(7)]);
        }
        "7"
    } else if d == 8 {
        proof {
            reveal_strlit("8");
            assert("8"@ =~= seq![digit_char(8)]);
        }
        "8"
    } else {
        proof {
            reveal_strlit("9");
            assert("9"@ =~= seq![digit_char(9)]);
        }
        "9"
    }
}

/// A non-negative number in decimal.
fn u64_dec(n: u64) -> (r: String)
    ensures
        r@ == dec_nat(n as int),
    decreases n,
{
    if n <= 9 {
        String::from_str(digit_str(n))
    } else {
        let q = n / 10;
        let rest = digit_str(n % 10);
        let pre = u64_dec(q);
        let r = pre.concat(rest);
        proof {
            assert(r@ =~= dec_nat(q as int).push(digit_char(n as int % 10)));
        }
        r
    }
}

/// A signed number in decimal.
pub fn i64_dec(v: i64) -> (r: String)
    ensures
        r@ == dec_str(v as int),
{
    if v >= 0 {
        u64_dec(v as u64)
    } else {
        let mag: u64 = ((-(v + 1)) as u64) + 1;
        let mut s = String::from_str("-");
        let digits = u64_dec(mag);
        s.append(digits.as_str());
        proof {
            reveal_strlit("-");
            assert(s@ =~= seq!['-'] + dec_nat(mag as int));
        }
        s
    }
}

fn two_dec(n: u8) -> (r: String)
    requires
        n <= 99,
    ensures
        r@ == pad2(n as int),
{
    let t = digit_str((n / 10) as u64);
    let o = digit_str((n % 10) as u64);
    let r = String::from_str(t).concat(o);
    proof {
        assert(r@ =~= pad2(n as int));
    }
    r
}

/// A record's time of day on the 12-hour clock.
pub fn format_time12(dt: &DateTime) -> (r: String)
    requires
        wf(*dt),
    ensures
        r@ == time12_chars(dt.hour as int, dt.minute as int),
{
    let h12: u8 = if dt.hour % 12 == 0 {
        12
    } else {
        dt.hour % 12
    };
    let mut s = two_dec(h12);
    s.append(":");
    let m = two_dec(dt.minute);
    s.append(m.as_str());
    s.append(" ");
    s.append(
        if dt.hour < 12 {
            "AM"
        } else {
            "PM"
        },
    );
    s
}

/// The line a record prints, minutes measured from `now`; `None` exactly
/// where the record carries a prediction the full form cannot print (no
/// direction beside it, or fields naming no calendar time).
pub fn render_line(info: &StopInfo, now: &DateTime) -> (r: Option<String>)
    requires
        wf(*now),
    ensures
        match r {
            Some(s) => rendered(info@, *now) == Some(s@),
            None => rendered(info@, *now) is None,
        },
{
    match &info.prediction {
        None => {
            let mut s = info.route.clone();
            s.append(": ");
            s.append(info.name.as_str());
            s.append(" (no prediction)");
            Some(s)
        },
        Some(p) => {
            let d = match &info.direction {
                Some(d) => d,
                None => { return None },
            };
            if !crate::datetime::wf_x(p) {
                return None;
            }
            let mut s = info.route.clone();
            s.append(" ");
            s.append(d.as_str());
            s.append(": ");
            s.append(info.name.as_str());
            s.append(" at ");
            let t = format_time12(p);
            s.append(t.as_str());
            s.append(" (");
            let m = i64_dec(diff_minutes(p, now));
            s.append(m.as_str());
            s.append("m away)");
            Some(s)
        },
    }
}

} // verus!

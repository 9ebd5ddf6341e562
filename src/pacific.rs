use vstd::prelude::*;

use crate::text::{
    chars_of, decimal, digit_of, digit_run_start, digit_value, digits_to_i32, digits_value, is_ascii_digit, is_digit,
    lemma_run_start, push_decimal, run_start,
};
use crate::time::{HourMinutePair, InvalidTimeString};

verus! {

/// The first letter of `am`, in either case.
pub open spec fn is_a_letter(c: char) -> bool {
    c == 'a' || c == 'A'
}

/// The first letter of `pm`, in either case.
pub open spec fn is_p_letter(c: char) -> bool {
    c == 'p' || c == 'P'
}

/// The second letter of `am` or `pm`, in either case.
pub open spec fn is_m_letter(c: char) -> bool {
    c == 'm' || c == 'M'
}

/// Position `k` holds a `:` with a digit before it and, after it, two digits
/// and a meridian (`am` or `pm` in any case): a match of digits, `:`, two
/// digits, meridian goes through it.
pub open spec fn is_pacific_separator(s: Seq<char>, k: int) -> bool {
    &&& 1 <= k
    &&& k + 4 < s.len()
    &&& s[k] == ':'
    &&& is_digit(s[k - 1])
    &&& is_digit(s[k + 1])
    &&& is_digit(s[k + 2])
    &&& (is_a_letter(s[k + 3]) || is_p_letter(s[k + 3]))
    &&& is_m_letter(s[k + 4])
}

/// Position `k` is the leftmost separator of `s`.
pub open spec fn is_first_pacific_separator(s: Seq<char>, k: int) -> bool {
    &&& is_pacific_separator(s, k)
    &&& forall|j: int| 0 <= j < k ==> !is_pacific_separator(s, j)
}

/// Some substring of `s` reads as digits, `:`, two digits, meridian.
pub open spec fn has_pacific_time(s: Seq<char>) -> bool {
    exists|k: int| is_first_pacific_separator(s, k)
}

/// The hour as written in the leftmost match: the whole run of digits before its `:`.
pub open spec fn pacific_written_hour(s: Seq<char>) -> nat {
    let k = choose|k: int| is_first_pacific_separator(s, k);
    digits_value(s.subrange(run_start(s, k), k))
}

/// The two minute digits of the leftmost match.
pub open spec fn pacific_minute(s: Seq<char>) -> nat {
    let k = choose|k: int| is_first_pacific_separator(s, k);
    digits_value(s.subrange(k + 1, k + 3))
}

/// The leftmost match carries `pm`.
pub open spec fn pacific_is_pm(s: Seq<char>) -> bool {
    let k = choose|k: int| is_first_pacific_separator(s, k);
    is_p_letter(s[k + 3])
}

/// The hour of the day for a 12-hour clock reading: `12am` is 0, `12pm` is 12,
/// another hour gains 12 after noon.
pub open spec fn hour_of_day(written: nat, pm: bool) -> nat {
    if !pm {
        if written == 12 {
            0
        } else {
            written
        }
    } else {
        if written == 12 {
            12
        } else {
            written + 12
        }
    }
}

/// What reading Pacific notation out of `s` gives: the leftmost match of
/// digits, `:`, two digits, meridian anywhere in `s`, its hour taken to the
/// 24-hour clock; refused where there is none or the hour does not fit an `i32`.
pub open spec fn pacific_parse(s: Seq<char>) -> Result<HourMinutePair, InvalidTimeString> {
    let hour = hour_of_day(pacific_written_hour(s), pacific_is_pm(s));
    if has_pacific_time(s) && hour <= i32::MAX {
        Ok(HourMinutePair { hour: hour as i32, minute: pacific_minute(s) as i32 })
    } else {
        Err(InvalidTimeString)
    }
}

/// A time in Pacific notation: `<hour>:<minute>AM` before noon, the hour
/// unchanged (0 stays 0); `12:<minute>PM` at noon; `<hour - 12>:<minute>PM`
/// after. The minute has no padding.
pub open spec fn pacific_text(time: HourMinutePair) -> Seq<char> {
    let minute = decimal(time.minute as int);
    if time.hour > 12 {
        decimal(time.hour - 12) + seq![':'] + minute + seq!['P', 'M']
    } else if time.hour == 12 {
        seq!['1', '2', ':'] + minute + seq!['P', 'M']
    } else {
        decimal(time.hour as int) + seq![':'] + minute + seq!['A', 'M']
    }
}

/// Two leftmost separators are the same one.
proof fn lemma_first_pacific_separator_unique(s: Seq<char>, k1: int, k2: int)
    requires
        is_first_pacific_separator(s, k1),
        is_first_pacific_separator(s, k2),
    ensures
        k1 == k2,
{
}

/// The position of the leftmost `:` that a Pacific time goes through, if any.
fn find_pacific_separator(v: &Vec<char>) -> (r: Option<usize>)
    ensures
        match r {
            Some(k) => is_first_pacific_separator(v@, k as int),
            None => !has_pacific_time(v@),
        },
{
    let n = v.len();
    let mut k: usize = 1;
    while k < n && 4 < n - k
        invariant
            n == v@.len(),
            1 <= k,
            forall|j: int| 0 <= j < k ==> !is_pacific_separator(v@, j),
        decreases n - k,
    {
        let meridian = v[k + 3];
        let last = v[k + 4];
        if v[k] == ':' && is_ascii_digit(v[k - 1]) && is_ascii_digit(v[k + 1]) && is_ascii_digit(
            v[k + 2],
        ) && (meridian == 'a' || meridian == 'A' || meridian == 'p' || meridian == 'P') && (last
            == 'm' || last == 'M') {
            return Some(k);
        }
        k = k + 1;
    }
    assert forall|j: int| !is_first_pacific_separator(v@, j) by {
        if 0 <= j < k {
        } else {
            assert(!is_pacific_separator(v@, j));
        }
    }
    None
}

/// Reads a time in Pacific notation (`5:30PM`) out of a string: the leftmost
/// match of digits, `:`, two digits, `am` or `pm` in any case, wherever it
/// stands, with its hour taken to the 24-hour clock.
pub fn pst_time_string_to_time(pst_time_string: &String) -> (r: Result<
    HourMinutePair,
    InvalidTimeString,
>)
    ensures
        r == pacific_parse(pst_time_string@),
{
    let v = chars_of(pst_time_string.as_str());
    let ghost s = v@;
    let k = match find_pacific_separator(&v) {
        None => {
            return Err(InvalidTimeString);
        },
        Some(k) => k,
    };
    proof {
        let c = choose|c: int| is_first_pacific_separator(s, c);
        lemma_first_pacific_separator_unique(s, k as int, c);
        lemma_run_start(s, k as int);
        assert(s.subrange(k + 1, k + 3) =~= seq![s[k + 1], s[k + 2]]);
        assert(seq![s[k + 1], s[k + 2]].drop_last() =~= seq![s[k + 1]]);
        assert(seq![s[k + 1]].drop_last() =~= Seq::<char>::empty());
        assert(digits_value(Seq::<char>::empty()) == 0);
        assert(digits_value(seq![s[k + 1]]) == digit_value(s[k + 1]));
    }
    let n = v.len();
    assert(k + 4 < n);
    let start = digit_run_start(&v, k);
    let written = digits_to_i32(&v, start, k);
    let minute: i32 = (digit_of(v[k + 1]) * 10 + digit_of(v[k + 2])) as i32;
    let first = v[k + 3];
    let second = v[k + 4];
    let is_am = (first == 'a' || first == 'A') && (second == 'm' || second == 'M');
    let is_pm = (first == 'p' || first == 'P') && (second == 'm' || second == 'M');
    assert(pacific_minute(s) == minute);
    if is_am {
        match written {
            Some(12) => Ok(HourMinutePair { hour: 0, minute }),
            Some(h) => Ok(HourMinutePair { hour: h, minute }),
            None => Err(InvalidTimeString),
        }
    } else if is_pm {
        match written {
            Some(12) => Ok(HourMinutePair { hour: 12, minute }),
            Some(h) => {
                if h <= i32::MAX - 12 {
                    Ok(HourMinutePair { hour: 12 + h, minute })
                } else {
                    Err(InvalidTimeString)
                }
            },
            None => Err(InvalidTimeString),
        }
    } else {
        Err(InvalidTimeString)
    }
}

/// Writes a time in Pacific notation: `<hour>:<minute>AM` for an hour up to 11
/// (0 is written `0`), `12:<minute>PM` at noon, `<hour - 12>:<minute>PM` after;
/// the minute without padding (`0:5AM`).
pub fn time_to_pst_time_string(time: &HourMinutePair) -> (r: String)
    ensures
        r@ == pacific_text(*time),
{
    proof {
        reveal_strlit(":");
        reveal_strlit("12:");
        reveal_strlit("AM");
        reveal_strlit("PM");
    }
    let mut out = String::new();
    if time.hour > 12 {
        push_decimal(&mut out, time.hour - 12);
        out.append(":");
        push_decimal(&mut out, time.minute);
        out.append("PM");
    } else if time.hour == 12 {
        out.append("12:");
        push_decimal(&mut out, time.minute);
        out.append("PM");
    } else {
        push_decimal(&mut out, time.hour);
        out.append(":");
        push_decimal(&mut out, time.minute);
        out.append("AM");
    }
    assert(out@ =~= pacific_text(*time));
    out
}

} // verus!

use vstd::prelude::*;

use crate::text::{
    all_digits, chars_of, decimal, digit_char, digit_value, lemma_nat_digits, lemma_without_spaces_concat, lemma_without_spaces_keeps, nat_digits, without_spaces, digit_run_end, digit_run_start, digits_to_i32, digits_value,
    is_ascii_digit, is_digit, lemma_run_end, lemma_run_start, push_decimal, run_end, run_start,
};
use crate::time::{HourMinutePair, InvalidTimeString};

verus! {

/// Position `k` holds an `h` with a digit on either side: a match of
/// digits, `h`, digits goes through it.
pub open spec fn is_paris_separator(s: Seq<char>, k: int) -> bool {
    &&& 1 <= k
    &&& k + 1 < s.len()
    &&& s[k] == 'h'
    &&& is_digit(s[k - 1])
    &&& is_digit(s[k + 1])
}

/// Position `k` is the leftmost separator of `s`.
pub open spec fn is_first_paris_separator(s: Seq<char>, k: int) -> bool {
    &&& is_paris_separator(s, k)
    &&& forall|j: int| 0 <= j < k ==> !is_paris_separator(s, j)
}

/// Some substring of `s` reads as digits, `h`, digits.
pub open spec fn has_paris_time(s: Seq<char>) -> bool {
    exists|k: int| is_first_paris_separator(s, k)
}

/// The hour of the leftmost match: the whole run of digits before its `h`.
pub open spec fn paris_hour(s: Seq<char>) -> nat {
    let k = choose|k: int| is_first_paris_separator(s, k);
    digits_value(s.subrange(run_start(s, k), k))
}

/// The minute of the leftmost match: the whole run of digits after its `h`.
pub open spec fn paris_minute(s: Seq<char>) -> nat {
    let k = choose|k: int| is_first_paris_separator(s, k);
    digits_value(s.subrange(k + 1, run_end(s, k + 1)))
}

/// What reading Paris notation out of `s` gives: the leftmost match of digits,
/// `h`, digits anywhere in `s`, refused where there is none or where one of its
/// numbers does not fit an `i32`.
pub open spec fn paris_parse(s: Seq<char>) -> Result<HourMinutePair, InvalidTimeString> {
    if has_paris_time(s) && paris_hour(s) <= i32::MAX && paris_minute(s) <= i32::MAX {
        Ok(HourMinutePair { hour: paris_hour(s) as i32, minute: paris_minute(s) as i32 })
    } else {
        Err(InvalidTimeString)
    }
}

/// The minute as Paris notation writes it: a leading `0` below 10.
pub open spec fn paris_minute_text(minute: int) -> Seq<char> {
    if minute < 10 {
        seq!['0'] + decimal(minute)
    } else {
        decimal(minute)
    }
}

/// A time in Paris notation: `<hour> h <minute>`.
pub open spec fn paris_text(time: HourMinutePair) -> Seq<char> {
    decimal(time.hour as int) + seq![' ', 'h', ' '] + paris_minute_text(time.minute as int)
}

/// Two leftmost separators are the same one.
proof fn lemma_first_paris_separator_unique(s: Seq<char>, k1: int, k2: int)
    requires
        is_first_paris_separator(s, k1),
        is_first_paris_separator(s, k2),
    ensures
        k1 == k2,
{
}

/// Writing a time of day in Paris notation and reading the text back, once its
/// spaces are taken out (`14 h 30` becomes `14h30`), gives the same time.
pub proof fn lemma_paris_round_trip(time: HourMinutePair)
    requires
        0 <= time.hour <= 23,
        0 <= time.minute <= 59,
    ensures
        paris_parse(without_spaces(paris_text(time))) == Ok::<HourMinutePair, InvalidTimeString>(
            time,
        ),
{
    let hour = time.hour as nat;
    let minute = time.minute as nat;
    let h = nat_digits(hour);
    let m = paris_minute_text(minute as int);
    lemma_nat_digits(hour);
    lemma_nat_digits(minute);
    if minute < 10 {
        let d = nat_digits(minute);
        assert(d =~= seq![digit_char(minute)]);
        assert(m =~= seq!['0', digit_char(minute)]);
        assert(m.drop_last() =~= seq!['0']);
        assert(seq!['0'].drop_last() =~= Seq::<char>::empty());
        assert(digits_value(seq!['0']) == digits_value(Seq::<char>::empty()) * 10 + digit_value('0'));
        assert(digits_value(Seq::<char>::empty()) == 0);
    }
    assert(all_digits(m));
    assert(digits_value(m) == minute);
    let sep = seq![' ', 'h', ' '];
    let text = paris_text(time);
    assert(text == h + sep + m);
    lemma_without_spaces_concat(h + sep, m);
    lemma_without_spaces_concat(h, sep);
    lemma_without_spaces_keeps(h);
    lemma_without_spaces_keeps(m);
    assert(sep.drop_last() =~= seq![' ', 'h']);
    assert(seq![' ', 'h'].drop_last() =~= seq![' ']);
    assert(seq![' '].drop_last() =~= Seq::<char>::empty());
    assert(without_spaces(Seq::<char>::empty()) == Seq::<char>::empty());
    assert(without_spaces(seq![' ']) == Seq::<char>::empty());
    assert(seq![' ', 'h'].last() == 'h');
    assert(without_spaces(seq![' ', 'h']) =~= seq!['h']);
    assert(without_spaces(sep) =~= seq!['h']);
    let s = h + seq!['h'] + m;
    assert(without_spaces(text) == s);
    let k = h.len() as int;
    assert(s.subrange(0, k) =~= h);
    assert(s.subrange(k + 1, s.len() as int) =~= m);
    assert(is_paris_separator(s, k));
    assert forall|j: int| 0 <= j < k implies !is_paris_separator(s, j) by {
        assert(s[j] == h[j]);
    }
    assert(is_first_paris_separator(s, k));
    lemma_first_paris_separator_unique(s, k, choose|c: int| is_first_paris_separator(s, c));
    lemma_run_start(s, k);
    lemma_run_end(s, k + 1);
    let a = run_start(s, k);
    let b = run_end(s, k + 1);
    if a > 0 {
        assert(s[a - 1] == h[a - 1]);
    }
    if b < s.len() {
        assert(s[b] == m[b - k - 1]);
    }
}

/// The position of the leftmost `h` with a digit on either side, if any.
fn find_paris_separator(v: &Vec<char>) -> (r: Option<usize>)
    ensures
        match r {
            Some(k) => is_first_paris_separator(v@, k as int),
            None => !has_paris_time(v@),
        },
{
    let n = v.len();
    let mut k: usize = 1;
    while k < n && k + 1 < n
        invariant
            n == v@.len(),
            1 <= k,
            forall|j: int| 0 <= j < k ==> !is_paris_separator(v@, j),
        decreases n - k,
    {
        if v[k] == 'h' && is_ascii_digit(v[k - 1]) && is_ascii_digit(v[k + 1]) {
            return Some(k);
        }
        k = k + 1;
    }
    assert forall|j: int| !is_first_paris_separator(v@, j) by {
        if 0 <= j < k {
        } else {
            assert(!is_paris_separator(v@, j));
        }
    }
    None
}

/// Reads a time in Paris notation (`14h30`) out of a string: the leftmost match
/// of digits, `h`, digits, wherever it stands.
pub fn paris_time_string_to_time(paris_time_string: &String) -> (r: Result<
    HourMinutePair,
    InvalidTimeString,
>)
    ensures
        r == paris_parse(paris_time_string@),
{
    let v = chars_of(paris_time_string.as_str());
    let ghost s = v@;
    match find_paris_separator(&v) {
        None => Err(InvalidTimeString),
        Some(k) => {
            proof {
                let c = choose|c: int| is_first_paris_separator(s, c);
                lemma_first_paris_separator_unique(s, k as int, c);
                lemma_run_start(s, k as int);
                lemma_run_end(s, k as int + 1);
            }
            let start = digit_run_start(&v, k);
            let end = digit_run_end(&v, k + 1);
            let hour = digits_to_i32(&v, start, k);
            let minute = digits_to_i32(&v, k + 1, end);
            match (hour, minute) {
                (Some(hour), Some(minute)) => Ok(HourMinutePair { hour, minute }),
                _ => Err(InvalidTimeString),
            }
        },
    }
}

/// Writes a time in Paris notation: `<hour> h <minute>`, the minute with a
/// leading `0` below 10 (`5 h 09`).
pub fn time_to_paris_time_string(time: &HourMinutePair) -> (r: String)
    ensures
        r@ == paris_text(*time),
{
    proof {
        reveal_strlit(" h ");
        reveal_strlit("0");
    }
    let mut out = String::new();
    push_decimal(&mut out, time.hour);
    out.append(" h ");
    if time.minute < 10 {
        out.append("0");
    }
    push_decimal(&mut out, time.minute);
    assert(out@ =~= paris_text(*time));
    out
}

} // verus!

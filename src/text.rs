use vstd::prelude::*;

verus! {

/// An ASCII decimal digit.
pub open spec fn is_digit(c: char) -> bool {
    '0' <= c && c <= '9'
}

/// The value of an ASCII decimal digit.
pub open spec fn digit_value(c: char) -> nat {
    (c as u32 - '0' as u32) as nat
}

/// The digit character for `d` (below 10).
pub open spec fn digit_char(d: nat) -> char {
    ((d + 48) as u8) as char
}

/// Every character of `s` is a decimal digit.
pub open spec fn all_digits(s: Seq<char>) -> bool {
    forall|i: int| 0 <= i < s.len() ==> is_digit(#[trigger] s[i])
}

/// The number that a run of decimal digits denotes (most significant first).
pub open spec fn digits_value(s: Seq<char>) -> nat
    decreases s.len(),
{
    if s.len() == 0 {
        0
    } else {
        digits_value(s.drop_last()) * 10 + digit_value(s.last())
    }
}

/// The decimal digits of `n`, without leading zeros.
pub open spec fn nat_digits(n: nat) -> Seq<char>
    decreases n,
{
    if n < 10 {
        seq![digit_char(n)]
    } else {
        nat_digits(n / 10).push(digit_char(n % 10))
    }
}

/// The decimal text of `n`, with a leading `-` when it is negative.
pub open spec fn decimal(n: int) -> Seq<char> {
    if n < 0 {
        seq!['-'] + nat_digits((-n) as nat)
    } else {
        nat_digits(n as nat)
    }
}

proof fn lemma_digit_char(d: nat)
    requires
        d < 10,
    ensures
        is_digit(digit_char(d)),
        digit_value(digit_char(d)) == d,
{
}

/// `s` with its spaces taken out.
pub open spec fn without_spaces(s: Seq<char>) -> Seq<char>
    decreases s.len(),
{
    if s.len() == 0 {
        s
    } else if s.last() == ' ' {
        without_spaces(s.drop_last())
    } else {
        without_spaces(s.drop_last()).push(s.last())
    }
}

/// Text without spaces is left as it is.
pub proof fn lemma_without_spaces_keeps(s: Seq<char>)
    requires
        forall|i: int| 0 <= i < s.len() ==> s[i] != ' ',
    ensures
        without_spaces(s) == s,
    decreases s.len(),
{
    if s.len() > 0 {
        lemma_without_spaces_keeps(s.drop_last());
        assert(s.drop_last().push(s.last()) =~= s);
    }
}

/// Taking out spaces goes piece by piece.
pub proof fn lemma_without_spaces_concat(a: Seq<char>, b: Seq<char>)
    ensures
        without_spaces(a + b) == without_spaces(a) + without_spaces(b),
    decreases b.len(),
{
    if b.len() == 0 {
        assert(a + b =~= a);
        assert(without_spaces(a) + without_spaces(b) =~= without_spaces(a));
    } else {
        lemma_without_spaces_concat(a, b.drop_last());
        assert((a + b).drop_last() =~= a + b.drop_last());
        assert((a + b).last() == b.last());
        assert(without_spaces(a) + without_spaces(b.drop_last()).push(b.last()) =~= (
        without_spaces(a) + without_spaces(b.drop_last())).push(b.last()));
    }
}

/// The start of the run of digits that ends just before position `k`.
pub open spec fn run_start(s: Seq<char>, k: int) -> int
    decreases k,
{
    if k <= 0 || k > s.len() || !is_digit(s[k - 1]) {
        k
    } else {
        run_start(s, k - 1)
    }
}

/// The end of the run of digits that starts at position `k`.
pub open spec fn run_end(s: Seq<char>, k: int) -> int
    decreases s.len() - k,
{
    if k < 0 || k >= s.len() || !is_digit(s[k]) {
        k
    } else {
        run_end(s, k + 1)
    }
}

/// The run before `k` is made of digits and cannot be extended to the left.
pub proof fn lemma_run_start(s: Seq<char>, k: int)
    requires
        0 <= k <= s.len(),
    ensures
        0 <= run_start(s, k) <= k,
        all_digits(s.subrange(run_start(s, k), k)),
        run_start(s, k) == 0 || !is_digit(s[run_start(s, k) - 1]),
        k >= 1 && is_digit(s[k - 1]) ==> run_start(s, k) < k,
    decreases k,
{
    if k > 0 && is_digit(s[k - 1]) {
        lemma_run_start(s, k - 1);
        let a = run_start(s, k);
        assert forall|i: int| 0 <= i < k - a implies is_digit(#[trigger] s.subrange(a, k)[i]) by {
            if i < k - 1 - a {
                assert(s.subrange(a, k - 1)[i] == s[a + i]);
            }
        }
    }
}

/// The run from `k` is made of digits and cannot be extended to the right.
pub proof fn lemma_run_end(s: Seq<char>, k: int)
    requires
        0 <= k <= s.len(),
    ensures
        k <= run_end(s, k) <= s.len(),
        all_digits(s.subrange(k, run_end(s, k))),
        run_end(s, k) == s.len() || !is_digit(s[run_end(s, k)]),
        k < s.len() && is_digit(s[k]) ==> run_end(s, k) > k,
    decreases s.len() - k,
{
    if k < s.len() && is_digit(s[k]) {
        lemma_run_end(s, k + 1);
        let b = run_end(s, k);
        assert forall|i: int| 0 <= i < b - k implies is_digit(#[trigger] s.subrange(k, b)[i]) by {
            if i > 0 {
                assert(s.subrange(k + 1, b)[i - 1] == s[k + i]);
            }
        }
    }
}

/// Whether `c` is an ASCII decimal digit.
pub fn is_ascii_digit(c: char) -> (r: bool)
    ensures
        r == is_digit(c),
{
    '0' <= c && c <= '9'
}

/// The value of a decimal digit.
pub fn digit_of(c: char) -> (r: u32)
    requires
        is_digit(c),
    ensures
        r == digit_value(c),
        r < 10,
{
    c as u32 - '0' as u32
}

/// The start of the run of digits of `v` that ends just before `k`.
pub fn digit_run_start(v: &Vec<char>, k: usize) -> (r: usize)
    requires
        k <= v@.len(),
    ensures
        r == run_start(v@, k as int),
{
    let mut j: usize = k;
    while j > 0 && is_ascii_digit(v[j - 1])
        invariant
            j <= k <= v@.len(),
            run_start(v@, j as int) == run_start(v@, k as int),
        decreases j,
    {
        j = j - 1;
    }
    j
}

/// The end of the run of digits of `v` that starts at `k`.
pub fn digit_run_end(v: &Vec<char>, k: usize) -> (r: usize)
    requires
        k <= v@.len(),
    ensures
        r == run_end(v@, k as int),
{
    let mut j: usize = k;
    while j < v.len() && is_ascii_digit(v[j])
        invariant
            k <= j <= v@.len(),
            run_end(v@, j as int) == run_end(v@, k as int),
        decreases v@.len() - j,
    {
        j = j + 1;
    }
    j
}

/// The digits of `n` are decimal digits and denote `n`.
pub proof fn lemma_nat_digits(n: nat)
    ensures
        all_digits(nat_digits(n)),
        digits_value(nat_digits(n)) == n,
        nat_digits(n).len() >= 1,
    decreases n,
{
    lemma_digit_char(n % 10);
    if n >= 10 {
        lemma_nat_digits(n / 10);
        let s = nat_digits(n);
        assert(s.drop_last() == nat_digits(n / 10));
        assert(s.last() == digit_char(n % 10));
        assert(n == (n / 10) * 10 + n % 10);
    } else {
        assert(seq![digit_char(n)].drop_last() =~= Seq::<char>::empty());
        assert(digits_value(Seq::<char>::empty()) == 0);
    }
}

/// The text of a single decimal digit.
fn digit_str(d: u32) -> (r: &'static str)
    requires
        d < 10,
    ensures
        r@ == seq![digit_char(d as nat)],
{
    proof {
        reveal_strlit("0");
        reveal_strlit("1");
        reveal_strlit("2");
        reveal_strlit("3");
        reveal_strlit("4");
        reveal_strlit("5");
        reveal_strlit("6");
        reveal_strlit("7");
        reveal_strlit("8");
        reveal_strlit("9");
    }
    let r = match d {
        0 => "0",
        1 => "1",
        2 => "2",
        3 => "3",
        4 => "4",
        5 => "5",
        6 => "6",
        7 => "7",
        8 => "8",
        _ => "9",
    };
    assert(r@ =~= seq![digit_char(d as nat)]);
    r
}

/// Appends the decimal digits of `n` to `out`.
fn push_nat_digits(out: &mut String, n: u32)
    ensures
        final(out)@ == old(out)@ + nat_digits(n as nat),
    decreases n,
{
    if n >= 10 {
        push_nat_digits(out, n / 10);
    }
    out.append(digit_str(n % 10));
    assert(final(out)@ =~= old(out)@ + nat_digits(n as nat));
}

/// Appends the decimal text of `n` to `out`.
pub fn push_decimal(out: &mut String, n: i32)
    ensures
        final(out)@ == old(out)@ + decimal(n as int),
{
    if n < 0 {
        proof {
            reveal_strlit("-");
        }
        out.append("-");
        let magnitude: u32 = (0i64 - n as i64) as u32;
        push_nat_digits(out, magnitude);
    } else {
        push_nat_digits(out, n as u32);
    }
    assert(final(out)@ =~= old(out)@ + decimal(n as int));
}

/// The characters of `s`, one by one.
pub fn chars_of(s: &str) -> (r: Vec<char>)
    ensures
        r@ == s@,
{
    let n = s.unicode_len();
    let mut r: Vec<char> = Vec::new();
    let mut i: usize = 0;
    while i < n
        invariant
            n == s@.len(),
            i <= n,
            r@ == s@.subrange(0, i as int),
        decreases n - i,
    {
        r.push(s.get_char(i));
        i = i + 1;
    }
    assert(r@ =~= s@);
    r
}

/// A run of digits denotes at least as much as any of its prefixes.
proof fn lemma_digits_value_grows(s: Seq<char>, k: int)
    requires
        0 <= k <= s.len(),
    ensures
        digits_value(s.subrange(0, k)) <= digits_value(s),
    decreases s.len() - k,
{
    if k < s.len() {
        lemma_digits_value_grows(s, k + 1);
        let t = s.subrange(0, k + 1);
        assert(t.drop_last() =~= s.subrange(0, k));
    } else {
        assert(s.subrange(0, k) =~= s);
    }
}

/// The number that the digits `v[from..to]` denote, or `None` where it exceeds `i32::MAX`.
pub fn digits_to_i32(v: &Vec<char>, from: usize, to: usize) -> (r: Option<i32>)
    requires
        from <= to <= v@.len(),
        all_digits(v@.subrange(from as int, to as int)),
    ensures
        r == (if digits_value(v@.subrange(from as int, to as int)) <= i32::MAX {
            Some(digits_value(v@.subrange(from as int, to as int)) as i32)
        } else {
            None
        }),
{
    let ghost run = v@.subrange(from as int, to as int);
    let mut value: i64 = 0;
    let mut i: usize = from;
    while i < to
        invariant
            from <= i <= to <= v@.len(),
            run == v@.subrange(from as int, to as int),
            all_digits(run),
            0 <= value <= i32::MAX,
            value == digits_value(run.subrange(0, i - from)),
        decreases to - i,
    {
        let c = v[i];
        assert(is_digit(run[i - from]));
        let d: i64 = digit_of(c) as i64;
        proof {
            let pre = run.subrange(0, i + 1 - from);
            assert(pre.drop_last() =~= run.subrange(0, i - from));
            assert(pre.last() == c);
        }
        value = value * 10 + d;
        if value > i32::MAX as i64 {
            proof {
                lemma_digits_value_grows(run, i + 1 - from);
            }
            return None;
        }
        i = i + 1;
    }
    assert(run.subrange(0, to - from) =~= run);
    Some(value as i32)
}

} // verus!

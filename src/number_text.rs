//! Numbers written with a fixed count of decimals, made short for display.

use vstd::prelude::*;

verus! {

/// `s` without the run of `c` that ends it.
pub open spec fn trim_end(s: Seq<char>, c: char) -> Seq<char>
    decreases s.len(),
{
    if s.len() > 0 && s.last() == c {
        trim_end(s.drop_last(), c)
    } else {
        s
    }
}

/// The short form of a number written with fixed decimals: when it has a
/// decimal point, trailing zeros go, then trailing dots; a whole number
/// keeps its digits. A negative zero reads `0`.
pub open spec fn tidy(s: Seq<char>) -> Seq<char> {
    let t = if s.contains('.') {
        trim_end(trim_end(s, '0'), '.')
    } else {
        s
    };
    if t == seq!['-', '0'] {
        seq!['0']
    } else {
        t
    }
}

/// Length of what is left of the first `end` characters of `s` once the
/// run of `c` that ends them is taken off.
fn trimmed_len(s: &str, end: usize, c: char) -> (k: usize)
    requires
        end <= s@.len(),
    ensures
        k <= end,
        s@.take(k as int) == trim_end(s@.take(end as int), c),
{
    let mut k: usize = end;
    while k > 0 && s.get_char(k - 1) == c
        invariant
            end <= s@.len(),
            k <= end,
            trim_end(s@.take(end as int), c) == trim_end(s@.take(k as int), c),
        decreases k,
    {
        assert(s@.take(k as int).drop_last() =~= s@.take(k - 1));
        k = k - 1;
    }
    k
}

/// Whether `s` has a decimal point.
fn has_dot(s: &str) -> (b: bool)
    ensures
        b == s@.contains('.'),
{
    let n = s.unicode_len();
    let mut i: usize = 0;
    while i < n
        invariant
            n == s@.len(),
            i <= n,
            forall|j: int| 0 <= j < i ==> s@[j] != '.',
        decreases n - i,
    {
        if s.get_char(i) == '.' {
            return true;
        }
        i = i + 1;
    }
    false
}

/// The short form of `raw`, a number written with fixed decimals:
/// `"1.500"` reads `"1.5"`, `"2.000"` reads `"2"`, `"100"` stays `"100"`
/// and `"-0.000"` reads `"0"`.
pub fn tidy_number(raw: &str) -> (r: String)
    ensures
        r@ == tidy(raw@),
{
    let n = raw.unicode_len();
    assert(raw@.take(n as int) =~= raw@);
    let k2 = if has_dot(raw) {
        let k1 = trimmed_len(raw, n, '0');
        let k = trimmed_len(raw, k1, '.');
        assert(raw@.take(k1 as int).take(k as int) =~= raw@.take(k as int));
        k
    } else {
        n
    };
    if k2 == 2 && raw.get_char(0) == '-' && raw.get_char(1) == '0' {
        assert(raw@.take(2) =~= seq!['-', '0']);
        proof {
            reveal_strlit("0");
        }
        String::from_str("0")
    } else {
        let t = raw.substring_char(0, k2);
        assert(raw@.take(k2 as int) =~= raw@.subrange(0, k2 as int));
        String::from_str(t)
    }
}

} // verus!

use vstd::prelude::*;
use crate::decimal::{all_digits, lemma_number_prefix, number};
use crate::text::{digit_value, is_ascii_digit, is_digit};

verus! {

/// Whether a character has Unicode's `White_Space` property.
pub open spec fn is_space(c: char) -> bool {
    ||| '\u{9}' <= c <= '\u{d}'
    ||| c == ' '
    ||| c == '\u{85}'
    ||| c == '\u{a0}'
    ||| c == '\u{1680}'
    ||| '\u{2000}' <= c <= '\u{200a}'
    ||| c == '\u{2028}'
    ||| c == '\u{2029}'
    ||| c == '\u{202f}'
    ||| c == '\u{205f}'
    ||| c == '\u{3000}'
}

/// The first position at or after `i` that holds no digit: the end of the run
/// of digits that starts at `i`.
pub open spec fn skip_digits(t: Seq<char>, i: int) -> int
    decreases t.len() - i,
{
    if 0 <= i < t.len() && is_digit(t[i]) {
        skip_digits(t, i + 1)
    } else {
        i
    }
}

/// The first position at or after `i` that holds a digit, or the length of `t`
/// where no digit follows.
pub open spec fn skip_others(t: Seq<char>, i: int) -> int
    decreases t.len() - i,
{
    if 0 <= i < t.len() && !is_digit(t[i]) {
        skip_others(t, i + 1)
    } else {
        i
    }
}

/// The first position at or after `i` that holds no white space.
pub open spec fn skip_spaces(t: Seq<char>, i: int) -> int
    decreases t.len() - i,
{
    if 0 <= i < t.len() && is_space(t[i]) {
        skip_spaces(t, i + 1)
    } else {
        i
    }
}

/// The end of `t[lo..hi]` once the white space at its end is dropped.
pub open spec fn drop_spaces(t: Seq<char>, lo: int, hi: int) -> int
    decreases hi - lo,
{
    if lo < hi <= t.len() && 0 < hi && is_space(t[hi - 1]) {
        drop_spaces(t, lo, hi - 1)
    } else {
        hi
    }
}

/// A sequence without the white space at its start and at its end.
pub open spec fn trimmed(t: Seq<char>) -> Seq<char> {
    let lo = skip_spaces(t, 0);
    t.subrange(lo, drop_spaces(t, lo, t.len() as int))
}

/// A run of digits ends within the text, holds digits only, and is followed
/// by no digit.
pub proof fn lemma_skip_digits(t: Seq<char>, i: int)
    requires
        0 <= i <= t.len(),
    ensures
        i <= skip_digits(t, i) <= t.len(),
        all_digits(t.subrange(i, skip_digits(t, i))),
        skip_digits(t, i) < t.len() ==> !is_digit(t[skip_digits(t, i)]),
    decreases t.len() - i,
{
    if i < t.len() && is_digit(t[i]) {
        lemma_skip_digits(t, i + 1);
        let e = skip_digits(t, i);
        assert forall|j: int| 0 <= j < e - i implies is_digit(#[trigger] t.subrange(i, e)[j]) by {
            if j > 0 {
                assert(t.subrange(i, e)[j] == t.subrange(i + 1, e)[j - 1]);
            }
        }
    }
}

/// White space at the start ends within the text, before a character that is
/// none.
pub proof fn lemma_skip_spaces(t: Seq<char>, i: int)
    requires
        0 <= i <= t.len(),
    ensures
        i <= skip_spaces(t, i) <= t.len(),
        skip_spaces(t, i) < t.len() ==> !is_space(t[skip_spaces(t, i)]),
    decreases t.len() - i,
{
    if i < t.len() && is_space(t[i]) {
        lemma_skip_spaces(t, i + 1);
    }
}

/// White space at the end begins within the stretch, after a character that
/// is none.
pub proof fn lemma_drop_spaces(t: Seq<char>, lo: int, hi: int)
    requires
        0 <= lo <= hi <= t.len(),
    ensures
        lo <= drop_spaces(t, lo, hi) <= hi,
        lo < drop_spaces(t, lo, hi) ==> !is_space(t[drop_spaces(t, lo, hi) - 1]),
    decreases hi - lo,
{
    if lo < hi && is_space(t[hi - 1]) {
        lemma_drop_spaces(t, lo, hi - 1);
    }
}

/// Whether a character is white space.
pub fn is_whitespace(c: char) -> (r: bool)
    ensures
        r == is_space(c),
{
    (c >= '\u{9}' && c <= '\u{d}') || c == ' ' || c == '\u{85}' || c == '\u{a0}' || c == '\u{1680}'
        || (c >= '\u{2000}' && c <= '\u{200a}') || c == '\u{2028}' || c == '\u{2029}' || c
        == '\u{202f}' || c == '\u{205f}' || c == '\u{3000}'
}

/// The end of the run of digits that starts at `i`.
pub(crate) fn end_of_digits(t: &Vec<char>, i: usize) -> (r: usize)
    requires
        i <= t.len(),
    ensures
        r == skip_digits(t@, i as int),
        i <= r <= t.len(),
{
    let mut j: usize = i;
    while j < t.len() && is_ascii_digit(t[j])
        invariant
            i <= j <= t.len(),
            skip_digits(t@, i as int) == skip_digits(t@, j as int),
        decreases t.len() - j,
    {
        j += 1;
    }
    j
}

/// The start of the next run of digits at or after `i`.
pub(crate) fn next_digit(t: &Vec<char>, i: usize) -> (r: usize)
    requires
        i <= t.len(),
    ensures
        r == skip_others(t@, i as int),
        i <= r <= t.len(),
{
    let mut j: usize = i;
    while j < t.len() && !is_ascii_digit(t[j])
        invariant
            i <= j <= t.len(),
            skip_others(t@, i as int) == skip_others(t@, j as int),
        decreases t.len() - j,
    {
        j += 1;
    }
    j
}

/// The characters of `t` from `from` on, without the white space at both ends.
pub(crate) fn trim_from(t: &Vec<char>, from: usize) -> (r: Vec<char>)
    requires
        from <= t.len(),
    ensures
        r@ == trimmed(t@.skip(from as int)),
{
    let ghost u = t@.skip(from as int);
    let mut lo: usize = from;
    while lo < t.len() && is_whitespace(t[lo])
        invariant
            from <= lo <= t.len(),
            u == t@.skip(from as int),
            skip_spaces(u, 0) == skip_spaces(u, lo - from),
        decreases t.len() - lo,
    {
        lo += 1;
    }
    let mut hi: usize = t.len();
    while lo < hi && is_whitespace(t[hi - 1])
        invariant
            from <= lo <= hi <= t.len(),
            u == t@.skip(from as int),
            drop_spaces(u, lo - from, u.len() as int) == drop_spaces(u, lo - from, hi - from),
        decreases hi - lo,
    {
        hi -= 1;
    }
    let mut r: Vec<char> = Vec::new();
    let mut k: usize = lo;
    while k < hi
        invariant
            from <= lo <= k <= hi <= t.len(),
            u == t@.skip(from as int),
            r@ == u.subrange(lo - from, k - from),
        decreases hi - k,
    {
        r.push(t[k]);
        assert(u.subrange(lo - from, k + 1 - from) =~= u.subrange(lo - from, k - from).push(
            t@[k as int],
        ));
        k += 1;
    }
    r
}

/// The number that the digits `t[from..to]` denote, or `None` where it does
/// not fit in 32 bits.
pub(crate) fn read_number(t: &Vec<char>, from: usize, to: usize) -> (r: Option<u32>)
    requires
        from <= to <= t.len(),
        all_digits(t@.subrange(from as int, to as int)),
    ensures
        match r {
            Some(v) => v == number(t@.subrange(from as int, to as int)),
            None => number(t@.subrange(from as int, to as int)) > u32::MAX,
        },
{
    let ghost run = t@.subrange(from as int, to as int);
    let mut acc: u32 = 0;
    let mut k: usize = from;
    while k < to
        invariant
            from <= k <= to <= t.len(),
            run == t@.subrange(from as int, to as int),
            all_digits(run),
            acc == number(run.take(k - from)),
        decreases to - k,
    {
        let c = t[k];
        assert(is_digit(run[k - from]));
        let d: u32 = c as u32 - '0' as u32;
        proof {
            assert(run.take(k + 1 - from).drop_last() =~= run.take(k - from));
            assert(run.take(k + 1 - from).last() == c);
            assert(number(run.take(k + 1 - from)) == acc * 10 + digit_value(c));
            lemma_number_prefix(run, k + 1 - from);
        }
        if acc > (u32::MAX - d) / 10 {
            return None;
        }
        acc = acc * 10 + d;
        k += 1;
    }
    assert(run.take(to - from) =~= run);
    Some(acc)
}

} // verus!

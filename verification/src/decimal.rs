use vstd::prelude::*;
use crate::text::{digit_value, is_ascii_digit, is_digit};

verus! {

/// The ASCII digit that stands for a number below ten.
pub open spec fn digit_char(d: nat) -> char
    recommends
        d < 10,
{
    (d + 48) as u8 as char
}

/// The decimal numeral of a number: most significant digit first, no leading
/// zero, and `"0"` for zero.
pub open spec fn decimal(n: nat) -> Seq<char>
    decreases n,
{
    if n < 10 {
        seq![digit_char(n)]
    } else {
        decimal(n / 10).push(digit_char(n % 10))
    }
}

/// The number that a sequence of digits denotes in base ten; the empty
/// sequence denotes zero.
pub open spec fn number(digits: Seq<char>) -> nat
    decreases digits.len(),
{
    if digits.len() == 0 {
        0
    } else {
        number(digits.drop_last()) * 10 + digit_value(digits.last())
    }
}

/// Whether every character of a sequence is an ASCII digit.
pub open spec fn all_digits(s: Seq<char>) -> bool {
    forall|i: int| 0 <= i < s.len() ==> is_digit(#[trigger] s[i])
}

/// A numeral is never empty, holds digits only, and denotes its number.
pub proof fn lemma_decimal(n: nat)
    ensures
        decimal(n).len() >= 1,
        all_digits(decimal(n)),
        number(decimal(n)) == n,
    decreases n,
{
    if n < 10 {
        assert(decimal(n).drop_last() =~= Seq::<char>::empty());
        assert(number(decimal(n).drop_last()) == 0);
    } else {
        lemma_decimal(n / 10);
        assert(decimal(n).drop_last() =~= decimal(n / 10));
    }
}

/// A numeral has a leading zero only where it is `"0"`.
pub proof fn lemma_decimal_canonical(n: nat)
    ensures
        decimal(n)[0] == '0' ==> n == 0,
        n == 0 ==> decimal(n) =~= seq!['0'],
    decreases n,
{
    if n >= 10 {
        lemma_decimal_canonical(n / 10);
        lemma_decimal(n / 10);
    }
}

/// A run of digits denotes at least what any of its prefixes denotes.
pub proof fn lemma_number_prefix(digits: Seq<char>, k: int)
    requires
        0 <= k <= digits.len(),
    ensures
        number(digits.take(k)) <= number(digits),
    decreases digits.len(),
{
    if k == digits.len() {
        assert(digits.take(k) =~= digits);
    } else {
        lemma_number_prefix(digits.drop_last(), k);
        assert(digits.drop_last().take(k) =~= digits.take(k));
    }
}

/// Appends the decimal numeral of `n` to `out`.
pub fn push_decimal(out: &mut Vec<char>, n: u64)
    ensures
        final(out)@ == old(out)@ + decimal(n as nat),
    decreases n,
{
    if n >= 10 {
        push_decimal(out, n / 10);
    }
    let d: u8 = (n % 10) as u8;
    out.push((d + 48) as char);
    assert(final(out)@ =~= old(out)@ + decimal(n as nat));
}

/// Whether a text is the numeral of some number: digits only, at least one,
/// and no leading zero but in `"0"`.
pub open spec fn is_numeral(text: Seq<char>) -> bool {
    &&& text.len() >= 1
    &&& all_digits(text)
    &&& text.len() > 1 ==> text[0] != '0'
}

/// The number up to `limit` of which a text is the numeral, if there is one.
pub open spec fn natural(text: Seq<char>, limit: nat) -> Option<nat> {
    if is_numeral(text) && number(text) <= limit {
        Some(number(text))
    } else {
        None
    }
}

/// The integer of 32 bits that a text denotes, if there is one: a numeral, or
/// a minus sign and the numeral of a number that is not zero.
pub open spec fn integer(text: Seq<char>) -> Option<i32> {
    if text.len() >= 1 && text[0] == '-' {
        match natural(text.skip(1), 0x8000_0000) {
            Some(n) => if n == 0 {
                None
            } else {
                Some((-n) as i32)
            },
            None => None,
        }
    } else {
        match natural(text, 0x7fff_ffff) {
            Some(n) => Some(n as i32),
            None => None,
        }
    }
}

/// The numeral of a number is read back as that number.
pub proof fn lemma_natural_of_decimal(n: nat, limit: nat)
    requires
        n <= limit,
    ensures
        natural(decimal(n), limit) == Some(n),
{
    lemma_decimal(n);
    lemma_decimal_canonical(n);
}

/// The number up to `limit` of which `text[from..]` is the numeral.
pub(crate) fn read_natural(text: &Vec<char>, from: usize, limit: u64) -> (r: Option<u64>)
    requires
        from <= text.len(),
    ensures
        match r {
            Some(n) => natural(text@.skip(from as int), limit as nat) == Some(n as nat),
            None => natural(text@.skip(from as int), limit as nat) is None,
        },
{
    let ghost run = text@.skip(from as int);
    if from == text.len() {
        return None;
    }
    let mut acc: u64 = 0;
    let mut k: usize = from;
    while k < text.len()
        invariant
            from <= k <= text.len(),
            from < text.len(),
            run == text@.skip(from as int),
            all_digits(run.take(k - from)),
            k - from > 1 ==> run[0] != '0',
            acc == number(run.take(k - from)),
            acc <= limit,
        decreases text.len() - k,
    {
        let c = text[k];
        assert(run[k - from] == c);
        if !is_ascii_digit(c) {
            return None;
        }
        if k == from + 1 && text[from] == '0' {
            return None;
        }
        let d: u64 = (c as u32 - '0' as u32) as u64;
        proof {
            assert(run.take(k + 1 - from).drop_last() =~= run.take(k - from));
            assert(run.take(k + 1 - from).last() == c);
            assert(number(run.take(k + 1 - from)) == acc * 10 + digit_value(c));
            lemma_number_prefix(run, k + 1 - from);
        }
        if d > limit || acc > (limit - d) / 10 {
            return None;
        }
        acc = acc * 10 + d;
        k += 1;
    }
    assert(run.take(run.len() as int) =~= run);
    Some(acc)
}

/// The integer of 32 bits that a text denotes, if there is one.
pub fn read_integer(text: &Vec<char>) -> (r: Option<i32>)
    ensures
        r == integer(text@),
{
    if text.len() >= 1 && text[0] == '-' {
        match read_natural(text, 1, 0x8000_0000) {
            Some(n) => if n == 0 {
                None
            } else {
                Some((0 - (n as i64)) as i32)
            },
            None => None,
        }
    } else {
        assert(text@.skip(0) =~= text@);
        match read_natural(text, 0, 0x7fff_ffff) {
            Some(n) => Some(n as i32),
            None => None,
        }
    }
}

} // verus!

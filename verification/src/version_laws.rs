use vstd::prelude::*;
use crate::decimal::{all_digits, decimal, lemma_decimal, number};
use crate::scan::{
    drop_spaces, is_space, lemma_drop_spaces, lemma_skip_spaces, skip_digits, skip_others,
    skip_spaces, trimmed,
};
use crate::text::is_digit;
use crate::version::{
    display, kept, parsed, parsed_kept, same_numbers, suffix_of, ParseError, VersionModel,
};

verus! {

/// Whether a sequence holds no digit.
pub open spec fn digit_free(s: Seq<char>) -> bool {
    forall|i: int| 0 <= i < s.len() ==> !is_digit(#[trigger] s[i])
}

/// The versions whose text is read back with the same numbers: the patch
/// number is shown only beside a minor number; and where there is no patch
/// number, a digit in the suffix would be taken for a number.
pub open spec fn reads_back(v: VersionModel) -> bool {
    &&& v.minor is None ==> v.patch is None
    &&& v.patch is None ==> match v.suffix {
        Some(s) => digit_free(s),
        None => true,
    }
}

/// Whether the digits `d` stand in `t` at `i` as a whole run: no digit
/// follows them.
pub open spec fn run_at(t: Seq<char>, i: int, d: Seq<char>) -> bool {
    let end = i + d.len();
    &&& 0 <= i
    &&& d.len() >= 1
    &&& all_digits(d)
    &&& end <= t.len()
    &&& t.subrange(i, end) == d
    &&& end < t.len() ==> !is_digit(t[end])
}

/// With nothing to pass over, the whole text is kept.
pub proof fn lemma_keep_all(s: Seq<char>)
    ensures
        kept(s, Seq::empty()) == s,
    decreases s.len(),
{
    reveal(Seq::filter);
    if s.len() > 0 {
        lemma_keep_all(s.drop_last());
        assert(s.drop_last().push(s.last()) =~= s);
    }
}

/// A stretch of digits that ends at `k` is skipped as a whole.
pub proof fn lemma_run(t: Seq<char>, i: int, k: int)
    requires
        0 <= i <= k <= t.len(),
        forall|j: int| i <= j < k ==> is_digit(#[trigger] t[j]),
        k < t.len() ==> !is_digit(t[k]),
    ensures
        skip_digits(t, i) == k,
        i < k ==> skip_others(t, i) == i,
    decreases k - i,
{
    if i < k {
        lemma_run(t, i + 1, k);
    }
}

/// A stretch without digits that ends at `k` is skipped as a whole.
pub proof fn lemma_gap(t: Seq<char>, i: int, k: int)
    requires
        0 <= i <= k <= t.len(),
        forall|j: int| i <= j < k ==> !is_digit(#[trigger] t[j]),
        k < t.len() ==> is_digit(t[k]),
    ensures
        skip_others(t, i) == k,
    decreases k - i,
{
    if i < k {
        lemma_gap(t, i + 1, k);
    }
}

/// A run that stands at `i` is read as one run, from `i` to its end.
pub proof fn lemma_run_at(t: Seq<char>, i: int, d: Seq<char>)
    requires
        run_at(t, i, d),
    ensures
        skip_others(t, i) == i,
        skip_digits(t, i) == i + d.len(),
        i < t.len(),
        is_digit(t[i]),
{
    let end = i + d.len();
    assert forall|j: int| i <= j < end implies is_digit(#[trigger] t[j]) by {
        assert(t[j] == t.subrange(i, end)[j - i]);
    }
    lemma_run(t, i, end);
}

/// Digits between two stretches, the second of which does not begin with a
/// digit, stand there as a whole run.
pub proof fn lemma_run_between(t: Seq<char>, before: Seq<char>, d: Seq<char>, after: Seq<char>)
    requires
        t == before + d + after,
        d.len() >= 1,
        all_digits(d),
        after.len() > 0 ==> !is_digit(after[0]),
    ensures
        run_at(t, before.len() as int, d),
{
    let i = before.len() as int;
    let end = i + d.len();
    assert(t.subrange(i, end) =~= d);
    if end < t.len() {
        assert(t[end] == after[0]);
    }
}

/// A text that is one run and then no digit denotes a major number alone.
pub proof fn lemma_parse_one(t: Seq<char>, a: Seq<char>)
    requires
        run_at(t, 0, a),
        forall|j: int| a.len() <= j < t.len() ==> !is_digit(#[trigger] t[j]),
        number(a) <= u32::MAX,
    ensures
        parsed_kept(t) == Ok::<VersionModel, ParseError>(
            VersionModel { major: number(a) as u32, minor: None, patch: None, suffix: None },
        ),
{
    lemma_run_at(t, 0, a);
    lemma_gap(t, a.len() as int, t.len() as int);
}

/// A text of two runs with one character between them and no digit after
/// them denotes a major and a minor number.
pub proof fn lemma_parse_two(t: Seq<char>, a: Seq<char>, b: Seq<char>)
    requires
        run_at(t, 0, a),
        run_at(t, (a.len() + 1) as int, b),
        forall|j: int| a.len() + 1 + b.len() <= j < t.len() ==> !is_digit(#[trigger] t[j]),
        number(a) <= u32::MAX,
        number(b) <= u32::MAX,
    ensures
        parsed_kept(t) == Ok::<VersionModel, ParseError>(
            VersionModel {
                major: number(a) as u32,
                minor: Some(number(b) as u32),
                patch: None,
                suffix: None,
            },
        ),
{
    let a1 = a.len() as int;
    let b1 = a1 + 1 + b.len();
    lemma_run_at(t, 0, a);
    lemma_run_at(t, a1 + 1, b);
    lemma_gap(t, a1, a1 + 1);
    lemma_gap(t, b1, t.len() as int);
}

/// A text of three runs with one character between each two denotes the
/// three numbers, and what follows the third run gives the suffix.
pub proof fn lemma_parse_three(t: Seq<char>, a: Seq<char>, b: Seq<char>, c: Seq<char>)
    requires
        run_at(t, 0, a),
        run_at(t, (a.len() + 1) as int, b),
        run_at(t, (a.len() + 1 + b.len() + 1) as int, c),
        number(a) <= u32::MAX,
        number(b) <= u32::MAX,
        number(c) <= u32::MAX,
    ensures
        parsed_kept(t) == Ok::<VersionModel, ParseError>(
            VersionModel {
                major: number(a) as u32,
                minor: Some(number(b) as u32),
                patch: Some(number(c) as u32),
                suffix: suffix_of(t.skip((a.len() + b.len() + c.len() + 2) as int)),
            },
        ),
{
    let a1 = a.len() as int;
    let b1 = a1 + 1 + b.len();
    lemma_run_at(t, 0, a);
    lemma_run_at(t, a1 + 1, b);
    lemma_run_at(t, b1 + 1, c);
    lemma_gap(t, a1, a1 + 1);
    lemma_gap(t, b1, b1 + 1);
}

/// What follows the numbers in the text of a version: nothing, or a space and
/// the suffix.
pub open spec fn tail_of(suffix: Option<Seq<char>>) -> Seq<char> {
    match suffix {
        None => Seq::empty(),
        Some(s) => seq![' '] + s,
    }
}

/// One run and a tail without digits.
proof fn lemma_text_one(a: Seq<char>, tail: Seq<char>)
    requires
        a.len() >= 1,
        all_digits(a),
        digit_free(tail),
        number(a) <= u32::MAX,
    ensures
        parsed_kept(a + tail) == Ok::<VersionModel, ParseError>(
            VersionModel { major: number(a) as u32, minor: None, patch: None, suffix: None },
        ),
{
    let t = a + tail;
    let none = Seq::<char>::empty();
    assert(t =~= none + a + tail);
    lemma_run_between(t, none, a, tail);
    assert forall|j: int| a.len() <= j < t.len() implies !is_digit(#[trigger] t[j]) by {
        assert(t[j] == tail[j - a.len()]);
    }
    lemma_parse_one(t, a);
}

/// Two runs with a dot between them, and a tail without digits.
proof fn lemma_text_two(a: Seq<char>, b: Seq<char>, tail: Seq<char>)
    requires
        a.len() >= 1,
        all_digits(a),
        b.len() >= 1,
        all_digits(b),
        digit_free(tail),
        number(a) <= u32::MAX,
        number(b) <= u32::MAX,
    ensures
        parsed_kept(a + seq!['.'] + b + tail) == Ok::<VersionModel, ParseError>(
            VersionModel {
                major: number(a) as u32,
                minor: Some(number(b) as u32),
                patch: None,
                suffix: None,
            },
        ),
{
    let t = a + seq!['.'] + b + tail;
    let none = Seq::<char>::empty();
    let rest = seq!['.'] + b + tail;
    assert(t =~= none + a + rest);
    lemma_run_between(t, none, a, rest);
    let front = a + seq!['.'];
    lemma_run_between(t, front, b, tail);
    let b1 = front.len() + b.len();
    assert forall|j: int| b1 <= j < t.len() implies !is_digit(#[trigger] t[j]) by {
        assert(t[j] == tail[j - b1]);
    }
    lemma_parse_two(t, a, b);
}

/// Three runs with dots between them, and a tail that does not begin with a
/// digit.
proof fn lemma_text_three(a: Seq<char>, b: Seq<char>, c: Seq<char>, tail: Seq<char>)
    requires
        a.len() >= 1,
        all_digits(a),
        b.len() >= 1,
        all_digits(b),
        c.len() >= 1,
        all_digits(c),
        tail.len() > 0 ==> !is_digit(tail[0]),
        number(a) <= u32::MAX,
        number(b) <= u32::MAX,
        number(c) <= u32::MAX,
    ensures
        parsed_kept(a + seq!['.'] + b + seq!['.'] + c + tail) == Ok::<VersionModel, ParseError>(
            VersionModel {
                major: number(a) as u32,
                minor: Some(number(b) as u32),
                patch: Some(number(c) as u32),
                suffix: suffix_of(tail),
            },
        ),
{
    let t = a + seq!['.'] + b + seq!['.'] + c + tail;
    let none = Seq::<char>::empty();
    let rest = seq!['.'] + b + seq!['.'] + c + tail;
    assert(t =~= none + a + rest);
    lemma_run_between(t, none, a, rest);
    let front = a + seq!['.'];
    let rest2 = seq!['.'] + c + tail;
    assert(t =~= front + b + rest2);
    lemma_run_between(t, front, b, rest2);
    let front2 = a + seq!['.'] + b + seq!['.'];
    lemma_run_between(t, front2, c, tail);
    lemma_parse_three(t, a, b, c);
    assert(t.skip((a.len() + b.len() + c.len() + 2) as int) =~= tail);
}

/// The tail of a version's text begins with a space, and holds a digit only
/// where the suffix does.
proof fn lemma_tail(suffix: Option<Seq<char>>)
    ensures
        tail_of(suffix).len() > 0 ==> !is_digit(tail_of(suffix)[0]),
        (match suffix {
            Some(s) => digit_free(s),
            None => true,
        }) ==> digit_free(tail_of(suffix)),
{
    match suffix {
        None => {},
        Some(s) => {
            let tail = tail_of(suffix);
            if digit_free(s) {
                assert forall|i: int| 0 <= i < tail.len() implies !is_digit(#[trigger] tail[i]) by {
                    if i > 0 {
                        assert(tail[i] == s[i - 1]);
                    }
                }
            }
        },
    }
}

/// The text of a version, as its numerals, the dots between them and its tail.
proof fn lemma_display_shape(v: VersionModel)
    ensures
        display(v) == match v.minor {
            None => decimal(v.major as nat) + tail_of(v.suffix),
            Some(minor) => match v.patch {
                None => decimal(v.major as nat) + seq!['.'] + decimal(minor as nat) + tail_of(
                    v.suffix,
                ),
                Some(patch) => decimal(v.major as nat) + seq!['.'] + decimal(minor as nat)
                    + seq!['.'] + decimal(patch as nat) + tail_of(v.suffix),
            },
        },
{
    let numbers = match v.minor {
        None => decimal(v.major as nat),
        Some(minor) => match v.patch {
            None => decimal(v.major as nat) + seq!['.'] + decimal(minor as nat),
            Some(patch) => decimal(v.major as nat) + seq!['.'] + decimal(minor as nat) + seq!['.']
                + decimal(patch as nat),
        },
    };
    match v.suffix {
        None => {
            assert(numbers + Seq::<char>::empty() =~= numbers);
        },
        Some(s) => {
            assert(numbers + seq![' '] + s =~= numbers + (seq![' '] + s));
        },
    }
}

/// What is known of the numeral of a number of 32 bits.
proof fn lemma_numeral(n: u32)
    ensures
        decimal(n as nat).len() >= 1,
        all_digits(decimal(n as nat)),
        number(decimal(n as nat)) == n,
{
    lemma_decimal(n as nat);
}

/// The text of a major number alone, with a suffix that holds no digit.
proof fn lemma_display_one(v: VersionModel)
    requires
        v.minor is None,
        reads_back(v),
    ensures
        parsed_kept(display(v)) matches Ok(w) && same_numbers(w, v),
{
    lemma_display_shape(v);
    lemma_tail(v.suffix);
    lemma_numeral(v.major);
    lemma_text_one(decimal(v.major as nat), tail_of(v.suffix));
}

/// The text of two numbers, with a suffix that holds no digit.
proof fn lemma_display_two(v: VersionModel)
    requires
        v.minor is Some,
        v.patch is None,
        reads_back(v),
    ensures
        parsed_kept(display(v)) matches Ok(w) && same_numbers(w, v),
{
    lemma_display_shape(v);
    lemma_tail(v.suffix);
    lemma_numeral(v.major);
    lemma_numeral(v.minor->0);
    lemma_text_two(decimal(v.major as nat), decimal(v.minor->0 as nat), tail_of(v.suffix));
}

/// The text of three numbers, with any suffix.
proof fn lemma_display_three(v: VersionModel)
    requires
        v.minor is Some,
        v.patch is Some,
    ensures
        parsed_kept(display(v)) matches Ok(w) && same_numbers(w, v),
{
    lemma_display_shape(v);
    lemma_tail(v.suffix);
    lemma_numeral(v.major);
    lemma_numeral(v.minor->0);
    lemma_numeral(v.patch->0);
    lemma_text_three(
        decimal(v.major as nat),
        decimal(v.minor->0 as nat),
        decimal(v.patch->0 as nat),
        tail_of(v.suffix),
    );
}

/// The text of a version is read back as a version with the same numbers,
/// where the version is one that [`reads_back`].
pub proof fn lemma_display_parses(v: VersionModel)
    requires
        reads_back(v),
    ensures
        parsed(display(v), Seq::empty()) matches Ok(w) && same_numbers(w, v),
{
    lemma_keep_all(display(v));
    if v.minor is None {
        lemma_display_one(v);
    } else if v.patch is None {
        lemma_display_two(v);
    } else {
        lemma_display_three(v);
    }
}

/// Showing a version of three numbers and reading the text back gives the
/// three numbers again, whatever the suffix.
pub proof fn lemma_round_trip(major: u32, minor: u32, patch: u32, suffix: Option<Seq<char>>)
    ensures
        parsed(
            display(VersionModel { major, minor: Some(minor), patch: Some(patch), suffix }),
            Seq::empty(),
        ) matches Ok(w) && w.major == major && w.minor == Some(minor) && w.patch == Some(patch),
{
    lemma_display_parses(VersionModel { major, minor: Some(minor), patch: Some(patch), suffix });
}

/// A digit at or after `i` stops the search for the next digit.
proof fn lemma_digit_stops(t: Seq<char>, i: int, k: int)
    requires
        0 <= i <= k < t.len(),
        is_digit(t[k]),
    ensures
        skip_others(t, i) <= k,
    decreases k - i,
{
    if i < k && !is_digit(t[i]) {
        lemma_digit_stops(t, i + 1, k);
    }
}

/// A major number alone, with a digit in the suffix: the digit is read as the
/// start of a minor number.
proof fn lemma_one_and_digit(a: Seq<char>, tail: Seq<char>, k: int)
    requires
        a.len() >= 1,
        all_digits(a),
        0 < k < tail.len(),
        !is_digit(tail[0]),
        is_digit(tail[k]),
    ensures
        parsed_kept(a + tail) matches Ok(w) ==> w.minor is Some,
{
    let t = a + tail;
    let none = Seq::<char>::empty();
    assert(t =~= none + a + tail);
    lemma_run_between(t, none, a, tail);
    lemma_run_at(t, 0, a);
    assert(t[a.len() + k] == tail[k]);
    lemma_digit_stops(t, a.len() as int, a.len() + k);
}

/// Two numbers, with a digit in the suffix: the digit is read as the start of
/// a patch number.
proof fn lemma_two_and_digit(a: Seq<char>, b: Seq<char>, tail: Seq<char>, k: int)
    requires
        a.len() >= 1,
        all_digits(a),
        b.len() >= 1,
        all_digits(b),
        0 < k < tail.len(),
        !is_digit(tail[0]),
        is_digit(tail[k]),
    ensures
        parsed_kept(a + seq!['.'] + b + tail) matches Ok(w) ==> w.patch is Some,
{
    let t = a + seq!['.'] + b + tail;
    let none = Seq::<char>::empty();
    let rest = seq!['.'] + b + tail;
    assert(t =~= none + a + rest);
    lemma_run_between(t, none, a, rest);
    let front = a + seq!['.'];
    lemma_run_between(t, front, b, tail);
    lemma_run_at(t, 0, a);
    lemma_run_at(t, front.len() as int, b);
    lemma_gap(t, a.len() as int, (a.len() + 1) as int);
    let b1 = (front.len() + b.len()) as int;
    assert(t[b1 + k] == tail[k]);
    lemma_digit_stops(t, b1, b1 + k);
}

/// The tail of a suffix with a digit has that digit one place further on.
proof fn lemma_tail_digit(s: Seq<char>) -> (k: int)
    requires
        !digit_free(s),
    ensures
        0 < k < tail_of(Some(s)).len(),
        is_digit(tail_of(Some(s))[k]),
        !is_digit(tail_of(Some(s))[0]),
{
    let at = choose|at: int| 0 <= at < s.len() && is_digit(#[trigger] s[at]);
    assert(tail_of(Some(s))[at + 1] == s[at]);
    at + 1
}

/// A version without a patch number and with a digit in its suffix is not
/// read back from its text with the same numbers.
proof fn lemma_suffix_digit_is_read(v: VersionModel)
    requires
        v.patch is None,
        v.suffix matches Some(s) && !digit_free(s),
    ensures
        !(parsed_kept(display(v)) matches Ok(w) && same_numbers(w, v)),
{
    lemma_display_shape(v);
    lemma_numeral(v.major);
    let a = decimal(v.major as nat);
    let tail = tail_of(v.suffix);
    let k = lemma_tail_digit(v.suffix->0);
    if v.minor is None {
        lemma_one_and_digit(a, tail, k);
    } else {
        lemma_numeral(v.minor->0);
        lemma_two_and_digit(a, decimal(v.minor->0 as nat), tail, k);
    }
}

/// The text of a version that is not one that [`reads_back`] is not read back
/// with the same numbers: the condition leaves out no version that it could
/// keep.
pub proof fn lemma_reads_back_is_needed(v: VersionModel)
    requires
        !reads_back(v),
    ensures
        !(parsed(display(v), Seq::empty()) matches Ok(w) && same_numbers(w, v)),
{
    lemma_keep_all(display(v));
    if v.minor is None && v.patch is Some {
        lemma_parsed_tidy(display(v), Seq::empty());
    } else {
        lemma_suffix_digit_is_read(v);
    }
}

/// The versions that a text can denote: a patch number only beside a minor
/// number, a suffix only beside a patch number, and no empty suffix nor one
/// with white space at either end.
pub open spec fn tidy(v: VersionModel) -> bool {
    &&& v.minor is None ==> v.patch is None
    &&& v.patch is None ==> v.suffix is None
    &&& match v.suffix {
        Some(s) => s.len() > 0 && !is_space(s.first()) && !is_space(s.last()),
        None => true,
    }
}

/// What is left of a text without the white space around it neither begins
/// nor ends with white space.
pub proof fn lemma_trimmed_ends(t: Seq<char>)
    ensures
        trimmed(t).len() > 0 ==> !is_space(trimmed(t).first()) && !is_space(trimmed(t).last()),
{
    let lo = skip_spaces(t, 0);
    lemma_skip_spaces(t, 0);
    let hi = drop_spaces(t, lo, t.len() as int);
    lemma_drop_spaces(t, lo, t.len() as int);
}

/// A text that neither begins nor ends with white space is what is left of
/// it, and of it behind a space.
pub proof fn lemma_trimmed_fixed(s: Seq<char>)
    requires
        s.len() > 0,
        !is_space(s.first()),
        !is_space(s.last()),
    ensures
        trimmed(seq![' '] + s) == s,
        trimmed(s) == s,
{
    let t = seq![' '] + s;
    assert(t[0] == ' ' && t[1] == s[0] && t[t.len() - 1] == s.last());
    assert(skip_spaces(t, 1) == 1);
    assert(skip_spaces(t, 0) == 1);
    assert(drop_spaces(t, 1, t.len() as int) == t.len());
    assert(t.subrange(1, t.len() as int) =~= s);
    assert(skip_spaces(s, 0) == 0);
    assert(drop_spaces(s, 0, s.len() as int) == s.len());
    assert(s.subrange(0, s.len() as int) =~= s);
}

/// The suffix that the tail of a tidy version's text gives is the suffix of
/// the version.
proof fn lemma_suffix_of_tail(suffix: Option<Seq<char>>)
    requires
        match suffix {
            Some(s) => s.len() > 0 && !is_space(s.first()) && !is_space(s.last()),
            None => true,
        },
    ensures
        suffix_of(tail_of(suffix)) == suffix,
{
    match suffix {
        Some(s) => {
            lemma_trimmed_fixed(s);
        },
        None => {
            let none = Seq::<char>::empty();
            assert(skip_spaces(none, 0) == 0);
            assert(trimmed(none) =~= none);
        },
    }
}

/// The text of a tidy version with three numbers denotes that version.
proof fn lemma_display_three_exactly(v: VersionModel)
    requires
        tidy(v),
        v.patch is Some,
    ensures
        parsed_kept(display(v)) == Ok::<VersionModel, ParseError>(v),
{
    lemma_display_shape(v);
    lemma_tail(v.suffix);
    lemma_suffix_of_tail(v.suffix);
    lemma_numeral(v.major);
    lemma_numeral(v.minor->0);
    lemma_numeral(v.patch->0);
    lemma_text_three(
        decimal(v.major as nat),
        decimal(v.minor->0 as nat),
        decimal(v.patch->0 as nat),
        tail_of(v.suffix),
    );
}

/// The text of a tidy version denotes that version, suffix and all.
pub proof fn lemma_display_parses_exactly(v: VersionModel)
    requires
        tidy(v),
    ensures
        parsed(display(v), Seq::empty()) == Ok::<VersionModel, ParseError>(v),
{
    lemma_keep_all(display(v));
    if v.patch is Some {
        lemma_display_three_exactly(v);
    } else {
        lemma_display_shape(v);
        lemma_tail(v.suffix);
        lemma_numeral(v.major);
        if v.minor is None {
            lemma_text_one(decimal(v.major as nat), tail_of(v.suffix));
        } else {
            lemma_numeral(v.minor->0);
            lemma_text_two(decimal(v.major as nat), decimal(v.minor->0 as nat), tail_of(v.suffix));
        }
    }
}

/// Every version that a text denotes is tidy: so its own text denotes it
/// again.
pub proof fn lemma_parsed_tidy(s: Seq<char>, ignore: Seq<char>)
    ensures
        parsed(s, ignore) matches Ok(v) ==> tidy(v) && parsed(display(v), Seq::empty()) == Ok::<
            VersionModel,
            ParseError,
        >(v),
{
    if let Ok(v) = parsed(s, ignore) {
        let t = kept(s, ignore);
        if v.patch is Some {
            let c1 = skip_digits(
                t,
                skip_others(t, skip_digits(t, skip_others(t, skip_digits(t, skip_others(t, 0))))),
            );
            lemma_trimmed_ends(t.skip(c1));
        }
        lemma_display_parses_exactly(v);
    }
}

} // verus!

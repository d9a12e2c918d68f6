use std::cmp::Ordering;
use vstd::prelude::*;
use vstd::std_specs::cmp::{PartialEqSpecImpl, PartialOrdSpecImpl};
use crate::decimal::{decimal, number, push_decimal};
use crate::scan::{
    end_of_digits, lemma_skip_digits, next_digit, read_number, skip_digits, skip_others,
    trim_from, trimmed,
};
use crate::text::{chars_of, string_of};

verus! {

/// A version read from loosely formatted text: up to three numbers, and what
/// followed the third.
#[derive(Debug, Clone)]
pub struct Version {
    pub major: u32,
    pub minor: Option<u32>,
    pub patch: Option<u32>,
    pub pre_release: Option<String>,
}

/// Why a text holds no version.
#[derive(Debug, Clone, Copy, PartialEq, Eq, Structural)]
pub enum ParseError {
    /// The text holds no digit.
    NoNumericComponent,
    /// One of the first three numbers does not fit in 32 bits.
    ComponentOverflow,
}

/// What a [`Version`] holds, with the suffix as a sequence of characters.
pub ghost struct VersionModel {
    pub major: u32,
    pub minor: Option<u32>,
    pub patch: Option<u32>,
    pub suffix: Option<Seq<char>>,
}

impl View for Version {
    type V = VersionModel;

    open spec fn view(&self) -> VersionModel {
        VersionModel {
            major: self.major,
            minor: self.minor,
            patch: self.patch,
            suffix: match self.pre_release {
                Some(s) => Some(s@),
                None => None,
            },
        }
    }
}

/// The characters that a caller asks the parser to pass over.
pub open spec fn ignored(ingore: Option<&Vec<char>>) -> Seq<char> {
    match ingore {
        Some(v) => v@,
        None => Seq::empty(),
    }
}

/// A text without the characters to pass over.
pub open spec fn kept(s: Seq<char>, ignore: Seq<char>) -> Seq<char> {
    s.filter(|c: char| !ignore.contains(c))
}

/// The suffix that a remainder of the text gives: the remainder without the
/// white space around it, or none where nothing is left.
pub open spec fn suffix_of(rest: Seq<char>) -> Option<Seq<char>> {
    if trimmed(rest).len() == 0 {
        None
    } else {
        Some(trimmed(rest))
    }
}

/// The version that a text denotes once the characters to pass over are gone.
///
/// The first three runs of digits are the major, minor and patch numbers;
/// whatever stands between them only separates them. What follows the third
/// run is the suffix. A text with fewer than three runs has no suffix.
pub open spec fn parsed_kept(t: Seq<char>) -> Result<VersionModel, ParseError> {
    let a0 = skip_others(t, 0);
    let a1 = skip_digits(t, a0);
    let b0 = skip_others(t, a1);
    let b1 = skip_digits(t, b0);
    let c0 = skip_others(t, b1);
    let c1 = skip_digits(t, c0);
    let major = number(t.subrange(a0, a1));
    let minor = number(t.subrange(b0, b1));
    let patch = number(t.subrange(c0, c1));
    if a0 >= t.len() {
        Err(ParseError::NoNumericComponent)
    } else if major > u32::MAX {
        Err(ParseError::ComponentOverflow)
    } else if b0 >= t.len() {
        Ok(VersionModel { major: major as u32, minor: None, patch: None, suffix: None })
    } else if minor > u32::MAX {
        Err(ParseError::ComponentOverflow)
    } else if c0 >= t.len() {
        Ok(
            VersionModel {
                major: major as u32,
                minor: Some(minor as u32),
                patch: None,
                suffix: None,
            },
        )
    } else if patch > u32::MAX {
        Err(ParseError::ComponentOverflow)
    } else {
        Ok(
            VersionModel {
                major: major as u32,
                minor: Some(minor as u32),
                patch: Some(patch as u32),
                suffix: suffix_of(t.skip(c1)),
            },
        )
    }
}

/// The version that a text denotes, or why it denotes none.
pub open spec fn parsed(s: Seq<char>, ignore: Seq<char>) -> Result<VersionModel, ParseError> {
    parsed_kept(kept(s, ignore))
}

/// Whether `c` is one of `chars`.
pub fn is_among(chars: &Vec<char>, c: char) -> (r: bool)
    ensures
        r == chars@.contains(c),
{
    let mut i: usize = 0;
    while i < chars.len()
        invariant
            i <= chars.len(),
            forall|j: int| 0 <= j < i ==> chars@[j] != c,
        decreases chars.len() - i,
    {
        if chars[i] == c {
            return true;
        }
        i += 1;
    }
    false
}

/// The characters of `s` that are not to be passed over.
pub fn keep(s: &Vec<char>, ingore: Option<&Vec<char>>) -> (t: Vec<char>)
    ensures
        t@ == kept(s@, ignored(ingore)),
{
    let ghost pred = |c: char| !ignored(ingore).contains(c);
    let mut t: Vec<char> = Vec::new();
    let mut i: usize = 0;
    proof {
        reveal(Seq::filter);
        assert(s@.take(0).filter(pred) =~= Seq::<char>::empty());
    }
    while i < s.len()
        invariant
            i <= s.len(),
            pred == (|c: char| !ignored(ingore).contains(c)),
            t@ == s@.take(i as int).filter(pred),
        decreases s.len() - i,
    {
        let c = s[i];
        let skip = match ingore {
            Some(v) => is_among(v, c),
            None => false,
        };
        proof {
            reveal(Seq::filter);
            assert(s@.take(i + 1).drop_last() =~= s@.take(i as int));
            assert(s@.take(i + 1).last() == c);
        }
        if !skip {
            t.push(c);
        }
        i += 1;
    }
    assert(s@.take(s@.len() as int) =~= s@);
    t
}

/// Whether two versions have the same three numbers: their suffixes may
/// differ.
pub open spec fn same_numbers(a: VersionModel, b: VersionModel) -> bool {
    a.major == b.major && a.minor == b.minor && a.patch == b.patch
}

/// The rank of an optional number: an absent one comes before every present
/// one.
pub open spec fn rank(part: Option<u32>) -> int {
    match part {
        Some(n) => n + 0,
        None => -1,
    }
}

/// How two integers compare.
pub open spec fn int_order(a: int, b: int) -> Ordering {
    if a < b {
        Ordering::Less
    } else if a > b {
        Ordering::Greater
    } else {
        Ordering::Equal
    }
}

/// The text of a version: the numbers that are present joined by dots, an
/// absent minor number hiding the patch number, then a space and the suffix
/// where there is one.
pub open spec fn display(v: VersionModel) -> Seq<char> {
    let numbers = match v.minor {
        None => decimal(v.major as nat),
        Some(minor) => match v.patch {
            None => decimal(v.major as nat) + seq!['.'] + decimal(minor as nat),
            Some(patch) => decimal(v.major as nat) + seq!['.'] + decimal(minor as nat) + seq!['.']
                + decimal(patch as nat),
        },
    };
    match v.suffix {
        None => numbers,
        Some(s) => numbers + seq![' '] + s,
    }
}

impl Version {
    /// Reads a version from a text, passing over the characters of `ingore`.
    pub fn from_string(s: &String, ingore: Option<&Vec<char>>) -> (r: Result<Self, ParseError>)
        ensures
            match r {
                Ok(v) => parsed(s@, ignored(ingore)) == Ok::<VersionModel, ParseError>(v@),
                Err(e) => parsed(s@, ignored(ingore)) == Err::<VersionModel, ParseError>(e),
            },
    {
        let all = chars_of(s.as_str());
        let t = keep(&all, ingore);
        let a0 = next_digit(&t, 0);
        if a0 >= t.len() {
            return Err(ParseError::NoNumericComponent);
        }
        let a1 = end_of_digits(&t, a0);
        proof {
            lemma_skip_digits(t@, a0 as int);
        }
        let major = match read_number(&t, a0, a1) {
            Some(n) => n,
            None => {
                return Err(ParseError::ComponentOverflow);
            },
        };
        let b0 = next_digit(&t, a1);
        if b0 >= t.len() {
            return Ok(Version { major, minor: None, patch: None, pre_release: None });
        }
        let b1 = end_of_digits(&t, b0);
        proof {
            lemma_skip_digits(t@, b0 as int);
        }
        let minor = match read_number(&t, b0, b1) {
            Some(n) => n,
            None => {
                return Err(ParseError::ComponentOverflow);
            },
        };
        let c0 = next_digit(&t, b1);
        if c0 >= t.len() {
            return Ok(Version { major, minor: Some(minor), patch: None, pre_release: None });
        }
        let c1 = end_of_digits(&t, c0);
        proof {
            lemma_skip_digits(t@, c0 as int);
        }
        let patch = match read_number(&t, c0, c1) {
            Some(n) => n,
            None => {
                return Err(ParseError::ComponentOverflow);
            },
        };
        let rest = trim_from(&t, c1);
        let pre_release = if rest.len() == 0 {
            None
        } else {
            Some(string_of(&rest))
        };
        Ok(Version { major, minor: Some(minor), patch: Some(patch), pre_release })
    }

    /// How two versions compare: by major number, then by minor number, then
    /// by patch number, an absent number before every present one. The suffix
    /// has no part in it.
    pub open spec fn compared(&self, other: &Version) -> Ordering {
        if self.major != other.major {
            int_order(self.major + 0, other.major + 0)
        } else if self.minor != other.minor {
            int_order(rank(self.minor), rank(other.minor))
        } else {
            int_order(rank(self.patch), rank(other.patch))
        }
    }

    /// Compares two versions, leaving their suffixes out.
    pub fn cmp(&self, other: &Self) -> (o: Ordering)
        ensures
            o == self.compared(other),
    {
        if self.major != other.major {
            return if self.major < other.major {
                Ordering::Less
            } else {
                Ordering::Greater
            };
        }
        if self.minor != other.minor {
            return order_parts(self.minor, other.minor);
        }
        order_parts(self.patch, other.patch)
    }

    /// The text of the version.
    pub fn to_string(&self) -> (r: String)
        ensures
            r@ == display(self@),
    {
        let mut out: Vec<char> = Vec::new();
        push_decimal(&mut out, self.major as u64);
        if let Some(minor) = self.minor {
            out.push('.');
            push_decimal(&mut out, minor as u64);
            if let Some(patch) = self.patch {
                out.push('.');
                push_decimal(&mut out, patch as u64);
            }
        }
        if let Some(pre_release) = &self.pre_release {
            out.push(' ');
            let mut more = chars_of(pre_release.as_str());
            out.append(&mut more);
        }
        assert(out@ =~= display(self@));
        string_of(&out)
    }
}

/// How two optional numbers compare, an absent one before every present one.
fn order_parts(a: Option<u32>, b: Option<u32>) -> (o: Ordering)
    ensures
        o == int_order(rank(a), rank(b)),
{
    match (a, b) {
        (None, None) => Ordering::Equal,
        (None, Some(_)) => Ordering::Less,
        (Some(_), None) => Ordering::Greater,
        (Some(x), Some(y)) => if x < y {
            Ordering::Less
        } else if x > y {
            Ordering::Greater
        } else {
            Ordering::Equal
        },
    }
}

impl PartialEq for Version {
    fn eq(&self, other: &Self) -> (r: bool) {
        self.major == other.major && self.minor == other.minor && self.patch == other.patch
    }
}

impl PartialEqSpecImpl for Version {
    open spec fn obeys_eq_spec() -> bool {
        true
    }

    open spec fn eq_spec(&self, other: &Self) -> bool {
        self.major == other.major && self.minor == other.minor && self.patch == other.patch
    }
}

impl Eq for Version {

}

impl PartialOrd for Version {
    fn partial_cmp(&self, other: &Self) -> (r: Option<Ordering>) {
        Some(self.cmp(other))
    }
}

impl PartialOrdSpecImpl for Version {
    open spec fn obeys_partial_cmp_spec() -> bool {
        true
    }

    open spec fn partial_cmp_spec(&self, other: &Self) -> Option<Ordering> {
        Some(self.compared(other))
    }
}

/// Two versions compare as equal exactly where `==` holds of them, which is
/// where their three numbers agree: the suffix is left out of both.
pub proof fn lemma_equal_iff_same_numbers(a: Version, b: Version)
    ensures
        a.compared(&b) == Ordering::Equal <==> vstd::std_specs::cmp::PartialEqSpec::eq_spec(
            &a,
            &b,
        ),
        a.compared(&b) == Ordering::Equal <==> (a.major == b.major && a.minor == b.minor && a.patch
            == b.patch),
{
}

/// Every version compares as equal to itself.
pub proof fn lemma_order_reflexive(a: Version)
    ensures
        a.compared(&a) == Ordering::Equal,
{
}

/// Any two versions are comparable, and turning a comparison round turns its
/// result round.
pub proof fn lemma_order_total(a: Version, b: Version)
    ensures
        a.compared(&b) == Ordering::Less <==> b.compared(&a) == Ordering::Greater,
        a.compared(&b) == Ordering::Equal <==> b.compared(&a) == Ordering::Equal,
        a.compared(&b) == Ordering::Greater <==> b.compared(&a) == Ordering::Less,
{
}

/// The order is transitive, and strict as soon as one of the two steps is.
pub proof fn lemma_order_transitive(a: Version, b: Version, c: Version)
    requires
        a.compared(&b) != Ordering::Greater,
        b.compared(&c) != Ordering::Greater,
    ensures
        a.compared(&c) != Ordering::Greater,
        a.compared(&c) == Ordering::Equal ==> a.compared(&b) == Ordering::Equal && b.compared(&c)
            == Ordering::Equal,
{
}

/// Versions with the same three numbers take each other's place in every
/// comparison, whatever their suffixes.
pub proof fn lemma_order_ignores_suffix(a: Version, b: Version, c: Version)
    requires
        a.major == b.major,
        a.minor == b.minor,
        a.patch == b.patch,
    ensures
        a.compared(&c) == b.compared(&c),
        c.compared(&a) == c.compared(&b),
{
}

} // verus!

use vstd::prelude::*;

use crate::parse::{partition, partition_spec, rpartition, rpartition_spec};

verus! {

/// Whether a character is an ASCII decimal digit.
pub open spec fn is_digit(c: char) -> bool {
    '0' <= c <= '9'
}

/// Whether every character of a sequence is an ASCII decimal digit.
pub open spec fn all_digits(s: Seq<char>) -> bool {
    forall|i: int| 0 <= i < s.len() ==> is_digit(#[trigger] s[i])
}

/// The value of a sequence of decimal digits (the empty sequence is zero).
pub open spec fn decimal(s: Seq<char>) -> nat
    decreases s.len(),
{
    if s.len() == 0 {
        0
    } else {
        decimal(s.drop_last()) * 10 + (s.last() as int - '0' as int) as nat
    }
}

/// The number written by `s`, if it is all digits and fits in a `u64`.
pub open spec fn number_spec(s: Seq<char>) -> Option<u64> {
    if all_digits(s) && decimal(s) <= u64::MAX {
        Some(decimal(s) as u64)
    } else {
        None
    }
}

proof fn lemma_decimal_prefix(s: Seq<char>, i: int)
    requires
        all_digits(s),
        0 <= i <= s.len(),
    ensures
        decimal(s.subrange(0, i)) <= decimal(s),
    decreases s.len(),
{
    if i < s.len() {
        let d = s.drop_last();
        assert(all_digits(d));
        lemma_decimal_prefix(d, i);
        assert(d.subrange(0, i) =~= s.subrange(0, i));
    } else {
        assert(s.subrange(0, i) =~= s);
    }
}

/// Parse an unsigned decimal number; the empty string reads as zero.
pub fn parse_number(s: &str) -> (r: Option<u64>)
    ensures
        r == number_spec(s@),
{
    let n = s.unicode_len();
    let mut v: u64 = 0;
    let mut i: usize = 0;
    while i < n
        invariant
            n == s@.len(),
            i <= n,
            all_digits(s@.subrange(0, i as int)),
            v == decimal(s@.subrange(0, i as int)),
        decreases n - i,
    {
        let c = s.get_char(i);
        if !('0' <= c && c <= '9') {
            assert(!is_digit(s@[i as int]));
            return None;
        }
        let d: u64 = (c as u32 - '0' as u32) as u64;
        let ghost next = s@.subrange(0, i + 1);
        assert(next.drop_last() =~= s@.subrange(0, i as int));
        assert(decimal(next) == v * 10 + d);
        if v > (u64::MAX - d) / 10 {
            proof {
                assert(all_digits(next));
                if all_digits(s@) {
                    lemma_decimal_prefix(s@, i + 1);
                }
            }
            return None;
        }
        v = v * 10 + d;
        i = i + 1;
    }
    assert(s@.subrange(0, n as int) =~= s@);
    Some(v)
}

/// A package version: `epoch:pkgver-pkgrel`.
#[derive(Debug, Clone, PartialEq, Eq)]
pub struct Version {
    pub epoch: u64,
    pub pkgver: String,
    pub pkgrel: Option<String>,
}

/// The mathematical value of a version.
pub struct VersionView {
    pub epoch: u64,
    pub pkgver: Seq<char>,
    pub pkgrel: Option<Seq<char>>,
}

pub open spec fn opt_view(s: Option<String>) -> Option<Seq<char>> {
    match s {
        Some(x) => Some(x@),
        None => None,
    }
}

impl View for Version {
    type V = VersionView;

    open spec fn view(&self) -> VersionView {
        VersionView { epoch: self.epoch, pkgver: self.pkgver@, pkgrel: opt_view(self.pkgrel) }
    }
}

/// The epoch and the rest of a version string.
///
/// The epoch is the part before the first `:`, when that part is a number; otherwise it is zero
/// and the whole string is the rest.
pub open spec fn split_epoch(s: Seq<char>) -> (u64, Seq<char>) {
    match partition_spec(s, ':') {
        Some((e, rest)) => match number_spec(e) {
            Some(n) => (n, rest),
            None => (0, s),
        },
        None => (0, s),
    }
}

/// The version that a string denotes: the release is what follows the last `-`, if any.
pub open spec fn version_spec(s: Seq<char>) -> VersionView {
    let (epoch, body) = split_epoch(s);
    match rpartition_spec(body, '-') {
        Some((v, r)) => VersionView { epoch, pkgver: v, pkgrel: Some(r) },
        None => VersionView { epoch, pkgver: body, pkgrel: None },
    }
}

impl Version {
    /// Create a version from its parts.
    pub fn new(epoch: u64, pkgver: &str, pkgrel: Option<&str>) -> (r: Version)
        ensures
            r@.epoch == epoch,
            r@.pkgver == pkgver@,
            r@.pkgrel == (match pkgrel {
                Some(x) => Some(x@),
                None => None::<Seq<char>>,
            }),
    {
        let pkgrel = match pkgrel {
            Some(x) => Some(x.to_owned()),
            None => None,
        };
        Version { epoch, pkgver: pkgver.to_owned(), pkgrel }
    }

    /// Parse a version string of the form `[epoch:]pkgver[-pkgrel]`.
    pub fn from_str(input: &str) -> (r: Version)
        ensures
            r@ == version_spec(input@),
    {
        let (epoch, body) = match partition(input, ':') {
            Some((e, rest)) => match parse_number(e) {
                Some(n) => (n, rest),
                None => (0, input),
            },
            None => (0, input),
        };
        match rpartition(body, '-') {
            Some((v, r)) => Version { epoch, pkgver: v.to_owned(), pkgrel: Some(r.to_owned()) },
            None => Version { epoch, pkgver: body.to_owned(), pkgrel: None },
        }
    }
}

/// A comparison operator of a version constraint.
#[derive(Debug, Clone, Copy, PartialEq, Eq, Structural)]
pub enum Constraint {
    Equal,
    Less,
    LessEqual,
    Greater,
    GreaterEqual,
}

/// A version together with the operator that compares against it.
#[derive(Debug, Clone, PartialEq, Eq)]
pub struct VersionConstraint {
    pub version: Version,
    pub constraint: Constraint,
}

} // verus!

use vstd::prelude::*;

use crate::version::{
    number_spec, parse_number, version_spec, Constraint, Version, VersionConstraint, VersionView,
};

verus! {

/// `i` is the position of the first occurrence of `c` in `s`.
pub open spec fn is_first_index(s: Seq<char>, c: char, i: int) -> bool {
    &&& 0 <= i < s.len()
    &&& s[i] == c
    &&& forall|j: int| 0 <= j < i ==> s[j] != c
}

/// `i` is the position of the last occurrence of `c` in `s`.
pub open spec fn is_last_index(s: Seq<char>, c: char, i: int) -> bool {
    &&& 0 <= i < s.len()
    &&& s[i] == c
    &&& forall|j: int| i < j < s.len() ==> s[j] != c
}

/// The parts of `s` before and after the first `c`, if `s` holds one.
pub open spec fn partition_spec(s: Seq<char>, c: char) -> Option<(Seq<char>, Seq<char>)> {
    if s.contains(c) {
        let i = choose|i: int| is_first_index(s, c, i);
        Some((s.subrange(0, i), s.subrange(i + 1, s.len() as int)))
    } else {
        None
    }
}

/// The parts of `s` before and after the last `c`, if `s` holds one.
pub open spec fn rpartition_spec(s: Seq<char>, c: char) -> Option<(Seq<char>, Seq<char>)> {
    if s.contains(c) {
        let i = choose|i: int| is_last_index(s, c, i);
        Some((s.subrange(0, i), s.subrange(i + 1, s.len() as int)))
    } else {
        None
    }
}

/// The views of a pair of string slices.
pub open spec fn pair_view(r: Option<(&str, &str)>) -> Option<(Seq<char>, Seq<char>)> {
    match r {
        Some((a, b)) => Some((a@, b@)),
        None => None,
    }
}

/// Partition a string by splitting around the first occurence of a character.
pub fn partition(input: &str, split: char) -> (r: Option<(&str, &str)>)
    ensures
        pair_view(r) == partition_spec(input@, split),
{
    let n = input.unicode_len();
    let mut i: usize = 0;
    while i < n
        invariant
            n == input@.len(),
            i <= n,
            forall|j: int| 0 <= j < i ==> input@[j] != split,
        decreases n - i,
    {
        if input.get_char(i) == split {
            let ghost s = input@;
            assert(is_first_index(s, split, i as int));
            assert(s.contains(split));
            let ghost k = choose|k: int| is_first_index(s, split, k);
            assert(k == i);
            return Some((input.substring_char(0, i), input.substring_char(i + 1, n)));
        }
        i = i + 1;
    }
    None
}

/// Partition a string by splitting around the last occurence of a character.
pub fn rpartition(input: &str, split: char) -> (r: Option<(&str, &str)>)
    ensures
        pair_view(r) == rpartition_spec(input@, split),
{
    let n = input.unicode_len();
    let mut i: usize = n;
    while i > 0
        invariant
            n == input@.len(),
            i <= n,
            forall|j: int| i <= j < n ==> input@[j] != split,
        decreases i,
    {
        if input.get_char(i - 1) == split {
            let ghost s = input@;
            assert(is_last_index(s, split, i - 1));
            assert(s.contains(split));
            let ghost k = choose|k: int| is_last_index(s, split, k);
            assert(k == i - 1);
            return Some((input.substring_char(0, i - 1), input.substring_char(i, n)));
        }
        i = i - 1;
    }
    None
}

/// What `parse_provides` yields for a declaration: the name and the version, if one is given.
pub open spec fn provides_spec(s: Seq<char>) -> (Seq<char>, Option<VersionView>) {
    match partition_spec(s, '=') {
        Some((key, version)) => (key, Some(version_spec(version))),
        None => (s, None),
    }
}

pub open spec fn opt_version_view(v: Option<Version>) -> Option<VersionView> {
    match v {
        Some(x) => Some(x@),
        None => None,
    }
}

/// Parse a `provides` declaration into a package name and an optional version.
pub fn parse_provides(blob: &str) -> (r: (&str, Option<Version>))
    ensures
        (r.0@, opt_version_view(r.1)) == provides_spec(blob@),
{
    if let Some((key, version)) = partition(blob, '=') {
        (key, Some(Version::from_str(version)))
    } else {
        (blob, None)
    }
}

/// An error in a package file name.
#[derive(Debug, Clone, Copy, PartialEq, Eq, Structural)]
pub enum ParseError {
    /// The name holds no `-` before the release.
    MissingPkgver,
    /// The name holds no `-` before the version.
    MissingPkgrel,
    /// The part before the `:` of the version is not a number.
    InvalidEpoch,
}

/// What `parse_pkgname_pkgver` yields for `$pkgname-$pkgver-$pkgrel`.
pub open spec fn pkgname_pkgver_spec(s: Seq<char>) -> Result<
    (Seq<char>, VersionView),
    ParseError,
> {
    match rpartition_spec(s, '-') {
        None => Err(ParseError::MissingPkgver),
        Some((rest, pkgrel)) => match rpartition_spec(rest, '-') {
            None => Err(ParseError::MissingPkgrel),
            Some((name, full)) => match partition_spec(full, ':') {
                Some((e, pkgver)) => if e.len() > 0 && number_spec(e) is Some {
                    Ok(
                        (
                            name,
                            VersionView {
                                epoch: number_spec(e)->0,
                                pkgver,
                                pkgrel: Some(pkgrel),
                            },
                        ),
                    )
                } else {
                    Err(ParseError::InvalidEpoch)
                },
                None => Ok((name, VersionView { epoch: 0, pkgver: full, pkgrel: Some(pkgrel) })),
            },
        },
    }
}

/// Parse a string in the form `$pkgname-$pkgver-$pkgrel` into separate components.
///
/// The release follows the last `-` and the version the one before it, so that the
/// package name may itself hold dashes.
pub fn parse_pkgname_pkgver(input: &str) -> (r: Result<(&str, Version), ParseError>)
    ensures
        match (r, pkgname_pkgver_spec(input@)) {
            (Ok((name, v)), Ok((sname, sv))) => name@ == sname && v@ == sv,
            (Err(e), Err(se)) => e == se,
            _ => false,
        },
{
    let (rest, pkgrel) = match rpartition(input, '-') {
        Some(x) => x,
        None => return Err(ParseError::MissingPkgver),
    };
    let (name, full) = match rpartition(rest, '-') {
        Some(x) => x,
        None => return Err(ParseError::MissingPkgrel),
    };
    let (epoch, pkgver) = match partition(full, ':') {
        Some((e, pkgver)) => {
            if e.unicode_len() == 0 {
                return Err(ParseError::InvalidEpoch);
            }
            match parse_number(e) {
                Some(n) => (n, pkgver),
                None => return Err(ParseError::InvalidEpoch),
            }
        },
        None => (0, full),
    };
    Ok((name, Version { epoch, pkgver: pkgver.to_owned(), pkgrel: Some(pkgrel.to_owned()) }))
}

/// Whether a character is part of a version constraint operator.
pub open spec fn is_constraint_spec(c: char) -> bool {
    c == '>' || c == '<' || c == '='
}

/// Check if a character is part of a version constraint operator.
fn is_constraint_char(c: char) -> (r: bool)
    ensures
        r == is_constraint_spec(c),
{
    c == '>' || c == '<' || c == '='
}

/// `i` is the position of the first constraint character in `s`.
pub open spec fn is_first_constraint(s: Seq<char>, i: int) -> bool {
    &&& 0 <= i < s.len()
    &&& is_constraint_spec(s[i])
    &&& forall|j: int| 0 <= j < i ==> !is_constraint_spec(#[trigger] s[j])
}

/// The operator at the start of `s` and what follows it; two-character operators are tried first.
pub open spec fn constraint_spec(s: Seq<char>) -> Option<(Constraint, Seq<char>)> {
    if s.len() >= 2 && s[0] == '>' && s[1] == '=' {
        Some((Constraint::GreaterEqual, s.subrange(2, s.len() as int)))
    } else if s.len() >= 2 && s[0] == '<' && s[1] == '=' {
        Some((Constraint::LessEqual, s.subrange(2, s.len() as int)))
    } else if s.len() >= 1 && s[0] == '>' {
        Some((Constraint::Greater, s.subrange(1, s.len() as int)))
    } else if s.len() >= 1 && s[0] == '<' {
        Some((Constraint::Less, s.subrange(1, s.len() as int)))
    } else if s.len() >= 2 && s[0] == '=' && s[1] == '=' {
        Some((Constraint::Equal, s.subrange(2, s.len() as int)))
    } else if s.len() >= 1 && s[0] == '=' {
        Some((Constraint::Equal, s.subrange(1, s.len() as int)))
    } else {
        None
    }
}

/// Parse a version constraint.
fn parse_constraint(constraint: &str) -> (r: Option<(Constraint, &str)>)
    ensures
        match r {
            Some((op, rest)) => constraint_spec(constraint@) == Some((op, rest@)),
            None => constraint_spec(constraint@) is None,
        },
{
    let n = constraint.unicode_len();
    if n == 0 {
        return None;
    }
    let c0 = constraint.get_char(0);
    let two = n >= 2;
    let c1 = if two { constraint.get_char(1) } else { ' ' };
    if two && c0 == '>' && c1 == '=' {
        Some((Constraint::GreaterEqual, constraint.substring_char(2, n)))
    } else if two && c0 == '<' && c1 == '=' {
        Some((Constraint::LessEqual, constraint.substring_char(2, n)))
    } else if c0 == '>' {
        Some((Constraint::Greater, constraint.substring_char(1, n)))
    } else if c0 == '<' {
        Some((Constraint::Less, constraint.substring_char(1, n)))
    } else if two && c0 == '=' && c1 == '=' {
        // Not official, but some packages use it.
        Some((Constraint::Equal, constraint.substring_char(2, n)))
    } else if c0 == '=' {
        Some((Constraint::Equal, constraint.substring_char(1, n)))
    } else {
        None
    }
}

/// The model of a version constraint.
pub struct ConstraintView {
    pub version: VersionView,
    pub constraint: Constraint,
}

pub open spec fn opt_constraint_view(v: Option<VersionConstraint>) -> Option<ConstraintView> {
    match v {
        Some(x) => Some(ConstraintView { version: x.version@, constraint: x.constraint }),
        None => None,
    }
}

/// What `parse_depends` yields: the name before the first operator character, and the
/// operator with the version that follows it.
pub open spec fn depends_spec(s: Seq<char>) -> (Seq<char>, Option<ConstraintView>) {
    if exists|i: int| is_first_constraint(s, i) {
        let i = choose|i: int| is_first_constraint(s, i);
        let (op, version) = constraint_spec(s.subrange(i, s.len() as int))->0;
        (
            s.subrange(0, i),
            Some(ConstraintView { version: version_spec(version), constraint: op }),
        )
    } else {
        (s, None)
    }
}

/// Parse a dependency declaration into a package name and an optional version constraint.
pub fn parse_depends(blob: &str) -> (r: (&str, Option<VersionConstraint>))
    ensures
        (r.0@, opt_constraint_view(r.1)) == depends_spec(blob@),
{
    let n = blob.unicode_len();
    let mut i: usize = 0;
    while i < n
        invariant
            n == blob@.len(),
            i <= n,
            forall|j: int| 0 <= j < i ==> !is_constraint_spec(#[trigger] blob@[j]),
        decreases n - i,
    {
        if is_constraint_char(blob.get_char(i)) {
            let ghost s = blob@;
            assert(is_first_constraint(s, i as int));
            let ghost k = choose|k: int| is_first_constraint(s, k);
            assert(k == i);
            let name = blob.substring_char(0, i);
            let tail = blob.substring_char(i, n);
            assert(tail@[0] == s[i as int]);
            let (constraint, version) = match parse_constraint(tail) {
                Some(x) => x,
                None => {
                    assert(false);
                    return (blob, None);
                },
            };
            return (
                name,
                Some(VersionConstraint { version: Version::from_str(version), constraint }),
            );
        }
        i = i + 1;
    }
    assert(!exists|k: int| is_first_constraint(blob@, k));
    (blob, None)
}

} // verus!

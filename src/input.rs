use vstd::prelude::*;

verus! {

/// White space as `char::is_whitespace` gives it: the characters of the Unicode property
/// `White_Space`.
pub open spec fn is_white_space(c: char) -> bool {
    let u = c as u32;
    ||| 0x9 <= u <= 0xd
    ||| u == 0x20
    ||| u == 0x85
    ||| u == 0xa0
    ||| u == 0x1680
    ||| 0x2000 <= u <= 0x200a
    ||| u == 0x2028
    ||| u == 0x2029
    ||| u == 0x202f
    ||| u == 0x205f
    ||| u == 0x3000
}

/// `a` is the position of the first character of `s` that is not white space.
pub open spec fn is_first_solid(s: Seq<char>, a: int) -> bool {
    &&& 0 <= a < s.len()
    &&& !is_white_space(s[a])
    &&& forall|j: int| 0 <= j < a ==> is_white_space(#[trigger] s[j])
}

/// `b` is the position of the last character of `s` that is not white space.
pub open spec fn is_last_solid(s: Seq<char>, b: int) -> bool {
    &&& 0 <= b < s.len()
    &&& !is_white_space(s[b])
    &&& forall|j: int| b < j < s.len() ==> is_white_space(#[trigger] s[j])
}

/// A string without its leading and trailing white space.
pub open spec fn trim_spec(s: Seq<char>) -> Seq<char> {
    if exists|i: int| 0 <= i < s.len() && !is_white_space(#[trigger] s[i]) {
        let a = choose|a: int| is_first_solid(s, a);
        let b = choose|b: int| is_last_solid(s, b);
        s.subrange(a, b + 1)
    } else {
        Seq::empty()
    }
}

/// Relies on `str::trim`: the string without leading and trailing characters for which
/// `char::is_whitespace` holds.
#[verifier::external_body]
pub(crate) fn trim(s: &str) -> (r: &str)
    ensures
        r@ == trim_spec(s@),
{
    s.trim()
}

/// The entry that a trimmed line of a list file holds: none for an empty line or a comment,
/// which starts with `#`.
pub open spec fn entry_spec(t: Seq<char>) -> Option<Seq<char>> {
    if t.len() == 0 || t[0] == '#' {
        None
    } else {
        Some(t)
    }
}

/// What a trimmed line of a list file holds.
pub fn trimmed_entry(t: &str) -> (r: Option<String>)
    ensures
        match r {
            Some(e) => entry_spec(t@) == Some(e@),
            None => entry_spec(t@) is None,
        },
{
    if t.unicode_len() == 0 || t.get_char(0) == '#' {
        None
    } else {
        Some(t.to_owned())
    }
}

/// What a line of a list file holds: the line without surrounding white space, unless that is
/// empty or a comment.
pub fn list_entry(line: &str) -> (r: Option<String>)
    ensures
        match r {
            Some(e) => entry_spec(trim_spec(line@)) == Some(e@),
            None => entry_spec(trim_spec(line@)) is None,
        },
{
    trimmed_entry(trim(line))
}

} // verus!

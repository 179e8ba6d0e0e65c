use vstd::prelude::*;
use vstd::string::StringExecFns;

use sha2::Digest;

use crate::package::PackageRecord;

verus! {

/// The SHA-256 digest of a sequence of bytes.
pub uninterp spec fn sha256_of(data: Seq<u8>) -> Seq<u8>;

/// Relies on `sha2::Sha256::digest`: the SHA-256 digest of the data, which is 32 bytes long.
#[verifier::external_body]
fn sha256(data: &[u8]) -> (r: Vec<u8>)
    ensures
        r@ == sha256_of(data@),
        r@.len() == 32,
{
    sha2::Sha256::digest(data).to_vec()
}

/// The lower-case hexadecimal digit of a value below 16.
pub open spec fn hex_digit(n: int) -> char {
    if n < 10 {
        ('0' as int + n) as char
    } else {
        ('a' as int + n - 10) as char
    }
}

/// Two lower-case hexadecimal digits per byte.
pub open spec fn hex_of(b: Seq<u8>) -> Seq<char>
    decreases b.len(),
{
    if b.len() == 0 {
        Seq::empty()
    } else {
        hex_of(b.drop_last()) + seq![
            hex_digit(b.last() as int / 16),
            hex_digit(b.last() as int % 16),
        ]
    }
}

/// The one-character string of a hexadecimal digit.
fn hex_char(n: u8) -> (r: &'static str)
    requires
        n < 16,
    ensures
        r@ == seq![hex_digit(n as int)],
{
    let digits = "0123456789abcdef";
    proof {
        reveal_strlit("0123456789abcdef");
    }
    digits.substring_char(n as usize, n as usize + 1)
}

/// Format bytes as lower-case hexadecimal.
pub fn to_hex(bytes: &[u8]) -> (r: String)
    ensures
        r@ == hex_of(bytes@),
{
    let mut out = String::from_str("");
    proof {
        reveal_strlit("");
    }
    let mut i: usize = 0;
    while i < bytes.len()
        invariant
            i <= bytes@.len(),
            out@ == hex_of(bytes@.subrange(0, i as int)),
        decreases bytes@.len() - i,
    {
        let b = bytes[i];
        out.append(hex_char(b / 16));
        out.append(hex_char(b % 16));
        let ghost next = bytes@.subrange(0, i + 1);
        assert(next.drop_last() =~= bytes@.subrange(0, i as int));
        assert(out@ =~= hex_of(next));
        i = i + 1;
    }
    assert(bytes@.subrange(0, bytes@.len() as int) =~= bytes@);
    out
}

/// Whether `c` is an upper-case ASCII letter.
pub open spec fn is_upper(c: char) -> bool {
    'A' <= c <= 'Z'
}

/// Two characters are equal up to the case of ASCII letters.
pub open spec fn char_eq_ignore_case(a: char, b: char) -> bool {
    a == b || (is_upper(a) && b as u32 == a as u32 + 32) || (is_upper(b) && a as u32 == b as u32
        + 32)
}

/// Two strings are equal up to the case of ASCII letters.
pub open spec fn eq_ignore_case(a: Seq<char>, b: Seq<char>) -> bool {
    a.len() == b.len() && forall|i: int| 0 <= i < a.len() ==> char_eq_ignore_case(a[i], b[i])
}

/// Compare two strings, ignoring the case of ASCII letters.
pub fn eq_ignore_ascii_case(a: &str, b: &str) -> (r: bool)
    ensures
        r == eq_ignore_case(a@, b@),
{
    let n = a.unicode_len();
    if n != b.unicode_len() {
        return false;
    }
    let mut i: usize = 0;
    while i < n
        invariant
            n == a@.len(),
            n == b@.len(),
            i <= n,
            forall|j: int| 0 <= j < i ==> char_eq_ignore_case(a@[j], b@[j]),
        decreases n - i,
    {
        let x = a.get_char(i);
        let y = b.get_char(i);
        let same = x == y || ('A' <= x && x <= 'Z' && y as u32 == x as u32 + 32) || ('A' <= y
            && y <= 'Z' && x as u32 == y as u32 + 32);
        if !same {
            return false;
        }
        i = i + 1;
    }
    true
}

/// What an existing file shows against the record of its package.
#[derive(Debug, Clone, Copy, PartialEq, Eq, Structural)]
pub enum FileCheck {
    /// Size and checksum match: the file need not be fetched again.
    UpToDate,
    /// The file has another size than the record gives.
    SizeMismatch,
    /// The size matches but the SHA-256 checksum does not.
    ChecksumMismatch,
}

impl FileCheck {
    /// Whether the package has to be downloaded again.
    pub fn needs_download(&self) -> (r: bool)
        ensures
            r == (*self != FileCheck::UpToDate),
    {
        match self {
            FileCheck::UpToDate => false,
            _ => true,
        }
    }
}

/// Whether a digest, written in hexadecimal, matches the checksum that a record gives,
/// ignoring case.
pub fn digest_matches(package: &PackageRecord, digest: &[u8]) -> (r: bool)
    ensures
        r == eq_ignore_case(hex_of(digest@), package.sha256sum@),
{
    let hex = to_hex(digest);
    eq_ignore_ascii_case(hex.as_str(), package.sha256sum.as_str())
}

/// The verdict on a file of a given size whose contents have the given digest.
pub open spec fn file_check_spec(package: PackageRecord, len: int, digest: Seq<u8>) -> FileCheck {
    if len != package.compressed_size {
        FileCheck::SizeMismatch
    } else if !eq_ignore_case(hex_of(digest), package.sha256sum@) {
        FileCheck::ChecksumMismatch
    } else {
        FileCheck::UpToDate
    }
}

/// Check the contents of a previously downloaded file against the record of its package.
///
/// The file is up to date only if its length equals the recorded compressed size and its
/// SHA-256 digest equals the recorded checksum; any mismatch calls for a new download. The
/// digest is only computed when the size matches.
pub fn check_existing_file(package: &PackageRecord, data: &[u8]) -> (r: FileCheck)
    ensures
        r == file_check_spec(*package, data@.len() as int, sha256_of(data@)),
        data@.len() == package.compressed_size && !eq_ignore_case(
            hex_of(sha256_of(data@)),
            package.sha256sum@,
        ) ==> r.needs_download_spec(),
{
    if data.len() as u64 != package.compressed_size {
        return FileCheck::SizeMismatch;
    }
    let digest = sha256(data);
    if digest_matches(package, digest.as_slice()) {
        FileCheck::UpToDate
    } else {
        FileCheck::ChecksumMismatch
    }
}

impl FileCheck {
    /// The package has to be downloaded again.
    pub open spec fn needs_download_spec(&self) -> bool {
        *self != FileCheck::UpToDate
    }
}

} // verus!

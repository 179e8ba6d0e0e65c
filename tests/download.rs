use pacman_dl::checksum::{check_existing_file, digest_matches, eq_ignore_ascii_case, to_hex, FileCheck};
use pacman_dl::package::PackageRecord;
use pacman_dl::repository::{package_path, package_url, ConfigError, Repository};

const ABC_SHA256: &str = "ba7816bf8f01cfea414140de5dae2223b00361a396177a9cb410ff61f20015ad";

fn package(size: u64, sha256sum: &str) -> PackageRecord {
    PackageRecord {
        name: "foo".to_string(),
        filename: "foo-1.0-1-any.pkg.tar.zst".to_string(),
        compressed_size: size,
        sha256sum: sha256sum.to_string(),
        depends: vec![],
        provides: vec![],
    }
}

#[test]
fn hex_is_lower_case_two_digits_per_byte() {
    assert_eq!(to_hex(&[0x00, 0x0f, 0xa5, 0xff]), "000fa5ff");
    assert_eq!(to_hex(&[]), "");
}

#[test]
fn ascii_case_is_ignored() {
    assert!(eq_ignore_ascii_case("AbC1", "aBc1"));
    assert!(!eq_ignore_ascii_case("abc", "abd"));
    assert!(!eq_ignore_ascii_case("abc", "abcd"));
}

#[test]
fn matching_file_is_up_to_date() {
    let record = package(3, ABC_SHA256);
    assert_eq!(check_existing_file(&record, b"abc"), FileCheck::UpToDate);
    assert!(!FileCheck::UpToDate.needs_download());
}

#[test]
fn upper_case_checksum_matches() {
    let record = package(3, &ABC_SHA256.to_uppercase());
    assert_eq!(check_existing_file(&record, b"abc"), FileCheck::UpToDate);
}

#[test]
fn size_mismatch_triggers_download() {
    let record = package(4, ABC_SHA256);
    let check = check_existing_file(&record, b"abc");
    assert_eq!(check, FileCheck::SizeMismatch);
    assert!(check.needs_download());
}

#[test]
fn checksum_mismatch_with_matching_size_triggers_download() {
    let record = package(3, ABC_SHA256);
    let check = check_existing_file(&record, b"abd");
    assert_eq!(check, FileCheck::ChecksumMismatch);
    assert!(check.needs_download());
}

#[test]
fn digest_compared_as_hex() {
    let record = package(0, "00ff");
    assert!(digest_matches(&record, &[0x00, 0xff]));
    assert!(!digest_matches(&record, &[0x00, 0xfe]));
}

#[test]
fn repository_name_from_url() {
    let repo = Repository::from_str("https://mirror.example.org/archlinux/core/os/x86_64/core.db").unwrap();
    assert_eq!(repo.name, "core.db");
    assert_eq!(repo.db_path, "/archlinux/core/os/x86_64/core.db");
    assert_eq!(repo.db_url_text, "https://mirror.example.org/archlinux/core/os/x86_64/core.db");
}

#[test]
fn repository_errors() {
    assert_eq!(
        Repository::from_str("not a url").err(),
        Some(ConfigError::InvalidUrl("not a url".to_string()))
    );
    assert_eq!(
        Repository::from_str("https://example.org/").err(),
        Some(ConfigError::EmptyName("https://example.org/".to_string()))
    );
}

#[test]
fn duplicate_repository_names_rejected() {
    let urls = vec![
        "https://a.example.org/core.db".to_string(),
        "https://b.example.org/mirror/core.db".to_string(),
    ];
    assert_eq!(
        Repository::parse_urls(&urls).err(),
        Some(ConfigError::DuplicateName("core.db".to_string()))
    );
    let urls = vec![
        "https://a.example.org/core.db".to_string(),
        "https://a.example.org/extra.db".to_string(),
    ];
    let repos = Repository::parse_urls(&urls).unwrap();
    assert_eq!(repos.len(), 2);
    assert_eq!(repos[1].name, "extra.db");
}

#[test]
fn package_url_replaces_file_name() {
    let repo = Repository::from_str("https://mirror.example.org/repo/x86_64/custom.db").unwrap();
    let record = package(0, "");
    assert_eq!(
        package_url(&repo, &record),
        "https://mirror.example.org/repo/x86_64/foo-1.0-1-any.pkg.tar.zst"
    );
    assert_eq!(package_path("custom.db", "a.pkg"), "/a.pkg");
}

use pacman_dl::desc::{DescReader, Section};
use pacman_dl::version::{Constraint, Version};

fn read(text: &str) -> DescReader {
    let mut reader = DescReader::new();
    for line in text.lines() {
        reader.feed_line(line);
    }
    reader
}

#[test]
fn description_gives_record() {
    let text = "%FILENAME%\nfoo-1.0-1-x86_64.pkg.tar.zst\n\n%NAME%\nfoo\n\n%CSIZE%\n1234\n\n%SHA256SUM%\nABCD\n\n%DEPENDS%\nglibc\nbar>=2.0-1\n\n%PROVIDES%\nlibfoo.so=1-64\n\n%LICENSE%\nMIT\n";
    let record = read(text).finish().unwrap();
    assert_eq!(record.name, "foo");
    assert_eq!(record.filename, "foo-1.0-1-x86_64.pkg.tar.zst");
    assert_eq!(record.compressed_size, 1234);
    assert_eq!(record.sha256sum, "ABCD");
    assert_eq!(record.depends.len(), 2);
    assert_eq!(record.depends[0].name, "glibc");
    assert_eq!(record.depends[1].name, "bar");
    let constraint = record.depends[1].constraint.clone().unwrap();
    assert_eq!(constraint.constraint, Constraint::GreaterEqual);
    assert_eq!(constraint.version, Version::new(0, "2.0", Some("1")));
    assert_eq!(record.provides.len(), 1);
    assert_eq!(record.provides[0].name, "libfoo.so");
    assert_eq!(record.provides[0].version, Some(Version::new(0, "1", Some("64"))));
}

#[test]
fn description_without_size_gives_nothing() {
    let reader = read("%NAME%\nfoo\n%FILENAME%\nfoo.pkg\n%CSIZE%\nlarge\n");
    assert_eq!(reader.section, Section::CompressedSize);
    assert_eq!(reader.compressed_size, None);
    assert!(reader.finish().is_none());
}

#[test]
fn description_lines_are_trimmed() {
    let reader = read("  %NAME%  \r\n  foo \r\n%FILENAME%\nf\n%CSIZE%\n0\n");
    let record = reader.finish().unwrap();
    assert_eq!(record.name, "foo");
    assert_eq!(record.sha256sum, "");
}

use vstd::prelude::*;

use crate::input::{trim, trim_spec};
use crate::package::{Dependency, PackageRecord, Provision};
use crate::parse::{depends_spec, opt_constraint_view, opt_version_view, provides_spec};
use crate::text::str_eq;
use crate::version::{number_spec, opt_view, parse_number};

verus! {

/// The section of a package description that the following lines belong to.
#[derive(Debug, Clone, Copy, PartialEq, Eq, Structural)]
pub enum Section {
    Other,
    Name,
    Filename,
    CompressedSize,
    Sha256,
    Depends,
    Provides,
}

/// A trimmed line that opens a section: `%FIELD%`.
pub open spec fn is_header(t: Seq<char>) -> bool {
    t.len() >= 2 && t[0] == '%' && t[t.len() - 1] == '%'
}

/// The section that a header opens.
pub open spec fn section_spec(t: Seq<char>) -> Section {
    if t == "%NAME%"@ {
        Section::Name
    } else if t == "%FILENAME%"@ {
        Section::Filename
    } else if t == "%CSIZE%"@ {
        Section::CompressedSize
    } else if t == "%SHA256SUM%"@ {
        Section::Sha256
    } else if t == "%DEPENDS%"@ {
        Section::Depends
    } else if t == "%PROVIDES%"@ {
        Section::Provides
    } else {
        Section::Other
    }
}

/// The section that a header opens.
fn section_of(t: &str) -> (r: Section)
    ensures
        r == section_spec(t@),
{
    if str_eq(t, "%NAME%") {
        Section::Name
    } else if str_eq(t, "%FILENAME%") {
        Section::Filename
    } else if str_eq(t, "%CSIZE%") {
        Section::CompressedSize
    } else if str_eq(t, "%SHA256SUM%") {
        Section::Sha256
    } else if str_eq(t, "%DEPENDS%") {
        Section::Depends
    } else if str_eq(t, "%PROVIDES%") {
        Section::Provides
    } else {
        Section::Other
    }
}

/// Reads the package description of a repository database, one line at a time.
pub struct DescReader {
    pub section: Section,
    pub name: Option<String>,
    pub filename: Option<String>,
    pub compressed_size: Option<u64>,
    pub sha256sum: Option<String>,
    pub depends: Vec<Dependency>,
    pub provides: Vec<Provision>,
}

impl DescReader {
    /// A reader that has seen no line.
    pub fn new() -> (r: DescReader)
        ensures
            r.section == Section::Other,
            r.name is None,
            r.filename is None,
            r.compressed_size is None,
            r.sha256sum is None,
            r.depends@.len() == 0,
            r.provides@.len() == 0,
    {
        DescReader {
            section: Section::Other,
            name: None,
            filename: None,
            compressed_size: None,
            sha256sum: None,
            depends: Vec::new(),
            provides: Vec::new(),
        }
    }

    /// The reader holds the same values as `o`, but for the section.
    pub open spec fn same_values(&self, o: &DescReader) -> bool {
        &&& self.name == o.name
        &&& self.filename == o.filename
        &&& self.compressed_size == o.compressed_size
        &&& self.sha256sum == o.sha256sum
        &&& self.depends@ == o.depends@
        &&& self.provides@ == o.provides@
    }

    /// Take one line of a package description.
    ///
    /// A line `%FIELD%` opens a section; an empty line is skipped; any other line is a value of
    /// the open section. Values of unknown sections are ignored.
    pub fn feed_line(&mut self, line: &str)
        ensures
            ({
                let t = trim_spec(line@);
                let o = *old(self);
                let n = *final(self);
                if is_header(t) {
                    n.section == section_spec(t) && n.same_values(&o)
                } else if t.len() == 0 {
                    n.section == o.section && n.same_values(&o)
                } else {
                    &&& n.section == o.section
                    &&& n.name == (if o.section == Section::Name {
                        Some(n.name->0)
                    } else {
                        o.name
                    })
                    &&& (o.section == Section::Name ==> n.name->0@ == t)
                    &&& n.filename == (if o.section == Section::Filename {
                        Some(n.filename->0)
                    } else {
                        o.filename
                    })
                    &&& (o.section == Section::Filename ==> n.filename->0@ == t)
                    &&& n.sha256sum == (if o.section == Section::Sha256 {
                        Some(n.sha256sum->0)
                    } else {
                        o.sha256sum
                    })
                    &&& (o.section == Section::Sha256 ==> n.sha256sum->0@ == t)
                    &&& n.compressed_size == (if o.section == Section::CompressedSize {
                        number_spec(t)
                    } else {
                        o.compressed_size
                    })
                    &&& if o.section == Section::Depends {
                        &&& n.depends@.len() == o.depends@.len() + 1
                        &&& n.depends@.subrange(0, o.depends@.len() as int) == o.depends@
                        &&& (n.depends@.last().name@, opt_constraint_view(
                            n.depends@.last().constraint,
                        )) == depends_spec(t)
                    } else {
                        n.depends@ == o.depends@
                    }
                    &&& if o.section == Section::Provides {
                        &&& n.provides@.len() == o.provides@.len() + 1
                        &&& n.provides@.subrange(0, o.provides@.len() as int) == o.provides@
                        &&& (n.provides@.last().name@, opt_version_view(
                            n.provides@.last().version,
                        )) == provides_spec(t)
                    } else {
                        n.provides@ == o.provides@
                    }
                }
            }),
    {
        let t = trim(line);
        let n = t.unicode_len();
        if n >= 2 && t.get_char(0) == '%' && t.get_char(n - 1) == '%' {
            self.section = section_of(t);
            return;
        }
        if n == 0 {
            return;
        }
        match self.section {
            Section::Name => self.name = Some(t.to_owned()),
            Section::Filename => self.filename = Some(t.to_owned()),
            Section::CompressedSize => self.compressed_size = parse_number(t),
            Section::Sha256 => self.sha256sum = Some(t.to_owned()),
            Section::Depends => {
                let ghost before = self.depends@;
                self.depends.push(Dependency::parse(t));
                assert(self.depends@.subrange(0, before.len() as int) =~= before);
            },
            Section::Provides => {
                let ghost before = self.provides@;
                self.provides.push(Provision::parse(t));
                assert(self.provides@.subrange(0, before.len() as int) =~= before);
            },
            Section::Other => {},
        }
    }

    /// The record that the description gives: `None` unless it names the package, its file and
    /// its compressed size. A missing checksum reads as empty.
    pub fn finish(self) -> (r: Option<PackageRecord>)
        ensures
            r is Some <==> (self.name is Some && self.filename is Some
                && self.compressed_size is Some),
            r matches Some(rec) ==> {
                &&& Some(rec.name) == self.name
                &&& Some(rec.filename) == self.filename
                &&& Some(rec.compressed_size) == self.compressed_size
                &&& rec.sha256sum@ == (match self.sha256sum {
                    Some(s) => s@,
                    None => Seq::<char>::empty(),
                })
                &&& rec.depends@ == self.depends@
                &&& rec.provides@ == self.provides@
            },
    {
        let name = match self.name {
            Some(x) => x,
            None => return None,
        };
        let filename = match self.filename {
            Some(x) => x,
            None => return None,
        };
        let compressed_size = match self.compressed_size {
            Some(x) => x,
            None => return None,
        };
        let sha256sum = match self.sha256sum {
            Some(x) => x,
            None => String::new(),
        };
        Some(
            PackageRecord {
                name,
                filename,
                compressed_size,
                sha256sum,
                depends: self.depends,
                provides: self.provides,
            },
        )
    }
}

} // verus!

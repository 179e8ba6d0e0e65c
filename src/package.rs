use vstd::prelude::*;

use crate::parse::{
    depends_spec, opt_constraint_view, opt_version_view, parse_depends, parse_provides,
    provides_spec,
};
use crate::text::str_eq;
use crate::version::{Version, VersionConstraint};

verus! {

/// A dependency of a package: the capability it needs, with an optional version constraint.
#[derive(Debug, Clone, PartialEq, Eq)]
pub struct Dependency {
    pub name: String,
    pub constraint: Option<VersionConstraint>,
}

/// A capability that a package declares to provide, with an optional version.
#[derive(Debug, Clone, PartialEq, Eq)]
pub struct Provision {
    pub name: String,
    pub version: Option<Version>,
}

impl Dependency {
    /// Read a dependency declaration such as `foo>=1.2-3`.
    pub fn parse(blob: &str) -> (r: Dependency)
        ensures
            (r.name@, opt_constraint_view(r.constraint)) == depends_spec(blob@),
    {
        let (name, constraint) = parse_depends(blob);
        Dependency { name: name.to_owned(), constraint }
    }
}

impl Provision {
    /// Read a provides declaration such as `foo=5:1.0`.
    pub fn parse(blob: &str) -> (r: Provision)
        ensures
            (r.name@, opt_version_view(r.version)) == provides_spec(blob@),
    {
        let (name, version) = parse_provides(blob);
        Provision { name: name.to_owned(), version }
    }
}

/// The metadata of one package of a repository.
#[derive(Debug, Clone, PartialEq, Eq)]
pub struct PackageRecord {
    pub name: String,
    pub filename: String,
    pub compressed_size: u64,
    pub sha256sum: String,
    pub depends: Vec<Dependency>,
    pub provides: Vec<Provision>,
}

impl PackageRecord {
    /// The package supplies capability `x`: it is named `x` or declares to provide `x`.
    pub open spec fn supplies(&self, x: Seq<char>) -> bool {
        self.name@ == x || exists|k: int|
            0 <= k < self.provides@.len() && #[trigger] self.provides@[k].name@ == x
    }

    /// The package depends on capability `x`.
    pub open spec fn depends_on(&self, x: Seq<char>) -> bool {
        exists|k: int| 0 <= k < self.depends@.len() && #[trigger] self.depends@[k].name@ == x
    }

    /// Whether the package supplies the capability `target`.
    pub fn supplies_target(&self, target: &str) -> (r: bool)
        ensures
            r == self.supplies(target@),
    {
        if str_eq(self.name.as_str(), target) {
            return true;
        }
        let mut k: usize = 0;
        while k < self.provides.len()
            invariant
                k <= self.provides@.len(),
                forall|i: int| 0 <= i < k ==> self.provides@[i].name@ != target@,
            decreases self.provides@.len() - k,
        {
            if str_eq(self.provides[k].name.as_str(), target) {
                return true;
            }
            k = k + 1;
        }
        false
    }
}

} // verus!

use vstd::prelude::*;

use crate::package::PackageRecord;
use crate::text::{seq_less, str_eq, str_less};

verus! {

/// Records of several repositories, in priority order.
pub type Repositories = Vec<Vec<PackageRecord>>;

/// `(r, k)` is the position of a record: record `k` of repository `r`.
pub open spec fn pos_valid(p: Seq<Vec<PackageRecord>>, r: int, k: int) -> bool {
    0 <= r < p.len() && 0 <= k < p[r]@.len()
}

/// The name of the record at a position.
pub open spec fn pos_name(p: Seq<Vec<PackageRecord>>, r: int, k: int) -> Seq<char> {
    p[r]@[k].name@
}

/// Position `(r1, k1)` is visited before `(r2, k2)`: an earlier repository, or the same one
/// and an earlier record.
pub open spec fn pos_before(r1: int, k1: int, r2: int, k2: int) -> bool {
    r1 < r2 || (r1 == r2 && k1 < k2)
}

/// No record before `(r, k)` has the name of the record at `(r, k)`.
pub open spec fn is_first_occurrence(p: Seq<Vec<PackageRecord>>, r: int, k: int) -> bool {
    &&& pos_valid(p, r, k)
    &&& forall|r2: int, k2: int|
        #![trigger pos_name(p, r2, k2)]
        pos_valid(p, r2, k2) && pos_before(r2, k2, r, k) ==> pos_name(p, r2, k2) != pos_name(
            p,
            r,
            k,
        )
}

/// `s` holds `j`.
pub open spec fn lists(s: Seq<usize>, j: int) -> bool {
    exists|t: int| 0 <= t < s.len() && s[t] as int == j
}

/// Packages of several repositories, indexed by name.
///
/// `entries` holds the position of each package that the index keeps: one per name, the first
/// record of that name in priority order. `duplicates` holds the positions of the records that
/// were dropped because an earlier one had the same name.
pub struct PackageIndex {
    pub packages: Repositories,
    pub entries: Vec<(usize, usize)>,
    pub duplicates: Vec<(usize, usize)>,
}

/// Index the packages of several repositories by name.
///
/// Repositories are visited in the given order, and the records of each in order. The first
/// record of each name is kept; every later record of a name that is already kept is listed in
/// `duplicates` and otherwise dropped.
pub fn index_packages_by_name(packages: Repositories) -> (r: PackageIndex)
    ensures
        r.packages@ == packages@,
        r.wf(),
        r.covers(),
        r.duplicates@.no_duplicates(),
        forall|t: int|
            0 <= t < r.duplicates@.len() ==> {
                let (a, b) = #[trigger] r.duplicates@[t];
                pos_valid(packages@, a as int, b as int) && !is_first_occurrence(
                    packages@,
                    a as int,
                    b as int,
                )
            },
        forall|a: int, b: int|
            #![trigger pos_name(packages@, a, b)]
            pos_valid(packages@, a, b) && !is_first_occurrence(packages@, a, b) ==> exists|t: int|
                0 <= t < r.duplicates@.len() && at_pos(r.duplicates@[t], a, b),
{
    let mut idx = PackageIndex { packages, entries: Vec::new(), duplicates: Vec::new() };
    let mut duplicates: Vec<(usize, usize)> = Vec::new();
    let ghost p = idx.packages@;
    let mut r: usize = 0;
    while r < idx.packages.len()
        invariant
            idx.packages@ == p,
            r <= p.len(),
            idx.wf(),
            forall|j: int| idx.has(j) ==> (#[trigger] idx.entries@[j]).0 < r,
            forall|a: int, b: int|
                #![trigger pos_name(p, a, b)]
                pos_valid(p, a, b) && a < r ==> idx.is_real(pos_name(p, a, b)),
            duplicates@.no_duplicates(),
            forall|t: int|
                0 <= t < duplicates@.len() ==> {
                    let (a, b) = #[trigger] duplicates@[t];
                    pos_valid(p, a as int, b as int) && !is_first_occurrence(p, a as int, b as int)
                        && a < r
                },
            forall|a: int, b: int|
                #![trigger pos_name(p, a, b)]
                pos_valid(p, a, b) && a < r && !is_first_occurrence(p, a, b) ==> exists|t: int|
                    0 <= t < duplicates@.len() && at_pos(duplicates@[t], a, b),
        decreases p.len() - r,
    {
        let mut k: usize = 0;
        while k < idx.packages[r].len()
            invariant
                idx.packages@ == p,
                r < p.len(),
                k <= p[r as int]@.len(),
                idx.wf(),
                forall|j: int|
                    idx.has(j) ==> pos_before(
                        (#[trigger] idx.entries@[j]).0 as int,
                        idx.entries@[j].1 as int,
                        r as int,
                        k as int,
                    ),
                forall|a: int, b: int|
                    #![trigger pos_name(p, a, b)]
                    pos_valid(p, a, b) && pos_before(a, b, r as int, k as int) ==> idx.is_real(
                        pos_name(p, a, b),
                    ),
                duplicates@.no_duplicates(),
                forall|t: int|
                    0 <= t < duplicates@.len() ==> {
                        let (a, b) = #[trigger] duplicates@[t];
                        pos_valid(p, a as int, b as int) && !is_first_occurrence(
                            p,
                            a as int,
                            b as int,
                        ) && pos_before(a as int, b as int, r as int, k as int)
                    },
                forall|a: int, b: int|
                    #![trigger pos_name(p, a, b)]
                    pos_valid(p, a, b) && pos_before(a, b, r as int, k as int)
                        && !is_first_occurrence(p, a, b) ==> exists|t: int|
                        0 <= t < duplicates@.len() && at_pos(duplicates@[t], a, b),
            decreases p[r as int]@.len() - k,
        {
            let ghost here = pos_name(p, r as int, k as int);
            match idx.find(idx.packages[r][k].name.as_str()) {
                Some(j) => {
                    let (a, b) = idx.entries[j];
                    assert(is_first_occurrence(p, a as int, b as int));
                    assert(pos_name(p, a as int, b as int) == here);
                    assert(!is_first_occurrence(p, r as int, k as int));
                    assert(idx.has(j as int) && idx.name(j as int) == here);
                    assert(idx.is_real(here));
                    let ghost prev = duplicates@;
                    duplicates.push((r, k));
                    proof {
                        assert forall|t: int| 0 <= t < prev.len() implies duplicates@[t] != (r, k) by {
                            let (a, b) = prev[t];
                            assert(pos_before(a as int, b as int, r as int, k as int));
                        }
                        assert forall|a: int, b: int|
                            #![trigger pos_name(p, a, b)]
                            pos_valid(p, a, b) && pos_before(
                                a,
                                b,
                                r as int,
                                k + 1,
                            ) implies idx.is_real(pos_name(p, a, b)) by {
                            if !pos_before(a, b, r as int, k as int) {
                                assert(pos_name(p, a, b) == here);
                            }
                        }
                        assert forall|a: int, b: int|
                            #![trigger pos_name(p, a, b)]
                            pos_valid(p, a, b) && pos_before(a, b, r as int, k + 1)
                                && !is_first_occurrence(p, a, b) implies exists|t: int|
                            0 <= t < duplicates@.len() && at_pos(duplicates@[t], a, b) by {
                            if pos_before(a, b, r as int, k as int) {
                                let t = choose|t: int|
                                    0 <= t < prev.len() && at_pos(prev[t], a, b);
                                assert(duplicates@[t] == prev[t]);
                            } else {
                                assert(duplicates@[prev.len() as int] == (r, k));
                            }
                        }
                    }
                },
                None => {
                    assert(is_first_occurrence(p, r as int, k as int));
                    let ghost prev = idx.entries@;
                    assert forall|a: int, b: int|
                        #![trigger pos_name(p, a, b)]
                        pos_valid(p, a, b) && pos_before(
                            a,
                            b,
                            r as int,
                            k as int,
                        ) implies exists|j: int|
                        0 <= j < prev.len() && old_name(p, prev, j) == pos_name(p, a, b) by {
                        assert(idx.is_real(pos_name(p, a, b)));
                        let j = choose|j: int| idx.has(j) && idx.name(j) == pos_name(p, a, b);
                        assert(old_name(p, prev, j) == pos_name(p, a, b));
                    }
                    assert forall|i: int, j: int|
                        0 <= i < prev.len() && 0 <= j < prev.len() && i != j implies old_name(
                            p,
                            prev,
                            i,
                        ) != old_name(p, prev, j) by {
                        assert(idx.name(i) != idx.name(j));
                    }
                    assert forall|j: int| 0 <= j < prev.len() implies old_name(p, prev, j) != here by {
                        if old_name(p, prev, j) == here {
                            assert(idx.has(j) && idx.name(j) == here);
                        }
                    }
                    idx.entries.push((r, k));
                    proof {
                        let n = prev.len() as int;
                        assert(idx.name(n) == here);
                        assert forall|j: int| idx.has(j) && j < n implies #[trigger] idx.name(j)
                            == old_name(p, prev, j) by {}
                        assert forall|a: int, b: int|
                            #![trigger pos_name(p, a, b)]
                            pos_valid(p, a, b) && pos_before(
                                a,
                                b,
                                r as int,
                                k + 1,
                            ) implies idx.is_real(pos_name(p, a, b)) by {
                            if pos_before(a, b, r as int, k as int) {
                                let j = choose|j: int|
                                    0 <= j < n && old_name(p, prev, j) == pos_name(p, a, b);
                                assert(idx.name(j) == pos_name(p, a, b));
                            } else {
                                assert(idx.name(n) == pos_name(p, a, b));
                            }
                        }
                        assert forall|i: int, j: int|
                            idx.has(i) && idx.has(j) && i != j implies #[trigger] idx.name(i)
                            != #[trigger] idx.name(j) by {
                            if i < n && j < n {
                                assert(old_name(p, prev, i) != old_name(p, prev, j));
                            }
                        }
                    }
                },
            }
            k = k + 1;
        }
        r = r + 1;
    }
    let ghost duplicates_view = duplicates@;
    let out = PackageIndex { packages: idx.packages, entries: idx.entries, duplicates };
    assert(out.has(0) == idx.has(0));
    assert(forall|j: int| #[trigger] out.name(j) == idx.name(j));
    assert forall|a: int, b: int|
        #![trigger pos_name(p, a, b)]
        pos_valid(p, a, b) && !is_first_occurrence(p, a, b) implies exists|t: int|
            0 <= t < out.duplicates@.len() && at_pos(out.duplicates@[t], a, b) by {
        assert(a < r);
        let t = choose|t: int| 0 <= t < duplicates_view.len() && at_pos(duplicates_view[t], a, b);
        assert(out.duplicates@[t] == duplicates_view[t]);
    }
    assert forall|a: int, b: int|
        #![trigger pos_name(p, a, b)]
        pos_valid(p, a, b) implies out.is_real(pos_name(p, a, b)) by {
        assert(a < r);
        assert(idx.is_real(pos_name(p, a, b)));
        let j = choose|j: int| idx.has(j) && idx.name(j) == pos_name(p, a, b);
        assert(out.has(j) && out.name(j) == pos_name(p, a, b));
    }
    out
}

/// Position `e` is `(a, b)`.
pub open spec fn at_pos(e: (usize, usize), a: int, b: int) -> bool {
    e.0 as int == a && e.1 as int == b
}

/// The name of entry `j` of a list of positions.
pub open spec fn old_name(p: Seq<Vec<PackageRecord>>, e: Seq<(usize, usize)>, j: int) -> Seq<char> {
    p[e[j].0 as int]@[e[j].1 as int].name@
}

impl PackageIndex {
    /// The record of entry `j`.
    pub open spec fn rec(&self, j: int) -> PackageRecord {
        self.packages@[self.entries@[j].0 as int]@[self.entries@[j].1 as int]
    }

    /// The name of entry `j`.
    pub open spec fn name(&self, j: int) -> Seq<char> {
        self.rec(j).name@
    }

    /// Entry `j` exists.
    pub open spec fn has(&self, j: int) -> bool {
        0 <= j < self.entries@.len()
    }

    /// Some package of the index is named `x`.
    pub open spec fn is_real(&self, x: Seq<char>) -> bool {
        exists|j: int| self.has(j) && #[trigger] self.name(j) == x
    }

    /// Entry `j` supplies capability `x`.
    pub open spec fn supplies(&self, j: int, x: Seq<char>) -> bool {
        self.has(j) && self.rec(j).supplies(x)
    }

    /// Some package of the index supplies capability `x`.
    pub open spec fn is_provided(&self, x: Seq<char>) -> bool {
        exists|j: int| #[trigger] self.supplies(j, x)
    }

    /// The index is consistent: every entry is a position of `packages`, the entries have
    /// distinct names, and each is the first record of its name.
    pub open spec fn wf(&self) -> bool {
        &&& forall|j: int|
            self.has(j) ==> is_first_occurrence(
                self.packages@,
                #[trigger] self.entries@[j].0 as int,
                self.entries@[j].1 as int,
            )
        &&& forall|i: int, j: int|
            self.has(i) && self.has(j) && i != j ==> #[trigger] self.name(i) != #[trigger] self.name(
                j,
            )
    }

    /// Every record of `packages` has an entry of its name.
    pub open spec fn covers(&self) -> bool {
        forall|r: int, k: int|
            #![trigger pos_name(self.packages@, r, k)]
            pos_valid(self.packages@, r, k) ==> self.is_real(pos_name(self.packages@, r, k))
    }

    /// The entry named `name`, if there is one.
    pub fn find(&self, name: &str) -> (r: Option<usize>)
        requires
            self.wf(),
        ensures
            match r {
                Some(j) => self.has(j as int) && self.name(j as int) == name@,
                None => !self.is_real(name@),
            },
    {
        let mut j: usize = 0;
        while j < self.entries.len()
            invariant
                self.wf(),
                j <= self.entries@.len(),
                forall|i: int| 0 <= i < j ==> #[trigger] self.name(i) != name@,
            decreases self.entries@.len() - j,
        {
            let (r, k) = self.entries[j];
            assert(is_first_occurrence(self.packages@, r as int, k as int));
            if str_eq(self.packages[r][k].name.as_str(), name) {
                return Some(j);
            }
            j = j + 1;
        }
        None
    }

    /// The record of entry `j`.
    pub fn record(&self, j: usize) -> (r: &PackageRecord)
        requires
            self.wf(),
            self.has(j as int),
        ensures
            *r == self.rec(j as int),
    {
        let (r, k) = self.entries[j];
        assert(is_first_occurrence(self.packages@, r as int, k as int));
        &self.packages[r][k]
    }

    /// The entries that supply capability `target`, in the order of the entries.
    ///
    /// These are the package named `target`, if any, and every package that declares to
    /// provide it; nothing else.
    pub fn providers(&self, target: &str) -> (r: Vec<usize>)
        requires
            self.wf(),
        ensures
            forall|i: int| 0 <= i < r@.len() ==> self.supplies(#[trigger] r@[i] as int, target@),
            forall|j: int| self.supplies(j, target@) ==> lists(r@, j),
            forall|a: int, b: int| 0 <= a < b < r@.len() ==> r@[a] < r@[b],
    {
        let mut out: Vec<usize> = Vec::new();
        let mut j: usize = 0;
        while j < self.entries.len()
            invariant
                self.wf(),
                j <= self.entries@.len(),
                forall|i: int|
                    0 <= i < out@.len() ==> self.supplies(#[trigger] out@[i] as int, target@),
                forall|i: int| 0 <= i < j && self.supplies(i, target@) ==> lists(out@, i),
                forall|i: int| 0 <= i < out@.len() ==> #[trigger] out@[i] < j,
                forall|a: int, b: int| 0 <= a < b < out@.len() ==> out@[a] < out@[b],
            decreases self.entries@.len() - j,
        {
            let ghost prev = out@;
            if self.record(j).supplies_target(target) {
                out.push(j);
            }
            proof {
                assert forall|i: int| 0 <= i <= j && self.supplies(i, target@) implies lists(out@, i) by {
                    if i < j {
                        assert(lists(prev, i));
                        let t = choose|t: int| 0 <= t < prev.len() && prev[t] as int == i;
                        assert(out@[t] as int == i);
                    } else {
                        assert(out@[out@.len() - 1] == j);
                    }
                }
            }
            j = j + 1;
        }
        out
    }

    /// Among the entries that supply `target`, the one whose name comes first in lexicographic
    /// order; `None` if none supplies it.
    pub fn first_provider(&self, target: &str) -> (r: Option<usize>)
        requires
            self.wf(),
        ensures
            match r {
                Some(j) => self.is_first_provider(j as int, target@),
                None => !self.is_provided(target@),
            },
    {
        let candidates = self.providers(target);
        if candidates.len() == 0 {
            assert forall|j: int| !self.supplies(j, target@) by {
                if self.supplies(j, target@) {
                    assert(lists(candidates@, j));
                }
            }
            return None;
        }
        let mut best: usize = candidates[0];
        let mut i: usize = 1;
        while i < candidates.len()
            invariant
                self.wf(),
                1 <= i <= candidates@.len(),
                forall|t: int|
                    0 <= t < candidates@.len() ==> self.supplies(
                        #[trigger] candidates@[t] as int,
                        target@,
                    ),
                self.supplies(best as int, target@),
                forall|t: int|
                    0 <= t < i ==> !seq_less(
                        self.name(#[trigger] candidates@[t] as int),
                        self.name(best as int),
                    ),
            decreases candidates@.len() - i,
        {
            let c = candidates[i];
            assert(self.supplies(c as int, target@));
            if str_less(self.record(c).name.as_str(), self.record(best).name.as_str()) {
                let ghost old_best = best;
                best = c;
                assert forall|t: int| 0 <= t <= i implies !seq_less(
                    self.name(#[trigger] candidates@[t] as int),
                    self.name(best as int),
                ) by {
                    if t < i && seq_less(self.name(candidates@[t] as int), self.name(c as int)) {
                        crate::text::lemma_less_transitive(
                            self.name(candidates@[t] as int),
                            self.name(c as int),
                            self.name(old_best as int),
                        );
                    }
                    if t == i {
                        assert(!seq_less(self.name(c as int), self.name(c as int)));
                    }
                }
            }
            i = i + 1;
        }
        proof {
            assert forall|j: int| self.supplies(j, target@) implies !seq_less(
                self.name(j),
                self.name(best as int),
            ) by {
                assert(lists(candidates@, j));
                let t = choose|t: int| 0 <= t < candidates@.len() && candidates@[t] as int == j;
                assert(!seq_less(self.name(candidates@[t] as int), self.name(best as int)));
            }
        }
        Some(best)
    }

    /// Entry `j` supplies `x`, and no entry that supplies `x` has a name that comes before
    /// the name of `j`.
    pub open spec fn is_first_provider(&self, j: int, x: Seq<char>) -> bool {
        &&& self.supplies(j, x)
        &&& forall|i: int| #[trigger] self.supplies(i, x) ==> !seq_less(self.name(i), self.name(j))
    }
}

} // verus!

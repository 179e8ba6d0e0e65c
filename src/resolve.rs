use vstd::prelude::*;
use vstd::set_lib::{lemma_int_range, lemma_len_subset, set_int_range};

use crate::index::PackageIndex;
use crate::text::{lemma_less_transitive, seq_less, str_less};

verus! {

/// The resolver could not find a package for a capability.
#[derive(Debug, Clone, PartialEq, Eq)]
pub enum ResolveError {
    /// Neither a package nor a provider exists for the named capability.
    UnresolvedTarget(String),
}

/// `x` is one of the requested targets.
pub open spec fn is_target(targets: Seq<String>, x: Seq<char>) -> bool {
    exists|i: int| 0 <= i < targets.len() && #[trigger] targets[i]@ == x
}

/// A package of the selection supplies `x`.
pub open spec fn satisfied(idx: PackageIndex, sel: Seq<usize>, x: Seq<char>) -> bool {
    exists|i: int| 0 <= i < sel.len() && #[trigger] idx.supplies(sel[i] as int, x)
}

/// A package of the selection is named `x`.
pub open spec fn selects_name(idx: PackageIndex, sel: Seq<usize>, x: Seq<char>) -> bool {
    exists|i: int| 0 <= i < sel.len() && #[trigger] idx.name(sel[i] as int) == x
}

/// `x` is waiting in the queue.
pub open spec fn queued(queue: Seq<String>, x: Seq<char>) -> bool {
    exists|k: int| 0 <= k < queue.len() && #[trigger] queue[k]@ == x
}

/// `x` was asked for before the `i`-th package was selected: it is a target, or a dependency
/// of one of the first `i` selected packages.
pub open spec fn needed_before(
    idx: PackageIndex,
    targets: Seq<String>,
    sel: Seq<usize>,
    i: int,
    x: Seq<char>,
) -> bool {
    is_target(targets, x) || exists|m: int|
        0 <= m < i && #[trigger] idx.rec(sel[m] as int).depends_on(x)
}

/// Package `j` is the one chosen for capability `x`: the package named `x`, or, where no
/// package has that name, the provider of `x` whose name comes first.
pub open spec fn chosen_for(idx: PackageIndex, j: int, x: Seq<char>) -> bool {
    idx.name(j) == x || (!idx.is_real(x) && idx.is_first_provider(j, x))
}

/// The `i`-th selected package was chosen for a capability that was asked for before it, and
/// that no package selected before it supplied, unless the package is a target named
/// explicitly.
pub open spec fn justified(idx: PackageIndex, targets: Seq<String>, sel: Seq<usize>, i: int) -> bool {
    exists|x: Seq<char>|
        #[trigger] needed_before(idx, targets, sel, i, x) && chosen_for(idx, sel[i] as int, x) && (
        !satisfied(idx, sel.subrange(0, i), x) || (is_target(targets, x) && idx.name(sel[i] as int)
            == x))
}

/// Every selected position is an entry of the index, and none is selected twice.
pub open spec fn valid_selection(idx: PackageIndex, sel: Seq<usize>) -> bool {
    &&& forall|i: int| 0 <= i < sel.len() ==> idx.has(#[trigger] sel[i] as int)
    &&& sel.no_duplicates()
}

/// Every dependency of every selected package is supplied by the selection.
pub open spec fn closed(idx: PackageIndex, sel: Seq<usize>) -> bool {
    forall|i: int, x: Seq<char>|
        0 <= i < sel.len() && #[trigger] idx.rec(sel[i] as int).depends_on(x) ==> satisfied(
            idx,
            sel,
            x,
        )
}

/// Every target is supplied by the selection, and every target that names a package is
/// selected itself.
pub open spec fn targets_met(idx: PackageIndex, targets: Seq<String>, sel: Seq<usize>) -> bool {
    forall|t: int|
        0 <= t < targets.len() ==> satisfied(idx, sel, #[trigger] targets[t]@) && (idx.is_real(
            targets[t]@,
        ) ==> selects_name(idx, sel, targets[t]@))
}

/// A correct result of resolution.
pub open spec fn is_resolution(idx: PackageIndex, targets: Seq<String>, sel: Seq<usize>) -> bool {
    &&& valid_selection(idx, sel)
    &&& targets_met(idx, targets, sel)
    &&& closed(idx, sel)
    &&& forall|i: int| 0 <= i < sel.len() ==> #[trigger] justified(idx, targets, sel, i)
}

/// Every target and every dependency of every package of the index has a provider.
pub open spec fn all_resolvable(idx: PackageIndex, targets: Seq<String>) -> bool {
    &&& forall|t: int| 0 <= t < targets.len() ==> idx.is_provided(#[trigger] targets[t]@)
    &&& forall|j: int, x: Seq<char>|
        idx.has(j) && #[trigger] idx.rec(j).depends_on(x) ==> idx.is_provided(x)
}

/// Every package of the selection is an entry of the index, none twice, and each was chosen
/// for a capability that was asked for before it.
pub open spec fn partial_resolution(idx: PackageIndex, targets: Seq<String>, sel: Seq<usize>) -> bool {
    &&& valid_selection(idx, sel)
    &&& forall|i: int| 0 <= i < sel.len() ==> #[trigger] justified(idx, targets, sel, i)
}

/// Resolution may fail on `x`: no package supplies `x`, and `x` is asked for by the targets or
/// by some selection that resolution can reach.
pub open spec fn fails_on(idx: PackageIndex, targets: Seq<String>, x: Seq<char>) -> bool {
    &&& !idx.is_provided(x)
    &&& exists|sel: Seq<usize>|
        #[trigger] partial_resolution(idx, targets, sel) && needed_before(
            idx,
            targets,
            sel,
            sel.len() as int,
            x,
        )
}

/// What resolution may return: a correct selection, or the name of a capability it fails on.
pub open spec fn resolve_outcome(
    idx: PackageIndex,
    targets: Seq<String>,
    r: Result<Seq<usize>, Seq<char>>,
) -> bool {
    match r {
        Ok(sel) => is_resolution(idx, targets, sel),
        Err(x) => fails_on(idx, targets, x),
    }
}

/// The model of a result of `resolve`.
pub open spec fn outcome_view(r: Result<Vec<usize>, ResolveError>) -> Result<Seq<usize>, Seq<char>> {
    match r {
        Ok(sel) => Ok(sel@),
        Err(ResolveError::UnresolvedTarget(n)) => Err(n@),
    }
}

proof fn lemma_selection_bound(sel: Seq<usize>, n: int)
    requires
        sel.no_duplicates(),
        0 <= n,
        forall|i: int| 0 <= i < sel.len() ==> #[trigger] sel[i] < n,
    ensures
        sel.len() <= n,
{
    let s = sel.map_values(|x: usize| x as int);
    assert forall|i: int, j: int| 0 <= i < s.len() && 0 <= j < s.len() && i != j implies s[i]
        != s[j] by {
        assert(sel[i] != sel[j]);
    }
    s.unique_seq_to_set();
    lemma_int_range(0, n);
    assert forall|x: int| s.to_set().contains(x) implies set_int_range(0, n).contains(x) by {
        let i = choose|i: int| 0 <= i < s.len() && s[i] == x;
        assert(sel[i] < n);
    }
    lemma_len_subset(s.to_set(), set_int_range(0, n));
}

/// What holds of a selection holds of every selection that extends it.
proof fn lemma_prefix(idx: PackageIndex, tg: Seq<String>, sel0: Seq<usize>, sel1: Seq<usize>)
    requires
        sel0.len() <= sel1.len(),
        forall|i: int| 0 <= i < sel0.len() ==> sel1[i] == sel0[i],
    ensures
        forall|x: Seq<char>|
            #![trigger satisfied(idx, sel1, x)]
            satisfied(idx, sel0, x) ==> satisfied(idx, sel1, x),
        forall|x: Seq<char>|
            #![trigger selects_name(idx, sel1, x)]
            selects_name(idx, sel0, x) ==> selects_name(idx, sel1, x),
        forall|i: int|
            #![trigger justified(idx, tg, sel1, i)]
            0 <= i < sel0.len() && justified(idx, tg, sel0, i) ==> justified(idx, tg, sel1, i),
        forall|x: Seq<char>|
            #![trigger needed_before(idx, tg, sel1, sel1.len() as int, x)]
            needed_before(idx, tg, sel0, sel0.len() as int, x) ==> needed_before(
                idx,
                tg,
                sel1,
                sel1.len() as int,
                x,
            ),
{
    assert forall|i: int, x: Seq<char>|
        0 <= i <= sel0.len() && needed_before(idx, tg, sel0, i, x) implies #[trigger] needed_before(
        idx,
        tg,
        sel1,
        i,
        x,
    ) && needed_before(idx, tg, sel1, sel1.len() as int, x) by {
        if !is_target(tg, x) {
            let m = choose|m: int| 0 <= m < i && #[trigger] idx.rec(sel0[m] as int).depends_on(x);
            assert(sel1[m] == sel0[m]);
        }
    }
    assert forall|i: int|
        0 <= i < sel0.len() && justified(idx, tg, sel0, i) implies #[trigger] justified(
        idx,
        tg,
        sel1,
        i,
    ) by {
        let x = choose|x: Seq<char>|
            #[trigger] needed_before(idx, tg, sel0, i, x) && chosen_for(idx, sel0[i] as int, x) && (
            !satisfied(idx, sel0.subrange(0, i), x) || (is_target(tg, x) && idx.name(
                sel0[i] as int,
            ) == x));
        assert(needed_before(idx, tg, sel1, i, x));
        assert(sel1.subrange(0, i) =~= sel0.subrange(0, i));
    }
    assert forall|x: Seq<char>| satisfied(idx, sel0, x) implies #[trigger] satisfied(
        idx,
        sel1,
        x,
    ) by {
        let i = choose|i: int| 0 <= i < sel0.len() && #[trigger] idx.supplies(sel0[i] as int, x);
        assert(sel1[i] == sel0[i]);
    }
    assert forall|x: Seq<char>| selects_name(idx, sel0, x) implies #[trigger] selects_name(
        idx,
        sel1,
        x,
    ) by {
        let i = choose|i: int| 0 <= i < sel0.len() && #[trigger] idx.name(sel0[i] as int) == x;
        assert(sel1[i] == sel0[i]);
    }
}

/// Remove from the queue a name that comes first in lexicographic order, and return it.
fn pop_first(queue: &mut Vec<String>) -> (r: String)
    requires
        old(queue)@.len() > 0,
    ensures
        exists|k: int|
            0 <= k < old(queue)@.len() && r == old(queue)@[k] && final(queue)@ == old(
                queue,
            )@.remove(k) && forall|m: int|
                0 <= m < old(queue)@.len() ==> !seq_less(#[trigger] old(queue)@[m]@, r@),
{
    let mut best: usize = 0;
    let mut i: usize = 1;
    while i < queue.len()
        invariant
            queue@ == old(queue)@,
            queue@.len() > 0,
            best < queue@.len(),
            1 <= i <= queue@.len(),
            forall|m: int| 0 <= m < i ==> !seq_less(#[trigger] queue@[m]@, queue@[best as int]@),
        decreases queue@.len() - i,
    {
        if str_less(queue[i].as_str(), queue[best].as_str()) {
            let ghost old_best = best;
            best = i;
            assert forall|m: int| 0 <= m <= i implies !seq_less(
                #[trigger] queue@[m]@,
                queue@[best as int]@,
            ) by {
                if m < i && seq_less(queue@[m]@, queue@[i as int]@) {
                    lemma_less_transitive(
                        queue@[m]@,
                        queue@[i as int]@,
                        queue@[old_best as int]@,
                    );
                }
                if m == i {
                    assert(!seq_less(queue@[m]@, queue@[m]@));
                }
            }
        }
        i = i + 1;
    }
    queue.remove(best)
}

/// Recursive dependency resolver.
pub struct DependencyResolver<'a> {
    packages: &'a PackageIndex,
    selected: Vec<usize>,
}

impl<'a> DependencyResolver<'a> {
    /// The index that the resolver reads.
    pub closed spec fn index(&self) -> PackageIndex {
        *self.packages
    }

    /// The packages selected so far.
    pub closed spec fn selection(&self) -> Seq<usize> {
        self.selected@
    }

    /// Create a new dependency resolver.
    pub fn new(packages: &'a PackageIndex) -> (r: Self)
        ensures
            r.index() == *packages,
            r.selection() == Seq::<usize>::empty(),
    {
        DependencyResolver { packages, selected: Vec::new() }
    }

    /// Whether a selected package supplies `target`.
    fn is_satisfied(&self, target: &str) -> (r: bool)
        requires
            self.index().wf(),
            valid_selection(self.index(), self.selection()),
        ensures
            r == satisfied(self.index(), self.selection(), target@),
    {
        let mut i: usize = 0;
        while i < self.selected.len()
            invariant
                self.index().wf(),
                valid_selection(self.index(), self.selection()),
                i <= self.selected@.len(),
                forall|m: int|
                    0 <= m < i ==> !#[trigger] self.index().supplies(
                        self.selected@[m] as int,
                        target@,
                    ),
            decreases self.selected@.len() - i,
        {
            let j = self.selected[i];
            assert(self.index().has(j as int));
            if self.packages.record(j).supplies_target(target) {
                assert(self.index().supplies(self.selected@[i as int] as int, target@));
                return true;
            }
            i = i + 1;
        }
        false
    }

    /// Whether entry `j` is selected.
    fn is_selected(&self, j: usize) -> (r: bool)
        ensures
            r == self.selection().contains(j),
    {
        let mut i: usize = 0;
        while i < self.selected.len()
            invariant
                i <= self.selected@.len(),
                forall|m: int| 0 <= m < i ==> self.selected@[m] != j,
            decreases self.selected@.len() - i,
        {
            if self.selected[i] == j {
                return true;
            }
            i = i + 1;
        }
        false
    }

    /// Choose a package for a target.
    ///
    /// If the target is a concrete package, choose that. Otherwise choose, among the packages
    /// that provide it, the one whose name comes first.
    fn resolve_target(&self, target: &str) -> (r: Result<usize, ResolveError>)
        requires
            self.index().wf(),
        ensures
            match r {
                Ok(j) => self.index().supplies(j as int, target@) && chosen_for(
                    self.index(),
                    j as int,
                    target@,
                ),
                Err(ResolveError::UnresolvedTarget(n)) => n@ == target@ && !self.index().is_provided(
                    target@,
                ),
            },
    {
        match self.packages.find(target) {
            Some(j) => Ok(j),
            None => match self.packages.first_provider(target) {
                Some(j) => Ok(j),
                None => Err(ResolveError::UnresolvedTarget(target.to_owned())),
            },
        }
    }

    /// Resolve the targets into a set of packages to download, given as entries of the index.
    ///
    /// Every target that names a package is selected, even where another selected package
    /// already provides it. Other targets, and the dependencies of every selected package, are
    /// resolved only when no selected package supplies them yet.
    #[verifier::loop_isolation(false)]
    pub fn resolve(self, targets: &Vec<String>) -> (r: Result<Vec<usize>, ResolveError>)
        requires
            self.index().wf(),
            self.selection() == Seq::<usize>::empty(),
        ensures
            resolve_outcome(self.index(), targets@, outcome_view(r)),
            all_resolvable(self.index(), targets@) ==> r is Ok,
    {
        let mut this = self;
        let ghost idx = this.index();
        let ghost tg = targets@;
        let mut queue: Vec<String> = Vec::new();
        let mut t: usize = 0;
        while t < targets.len()
            invariant
                *this.packages == idx,
                idx.wf(),
                tg == targets@,
                t <= tg.len(),
                valid_selection(idx, this.selected@),
                forall|i: int|
                    0 <= i < this.selected@.len() ==> #[trigger] justified(idx, tg, this.selected@, i),
                forall|k: int|
                    0 <= k < queue@.len() ==> needed_before(
                        idx,
                        tg,
                        this.selected@,
                        this.selected@.len() as int,
                        #[trigger] queue@[k]@,
                    ),
                forall|m: int|
                    0 <= m < t ==> (satisfied(idx, this.selected@, #[trigger] tg[m]@) || queued(
                        queue@,
                        tg[m]@,
                    )) && (idx.is_real(tg[m]@) ==> selects_name(idx, this.selected@, tg[m]@)),
                forall|i: int, x: Seq<char>|
                    0 <= i < this.selected@.len() && #[trigger] idx.rec(
                        this.selected@[i] as int,
                    ).depends_on(x) ==> satisfied(idx, this.selected@, x) || queued(queue@, x),
            decreases tg.len() - t,
        {
            let target = targets[t].as_str();
            let ghost sel0 = this.selected@;
            let ghost q0 = queue@;
            match this.packages.find(target) {
                Some(j) => {
                    if !this.is_selected(j) {
                        this.selected.push(j);
                        proof {
                            let sel1 = this.selected@;
                            assert(sel1[sel0.len() as int] == j);
                            assert(needed_before(idx, tg, sel1, sel0.len() as int, tg[t as int]@));
                            assert(justified(idx, tg, sel1, sel0.len() as int));
                        }
                    }
                    let ghost sel1 = this.selected@;
                    let pos: usize = this.position(j);
                    this.enqueue_dependencies(j, &mut queue);
                    proof {
                        lemma_prefix(idx, tg, sel0, sel1);
                        assert(idx.name(sel1[pos as int] as int) == tg[t as int]@);
                        assert(idx.supplies(sel1[pos as int] as int, tg[t as int]@));
                        assert forall|k: int|
                            0 <= k < queue@.len() implies needed_before(
                            idx,
                            tg,
                            sel1,
                            sel1.len() as int,
                            #[trigger] queue@[k]@,
                        ) by {
                            if k < q0.len() {
                                assert(queue@[k] == q0[k]);
                                assert(needed_before(idx, tg, sel0, sel0.len() as int, q0[k]@));
                            } else {
                                assert(idx.rec(sel1[pos as int] as int).depends_on(queue@[k]@));
                            }
                        }
                        assert forall|m: int|
                            0 <= m <= t implies (satisfied(idx, sel1, #[trigger] tg[m]@) || queued(
                            queue@,
                            tg[m]@,
                        )) && (idx.is_real(tg[m]@) ==> selects_name(idx, sel1, tg[m]@)) by {
                            if m < t && !satisfied(idx, sel1, tg[m]@) {
                                let q = choose|q: int| 0 <= q < q0.len() && #[trigger] q0[q]@ == tg[m]@;
                                assert(queue@[q] == q0[q]);
                            }
                        }
                        assert forall|i: int, x: Seq<char>|
                            0 <= i < sel1.len() && #[trigger] idx.rec(sel1[i] as int).depends_on(
                                x,
                            ) implies satisfied(idx, sel1, x) || queued(queue@, x) by {
                            if i == pos {
                                assert(this.index() == idx);
                                assert(this.selection() == sel1);
                                assert(this.index().rec(j as int).depends_on(x));
                            }
                            if i != pos && !satisfied(idx, sel1, x) {
                                if i < sel0.len() {
                                    assert(sel1[i] == sel0[i]);
                                }
                                let q = choose|q: int| 0 <= q < q0.len() && #[trigger] q0[q]@ == x;
                                assert(queue@[q] == q0[q]);
                            }
                        }
                    }
                },
                None => {
                    queue.push(targets[t].clone());
                    proof {
                        assert(queue@[q0.len() as int]@ == tg[t as int]@);
                        assert forall|k: int|
                            0 <= k < queue@.len() implies needed_before(
                            idx,
                            tg,
                            sel0,
                            sel0.len() as int,
                            #[trigger] queue@[k]@,
                        ) by {
                            if k < q0.len() {
                                assert(queue@[k] == q0[k]);
                            }
                        }
                        assert forall|m: int|
                            0 <= m <= t implies (satisfied(idx, sel0, #[trigger] tg[m]@) || queued(
                            queue@,
                            tg[m]@,
                        )) && (idx.is_real(tg[m]@) ==> selects_name(idx, sel0, tg[m]@)) by {
                            if m < t && !satisfied(idx, sel0, tg[m]@) {
                                let q = choose|q: int| 0 <= q < q0.len() && #[trigger] q0[q]@ == tg[m]@;
                                assert(queue@[q] == q0[q]);
                            }
                        }
                        assert forall|i: int, x: Seq<char>|
                            0 <= i < sel0.len() && #[trigger] idx.rec(sel0[i] as int).depends_on(
                                x,
                            ) implies satisfied(idx, sel0, x) || queued(queue@, x) by {
                            if !satisfied(idx, sel0, x) {
                                let q = choose|q: int| 0 <= q < q0.len() && #[trigger] q0[q]@ == x;
                                assert(queue@[q] == q0[q]);
                            }
                        }
                    }
                },
            }
            t = t + 1;
        }
        proof {
            lemma_selection_bound(this.selected@, idx.entries@.len() as int);
        }
        while queue.len() > 0
            invariant
                *this.packages == idx,
                idx.wf(),
                tg == targets@,
                valid_selection(idx, this.selected@),
                this.selected@.len() <= idx.entries@.len(),
                forall|i: int|
                    0 <= i < this.selected@.len() ==> #[trigger] justified(idx, tg, this.selected@, i),
                forall|k: int|
                    0 <= k < queue@.len() ==> needed_before(
                        idx,
                        tg,
                        this.selected@,
                        this.selected@.len() as int,
                        #[trigger] queue@[k]@,
                    ),
                forall|m: int|
                    0 <= m < tg.len() ==> (satisfied(idx, this.selected@, #[trigger] tg[m]@) || queued(
                        queue@,
                        tg[m]@,
                    )) && (idx.is_real(tg[m]@) ==> selects_name(idx, this.selected@, tg[m]@)),
                forall|i: int, x: Seq<char>|
                    0 <= i < this.selected@.len() && #[trigger] idx.rec(
                        this.selected@[i] as int,
                    ).depends_on(x) ==> satisfied(idx, this.selected@, x) || queued(queue@, x),
            decreases idx.entries@.len() - this.selected@.len(), queue@.len(),
        {
            let ghost sel0 = this.selected@;
            let ghost q0 = queue@;
            let target = pop_first(&mut queue);
            let ghost at = choose|k: int|
                0 <= k < q0.len() && target == q0[k] && queue@ == q0.remove(k) && forall|m: int|
                    0 <= m < q0.len() ==> !seq_less(#[trigger] q0[m]@, target@);
            proof {
                assert(needed_before(idx, tg, sel0, sel0.len() as int, q0[at]@));
                assert forall|k: int| 0 <= k < queue@.len() implies needed_before(
                    idx,
                    tg,
                    sel0,
                    sel0.len() as int,
                    #[trigger] queue@[k]@,
                ) by {
                    if k < at {
                        assert(queue@[k] == q0[k]);
                    } else {
                        assert(queue@[k] == q0[k + 1]);
                    }
                }
                assert forall|x: Seq<char>| #[trigger] queued(q0, x) implies queued(queue@, x)
                    || x == target@ by {
                    let k = choose|k: int| 0 <= k < q0.len() && #[trigger] q0[k]@ == x;
                    if k < at {
                        assert(queue@[k] == q0[k]);
                    } else if k > at {
                        assert(queue@[k - 1] == q0[k]);
                    }
                }
            }
            if this.is_satisfied(target.as_str()) {
                continue;
            }
            let j = match this.resolve_target(target.as_str()) {
                Ok(j) => j,
                Err(e) => {
                    proof {
                        assert(needed_before(idx, tg, sel0, sel0.len() as int, q0[at]@));
                        if !is_target(tg, target@) {
                            let m = choose|m: int|
                                0 <= m < sel0.len() && #[trigger] idx.rec(sel0[m] as int).depends_on(
                                    target@,
                                );
                            assert(idx.has(sel0[m] as int));
                        }
                        assert(partial_resolution(idx, tg, sel0));
                        assert(fails_on(idx, tg, target@));
                    }
                    return Err(e);
                },
            };
            proof {
                if sel0.contains(j) {
                    let i = choose|i: int| 0 <= i < sel0.len() && sel0[i] == j;
                    assert(idx.supplies(sel0[i] as int, target@));
                }
                assert(needed_before(idx, tg, sel0, sel0.len() as int, q0[at]@));
            }
            this.selected.push(j);
            proof {
                let sel1 = this.selected@;
                lemma_prefix(idx, tg, sel0, sel1);
                if !is_target(tg, target@) {
                    let m = choose|m: int|
                        0 <= m < sel0.len() && #[trigger] idx.rec(sel0[m] as int).depends_on(target@);
                    assert(sel1[m] == sel0[m]);
                }
                assert(needed_before(idx, tg, sel1, sel0.len() as int, target@));
                assert(sel1.subrange(0, sel0.len() as int) =~= sel0);
                assert(sel1[sel0.len() as int] == j);
                assert(justified(idx, tg, sel1, sel0.len() as int));
                assert(idx.supplies(sel1[sel0.len() as int] as int, target@));
                assert(satisfied(idx, sel1, target@));
                lemma_selection_bound(sel1, idx.entries@.len() as int);
            }
            let ghost sel1 = this.selected@;
            let ghost q1 = queue@;
            this.enqueue_dependencies(j, &mut queue);
            proof {
                let p = sel0.len() as int;
                assert forall|k: int|
                    0 <= k < queue@.len() implies needed_before(
                    idx,
                    tg,
                    sel1,
                    sel1.len() as int,
                    #[trigger] queue@[k]@,
                ) by {
                    if k < q1.len() {
                        assert(queue@[k] == q1[k]);
                        assert(needed_before(idx, tg, sel0, sel0.len() as int, q1[k]@));
                    } else {
                        assert(idx.rec(sel1[p] as int).depends_on(queue@[k]@));
                    }
                }
                assert forall|m: int|
                    0 <= m < tg.len() implies (satisfied(idx, sel1, #[trigger] tg[m]@) || queued(
                    queue@,
                    tg[m]@,
                )) && (idx.is_real(tg[m]@) ==> selects_name(idx, sel1, tg[m]@)) by {
                    if !satisfied(idx, sel1, tg[m]@) {
                        assert(queued(q0, tg[m]@));
                        let q = choose|q: int| 0 <= q < q1.len() && #[trigger] q1[q]@ == tg[m]@;
                        assert(queue@[q] == q1[q]);
                    }
                }
                assert forall|i: int, x: Seq<char>|
                    0 <= i < sel1.len() && #[trigger] idx.rec(sel1[i] as int).depends_on(
                        x,
                    ) implies satisfied(idx, sel1, x) || queued(queue@, x) by {
                    if i != p && !satisfied(idx, sel1, x) {
                        assert(sel1[i] == sel0[i]);
                        assert(queued(q0, x));
                        let q = choose|q: int| 0 <= q < q1.len() && #[trigger] q1[q]@ == x;
                        assert(queue@[q] == q1[q]);
                    }
                }
            }
        }
        Ok(this.selected)
    }

    /// The place of entry `j` in the selection.
    fn position(&self, j: usize) -> (r: usize)
        requires
            self.selection().contains(j),
        ensures
            r < self.selection().len(),
            self.selection()[r as int] == j,
    {
        let mut i: usize = 0;
        while i < self.selected.len()
            invariant
                self.selected@.contains(j),
                i <= self.selected@.len(),
                forall|m: int| 0 <= m < i ==> self.selected@[m] != j,
            decreases self.selected@.len() - i,
        {
            if self.selected[i] == j {
                return i;
            }
            i = i + 1;
        }
        assert(false);
        0
    }

    /// Add the dependencies of entry `j` that the selection does not supply to the queue.
    fn enqueue_dependencies(&self, j: usize, queue: &mut Vec<String>)
        requires
            self.index().wf(),
            self.index().has(j as int),
            valid_selection(self.index(), self.selection()),
        ensures
            final(queue)@.len() >= old(queue)@.len(),
            forall|k: int| 0 <= k < old(queue)@.len() ==> final(queue)@[k] == old(queue)@[k],
            forall|k: int|
                old(queue)@.len() <= k < final(queue)@.len() ==> self.index().rec(
                    j as int,
                ).depends_on(#[trigger] final(queue)@[k]@),
            forall|x: Seq<char>|
                #[trigger] self.index().rec(j as int).depends_on(x) ==> satisfied(
                    self.index(),
                    self.selection(),
                    x,
                ) || queued(final(queue)@, x),
    {
        let package = self.packages.record(j);
        let ghost start = queue@;
        let mut k: usize = 0;
        while k < package.depends.len()
            invariant
                self.index().wf(),
                valid_selection(self.index(), self.selection()),
                *package == self.index().rec(j as int),
                k <= package.depends@.len(),
                queue@.len() >= start.len(),
                forall|m: int| 0 <= m < start.len() ==> queue@[m] == start[m],
                forall|m: int|
                    start.len() <= m < queue@.len() ==> package.depends_on(#[trigger] queue@[m]@),
                forall|m: int|
                    0 <= m < k ==> satisfied(self.index(), self.selection(), #[trigger] package.depends@[m].name@)
                        || queued(queue@, package.depends@[m].name@),
            decreases package.depends@.len() - k,
        {
            let name = &package.depends[k].name;
            let ghost before = queue@;
            if !self.is_satisfied(name.as_str()) {
                queue.push(name.clone());
                assert(queue@[queue@.len() - 1]@ == name@);
            }
            proof {
                assert forall|m: int|
                    0 <= m <= k implies satisfied(self.index(), self.selection(), #[trigger] package.depends@[m].name@)
                    || queued(queue@, package.depends@[m].name@) by {
                    if m < k && !satisfied(self.index(), self.selection(), package.depends@[m].name@) {
                        let q = choose|q: int| 0 <= q < before.len() && #[trigger] before[q]@ == package.depends@[m].name@;
                        assert(queue@[q] == before[q]);
                    }
                }
                assert forall|m: int|
                    start.len() <= m < queue@.len() implies package.depends_on(#[trigger] queue@[m]@) by {
                    if m == queue@.len() - 1 && queue@.len() > before.len() {
                        assert(package.depends@[k as int].name@ == queue@[m]@);
                    } else {
                        assert(queue@[m] == before[m]);
                    }
                }
            }
            k = k + 1;
        }
        proof {
            assert forall|x: Seq<char>| #[trigger] self.index().rec(j as int).depends_on(x) implies satisfied(
                self.index(),
                self.selection(),
                x,
            ) || queued(queue@, x) by {
                let m = choose|m: int| 0 <= m < package.depends@.len() && #[trigger] package.depends@[m].name@ == x;
                assert(satisfied(self.index(), self.selection(), package.depends@[m].name@)
                    || queued(queue@, package.depends@[m].name@));
            }
        }
    }
}

} // verus!

use vstd::prelude::*;

use crate::index::{is_first_occurrence, pos_before, pos_name, pos_valid, PackageIndex};
use crate::resolve::{
    chosen_for, closed, fails_on, is_target, justified, needed_before, partial_resolution,
    resolve_outcome,
    satisfied, selects_name,
};

verus! {

/// The record that the index keeps for a name comes from the earliest repository that holds a
/// record of that name, whatever the order of the repositories.
pub proof fn law_earliest_repository(idx: PackageIndex, j: int, r: int, k: int)
    requires
        idx.wf(),
        idx.has(j),
        pos_valid(idx.packages@, r, k),
        pos_name(idx.packages@, r, k) == idx.name(j),
    ensures
        idx.entries@[j].0 <= r,
{
    let (a, b) = idx.entries@[j];
    assert(is_first_occurrence(idx.packages@, a as int, b as int));
    if r < a {
        assert(pos_before(r, k, a as int, b as int));
    }
}

/// With no targets, a partial resolution selects nothing.
proof fn lemma_nothing_asked(idx: PackageIndex, tg: Seq<String>, sel: Seq<usize>)
    requires
        tg.len() == 0,
        partial_resolution(idx, tg, sel),
    ensures
        sel.len() == 0,
{
    if sel.len() > 0 {
        assert(justified(idx, tg, sel, 0));
        let x = choose|x: Seq<char>|
            #[trigger] needed_before(idx, tg, sel, 0, x) && chosen_for(idx, sel[0] as int, x);
        assert(!is_target(tg, x));
    }
}

/// Resolving an empty list of targets succeeds and selects nothing.
pub proof fn law_empty_targets(
    idx: PackageIndex,
    tg: Seq<String>,
    r: Result<Seq<usize>, Seq<char>>,
)
    requires
        tg.len() == 0,
        resolve_outcome(idx, tg, r),
    ensures
        r == Ok::<Seq<usize>, Seq<char>>(Seq::empty()),
{
    match r {
        Ok(sel) => {
            lemma_nothing_asked(idx, tg, sel);
            assert(sel =~= Seq::empty());
        },
        Err(n) => {
            let sel = choose|sel: Seq<usize>|
                #[trigger] partial_resolution(idx, tg, sel) && needed_before(
                    idx,
                    tg,
                    sel,
                    sel.len() as int,
                    n,
                );
            lemma_nothing_asked(idx, tg, sel);
            assert(!is_target(tg, n));
        },
    }
}

/// Where every target names entry `jt`, which has no dependencies, a partial resolution holds
/// nothing but `jt`.
proof fn lemma_only_target(idx: PackageIndex, tg: Seq<String>, sel: Seq<usize>, jt: int, n: int)
    requires
        idx.wf(),
        idx.has(jt),
        idx.rec(jt).depends@.len() == 0,
        forall|i: int| 0 <= i < tg.len() ==> #[trigger] tg[i]@ == idx.name(jt),
        partial_resolution(idx, tg, sel),
        0 <= n <= sel.len(),
    ensures
        forall|i: int| 0 <= i < n ==> sel[i] as int == jt,
    decreases n,
{
    if n > 0 {
        lemma_only_target(idx, tg, sel, jt, n - 1);
        let i = n - 1;
        assert(justified(idx, tg, sel, i));
        let x = choose|x: Seq<char>|
            #[trigger] needed_before(idx, tg, sel, i, x) && chosen_for(idx, sel[i] as int, x);
        if !is_target(tg, x) {
            let m = choose|m: int| 0 <= m < i && #[trigger] idx.rec(sel[m] as int).depends_on(x);
            assert(sel[m] as int == jt);
        }
        assert(x == idx.name(jt));
        assert(idx.is_real(x));
        assert(idx.has(sel[i] as int));
    }
}

/// Resolving a single target that names a package without dependencies selects exactly that
/// package.
pub proof fn law_single_package(
    idx: PackageIndex,
    tg: Seq<String>,
    jt: int,
    r: Result<Seq<usize>, Seq<char>>,
)
    requires
        idx.wf(),
        idx.has(jt),
        idx.rec(jt).depends@.len() == 0,
        tg.len() == 1,
        tg[0]@ == idx.name(jt),
        resolve_outcome(idx, tg, r),
    ensures
        r is Ok,
        r->Ok_0.len() == 1,
        r->Ok_0[0] as int == jt,
{
    match r {
        Ok(sel) => {
            lemma_only_target(idx, tg, sel, jt, sel.len() as int);
            assert(selects_name(idx, sel, tg[0]@));
            if sel.len() > 1 {
                assert(sel[0] == sel[1]);
            }
        },
        Err(n) => {
            let sel = choose|sel: Seq<usize>|
                #[trigger] partial_resolution(idx, tg, sel) && needed_before(
                    idx,
                    tg,
                    sel,
                    sel.len() as int,
                    n,
                );
            lemma_only_target(idx, tg, sel, jt, sel.len() as int);
            if !is_target(tg, n) {
                let m = choose|m: int|
                    0 <= m < sel.len() && #[trigger] idx.rec(sel[m] as int).depends_on(n);
                assert(sel[m] as int == jt);
            }
            assert(idx.supplies(jt, n));
        },
    }
}

/// Package `sel[i]` was chosen for a dependency of a package selected before it.
pub open spec fn chosen_for_dependency(idx: PackageIndex, sel: Seq<usize>, i: int) -> bool {
    exists|m: int, x: Seq<char>|
        0 <= m < i && #[trigger] idx.rec(sel[m] as int).depends_on(x) && chosen_for(
            idx,
            sel[i] as int,
            x,
        )
}

/// Every dependency of every package that resolution can select for `tg` has a provider.
pub open spec fn reachable_resolvable(idx: PackageIndex, tg: Seq<String>) -> bool {
    forall|sel: Seq<usize>, m: int, x: Seq<char>|
        #![trigger partial_resolution(idx, tg, sel), idx.rec(sel[m] as int).depends_on(x)]
        partial_resolution(idx, tg, sel) && 0 <= m < sel.len() && idx.rec(
            sel[m] as int,
        ).depends_on(x) ==> idx.is_provided(x)
}

/// Resolving a single virtual target with exactly one provider selects that provider first,
/// then only packages chosen for dependencies of packages selected before them, and the
/// selection supplies every dependency of every package in it. It does not fail on the target,
/// and it succeeds wherever every dependency that it can reach from the provider has a provider.
pub proof fn law_single_provider(
    idx: PackageIndex,
    tg: Seq<String>,
    v: Seq<char>,
    p: int,
    r: Result<Seq<usize>, Seq<char>>,
)
    requires
        idx.wf(),
        tg.len() == 1,
        tg[0]@ == v,
        !idx.is_real(v),
        forall|j: int| #[trigger] idx.supplies(j, v) <==> j == p,
        resolve_outcome(idx, tg, r),
    ensures
        r is Err ==> r->Err_0 != v,
        reachable_resolvable(idx, tg) ==> r is Ok,
        r is Ok ==> {
            let sel = r->Ok_0;
            &&& sel.len() >= 1
            &&& sel[0] as int == p
            &&& closed(idx, sel)
            &&& forall|i: int| 1 <= i < sel.len() ==> #[trigger] chosen_for_dependency(idx, sel, i)
        },
{
    match r {
        Ok(sel) => {
            assert(idx.supplies(p, v));
            assert(satisfied(idx, sel, tg[0]@));
            assert(justified(idx, tg, sel, 0));
            let x0 = choose|x: Seq<char>|
                #[trigger] needed_before(idx, tg, sel, 0, x) && chosen_for(idx, sel[0] as int, x);
            assert(is_target(tg, x0));
            assert(x0 == v);
            assert(idx.supplies(sel[0] as int, v));
            assert forall|i: int| 1 <= i < sel.len() implies #[trigger] chosen_for_dependency(
                idx,
                sel,
                i,
            ) by {
                assert(justified(idx, tg, sel, i));
                let x = choose|x: Seq<char>|
                    #[trigger] needed_before(idx, tg, sel, i, x) && chosen_for(
                        idx,
                        sel[i] as int,
                        x,
                    );
                if is_target(tg, x) {
                    assert(x == v);
                    assert(idx.supplies(sel[i] as int, v));
                    assert(sel[i] == sel[0]);
                } else {
                    let m = choose|m: int|
                        0 <= m < i && #[trigger] idx.rec(sel[m] as int).depends_on(x);
                    assert(idx.rec(sel[m] as int).depends_on(x) && chosen_for(idx, sel[i] as int, x));
                }
            }
        },
        Err(n) => {
            assert(idx.supplies(p, v));
            assert(fails_on(idx, tg, n));
            let sel = choose|sel: Seq<usize>|
                #[trigger] partial_resolution(idx, tg, sel) && needed_before(
                    idx,
                    tg,
                    sel,
                    sel.len() as int,
                    n,
                );
            if !is_target(tg, n) {
                let m = choose|m: int|
                    0 <= m < sel.len() && #[trigger] idx.rec(sel[m] as int).depends_on(n);
                if reachable_resolvable(idx, tg) {
                    assert(idx.is_provided(n));
                }
            }
        },
    }
}

/// Resolving two targets that both depend on a third package, which alone supplies its name,
/// selects that package exactly once.
pub proof fn law_shared_dependency(
    idx: PackageIndex,
    tg: Seq<String>,
    ja: int,
    jb: int,
    jc: int,
    r: Result<Seq<usize>, Seq<char>>,
)
    requires
        idx.wf(),
        idx.has(ja),
        idx.has(jb),
        idx.has(jc),
        tg.len() == 2,
        tg[0]@ == idx.name(ja),
        tg[1]@ == idx.name(jb),
        idx.rec(ja).depends_on(idx.name(jc)),
        idx.rec(jb).depends_on(idx.name(jc)),
        forall|j: int| #[trigger] idx.supplies(j, idx.name(jc)) ==> j == jc,
        resolve_outcome(idx, tg, r),
    ensures
        r is Ok ==> {
            let sel = r->Ok_0;
            &&& exists|i: int| 0 <= i < sel.len() && sel[i] as int == jc
            &&& forall|i1: int, i2: int|
                0 <= i1 < sel.len() && 0 <= i2 < sel.len() && sel[i1] as int == jc && sel[i2] as int
                    == jc ==> i1 == i2
        },
{
    if let Ok(sel) = r {
        assert(idx.supplies(ja, tg[0]@));
        assert(satisfied(idx, sel, tg[0]@));
        assert(idx.is_real(tg[0]@));
        assert(selects_name(idx, sel, tg[0]@));
        let i = choose|i: int| 0 <= i < sel.len() && #[trigger] idx.name(sel[i] as int) == tg[0]@;
        assert(idx.has(sel[i] as int));
        assert(sel[i] as int == ja);
        assert(idx.rec(sel[i] as int).depends_on(idx.name(jc)));
        assert(satisfied(idx, sel, idx.name(jc)));
        let k = choose|k: int| 0 <= k < sel.len() && #[trigger] idx.supplies(sel[k] as int, idx.name(jc));
        assert(sel[k] as int == jc);
    }
}

/// Resolving a list of targets of which one is neither a package nor provided by any fails.
pub proof fn law_unknown_target(
    idx: PackageIndex,
    tg: Seq<String>,
    t: int,
    r: Result<Seq<usize>, Seq<char>>,
)
    requires
        0 <= t < tg.len(),
        !idx.is_provided(tg[t]@),
        resolve_outcome(idx, tg, r),
    ensures
        r is Err,
{
    if let Ok(sel) = r {
        assert(satisfied(idx, sel, tg[t]@));
    }
}

} // verus!

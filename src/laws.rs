use vstd::prelude::*;

use crate::names::lemma_push_contains;
use crate::resolve::{
    add_unique, apply_spec, covered, lemma_failure_persists, records_for, resolve_spec,
    take_all_choice, well_formed, ResolutionView,
};

verus! {

/// `add_unique` keeps `inc` as a prefix, adds exactly the elements of `add`,
/// and introduces no duplicate.
pub proof fn lemma_add_unique(inc: Seq<Seq<char>>, add: Seq<Seq<char>>)
    ensures
        forall|x: Seq<char>|
            add_unique(inc, add).contains(x) <==> (inc.contains(x) || add.contains(x)),
        inc.no_duplicates() ==> add_unique(inc, add).no_duplicates(),
        inc.len() <= add_unique(inc, add).len(),
        add_unique(inc, add).take(inc.len() as int) == inc,
    decreases add.len(),
{
    if add.len() == 0 {
        assert(inc.take(inc.len() as int) =~= inc);
    } else {
        lemma_add_unique(inc, add.drop_last());
        let prev = add_unique(inc, add.drop_last());
        assert(add =~= add.drop_last().push(add.last()));
        lemma_push_contains(add.drop_last(), add.last());
        if !prev.contains(add.last()) {
            lemma_push_contains(prev, add.last());
            assert(prev.push(add.last()).take(inc.len() as int) =~= prev.take(inc.len() as int));
            if prev.no_duplicates() {
                let next = prev.push(add.last());
                assert forall|i: int, j: int| 0 <= i < next.len() && 0 <= j < next.len() && i
                    != j implies next[i] != next[j] by {
                    if i == prev.len() as int {
                        assert(prev[j] == next[j]);
                    } else if j == prev.len() as int {
                        assert(prev[i] == next[i]);
                    }
                }
            }
        }
    }
}

/// Adding only what is already there changes nothing.
pub proof fn lemma_add_unique_noop(inc: Seq<Seq<char>>, add: Seq<Seq<char>>)
    requires
        forall|x: Seq<char>| add.contains(x) ==> inc.contains(x),
    ensures
        add_unique(inc, add) == inc,
    decreases add.len(),
{
    if add.len() > 0 {
        assert(add =~= add.drop_last().push(add.last()));
        lemma_push_contains(add.drop_last(), add.last());
        lemma_add_unique_noop(inc, add.drop_last());
    }
}

/// The covered candidates are exactly the candidates that are included.
pub proof fn lemma_covered(cands: Seq<Seq<char>>, inc: Seq<Seq<char>>)
    ensures
        forall|x: Seq<char>|
            covered(cands, inc).contains(x) <==> (cands.contains(x) && inc.contains(x)),
    decreases cands.len(),
{
    if cands.len() > 0 {
        let prev = covered(cands.drop_last(), inc);
        lemma_covered(cands.drop_last(), inc);
        assert(cands =~= cands.drop_last().push(cands.last()));
        lemma_push_contains(cands.drop_last(), cands.last());
        lemma_push_contains(prev, cands.last());
        assert forall|x: Seq<char>|
            covered(cands, inc).contains(x) <==> (cands.contains(x) && inc.contains(x)) by {
            assert(cands.contains(x) == (cands.drop_last().contains(x) || x == cands.last()));
            assert(prev.contains(x) == (cands.drop_last().contains(x) && inc.contains(x)));
            if inc.contains(cands.last()) {
                assert(covered(cands, inc) == prev.push(cands.last()));
            } else {
                assert(covered(cands, inc) == prev);
            }
        }
    } else {
        assert forall|x: Seq<char>|
            covered(cands, inc).contains(x) <==> (cands.contains(x) && inc.contains(x)) by {
            assert(covered(cands, inc).len() == 0);
        }
    }
}

/// Each chosen package is recorded against the library, after any earlier record.
pub proof fn lemma_records_for(
    records: Seq<(Seq<char>, Seq<char>)>,
    lib: Seq<char>,
    chosen: Seq<Seq<char>>,
)
    ensures
        forall|p: Seq<char>|
            chosen.contains(p) ==> (records + records_for(lib, chosen)).contains((p, lib)),
        forall|r: (Seq<char>, Seq<char>)|
            records.contains(r) ==> (records + records_for(lib, chosen)).contains(r),
        forall|r: (Seq<char>, Seq<char>)|
            (records + records_for(lib, chosen)).contains(r) ==> (records.contains(r) || (
            chosen.contains(r.0) && r.1 == lib)),
{
    let all = records + records_for(lib, chosen);
    assert forall|p: Seq<char>| chosen.contains(p) implies all.contains((p, lib)) by {
        let k = choose|k: int| 0 <= k < chosen.len() && chosen[k] == p;
        assert(all[records.len() + k] == (p, lib));
    }
    assert forall|r: (Seq<char>, Seq<char>)| records.contains(r) implies all.contains(r) by {
        let k = choose|k: int| 0 <= k < records.len() && records[k] == r;
        assert(all[k] == r);
    }
    assert forall|r: (Seq<char>, Seq<char>)| all.contains(r) implies (records.contains(r) || (
    chosen.contains(r.0) && r.1 == lib)) by {
        let k = choose|k: int| 0 <= k < all.len() && all[k] == r;
        if k < records.len() {
            assert(records[k] == r);
        } else {
            assert(chosen[k - records.len()] == r.0);
        }
    }
}

/// Short-circuit: when some candidate of a library is already included, resolving
/// the library adds no package, and records every such candidate as satisfying it.
pub proof fn lemma_short_circuit(st: ResolutionView, lib: Seq<char>, cands: Seq<Seq<char>>)
    requires
        exists|p: Seq<char>| cands.contains(p) && st.included.contains(p),
    ensures
        apply_spec(st, lib, take_all_choice(cands, st.included)).included == st.included,
        forall|p: Seq<char>|
            cands.contains(p) && st.included.contains(p) ==> apply_spec(
                st,
                lib,
                take_all_choice(cands, st.included),
            ).records.contains((p, lib)),
{
    let p0 = choose|p: Seq<char>| cands.contains(p) && st.included.contains(p);
    let cov = covered(cands, st.included);
    lemma_covered(cands, st.included);
    assert(cov.contains(p0));
    assert(cov.len() > 0);
    lemma_add_unique_noop(st.included, cov);
    lemma_records_for(st.records, lib, cov);
}

/// Take-all fan-out: when no candidate of a library is included yet, every
/// candidate is included and recorded as satisfying it.
pub proof fn lemma_take_all_fan_out(st: ResolutionView, lib: Seq<char>, cands: Seq<Seq<char>>)
    requires
        forall|p: Seq<char>| cands.contains(p) ==> !st.included.contains(p),
    ensures
        take_all_choice(cands, st.included) == cands,
        forall|p: Seq<char>|
            cands.contains(p) ==> apply_spec(st, lib, cands).included.contains(p)
                && apply_spec(st, lib, cands).records.contains((p, lib)),
{
    let cov = covered(cands, st.included);
    lemma_covered(cands, st.included);
    if cov.len() > 0 {
        assert(cov.contains(cov[0]));
        assert(cands.contains(cov[0]) && st.included.contains(cov[0]));
    }
    assert(cov.len() == 0);
    lemma_add_unique(st.included, cands);
    lemma_records_for(st.records, lib, cands);
}

/// Resolution succeeds whenever every library has at least one candidate.
pub proof fn lemma_all_found_succeeds(
    lookups: Seq<(Seq<char>, Seq<Seq<char>>)>,
    pre: Seq<Seq<char>>,
)
    requires
        forall|i: int| 0 <= i < lookups.len() ==> (#[trigger] lookups[i]).1.len() > 0,
    ensures
        resolve_spec(lookups, pre) is Ok,
    decreases lookups.len(),
{
    if lookups.len() > 0 {
        let init = lookups.drop_last();
        assert forall|i: int| 0 <= i < init.len() implies (#[trigger] init[i]).1.len() > 0 by {
            assert(init[i] == lookups[i]);
        }
        lemma_all_found_succeeds(init, pre);
    }
}

/// Zero-candidate failure: a library without candidates makes the resolution
/// fail; when every earlier library has a candidate, the failure names it.
pub proof fn lemma_unresolvable(
    lookups: Seq<(Seq<char>, Seq<Seq<char>>)>,
    pre: Seq<Seq<char>>,
    i: int,
)
    requires
        0 <= i < lookups.len(),
        lookups[i].1.len() == 0,
    ensures
        resolve_spec(lookups, pre) is Err,
        (forall|j: int| 0 <= j < i ==> (#[trigger] lookups[j]).1.len() > 0) ==> resolve_spec(
            lookups,
            pre,
        ) == Err::<ResolutionView, Seq<char>>(lookups[i].0),
{
    let before = lookups.take(i);
    let upto = lookups.take(i + 1);
    assert(upto.drop_last() =~= before);
    assert(upto.last() == lookups[i]);
    if resolve_spec(before, pre) is Err {
        assert(before.take(i) =~= before);
        assert(upto.take(i) =~= before);
        lemma_failure_persists(upto, pre, i);
    }
    lemma_failure_persists(lookups, pre, i + 1);
    if forall|j: int| 0 <= j < i ==> (#[trigger] lookups[j]).1.len() > 0 {
        assert forall|j: int| 0 <= j < before.len() implies (#[trigger] before[j]).1.len()
            > 0 by {
            assert(before[j] == lookups[j]);
        }
        lemma_all_found_succeeds(before, pre);
    }
}

/// Recording chosen packages for a library keeps a resolution well formed.
pub proof fn lemma_apply_well_formed(st: ResolutionView, lib: Seq<char>, chosen: Seq<Seq<char>>)
    ensures
        well_formed(st) ==> well_formed(apply_spec(st, lib, chosen)),
{
    let next = apply_spec(st, lib, chosen);
    lemma_add_unique(st.included, chosen);
    lemma_records_for(st.records, lib, chosen);
    if well_formed(st) {
        assert forall|r: (Seq<char>, Seq<char>)| next.records.contains(r) implies next.included.contains(
            r.0,
        ) by {
            if st.records.contains(r) {
                assert(st.included.contains(r.0));
            } else {
                assert(chosen.contains(r.0));
            }
        }
    }
}

/// A successful resolution includes every package at most once, and every
/// recorded package is included.
pub proof fn lemma_resolution_well_formed(
    lookups: Seq<(Seq<char>, Seq<Seq<char>>)>,
    pre: Seq<Seq<char>>,
)
    requires
        resolve_spec(lookups, pre) is Ok,
    ensures
        well_formed(resolve_spec(lookups, pre)->Ok_0),
    decreases lookups.len(),
{
    if lookups.len() == 0 {
        lemma_add_unique(Seq::empty(), pre);
    } else {
        let init = lookups.drop_last();
        lemma_resolution_well_formed(init, pre);
        let st = resolve_spec(init, pre)->Ok_0;
        lemma_apply_well_formed(st, lookups.last().0, take_all_choice(lookups.last().1, st.included));
    }
}

/// What a prefix of the lookups included and recorded stays in the final result.
pub proof fn lemma_resolution_grows(
    lookups: Seq<(Seq<char>, Seq<Seq<char>>)>,
    pre: Seq<Seq<char>>,
    m: int,
)
    requires
        0 <= m <= lookups.len(),
        resolve_spec(lookups, pre) is Ok,
    ensures
        resolve_spec(lookups.take(m), pre) is Ok,
        forall|p: Seq<char>|
            resolve_spec(lookups.take(m), pre)->Ok_0.included.contains(p) ==> resolve_spec(
                lookups,
                pre,
            )->Ok_0.included.contains(p),
        forall|r: (Seq<char>, Seq<char>)|
            resolve_spec(lookups.take(m), pre)->Ok_0.records.contains(r) ==> resolve_spec(
                lookups,
                pre,
            )->Ok_0.records.contains(r),
    decreases lookups.len(),
{
    if m == lookups.len() {
        assert(lookups.take(m) =~= lookups);
    } else {
        let init = lookups.drop_last();
        assert(init.take(m) =~= lookups.take(m));
        lemma_resolution_grows(init, pre, m);
        let st = resolve_spec(init, pre)->Ok_0;
        let chosen = take_all_choice(lookups.last().1, st.included);
        let next = apply_spec(st, lookups.last().0, chosen);
        assert(resolve_spec(lookups, pre) == Ok::<ResolutionView, Seq<char>>(next));
        lemma_add_unique(st.included, chosen);
        lemma_records_for(st.records, lookups.last().0, chosen);
        let early = resolve_spec(lookups.take(m), pre)->Ok_0;
        assert forall|p: Seq<char>| early.included.contains(p) implies next.included.contains(p) by {
            assert(st.included.contains(p));
        }
        assert forall|r: (Seq<char>, Seq<char>)| early.records.contains(r) implies next.records.contains(r) by {
            assert(st.records.contains(r));
        }
    }
}

/// Cross-library reuse: a candidate of a library that is already included when
/// the library's turn comes is recorded against that library, and is not
/// included a second time.
pub proof fn lemma_reuse(
    lookups: Seq<(Seq<char>, Seq<Seq<char>>)>,
    pre: Seq<Seq<char>>,
    i: int,
    p: Seq<char>,
)
    requires
        0 <= i < lookups.len(),
        resolve_spec(lookups, pre) is Ok,
        resolve_spec(lookups.take(i), pre) is Ok,
        lookups[i].1.contains(p),
        resolve_spec(lookups.take(i), pre)->Ok_0.included.contains(p),
    ensures
        resolve_spec(lookups, pre)->Ok_0.records.contains((p, lookups[i].0)),
        resolve_spec(lookups, pre)->Ok_0.included.no_duplicates(),
{
    let upto = lookups.take(i + 1);
    assert(upto.drop_last() =~= lookups.take(i));
    assert(upto.last() == lookups[i]);
    lemma_resolution_grows(lookups, pre, i + 1);
    lemma_short_circuit(resolve_spec(lookups.take(i), pre)->Ok_0, lookups[i].0, lookups[i].1);
    lemma_resolution_well_formed(lookups, pre);
}

/// Cross-library reuse: when an earlier library's only candidate is `p` and a
/// later library also lists `p`, `p` is recorded against both libraries and
/// included once.
pub proof fn lemma_cross_library_reuse(
    lookups: Seq<(Seq<char>, Seq<Seq<char>>)>,
    pre: Seq<Seq<char>>,
    j: int,
    i: int,
    p: Seq<char>,
)
    requires
        0 <= j < i < lookups.len(),
        lookups[j].1 == seq![p],
        lookups[i].1.contains(p),
        resolve_spec(lookups, pre) is Ok,
    ensures
        resolve_spec(lookups, pre)->Ok_0.records.contains((p, lookups[j].0)),
        resolve_spec(lookups, pre)->Ok_0.records.contains((p, lookups[i].0)),
        resolve_spec(lookups, pre)->Ok_0.included.contains(p),
        resolve_spec(lookups, pre)->Ok_0.included.no_duplicates(),
{
    let upto = lookups.take(j + 1);
    assert(upto.drop_last() =~= lookups.take(j));
    assert(upto.last() == lookups[j]);
    lemma_resolution_grows(lookups, pre, j + 1);
    lemma_resolution_grows(lookups, pre, i);
    let st = resolve_spec(lookups.take(j), pre)->Ok_0;
    let cands = lookups[j].1;
    let choice = take_all_choice(cands, st.included);
    lemma_covered(cands, st.included);
    let cov = covered(cands, st.included);
    if cov.len() > 0 {
        assert(cov.contains(cov[0]));
        assert(cands.contains(cov[0]));
        assert(cov[0] == p);
        assert(choice.contains(p));
    } else {
        assert(choice[0] == p);
        assert(choice.contains(p));
    }
    lemma_add_unique(st.included, choice);
    lemma_records_for(st.records, lookups[j].0, choice);
    let before_i = lookups.take(i);
    assert(before_i.take(j + 1) =~= upto);
    lemma_resolution_grows(before_i, pre, j + 1);
    lemma_reuse(lookups, pre, i, p);
}

/// Determinism: the resolution is a function of its inputs, so two runs on
/// the same lookups and pre-selection give the same packages in the same order.
pub proof fn lemma_deterministic(
    lookups: Seq<(Seq<char>, Seq<Seq<char>>)>,
    pre: Seq<Seq<char>>,
    first: Result<ResolutionView, Seq<char>>,
    second: Result<ResolutionView, Seq<char>>,
)
    requires
        first == resolve_spec(lookups, pre),
        second == resolve_spec(lookups, pre),
    ensures
        first == second,
{
}

} // verus!

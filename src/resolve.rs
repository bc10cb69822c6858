use vstd::prelude::*;

use crate::laws::{lemma_add_unique, lemma_apply_well_formed};
use crate::names::{copy_packages, pkg_names, MissingLib, Package};

verus! {

/// Appends each package of `add` to `inc` unless it is already there.
pub open spec fn add_unique(inc: Seq<Seq<char>>, add: Seq<Seq<char>>) -> Seq<Seq<char>>
    decreases add.len(),
{
    if add.len() == 0 {
        inc
    } else {
        let prev = add_unique(inc, add.drop_last());
        if prev.contains(add.last()) {
            prev
        } else {
            prev.push(add.last())
        }
    }
}

/// The candidates that are already included, in candidate order.
pub open spec fn covered(cands: Seq<Seq<char>>, inc: Seq<Seq<char>>) -> Seq<Seq<char>>
    decreases cands.len(),
{
    if cands.len() == 0 {
        Seq::empty()
    } else {
        let prev = covered(cands.drop_last(), inc);
        if inc.contains(cands.last()) {
            prev.push(cands.last())
        } else {
            prev
        }
    }
}

/// What the take-all strategy chooses among `cands` (assumed non-empty): the
/// already included candidates if there are any, else every candidate.
pub open spec fn take_all_choice(cands: Seq<Seq<char>>, inc: Seq<Seq<char>>) -> Seq<Seq<char>> {
    if covered(cands, inc).len() > 0 {
        covered(cands, inc)
    } else {
        cands
    }
}

/// The abstract state of a resolution: the included packages in order, and
/// the `(package, library)` pairs recording which package satisfies which library.
pub ghost struct ResolutionView {
    pub included: Seq<Seq<char>>,
    pub records: Seq<(Seq<char>, Seq<char>)>,
}

/// A resolution includes each package at most once, and every package that a
/// record names is included.
pub open spec fn well_formed(v: ResolutionView) -> bool {
    &&& v.included.no_duplicates()
    &&& forall|r: (Seq<char>, Seq<char>)| v.records.contains(r) ==> v.included.contains(r.0)
}

/// Pairs each chosen package with the library it satisfies.
pub open spec fn records_for(lib: Seq<char>, chosen: Seq<Seq<char>>) -> Seq<(Seq<char>, Seq<char>)> {
    chosen.map_values(|p: Seq<char>| (p, lib))
}

/// The state before any library is resolved: the pre-selected packages, once each.
pub open spec fn start_spec(pre: Seq<Seq<char>>) -> ResolutionView {
    ResolutionView { included: add_unique(Seq::empty(), pre), records: Seq::empty() }
}

/// The state after `chosen` was selected for `lib`.
pub open spec fn apply_spec(
    st: ResolutionView,
    lib: Seq<char>,
    chosen: Seq<Seq<char>>,
) -> ResolutionView {
    ResolutionView {
        included: add_unique(st.included, chosen),
        records: st.records + records_for(lib, chosen),
    }
}

/// Resolution with the take-all strategy: a serial fold over the lookup
/// results `(library, candidates)` in the given order. It fails with the first
/// library that has no candidate.
pub open spec fn resolve_spec(
    lookups: Seq<(Seq<char>, Seq<Seq<char>>)>,
    pre: Seq<Seq<char>>,
) -> Result<ResolutionView, Seq<char>>
    decreases lookups.len(),
{
    if lookups.len() == 0 {
        Ok(start_spec(pre))
    } else {
        match resolve_spec(lookups.drop_last(), pre) {
            Err(lib) => Err(lib),
            Ok(st) => {
                let lib = lookups.last().0;
                let cands = lookups.last().1;
                if cands.len() == 0 {
                    Err(lib)
                } else {
                    Ok(apply_spec(st, lib, take_all_choice(cands, st.included)))
                }
            },
        }
    }
}

/// The names of lookup results.
pub open spec fn lookups_view(lookups: Seq<(MissingLib, Vec<Package>)>) -> Seq<
    (Seq<char>, Seq<Seq<char>>),
> {
    lookups.map_values(|e: (MissingLib, Vec<Package>)| (e.0.name@, pkg_names(e.1@)))
}

/// The names of recorded pairs.
pub open spec fn records_view(rs: Seq<(Package, MissingLib)>) -> Seq<(Seq<char>, Seq<char>)> {
    rs.map_values(|r: (Package, MissingLib)| (r.0.name@, r.1.name@))
}

/// Why a resolution failed.
#[derive(Debug)]
pub enum ResolveError {
    /// No package provides the library.
    Unresolvable(MissingLib),
    /// The choice among the library's candidates was abandoned.
    SelectionCancelled(MissingLib),
}

/// The packages included so far, and which library each was selected for.
#[derive(Debug)]
pub struct Resolution {
    pub included: Vec<Package>,
    pub records: Vec<(Package, MissingLib)>,
}

impl View for Resolution {
    type V = ResolutionView;

    open spec fn view(&self) -> ResolutionView {
        ResolutionView { included: pkg_names(self.included@), records: records_view(self.records@) }
    }
}

/// Whether a package of this name is among `ps`.
fn contains_package(ps: &Vec<Package>, p: &Package) -> (r: bool)
    ensures
        r == pkg_names(ps@).contains(p.name@),
{
    let mut i: usize = 0;
    while i < ps.len()
        invariant
            i <= ps.len(),
            forall|k: int| 0 <= k < i ==> pkg_names(ps@)[k] != p.name@,
        decreases ps.len() - i,
    {
        if ps[i].name == p.name {
            assert(pkg_names(ps@)[i as int] == p.name@);
            return true;
        }
        i = i + 1;
    }
    false
}

impl Resolution {
    /// Starts a resolution from the explicitly requested packages; a package
    /// named twice is included once, at its first place.
    pub fn new(pre: &Vec<Package>) -> (r: Resolution)
        ensures
            r@ == start_spec(pkg_names(pre@)),
            well_formed(r@),
    {
        proof {
            lemma_add_unique(Seq::empty(), pkg_names(pre@));
        }
        let mut r = Resolution { included: Vec::new(), records: Vec::new() };
        proof {
            assert(pkg_names(r.included@) =~= Seq::<Seq<char>>::empty());
            assert(records_view(r.records@) =~= Seq::<(Seq<char>, Seq<char>)>::empty());
        }
        let mut i: usize = 0;
        while i < pre.len()
            invariant
                i <= pre.len(),
                pkg_names(r.included@) == add_unique(Seq::empty(), pkg_names(pre@).take(i as int)),
                records_view(r.records@) == Seq::<(Seq<char>, Seq<char>)>::empty(),
            decreases pre.len() - i,
        {
            assert(pkg_names(pre@).take(i + 1).drop_last() =~= pkg_names(pre@).take(i as int));
            if !contains_package(&r.included, &pre[i]) {
                r.included.push(pre[i].duplicate());
                assert(pkg_names(r.included@) =~= add_unique(
                    Seq::empty(),
                    pkg_names(pre@).take(i as int),
                ).push(pre[i as int].name@));
            }
            i = i + 1;
        }
        assert(pkg_names(pre@).take(i as int) =~= pkg_names(pre@));
        r
    }

    /// Whether the package is already included.
    pub fn is_included(&self, p: &Package) -> (r: bool)
        ensures
            r == self@.included.contains(p.name@),
    {
        contains_package(&self.included, p)
    }

    /// Whether `p` was recorded as satisfying `lib`.
    pub fn satisfies(&self, p: &Package, lib: &MissingLib) -> (r: bool)
        ensures
            r == self@.records.contains((p.name@, lib.name@)),
    {
        let mut i: usize = 0;
        while i < self.records.len()
            invariant
                i <= self.records.len(),
                forall|k: int| 0 <= k < i ==> self@.records[k] != (p.name@, lib.name@),
            decreases self.records.len() - i,
        {
            if self.records[i].0.name == p.name && self.records[i].1.name == lib.name {
                assert(self@.records[i as int] == (p.name@, lib.name@));
                return true;
            }
            i = i + 1;
        }
        false
    }

    /// Records that each package of `chosen` satisfies `lib`, and includes each
    /// one that is not included yet.
    pub fn record(&mut self, lib: &MissingLib, chosen: &Vec<Package>)
        ensures
            final(self)@ == apply_spec(old(self)@, lib.name@, pkg_names(chosen@)),
            well_formed(old(self)@) ==> well_formed(final(self)@),
    {
        proof {
            lemma_apply_well_formed(self@, lib.name@, pkg_names(chosen@));
        }
        let ghost start = self@;
        let mut k: usize = 0;
        assert(start.records + records_for(lib.name@, pkg_names(chosen@).take(0)) =~= start.records);
        while k < chosen.len()
            invariant
                k <= chosen.len(),
                self@.included == add_unique(start.included, pkg_names(chosen@).take(k as int)),
                self@.records == start.records + records_for(
                    lib.name@,
                    pkg_names(chosen@).take(k as int),
                ),
            decreases chosen.len() - k,
        {
            let ghost names = pkg_names(chosen@);
            assert(names.take(k + 1).drop_last() =~= names.take(k as int));
            if !contains_package(&self.included, &chosen[k]) {
                self.included.push(chosen[k].duplicate());
                assert(pkg_names(self.included@) =~= add_unique(
                    start.included,
                    names.take(k as int),
                ).push(names[k as int]));
            }
            let ghost old_records = self.records@;
            self.records.push((chosen[k].duplicate(), lib.duplicate()));
            assert(records_view(self.records@) =~= records_view(old_records).push(
                (names[k as int], lib.name@),
            ));
            assert(records_for(lib.name@, names.take(k + 1)) =~= records_for(
                lib.name@,
                names.take(k as int),
            ).push((names[k as int], lib.name@)));
            k = k + 1;
        }
        assert(pkg_names(chosen@).take(k as int) =~= pkg_names(chosen@));
    }
}

/// The candidates that `res` already includes, in candidate order.
pub fn covered_candidates(cands: &Vec<Package>, res: &Resolution) -> (r: Vec<Package>)
    ensures
        pkg_names(r@) == covered(pkg_names(cands@), res@.included),
{
    let mut cov: Vec<Package> = Vec::new();
    let mut i: usize = 0;
    assert(pkg_names(cov@) =~= covered(pkg_names(cands@).take(0), res@.included));
    while i < cands.len()
        invariant
            i <= cands.len(),
            pkg_names(cov@) == covered(pkg_names(cands@).take(i as int), res@.included),
        decreases cands.len() - i,
    {
        assert(pkg_names(cands@).take(i + 1).drop_last() =~= pkg_names(cands@).take(i as int));
        if res.is_included(&cands[i]) {
            cov.push(cands[i].duplicate());
            assert(pkg_names(cov@) =~= covered(
                pkg_names(cands@).take(i as int),
                res@.included,
            ).push(cands[i as int].name@));
        }
        i = i + 1;
    }
    assert(pkg_names(cands@).take(i as int) =~= pkg_names(cands@));
    cov
}

/// The take-all strategy: among non-empty `cands`, the ones already included
/// if there are any (nothing new is needed), else all of them.
pub fn select_take_all(cands: &Vec<Package>, res: &Resolution) -> (r: Vec<Package>)
    ensures
        pkg_names(r@) == take_all_choice(pkg_names(cands@), res@.included),
{
    let cov = covered_candidates(cands, res);
    if cov.len() > 0 {
        cov
    } else {
        copy_packages(cands)
    }
}

/// A failure on a prefix of the lookups is the failure of the whole resolution.
pub proof fn lemma_failure_persists(
    lookups: Seq<(Seq<char>, Seq<Seq<char>>)>,
    pre: Seq<Seq<char>>,
    n: int,
)
    requires
        0 <= n <= lookups.len(),
        resolve_spec(lookups.take(n), pre) is Err,
    ensures
        resolve_spec(lookups, pre) == resolve_spec(lookups.take(n), pre),
    decreases lookups.len(),
{
    if lookups.len() == n {
        assert(lookups.take(n) =~= lookups);
    } else {
        assert(lookups.drop_last().take(n) =~= lookups.take(n));
        lemma_failure_persists(lookups.drop_last(), pre, n);
    }
}

/// Whether a result of `resolve` is the one the model gives.
pub open spec fn agrees(
    r: Result<Resolution, ResolveError>,
    s: Result<ResolutionView, Seq<char>>,
) -> bool {
    match (r, s) {
        (Ok(res), Ok(v)) => res@ == v,
        (Err(ResolveError::Unresolvable(l)), Err(name)) => l.name@ == name,
        _ => false,
    }
}

/// Resolves each library, in the given order, from the candidates that were
/// looked up for it, starting from the pre-selected packages, with the
/// take-all strategy. Fails with the first library that has no candidate.
pub fn resolve(lookups: &Vec<(MissingLib, Vec<Package>)>, pre: &Vec<Package>) -> (r: Result<
    Resolution,
    ResolveError,
>)
    ensures
        agrees(r, resolve_spec(lookups_view(lookups@), pkg_names(pre@))),
        r matches Ok(res) ==> well_formed(res@),
{
    let ghost lv = lookups_view(lookups@);
    let ghost pv = pkg_names(pre@);
    let mut res = Resolution::new(pre);
    let mut i: usize = 0;
    assert(lv.take(0) =~= Seq::<(Seq<char>, Seq<Seq<char>>)>::empty());
    while i < lookups.len()
        invariant
            i <= lookups.len(),
            lv == lookups_view(lookups@),
            pv == pkg_names(pre@),
            resolve_spec(lv.take(i as int), pv) == Ok::<ResolutionView, Seq<char>>(res@),
            well_formed(res@),
        decreases lookups.len() - i,
    {
        assert(lv.take(i + 1).drop_last() =~= lv.take(i as int));
        let lib = &lookups[i].0;
        let cands = &lookups[i].1;
        assert(lv.take(i + 1).last() == lv[i as int]);
        if cands.len() == 0 {
            proof {
                lemma_failure_persists(lv, pv, i + 1);
            }
            return Err(ResolveError::Unresolvable(lib.duplicate()));
        }
        let chosen = select_take_all(cands, &res);
        res.record(lib, &chosen);
        i = i + 1;
    }
    assert(lv.take(i as int) =~= lv);
    Ok(res)
}

/// How a library with several candidates, none of them included yet, is settled.
#[derive(Clone, Copy, Debug, PartialEq, Eq, Structural)]
pub enum Strategy {
    /// Include every candidate.
    TakeAll,
    /// Ask the user to pick exactly one candidate.
    Interactive,
}

impl Default for Strategy {
    fn default() -> (r: Strategy)
        ensures
            r == Strategy::TakeAll,
    {
        Strategy::TakeAll
    }
}

/// What to do for one library.
#[derive(Debug)]
pub enum Decision {
    /// Record these packages for the library.
    Take(Vec<Package>),
    /// The user must pick one of the candidates.
    Ask,
}

/// Whether `strategy` leaves the choice among `cands` to the user.
pub open spec fn needs_choice(
    strategy: Strategy,
    cands: Seq<Seq<char>>,
    inc: Seq<Seq<char>>,
) -> bool {
    strategy == Strategy::Interactive && cands.len() > 1 && covered(cands, inc).len() == 0
}

/// Decides, for the library `lib` with candidates `cands`, what the strategy
/// selects given what `res` already includes: no candidate is an error; an
/// already included candidate settles the library; a single candidate is
/// taken; several new ones are all taken, or left to the user.
pub fn decide(strategy: Strategy, lib: &MissingLib, cands: &Vec<Package>, res: &Resolution) -> (r:
    Result<Decision, ResolveError>)
    ensures
        match r {
            Err(ResolveError::Unresolvable(l)) => cands@.len() == 0 && l.name@ == lib.name@,
            Err(ResolveError::SelectionCancelled(_)) => false,
            Ok(Decision::Ask) => cands@.len() > 0 && needs_choice(
                strategy,
                pkg_names(cands@),
                res@.included,
            ),
            Ok(Decision::Take(v)) => cands@.len() > 0 && !needs_choice(
                strategy,
                pkg_names(cands@),
                res@.included,
            ) && pkg_names(v@) == take_all_choice(pkg_names(cands@), res@.included),
        },
{
    if cands.len() == 0 {
        return Err(ResolveError::Unresolvable(lib.duplicate()));
    }
    let cov = covered_candidates(cands, res);
    if cov.len() > 0 {
        Ok(Decision::Take(cov))
    } else if strategy == Strategy::Interactive && cands.len() > 1 {
        Ok(Decision::Ask)
    } else {
        Ok(Decision::Take(copy_packages(cands)))
    }
}

/// Turns the user's answer for `lib` into the packages to record: the picked
/// candidate alone, or, when the choice was abandoned, a failure naming `lib`.
pub fn pick_candidate(lib: &MissingLib, cands: &Vec<Package>, answer: Option<usize>) -> (r: Result<
    Vec<Package>,
    ResolveError,
>)
    requires
        match answer {
            Some(i) => i < cands@.len(),
            None => true,
        },
    ensures
        match answer {
            None => match r {
                Err(ResolveError::SelectionCancelled(l)) => l.name@ == lib.name@,
                _ => false,
            },
            Some(i) => match r {
                Ok(v) => pkg_names(v@) == seq![cands@[i as int].name@],
                _ => false,
            },
        },
{
    match answer {
        None => Err(ResolveError::SelectionCancelled(lib.duplicate())),
        Some(i) => {
            let mut v: Vec<Package> = Vec::new();
            v.push(cands[i].duplicate());
            assert(pkg_names(v@) =~= seq![cands@[i as int].name@]);
            Ok(v)
        },
    }
}

} // verus!

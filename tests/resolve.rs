use nix_autobahn::names::{MissingLib, Package};
use nix_autobahn::normalize::normalize;
use nix_autobahn::resolve::{
    decide, pick_candidate, resolve, select_take_all, Decision, Resolution, ResolveError,
    Strategy,
};

fn lib(name: &str) -> MissingLib {
    MissingLib::new(name.to_string())
}

fn pkg(name: &str) -> Package {
    Package::new(name.to_string())
}

fn pkgs(names: &[&str]) -> Vec<Package> {
    names.iter().map(|n| pkg(n)).collect()
}

fn names(ps: &[Package]) -> Vec<String> {
    ps.iter().map(|p| p.name.clone()).collect()
}

fn records(r: &Resolution) -> Vec<(String, String)> {
    r.records
        .iter()
        .map(|(p, l)| (p.name.clone(), l.name.clone()))
        .collect()
}

#[test]
fn normalize_dedups_and_sorts() {
    let explicit = vec!["a.so".to_string(), "a.so".to_string(), "b.so".to_string()];
    let r = normalize(&explicit, &Vec::new());
    assert_eq!(r.len(), 2);
    assert_eq!(r, vec![lib("a.so"), lib("b.so")]);
}

#[test]
fn normalize_merges_both_sources() {
    let explicit = vec!["libz.so.1".to_string(), "libA.so".to_string()];
    let scanned = vec![lib("libm.so.6"), lib("libz.so.1"), lib("liba.so")];
    let r = normalize(&explicit, &scanned);
    assert_eq!(
        r,
        vec![lib("libA.so"), lib("liba.so"), lib("libm.so.6"), lib("libz.so.1")]
    );
}

#[test]
fn normalize_orders_prefix_first() {
    let explicit = vec!["libfoo.so.2".to_string(), "libfoo.so".to_string()];
    let r = normalize(&explicit, &vec![lib("libfoo.so.10")]);
    assert_eq!(
        r,
        vec![lib("libfoo.so"), lib("libfoo.so.10"), lib("libfoo.so.2")]
    );
}

#[test]
fn normalize_empty() {
    let r = normalize(&Vec::new(), &Vec::new());
    assert!(r.is_empty());
}

#[test]
fn short_circuit_adds_nothing() {
    let lookups = vec![(lib("L"), pkgs(&["alpha", "beta"]))];
    let r = resolve(&lookups, &pkgs(&["beta"])).unwrap();
    assert_eq!(names(&r.included), vec!["beta"]);
    assert_eq!(records(&r), vec![("beta".to_string(), "L".to_string())]);
}

#[test]
fn zero_candidates_is_unresolvable() {
    let lookups = vec![(lib("L"), Vec::new())];
    let r = resolve(&lookups, &Vec::new());
    match r {
        Err(ResolveError::Unresolvable(l)) => assert_eq!(l, lib("L")),
        other => panic!("unexpected {:?}", other),
    }
}

#[test]
fn first_unresolvable_library_is_named() {
    let lookups = vec![
        (lib("a.so"), pkgs(&["A"])),
        (lib("b.so"), Vec::new()),
        (lib("c.so"), Vec::new()),
    ];
    match resolve(&lookups, &Vec::new()) {
        Err(ResolveError::Unresolvable(l)) => assert_eq!(l, lib("b.so")),
        other => panic!("unexpected {:?}", other),
    }
}

#[test]
fn take_all_fans_out() {
    let lookups = vec![(lib("L"), pkgs(&["alpha", "beta"]))];
    let r = resolve(&lookups, &Vec::new()).unwrap();
    assert_eq!(names(&r.included), vec!["alpha", "beta"]);
    assert_eq!(
        records(&r),
        vec![
            ("alpha".to_string(), "L".to_string()),
            ("beta".to_string(), "L".to_string())
        ]
    );
}

#[test]
fn cross_library_reuse() {
    let lookups = vec![
        (lib("L1"), pkgs(&["alpha"])),
        (lib("L2"), pkgs(&["alpha", "gamma"])),
    ];
    let r = resolve(&lookups, &Vec::new()).unwrap();
    assert_eq!(names(&r.included), vec!["alpha"]);
    assert!(r.satisfies(&pkg("alpha"), &lib("L1")));
    assert!(r.satisfies(&pkg("alpha"), &lib("L2")));
    assert!(!r.satisfies(&pkg("gamma"), &lib("L2")));
    assert_eq!(r.records.len(), 2);
}

#[test]
fn same_package_for_two_libraries_included_once() {
    let lookups = vec![
        (lib("libx.so"), pkgs(&["X", "Y"])),
        (lib("liby.so"), pkgs(&["Y"])),
    ];
    let r = resolve(&lookups, &pkgs(&["Z"])).unwrap();
    assert_eq!(names(&r.included), vec!["Z", "X", "Y"]);
    assert_eq!(
        records(&r),
        vec![
            ("X".to_string(), "libx.so".to_string()),
            ("Y".to_string(), "libx.so".to_string()),
            ("Y".to_string(), "liby.so".to_string())
        ]
    );
}

#[test]
fn resolution_is_deterministic() {
    let lookups = vec![
        (lib("a.so"), pkgs(&["B", "A"])),
        (lib("b.so"), pkgs(&["C"])),
        (lib("c.so"), pkgs(&["A", "D"])),
    ];
    let pre = pkgs(&["E"]);
    let first = resolve(&lookups, &pre).unwrap();
    let second = resolve(&lookups, &pre).unwrap();
    assert_eq!(names(&first.included), names(&second.included));
    assert_eq!(names(&first.included), vec!["E", "B", "A", "C"]);
    assert_eq!(records(&first), records(&second));
}

#[test]
fn preselected_packages_keep_order_once() {
    let r = Resolution::new(&pkgs(&["b", "a", "b", "c", "a"]));
    assert_eq!(names(&r.included), vec!["b", "a", "c"]);
    assert!(r.records.is_empty());
}

#[test]
fn empty_library_set_keeps_preselection() {
    let r = resolve(&Vec::new(), &pkgs(&["p"])).unwrap();
    assert_eq!(names(&r.included), vec!["p"]);
    assert!(r.records.is_empty());
}

#[test]
fn select_take_all_prefers_included() {
    let res = Resolution::new(&pkgs(&["B", "C"]));
    let chosen = select_take_all(&pkgs(&["A", "C", "B"]), &res);
    assert_eq!(names(&chosen), vec!["C", "B"]);
    let chosen = select_take_all(&pkgs(&["A", "D"]), &res);
    assert_eq!(names(&chosen), vec!["A", "D"]);
}

#[test]
fn record_dedups_packages() {
    let mut res = Resolution::new(&pkgs(&["A"]));
    res.record(&lib("l.so"), &pkgs(&["A", "B"]));
    assert_eq!(names(&res.included), vec!["A", "B"]);
    assert_eq!(res.records.len(), 2);
    assert!(res.is_included(&pkg("B")));
    assert!(!res.is_included(&pkg("C")));
}

#[test]
fn interactive_asks_only_when_ambiguous() {
    let res = Resolution::new(&pkgs(&["beta"]));
    let l = lib("L");
    assert!(matches!(
        decide(Strategy::Interactive, &l, &pkgs(&["alpha", "gamma"]), &res),
        Ok(Decision::Ask)
    ));
    match decide(Strategy::Interactive, &l, &pkgs(&["alpha", "beta"]), &res) {
        Ok(Decision::Take(v)) => assert_eq!(names(&v), vec!["beta"]),
        other => panic!("unexpected {:?}", other),
    }
    match decide(Strategy::Interactive, &l, &pkgs(&["alpha"]), &res) {
        Ok(Decision::Take(v)) => assert_eq!(names(&v), vec!["alpha"]),
        other => panic!("unexpected {:?}", other),
    }
    match decide(Strategy::TakeAll, &l, &pkgs(&["alpha", "gamma"]), &res) {
        Ok(Decision::Take(v)) => assert_eq!(names(&v), vec!["alpha", "gamma"]),
        other => panic!("unexpected {:?}", other),
    }
    assert!(matches!(
        decide(Strategy::TakeAll, &l, &Vec::new(), &res),
        Err(ResolveError::Unresolvable(_))
    ));
}

#[test]
fn default_strategy_is_take_all() {
    assert_eq!(Strategy::default(), Strategy::TakeAll);
}

#[test]
fn picking_a_candidate() {
    let l = lib("L");
    let cands = pkgs(&["alpha", "beta"]);
    match pick_candidate(&l, &cands, Some(1)) {
        Ok(v) => assert_eq!(names(&v), vec!["beta"]),
        Err(e) => panic!("unexpected {:?}", e),
    }
    match pick_candidate(&l, &cands, None) {
        Err(ResolveError::SelectionCancelled(x)) => assert_eq!(x, l),
        other => panic!("unexpected {:?}", other),
    }
}

use vstd::prelude::*;

verus! {

/// A missing shared library, identified by its file name (without directories).
#[derive(Debug, Clone, PartialEq, Eq, PartialOrd, Ord, Hash)]
pub struct MissingLib {
    pub name: String,
}

/// A package that provides shared libraries, such as `openssl.out`.
#[derive(Debug, Clone, PartialEq, Eq, PartialOrd, Ord, Hash)]
pub struct Package {
    pub name: String,
}

/// The names of a sequence of libraries.
pub open spec fn lib_names(ls: Seq<MissingLib>) -> Seq<Seq<char>> {
    ls.map_values(|l: MissingLib| l.name@)
}

/// The names of a sequence of packages.
pub open spec fn pkg_names(ps: Seq<Package>) -> Seq<Seq<char>> {
    ps.map_values(|p: Package| p.name@)
}

/// The character sequences of a sequence of strings.
pub open spec fn str_names(ss: Seq<String>) -> Seq<Seq<char>> {
    ss.map_values(|s: String| s@)
}

/// An element is in `s.push(v)` iff it is in `s` or is `v`.
pub proof fn lemma_push_contains<A>(s: Seq<A>, v: A)
    ensures
        forall|x: A| s.push(v).contains(x) <==> (s.contains(x) || x == v),
{
    assert forall|x: A| s.push(v).contains(x) <==> (s.contains(x) || x == v) by {
        if s.contains(x) {
            let k = choose|k: int| 0 <= k < s.len() && s[k] == x;
            assert(s.push(v)[k] == x);
        }
        if x == v {
            assert(s.push(v)[s.len() as int] == x);
        }
        if s.push(v).contains(x) {
            let k = choose|k: int| 0 <= k < s.push(v).len() && s.push(v)[k] == x;
            if k < s.len() {
                assert(s[k] == x);
            }
        }
    }
}

impl MissingLib {
    pub fn new(name: String) -> (r: MissingLib)
        ensures
            r.name@ == name@,
    {
        MissingLib { name }
    }

    /// A copy with the same name.
    pub fn duplicate(&self) -> (r: MissingLib)
        ensures
            r.name@ == self.name@,
    {
        MissingLib { name: self.name.clone() }
    }
}

impl Package {
    pub fn new(name: String) -> (r: Package)
        ensures
            r.name@ == name@,
    {
        Package { name }
    }

    /// A copy with the same name.
    pub fn duplicate(&self) -> (r: Package)
        ensures
            r.name@ == self.name@,
    {
        Package { name: self.name.clone() }
    }
}

/// A copy of each package, in order.
pub fn copy_packages(ps: &Vec<Package>) -> (r: Vec<Package>)
    ensures
        pkg_names(r@) == pkg_names(ps@),
{
    let mut r: Vec<Package> = Vec::new();
    let mut i: usize = 0;
    while i < ps.len()
        invariant
            i <= ps.len(),
            pkg_names(r@) == pkg_names(ps@).take(i as int),
        decreases ps.len() - i,
    {
        let ghost before = r@;
        r.push(ps[i].duplicate());
        assert(pkg_names(r@) =~= pkg_names(before).push(ps[i as int].name@));
        assert(pkg_names(ps@).take(i + 1) =~= pkg_names(ps@).take(i as int).push(ps[i as int].name@));
        i = i + 1;
    }
    assert(pkg_names(ps@).take(i as int) =~= pkg_names(ps@));
    r
}

} // verus!

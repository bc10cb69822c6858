use vstd::prelude::*;

use crate::names::{lemma_push_contains, lib_names, str_names, MissingLib};
use crate::order::{
    lemma_lt_asymmetric, lemma_lt_irreflexive, lemma_lt_total, lemma_lt_transitive, seq_lt, str_lt,
};

verus! {

/// Strictly increasing in lexicographic order: sorted and free of duplicates.
pub open spec fn sorted_unique(s: Seq<Seq<char>>) -> bool {
    forall|i: int, j: int| 0 <= i < j < s.len() ==> seq_lt(#[trigger] s[i], #[trigger] s[j])
}

/// Inserts `name` into the sorted set `libs`, keeping it sorted and unique.
fn insert_sorted(libs: &mut Vec<MissingLib>, name: &String)
    requires
        sorted_unique(lib_names(old(libs)@)),
    ensures
        sorted_unique(lib_names(final(libs)@)),
        forall|x: Seq<char>|
            lib_names(final(libs)@).contains(x) <==> (lib_names(old(libs)@).contains(x) || x
                == name@),
{
    let ghost before = lib_names(libs@);
    let mut i: usize = 0;
    loop
        invariant
            lib_names(libs@) == before,
            sorted_unique(before),
            i <= libs.len(),
            forall|k: int| 0 <= k < i ==> seq_lt(#[trigger] before[k], name@),
        ensures
            lib_names(libs@) == before,
            i <= libs.len(),
            forall|k: int| 0 <= k < i ==> seq_lt(#[trigger] before[k], name@),
            i == libs.len() || !seq_lt(before[i as int], name@),
        decreases libs.len() - i,
    {
        if i >= libs.len() || !str_lt(&libs[i].name, name) {
            break;
        }
        i = i + 1;
    }
    if i < libs.len() && libs[i].name == *name {
        assert(before[i as int] == name@);
        return;
    }
    proof {
        if i < libs.len() {
            lemma_lt_total(before[i as int], name@);
        }
    }
    libs.insert(i, MissingLib { name: name.clone() });
    let ghost after = lib_names(libs@);
    assert(after =~= before.insert(i as int, name@));
    assert forall|p: int, q: int| 0 <= p < q < after.len() implies seq_lt(
        #[trigger] after[p],
        #[trigger] after[q],
    ) by {
        if q < i {
        } else if q == i {
        } else if p < i {
            lemma_lt_transitive(before[p], name@, before[i as int]);
            if q - 1 > i {
                lemma_lt_transitive(before[p], before[i as int], before[q - 1]);
            }
        } else if p == i {
            if q - 1 > i {
                lemma_lt_transitive(name@, before[i as int], before[q - 1]);
            }
        } else {
        }
    }
    assert forall|x: Seq<char>| after.contains(x) <==> (before.contains(x) || x == name@) by {
        if after.contains(x) {
            let k = choose|k: int| 0 <= k < after.len() && after[k] == x;
            if k < i {
                assert(before[k] == x);
            } else if k > i {
                assert(before[k - 1] == x);
            }
        }
        if before.contains(x) {
            let k = choose|k: int| 0 <= k < before.len() && before[k] == x;
            if k < i {
                assert(after[k] == x);
            } else {
                assert(after[k + 1] == x);
            }
        }
        if x == name@ {
            assert(after[i as int] == x);
        }
    }
}

/// Merges explicitly named and scanned libraries into one canonical set:
/// deduplicated by exact name, in lexicographic order.
pub fn normalize(explicit: &Vec<String>, scanned: &Vec<MissingLib>) -> (r: Vec<MissingLib>)
    ensures
        sorted_unique(lib_names(r@)),
        forall|x: Seq<char>|
            lib_names(r@).contains(x) <==> (str_names(explicit@).contains(x) || lib_names(
                scanned@,
            ).contains(x)),
{
    let mut r: Vec<MissingLib> = Vec::new();
    assert(lib_names(r@) =~= Seq::<Seq<char>>::empty());
    let mut i: usize = 0;
    while i < explicit.len()
        invariant
            i <= explicit.len(),
            sorted_unique(lib_names(r@)),
            forall|x: Seq<char>|
                lib_names(r@).contains(x) <==> str_names(explicit@).take(i as int).contains(x),
        decreases explicit.len() - i,
    {
        insert_sorted(&mut r, &explicit[i]);
        assert(str_names(explicit@).take(i + 1) =~= str_names(explicit@).take(i as int).push(
            explicit[i as int]@,
        ));
        proof {
            lemma_push_contains(str_names(explicit@).take(i as int), explicit[i as int]@);
        }
        i = i + 1;
    }
    assert(str_names(explicit@).take(i as int) =~= str_names(explicit@));
    let mut j: usize = 0;
    while j < scanned.len()
        invariant
            j <= scanned.len(),
            sorted_unique(lib_names(r@)),
            forall|x: Seq<char>|
                lib_names(r@).contains(x) <==> (str_names(explicit@).contains(x) || lib_names(
                    scanned@,
                ).take(j as int).contains(x)),
        decreases scanned.len() - j,
    {
        insert_sorted(&mut r, &scanned[j].name);
        assert(lib_names(scanned@).take(j + 1) =~= lib_names(scanned@).take(j as int).push(
            scanned[j as int].name@,
        ));
        proof {
            lemma_push_contains(lib_names(scanned@).take(j as int), scanned[j as int].name@);
        }
        j = j + 1;
    }
    assert(lib_names(scanned@).take(j as int) =~= lib_names(scanned@));
    r
}

/// Canonical order: two sorted, duplicate-free sequences with the same
/// elements are equal. So `normalize` yields the same set for inputs that name
/// the same libraries, whatever their order or repetitions.
pub proof fn lemma_sorted_unique_canonical(a: Seq<Seq<char>>, b: Seq<Seq<char>>)
    requires
        sorted_unique(a),
        sorted_unique(b),
        forall|x: Seq<char>| a.contains(x) <==> b.contains(x),
    ensures
        a == b,
    decreases a.len(),
{
    if a.len() == 0 {
        if b.len() > 0 {
            assert(b.contains(b[0]));
        }
        assert(a =~= b);
    } else {
        assert(a.contains(a[0]));
        assert(b.len() > 0);
        assert(b.contains(b[0]));
        if a[0] != b[0] {
            let k = choose|k: int| 0 <= k < a.len() && a[k] == b[0];
            let m = choose|m: int| 0 <= m < b.len() && b[m] == a[0];
            assert(seq_lt(a[0], a[k]));
            assert(seq_lt(b[0], b[m]));
            lemma_lt_asymmetric(a[0], b[0]);
        }
        let ta = a.drop_first();
        let tb = b.drop_first();
        assert forall|x: Seq<char>| ta.contains(x) <==> tb.contains(x) by {
            if ta.contains(x) {
                let k = choose|k: int| 0 <= k < ta.len() && ta[k] == x;
                assert(seq_lt(a[0], a[k + 1]));
                lemma_lt_irreflexive(x);
                assert(b.contains(x));
                let m = choose|m: int| 0 <= m < b.len() && b[m] == x;
                assert(m != 0);
                assert(tb[m - 1] == x);
            }
            if tb.contains(x) {
                let k = choose|k: int| 0 <= k < tb.len() && tb[k] == x;
                assert(seq_lt(b[0], b[k + 1]));
                lemma_lt_irreflexive(x);
                assert(a.contains(x));
                let m = choose|m: int| 0 <= m < a.len() && a[m] == x;
                assert(m != 0);
                assert(ta[m - 1] == x);
            }
        }
        lemma_sorted_unique_canonical(ta, tb);
        assert(a =~= seq![a[0]] + ta);
        assert(b =~= seq![b[0]] + tb);
    }
}

} // verus!

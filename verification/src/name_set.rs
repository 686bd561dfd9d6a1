//! Ordered sets of names, kept as strictly increasing vectors of strings.
//!
//! Generic parameter lists are sets: each name once, in the order of `seq_less`.

use vstd::prelude::*;

use crate::compiler::hir_ast::names_view;
use crate::text::{
    lemma_seq_less_irreflexive, lemma_seq_less_transitive, lemma_seq_less_trichotomy, seq_less,
    sorted_names, str_eq, str_less,
};

verus! {

/// `v` with `x` added at its place in the order (unchanged when `x` is there already).
pub open spec fn insert_name(v: Seq<Seq<char>>, x: Seq<char>) -> Seq<Seq<char>>
    decreases v.len(),
{
    if v.len() == 0 {
        seq![x]
    } else if v[0] == x {
        v
    } else if seq_less(x, v[0]) {
        seq![x] + v
    } else {
        seq![v[0]] + insert_name(v.drop_first(), x)
    }
}

/// The names of `s` as an ordered set.
pub open spec fn sorted_set_of(s: Seq<Seq<char>>) -> Seq<Seq<char>>
    decreases s.len(),
{
    if s.len() == 0 {
        seq![]
    } else {
        insert_name(sorted_set_of(s.drop_last()), s.last())
    }
}

/// Inserting into an ordered set gives an ordered set with one more member.
pub proof fn lemma_insert_name(v: Seq<Seq<char>>, x: Seq<char>)
    requires
        sorted_names(v),
    ensures
        sorted_names(insert_name(v, x)),
        forall|y: Seq<char>| #[trigger] insert_name(v, x).contains(y) <==> (v.contains(y) || y == x),
    decreases v.len(),
{
    let r = insert_name(v, x);
    if v.len() == 0 {
        assert(r =~= seq![x]);
        assert forall|y: Seq<char>| #[trigger] r.contains(y) <==> (v.contains(y) || y == x) by {
            if r.contains(y) {
                assert(r[0] == y);
            }
            if y == x {
                assert(r[0] == y);
            }
        }
    } else if v[0] == x {
        assert forall|y: Seq<char>| #[trigger] r.contains(y) <==> (v.contains(y) || y == x) by {
            if y == x {
                assert(v[0] == y);
            }
        }
    } else if seq_less(x, v[0]) {
        assert forall|i: int, j: int| 0 <= i < j < r.len() implies seq_less(#[trigger] r[i], #[trigger] r[j]) by {
            if i == 0 {
                assert(r[j] == v[j - 1]);
                if j - 1 > 0 {
                    assert(seq_less(v[0], v[j - 1]));
                    lemma_seq_less_transitive(x, v[0], v[j - 1]);
                }
            } else {
                assert(r[i] == v[i - 1] && r[j] == v[j - 1]);
            }
        }
        assert forall|y: Seq<char>| #[trigger] r.contains(y) <==> (v.contains(y) || y == x) by {
            if r.contains(y) {
                let k = choose|k: int| 0 <= k < r.len() && r[k] == y;
                if k > 0 {
                    assert(v[k - 1] == y);
                }
            }
            if v.contains(y) {
                let k = choose|k: int| 0 <= k < v.len() && v[k] == y;
                assert(r[k + 1] == y);
            }
            if y == x {
                assert(r[0] == y);
            }
        }
    } else {
        lemma_seq_less_trichotomy(x, v[0]);
        let t = v.drop_first();
        assert(sorted_names(t)) by {
            assert forall|i: int, j: int| 0 <= i < j < t.len() implies seq_less(#[trigger] t[i], #[trigger] t[j]) by {
                assert(t[i] == v[i + 1] && t[j] == v[j + 1]);
            }
        }
        lemma_insert_name(t, x);
        let rt = insert_name(t, x);
        assert(r == seq![v[0]] + rt);
        assert forall|k: int| 0 <= k < rt.len() implies seq_less(v[0], #[trigger] rt[k]) by {
            assert(rt.contains(rt[k]));
            if rt[k] != x {
                assert(t.contains(rt[k]));
                let m = choose|m: int| 0 <= m < t.len() && t[m] == rt[k];
                assert(v[m + 1] == rt[k]);
            }
        }
        assert forall|i: int, j: int| 0 <= i < j < r.len() implies seq_less(#[trigger] r[i], #[trigger] r[j]) by {
            if i == 0 {
                assert(r[j] == rt[j - 1]);
            } else {
                assert(r[i] == rt[i - 1] && r[j] == rt[j - 1]);
            }
        }
        assert forall|y: Seq<char>| #[trigger] r.contains(y) <==> (v.contains(y) || y == x) by {
            if r.contains(y) {
                let k = choose|k: int| 0 <= k < r.len() && r[k] == y;
                if k > 0 {
                    assert(rt[k - 1] == y);
                    assert(rt.contains(y));
                    if t.contains(y) {
                        let m = choose|m: int| 0 <= m < t.len() && t[m] == y;
                        assert(v[m + 1] == y);
                    }
                } else {
                    assert(v[0] == y);
                }
            }
            if v.contains(y) {
                let k = choose|k: int| 0 <= k < v.len() && v[k] == y;
                if k > 0 {
                    assert(t[k - 1] == y);
                    assert(t.contains(y));
                    assert(rt.contains(y));
                    let m = choose|m: int| 0 <= m < rt.len() && rt[m] == y;
                    assert(r[m + 1] == y);
                } else {
                    assert(r[0] == y);
                }
            }
            if y == x {
                assert(rt.contains(y));
                let m = choose|m: int| 0 <= m < rt.len() && rt[m] == y;
                assert(r[m + 1] == y);
            }
        }
    }
}

/// Inserting a name above every member appends it.
pub proof fn lemma_insert_name_last(v: Seq<Seq<char>>, x: Seq<char>)
    requires
        forall|i: int| 0 <= i < v.len() ==> seq_less(#[trigger] v[i], x),
    ensures
        insert_name(v, x) == v.push(x),
    decreases v.len(),
{
    if v.len() == 0 {
        assert(seq![x] =~= v.push(x));
    } else {
        assert(seq_less(v[0], x));
        lemma_seq_less_trichotomy(v[0], x);
        let t = v.drop_first();
        assert forall|i: int| 0 <= i < t.len() implies seq_less(#[trigger] t[i], x) by {
            assert(t[i] == v[i + 1]);
        }
        lemma_insert_name_last(t, x);
        assert(seq![v[0]] + t.push(x) =~= v.push(x));
    }
}

/// Where an insertion lands: after the members below `x`.
pub proof fn lemma_insert_name_at(v: Seq<Seq<char>>, x: Seq<char>, i: int)
    requires
        0 <= i <= v.len(),
        forall|j: int| 0 <= j < i ==> seq_less(#[trigger] v[j], x),
        i == v.len() || !seq_less(v[i], x),
    ensures
        insert_name(v, x) == (if i < v.len() && v[i] == x {
            v
        } else {
            v.take(i) + seq![x] + v.skip(i)
        }),
    decreases i,
{
    if i == 0 {
        if v.len() > 0 {
            lemma_seq_less_trichotomy(x, v[0]);
        }
        assert(v.take(0) + seq![x] + v.skip(0) =~= seq![x] + v);
    } else {
        assert(seq_less(v[0], x));
        lemma_seq_less_trichotomy(v[0], x);
        let t = v.drop_first();
        assert forall|j: int| 0 <= j < i - 1 implies seq_less(#[trigger] t[j], x) by {
            assert(t[j] == v[j + 1]);
        }
        lemma_insert_name_at(t, x, i - 1);
        if i < v.len() && v[i] == x {
            assert(seq![v[0]] + t =~= v);
        } else {
            assert(seq![v[0]] + (t.take(i - 1) + seq![x] + t.skip(i - 1)) =~= v.take(i) + seq![x] + v.skip(i));
        }
    }
}

/// The ordered set of a sequence is ordered and holds exactly its names.
pub proof fn lemma_sorted_set_of(s: Seq<Seq<char>>)
    ensures
        sorted_names(sorted_set_of(s)),
        forall|y: Seq<char>| #[trigger] sorted_set_of(s).contains(y) <==> s.contains(y),
    decreases s.len(),
{
    if s.len() > 0 {
        lemma_sorted_set_of(s.drop_last());
        lemma_insert_name(sorted_set_of(s.drop_last()), s.last());
        assert forall|y: Seq<char>| #[trigger] sorted_set_of(s).contains(y) <==> s.contains(y) by {
            if s.drop_last().contains(y) {
                let k = choose|k: int| 0 <= k < s.drop_last().len() && s.drop_last()[k] == y;
                assert(s[k] == y);
            }
            if s.contains(y) && y != s.last() {
                let k = choose|k: int| 0 <= k < s.len() && s[k] == y;
                assert(s.drop_last()[k] == y);
            }
        }
    }
}

/// An ordered set is its own ordered set.
pub proof fn lemma_sorted_set_of_sorted(g: Seq<Seq<char>>)
    requires
        sorted_names(g),
    ensures
        sorted_set_of(g) == g,
    decreases g.len(),
{
    if g.len() > 0 {
        let h = g.drop_last();
        assert(sorted_names(h)) by {
            assert forall|i: int, j: int| 0 <= i < j < h.len() implies seq_less(#[trigger] h[i], #[trigger] h[j]) by {
                assert(h[i] == g[i] && h[j] == g[j]);
            }
        }
        lemma_sorted_set_of_sorted(h);
        assert forall|i: int| 0 <= i < h.len() implies seq_less(#[trigger] h[i], g.last()) by {
            assert(h[i] == g[i]);
        }
        lemma_insert_name_last(h, g.last());
        assert(h.push(g.last()) =~= g);
    }
}

/// Adds `name` to the ordered set `names`.
pub fn insert_sorted(names: &mut Vec<String>, name: String)
    ensures
        names_view(final(names)@) == insert_name(names_view(old(names)@), name@),
{
    let ghost v = names_view(names@);
    let mut i: usize = 0;
    while i < names.len() && str_less(names[i].as_str(), name.as_str())
        invariant
            i <= names@.len(),
            v == names_view(names@),
            forall|j: int| 0 <= j < i ==> seq_less(#[trigger] v[j], name@),
        decreases names@.len() - i,
    {
        i = i + 1;
    }
    proof {
        lemma_insert_name_at(v, name@, i as int);
    }
    if i < names.len() && str_eq(names[i].as_str(), name.as_str()) {
        return;
    }
    names.insert(i, name);
    proof {
        assert(names_view(names@) =~= v.take(i as int) + seq![name@] + v.skip(i as int));
    }
}

/// The names of `names` as an ordered set.
pub fn sorted_set_from(names: &Vec<String>) -> (r: Vec<String>)
    ensures
        names_view(r@) == sorted_set_of(names_view(names@)),
{
    let ghost s = names_view(names@);
    let mut r: Vec<String> = Vec::new();
    let mut i: usize = 0;
    proof {
        assert(s.take(0) =~= Seq::<Seq<char>>::empty());
        assert(names_view(r@) =~= Seq::<Seq<char>>::empty());
    }
    while i < names.len()
        invariant
            i <= names@.len(),
            s == names_view(names@),
            names_view(r@) == sorted_set_of(s.take(i as int)),
        decreases names@.len() - i,
    {
        proof {
            assert(s.take(i + 1).drop_last() =~= s.take(i as int));
            assert(s.take(i + 1).last() == names@[i as int]@);
        }
        insert_sorted(&mut r, names[i].clone());
        i = i + 1;
    }
    proof {
        assert(s.take(names@.len() as int) =~= s);
    }
    r
}

} // verus!

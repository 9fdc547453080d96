//! Merging captured names into one ascending sequence without repeats.

use vstd::prelude::*;
use crate::name_order::{
    name_lt, name_precedes, strictly_sorted, lemma_name_lt_irreflexive, lemma_name_lt_total,
    lemma_name_lt_transitive,
};

verus! {

/// The ordered form of a set of names: the strictly ascending sequence that
/// holds exactly its members.
pub open spec fn ordered_names(s: Set<Seq<char>>) -> Seq<Seq<char>> {
    choose|q: Seq<Seq<char>>| strictly_sorted(q) && q.to_set() == s
}

/// A strictly ascending sequence is fixed by the set of names it holds.
pub proof fn lemma_sorted_unique(p: Seq<Seq<char>>, q: Seq<Seq<char>>)
    requires
        strictly_sorted(p),
        strictly_sorted(q),
        p.to_set() == q.to_set(),
    ensures
        p == q,
    decreases p.len(),
{
    if p.len() == 0 {
        if q.len() > 0 {
            assert(q.to_set().contains(q[0]));
        }
        assert(p =~= q);
    } else {
        assert(p.to_set().contains(p[0]));
        assert(q.len() > 0);
        assert(q.to_set().contains(q[0]));
        let j = choose|j: int| 0 <= j < q.len() && q[j] == p[0];
        let k = choose|k: int| 0 <= k < p.len() && p[k] == q[0];
        if j > 0 {
            assert(name_lt(q[0], q[j]));
            if k > 0 {
                assert(name_lt(p[0], p[k]));
                lemma_name_lt_transitive(p[0], p[k], p[0]);
            }
            lemma_name_lt_irreflexive(p[0]);
        }
        let p1 = p.drop_first();
        let q1 = q.drop_first();
        assert forall|x: Seq<char>| p1.to_set().contains(x) <==> q1.to_set().contains(x) by {
            if p1.to_set().contains(x) {
                let a = choose|a: int| 0 <= a < p1.len() && p1[a] == x;
                assert(name_lt(p[0], p[a + 1]));
                lemma_name_lt_irreflexive(p[0]);
                assert(q.to_set().contains(x));
                let b = choose|b: int| 0 <= b < q.len() && q[b] == x;
                assert(b != 0);
                assert(q1[b - 1] == x);
            }
            if q1.to_set().contains(x) {
                let a = choose|a: int| 0 <= a < q1.len() && q1[a] == x;
                assert(name_lt(q[0], q[a + 1]));
                lemma_name_lt_irreflexive(q[0]);
                assert(p.to_set().contains(x));
                let b = choose|b: int| 0 <= b < p.len() && p[b] == x;
                assert(b != 0);
                assert(p1[b - 1] == x);
            }
        }
        assert(p1.to_set() =~= q1.to_set());
        lemma_sorted_unique(p1, q1);
        assert(p =~= seq![p[0]] + p1);
        assert(q =~= seq![q[0]] + q1);
    }
}

/// The ordered form of the names of a strictly ascending sequence is that
/// sequence itself.
pub proof fn lemma_ordered_names_of_sorted(q: Seq<Seq<char>>)
    requires
        strictly_sorted(q),
    ensures
        ordered_names(q.to_set()) == q,
{
    let s = q.to_set();
    assert(strictly_sorted(q) && q.to_set() == s);
    let c = ordered_names(s);
    lemma_sorted_unique(c, q);
}

/// Inserting `x` at a place where everything before sorts below it, and what
/// follows does not, keeps a sequence strictly ascending.
proof fn lemma_insert_sorted(v: Seq<Seq<char>>, i: int, x: Seq<char>)
    requires
        strictly_sorted(v),
        0 <= i <= v.len(),
        forall|k: int| 0 <= k < i ==> name_lt(#[trigger] v[k], x),
        i < v.len() ==> !name_lt(v[i], x) && v[i] != x,
    ensures
        strictly_sorted(v.insert(i, x)),
        v.insert(i, x).to_set() == v.to_set().insert(x),
{
    if i < v.len() {
        lemma_name_lt_total(v[i], x);
    }
    let w = v.insert(i, x);
    assert forall|a: int, b: int| 0 <= a < b < w.len() implies name_lt(
        #[trigger] w[a],
        #[trigger] w[b],
    ) by {
        if b < i {
        } else if a > i {
            assert(name_lt(v[a - 1], v[b - 1]));
        } else if a == i {
            assert(name_lt(x, v[i]));
            if b - 1 > i {
                lemma_name_lt_transitive(x, v[i], v[b - 1]);
            }
        } else if b == i {
        } else {
            assert(name_lt(v[a], x));
            assert(name_lt(x, v[i]));
            lemma_name_lt_transitive(v[a], x, v[i]);
            if b - 1 > i {
                lemma_name_lt_transitive(v[a], v[i], v[b - 1]);
            }
        }
    }
    assert forall|y: Seq<char>| w.to_set().contains(y) <==> v.to_set().insert(x).contains(y) by {
        if w.to_set().contains(y) {
            let a = choose|a: int| 0 <= a < w.len() && w[a] == y;
            if a < i {
                assert(v[a] == y);
            } else if a > i {
                assert(v[a - 1] == y);
            }
        }
        if v.to_set().contains(y) {
            let a = choose|a: int| 0 <= a < v.len() && v[a] == y;
            if a < i {
                assert(w[a] == y);
            } else {
                assert(w[a + 1] == y);
            }
        }
        if y == x {
            assert(w[i] == y);
        }
    }
    assert(w.to_set() =~= v.to_set().insert(x));
}

/// The index of the first name of `q` that does not sort before `x`.
spec fn insertion_point(q: Seq<Seq<char>>, x: Seq<char>) -> int
    decreases q.len(),
{
    if q.len() == 0 {
        0
    } else if name_lt(q[0], x) {
        1 + insertion_point(q.drop_first(), x)
    } else {
        0
    }
}

proof fn lemma_insertion_point(q: Seq<Seq<char>>, x: Seq<char>)
    ensures
        0 <= insertion_point(q, x) <= q.len(),
        forall|k: int| 0 <= k < insertion_point(q, x) ==> name_lt(#[trigger] q[k], x),
        insertion_point(q, x) < q.len() ==> !name_lt(q[insertion_point(q, x)], x),
    decreases q.len(),
{
    if q.len() > 0 && name_lt(q[0], x) {
        lemma_insertion_point(q.drop_first(), x);
        assert forall|k: int| 0 <= k < insertion_point(q, x) implies name_lt(#[trigger] q[k], x) by {
            if k > 0 {
                assert(q[k] == q.drop_first()[k - 1]);
            }
        }
    }
}

/// Every finite collection of names has an ordered form.
proof fn lemma_ordered_form_exists(q: Seq<Seq<char>>)
    ensures
        exists|r: Seq<Seq<char>>| strictly_sorted(r) && r.to_set() == q.to_set(),
    decreases q.len(),
{
    if q.len() == 0 {
        let r = Seq::<Seq<char>>::empty();
        assert(r.to_set() =~= q.to_set());
        assert(strictly_sorted(r));
    } else {
        let p = q.drop_last();
        let x = q.last();
        lemma_ordered_form_exists(p);
        let r = choose|r: Seq<Seq<char>>| strictly_sorted(r) && r.to_set() == p.to_set();
        assert(q =~= p.push(x));
        lemma_push_to_set(p, x);
        lemma_insertion_point(r, x);
        let i = insertion_point(r, x);
        if i < r.len() && r[i] == x {
            assert(r.to_set().contains(x));
            assert(r.to_set().insert(x) =~= r.to_set());
            assert(strictly_sorted(r) && r.to_set() == q.to_set());
        } else {
            lemma_insert_sorted(r, i, x);
            let w = r.insert(i, x);
            assert(strictly_sorted(w) && w.to_set() == q.to_set());
        }
    }
}

/// The ordered form of any collection of names is strictly ascending, so
/// without repeats, and holds exactly the names of the collection.
pub proof fn lemma_ordered_names(q: Seq<Seq<char>>)
    ensures
        strictly_sorted(ordered_names(q.to_set())),
        ordered_names(q.to_set()).to_set() == q.to_set(),
{
    lemma_ordered_form_exists(q);
}

/// Adds `name` to a strictly ascending vector of names, unless it is there
/// already.
pub fn insert_name(names: &mut Vec<String>, name: String)
    requires
        strictly_sorted(old(names).deep_view()),
    ensures
        strictly_sorted(final(names).deep_view()),
        final(names).deep_view().to_set() == old(names).deep_view().to_set().insert(name@),
{
    let ghost v = names.deep_view();
    let mut i: usize = 0;
    while i < names.len() && name_precedes(names[i].as_str(), name.as_str())
        invariant
            names.deep_view() == v,
            strictly_sorted(v),
            0 <= i <= v.len(),
            forall|k: int| 0 <= k < i ==> name_lt(#[trigger] v[k], name@),
        decreases v.len() - i,
    {
        i = i + 1;
    }
    if i < names.len() && names[i] == name {
        assert(v.to_set().insert(name@) =~= v.to_set()) by {
            assert(v[i as int] == name@);
        }
        return;
    }
    let ghost x = name@;
    names.insert(i, name);
    proof {
        assert(names.deep_view() =~= v.insert(i as int, x));
        lemma_insert_sorted(v, i as int, x);
    }
}

/// The names of `names` in ascending order, each once.
pub fn ordered_names_of(names: &Vec<String>) -> (r: Vec<String>)
    ensures
        strictly_sorted(r.deep_view()),
        r.deep_view().to_set() == names.deep_view().to_set(),
        r.deep_view() == ordered_names(names.deep_view().to_set()),
{
    let mut r: Vec<String> = Vec::new();
    let ghost v = names.deep_view();
    let mut i: usize = 0;
    while i < names.len()
        invariant
            v == names.deep_view(),
            0 <= i <= v.len(),
            strictly_sorted(r.deep_view()),
            r.deep_view().to_set() == v.take(i as int).to_set(),
        decreases v.len() - i,
    {
        let ghost before = r.deep_view().to_set();
        insert_name(&mut r, names[i].clone());
        proof {
            assert(v.take(i + 1) =~= v.take(i as int).push(v[i as int]));
            lemma_push_to_set(v.take(i as int), v[i as int]);
        }
        i = i + 1;
    }
    proof {
        assert(v.take(v.len() as int) =~= v);
        lemma_ordered_names_of_sorted(r.deep_view());
    }
    r
}

proof fn lemma_push_to_set(q: Seq<Seq<char>>, x: Seq<char>)
    ensures
        q.push(x).to_set() == q.to_set().insert(x),
{
    assert forall|y: Seq<char>| q.push(x).to_set().contains(y) <==> q.to_set().insert(x).contains(
        y,
    ) by {
        if q.push(x).to_set().contains(y) {
            let a = choose|a: int| 0 <= a < q.push(x).len() && q.push(x)[a] == y;
            if a < q.len() {
                assert(q[a] == y);
            }
        }
        if q.to_set().contains(y) {
            let a = choose|a: int| 0 <= a < q.len() && q[a] == y;
            assert(q.push(x)[a] == y);
        }
        if y == x {
            assert(q.push(x)[q.len() as int] == y);
        }
    }
    assert(q.push(x).to_set() =~= q.to_set().insert(x));
}

} // verus!

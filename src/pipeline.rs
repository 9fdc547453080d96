//! The two ways of producing the registry's source: from the texts of the
//! scanned source files, or from a caller's list of names.

use vstd::prelude::*;
use crate::collector::{lemma_ordered_names, ordered_names, ordered_names_of};
use crate::emitter::{recorder_source, render_metrics_recorder};
use crate::name_order::strictly_sorted;
use crate::scanner::{metric_names_in_text, names_in_text, InvalidPattern};

verus! {

/// The names captured in each of `sources`, one text after another; `None`
/// where a recognition pattern does not compile.
pub open spec fn names_in_sources(sources: Seq<Seq<char>>) -> Option<Seq<Seq<char>>>
    decreases sources.len(),
{
    if sources.len() == 0 {
        Some(seq![])
    } else {
        match (names_in_sources(sources.drop_last()), names_in_text(sources.last())) {
            (Some(a), Some(b)) => Some(a + b),
            _ => None,
        }
    }
}

/// The registry's source for a collection of names, in any order and with
/// repeats: one field per distinct name, in ascending order.
pub open spec fn source_for_names(names: Seq<Seq<char>>) -> Seq<char> {
    recorder_source(ordered_names(names.to_set()))
}

/// The registry's source for the names found in `sources`.
pub open spec fn source_for_sources(sources: Seq<Seq<char>>) -> Option<Seq<char>> {
    match names_in_sources(sources) {
        Some(all) => Some(source_for_names(all)),
        None => None,
    }
}

proof fn lemma_sources_none_extends(s: Seq<Seq<char>>, k: int)
    requires
        0 <= k <= s.len(),
        names_in_sources(s.take(k)) is None,
    ensures
        names_in_sources(s) is None,
    decreases s.len() - k,
{
    if k < s.len() {
        assert(s.take(k + 1).drop_last() =~= s.take(k));
        lemma_sources_none_extends(s, k + 1);
    } else {
        assert(s.take(k) =~= s);
    }
}

/// Name `x` is among the names that the recognition patterns capture in
/// `text`.
pub open spec fn referenced_in(text: Seq<char>, x: Seq<char>) -> bool {
    match names_in_text(text) {
        Some(n) => n.contains(x),
        None => false,
    }
}

proof fn lemma_sources_some(s: Seq<Seq<char>>)
    ensures
        names_in_sources(s) is Some <==> forall|i: int|
            0 <= i < s.len() ==> #[trigger] names_in_text(s[i]) is Some,
    decreases s.len(),
{
    if s.len() > 0 {
        let p = s.drop_last();
        lemma_sources_some(p);
        if names_in_sources(s) is Some {
            assert forall|i: int| 0 <= i < s.len() implies #[trigger] names_in_text(s[i]) is Some by {
                if i < p.len() {
                    assert(s[i] == p[i]);
                }
            }
        }
        if forall|i: int| 0 <= i < s.len() ==> #[trigger] names_in_text(s[i]) is Some {
            assert forall|i: int| 0 <= i < p.len() implies #[trigger] names_in_text(p[i]) is Some by {
                assert(s[i] == p[i]);
            }
            assert(names_in_text(s[s.len() - 1]) is Some);
        }
    }
}

proof fn lemma_sources_contains(s: Seq<Seq<char>>, x: Seq<char>)
    requires
        names_in_sources(s) is Some,
    ensures
        names_in_sources(s)->Some_0.contains(x) <==> exists|i: int|
            0 <= i < s.len() && referenced_in(#[trigger] s[i], x),
    decreases s.len(),
{
    if s.len() == 0 {
        assert(!names_in_sources(s)->Some_0.contains(x));
    } else {
        let p = s.drop_last();
        let t = s.last();
        let a = names_in_sources(p)->Some_0;
        let b = names_in_text(t)->Some_0;
        let all = names_in_sources(s)->Some_0;
        lemma_sources_contains(p, x);
        assert(all == a + b);
        if all.contains(x) {
            let k = choose|k: int| 0 <= k < all.len() && all[k] == x;
            if k < a.len() {
                assert(a[k] == x);
                let i = choose|i: int| 0 <= i < p.len() && referenced_in(#[trigger] p[i], x);
                assert(s[i] == p[i]);
            } else {
                assert(b[k - a.len()] == x);
                assert(referenced_in(s[s.len() - 1], x));
            }
        }
        if exists|i: int| 0 <= i < s.len() && referenced_in(#[trigger] s[i], x) {
            let i = choose|i: int| 0 <= i < s.len() && referenced_in(#[trigger] s[i], x);
            if i < p.len() {
                assert(referenced_in(p[i], x));
                assert(a.contains(x));
                let k = choose|k: int| 0 <= k < a.len() && a[k] == x;
                assert(all[k] == x);
            } else {
                assert(b.contains(x));
                let k = choose|k: int| 0 <= k < b.len() && b[k] == x;
                assert(all[a.len() + k] == x);
            }
        }
    }
}

/// Scanning the same texts, listed in any order, gives the same registry
/// source.
pub proof fn lemma_enumeration_order_irrelevant(a: Seq<Seq<char>>, b: Seq<Seq<char>>)
    requires
        a.to_multiset() == b.to_multiset(),
    ensures
        source_for_sources(a) == source_for_sources(b),
{
    a.to_multiset_ensures();
    b.to_multiset_ensures();
    assert forall|t: Seq<char>| a.contains(t) <==> b.contains(t) by {
        assert(a.contains(t) <==> a.to_multiset().count(t) > 0);
        assert(b.contains(t) <==> b.to_multiset().count(t) > 0);
    }
    lemma_sources_some(a);
    lemma_sources_some(b);
    if names_in_sources(a) is Some {
        assert forall|i: int| 0 <= i < b.len() implies #[trigger] names_in_text(b[i]) is Some by {
            assert(b.contains(b[i]));
            let j = choose|j: int| 0 <= j < a.len() && a[j] == b[i];
            assert(names_in_text(a[j]) is Some);
        }
    }
    if names_in_sources(b) is Some {
        assert forall|i: int| 0 <= i < a.len() implies #[trigger] names_in_text(a[i]) is Some by {
            assert(a.contains(a[i]));
            let j = choose|j: int| 0 <= j < b.len() && b[j] == a[i];
            assert(names_in_text(b[j]) is Some);
        }
    }
    if names_in_sources(a) is Some {
        let na = names_in_sources(a)->Some_0;
        let nb = names_in_sources(b)->Some_0;
        assert forall|x: Seq<char>| na.to_set().contains(x) <==> nb.to_set().contains(x) by {
            lemma_sources_contains(a, x);
            lemma_sources_contains(b, x);
            if exists|i: int| 0 <= i < a.len() && referenced_in(#[trigger] a[i], x) {
                let i = choose|i: int| 0 <= i < a.len() && referenced_in(#[trigger] a[i], x);
                assert(a.contains(a[i]));
                let j = choose|j: int| 0 <= j < b.len() && b[j] == a[i];
                assert(referenced_in(b[j], x));
            }
            if exists|i: int| 0 <= i < b.len() && referenced_in(#[trigger] b[i], x) {
                let i = choose|i: int| 0 <= i < b.len() && referenced_in(#[trigger] b[i], x);
                assert(b.contains(b[i]));
                let j = choose|j: int| 0 <= j < a.len() && a[j] == b[i];
                assert(referenced_in(a[j], x));
            }
        }
        assert(na.to_set() =~= nb.to_set());
    }
}

/// A caller's names, in any order and with repeats, give the same registry
/// source as any other collection of the same names, and as their ordered
/// form without repeats.
pub proof fn lemma_names_order_and_repeats_irrelevant(names: Seq<Seq<char>>, other: Seq<Seq<char>>)
    requires
        names.to_set() == other.to_set(),
    ensures
        source_for_names(names) == source_for_names(other),
        source_for_names(names) == source_for_names(ordered_names(names.to_set())),
        source_for_names(names) == recorder_source(ordered_names(names.to_set())),
{
    lemma_ordered_names(names);
}

/// The fields of the registry built from `sources` are exactly the names that
/// the texts reference: none is invented and none dropped.
pub proof fn lemma_fields_are_referenced_names(sources: Seq<Seq<char>>, x: Seq<char>)
    requires
        names_in_sources(sources) is Some,
    ensures
        source_for_sources(sources) == Some(
            recorder_source(ordered_names(names_in_sources(sources)->Some_0.to_set())),
        ),
        ordered_names(names_in_sources(sources)->Some_0.to_set()).contains(x) <==> exists|i: int|
            0 <= i < sources.len() && referenced_in(#[trigger] sources[i], x),
{
    let all = names_in_sources(sources)->Some_0;
    lemma_ordered_names(all);
    lemma_sources_contains(sources, x);
    assert(ordered_names(all.to_set()).to_set().contains(x) <==> ordered_names(
        all.to_set(),
    ).contains(x));
}

/// Appends all of `names` to `out`.
fn push_all(out: &mut Vec<String>, names: &Vec<String>)
    ensures
        final(out).deep_view() == old(out).deep_view() + names.deep_view(),
{
    let ghost start = out.deep_view();
    let ghost v = names.deep_view();
    let mut i: usize = 0;
    while i < names.len()
        invariant
            v == names.deep_view(),
            0 <= i <= v.len(),
            out.deep_view() == start + v.take(i as int),
        decreases v.len() - i,
    {
        let ghost before = out.deep_view();
        let ghost before_v = out@;
        let s = names[i].clone();
        out.push(s);
        assert(out@ == before_v.push(s));
        assert(out.deep_view() =~= before.push(v[i as int]));
        assert(v.take(i + 1) =~= v.take(i as int).push(v[i as int]));
        assert(out.deep_view() =~= start + v.take(i + 1));
        i = i + 1;
    }
    assert(v.take(v.len() as int) =~= v);
}

/// The distinct counter names referenced in the texts `sources`, in
/// ascending order.
pub fn metric_names_in_sources(sources: &Vec<String>) -> (r: Result<Vec<String>, InvalidPattern>)
    ensures
        match r {
            Ok(v) => {
                &&& names_in_sources(sources.deep_view()) is Some
                &&& v.deep_view() == ordered_names(
                    names_in_sources(sources.deep_view())->Some_0.to_set(),
                )
                &&& strictly_sorted(v.deep_view())
                &&& v.deep_view().to_set() == names_in_sources(sources.deep_view())->Some_0.to_set()
            },
            Err(_) => names_in_sources(sources.deep_view()) is None,
        },
{
    let ghost s = sources.deep_view();
    let mut all: Vec<String> = Vec::new();
    let mut i: usize = 0;
    while i < sources.len()
        invariant
            s == sources.deep_view(),
            0 <= i <= s.len(),
            names_in_sources(s.take(i as int)) == Some(all.deep_view()),
        decreases s.len() - i,
    {
        assert(s.take(i + 1).drop_last() =~= s.take(i as int));
        assert(s.take(i + 1).last() == sources[i as int]@);
        match metric_names_in_text(sources[i].as_str()) {
            Ok(found) => {
                push_all(&mut all, &found);
            },
            Err(e) => {
                proof {
                    lemma_sources_none_extends(s, i + 1);
                }
                return Err(e);
            },
        }
        i = i + 1;
    }
    assert(s.take(s.len() as int) =~= s);
    Ok(ordered_names_of(&all))
}

/// The registry's source for a caller's names: one field per distinct name,
/// in ascending order, whatever the order and repeats of `names`.
pub fn recorder_source_for_names(names: &Vec<String>) -> (r: String)
    ensures
        r@ == source_for_names(names.deep_view()),
{
    let ordered = ordered_names_of(names);
    render_metrics_recorder(&ordered)
}

/// The registry's source for the names that the texts `sources` reference.
pub fn recorder_source_for_sources(sources: &Vec<String>) -> (r: Result<String, InvalidPattern>)
    ensures
        match r {
            Ok(a) => source_for_sources(sources.deep_view()) == Some(a@),
            Err(_) => source_for_sources(sources.deep_view()) is None,
        },
{
    match metric_names_in_sources(sources) {
        Ok(names) => Ok(render_metrics_recorder(&names)),
        Err(e) => Err(e),
    }
}

} // verus!

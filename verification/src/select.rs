//! Mapping a sequence through a partial function, keeping what it is
//! defined on.

use vstd::prelude::*;

verus! {

/// The values that `f` gives on the elements of `s`, in the order of `s`;
/// elements on which `f` is `None` leave nothing.
pub open spec fn filter_map<A, B>(s: Seq<A>, f: spec_fn(A) -> Option<B>) -> Seq<B>
    decreases s.len(),
{
    if s.len() == 0 {
        Seq::empty()
    } else {
        let earlier = filter_map(s.drop_last(), f);
        match f(s.last()) {
            Some(b) => earlier.push(b),
            None => earlier,
        }
    }
}

/// `sources[k]` is the index in `s` of the element that `kept[k]` comes from:
/// the indices rise, each gives its element of `kept` under `f`, and no
/// element on which `f` is defined is left out.
pub open spec fn is_selection<A, B>(
    sources: Seq<int>,
    s: Seq<A>,
    f: spec_fn(A) -> Option<B>,
    kept: Seq<B>,
) -> bool {
    &&& sources.len() == kept.len()
    &&& forall|k: int|
        0 <= k < sources.len() ==> 0 <= #[trigger] sources[k] < s.len() && f(s[sources[k]])
            == Some(kept[k])
    &&& forall|k: int, l: int|
        0 <= k < l < sources.len() ==> #[trigger] sources[k] < #[trigger] sources[l]
    &&& forall|i: int|
        0 <= i < s.len() && f(#[trigger] s[i]) is Some ==> exists|k: int|
            0 <= k < sources.len() && #[trigger] sources[k] == i
}

/// Appending one element appends its value, if it has one.
pub proof fn lemma_filter_map_push<A, B>(s: Seq<A>, a: A, f: spec_fn(A) -> Option<B>)
    ensures
        filter_map(s.push(a), f) == match f(a) {
            Some(b) => filter_map(s, f).push(b),
            None => filter_map(s, f),
        },
{
    assert(s.push(a).drop_last() =~= s);
}

/// `filter_map` of a concatenation is the concatenation of the two parts.
pub proof fn lemma_filter_map_concat<A, B>(s: Seq<A>, t: Seq<A>, f: spec_fn(A) -> Option<B>)
    ensures
        filter_map(s + t, f) == filter_map(s, f) + filter_map(t, f),
    decreases t.len(),
{
    if t.len() == 0 {
        assert(s + t =~= s);
        assert(filter_map(s, f) + filter_map(t, f) =~= filter_map(s, f));
    } else {
        lemma_filter_map_concat(s, t.drop_last(), f);
        assert((s + t).drop_last() =~= s + t.drop_last());
        assert((s + t).last() == t.last());
        match f(t.last()) {
            Some(b) => {
                assert((filter_map(s, f) + filter_map(t.drop_last(), f)).push(b) =~= filter_map(
                    s,
                    f,
                ) + filter_map(t.drop_last(), f).push(b));
            },
            None => {},
        }
    }
}

/// `filter_map` keeps exactly the elements on which `f` is defined, in their
/// order: the result names, for each element kept, where it comes from.
pub proof fn lemma_filter_map_selects<A, B>(s: Seq<A>, f: spec_fn(A) -> Option<B>) -> (sources:
    Seq<int>)
    ensures
        is_selection(sources, s, f, filter_map(s, f)),
    decreases s.len(),
{
    if s.len() == 0 {
        Seq::empty()
    } else {
        let earlier = lemma_filter_map_selects(s.drop_last(), f);
        let last = s.len() - 1;
        let sources = match f(s.last()) {
            Some(b) => earlier.push(last),
            None => earlier,
        };
        let kept = filter_map(s, f);
        assert forall|k: int| 0 <= k < sources.len() implies 0 <= #[trigger] sources[k] < s.len()
            && f(s[sources[k]]) == Some(kept[k]) by {
            if k < earlier.len() {
                assert(s.drop_last()[earlier[k]] == s[earlier[k]]);
            }
        }
        assert forall|i: int| 0 <= i < s.len() && f(#[trigger] s[i]) is Some implies exists|k: int|
            0 <= k < sources.len() && #[trigger] sources[k] == i by {
            if i < last {
                assert(s.drop_last()[i] == s[i]);
                let k = choose|k: int| 0 <= k < earlier.len() && #[trigger] earlier[k] == i;
                assert(sources[k] == i);
            } else {
                assert(sources[sources.len() - 1] == i);
            }
        }
        sources
    }
}

} // verus!

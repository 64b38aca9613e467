//! The order of strings, and lists of strings put in order.
use itertools::Itertools;
use vstd::prelude::*;

verus! {

/// The order of strings: by the first character in which two strings
/// differ, a proper prefix coming first.
pub open spec fn text_lt(a: Seq<char>, b: Seq<char>) -> bool
    decreases a.len(),
{
    if b.len() == 0 {
        false
    } else if a.len() == 0 {
        true
    } else if a[0] != b[0] {
        a[0] < b[0]
    } else {
        text_lt(a.drop_first(), b.drop_first())
    }
}

/// Whether each string comes before all those that follow it.
pub open spec fn increasing(names: Seq<Seq<char>>) -> bool {
    forall|i: int, j: int| 0 <= i < j < names.len() ==> text_lt(names[i], names[j])
}

/// Whether each string comes before those that follow it, or is equal to
/// them.
pub open spec fn non_decreasing(names: Seq<Seq<char>>) -> bool {
    forall|i: int, j: int|
        0 <= i < j < names.len() ==> names[i] == names[j] || text_lt(names[i], names[j])
}

/// The strings of a list without those that occur earlier in it.
pub open spec fn first_occurrences(names: Seq<Seq<char>>) -> Seq<Seq<char>>
    decreases names.len(),
{
    if names.len() == 0 {
        Seq::empty()
    } else if first_occurrences(names.drop_last()).contains(names.last()) {
        first_occurrences(names.drop_last())
    } else {
        first_occurrences(names.drop_last()).push(names.last())
    }
}

/// `Itertools::sorted`, on strings: the strings of a list in the ascending
/// order of `str`, which goes by the first character in which two strings
/// differ. Every string comes as often as the list holds it.
#[verifier::external_body]
fn sorted(names: Vec<String>) -> (r: Vec<String>)
    ensures
        non_decreasing(r.deep_view()),
        r.deep_view().to_multiset() == names.deep_view().to_multiset(),
{
    names.into_iter().sorted().collect()
}

/// `Itertools::unique`, on strings: the strings of a list in order, without
/// those that occur earlier in it.
#[verifier::external_body]
pub(crate) fn unique(names: Vec<String>) -> (r: Vec<String>)
    ensures
        r.deep_view() == first_occurrences(names.deep_view()),
{
    names.into_iter().unique().collect()
}

/// The first occurrences of a list hold the strings of the list, and no
/// others.
pub proof fn lemma_first_occurrences_contains(names: Seq<Seq<char>>, name: Seq<char>)
    ensures
        first_occurrences(names).contains(name) <==> names.contains(name),
    decreases names.len(),
{
    if names.len() > 0 {
        let head = names.drop_last();
        lemma_first_occurrences_contains(head, name);
        let f = first_occurrences(head);
        if names.contains(name) {
            let k = choose|k: int| 0 <= k < names.len() && names[k] == name;
            if k < names.len() - 1 {
                assert(head[k] == name);
            }
        }
        if head.contains(name) {
            let k = choose|k: int| 0 <= k < head.len() && head[k] == name;
            assert(names[k] == name);
        }
        if !f.contains(names.last()) {
            let g = f.push(names.last());
            assert(g[f.len() as int] == names.last());
            if f.contains(name) {
                let k = choose|k: int| 0 <= k < f.len() && f[k] == name;
                assert(g[k] == name);
            }
            if g.contains(name) {
                let k = choose|k: int| 0 <= k < g.len() && g[k] == name;
                if k < f.len() {
                    assert(f[k] == name);
                }
            }
        }
        assert(names[names.len() - 1] == names.last());
    }
}

/// The first occurrences of a list in ascending order are in increasing
/// order.
pub proof fn lemma_first_occurrences_increasing(names: Seq<Seq<char>>)
    requires
        non_decreasing(names),
    ensures
        increasing(first_occurrences(names)),
    decreases names.len(),
{
    if names.len() > 0 {
        let head = names.drop_last();
        let last = names.last();
        assert(non_decreasing(head)) by {
            assert forall|i: int, j: int| 0 <= i < j < head.len() implies head[i] == head[j]
                || text_lt(head[i], head[j]) by {
                assert(head[i] == names[i] && head[j] == names[j]);
            }
        }
        lemma_first_occurrences_increasing(head);
        let f = first_occurrences(head);
        if !f.contains(last) {
            let g = f.push(last);
            assert forall|i: int, j: int| 0 <= i < j < g.len() implies text_lt(g[i], g[j]) by {
                if j == f.len() {
                    lemma_first_occurrences_contains(head, f[i]);
                    assert(f.contains(f[i]));
                    let k = choose|k: int| 0 <= k < head.len() && head[k] == f[i];
                    assert(names[k] == f[i]);
                    assert(names[names.len() - 1] == last);
                    assert(names[k] == names[names.len() - 1] || text_lt(
                        names[k],
                        names[names.len() - 1],
                    ));
                }
            }
        }
    }
}

/// The strings of a list in increasing order, each one once.
pub fn sorted_unique(names: Vec<String>) -> (r: Vec<String>)
    ensures
        increasing(r.deep_view()),
        forall|name: Seq<char>| r.deep_view().contains(name) <==> names.deep_view().contains(name),
{
    let ordered = sorted(names);
    let r = unique(ordered);
    proof {
        lemma_first_occurrences_increasing(ordered.deep_view());
        assert forall|name: Seq<char>| r.deep_view().contains(name) <==> names.deep_view().contains(
            name,
        ) by {
            lemma_first_occurrences_contains(ordered.deep_view(), name);
            vstd::seq_lib::to_multiset_contains(ordered.deep_view(), name);
            vstd::seq_lib::to_multiset_contains(names.deep_view(), name);
        }
    }
    r
}

} // verus!

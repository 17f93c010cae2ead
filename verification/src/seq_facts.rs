//! Small facts about sequences that the proofs of this crate share.

use vstd::prelude::*;

verus! {

/// Filtering keeps a sequence free of duplicates.
pub proof fn lemma_filter_no_duplicates<A>(entries: Seq<A>, pred: spec_fn(A) -> bool)
    requires
        entries.no_duplicates(),
    ensures
        entries.filter(pred).no_duplicates(),
    decreases entries.len(),
{
    reveal(Seq::filter);
    if entries.len() > 0 {
        let rest = entries.drop_last();
        lemma_filter_no_duplicates(rest, pred);
        if pred(entries.last()) {
            if rest.filter(pred).contains(entries.last()) {
                rest.lemma_filter_contains_rev(pred, entries.last());
                let k = choose|k: int| 0 <= k < rest.len() && rest[k] == entries.last();
                assert(entries[k] == entries[entries.len() - 1]);
            }
            assert forall|i: int, j: int|
                0 <= i < j < rest.filter(pred).push(entries.last()).len() implies rest.filter(
                pred,
            ).push(entries.last())[i] != rest.filter(pred).push(entries.last())[j] by {
                if j == rest.filter(pred).len() {
                    assert(rest.filter(pred).contains(rest.filter(pred)[i]));
                }
            }
        }
    }
}

/// An element is kept by a filter exactly if it was there and the filter picks it.
pub proof fn lemma_filter_membership<A>(entries: Seq<A>, pred: spec_fn(A) -> bool, elem: A)
    ensures
        entries.filter(pred).contains(elem) <==> entries.contains(elem) && pred(elem),
{
    if entries.filter(pred).contains(elem) {
        entries.lemma_filter_contains_rev(pred, elem);
        let k = choose|k: int| 0 <= k < entries.filter(pred).len() && entries.filter(pred)[k] == elem;
        entries.lemma_filter_pred(pred, k);
    }
    if entries.contains(elem) && pred(elem) {
        let k = choose|k: int| 0 <= k < entries.len() && entries[k] == elem;
        entries.lemma_filter_contains(pred, k);
    }
}

/// After a push, the sequence holds what it held and the new element.
pub proof fn lemma_push_membership<A>(entries: Seq<A>, pushed: A, elem: A)
    ensures
        entries.push(pushed).contains(elem) <==> entries.contains(elem) || elem == pushed,
{
    let after = entries.push(pushed);
    if after.contains(elem) {
        let k = choose|k: int| 0 <= k < after.len() && after[k] == elem;
        if k < entries.len() {
            assert(entries[k] == elem);
        }
    }
    if entries.contains(elem) {
        let k = choose|k: int| 0 <= k < entries.len() && entries[k] == elem;
        assert(after[k] == elem);
    }
    if elem == pushed {
        assert(after[entries.len() as int] == elem);
    }
}

/// Pushing an element that is not there keeps a sequence free of duplicates.
pub proof fn lemma_push_no_duplicates<A>(entries: Seq<A>, pushed: A)
    requires
        entries.no_duplicates(),
        !entries.contains(pushed),
    ensures
        entries.push(pushed).no_duplicates(),
{
    let after = entries.push(pushed);
    assert forall|i: int, j: int| 0 <= i < after.len() && 0 <= j < after.len() && i != j implies after[i]
        != after[j] by {
        if i < entries.len() {
            assert(entries.contains(entries[i]));
        }
        if j < entries.len() {
            assert(entries.contains(entries[j]));
        }
    }
}

/// Every element of a filtered sequence is an element of the sequence.
pub proof fn lemma_filter_elements<A>(entries: Seq<A>, pred: spec_fn(A) -> bool)
    ensures
        forall|i: int|
            0 <= i < entries.filter(pred).len() ==> entries.contains(#[trigger] entries.filter(pred)[i])
                && pred(entries.filter(pred)[i]),
{
    let kept = entries.filter(pred);
    assert forall|i: int| 0 <= i < kept.len() implies entries.contains(#[trigger] kept[i]) && pred(
        kept[i],
    ) by {
        assert(kept.contains(kept[i]));
        lemma_filter_membership(entries, pred, kept[i]);
    }
}

/// Where no two elements share a key, none do after filtering.
pub proof fn lemma_filter_distinct_keys<A, K>(
    entries: Seq<A>,
    pred: spec_fn(A) -> bool,
    key: spec_fn(A) -> K,
)
    requires
        forall|i: int, j: int|
            0 <= i < entries.len() && 0 <= j < entries.len() && i != j ==> key(entries[i]) != key(
                entries[j],
            ),
    ensures
        forall|i: int, j: int|
            0 <= i < entries.filter(pred).len() && 0 <= j < entries.filter(pred).len() && i != j
                ==> key(entries.filter(pred)[i]) != key(entries.filter(pred)[j]),
    decreases entries.len(),
{
    reveal(Seq::filter);
    if entries.len() > 0 {
        let rest = entries.drop_last();
        assert forall|i: int, j: int|
            0 <= i < rest.len() && 0 <= j < rest.len() && i != j implies key(rest[i]) != key(
            rest[j],
        ) by {
            assert(key(entries[i]) != key(entries[j]));
        }
        lemma_filter_distinct_keys(rest, pred, key);
        let kept = rest.filter(pred);
        if pred(entries.last()) {
            let all = kept.push(entries.last());
            assert forall|i: int, j: int|
                0 <= i < all.len() && 0 <= j < all.len() && i != j implies key(all[i]) != key(
                all[j],
            ) by {
                if i < kept.len() && j < kept.len() {
                    assert(key(kept[i]) != key(kept[j]));
                } else {
                    let inner = if i < kept.len() { i } else { j };
                    assert(kept.contains(kept[inner]));
                    rest.lemma_filter_contains_rev(pred, kept[inner]);
                    let k = choose|k: int| 0 <= k < rest.len() && rest[k] == kept[inner];
                    assert(key(entries[k]) != key(entries[entries.len() - 1]));
                }
            }
        }
    }
}

} // verus!

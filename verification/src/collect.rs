//! Sorting and grouping, done by std and by the `itertools` crate.

use std::collections::HashMap;

use vstd::prelude::*;

use crate::analyzer::{DeDupTransaction, DuplicateInfo, FileInfo};

verus! {

/// Position `i` stands somewhere in `order`.
pub open spec fn listed(order: Seq<int>, i: int) -> bool {
    exists|k: int| 0 <= k < order.len() && #[trigger] order[k] == i
}

/// `order` lists every position below `n` exactly once.
pub open spec fn is_permutation(order: Seq<int>, n: nat) -> bool {
    &&& order.len() == n
    &&& forall|k: int| 0 <= k < n ==> 0 <= #[trigger] order[k] < n
    &&& forall|j: int, k: int|
        #![trigger order[j], order[k]]
        0 <= j < k < n ==> order[j] != order[k]
    &&& forall|i: int| 0 <= i < n ==> #[trigger] listed(order, i)
}

/// `order` arranges the positions of `keys` by ascending key, and positions
/// with equal keys by ascending position: the one stable sort of `keys`.
pub open spec fn is_stable_sort(keys: Seq<int>, order: Seq<int>) -> bool {
    &&& is_permutation(order, keys.len())
    &&& forall|j: int, k: int|
        #![trigger order[j], order[k]]
        0 <= j < k < order.len() ==> keys[order[j]] < keys[order[k]] || (keys[order[j]]
            == keys[order[k]] && order[j] < order[k])
}

/// The items in the arrangement that `order` gives.
pub open spec fn rearranged<T>(items: Seq<T>, order: Seq<int>) -> Seq<T> {
    Seq::new(order.len(), |k: int| items[order[k]])
}

/// `after` holds the items of `before`, stably sorted by their keys.
pub open spec fn stably_sorted<T>(keys: Seq<int>, before: Seq<T>, after: Seq<T>) -> bool {
    exists|order: Seq<int>| is_stable_sort(keys, order) && after == rearranged(before, order)
}

/// The sort key of each file: its layer index.
pub open spec fn layer_keys(files: Seq<FileInfo>) -> Seq<int> {
    Seq::new(files.len(), |i: int| 0 + files[i].layer_index)
}

/// The sort key of each group: its savings, negated, so that the largest
/// savings come first.
pub open spec fn savings_keys(groups: Seq<DuplicateInfo>) -> Seq<int> {
    Seq::new(groups.len(), |i: int| 0 - groups[i].total_savings)
}

/// The values that are paired with `key`, in the order of the pairs.
pub open spec fn values_at<T>(pairs: Seq<(usize, T)>, key: usize) -> Seq<T>
    decreases pairs.len(),
{
    if pairs.len() == 0 {
        Seq::empty()
    } else if pairs.last().0 == key {
        values_at(pairs.drop_last(), key).push(pairs.last().1)
    } else {
        values_at(pairs.drop_last(), key)
    }
}

/// `slice::sort_by_key` of std with the layer index as the key: the files
/// come out by ascending layer index, and the sort is stable.
#[verifier::external_body]
pub(crate) fn sort_by_layer(files: &mut Vec<FileInfo>)
    ensures
        stably_sorted(layer_keys(old(files)@), old(files)@, final(files)@),
{
    files.sort_by_key(|f| f.layer_index)
}

/// `Itertools::sorted_by_key` with the reversed savings as the key: the groups
/// come out by descending savings, and the sort is stable.
#[verifier::external_body]
pub(crate) fn sorted_by_savings(groups: Vec<DuplicateInfo>) -> (sorted: Vec<DuplicateInfo>)
    ensures
        stably_sorted(savings_keys(groups@), groups@, sorted@),
{
    itertools::Itertools::sorted_by_key(
        groups.into_iter(),
        |d| std::cmp::Reverse(d.total_savings),
    ).collect()
}

/// `Itertools::into_group_map`: a map from each key that occurs to the values
/// paired with it, in the order of the pairs.
#[verifier::external_body]
pub(crate) fn group_by_layer(pairs: Vec<(usize, DeDupTransaction)>) -> (plan: HashMap<
    usize,
    Vec<DeDupTransaction>,
>)
    ensures
        forall|layer: usize| #[trigger]
            plan@.contains_key(layer) <==> values_at(pairs@, layer).len() > 0,
        forall|layer: usize| #[trigger]
            plan@.contains_key(layer) ==> plan@[layer]@ == values_at(pairs@, layer),
{
    itertools::Itertools::into_group_map(pairs.into_iter())
}

} // verus!

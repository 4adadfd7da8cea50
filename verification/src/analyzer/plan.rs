//! The plan: one link for each duplicate, sorted out by the layer that holds
//! the duplicate.

use std::collections::HashMap;

use vstd::prelude::*;

use crate::analyzer::{
    Analyzer, DeDupTransaction, DuplicateInfo, DuplicateInfoView, FileInfoView, LinkType,
    TransactionView, group_views, transaction_views,
};
use crate::collect::{group_by_layer, values_at};
use crate::error::DedupError;

verus! {

/// The transaction that replaces `duplicate` by a link to `original`: a hard
/// link within one layer, a symbolic link from one layer to another.
pub open spec fn link_for(original: FileInfoView, duplicate: FileInfoView) -> TransactionView {
    TransactionView {
        layer: duplicate.layer_index,
        original_path: original.path,
        target_path: duplicate.path,
        link_type: if original.layer_index == duplicate.layer_index {
            LinkType::Hard
        } else {
            LinkType::Sym
        },
    }
}

/// The transactions of one group: one for each duplicate, in their order.
pub open spec fn group_links(group: DuplicateInfoView) -> Seq<TransactionView> {
    Seq::new(group.duplicates.len(), |k: int| link_for(group.original, group.duplicates[k]))
}

/// The transactions of all groups, group after group.
pub open spec fn all_links(groups: Seq<DuplicateInfoView>) -> Seq<TransactionView>
    decreases groups.len(),
{
    if groups.len() == 0 {
        Seq::empty()
    } else {
        all_links(groups.drop_last()) + group_links(groups.last())
    }
}

/// The transactions that fall to one layer, in their order.
pub open spec fn links_in_layer(links: Seq<TransactionView>, layer: usize) -> Seq<TransactionView>
    decreases links.len(),
{
    if links.len() == 0 {
        Seq::empty()
    } else if links.last().layer == layer {
        links_in_layer(links.drop_last(), layer).push(links.last())
    } else {
        links_in_layer(links.drop_last(), layer)
    }
}

/// The plan for the given groups: every layer that holds a duplicate, with
/// the transactions that fall to it.
pub open spec fn plan_of(groups: Seq<DuplicateInfoView>) -> Map<usize, Seq<TransactionView>> {
    Map::new(
        |layer: usize| links_in_layer(all_links(groups), layer).len() > 0,
        |layer: usize| links_in_layer(all_links(groups), layer),
    )
}

/// What a plan holds.
pub open spec fn plan_view(plan: Map<usize, Vec<DeDupTransaction>>) -> Map<
    usize,
    Seq<TransactionView>,
> {
    Map::new(|layer: usize| plan.contains_key(layer), |layer: usize| transaction_views(plan[layer]@))
}

/// The transactions of a sequence of pairs.
pub open spec fn pair_links(pairs: Seq<(usize, DeDupTransaction)>) -> Seq<TransactionView> {
    pairs.map_values(|p: (usize, DeDupTransaction)| p.1@)
}

/// Picking the values of one key picks the transactions of one layer.
proof fn lemma_values_at_layer(pairs: Seq<(usize, DeDupTransaction)>, layer: usize)
    requires
        forall|i: int| 0 <= i < pairs.len() ==> (#[trigger] pairs[i]).0 == pairs[i].1.layer,
    ensures
        transaction_views(values_at(pairs, layer)) == links_in_layer(pair_links(pairs), layer),
    decreases pairs.len(),
{
    if pairs.len() > 0 {
        lemma_values_at_layer(pairs.drop_last(), layer);
        assert(pair_links(pairs).drop_last() == pair_links(pairs.drop_last()));
        assert(pair_links(pairs).last() == pairs.last().1@);
        if pairs.last().0 == layer {
            assert(transaction_views(values_at(pairs, layer)) == transaction_views(
                values_at(pairs.drop_last(), layer),
            ).push(pairs.last().1@));
        }
    } else {
        assert(transaction_views(values_at(pairs, layer)) == Seq::<TransactionView>::empty());
    }
}

/// The duplicates of all groups, group after group.
pub open spec fn all_duplicates(groups: Seq<DuplicateInfoView>) -> Seq<FileInfoView>
    decreases groups.len(),
{
    if groups.len() == 0 {
        Seq::empty()
    } else {
        all_duplicates(groups.drop_last()) + groups.last().duplicates
    }
}

/// The plan has one link for each duplicate, in the same order: the link
/// falls to the layer of the duplicate and replaces the file at its path.
pub proof fn lemma_one_link_per_duplicate(groups: Seq<DuplicateInfoView>)
    ensures
        all_links(groups).len() == all_duplicates(groups).len(),
        forall|i: int|
            0 <= i < all_links(groups).len() ==> (#[trigger] all_links(groups)[i]).layer
                == all_duplicates(groups)[i].layer_index && all_links(groups)[i].target_path
                == all_duplicates(groups)[i].path,
    decreases groups.len(),
{
    if groups.len() > 0 {
        lemma_one_link_per_duplicate(groups.drop_last());
    }
}

/// Every link of the plan replaces a duplicate of some group by a link to
/// the copy that stays in that group. The group and the duplicate are handed
/// back.
pub proof fn lemma_link_source(groups: Seq<DuplicateInfoView>, i: int) -> (at: (int, int))
    requires
        0 <= i < all_links(groups).len(),
    ensures
        0 <= at.0 < groups.len(),
        0 <= at.1 < groups[at.0].duplicates.len(),
        all_links(groups)[i] == link_for(groups[at.0].original, groups[at.0].duplicates[at.1]),
    decreases groups.len(),
{
    let rest = groups.drop_last();
    if i < all_links(rest).len() {
        let at = lemma_link_source(rest, i);
        assert(rest[at.0] == groups[at.0]);
        at
    } else {
        (groups.len() - 1, i - all_links(rest).len())
    }
}

/// Where the files of a scan are told apart by layer and path, no link of
/// the plan replaces a copy that stays.
pub proof fn lemma_plan_spares_originals(
    files: Seq<FileInfoView>,
    groups: Seq<DuplicateInfoView>,
    i: int,
    g: int,
)
    requires
        crate::analyzer::group::is_grouping(files, groups),
        crate::analyzer::group::distinct_files(files),
        0 <= i < all_links(groups).len(),
        0 <= g < groups.len(),
    ensures
        all_links(groups)[i].layer != groups[g].original.layer_index || all_links(
            groups,
        )[i].target_path != groups[g].original.path,
{
    let at = lemma_link_source(groups, i);
    crate::analyzer::group::lemma_original_is_no_duplicate(files, groups, g, at.0, at.1);
}

/// The list of a layer holds the links that fall to the layer, and no others,
/// in the order of the plan.
pub proof fn lemma_layer_list(links: Seq<TransactionView>, layer: usize)
    ensures
        links_in_layer(links, layer) == links.filter(|t: TransactionView| t.layer == layer),
    decreases links.len(),
{
    reveal(Seq::filter);
    if links.len() > 0 {
        lemma_layer_list(links.drop_last(), layer);
    }
}

/// The transaction that replaces `duplicate` by a link to `original`.
pub fn make_link(original: &crate::analyzer::FileInfo, duplicate: &crate::analyzer::FileInfo) -> (link:
    DeDupTransaction)
    ensures
        link@ == link_for(original@, duplicate@),
{
    DeDupTransaction {
        layer: duplicate.layer_index,
        original_path: original.path.clone(),
        target_path: duplicate.path.clone(),
        link_type: if original.layer_index == duplicate.layer_index {
            LinkType::Hard
        } else {
            LinkType::Sym
        },
    }
}

impl Analyzer {
    /// Plans one link for each duplicate of each group and sorts the links
    /// out by layer. This never fails.
    pub fn generate_modification_plan(&self, duplicates: Vec<DuplicateInfo>) -> (r: Result<
        HashMap<usize, Vec<DeDupTransaction>>,
        DedupError,
    >)
        ensures
            r is Ok,
            plan_view(r->Ok_0@) == plan_of(group_views(duplicates@)),
    {
        let ghost groups = group_views(duplicates@);
        let mut pairs: Vec<(usize, DeDupTransaction)> = Vec::new();
        let mut g: usize = 0;
        while g < duplicates.len()
            invariant
                g <= duplicates@.len(),
                groups == group_views(duplicates@),
                pair_links(pairs@) == all_links(groups.take(g as int)),
                forall|i: int| 0 <= i < pairs@.len() ==> (#[trigger] pairs@[i]).0 == pairs@[i].1.layer,
            decreases duplicates@.len() - g,
        {
            let group = &duplicates[g];
            let ghost before = pairs@;
            let mut d: usize = 0;
            while d < group.duplicates.len()
                invariant
                    d <= group.duplicates@.len(),
                    g < groups.len(),
                    group@ == groups[g as int],
                    pair_links(pairs@) == pair_links(before) + group_links(group@).take(d as int),
                    forall|i: int|
                        0 <= i < pairs@.len() ==> (#[trigger] pairs@[i]).0 == pairs@[i].1.layer,
                decreases group.duplicates@.len() - d,
            {
                let duplicate = &group.duplicates[d];
                let link = make_link(&group.original, duplicate);
                let ghost earlier = pairs@;
                pairs.push((duplicate.layer_index, link));
                proof {
                    assert(group@.duplicates[d as int] == duplicate@);
                    assert(pair_links(pairs@) == pair_links(earlier).push(link@));
                    assert(group_links(group@).take(d + 1) == group_links(group@).take(
                        d as int,
                    ).push(link@));
                }
                d += 1;
            }
            proof {
                assert(group_links(group@).take(group.duplicates@.len() as int) == group_links(
                    group@,
                ));
                assert(groups.take(g + 1).drop_last() == groups.take(g as int));
                assert(groups.take(g + 1).last() == group@);
            }
            g += 1;
        }
        proof {
            assert(groups.take(duplicates@.len() as int) == groups);
        }
        let plan = group_by_layer(pairs);
        proof {
            let ours = plan_view(plan@);
            let theirs = plan_of(groups);
            assert forall|layer: usize| #[trigger]
                ours.dom().contains(layer) == theirs.dom().contains(layer) by {
                lemma_values_at_layer(pairs@, layer);
                assert(plan@.contains_key(layer) <==> values_at(pairs@, layer).len() > 0);
                assert(transaction_views(values_at(pairs@, layer)).len() == values_at(
                    pairs@,
                    layer,
                ).len());
            }
            assert forall|layer: usize| #[trigger] ours.dom().contains(layer) implies ours[layer]
                == theirs[layer] by {
                lemma_values_at_layer(pairs@, layer);
                assert(plan@.contains_key(layer));
                assert(plan@[layer]@ == values_at(pairs@, layer));
            }
            assert(ours =~= theirs);
        }
        Ok(plan)
    }
}

} // verus!

//! Grouping: the files that share a fingerprint form a group, the copy in the
//! lowest layer is the one that stays, and the groups are ranked by what they
//! save.

use vstd::prelude::*;

use crate::analyzer::scan::scanned_layers;
use crate::analyzer::{
    Analyzer, DuplicateInfo, DuplicateInfoView, FileInfo, FileInfoView, file_views, group_views,
    layer_views,
};
use crate::collect::{
    is_stable_sort, layer_keys, listed, rearranged, savings_keys, sort_by_layer, sorted_by_savings,
    stably_sorted,
};
use crate::error::DedupError;

verus! {

/// In the order of a group the file at `a` comes before the file at `b`: it
/// lies in a lower layer, or in the same layer and earlier in the scan.
pub open spec fn comes_before(files: Seq<FileInfoView>, a: int, b: int) -> bool {
    files[a].layer_index < files[b].layer_index || (files[a].layer_index == files[b].layer_index
        && a < b)
}

/// `members` lists the positions of the files with fingerprint `hash`: all of
/// them, each once, in the order of a group.
pub open spec fn is_arrangement(files: Seq<FileInfoView>, hash: Seq<char>, members: Seq<int>) -> bool {
    &&& forall|k: int|
        0 <= k < members.len() ==> 0 <= #[trigger] members[k] < files.len()
            && files[members[k]].hash == hash
    &&& forall|i: int| 0 <= i < files.len() && (#[trigger] files[i]).hash == hash ==> listed(members, i)
    &&& forall|j: int, k: int|
        #![trigger members[j], members[k]]
        0 <= j < k < members.len() ==> comes_before(files, members[j], members[k])
}

/// `group` is made of the files at `members`: the first is the copy that
/// stays, the others are its duplicates, and the savings are the size of the
/// first for each duplicate.
pub open spec fn is_group_with(files: Seq<FileInfoView>, group: DuplicateInfoView, members: Seq<int>) -> bool {
    &&& is_arrangement(files, group.original.hash, members)
    &&& members.len() == group.duplicates.len() + 1
    &&& group.duplicates.len() >= 1
    &&& group.original == files[members[0]]
    &&& forall|k: int|
        0 <= k < group.duplicates.len() ==> #[trigger] group.duplicates[k] == files[members[k + 1]]
    &&& group.total_savings == group.original.size * group.duplicates.len()
}

/// `group` holds all files of `files` with one fingerprint, at least two, in
/// the order of a group.
pub open spec fn is_group(files: Seq<FileInfoView>, group: DuplicateInfoView) -> bool {
    exists|members: Seq<int>| is_group_with(files, group, members)
}

/// Some group is made of the files with fingerprint `hash`.
pub open spec fn has_group(groups: Seq<DuplicateInfoView>, hash: Seq<char>) -> bool {
    exists|g: int| 0 <= g < groups.len() && (#[trigger] groups[g]).original.hash == hash
}

/// In the scan, fingerprint `first` is seen before fingerprint `second` is.
pub open spec fn first_seen_before(files: Seq<FileInfoView>, first: Seq<char>, second: Seq<char>) -> bool {
    exists|i: int|
        0 <= i < files.len() && (#[trigger] files[i]).hash == first && forall|j: int|
            0 <= j <= i ==> (#[trigger] files[j]).hash != second
}

/// Group `a` is listed before group `b`: it saves more, or it saves as much
/// and its fingerprint is seen earlier in the scan.
pub open spec fn ranks_before(files: Seq<FileInfoView>, a: DuplicateInfoView, b: DuplicateInfoView) -> bool {
    a.total_savings > b.total_savings || (a.total_savings == b.total_savings && first_seen_before(
        files,
        a.original.hash,
        b.original.hash,
    ))
}

/// `groups` is the grouping of `files`: one group for each fingerprint that
/// two or more files share, and the groups in the order of their rank.
pub open spec fn is_grouping(files: Seq<FileInfoView>, groups: Seq<DuplicateInfoView>) -> bool {
    &&& forall|g: int| 0 <= g < groups.len() ==> is_group(files, #[trigger] groups[g])
    &&& forall|g: int, h: int|
        #![trigger groups[g], groups[h]]
        0 <= g < h < groups.len() ==> groups[g].original.hash != groups[h].original.hash
    &&& forall|i: int, j: int|
        #![trigger files[i], files[j]]
        0 <= i < j < files.len() && files[i].hash == files[j].hash ==> has_group(
            groups,
            files[i].hash,
        )
    &&& forall|g: int, h: int|
        #![trigger groups[g], groups[h]]
        0 <= g < h < groups.len() ==> ranks_before(files, groups[g], groups[h])
}

/// The savings of some group of `files` do not fit in 64 bits.
pub open spec fn savings_overflow(files: Seq<FileInfoView>) -> bool {
    exists|hash: Seq<char>, members: Seq<int>|
        #![trigger is_arrangement(files, hash, members)]
        is_arrangement(files, hash, members) && members.len() >= 2 && files[members[0]].size * (
        members.len() - 1) > u64::MAX
}

/// `positions` lists the positions of the files with fingerprint `hash`: all
/// of them, in ascending order.
pub open spec fn lists_class(files: Seq<FileInfoView>, hash: Seq<char>, positions: Seq<int>) -> bool {
    &&& forall|k: int|
        0 <= k < positions.len() ==> 0 <= #[trigger] positions[k] < files.len()
            && files[positions[k]].hash == hash
    &&& forall|i: int|
        0 <= i < files.len() && (#[trigger] files[i]).hash == hash ==> listed(positions, i)
    &&& forall|j: int, k: int|
        #![trigger positions[j], positions[k]]
        0 <= j < k < positions.len() ==> positions[j] < positions[k]
}

/// The positions of a class, taken in the order of a stable sort by layer,
/// are in the order of a group.
proof fn lemma_arrange(
    files: Seq<FileInfoView>,
    hash: Seq<char>,
    positions: Seq<int>,
    keys: Seq<int>,
    order: Seq<int>,
)
    requires
        lists_class(files, hash, positions),
        keys.len() == positions.len(),
        forall|k: int|
            0 <= k < keys.len() ==> #[trigger] keys[k] == files[positions[k]].layer_index,
        is_stable_sort(keys, order),
    ensures
        is_arrangement(files, hash, rearranged(positions, order)),
{
    let members = rearranged(positions, order);
    assert forall|i: int| 0 <= i < files.len() && (#[trigger] files[i]).hash == hash implies listed(
        members,
        i,
    ) by {
        assert(listed(positions, i));
        let p = choose|p: int| 0 <= p < positions.len() && positions[p] == i;
        assert(listed(order, p));
        let k = choose|k: int| 0 <= k < order.len() && order[k] == p;
        assert(members[k] == i);
    }
    assert forall|j: int, k: int|
        #![trigger members[j], members[k]]
        0 <= j < k < members.len() implies comes_before(files, members[j], members[k]) by {
        let a = order[j];
        let b = order[k];
        assert(keys[a] == files[positions[a]].layer_index);
        assert(keys[b] == files[positions[b]].layer_index);
        if keys[a] == keys[b] {
            assert(a < b);
            assert(positions[a] < positions[b]);
        }
    }
}

/// A copy of a file's record.
fn copy_file(file: &FileInfo) -> (copy: FileInfo)
    ensures
        copy == *file,
{
    FileInfo {
        path: file.path.clone(),
        size: file.size,
        hash: file.hash.clone(),
        layer_index: file.layer_index,
    }
}

/// Whether the fingerprint of the file at `i` occurs earlier in the scan.
fn seen_before(files: &Vec<FileInfo>, i: usize) -> (seen: bool)
    requires
        i < files@.len(),
    ensures
        seen == exists|j: int| 0 <= j < i && (#[trigger] files@[j]).hash@ == files@[i as int].hash@,
{
    let mut j: usize = 0;
    while j < i
        invariant
            j <= i < files@.len(),
            forall|k: int| 0 <= k < j ==> (#[trigger] files@[k]).hash@ != files@[i as int].hash@,
        decreases i - j,
    {
        if files[j].hash == files[i].hash {
            return true;
        }
        j += 1;
    }
    false
}

/// The files that share the fingerprint of the file at `i`, in scan order,
/// with their positions.
fn collect_members(files: &Vec<FileInfo>, i: usize) -> (r: (Vec<FileInfo>, Ghost<Seq<int>>))
    requires
        i < files@.len(),
    ensures
        lists_class(file_views(files@), files@[i as int].hash@, r.1@),
        r.0@.len() == r.1@.len(),
        forall|k: int| 0 <= k < r.0@.len() ==> #[trigger] r.0@[k] == files@[r.1@[k]],
{
    let ghost all = file_views(files@);
    let ghost hash = files@[i as int].hash@;
    let mut members: Vec<FileInfo> = Vec::new();
    let ghost mut positions: Seq<int> = Seq::empty();
    let mut j: usize = 0;
    while j < files.len()
        invariant
            j <= files@.len(),
            i < files@.len(),
            all == file_views(files@),
            hash == files@[i as int].hash@,
            members@.len() == positions.len(),
            forall|k: int|
                0 <= k < positions.len() ==> 0 <= #[trigger] positions[k] < j && all[positions[k]].hash
                    == hash,
            forall|k: int| 0 <= k < members@.len() ==> #[trigger] members@[k] == files@[positions[k]],
            forall|a: int| 0 <= a < j && (#[trigger] all[a]).hash == hash ==> listed(positions, a),
            forall|a: int, b: int|
                #![trigger positions[a], positions[b]]
                0 <= a < b < positions.len() ==> positions[a] < positions[b],
        decreases files@.len() - j,
    {
        if files[j].hash == files[i].hash {
            let ghost before = positions;
            members.push(copy_file(&files[j]));
            proof {
                positions = positions.push(j as int);
                assert forall|a: int| 0 <= a < j + 1 && (#[trigger] all[a]).hash == hash implies listed(
                    positions,
                    a,
                ) by {
                    if a < j {
                        assert(listed(before, a));
                        let p = choose|p: int| 0 <= p < before.len() && before[p] == a;
                        assert(positions[p] == a);
                    } else {
                        assert(positions[positions.len() - 1] == a);
                    }
                }
            }
        }
        j += 1;
    }
    (members, Ghost(positions))
}

/// What the candidates stand for while the scan is walked through: each is
/// the group of its fingerprint, each was found at the first file with its
/// fingerprint, in scan order, and every fingerprint that two files share and
/// that occurs before `done` has its group.
spec fn candidates_ok(
    files: Seq<FileInfoView>,
    done: int,
    groups: Seq<DuplicateInfoView>,
    leaders: Seq<int>,
    members: Seq<Seq<int>>,
) -> bool {
    &&& leaders.len() == groups.len()
    &&& members.len() == groups.len()
    &&& forall|c: int| 0 <= c < groups.len() ==> is_group_with(files, #[trigger] groups[c], members[c])
    &&& forall|c: int|
        0 <= c < groups.len() ==> 0 <= #[trigger] leaders[c] < done && leaders[c] < files.len()
            && files[leaders[c]].hash == groups[c].original.hash
    &&& forall|c: int, b: int|
        0 <= c < groups.len() && 0 <= b < leaders[c] ==> (#[trigger] files[b]).hash
            != (#[trigger] groups[c]).original.hash
    &&& forall|c: int, d: int|
        #![trigger leaders[c], leaders[d]]
        0 <= c < d < groups.len() ==> leaders[c] < leaders[d]
    &&& forall|i: int, j: int|
        #![trigger files[i], files[j]]
        0 <= i < done && 0 <= j < files.len() && i != j && files[i].hash == files[j].hash
            ==> has_group(groups, files[i].hash)
}

/// Candidates that cover the whole scan, stably sorted by descending
/// savings, are the grouping.
proof fn lemma_ranked(
    files: Seq<FileInfoView>,
    groups: Seq<DuplicateInfoView>,
    leaders: Seq<int>,
    members: Seq<Seq<int>>,
    keys: Seq<int>,
    order: Seq<int>,
)
    requires
        candidates_ok(files, files.len() as int, groups, leaders, members),
        keys.len() == groups.len(),
        forall|c: int| 0 <= c < groups.len() ==> #[trigger] keys[c] == 0 - groups[c].total_savings,
        is_stable_sort(keys, order),
    ensures
        is_grouping(files, rearranged(groups, order)),
{
    let ranked = rearranged(groups, order);
    assert forall|g: int| 0 <= g < ranked.len() implies is_group(files, #[trigger] ranked[g]) by {
        assert(is_group_with(files, groups[order[g]], members[order[g]]));
    }
    assert forall|g: int, h: int|
        #![trigger ranked[g], ranked[h]]
        0 <= g < h < ranked.len() implies ranked[g].original.hash != ranked[h].original.hash
        && ranks_before(files, ranked[g], ranked[h]) by {
        let c = order[g];
        let d = order[h];
        assert(c != d);
        assert(keys[c] == 0 - groups[c].total_savings);
        assert(keys[d] == 0 - groups[d].total_savings);
        if c < d {
            assert(leaders[c] < leaders[d]);
            assert(files[leaders[c]].hash == groups[c].original.hash);
            assert(files[leaders[c]].hash != groups[d].original.hash);
            assert forall|j: int| 0 <= j <= leaders[c] implies (#[trigger] files[j]).hash
                != groups[d].original.hash by {
                assert(j < leaders[d]);
            }
            assert(first_seen_before(files, groups[c].original.hash, groups[d].original.hash));
        } else {
            assert(leaders[d] < leaders[c]);
            assert(files[leaders[d]].hash == groups[d].original.hash);
            assert(files[leaders[d]].hash != groups[c].original.hash);
        }
    }
    assert forall|i: int, j: int|
        #![trigger files[i], files[j]]
        0 <= i < j < files.len() && files[i].hash == files[j].hash implies has_group(
        ranked,
        files[i].hash,
    ) by {
        assert(has_group(groups, files[i].hash));
        let c = choose|c: int| 0 <= c < groups.len() && (#[trigger] groups[c]).original.hash
            == files[i].hash;
        assert(listed(order, c));
        let g = choose|g: int| 0 <= g < order.len() && order[g] == c;
        assert(ranked[g].original.hash == files[i].hash);
    }
}

/// Groups the files by fingerprint. A fingerprint that two or more files
/// share gives a group: the files in the order of their layers, and within a
/// layer in scan order; the first is the copy that stays. The groups come
/// out by descending savings, and groups that save the same in the order in
/// which their fingerprints are first seen. Savings that do not fit in 64
/// bits are an error.
pub fn group_duplicates(files: Vec<FileInfo>) -> (r: Result<Vec<DuplicateInfo>, DedupError>)
    ensures
        match r {
            Ok(groups) => is_grouping(file_views(files@), group_views(groups@)),
            Err(e) => e == DedupError::SavingsOverflow,
        },
        r is Err <==> savings_overflow(file_views(files@)),
{
    let ghost all = file_views(files@);
    let mut candidates: Vec<DuplicateInfo> = Vec::new();
    let ghost mut leaders: Seq<int> = Seq::empty();
    let ghost mut members: Seq<Seq<int>> = Seq::empty();
    let mut i: usize = 0;
    while i < files.len()
        invariant
            i <= files@.len(),
            all == file_views(files@),
            candidates_ok(all, i as int, group_views(candidates@), leaders, members),
        decreases files@.len() - i,
    {
        let ghost groups = group_views(candidates@);
        let ghost hash = all[i as int].hash;
        if seen_before(&files, i) {
            proof {
                let first = choose|j: int| 0 <= j < i && (#[trigger] files@[j]).hash@ == files@[i as int].hash@;
                assert(all[first].hash == all[i as int].hash);
                assert(has_group(groups, all[first].hash));
                assert(candidates_ok(all, i + 1, groups, leaders, members));
            }
        } else {
            let (mut class, Ghost(positions)) = collect_members(&files, i);
            if class.len() >= 2 {
                let ghost unsorted = class@;
                sort_by_layer(&mut class);
                let ghost order = choose|order: Seq<int>|
                    is_stable_sort(layer_keys(unsorted), order) && class@ == rearranged(
                        unsorted,
                        order,
                    );
                let ghost arranged = rearranged(positions, order);
                proof {
                    assert(stably_sorted(layer_keys(unsorted), unsorted, class@));
                    lemma_arrange(all, hash, positions, layer_keys(unsorted), order);
                    assert forall|k: int| 0 <= k < class@.len() implies (#[trigger] class@[k])@
                        == all[arranged[k]] by {
                        assert(class@[k] == unsorted[order[k]]);
                        assert(unsorted[order[k]] == files@[positions[order[k]]]);
                    }
                }
                let ghost sorted = class@;
                let original = class.remove(0);
                let count: u64 = class.len() as u64;
                let total_savings = match original.size.checked_mul(count) {
                    Some(total) => total,
                    None => {
                        proof {
                            assert(all[arranged[0]].size == original.size);
                            assert(is_arrangement(all, hash, arranged));
                        }
                        return Err(DedupError::SavingsOverflow);
                    },
                };
                let group = DuplicateInfo { original, duplicates: class, total_savings };
                proof {
                    assert(original@ == all[arranged[0]]);
                    assert(original@.hash == hash);
                    assert forall|k: int| 0 <= k < group@.duplicates.len() implies #[trigger] group@.duplicates[k]
                        == all[arranged[k + 1]] by {
                        assert(class@[k] == sorted[k + 1]);
                    }
                    assert(is_group_with(all, group@, arranged));
                }
                candidates.push(group);
                proof {
                    let next = group_views(candidates@);
                    assert(next =~= groups.push(group@));
                    leaders = leaders.push(i as int);
                    members = members.push(arranged);
                    assert forall|a: int, b: int|
                        #![trigger all[a], all[b]]
                        0 <= a < i + 1 && 0 <= b < all.len() && a != b && all[a].hash
                            == all[b].hash implies has_group(next, all[a].hash) by {
                        if a < i {
                            assert(has_group(groups, all[a].hash));
                            let c = choose|c: int| 0 <= c < groups.len() && (#[trigger] groups[c]).original.hash
                                == all[a].hash;
                            assert(next[c] == groups[c]);
                        } else {
                            assert(next[next.len() - 1].original.hash == hash);
                        }
                    }
                    assert forall|c: int, b: int|
                        0 <= c < next.len() && 0 <= b < leaders[c] implies (#[trigger] all[b]).hash
                        != (#[trigger] next[c]).original.hash by {
                        if c < groups.len() {
                            assert(next[c] == groups[c]);
                        } else {
                            assert(files@[b].hash@ != files@[i as int].hash@);
                        }
                    }
                    assert forall|c: int| 0 <= c < next.len() implies is_group_with(
                        all,
                        #[trigger] next[c],
                        members[c],
                    ) by {
                        if c < groups.len() {
                            assert(next[c] == groups[c]);
                        }
                    }
                    assert(candidates_ok(all, i + 1, next, leaders, members));
                }
            } else {
                proof {
                    assert forall|a: int, b: int|
                        #![trigger all[a], all[b]]
                        0 <= a < i + 1 && 0 <= b < all.len() && a != b && all[a].hash
                            == all[b].hash implies has_group(groups, all[a].hash) by {
                        if a == i {
                            assert(listed(positions, a));
                            assert(listed(positions, b));
                            let p = choose|p: int| 0 <= p < positions.len() && positions[p] == a;
                            let q = choose|q: int| 0 <= q < positions.len() && positions[q] == b;
                            assert(p != q);
                        }
                    }
                    assert(candidates_ok(all, i + 1, groups, leaders, members));
                }
            }
        }
        i += 1;
    }
    let ghost groups = group_views(candidates@);
    let ghost unranked = candidates@;
    let ranked = sorted_by_savings(candidates);
    proof {
        let order = choose|order: Seq<int>|
            is_stable_sort(savings_keys(unranked), order) && ranked@ == rearranged(unranked, order);
        lemma_ranked(all, groups, leaders, members, savings_keys(unranked), order);
        assert(group_views(ranked@) =~= rearranged(groups, order));
        lemma_grouping_fits(all, group_views(ranked@));
    }
    Ok(ranked)
}

/// Two arrangements of one fingerprint agree on their first `k` positions.
proof fn lemma_same_start(
    files: Seq<FileInfoView>,
    hash: Seq<char>,
    first: Seq<int>,
    second: Seq<int>,
    k: int,
)
    requires
        is_arrangement(files, hash, first),
        is_arrangement(files, hash, second),
        0 <= k <= first.len(),
        k <= second.len(),
    ensures
        forall|j: int| 0 <= j < k ==> first[j] == second[j],
    decreases k,
{
    if k > 0 {
        lemma_same_start(files, hash, first, second, k - 1);
        let x = first[k - 1];
        let y = second[k - 1];
        assert(files[x].hash == hash);
        assert(files[y].hash == hash);
        assert(listed(second, x));
        assert(listed(first, y));
        let p = choose|p: int| 0 <= p < second.len() && second[p] == x;
        let q = choose|q: int| 0 <= q < first.len() && first[q] == y;
        if p < k - 1 {
            assert(first[p] == second[p]);
            assert(comes_before(files, first[p], first[k - 1]));
        } else if p > k - 1 {
            assert(comes_before(files, second[k - 1], second[p]));
            if q < k - 1 {
                assert(first[q] == second[q]);
                assert(comes_before(files, second[q], second[k - 1]));
            } else if q > k - 1 {
                assert(comes_before(files, first[k - 1], first[q]));
            }
        }
    }
}

/// The files of one fingerprint have one arrangement only.
pub proof fn lemma_arrangement_unique(
    files: Seq<FileInfoView>,
    hash: Seq<char>,
    first: Seq<int>,
    second: Seq<int>,
)
    requires
        is_arrangement(files, hash, first),
        is_arrangement(files, hash, second),
    ensures
        first == second,
{
    if first.len() < second.len() {
        lemma_same_start(files, hash, first, second, first.len() as int);
        let y = second[first.len() as int];
        assert(files[y].hash == hash);
        assert(listed(first, y));
        let q = choose|q: int| 0 <= q < first.len() && first[q] == y;
        assert(first[q] == second[q]);
        assert(comes_before(files, second[q], second[first.len() as int]));
    } else if second.len() < first.len() {
        lemma_same_start(files, hash, first, second, second.len() as int);
        let x = first[second.len() as int];
        assert(files[x].hash == hash);
        assert(listed(second, x));
        let p = choose|p: int| 0 <= p < second.len() && second[p] == x;
        assert(first[p] == second[p]);
        assert(comes_before(files, first[p], first[second.len() as int]));
    } else {
        lemma_same_start(files, hash, first, second, first.len() as int);
        assert(first =~= second);
    }
}

/// Where the files have a grouping, all savings fit in 64 bits.
pub proof fn lemma_grouping_fits(files: Seq<FileInfoView>, groups: Seq<DuplicateInfoView>)
    requires
        is_grouping(files, groups),
    ensures
        !savings_overflow(files),
{
    if savings_overflow(files) {
        let (hash, members) = choose|hash: Seq<char>, members: Seq<int>|
            #![trigger is_arrangement(files, hash, members)]
            is_arrangement(files, hash, members) && members.len() >= 2 && files[members[0]].size * (
            members.len() - 1) > u64::MAX;
        let a = members[0];
        let b = members[1];
        assert(comes_before(files, a, b));
        assert(files[a].hash == hash && files[b].hash == hash);
        if a < b {
            assert(has_group(groups, files[a].hash));
        } else {
            assert(has_group(groups, files[b].hash));
        }
        let g = choose|g: int| 0 <= g < groups.len() && (#[trigger] groups[g]).original.hash == hash;
        assert(is_group(files, groups[g]));
        let own = choose|own: Seq<int>| is_group_with(files, groups[g], own);
        lemma_arrangement_unique(files, hash, members, own);
    }
}

/// Of two groups, at most one ranks before the other.
proof fn lemma_rank_one_way(files: Seq<FileInfoView>, a: DuplicateInfoView, b: DuplicateInfoView)
    requires
        ranks_before(files, a, b),
    ensures
        !ranks_before(files, b, a),
{
    if a.total_savings == b.total_savings && first_seen_before(
        files,
        b.original.hash,
        a.original.hash,
    ) {
        let i = choose|i: int|
            0 <= i < files.len() && (#[trigger] files[i]).hash == a.original.hash && forall|j: int|
                0 <= j <= i ==> (#[trigger] files[j]).hash != b.original.hash;
        let k = choose|k: int|
            0 <= k < files.len() && (#[trigger] files[k]).hash == b.original.hash && forall|j: int|
                0 <= j <= k ==> (#[trigger] files[j]).hash != a.original.hash;
        if i <= k {
            assert(files[i].hash != a.original.hash);
        } else {
            assert(files[k].hash != b.original.hash);
        }
    }
}

/// Two groups of the files of one fingerprint are the same group.
proof fn lemma_same_group(files: Seq<FileInfoView>, a: DuplicateInfoView, b: DuplicateInfoView)
    requires
        is_group(files, a),
        is_group(files, b),
        a.original.hash == b.original.hash,
    ensures
        a == b,
{
    let first = choose|members: Seq<int>| is_group_with(files, a, members);
    let second = choose|members: Seq<int>| is_group_with(files, b, members);
    lemma_arrangement_unique(files, a.original.hash, first, second);
    assert forall|k: int| 0 <= k < a.duplicates.len() implies a.duplicates[k] == b.duplicates[k] by {
        assert(a.duplicates[k] == files[first[k + 1]]);
        assert(b.duplicates[k] == files[second[k + 1]]);
    }
    assert(a.duplicates =~= b.duplicates);
}

/// Where the group with fingerprint `hash` stands in `groups`.
spec fn position_of(groups: Seq<DuplicateInfoView>, hash: Seq<char>) -> int {
    choose|g: int| 0 <= g < groups.len() && (#[trigger] groups[g]).original.hash == hash
}

/// Each group of one grouping stands in any other grouping of the same
/// files, and no earlier there.
proof fn lemma_grouping_embeds(
    files: Seq<FileInfoView>,
    first: Seq<DuplicateInfoView>,
    second: Seq<DuplicateInfoView>,
    g: int,
)
    requires
        is_grouping(files, first),
        is_grouping(files, second),
        0 <= g < first.len(),
    ensures
        g <= position_of(second, first[g].original.hash) < second.len(),
        second[position_of(second, first[g].original.hash)] == first[g],
    decreases g,
{
    let hash = first[g].original.hash;
    assert(is_group(files, first[g]));
    let members = choose|members: Seq<int>| is_group_with(files, first[g], members);
    let a = members[0];
    let b = members[1];
    assert(comes_before(files, a, b));
    assert(files[a].hash == hash && files[b].hash == hash);
    if a < b {
        assert(has_group(second, files[a].hash));
    } else {
        assert(has_group(second, files[b].hash));
    }
    let p = position_of(second, hash);
    assert(is_group(files, second[p]));
    lemma_same_group(files, first[g], second[p]);
    if g > 0 {
        lemma_grouping_embeds(files, first, second, g - 1);
        let q = position_of(second, first[g - 1].original.hash);
        assert(ranks_before(files, first[g - 1], first[g]));
        assert(first[g - 1].original.hash != first[g].original.hash);
        if p < q {
            assert(ranks_before(files, second[p], second[q]));
            lemma_rank_one_way(files, first[g - 1], first[g]);
        }
    }
}

/// The files have one grouping only: what `is_grouping` asks of the groups
/// leaves no choice.
pub proof fn lemma_grouping_unique(
    files: Seq<FileInfoView>,
    first: Seq<DuplicateInfoView>,
    second: Seq<DuplicateInfoView>,
)
    requires
        is_grouping(files, first),
        is_grouping(files, second),
    ensures
        first == second,
{
    if first.len() > 0 {
        lemma_grouping_embeds(files, first, second, first.len() - 1);
    }
    if second.len() > 0 {
        lemma_grouping_embeds(files, second, first, second.len() - 1);
    }
    assert forall|g: int| 0 <= g < first.len() implies first[g] == second[g] by {
        lemma_grouping_embeds(files, first, second, g);
        let p = position_of(second, first[g].original.hash);
        lemma_grouping_embeds(files, second, first, p);
        let q = position_of(first, second[p].original.hash);
        if q < g {
            assert(first[q].original.hash != first[g].original.hash);
        } else if g < q {
            assert(first[g].original.hash != first[q].original.hash);
        }
    }
    assert(first =~= second);
}

/// Every group has the copy that stays and at least one duplicate; the copy
/// that stays lies in no higher layer than any duplicate, and is none of
/// them; and the savings are the size of that copy for each duplicate.
pub proof fn lemma_group_shape(files: Seq<FileInfoView>, groups: Seq<DuplicateInfoView>, g: int)
    requires
        is_grouping(files, groups),
        0 <= g < groups.len(),
    ensures
        groups[g].duplicates.len() >= 1,
        groups[g].total_savings == groups[g].original.size * groups[g].duplicates.len(),
        forall|k: int|
            0 <= k < groups[g].duplicates.len() ==> groups[g].original.layer_index <= (
            #[trigger] groups[g].duplicates[k]).layer_index,
        forall|k: int|
            0 <= k < groups[g].duplicates.len() ==> (#[trigger] groups[g].duplicates[k]).hash
                == groups[g].original.hash,
{
    assert(is_group(files, groups[g]));
    let members = choose|members: Seq<int>| is_group_with(files, groups[g], members);
    assert forall|k: int| 0 <= k < groups[g].duplicates.len() implies groups[g].original.layer_index
        <= (#[trigger] groups[g].duplicates[k]).layer_index && groups[g].duplicates[k].hash
        == groups[g].original.hash by {
        assert(groups[g].duplicates[k] == files[members[k + 1]]);
        assert(comes_before(files, members[0], members[k + 1]));
    }
}

/// The files of a scan are told apart by layer and path.
pub open spec fn distinct_files(files: Seq<FileInfoView>) -> bool {
    forall|i: int, j: int|
        #![trigger files[i], files[j]]
        0 <= i < j < files.len() ==> files[i].layer_index != files[j].layer_index || files[i].path
            != files[j].path
}

/// Where the files are told apart by layer and path, the copy that stays in
/// one group is no duplicate of any group.
pub proof fn lemma_original_is_no_duplicate(
    files: Seq<FileInfoView>,
    groups: Seq<DuplicateInfoView>,
    g: int,
    h: int,
    k: int,
)
    requires
        is_grouping(files, groups),
        distinct_files(files),
        0 <= g < groups.len(),
        0 <= h < groups.len(),
        0 <= k < groups[h].duplicates.len(),
    ensures
        groups[g].original.layer_index != groups[h].duplicates[k].layer_index
            || groups[g].original.path != groups[h].duplicates[k].path,
{
    assert(is_group(files, groups[g]));
    assert(is_group(files, groups[h]));
    let mine = choose|members: Seq<int>| is_group_with(files, groups[g], members);
    let theirs = choose|members: Seq<int>| is_group_with(files, groups[h], members);
    let a = mine[0];
    let b = theirs[k + 1];
    assert(groups[h].duplicates[k] == files[b]);
    assert(files[a].hash == groups[g].original.hash);
    assert(files[b].hash == groups[h].original.hash);
    if g == h {
        assert(comes_before(files, theirs[0], theirs[k + 1]));
    } else if g < h {
        assert(groups[g].original.hash != groups[h].original.hash);
    } else {
        assert(groups[h].original.hash != groups[g].original.hash);
    }
    assert(a != b);
    if a < b {
        assert(files[a].layer_index != files[b].layer_index || files[a].path != files[b].path);
    } else {
        assert(files[b].layer_index != files[a].layer_index || files[b].path != files[a].path);
    }
}

/// What all groups save together.
pub open spec fn savings_sum(groups: Seq<DuplicateInfoView>) -> int
    decreases groups.len(),
{
    if groups.len() == 0 {
        0
    } else {
        savings_sum(groups.drop_last()) + groups.last().total_savings
    }
}

/// What the first groups save is no more than what all groups save.
proof fn lemma_savings_grow(groups: Seq<DuplicateInfoView>, n: int)
    requires
        0 <= n <= groups.len(),
    ensures
        savings_sum(groups.take(n)) <= savings_sum(groups),
    decreases groups.len() - n,
{
    if n < groups.len() {
        assert(groups.take(n + 1).drop_last() == groups.take(n));
        lemma_savings_grow(groups, n + 1);
    } else {
        assert(groups.take(n) == groups);
    }
}

/// What all groups save together, where that fits in 64 bits.
pub fn total_savings(groups: &Vec<DuplicateInfo>) -> (total: Option<u64>)
    ensures
        match total {
            Some(sum) => sum == savings_sum(group_views(groups@)),
            None => savings_sum(group_views(groups@)) > u64::MAX,
        },
{
    let ghost all = group_views(groups@);
    let mut sum: u64 = 0;
    let mut i: usize = 0;
    proof {
        assert(all.take(0).len() == 0);
    }
    while i < groups.len()
        invariant
            i <= groups@.len(),
            all == group_views(groups@),
            sum == savings_sum(all.take(i as int)),
        decreases groups@.len() - i,
    {
        proof {
            assert(all.take(i + 1).drop_last() == all.take(i as int));
            assert(all.take(i + 1).last() == groups@[i as int]@);
        }
        match sum.checked_add(groups[i].total_savings) {
            Some(next) => {
                sum = next;
            },
            None => {
                proof {
                    lemma_savings_grow(all, i + 1);
                }
                return None;
            },
        }
        i += 1;
    }
    proof {
        assert(all.take(groups@.len() as int) == all);
    }
    Some(sum)
}

impl Analyzer {
    /// Scans the image and groups what the scan finds.
    pub fn find_duplicates(&self) -> (r: Result<Vec<DuplicateInfo>, DedupError>)
        ensures
            match r {
                Ok(groups) => {
                    let files = scanned_layers(layer_views(self.layers@), self.min_size);
                    files is Ok && is_grouping(files->Ok_0, group_views(groups@))
                },
                Err(e) => {
                    let files = scanned_layers(layer_views(self.layers@), self.min_size);
                    match files {
                        Err(cause) => e == cause,
                        Ok(found) => e == DedupError::SavingsOverflow && savings_overflow(found),
                    }
                },
            },
            r is Ok ==> !savings_overflow(
                scanned_layers(layer_views(self.layers@), self.min_size)->Ok_0,
            ),
    {
        let files = self.scan_files()?;
        group_duplicates(files)
    }
}

} // verus!

//! Ranking of recent paths by frequency and recency.

use vstd::prelude::*;
use crate::events::lemma_deep_view_push;
use crate::settings::{PathEntry, PathEntryView};
use crate::text::{str_equals, text_of};

verus! {

/// The number of recent paths kept for one profile.
pub const MAX_RECENT_PATHS: usize = 500;

/// Twice the weight of a visit of the given age in seconds: 8 within the
/// hour, 4 within the day, 2 within the week, 1 beyond.
pub open spec fn age_weight(age: int) -> nat {
    if age < 3600 {
        8
    } else if age < 86400 {
        4
    } else if age < 604800 {
        2
    } else {
        1
    }
}

/// The rank of an entry at time `now`: its number of visits, weighted by the
/// age of the last one.
pub open spec fn frecency(entry: PathEntryView, now: int) -> nat {
    entry.score as nat * age_weight(now - entry.last_accessed)
}

/// Computes the rank of an entry at time `now`.
pub fn frecency_score(entry: &PathEntry, now: i64) -> (r: u128)
    ensures
        r == frecency(entry@, now as int),
{
    let age: i128 = now as i128 - entry.last_accessed as i128;
    let weight: u128 = if age < 3600 {
        8
    } else if age < 86400 {
        4
    } else if age < 604800 {
        2
    } else {
        1
    };
    assert(entry.score as nat * weight as nat <= 8 * 0xffff_ffff_ffff_ffff) by (nonlinear_arith)
        requires
            weight <= 8,
            entry.score <= 0xffff_ffff_ffff_ffff,
    ;
    (entry.score as u128) * weight
}

/// `order` with index `i` put behind the last index whose key is not below
/// the key of `i`.
pub open spec fn insert_desc(order: Seq<usize>, keys: Seq<u128>, i: usize) -> Seq<usize>
    decreases order.len(),
{
    if order.len() == 0 {
        seq![i]
    } else if keys[order.last() as int] >= keys[i as int] {
        order.push(i)
    } else {
        insert_desc(order.drop_last(), keys, i).push(order.last())
    }
}

/// The indices below `upto` in the order of their keys, greatest first;
/// indices of equal keys in increasing order.
pub open spec fn desc_order(keys: Seq<u128>, upto: int) -> Seq<usize>
    decreases upto,
{
    if upto <= 0 {
        Seq::empty()
    } else {
        insert_desc(desc_order(keys, upto - 1), keys, (upto - 1) as usize)
    }
}

/// Inserting at the place found by scanning from the end is `insert_desc`.
proof fn lemma_insert_desc_at(order: Seq<usize>, keys: Seq<u128>, i: usize, j: int)
    requires
        0 <= j <= order.len(),
        forall|k: int| j <= k < order.len() ==> keys[order[k] as int] < keys[i as int],
        j > 0 ==> keys[order[j - 1] as int] >= keys[i as int],
    ensures
        insert_desc(order, keys, i) == order.insert(j, i),
    decreases order.len(),
{
    if order.len() == 0 {
        assert(order.insert(0, i) =~= seq![i]);
    } else if j == order.len() {
        assert(order.insert(j, i) =~= order.push(i));
    } else {
        lemma_insert_desc_at(order.drop_last(), keys, i, j);
        assert(order.insert(j, i) =~= order.drop_last().insert(j, i).push(order.last()));
    }
}

/// The order holds each index below `upto` exactly once, and the keys along
/// it never increase.
pub proof fn lemma_desc_order(keys: Seq<u128>, upto: int)
    requires
        0 <= upto <= keys.len() <= usize::MAX,
    ensures
        desc_order(keys, upto).len() == upto,
        forall|k: int| 0 <= k < upto ==> (#[trigger] desc_order(keys, upto)[k]) < upto,
        desc_order(keys, upto).no_duplicates(),
        forall|j: int, k: int|
            0 <= j < k < upto ==> keys[desc_order(keys, upto)[j] as int] >= keys[desc_order(
                keys,
                upto,
            )[k] as int],
    decreases upto,
{
    if upto > 0 {
        lemma_desc_order(keys, upto - 1);
        let prev = desc_order(keys, upto - 1);
        let i = (upto - 1) as usize;
        let j = insert_point(prev, keys, i, prev.len() as int);
        lemma_insert_point(prev, keys, i, prev.len() as int);
        lemma_insert_desc_at(prev, keys, i, j);
        let cur = prev.insert(j, i);
        assert forall|a: int, b: int| 0 <= a < cur.len() && 0 <= b < cur.len() && a != b implies cur[a]
            != cur[b] by {
            let pa = if a < j {
                a
            } else {
                a - 1
            };
            let pb = if b < j {
                b
            } else {
                b - 1
            };
            if a != j && b != j {
                assert(cur[a] == prev[pa]);
                assert(cur[b] == prev[pb]);
            } else if a == j {
                assert(cur[b] == prev[pb]);
            } else {
                assert(cur[a] == prev[pa]);
            }
        }
        assert forall|a: int, b: int| 0 <= a < b < upto implies keys[cur[a] as int] >= keys[cur[b] as int] by {
            let pa = if a < j {
                a
            } else {
                a - 1
            };
            let pb = if b < j {
                b
            } else {
                b - 1
            };
            if a != j && b != j {
                assert(cur[a] == prev[pa]);
                assert(cur[b] == prev[pb]);
            } else if a == j {
                assert(cur[b] == prev[pb]);
            } else {
                assert(cur[a] == prev[pa]);
                if pa < j - 1 {
                    assert(keys[prev[pa] as int] >= keys[prev[j - 1] as int]);
                }
            }
        }
        assert forall|k: int| 0 <= k < upto implies (#[trigger] cur[k]) < upto by {
            if k < j {
                assert(cur[k] == prev[k]);
            } else if k > j {
                assert(cur[k] == prev[k - 1]);
            }
        }
    }
}

/// The place at which `i` is inserted: behind the last of the first `end`
/// indices whose key is not below the key of `i`.
spec fn insert_point(order: Seq<usize>, keys: Seq<u128>, i: usize, end: int) -> int
    decreases end,
{
    if end <= 0 {
        0
    } else if keys[order[end - 1] as int] >= keys[i as int] {
        end
    } else {
        insert_point(order, keys, i, end - 1)
    }
}

/// The insertion point lies behind every entry with a key at least as high
/// and before every entry with a lower key.
proof fn lemma_insert_point(order: Seq<usize>, keys: Seq<u128>, i: usize, end: int)
    requires
        0 <= end <= order.len(),
    ensures
        0 <= insert_point(order, keys, i, end) <= end,
        forall|k: int|
            insert_point(order, keys, i, end) <= k < end ==> keys[order[k] as int] < keys[i as int],
        insert_point(order, keys, i, end) > 0 ==> keys[order[insert_point(order, keys, i, end)
            - 1] as int] >= keys[i as int],
    decreases end,
{
    if end > 0 && keys[order[end - 1] as int] < keys[i as int] {
        lemma_insert_point(order, keys, i, end - 1);
    }
}

/// Orders the indices of `keys` by key, greatest first; indices of equal
/// keys stay in increasing order.
pub fn order_desc(keys: &Vec<u128>) -> (order: Vec<usize>)
    ensures
        order@ == desc_order(keys@, keys@.len() as int),
        order@.len() == keys@.len(),
        forall|k: int| 0 <= k < order@.len() ==> (#[trigger] order@[k]) < keys@.len(),
{
    let n = keys.len();
    let mut order: Vec<usize> = Vec::new();
    let mut i: usize = 0;
    while i < n
        invariant
            i <= n,
            n == keys@.len(),
            order@ == desc_order(keys@, i as int),
            order@.len() == i,
            forall|k: int| 0 <= k < order@.len() ==> (#[trigger] order@[k]) < i,
        decreases n - i,
    {
        let mut j: usize = order.len();
        while j > 0 && keys[order[j - 1]] < keys[i]
            invariant
                j <= order@.len(),
                i < n,
                n == keys@.len(),
                forall|k: int| 0 <= k < order@.len() ==> (#[trigger] order@[k]) < i,
                forall|k: int| j <= k < order@.len() ==> keys@[order@[k] as int] < keys@[i as int],
            decreases j,
        {
            j -= 1;
        }
        proof {
            lemma_insert_desc_at(order@, keys@, i, j as int);
        }
        order.insert(j, i);
        proof {
            assert forall|k: int| 0 <= k < order@.len() implies (#[trigger] order@[k]) < i + 1 by {
                if k < j {
                } else if k > j {
                    assert(order@[k] == desc_order(keys@, i as int)[k - 1]);
                }
            }
        }
        i += 1;
    }
    order
}

/// The entries after a visit of `path` at time `now`, before trimming: the
/// entry of the path counts one visit more and is stamped with `now`; a path
/// without entry gets one with a single visit.
pub open spec fn visited(entries: Seq<PathEntryView>, path: Seq<char>, now: i64, from: int) -> Seq<
    PathEntryView,
>
    decreases entries.len() - from,
{
    if from < 0 || from >= entries.len() {
        entries.push(PathEntryView { path, score: 1, last_accessed: now })
    } else if entries[from].path == path {
        entries.update(
            from,
            PathEntryView {
                path,
                score: if entries[from].score < u64::MAX {
                    (entries[from].score + 1) as u64
                } else {
                    entries[from].score
                },
                last_accessed: now,
            },
        )
    } else {
        visited(entries, path, now, from + 1)
    }
}

/// The scores of the entries, as sorting keys.
pub open spec fn score_keys(entries: Seq<PathEntryView>) -> Seq<u128> {
    Seq::new(entries.len(), |i: int| entries[i].score as u128)
}

/// The ranks of the entries at time `now`, as sorting keys.
pub open spec fn frecency_keys(entries: Seq<PathEntryView>, now: i64) -> Seq<u128> {
    Seq::new(entries.len(), |i: int| frecency(entries[i], now as int) as u128)
}

/// The first `count` entries in the order of the keys, greatest first.
pub open spec fn top_entries(entries: Seq<PathEntryView>, keys: Seq<u128>, count: int) -> Seq<
    PathEntryView,
> {
    let order = desc_order(keys, entries.len() as int);
    let n = if count <= entries.len() {
        if count < 0 {
            0
        } else {
            count
        }
    } else {
        entries.len() as int
    };
    Seq::new(n as nat, |k: int| entries[order[k] as int])
}

/// The entries trimmed to the number that is kept: where there are more,
/// those with the most visits stay, in the order of their visits.
pub open spec fn trimmed_entries(entries: Seq<PathEntryView>) -> Seq<PathEntryView> {
    if entries.len() > MAX_RECENT_PATHS {
        top_entries(entries, score_keys(entries), MAX_RECENT_PATHS as int)
    } else {
        entries
    }
}

/// The entries after a visit of `path` at time `now`.
pub open spec fn recorded(entries: Seq<PathEntryView>, path: Seq<char>, now: i64) -> Seq<
    PathEntryView,
> {
    trimmed_entries(visited(entries, path, now, 0))
}

/// The paths of the `count` entries that rank highest at time `now`, best
/// first.
pub open spec fn top_paths(entries: Seq<PathEntryView>, now: i64, count: int) -> Seq<Seq<char>> {
    let top = top_entries(entries, frecency_keys(entries, now), count);
    Seq::new(top.len(), |k: int| top[k].path)
}

/// Copies the first `count` entries in the order of `keys`, greatest first.
fn take_top(entries: &Vec<PathEntry>, keys: &Vec<u128>, count: usize) -> (r: Vec<PathEntry>)
    requires
        keys@.len() == entries@.len(),
    ensures
        r.deep_view() == top_entries(entries.deep_view(), keys@, count as int),
{
    let order = order_desc(keys);
    let n = if count <= entries.len() {
        count
    } else {
        entries.len()
    };
    let mut out: Vec<PathEntry> = Vec::new();
    let mut k: usize = 0;
    while k < n
        invariant
            k <= n <= order@.len(),
            order@.len() == entries@.len(),
            forall|j: int| 0 <= j < order@.len() ==> (#[trigger] order@[j]) < entries@.len(),
            out@.len() == k,
            forall|j: int| 0 <= j < k ==> (#[trigger] out@[j])@ == entries@[order@[j] as int]@,
        decreases n - k,
    {
        out.push(entries[order[k]].clone());
        k += 1;
    }
    proof {
        assert(out.deep_view() =~= top_entries(entries.deep_view(), keys@, count as int));
    }
    out
}

/// Records a visit of `path` at time `now`, and trims the entries to the
/// number that is kept.
pub fn record_visit(entries: &mut Vec<PathEntry>, path: &str, now: i64)
    ensures
        final(entries).deep_view() == recorded(old(entries).deep_view(), path@, now),
{
    let n = entries.len();
    let mut i: usize = 0;
    let mut found = false;
    while i < n
        invariant_except_break
            !found,
        invariant
            i <= n,
            n == entries@.len(),
            entries@ == old(entries)@,
            visited(entries.deep_view(), path@, now, 0) == visited(
                entries.deep_view(),
                path@,
                now,
                i as int,
            ),
        ensures
            found ==> i < n && entries@[i as int]@.path == path@,
            !found ==> i == n,
            entries@ == old(entries)@,
            visited(entries.deep_view(), path@, now, 0) == visited(
                entries.deep_view(),
                path@,
                now,
                i as int,
            ),
        decreases n - i,
    {
        if str_equals(entries[i].path.as_str(), path) {
            found = true;
            break;
        }
        i += 1;
    }
    let ghost before = entries.deep_view();
    if found {
        let score = entries[i].score;
        entries[i].score = if score < u64::MAX {
            score + 1
        } else {
            score
        };
        entries[i].last_accessed = now;
        proof {
            assert(entries.deep_view() =~= visited(before, path@, now, 0));
        }
    } else {
        let entry = PathEntry { path: text_of(path), score: 1, last_accessed: now };
        proof {
            lemma_deep_view_push(entries@, entries@.push(entry), entry);
        }
        entries.push(entry);
    }
    if entries.len() > MAX_RECENT_PATHS {
        let mut keys: Vec<u128> = Vec::new();
        let mut k: usize = 0;
        while k < entries.len()
            invariant
                k <= entries@.len(),
                keys@.len() == k,
                forall|j: int| 0 <= j < k ==> keys@[j] == entries@[j]@.score as u128,
            decreases entries@.len() - k,
        {
            keys.push(entries[k].score as u128);
            k += 1;
        }
        proof {
            assert(keys@ =~= score_keys(entries.deep_view()));
        }
        let kept = take_top(entries, &keys, MAX_RECENT_PATHS);
        *entries = kept;
    }
}

/// Returns the paths of the `count` entries that rank highest at time `now`,
/// best first.
pub fn top_frecent(entries: &Vec<PathEntry>, now: i64, count: usize) -> (r: Vec<String>)
    ensures
        r.deep_view() == top_paths(entries.deep_view(), now, count as int),
{
    let mut keys: Vec<u128> = Vec::new();
    let mut k: usize = 0;
    while k < entries.len()
        invariant
            k <= entries@.len(),
            keys@.len() == k,
            forall|j: int| 0 <= j < k ==> keys@[j] == frecency(entries@[j]@, now as int) as u128,
        decreases entries@.len() - k,
    {
        keys.push(frecency_score(&entries[k], now));
        k += 1;
    }
    proof {
        assert(keys@ =~= frecency_keys(entries.deep_view(), now));
    }
    let top = take_top(entries, &keys, count);
    let mut paths: Vec<String> = Vec::new();
    let mut j: usize = 0;
    while j < top.len()
        invariant
            j <= top@.len(),
            paths@.len() == j,
            forall|m: int| 0 <= m < j ==> (#[trigger] paths@[m])@ == top@[m]@.path,
        decreases top@.len() - j,
    {
        paths.push(top[j].path.clone());
        j += 1;
    }
    proof {
        assert(paths.deep_view() =~= top_paths(entries.deep_view(), now, count as int));
    }
    paths
}

} // verus!

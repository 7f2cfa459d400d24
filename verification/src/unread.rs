use vstd::prelude::*;

use crate::records::{MetaGroup, UnreadTotal};

verus! {

// ---------------------------------------------------------------------------
// The model: unread counts as a map from uuid (its characters) to a number.
// ---------------------------------------------------------------------------

/// The map that a list of counts stands for: each uuid with its count, where a
/// later entry for a uuid replaces an earlier one.
pub open spec fn counts_map(s: Seq<UnreadTotal>) -> Map<Seq<char>, int>
    decreases s.len(),
{
    if s.len() == 0 {
        Map::empty()
    } else {
        counts_map(s.drop_last()).insert(
            s.last().channel_uuid@,
            s.last().unread_count as int,
        )
    }
}

/// No uuid occurs twice in a list of counts.
pub open spec fn unique_keys(s: Seq<UnreadTotal>) -> bool {
    forall|i: int, j: int|
        0 <= i < s.len() && 0 <= j < s.len() && i != j ==> s[i].channel_uuid@ != s[j].channel_uuid@
}

/// The channel that a placement names has unread articles.
pub open spec fn counted(t: Map<Seq<char>, int>, g: MetaGroup) -> bool {
    t.contains_key(g.child_uuid@)
}

/// The placement passes its channel's count on to the folder `k`.
pub open spec fn adds_to(t: Map<Seq<char>, int>, g: MetaGroup, k: Seq<char>) -> bool {
    counted(t, g) && g.parent_uuid@.len() > 0 && g.parent_uuid@ == k
}

/// The placement names `k` as a channel with unread articles.
pub open spec fn child_event(t: Map<Seq<char>, int>, g: MetaGroup, k: Seq<char>) -> bool {
    counted(t, g) && g.child_uuid@ == k
}

/// What the first `n` placements pass on to the folder `k`: the sum of the
/// counts of the channels that they place in `k`.
pub open spec fn folder_sum(t: Map<Seq<char>, int>, gs: Seq<MetaGroup>, n: int, k: Seq<char>) -> int
    decreases n,
{
    if n <= 0 {
        0
    } else {
        folder_sum(t, gs, n - 1, k) + if adds_to(t, gs[n - 1], k) {
            t[gs[n - 1].child_uuid@]
        } else {
            0
        }
    }
}

/// Among the first `n` placements, one passes a count on to `k` before any
/// placement names `k` as a channel.
pub open spec fn folder_first(t: Map<Seq<char>, int>, gs: Seq<MetaGroup>, n: int, k: Seq<char>) -> bool {
    exists|i: int|
        0 <= i < n && #[trigger] adds_to(t, gs[i], k) && forall|j: int|
            0 <= j < i ==> gs[j].child_uuid@ != k
}

/// One of the first `n` placements gives `k` an entry.
pub open spec fn touched(t: Map<Seq<char>, int>, gs: Seq<MetaGroup>, n: int, k: Seq<char>) -> bool {
    exists|i: int| 0 <= i < n && (adds_to(t, #[trigger] gs[i], k) || child_event(t, gs[i], k))
}

/// The own unread count of `k` that its total includes: its count, unless a
/// folder sum reached `k` first.
pub open spec fn own_count(t: Map<Seq<char>, int>, gs: Seq<MetaGroup>, n: int, k: Seq<char>) -> int {
    if t.contains_key(k) && !folder_first(t, gs, n, k) {
        t[k]
    } else {
        0
    }
}

/// The totals once the first `n` placements have been walked.
pub open spec fn placement_totals(t: Map<Seq<char>, int>, gs: Seq<MetaGroup>, n: int) -> Map<
    Seq<char>,
    int,
> {
    Map::new(
        |k: Seq<char>| touched(t, gs, n, k),
        |k: Seq<char>| folder_sum(t, gs, n, k) + own_count(t, gs, n, k),
    )
}

/// The unread totals shown for channels and folders.
///
/// `records` holds the unread count of each channel, `groups` the placements of
/// channels in folders. Every channel with unread articles has an entry, and so
/// has every folder that holds one: a folder's total is the sum of the counts
/// of the channels placed in it, plus its own count when it has one and no
/// placement reached it as a folder before one named it as a channel.
pub open spec fn unread_totals(records: Seq<UnreadTotal>, groups: Seq<MetaGroup>) -> Map<
    Seq<char>,
    int,
> {
    let t = counts_map(records);
    let n = groups.len() as int;
    Map::new(
        |k: Seq<char>| t.contains_key(k) || touched(t, groups, n, k),
        |k: Seq<char>| folder_sum(t, groups, n, k) + own_count(t, groups, n, k),
    )
}

/// Every total met while the placements are walked fits in an `i32`.
pub open spec fn sums_fit(records: Seq<UnreadTotal>, groups: Seq<MetaGroup>) -> bool {
    forall|n: int, k: Seq<char>|
        0 <= n <= groups.len() && #[trigger] placement_totals(counts_map(records), groups, n).contains_key(k)
            ==> i32::MIN <= placement_totals(counts_map(records), groups, n)[k] <= i32::MAX
}

/// The totals after one more placement, in terms of those before it.
spec fn after_group(before: Map<Seq<char>, int>, t: Map<Seq<char>, int>, g: MetaGroup) -> Map<Seq<char>, int> {
    if counted(t, g) {
        let c = g.child_uuid@;
        let p = g.parent_uuid@;
        let cnt = t[c];
        let m1 = if p.len() > 0 {
            before.insert(p, (if before.contains_key(p) { before[p] } else { 0 }) + cnt)
        } else {
            before
        };
        if m1.contains_key(c) { m1 } else { m1.insert(c, cnt) }
    } else {
        before
    }
}

// ---------------------------------------------------------------------------
// Lemmas on the model.
// ---------------------------------------------------------------------------

/// A list of counts has an entry for exactly the uuids it names.
pub proof fn lemma_counts_map_dom(s: Seq<UnreadTotal>, k: Seq<char>)
    ensures
        counts_map(s).contains_key(k) <==> exists|i: int| 0 <= i < s.len() && #[trigger] s[i].channel_uuid@ == k,
    decreases s.len(),
{
    if s.len() > 0 {
        let d = s.drop_last();
        lemma_counts_map_dom(d, k);
        if exists|i: int| 0 <= i < d.len() && #[trigger] d[i].channel_uuid@ == k {
            let i = choose|i: int| 0 <= i < d.len() && #[trigger] d[i].channel_uuid@ == k;
            assert(s[i] == d[i]);
        }
        if exists|i: int| 0 <= i < s.len() && #[trigger] s[i].channel_uuid@ == k {
            let i = choose|i: int| 0 <= i < s.len() && #[trigger] s[i].channel_uuid@ == k;
            if i < s.len() - 1 {
                assert(d[i] == s[i]);
            }
        }
    }
}

proof fn lemma_counts_map_value(s: Seq<UnreadTotal>, i: int)
    requires
        unique_keys(s),
        0 <= i < s.len(),
    ensures
        counts_map(s).contains_key(s[i].channel_uuid@),
        counts_map(s)[s[i].channel_uuid@] == s[i].unread_count as int,
    decreases s.len(),
{
    if i < s.len() - 1 {
        let d = s.drop_last();
        assert(unique_keys(d)) by {
            assert forall|a: int, b: int|
                0 <= a < d.len() && 0 <= b < d.len() && a != b implies d[a].channel_uuid@
                != d[b].channel_uuid@ by {
                assert(d[a] == s[a] && d[b] == s[b]);
            }
        }
        lemma_counts_map_value(d, i);
        assert(d[i] == s[i]);
        assert(s.last() == s[s.len() - 1]);
    }
}

/// A list with unique keys stands for the map that gives each of its keys the
/// count stored with it.
proof fn lemma_counts_map_update(s: Seq<UnreadTotal>, i: int, e: UnreadTotal)
    requires
        unique_keys(s),
        0 <= i < s.len(),
        e.channel_uuid@ == s[i].channel_uuid@,
    ensures
        unique_keys(s.update(i, e)),
        counts_map(s.update(i, e)) == counts_map(s).insert(e.channel_uuid@, e.unread_count as int),
{
    let u = s.update(i, e);
    assert(unique_keys(u)) by {
        assert forall|a: int, b: int|
            0 <= a < u.len() && 0 <= b < u.len() && a != b implies u[a].channel_uuid@
            != u[b].channel_uuid@ by {
            assert(u[a].channel_uuid@ == s[a].channel_uuid@);
            assert(u[b].channel_uuid@ == s[b].channel_uuid@);
        }
    }
    let expect = counts_map(s).insert(e.channel_uuid@, e.unread_count as int);
    assert forall|k: Seq<char>| #[trigger] counts_map(u).contains_key(k) <==> expect.contains_key(k) by {
        lemma_counts_map_dom(u, k);
        lemma_counts_map_dom(s, k);
        if exists|j: int| 0 <= j < s.len() && #[trigger] s[j].channel_uuid@ == k {
            let j = choose|j: int| 0 <= j < s.len() && #[trigger] s[j].channel_uuid@ == k;
            assert(u[j].channel_uuid@ == s[j].channel_uuid@);
        }
        if exists|j: int| 0 <= j < u.len() && #[trigger] u[j].channel_uuid@ == k {
            let j = choose|j: int| 0 <= j < u.len() && #[trigger] u[j].channel_uuid@ == k;
            assert(u[j].channel_uuid@ == s[j].channel_uuid@);
        }
    }
    assert forall|k: Seq<char>| #[trigger] counts_map(u).contains_key(k) implies counts_map(u)[k]
        == expect[k] by {
        lemma_counts_map_dom(u, k);
        let j = choose|j: int| 0 <= j < u.len() && #[trigger] u[j].channel_uuid@ == k;
        lemma_counts_map_value(u, j);
        if j != i {
            assert(u[j] == s[j]);
            lemma_counts_map_value(s, j);
        }
    }
    assert(counts_map(u) =~= expect);
}

proof fn lemma_counts_map_push(s: Seq<UnreadTotal>, e: UnreadTotal)
    requires
        unique_keys(s),
        !counts_map(s).contains_key(e.channel_uuid@),
    ensures
        unique_keys(s.push(e)),
        counts_map(s.push(e)) == counts_map(s).insert(e.channel_uuid@, e.unread_count as int),
{
    let u = s.push(e);
    assert(u.drop_last() =~= s);
    lemma_counts_map_dom(s, e.channel_uuid@);
    assert forall|a: int, b: int|
        0 <= a < u.len() && 0 <= b < u.len() && a != b implies u[a].channel_uuid@
        != u[b].channel_uuid@ by {
        if a < s.len() {
            assert(u[a] == s[a]);
        }
        if b < s.len() {
            assert(u[b] == s[b]);
        }
    }
}

/// A key that no placement touches receives nothing from them.
proof fn lemma_untouched(t: Map<Seq<char>, int>, gs: Seq<MetaGroup>, n: int, k: Seq<char>)
    requires
        0 <= n <= gs.len(),
        !touched(t, gs, n, k),
    ensures
        folder_sum(t, gs, n, k) == 0,
        !folder_first(t, gs, n, k),
    decreases n,
{
    if n > 0 {
        assert(!adds_to(t, gs[n - 1], k));
        assert(!touched(t, gs, n - 1, k)) by {
            if touched(t, gs, n - 1, k) {
                let i = choose|i: int|
                    0 <= i < n - 1 && (adds_to(t, #[trigger] gs[i], k) || child_event(t, gs[i], k));
                assert(0 <= i < n && (adds_to(t, gs[i], k) || child_event(t, gs[i], k)));
            }
        }
        lemma_untouched(t, gs, n - 1, k);
    }
}

/// Walking one more placement changes the totals as `after_group` says.
proof fn lemma_placement_step(t: Map<Seq<char>, int>, gs: Seq<MetaGroup>, n: int)
    requires
        0 <= n < gs.len(),
    ensures
        placement_totals(t, gs, n + 1) == after_group(placement_totals(t, gs, n), t, gs[n]),
{
    let g = gs[n];
    let before = placement_totals(t, gs, n);
    let after = placement_totals(t, gs, n + 1);
    let expect = after_group(before, t, g);
    assert forall|k: Seq<char>|
        touched(t, gs, n + 1, k) <==> touched(t, gs, n, k) || adds_to(t, g, k) || child_event(
            t,
            g,
            k,
        ) by {
        if touched(t, gs, n + 1, k) {
            let i = choose|i: int|
                0 <= i < n + 1 && (adds_to(t, #[trigger] gs[i], k) || child_event(t, gs[i], k));
            if i < n {
                assert(0 <= i < n && (adds_to(t, gs[i], k) || child_event(t, gs[i], k)));
            }
        }
        if touched(t, gs, n, k) {
            let i = choose|i: int|
                0 <= i < n && (adds_to(t, #[trigger] gs[i], k) || child_event(t, gs[i], k));
            assert(0 <= i < n + 1 && (adds_to(t, gs[i], k) || child_event(t, gs[i], k)));
        }
        if adds_to(t, g, k) || child_event(t, g, k) {
            assert(0 <= n < n + 1 && (adds_to(t, gs[n], k) || child_event(t, gs[n], k)));
        }
    }
    assert forall|k: Seq<char>|
        folder_first(t, gs, n + 1, k) <==> folder_first(t, gs, n, k) || (adds_to(t, g, k) && forall|
            j: int,
        | 0 <= j < n ==> gs[j].child_uuid@ != k) by {
        if folder_first(t, gs, n + 1, k) {
            let i = choose|i: int|
                0 <= i < n + 1 && #[trigger] adds_to(t, gs[i], k) && forall|j: int|
                    0 <= j < i ==> gs[j].child_uuid@ != k;
            if i < n {
                assert(0 <= i < n && adds_to(t, gs[i], k) && forall|j: int|
                    0 <= j < i ==> gs[j].child_uuid@ != k);
            }
        }
        if folder_first(t, gs, n, k) {
            let i = choose|i: int|
                0 <= i < n && #[trigger] adds_to(t, gs[i], k) && forall|j: int|
                    0 <= j < i ==> gs[j].child_uuid@ != k;
            assert(0 <= i < n + 1 && adds_to(t, gs[i], k) && forall|j: int|
                0 <= j < i ==> gs[j].child_uuid@ != k);
        }
        if adds_to(t, g, k) && forall|j: int| 0 <= j < n ==> gs[j].child_uuid@ != k {
            assert(0 <= n < n + 1 && adds_to(t, gs[n], k) && forall|j: int|
                0 <= j < n ==> gs[j].child_uuid@ != k);
        }
    }
    // A touched key with a count of its own either reached by a folder sum
    // first, or was named as a channel earlier.
    assert forall|k: Seq<char>|
        touched(t, gs, n, k) && t.contains_key(k) && !folder_first(t, gs, n, k) implies exists|
            j: int,
        | 0 <= j < n && gs[j].child_uuid@ == k by {
        let i = choose|i: int|
            0 <= i < n && (adds_to(t, #[trigger] gs[i], k) || child_event(t, gs[i], k));
        if !child_event(t, gs[i], k) {
            assert(!(forall|j: int| 0 <= j < i ==> gs[j].child_uuid@ != k));
        }
    }
    assert forall|k: Seq<char>| !touched(t, gs, n, k) && t.contains_key(k) implies forall|j: int|
        0 <= j < n ==> gs[j].child_uuid@ != k by {
        assert forall|j: int| 0 <= j < n implies gs[j].child_uuid@ != k by {
            if gs[j].child_uuid@ == k {
                assert(child_event(t, gs[j], k));
            }
        }
    }
    assert forall|k: Seq<char>| #[trigger] after.contains_key(k) <==> expect.contains_key(k) by {}
    assert forall|k: Seq<char>| #[trigger] after.contains_key(k) implies after[k] == expect[k] by {
        if !touched(t, gs, n, k) {
            lemma_untouched(t, gs, n, k);
        }
    }
    assert(after =~= expect);
}

/// Placements that pass nothing on to `k` leave its folder sum at 0.
proof fn lemma_no_adds(t: Map<Seq<char>, int>, gs: Seq<MetaGroup>, n: int, k: Seq<char>)
    requires
        0 <= n <= gs.len(),
        forall|j: int| 0 <= j < n ==> !adds_to(t, #[trigger] gs[j], k),
    ensures
        folder_sum(t, gs, n, k) == 0,
        !folder_first(t, gs, n, k),
    decreases n,
{
    if n > 0 {
        lemma_no_adds(t, gs, n - 1, k);
    }
}

/// Every channel with unread articles has an entry among the totals.
pub proof fn lemma_unread_channel_listed(records: Seq<UnreadTotal>, groups: Seq<MetaGroup>, i: int)
    requires
        0 <= i < records.len(),
    ensures
        unread_totals(records, groups).contains_key(records[i].channel_uuid@),
{
    lemma_counts_map_dom(records, records[i].channel_uuid@);
}

/// A folder that is not itself a channel with unread articles shows the sum
/// of the counts of the channels placed in it.
pub proof fn lemma_folder_total(records: Seq<UnreadTotal>, groups: Seq<MetaGroup>, k: Seq<char>)
    requires
        unread_totals(records, groups).contains_key(k),
        !counts_map(records).contains_key(k),
    ensures
        unread_totals(records, groups)[k] == folder_sum(
            counts_map(records),
            groups,
            groups.len() as int,
            k,
        ),
{
}

/// A channel that no placement uses as a folder shows its own unread count:
/// that of the last record for its uuid.
pub proof fn lemma_channel_total(records: Seq<UnreadTotal>, groups: Seq<MetaGroup>, i: int)
    requires
        0 <= i < records.len(),
        forall|j: int|
            0 <= j < groups.len() ==> !adds_to(
                counts_map(records),
                #[trigger] groups[j],
                records[i].channel_uuid@,
            ),
    ensures
        unread_totals(records, groups)[records[i].channel_uuid@] == counts_map(
            records,
        )[records[i].channel_uuid@],
{
    let k = records[i].channel_uuid@;
    lemma_counts_map_dom(records, k);
    lemma_no_adds(counts_map(records), groups, groups.len() as int, k);
}

proof fn lemma_counts_map_nonneg(s: Seq<UnreadTotal>)
    requires
        forall|i: int| 0 <= i < s.len() ==> #[trigger] s[i].unread_count >= 0,
    ensures
        forall|k: Seq<char>| #[trigger] counts_map(s).contains_key(k) ==> counts_map(s)[k] >= 0,
    decreases s.len(),
{
    if s.len() > 0 {
        let d = s.drop_last();
        assert forall|i: int| 0 <= i < d.len() implies #[trigger] d[i].unread_count >= 0 by {
            assert(d[i] == s[i]);
        }
        lemma_counts_map_nonneg(d);
        assert(s.last() == s[s.len() - 1]);
        assert forall|k: Seq<char>| #[trigger] counts_map(s).contains_key(k) implies counts_map(s)[k]
            >= 0 by {
            if k != s.last().channel_uuid@ {
                assert(counts_map(d).contains_key(k));
            }
        }
    }
}

proof fn lemma_folder_sum_nonneg(t: Map<Seq<char>, int>, gs: Seq<MetaGroup>, n: int, k: Seq<char>)
    requires
        0 <= n <= gs.len(),
        forall|c: Seq<char>| #[trigger] t.contains_key(c) ==> t[c] >= 0,
    ensures
        folder_sum(t, gs, n, k) >= 0,
    decreases n,
{
    if n > 0 {
        lemma_folder_sum_nonneg(t, gs, n - 1, k);
    }
}

/// Unread totals are never negative when no unread count is.
pub proof fn lemma_unread_totals_nonneg(records: Seq<UnreadTotal>, groups: Seq<MetaGroup>, k: Seq<char>)
    requires
        forall|i: int| 0 <= i < records.len() ==> #[trigger] records[i].unread_count >= 0,
        unread_totals(records, groups).contains_key(k),
    ensures
        unread_totals(records, groups)[k] >= 0,
{
    lemma_counts_map_nonneg(records);
    lemma_folder_sum_nonneg(counts_map(records), groups, groups.len() as int, k);
}

/// The totals hold an entry for each channel with unread articles and for each
/// folder (a non-empty uuid) in which a placement puts such a channel, and
/// for nothing else.
pub proof fn lemma_unread_totals_keys(records: Seq<UnreadTotal>, groups: Seq<MetaGroup>, k: Seq<char>)
    ensures
        unread_totals(records, groups).contains_key(k) <==> ((exists|i: int|
            0 <= i < records.len() && (#[trigger] records[i]).channel_uuid@ == k) || (k.len() > 0
            && exists|j: int, i: int|
            0 <= j < groups.len() && 0 <= i < records.len() && (#[trigger] groups[j]).parent_uuid@
                == k && (#[trigger] records[i]).channel_uuid@ == groups[j].child_uuid@)),
{
    let t = counts_map(records);
    let n = groups.len() as int;
    lemma_counts_map_dom(records, k);
    if touched(t, groups, n, k) {
        let j = choose|j: int|
            0 <= j < n && (adds_to(t, #[trigger] groups[j], k) || child_event(t, groups[j], k));
        if adds_to(t, groups[j], k) {
            lemma_counts_map_dom(records, groups[j].child_uuid@);
            let i = choose|i: int|
                0 <= i < records.len() && #[trigger] records[i].channel_uuid@
                    == groups[j].child_uuid@;
            assert(0 <= j < groups.len() && 0 <= i < records.len() && groups[j].parent_uuid@ == k
                && records[i].channel_uuid@ == groups[j].child_uuid@);
        }
    }
    if k.len() > 0 && exists|j: int, i: int|
        0 <= j < groups.len() && 0 <= i < records.len() && (#[trigger] groups[j]).parent_uuid@
            == k && (#[trigger] records[i]).channel_uuid@ == groups[j].child_uuid@ {
        let (j, i) = choose|j: int, i: int|
            0 <= j < groups.len() && 0 <= i < records.len() && (#[trigger] groups[j]).parent_uuid@
                == k && (#[trigger] records[i]).channel_uuid@ == groups[j].child_uuid@;
        lemma_counts_map_dom(records, groups[j].child_uuid@);
        assert(records[i].channel_uuid@ == groups[j].child_uuid@);
        assert(adds_to(t, groups[j], k));
        assert(0 <= j < n && (adds_to(t, groups[j], k) || child_event(t, groups[j], k)));
    }
}

proof fn lemma_folder_sum_single(t: Map<Seq<char>, int>, gs: Seq<MetaGroup>, n: int, k: Seq<char>, j: int)
    requires
        0 <= n <= gs.len(),
        0 <= j < gs.len(),
        forall|l: int| 0 <= l < gs.len() && l != j ==> !adds_to(t, #[trigger] gs[l], k),
    ensures
        folder_sum(t, gs, n, k) == if j < n && adds_to(t, gs[j], k) {
            t[gs[j].child_uuid@]
        } else {
            0
        },
    decreases n,
{
    if n > 0 {
        lemma_folder_sum_single(t, gs, n - 1, k, j);
    }
}

/// A folder that holds a single channel with unread articles, and has none
/// of its own, shows that channel's count.
pub proof fn lemma_single_channel_folder(records: Seq<UnreadTotal>, groups: Seq<MetaGroup>, j: int)
    requires
        0 <= j < groups.len(),
        groups[j].parent_uuid@.len() > 0,
        counts_map(records).contains_key(groups[j].child_uuid@),
        !counts_map(records).contains_key(groups[j].parent_uuid@),
        forall|l: int|
            0 <= l < groups.len() && l != j && (#[trigger] groups[l]).parent_uuid@
                == groups[j].parent_uuid@ ==> !counts_map(records).contains_key(
                groups[l].child_uuid@,
            ),
    ensures
        unread_totals(records, groups).contains_key(groups[j].parent_uuid@),
        unread_totals(records, groups)[groups[j].parent_uuid@] == counts_map(
            records,
        )[groups[j].child_uuid@],
{
    let t = counts_map(records);
    let k = groups[j].parent_uuid@;
    assert forall|l: int| 0 <= l < groups.len() && l != j implies !adds_to(t, #[trigger] groups[l], k) by {}
    lemma_folder_sum_single(t, groups, groups.len() as int, k, j);
    assert(adds_to(t, groups[j], k));
    assert(0 <= j < groups.len() && (adds_to(t, groups[j], k) || child_event(t, groups[j], k)));
}

/// A channel's count is that of the last record for its uuid.
pub proof fn lemma_counts_map_last_wins(s: Seq<UnreadTotal>, i: int)
    requires
        0 <= i < s.len(),
        forall|l: int| i < l < s.len() ==> (#[trigger] s[l]).channel_uuid@ != s[i].channel_uuid@,
    ensures
        counts_map(s).contains_key(s[i].channel_uuid@),
        counts_map(s)[s[i].channel_uuid@] == s[i].unread_count as int,
    decreases s.len(),
{
    if i < s.len() - 1 {
        let d = s.drop_last();
        assert forall|l: int| i < l < d.len() implies (#[trigger] d[l]).channel_uuid@ != d[i].channel_uuid@ by {
            assert(d[l] == s[l]);
        }
        lemma_counts_map_last_wins(d, i);
        assert(d[i] == s[i]);
        assert(s[s.len() - 1].channel_uuid@ != s[i].channel_uuid@);
    }
}

/// When a placement puts a channel with unread articles into `k` before any
/// placement names `k` as a channel, the total of `k` is its folder sum only,
/// even if `k` has unread articles of its own.
pub proof fn lemma_folder_reached_first(records: Seq<UnreadTotal>, groups: Seq<MetaGroup>, j: int)
    requires
        0 <= j < groups.len(),
        groups[j].parent_uuid@.len() > 0,
        counts_map(records).contains_key(groups[j].child_uuid@),
        forall|l: int| 0 <= l < j ==> (#[trigger] groups[l]).child_uuid@ != groups[j].parent_uuid@,
    ensures
        unread_totals(records, groups).contains_key(groups[j].parent_uuid@),
        unread_totals(records, groups)[groups[j].parent_uuid@] == folder_sum(
            counts_map(records),
            groups,
            groups.len() as int,
            groups[j].parent_uuid@,
        ),
{
    let t = counts_map(records);
    let k = groups[j].parent_uuid@;
    assert(adds_to(t, groups[j], k));
    assert(folder_first(t, groups, groups.len() as int, k));
    assert(0 <= j < groups.len() && (adds_to(t, groups[j], k) || child_event(t, groups[j], k)));
}

/// When a placement names `k` (with unread articles) as a channel before any
/// placement puts a channel with unread articles into `k`, the total of `k`
/// is its own count plus its folder sum.
pub proof fn lemma_channel_named_first(records: Seq<UnreadTotal>, groups: Seq<MetaGroup>, j: int)
    requires
        0 <= j < groups.len(),
        counts_map(records).contains_key(groups[j].child_uuid@),
        forall|l: int|
            0 <= l <= j && (#[trigger] groups[l]).parent_uuid@ == groups[j].child_uuid@ ==> !counts_map(
                records,
            ).contains_key(groups[l].child_uuid@),
    ensures
        unread_totals(records, groups).contains_key(groups[j].child_uuid@),
        unread_totals(records, groups)[groups[j].child_uuid@] == folder_sum(
            counts_map(records),
            groups,
            groups.len() as int,
            groups[j].child_uuid@,
        ) + counts_map(records)[groups[j].child_uuid@],
{
    let t = counts_map(records);
    let k = groups[j].child_uuid@;
    if folder_first(t, groups, groups.len() as int, k) {
        let i = choose|i: int|
            0 <= i < groups.len() && #[trigger] adds_to(t, groups[i], k) && forall|l: int|
                0 <= l < i ==> groups[l].child_uuid@ != k;
        if i <= j {
            assert(!t.contains_key(groups[i].child_uuid@));
        } else {
            assert(groups[j].child_uuid@ != k);
        }
    }
}

/// Totals depend on the unread records only through the counts they give:
/// records that give the same counts give the same totals.
pub proof fn lemma_unread_totals_same_counts(
    records1: Seq<UnreadTotal>,
    records2: Seq<UnreadTotal>,
    groups: Seq<MetaGroup>,
)
    requires
        counts_map(records1) == counts_map(records2),
    ensures
        unread_totals(records1, groups) == unread_totals(records2, groups),
{
}

/// The count of `c`, or 0 when it has none.
pub open spec fn count_or_zero(m: Map<Seq<char>, int>, c: Seq<char>) -> int {
    if m.contains_key(c) {
        m[c]
    } else {
        0
    }
}

/// One more unread article of `c` adds one to the sum of the folder that
/// holds `c` (placement `i`), and nothing to other sums.
proof fn lemma_folder_sum_bump(
    t: Map<Seq<char>, int>,
    t2: Map<Seq<char>, int>,
    gs: Seq<MetaGroup>,
    n: int,
    k: Seq<char>,
    i: int,
    c: Seq<char>,
    p: Seq<char>,
)
    requires
        0 <= n <= gs.len(),
        0 <= i < gs.len(),
        gs[i].child_uuid@ == c,
        gs[i].parent_uuid@ == p,
        p.len() > 0,
        forall|j: int| 0 <= j < gs.len() && j != i ==> #[trigger] gs[j].child_uuid@ != c,
        t2 == t.insert(c, count_or_zero(t, c) + 1),
    ensures
        folder_sum(t2, gs, n, k) == folder_sum(t, gs, n, k) + if k == p && i < n {
            1int
        } else {
            0int
        },
    decreases n,
{
    if n > 0 {
        lemma_folder_sum_bump(t, t2, gs, n - 1, k, i, c, p);
        let g = gs[n - 1];
        if n - 1 != i {
            assert(g.child_uuid@ != c);
        }
    }
}

/// Without folders that have counts of their own, the own count of a key is
/// simply its count.
proof fn lemma_own_count_plain(t: Map<Seq<char>, int>, gs: Seq<MetaGroup>, k: Seq<char>)
    requires
        forall|j: int|
            0 <= j < gs.len() && (#[trigger] gs[j]).parent_uuid@.len() > 0 ==> !t.contains_key(
                gs[j].parent_uuid@,
            ),
    ensures
        own_count(t, gs, gs.len() as int, k) == count_or_zero(t, k),
{
    if t.contains_key(k) && folder_first(t, gs, gs.len() as int, k) {
        let j = choose|j: int|
            0 <= j < gs.len() && #[trigger] adds_to(t, gs[j], k) && forall|l: int|
                0 <= l < j ==> gs[l].child_uuid@ != k;
        assert(gs[j].parent_uuid@.len() > 0);
    }
}

/// One more unread article of the channel `c` raises the total of `c` and
/// the total of the folder `p` that holds it by one, and leaves every other
/// total as it was.
///
/// This holds when `c` has a single placement (`groups[i]`), in the folder
/// `p`, and no folder has unread articles of its own, before or after.
/// `records2` are the unread records once the article is added: they give `c`
/// one more than `records` did (1 when it had none).
pub proof fn lemma_unread_article_added(
    records: Seq<UnreadTotal>,
    records2: Seq<UnreadTotal>,
    groups: Seq<MetaGroup>,
    i: int,
    c: Seq<char>,
    p: Seq<char>,
)
    requires
        0 <= i < groups.len(),
        groups[i].child_uuid@ == c,
        groups[i].parent_uuid@ == p,
        p.len() > 0,
        forall|j: int| 0 <= j < groups.len() && j != i ==> #[trigger] groups[j].child_uuid@ != c,
        forall|j: int|
            0 <= j < groups.len() && (#[trigger] groups[j]).parent_uuid@.len() > 0 ==> !counts_map(
                records,
            ).contains_key(groups[j].parent_uuid@) && groups[j].parent_uuid@ != c,
        counts_map(records2) == counts_map(records).insert(
            c,
            count_or_zero(counts_map(records), c) + 1,
        ),
    ensures
        ({
            let r1 = unread_totals(records, groups);
            let r2 = unread_totals(records2, groups);
            &&& r2.contains_key(c)
            &&& r2[c] == count_or_zero(r1, c) + 1
            &&& r2.contains_key(p)
            &&& r2[p] == count_or_zero(r1, p) + 1
            &&& forall|k: Seq<char>|
                k != c && k != p ==> (#[trigger] r2.contains_key(k) == r1.contains_key(k) && (
                r1.contains_key(k) ==> r2[k] == r1[k]))
        }),
{
    let t = counts_map(records);
    let t2 = counts_map(records2);
    let n = groups.len() as int;
    let r1 = unread_totals(records, groups);
    let r2 = unread_totals(records2, groups);
    assert forall|j: int|
        0 <= j < groups.len() && (#[trigger] groups[j]).parent_uuid@.len() > 0 implies !t2.contains_key(
        groups[j].parent_uuid@,
    ) by {}
    // The placement of `c` touches both `c` and `p` once `c` is counted.
    assert(adds_to(t2, groups[i], p) && child_event(t2, groups[i], c));
    assert(touched(t2, groups, n, p));
    // Keys other than `c` and `p` are touched alike.
    assert forall|k: Seq<char>| k != c && k != p implies touched(t2, groups, n, k) == touched(
        t,
        groups,
        n,
        k,
    ) by {
        if touched(t2, groups, n, k) {
            let j = choose|j: int|
                0 <= j < n && (adds_to(t2, #[trigger] groups[j], k) || child_event(t2, groups[j], k));
            assert(j != i);
            assert(groups[j].child_uuid@ != c);
            assert(0 <= j < n && (adds_to(t, groups[j], k) || child_event(t, groups[j], k)));
        }
        if touched(t, groups, n, k) {
            let j = choose|j: int|
                0 <= j < n && (adds_to(t, #[trigger] groups[j], k) || child_event(t, groups[j], k));
            assert(j != i);
            assert(groups[j].child_uuid@ != c);
            assert(0 <= j < n && (adds_to(t2, groups[j], k) || child_event(t2, groups[j], k)));
        }
    }
    assert forall|k: Seq<char>| #[trigger] r2.contains_key(k) implies r2[k] == folder_sum(
        t,
        groups,
        n,
        k,
    ) + (if k == p { 1int } else { 0int }) + count_or_zero(t2, k) by {
        lemma_folder_sum_bump(t, t2, groups, n, k, i, c, p);
        lemma_own_count_plain(t2, groups, k);
    }
    assert forall|k: Seq<char>| #[trigger] r1.contains_key(k) implies r1[k] == folder_sum(
        t,
        groups,
        n,
        k,
    ) + count_or_zero(t, k) by {
        lemma_own_count_plain(t, groups, k);
    }
    // A key without a total has neither a folder sum nor a count.
    if !r1.contains_key(c) {
        lemma_untouched(t, groups, n, c);
    }
    if !r1.contains_key(p) {
        lemma_untouched(t, groups, n, p);
    }
    assert(!t.contains_key(p));
    assert(r2.contains_key(p));
    assert(r2.contains_key(c));
    assert(r2[c] == count_or_zero(r1, c) + 1);
    assert(r2[p] == count_or_zero(r1, p) + 1);
    assert forall|k: Seq<char>| k != c && k != p implies (#[trigger] r2.contains_key(k)
        == r1.contains_key(k) && (r1.contains_key(k) ==> r2[k] == r1[k])) by {
        assert(t2.contains_key(k) == t.contains_key(k));
        if r1.contains_key(k) {
            assert(r2.contains_key(k));
            assert(count_or_zero(t2, k) == count_or_zero(t, k));
        }
    }
}

// ---------------------------------------------------------------------------
// Executable part.
// ---------------------------------------------------------------------------

/// The count stored under `key`, if any.
fn get_count(entries: &Vec<UnreadTotal>, key: &String) -> (res: Option<i32>)
    requires
        unique_keys(entries@),
    ensures
        res is Some <==> counts_map(entries@).contains_key(key@),
        res matches Some(c) ==> counts_map(entries@)[key@] == c as int,
{
    let mut i: usize = 0;
    while i < entries.len()
        invariant
            unique_keys(entries@),
            i <= entries.len(),
            forall|j: int| 0 <= j < i ==> #[trigger] entries@[j].channel_uuid@ != key@,
        decreases entries.len() - i,
    {
        if entries[i].channel_uuid == *key {
            proof {
                lemma_counts_map_value(entries@, i as int);
            }
            return Some(entries[i].unread_count);
        }
        i += 1;
    }
    proof {
        lemma_counts_map_dom(entries@, key@);
    }
    None
}

/// Stores `count` under `key`, replacing what was there.
fn set_count(entries: &mut Vec<UnreadTotal>, key: String, count: i32)
    requires
        unique_keys(old(entries)@),
    ensures
        unique_keys(final(entries)@),
        counts_map(final(entries)@) == counts_map(old(entries)@).insert(key@, count as int),
{
    let mut i: usize = 0;
    while i < entries.len()
        invariant
            unique_keys(entries@),
            entries@ == old(entries)@,
            i <= entries.len(),
            forall|j: int| 0 <= j < i ==> #[trigger] entries@[j].channel_uuid@ != key@,
        decreases entries.len() - i,
    {
        if entries[i].channel_uuid == key {
            let e = UnreadTotal { channel_uuid: key, unread_count: count };
            proof {
                lemma_counts_map_update(entries@, i as int, e);
            }
            entries.set(i, e);
            return;
        }
        i += 1;
    }
    proof {
        lemma_counts_map_dom(entries@, key@);
    }
    let e = UnreadTotal { channel_uuid: key, unread_count: count };
    proof {
        lemma_counts_map_push(entries@, e);
    }
    entries.push(e);
}

/// The values of a list of counts are `i32` values.
proof fn lemma_counts_map_bounded(s: Seq<UnreadTotal>)
    ensures
        forall|k: Seq<char>| #[trigger] counts_map(s).contains_key(k) ==> i32::MIN <= counts_map(s)[k] <= i32::MAX,
    decreases s.len(),
{
    if s.len() > 0 {
        lemma_counts_map_bounded(s.drop_last());
        assert forall|k: Seq<char>| #[trigger] counts_map(s).contains_key(k) implies i32::MIN
            <= counts_map(s)[k] <= i32::MAX by {
            if k != s.last().channel_uuid@ {
                assert(counts_map(s.drop_last()).contains_key(k));
            }
        }
    }
}

/// The unread totals, or `None` when a sum on the way leaves the `i32` range.
fn unread_fold(records: &Vec<UnreadTotal>, groups: &Vec<MetaGroup>) -> (res: Option<Vec<UnreadTotal>>)
    ensures
        res is Some <==> sums_fit(records@, groups@),
        res matches Some(v) ==> unique_keys(v@) && counts_map(v@) == unread_totals(records@, groups@),
{
    // Each channel's count, a later record for a uuid replacing an earlier one.
    let mut totals: Vec<UnreadTotal> = Vec::new();
    let mut i: usize = 0;
    while i < records.len()
        invariant
            i <= records.len(),
            unique_keys(totals@),
            counts_map(totals@) == counts_map(records@.take(i as int)),
        decreases records.len() - i,
    {
        let r = &records[i];
        set_count(&mut totals, r.channel_uuid.clone(), r.unread_count);
        proof {
            assert(records@.take(i + 1).drop_last() =~= records@.take(i as int));
        }
        i += 1;
    }
    proof {
        assert(records@.take(records.len() as int) =~= records@);
    }
    let ghost t = counts_map(records@);
    let ghost gs = groups@;

    // Walk the placements.
    let mut result: Vec<UnreadTotal> = Vec::new();
    let mut n: usize = 0;
    proof {
        assert(placement_totals(t, gs, 0) =~= Map::empty());
    }
    while n < groups.len()
        invariant
            n <= groups.len(),
            gs == groups@,
            t == counts_map(records@),
            unique_keys(totals@),
            counts_map(totals@) == t,
            unique_keys(result@),
            counts_map(result@) == placement_totals(t, gs, n as int),
            forall|m: int, k: Seq<char>|
                0 <= m <= n && #[trigger] placement_totals(t, gs, m).contains_key(k) ==> i32::MIN
                    <= placement_totals(t, gs, m)[k] <= i32::MAX,
        decreases groups.len() - n,
    {
        let g = &groups[n];
        proof {
            lemma_placement_step(t, gs, n as int);
        }
        match get_count(&totals, &g.child_uuid) {
            Some(count) => {
                if !g.parent_uuid.as_str().is_empty() {
                    let base = match get_count(&result, &g.parent_uuid) {
                        Some(c) => c,
                        None => 0,
                    };
                    match base.checked_add(count) {
                        Some(sum) => {
                            set_count(&mut result, g.parent_uuid.clone(), sum);
                        },
                        None => {
                            proof {
                                let after = placement_totals(t, gs, n + 1);
                                assert(after.contains_key(g.parent_uuid@));
                                assert(!(i32::MIN <= after[g.parent_uuid@] <= i32::MAX));
                                assert(0 <= n + 1 <= gs.len());
                            }
                            return None;
                        },
                    }
                }
                if get_count(&result, &g.child_uuid).is_none() {
                    set_count(&mut result, g.child_uuid.clone(), count);
                }
            },
            None => {},
        }
        proof {
            lemma_counts_map_bounded(result@);
            assert forall|m: int, k: Seq<char>|
                0 <= m <= n + 1 && #[trigger] placement_totals(t, gs, m).contains_key(k) implies i32::MIN
                    <= placement_totals(t, gs, m)[k] <= i32::MAX by {
                if m == n + 1 {
                    assert(counts_map(result@).contains_key(k));
                }
            }
        }
        n += 1;
    }
    assert(sums_fit(records@, groups@));

    // Channels that no placement named get their own count.
    let ghost m = gs.len() as int;
    let mut i: usize = 0;
    while i < records.len()
        invariant
            i <= records.len(),
            gs == groups@,
            m == gs.len(),
            t == counts_map(records@),
            unique_keys(totals@),
            counts_map(totals@) == t,
            unique_keys(result@),
            counts_map(result@) == Map::new(
                |k: Seq<char>|
                    touched(t, gs, m, k) || (exists|j: int|
                        0 <= j < i && #[trigger] records@[j].channel_uuid@ == k),
                |k: Seq<char>| folder_sum(t, gs, m, k) + own_count(t, gs, m, k),
            ),
        decreases records.len() - i,
    {
        let r = &records[i];
        let ghost key = r.channel_uuid@;
        proof {
            lemma_counts_map_dom(records@, key);
        }
        match get_count(&totals, &r.channel_uuid) {
            Some(count) => {
                if get_count(&result, &r.channel_uuid).is_none() {
                    proof {
                        lemma_untouched(t, gs, m, key);
                    }
                    set_count(&mut result, r.channel_uuid.clone(), count);
                }
            },
            None => {},
        }
        proof {
            let expect = Map::new(
                |k: Seq<char>|
                    touched(t, gs, m, k) || (exists|j: int|
                        0 <= j < i + 1 && #[trigger] records@[j].channel_uuid@ == k),
                |k: Seq<char>| folder_sum(t, gs, m, k) + own_count(t, gs, m, k),
            );
            assert forall|k: Seq<char>| #[trigger] expect.contains_key(k) implies counts_map(
                result@,
            ).contains_key(k) by {
                if !touched(t, gs, m, k) && !(exists|j: int|
                    0 <= j < i && #[trigger] records@[j].channel_uuid@ == k) {
                    let j = choose|j: int|
                        0 <= j < i + 1 && #[trigger] records@[j].channel_uuid@ == k;
                    assert(j == i);
                }
            }
            assert forall|k: Seq<char>| #[trigger] counts_map(result@).contains_key(k) implies expect.contains_key(k) by {
                if k != key {
                    if exists|j: int| 0 <= j < i && #[trigger] records@[j].channel_uuid@ == k {
                        let j = choose|j: int| 0 <= j < i && #[trigger] records@[j].channel_uuid@ == k;
                        assert(0 <= j < i + 1 && records@[j].channel_uuid@ == k);
                    }
                } else {
                    assert(0 <= i < i + 1 && records@[i as int].channel_uuid@ == k);
                }
            }
            assert(counts_map(result@) =~= expect);
        }
        i += 1;
    }
    proof {
        let want = unread_totals(records@, groups@);
        let got = counts_map(result@);
        assert forall|k: Seq<char>| #[trigger] got.contains_key(k) <==> want.contains_key(k) by {
            lemma_counts_map_dom(records@, k);
        }
        assert forall|k: Seq<char>| #[trigger] got.contains_key(k) implies got[k] == want[k] by {}
        assert(counts_map(result@) =~= want);
    }
    Some(result)
}

/// Whether every sum met while the unread totals are computed fits in an
/// `i32`, which `get_unread_total` needs.
pub fn unread_sums_fit(records: &Vec<UnreadTotal>, groups: &Vec<MetaGroup>) -> (res: bool)
    ensures
        res == sums_fit(records@, groups@),
{
    unread_fold(records, groups).is_some()
}

/// The unread totals of channels and folders.
///
/// `records` holds each channel's unread count; `groups` the placements of
/// channels in folders, in the order the query returned them. The result has
/// one entry per uuid, and the map it stands for is `unread_totals`.
pub fn get_unread_total(records: &Vec<UnreadTotal>, groups: &Vec<MetaGroup>) -> (res: Vec<
    UnreadTotal,
>)
    requires
        sums_fit(records@, groups@),
    ensures
        unique_keys(res@),
        counts_map(res@) == unread_totals(records@, groups@),
        forall|k: Seq<char>|
            #[trigger] counts_map(res@).contains_key(k) <==> ((exists|i: int|
                0 <= i < records@.len() && (#[trigger] records@[i]).channel_uuid@ == k) || (k.len()
                > 0 && exists|j: int, i: int|
                0 <= j < groups@.len() && 0 <= i < records@.len() && (#[trigger] groups@[j]).parent_uuid@
                    == k && (#[trigger] records@[i]).channel_uuid@ == groups@[j].child_uuid@)),
{
    proof {
        assert forall|k: Seq<char>| #[trigger] unread_totals(records@, groups@).contains_key(k) <==> ((exists|i: int|
                0 <= i < records@.len() && (#[trigger] records@[i]).channel_uuid@ == k) || (k.len()
                > 0 && exists|j: int, i: int|
                0 <= j < groups@.len() && 0 <= i < records@.len() && (#[trigger] groups@[j]).parent_uuid@
                    == k && (#[trigger] records@[i]).channel_uuid@ == groups@[j].child_uuid@)) by {
            lemma_unread_totals_keys(records@, groups@, k);
        }
    }
    match unread_fold(records, groups) {
        Some(v) => v,
        None => Vec::new(),
    }
}

} // verus!

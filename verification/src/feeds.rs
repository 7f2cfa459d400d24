use vstd::prelude::*;

use crate::records::{
    child_views, item_views, Channel, ChildItem, ChildItemView, FeedItem, FeedItemView,
    FeedJoinRecord, Folder,
};

verus! {

// ---------------------------------------------------------------------------
// Order of the feed list.
// ---------------------------------------------------------------------------

/// The entries in `s` whose position is `k`, in their order in `s`.
pub open spec fn with_sort(s: Seq<FeedItemView>, k: i32) -> Seq<FeedItemView> {
    s.filter(|x: FeedItemView| x.sort == k)
}

/// The entries come in ascending order of position.
pub open spec fn sorted_by_sort(s: Seq<FeedItemView>) -> bool {
    forall|i: int, j: int| 0 <= i <= j < s.len() ==> s[i].sort <= s[j].sort
}

/// `r` is `s` ordered by position, entries with the same position kept in the
/// order they have in `s`.
pub open spec fn stable_sorted(r: Seq<FeedItemView>, s: Seq<FeedItemView>) -> bool {
    &&& sorted_by_sort(r)
    &&& forall|k: i32| #[trigger] with_sort(r, k) == with_sort(s, k)
}

proof fn lemma_with_sort_push(s: Seq<FeedItemView>, x: FeedItemView, k: i32)
    ensures
        with_sort(s.push(x), k) == if x.sort == k {
            with_sort(s, k).push(x)
        } else {
            with_sort(s, k)
        },
{
    reveal(Seq::filter);
    assert(s.push(x).drop_last() =~= s);
}

proof fn lemma_with_sort_none(s: Seq<FeedItemView>, k: i32)
    requires
        forall|i: int| 0 <= i < s.len() ==> s[i].sort != k,
    ensures
        with_sort(s, k) == Seq::<FeedItemView>::empty(),
    decreases s.len(),
{
    reveal(Seq::filter);
    if s.len() > 0 {
        lemma_with_sort_none(s.drop_last(), k);
    }
}

proof fn lemma_with_sort_add(a: Seq<FeedItemView>, b: Seq<FeedItemView>, k: i32)
    ensures
        with_sort(a + b, k) == with_sort(a, k) + with_sort(b, k),
{
    Seq::filter_distributes_over_add(a, b, |x: FeedItemView| x.sort == k);
}

proof fn lemma_with_sort_single(x: FeedItemView, k: i32)
    ensures
        with_sort(seq![x], k) == if x.sort == k {
            seq![x]
        } else {
            Seq::<FeedItemView>::empty()
        },
{
    lemma_with_sort_push(Seq::<FeedItemView>::empty(), x, k);
    assert(Seq::<FeedItemView>::empty().push(x) =~= seq![x]);
    lemma_with_sort_none(Seq::<FeedItemView>::empty(), k);
}

/// Inserting `x` right after the entries whose position is at most its own
/// keeps a sorted list sorted and appends `x` to the entries of its position.
proof fn lemma_insert_sorted(s: Seq<FeedItemView>, p: int, x: FeedItemView)
    requires
        sorted_by_sort(s),
        0 <= p <= s.len(),
        forall|i: int| 0 <= i < p ==> s[i].sort <= x.sort,
        forall|i: int| p <= i < s.len() ==> s[i].sort > x.sort,
    ensures
        sorted_by_sort(s.insert(p, x)),
        forall|k: i32|
            #[trigger] with_sort(s.insert(p, x), k) == if x.sort == k {
                with_sort(s, k).push(x)
            } else {
                with_sort(s, k)
            },
{
    let t = s.insert(p, x);
    let a = s.take(p);
    let b = s.skip(p);
    assert(s =~= a + b);
    assert(t =~= a + seq![x] + b);
    assert forall|k: i32|
        #[trigger] with_sort(t, k) == if x.sort == k {
            with_sort(s, k).push(x)
        } else {
            with_sort(s, k)
        } by {
        lemma_with_sort_add(a + seq![x], b, k);
        lemma_with_sort_add(a, seq![x], k);
        lemma_with_sort_add(a, b, k);
        lemma_with_sort_single(x, k);
        if x.sort == k {
            lemma_with_sort_none(b, k);
            assert(with_sort(a, k) + seq![x] =~= with_sort(a, k).push(x));
            assert(with_sort(a, k) + Seq::<FeedItemView>::empty() =~= with_sort(a, k));
            assert(with_sort(a, k) + seq![x] + Seq::<FeedItemView>::empty() =~= with_sort(
                a,
                k,
            ) + seq![x]);
        } else {
            assert(with_sort(a, k) + Seq::<FeedItemView>::empty() =~= with_sort(a, k));
        }
    }
}

/// An entry with position `k` shows up among the entries of position `k`.
proof fn lemma_with_sort_has(s: Seq<FeedItemView>, i: int)
    requires
        0 <= i < s.len(),
    ensures
        with_sort(s, s[i].sort).contains(s[i]),
{
    s.lemma_filter_contains(|x: FeedItemView| x.sort == s[i].sort, i);
}

/// The entries of position `k` all have position `k` and come from `s`.
proof fn lemma_with_sort_from(s: Seq<FeedItemView>, k: i32, j: int)
    requires
        0 <= j < with_sort(s, k).len(),
    ensures
        with_sort(s, k)[j].sort == k,
        s.contains(with_sort(s, k)[j]),
{
    let p = |x: FeedItemView| x.sort == k;
    s.lemma_filter_pred(p, j);
    assert(s.filter(p).contains(s.filter(p)[j]));
    s.lemma_filter_contains_rev(p, s.filter(p)[j]);
}

/// Two lists ordered by position that agree on the entries of each position
/// are the same list.
proof fn lemma_same_positions_same_list(a: Seq<FeedItemView>, b: Seq<FeedItemView>)
    requires
        sorted_by_sort(a),
        sorted_by_sort(b),
        forall|k: i32| #[trigger] with_sort(a, k) == with_sort(b, k),
    ensures
        a == b,
    decreases a.len() + b.len(),
{
    if a.len() == 0 && b.len() == 0 {
        assert(a =~= b);
    } else if a.len() == 0 {
        lemma_with_sort_has(b, 0);
        assert(with_sort(a, b[0].sort).len() > 0);
        lemma_with_sort_from(a, b[0].sort, 0);
    } else if b.len() == 0 {
        lemma_with_sort_has(a, 0);
        assert(with_sort(b, a[0].sort).len() > 0);
        lemma_with_sort_from(b, a[0].sort, 0);
    } else {
        let ma = a.last().sort;
        let mb = b.last().sort;
        // The last positions agree.
        lemma_with_sort_has(a, a.len() - 1);
        let ja = choose|j: int| 0 <= j < with_sort(b, ma).len() && with_sort(b, ma)[j] == a.last();
        lemma_with_sort_from(b, ma, ja);
        lemma_with_sort_has(b, b.len() - 1);
        let jb = choose|j: int| 0 <= j < with_sort(a, mb).len() && with_sort(a, mb)[j] == b.last();
        lemma_with_sort_from(a, mb, jb);
        assert(ma == mb);
        // So do the last entries.
        assert(a.drop_last().push(a.last()) =~= a);
        assert(b.drop_last().push(b.last()) =~= b);
        lemma_with_sort_push(a.drop_last(), a.last(), ma);
        lemma_with_sort_push(b.drop_last(), b.last(), mb);
        assert(with_sort(a, ma).last() == a.last());
        assert(with_sort(b, ma).last() == b.last());
        // And what comes before them.
        assert forall|k: i32| #[trigger] with_sort(a.drop_last(), k) == with_sort(b.drop_last(), k) by {
            lemma_with_sort_push(a.drop_last(), a.last(), k);
            lemma_with_sort_push(b.drop_last(), b.last(), k);
            if k == ma {
                assert(with_sort(a.drop_last(), k) =~= with_sort(a, k).drop_last());
                assert(with_sort(b.drop_last(), k) =~= with_sort(b, k).drop_last());
            }
        }
        lemma_same_positions_same_list(a.drop_last(), b.drop_last());
        assert(a =~= b);
    }
}

/// The order of the feed list is fully determined: there is one list only that
/// is ordered by position and keeps the order of entries of equal position.
pub proof fn lemma_stable_sorted_unique(a: Seq<FeedItemView>, b: Seq<FeedItemView>, s: Seq<FeedItemView>)
    requires
        stable_sorted(a, s),
        stable_sorted(b, s),
    ensures
        a == b,
{
    assert forall|k: i32| #[trigger] with_sort(a, k) == with_sort(b, k) by {
        assert(with_sort(a, k) == with_sort(s, k));
        assert(with_sort(b, k) == with_sort(s, k));
    }
    lemma_same_positions_same_list(a, b);
}

/// Orders feed entries by position; entries with the same position keep
/// their order.
pub fn sort_feed_items(items: Vec<FeedItem>) -> (res: Vec<FeedItem>)
    ensures
        stable_sorted(item_views(res@), item_views(items@)),
        item_views(res@).to_multiset() == item_views(items@).to_multiset(),
{
    let ghost orig = item_views(items@);
    let mut rest = items;
    let mut res: Vec<FeedItem> = Vec::new();
    let ghost done: int = 0;
    proof {
        assert(item_views(res@) =~= Seq::<FeedItemView>::empty());
        assert(orig.take(0) =~= Seq::<FeedItemView>::empty());
        assert forall|k: i32| #[trigger] with_sort(item_views(res@), k) == with_sort(orig.take(0), k) by {
        }
    }
    while rest.len() > 0
        invariant
            0 <= done <= orig.len(),
            item_views(rest@) == orig.skip(done),
            sorted_by_sort(item_views(res@)),
            forall|k: i32| #[trigger] with_sort(item_views(res@), k) == with_sort(orig.take(done), k),
            item_views(res@).to_multiset() == orig.take(done).to_multiset(),
        decreases rest.len(),
    {
        let ghost old_rest = rest@;
        let x = rest.remove(0);
        proof {
            assert(item_views(old_rest).len() == old_rest.len());
            assert(orig.skip(done).len() > 0);
            assert(orig[done] == orig.skip(done)[0]);
            assert(item_views(old_rest)[0] == x@);
            assert(orig[done] == x@);
            assert forall|i: int| 0 <= i < rest@.len() implies #[trigger] item_views(rest@)[i]
                == orig.skip(done + 1)[i] by {
                assert(rest@[i] == old_rest[i + 1]);
                assert(item_views(old_rest)[i + 1] == orig.skip(done)[i + 1]);
            }
            assert(item_views(rest@) =~= orig.skip(done + 1));
        }
        let mut p: usize = 0;
        while p < res.len() && res[p].sort <= x.sort
            invariant
                p <= res.len(),
                forall|i: int| 0 <= i < p ==> item_views(res@)[i].sort <= x.sort,
            decreases res.len() - p,
        {
            p += 1;
        }
        proof {
            let v = item_views(res@);
            assert forall|i: int| p <= i < v.len() implies v[i].sort > x.sort by {
                assert(v[p as int].sort > x.sort);
                assert(v[p as int].sort <= v[i].sort);
            }
            lemma_insert_sorted(v, p as int, x@);
            assert forall|k: i32| #[trigger] with_sort(orig.take(done + 1), k) == if x@.sort == k {
                with_sort(orig.take(done), k).push(x@)
            } else {
                with_sort(orig.take(done), k)
            } by {
                assert(orig.take(done + 1) =~= orig.take(done).push(x@));
                lemma_with_sort_push(orig.take(done), x@, k);
            }
        }
        let ghost before = res@;
        res.insert(p, x);
        proof {
            assert(item_views(res@) =~= item_views(before).insert(p as int, x@));
            vstd::seq_lib::to_multiset_insert(item_views(before), p as int, x@);
            assert(orig.take(done + 1) =~= orig.take(done).push(x@));
            vstd::seq_lib::to_multiset_build(orig.take(done), x@);
            done = done + 1;
        }
    }
    proof {
        assert(orig.take(done) =~= orig);
    }
    res
}

// ---------------------------------------------------------------------------
// The feed list.
// ---------------------------------------------------------------------------

/// The entry that a channel placed in a folder gets inside that folder.
pub open spec fn child_entry(r: FeedJoinRecord) -> ChildItemView {
    ChildItemView {
        item_type: "channel"@,
        uuid: r.uuid@,
        title: r.title@,
        sort: r.sort,
        link: Some(r.link@),
    }
}

/// The channels placed in the folder `folder`, in the order of `records`.
pub open spec fn folder_children(records: Seq<FeedJoinRecord>, folder: Seq<char>) -> Seq<
    ChildItemView,
> {
    records.filter_map(
        |r: FeedJoinRecord|
            if r.parent_uuid@ == folder {
                Some(child_entry(r))
            } else {
                None
            },
    )
}

/// The top-level entry of a folder, with the channels placed in it.
pub open spec fn folder_entry(f: Folder, records: Seq<FeedJoinRecord>) -> FeedItemView {
    FeedItemView {
        item_type: "folder"@,
        uuid: f.uuid@,
        title: f.name@,
        sort: f.sort,
        children: Some(folder_children(records, f.uuid@)),
        parent_uuid: Seq::empty(),
        link: Some(Seq::empty()),
    }
}

/// The top-level entry of a channel outside every folder.
pub open spec fn channel_entry(c: Channel) -> FeedItemView {
    FeedItemView {
        item_type: "channel"@,
        uuid: c.uuid@,
        title: c.title@,
        sort: c.sort,
        children: Some(Seq::empty()),
        parent_uuid: Seq::empty(),
        link: Some(c.link@),
    }
}

/// The top-level entries before ordering: the folders, then the channels.
pub open spec fn feed_entries(
    records: Seq<FeedJoinRecord>,
    folders: Seq<Folder>,
    channels: Seq<Channel>,
) -> Seq<FeedItemView> {
    folders.map_values(|f: Folder| folder_entry(f, records)) + channels.map_values(
        |c: Channel| channel_entry(c),
    )
}

/// The entry built from one channel row of a folder, written out field by field.
pub open spec fn is_child_of_row(c: ChildItemView, r: FeedJoinRecord) -> bool {
    &&& c.item_type == "channel"@
    &&& c.uuid == r.uuid@
    &&& c.title == r.title@
    &&& c.sort == r.sort
    &&& c.link == Some(r.link@)
}

/// The channels shown inside a folder are exactly its rows: each child
/// carries the uuid, title, position and link of a row placed in that folder,
/// each such row has its child, there are no more children than rows, and the
/// last row, when it is placed in the folder, gives the last child.
pub proof fn lemma_folder_children_rows(records: Seq<FeedJoinRecord>, folder: Seq<char>)
    ensures
        folder_children(records, folder).len() <= records.len(),
        forall|j: int|
            #![trigger folder_children(records, folder)[j]]
            0 <= j < folder_children(records, folder).len() ==> exists|i: int|
                0 <= i < records.len() && (#[trigger] records[i]).parent_uuid@ == folder
                    && is_child_of_row(folder_children(records, folder)[j], records[i]),
        forall|i: int|
            0 <= i < records.len() && (#[trigger] records[i]).parent_uuid@ == folder ==> exists|
                j: int,
            |
                0 <= j < folder_children(records, folder).len() && is_child_of_row(
                    #[trigger] folder_children(records, folder)[j],
                    records[i],
                ),
        records.len() > 0 && records.last().parent_uuid@ == folder ==> {
            let fc = folder_children(records, folder);
            fc.len() > 0 && is_child_of_row(fc[fc.len() - 1], records.last())
        },
    decreases records.len(),
{
    if records.len() > 0 {
        let d = records.drop_last();
        let l = records.last();
        lemma_folder_children_rows(d, folder);
        let fd = folder_children(d, folder);
        let fc = folder_children(records, folder);
        assert forall|i: int| 0 <= i < d.len() implies #[trigger] d[i] == records[i] by {}
        if l.parent_uuid@ == folder {
            assert(fc == fd + seq![child_entry(l)]);
            assert forall|j: int| #![trigger fc[j]] 0 <= j < fc.len() implies exists|i: int|
                0 <= i < records.len() && (#[trigger] records[i]).parent_uuid@ == folder
                    && is_child_of_row(fc[j], records[i]) by {
                if j < fd.len() {
                    assert(fc[j] == fd[j]);
                    let i = choose|i: int|
                        0 <= i < d.len() && (#[trigger] d[i]).parent_uuid@ == folder
                            && is_child_of_row(fd[j], d[i]);
                    assert(records[i] == d[i]);
                } else {
                    assert(records[records.len() - 1] == l);
                }
            }
            assert forall|i: int| 0 <= i < records.len() && (#[trigger] records[i]).parent_uuid@ == folder implies exists|
                j: int,
            | 0 <= j < fc.len() && is_child_of_row(#[trigger] fc[j], records[i]) by {
                if i < d.len() {
                    assert(d[i] == records[i]);
                    let j = choose|j: int| 0 <= j < fd.len() && is_child_of_row(#[trigger] fd[j], d[i]);
                    assert(fc[j] == fd[j]);
                } else {
                    assert(fc[fc.len() - 1] == child_entry(l));
                    assert(is_child_of_row(fc[fc.len() - 1], records[i]));
                }
            }
        } else {
            assert(fc == fd);
            assert forall|j: int| #![trigger fc[j]] 0 <= j < fc.len() implies exists|i: int|
                0 <= i < records.len() && (#[trigger] records[i]).parent_uuid@ == folder
                    && is_child_of_row(fc[j], records[i]) by {
                let i = choose|i: int|
                    0 <= i < d.len() && (#[trigger] d[i]).parent_uuid@ == folder
                        && is_child_of_row(fd[j], d[i]);
                assert(records[i] == d[i]);
            }
            assert forall|i: int| 0 <= i < records.len() && (#[trigger] records[i]).parent_uuid@ == folder implies exists|
                j: int,
            | 0 <= j < fc.len() && is_child_of_row(#[trigger] fc[j], records[i]) by {
                assert(i < d.len());
                assert(d[i] == records[i]);
            }
        }
    }
}

/// The children of a folder keep the order of the rows: the children built
/// from the first `n` rows are the first children built from all of them.
pub proof fn lemma_folder_children_in_row_order(records: Seq<FeedJoinRecord>, folder: Seq<char>, n: int)
    requires
        0 <= n <= records.len(),
    ensures
        folder_children(records.take(n), folder).len() <= folder_children(records, folder).len(),
        folder_children(records, folder).take(folder_children(records.take(n), folder).len() as int)
            == folder_children(records.take(n), folder),
    decreases records.len() - n,
{
    if n == records.len() {
        assert(records.take(n) =~= records);
        let fc = folder_children(records, folder);
        assert(fc.take(fc.len() as int) =~= fc);
    } else {
        lemma_folder_children_in_row_order(records, folder, n + 1);
        let a = folder_children(records.take(n), folder);
        let b = folder_children(records.take(n + 1), folder);
        let fc = folder_children(records, folder);
        assert(records.take(n + 1).drop_last() =~= records.take(n));
        if records[n].parent_uuid@ == folder {
            assert(b == a + seq![child_entry(records[n])]);
            assert(fc.take(a.len() as int) =~= fc.take(b.len() as int).take(a.len() as int));
            assert(b.take(a.len() as int) =~= a);
        } else {
            assert(b == a);
        }
    }
}

/// A folder's entry shows the folder's uuid, name and position at the top
/// level, with the channels placed in it; a channel's entry shows its uuid,
/// title, position and link at the top level, with no children.
pub proof fn lemma_feed_entry_fields(f: Folder, c: Channel, records: Seq<FeedJoinRecord>)
    ensures
        folder_entry(f, records).item_type == "folder"@,
        folder_entry(f, records).uuid == f.uuid@,
        folder_entry(f, records).title == f.name@,
        folder_entry(f, records).sort == f.sort,
        folder_entry(f, records).children == Some(folder_children(records, f.uuid@)),
        folder_entry(f, records).parent_uuid == Seq::<char>::empty(),
        folder_entry(f, records).link == Some(Seq::<char>::empty()),
        channel_entry(c).item_type == "channel"@,
        channel_entry(c).uuid == c.uuid@,
        channel_entry(c).title == c.title@,
        channel_entry(c).sort == c.sort,
        channel_entry(c).children == Some(Seq::<ChildItemView>::empty()),
        channel_entry(c).parent_uuid == Seq::<char>::empty(),
        channel_entry(c).link == Some(c.link@),
{
}

/// The uuids of the channels that sit in a folder, in the order of the rows.
/// The channels outside every folder are those whose uuid is not among them.
pub fn folder_channel_uuids(channels_in_folder: &Vec<FeedJoinRecord>) -> (res: Vec<String>)
    ensures
        res@ == channels_in_folder@.map_values(|r: FeedJoinRecord| r.uuid),
{
    let mut res: Vec<String> = Vec::new();
    let mut i: usize = 0;
    while i < channels_in_folder.len()
        invariant
            i <= channels_in_folder.len(),
            res@ == channels_in_folder@.take(i as int).map_values(|r: FeedJoinRecord| r.uuid),
        decreases channels_in_folder.len() - i,
    {
        res.push(channels_in_folder[i].uuid.clone());
        proof {
            assert(channels_in_folder@.take(i + 1) =~= channels_in_folder@.take(i as int).push(
                channels_in_folder@[i as int],
            ));
            assert(res@ =~= channels_in_folder@.take(i + 1).map_values(
                |r: FeedJoinRecord| r.uuid,
            ));
        }
        i += 1;
    }
    proof {
        assert(channels_in_folder@.take(i as int) =~= channels_in_folder@);
    }
    res
}

/// The entries of the channels that `records` places in the folder `folder_uuid`.
fn children_of(records: &Vec<FeedJoinRecord>, folder_uuid: &String) -> (res: Vec<ChildItem>)
    ensures
        child_views(res@) == folder_children(records@, folder_uuid@),
{
    let mut res: Vec<ChildItem> = Vec::new();
    let mut i: usize = 0;
    proof {
        assert(records@.take(0) =~= Seq::<FeedJoinRecord>::empty());
        assert(child_views(res@) =~= Seq::<ChildItemView>::empty());
    }
    while i < records.len()
        invariant
            i <= records.len(),
            child_views(res@) == folder_children(records@.take(i as int), folder_uuid@),
        decreases records.len() - i,
    {
        let r = &records[i];
        let ghost before = res@;
        proof {
            assert(records@.take(i + 1).drop_last() =~= records@.take(i as int));
            assert(records@.take(i + 1).last() == records@[i as int]);
        }
        if r.parent_uuid == *folder_uuid {
            let c = ChildItem {
                item_type: "channel".to_owned(),
                uuid: r.uuid.clone(),
                title: r.title.clone(),
                sort: r.sort,
                link: Some(r.link.clone()),
            };
            res.push(c);
            proof {
                assert(child_views(res@) =~= child_views(before) + seq![c@]);
            }
        }
        i += 1;
    }
    proof {
        assert(records@.take(records.len() as int) =~= records@);
    }
    res
}

/// The feed list: each folder with the channels placed in it, then each
/// channel outside every folder, ordered by position (entries with the same
/// position in that order).
///
/// `channels_in_folder` are the channels that sit in a folder, `folders` the
/// folders, `channels` the channels outside every folder.
pub fn get_feeds(
    channels_in_folder: &Vec<FeedJoinRecord>,
    folders: &Vec<Folder>,
    channels: &Vec<Channel>,
) -> (res: Vec<FeedItem>)
    ensures
        stable_sorted(item_views(res@), feed_entries(channels_in_folder@, folders@, channels@)),
        forall|i: int, j: int| 0 <= i <= j < res@.len() ==> res@[i].sort <= res@[j].sort,
        item_views(res@).to_multiset() == feed_entries(
            channels_in_folder@,
            folders@,
            channels@,
        ).to_multiset(),
{
    let ghost recs = channels_in_folder@;
    let mut items: Vec<FeedItem> = Vec::new();
    let mut i: usize = 0;
    while i < folders.len()
        invariant
            i <= folders.len(),
            recs == channels_in_folder@,
            item_views(items@) == folders@.take(i as int).map_values(
                |f: Folder| folder_entry(f, recs),
            ),
        decreases folders.len() - i,
    {
        let f = &folders[i];
        let children = children_of(channels_in_folder, &f.uuid);
        let item = FeedItem {
            item_type: "folder".to_owned(),
            uuid: f.uuid.clone(),
            title: f.name.clone(),
            sort: f.sort,
            children: Some(children),
            parent_uuid: String::new(),
            link: Some(String::new()),
        };
        let ghost before = items@;
        items.push(item);
        proof {
            assert(item@ == folder_entry(folders@[i as int], recs));
            assert(folders@.take(i + 1) =~= folders@.take(i as int).push(folders@[i as int]));
            assert(item_views(items@) =~= item_views(before).push(item@));
            assert(item_views(items@) =~= folders@.take(i + 1).map_values(
                |f: Folder| folder_entry(f, recs),
            ));
        }
        i += 1;
    }
    let ghost folder_part = folders@.map_values(|f: Folder| folder_entry(f, recs));
    proof {
        assert(folders@.take(i as int) =~= folders@);
    }
    let mut j: usize = 0;
    while j < channels.len()
        invariant
            j <= channels.len(),
            item_views(items@) == folder_part + channels@.take(j as int).map_values(
                |c: Channel| channel_entry(c),
            ),
        decreases channels.len() - j,
    {
        let c = &channels[j];
        let item = FeedItem {
            item_type: "channel".to_owned(),
            uuid: c.uuid.clone(),
            title: c.title.clone(),
            sort: c.sort,
            children: Some(Vec::new()),
            parent_uuid: String::new(),
            link: Some(c.link.clone()),
        };
        let ghost before = items@;
        items.push(item);
        proof {
            assert(child_views(Seq::<ChildItem>::empty()) =~= Seq::<ChildItemView>::empty());
            assert(item@ == channel_entry(channels@[j as int]));
            assert(channels@.take(j + 1) =~= channels@.take(j as int).push(channels@[j as int]));
            assert(item_views(items@) =~= item_views(before).push(item@));
            assert(item_views(items@) =~= folder_part + channels@.take(j + 1).map_values(
                |c: Channel| channel_entry(c),
            ));
        }
        j += 1;
    }
    proof {
        assert(channels@.take(j as int) =~= channels@);
    }
    let res = sort_feed_items(items);
    proof {
        assert forall|a: int, b: int| 0 <= a <= b < res@.len() implies res@[a].sort <= res@[b].sort by {
            assert(item_views(res@)[a].sort == res@[a].sort);
            assert(item_views(res@)[b].sort == res@[b].sort);
        }
    }
    res
}

/// Every folder and every channel outside the folders has its entry in the
/// feed list, and the list holds nothing else.
pub proof fn lemma_feed_list_complete(
    records: Seq<FeedJoinRecord>,
    folders: Seq<Folder>,
    channels: Seq<Channel>,
    list: Seq<FeedItemView>,
)
    requires
        list.to_multiset() == feed_entries(records, folders, channels).to_multiset(),
    ensures
        list.len() == folders.len() + channels.len(),
        forall|i: int| 0 <= i < folders.len() ==> list.contains(#[trigger] folder_entry(folders[i], records)),
        forall|j: int| 0 <= j < channels.len() ==> list.contains(#[trigger] channel_entry(channels[j])),
        forall|e: FeedItemView| #[trigger] list.contains(e) ==> feed_entries(records, folders, channels).contains(e),
{
    let entries = feed_entries(records, folders, channels);
    vstd::seq_lib::to_multiset_len(list);
    vstd::seq_lib::to_multiset_len(entries);
    assert forall|i: int| 0 <= i < folders.len() implies list.contains(#[trigger] folder_entry(folders[i], records)) by {
        let e = folder_entry(folders[i], records);
        assert(entries[i] == e);
        vstd::seq_lib::to_multiset_contains(entries, e);
        vstd::seq_lib::to_multiset_contains(list, e);
    }
    assert forall|j: int| 0 <= j < channels.len() implies list.contains(#[trigger] channel_entry(channels[j])) by {
        let e = channel_entry(channels[j]);
        assert(entries[folders.len() + j] == e);
        vstd::seq_lib::to_multiset_contains(entries, e);
        vstd::seq_lib::to_multiset_contains(list, e);
    }
    assert forall|e: FeedItemView| #[trigger] list.contains(e) implies entries.contains(e) by {
        vstd::seq_lib::to_multiset_contains(entries, e);
        vstd::seq_lib::to_multiset_contains(list, e);
    }
}

} // verus!

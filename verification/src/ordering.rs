use vstd::prelude::*;

use crate::records::FeedSort;

verus! {

/// A statement that stores a new position.
#[derive(Debug)]
pub enum SortUpdate {
    /// Insert or update the placement of `child_uuid` in the folder
    /// `parent_uuid`, at position `sort`.
    FeedMeta { parent_uuid: String, child_uuid: String, sort: i32 },
    /// Set the position of the top-level channel `uuid`.
    Channel { uuid: String, sort: i32 },
    /// Set the position of the folder `uuid`.
    Folder { uuid: String, sort: i32 },
}

/// What a `SortUpdate` holds, its texts taken as characters.
pub enum SortUpdateView {
    FeedMeta { parent_uuid: Seq<char>, child_uuid: Seq<char>, sort: i32 },
    Channel { uuid: Seq<char>, sort: i32 },
    Folder { uuid: Seq<char>, sort: i32 },
}

impl View for SortUpdate {
    type V = SortUpdateView;

    open spec fn view(&self) -> SortUpdateView {
        match self {
            SortUpdate::FeedMeta { parent_uuid, child_uuid, sort } => SortUpdateView::FeedMeta {
                parent_uuid: parent_uuid@,
                child_uuid: child_uuid@,
                sort: *sort,
            },
            SortUpdate::Channel { uuid, sort } => SortUpdateView::Channel { uuid: uuid@, sort: *sort },
            SortUpdate::Folder { uuid, sort } => SortUpdateView::Folder { uuid: uuid@, sort: *sort },
        }
    }
}

/// The statement that a reordering request calls for: a channel inside a
/// folder gets its placement there upserted; a top-level channel or folder
/// gets its own position set; any other request is left alone.
pub open spec fn sort_update_of(item: FeedSort) -> Option<SortUpdateView> {
    if item.parent_uuid@.len() > 0 && item.item_type@ == "channel"@ {
        Some(
            SortUpdateView::FeedMeta {
                parent_uuid: item.parent_uuid@,
                child_uuid: item.child_uuid@,
                sort: item.sort,
            },
        )
    } else if item.parent_uuid@.len() == 0 && item.item_type@ == "channel"@ {
        Some(SortUpdateView::Channel { uuid: item.child_uuid@, sort: item.sort })
    } else if item.parent_uuid@.len() == 0 && item.item_type@ == "folder"@ {
        Some(SortUpdateView::Folder { uuid: item.child_uuid@, sort: item.sort })
    } else {
        None
    }
}

/// The view of an optional statement.
pub open spec fn opt_update_view(u: Option<SortUpdate>) -> Option<SortUpdateView> {
    match u {
        Some(x) => Some(x@),
        None => None,
    }
}

/// The statement that stores the position of one reordering request, if it
/// calls for one.
pub fn sort_update_for(item: &FeedSort) -> (res: Option<SortUpdate>)
    ensures
        opt_update_view(res) == sort_update_of(*item),
        item.parent_uuid@.len() > 0 && item.item_type@ == "channel"@ ==> (res matches Some(
            SortUpdate::FeedMeta { parent_uuid, child_uuid, sort },
        ) && parent_uuid@ == item.parent_uuid@ && child_uuid@ == item.child_uuid@ && sort
            == item.sort),
        item.parent_uuid@.len() == 0 && item.item_type@ == "channel"@ ==> (res matches Some(
            SortUpdate::Channel { uuid, sort },
        ) && uuid@ == item.child_uuid@ && sort == item.sort),
        item.parent_uuid@.len() == 0 && item.item_type@ == "folder"@ ==> (res matches Some(
            SortUpdate::Folder { uuid, sort },
        ) && uuid@ == item.child_uuid@ && sort == item.sort),
        !(item.item_type@ == "channel"@ || (item.parent_uuid@.len() == 0 && item.item_type@
            == "folder"@)) ==> res is None,
{
    let channel = "channel".to_owned();
    let folder = "folder".to_owned();
    let top_level = item.parent_uuid.as_str().is_empty();
    proof {
        lemma_sort_update_cases(*item);
    }
    if !top_level && item.item_type == channel {
        Some(
            SortUpdate::FeedMeta {
                parent_uuid: item.parent_uuid.clone(),
                child_uuid: item.child_uuid.clone(),
                sort: item.sort,
            },
        )
    } else if top_level && item.item_type == channel {
        Some(SortUpdate::Channel { uuid: item.child_uuid.clone(), sort: item.sort })
    } else if top_level && item.item_type == folder {
        Some(SortUpdate::Folder { uuid: item.child_uuid.clone(), sort: item.sort })
    } else {
        None
    }
}

/// The views of a list of statements.
pub open spec fn update_views(s: Seq<SortUpdate>) -> Seq<SortUpdateView> {
    s.map_values(|u: SortUpdate| u@)
}

/// What a reordering request calls for, whatever position it carries: a
/// channel inside a folder gets its placement upserted, a top-level channel or
/// folder gets its own position set, each with the request's position; any
/// other request calls for nothing.
pub proof fn lemma_sort_update_cases(item: FeedSort)
    ensures
        item.parent_uuid@.len() > 0 && item.item_type@ == "channel"@ ==> sort_update_of(item)
            == Some(
            SortUpdateView::FeedMeta {
                parent_uuid: item.parent_uuid@,
                child_uuid: item.child_uuid@,
                sort: item.sort,
            },
        ),
        item.parent_uuid@.len() == 0 && item.item_type@ == "channel"@ ==> sort_update_of(item)
            == Some(SortUpdateView::Channel { uuid: item.child_uuid@, sort: item.sort }),
        item.parent_uuid@.len() == 0 && item.item_type@ == "folder"@ ==> sort_update_of(item)
            == Some(SortUpdateView::Folder { uuid: item.child_uuid@, sort: item.sort }),
        !(item.item_type@ == "channel"@ || (item.parent_uuid@.len() == 0 && item.item_type@
            == "folder"@)) ==> sort_update_of(item) is None,
{
    reveal_strlit("channel");
    reveal_strlit("folder");
    assert("channel"@ != "folder"@) by {
        assert("channel"@[0] != "folder"@[0]);
    }
}

/// Every request that calls for a statement gets exactly one, and in the
/// order of the requests: the statements of a reordering are those of its
/// first requests followed by that of the last one.
pub proof fn lemma_sort_updates_follow_requests(sorts: Seq<FeedSort>)
    ensures
        sorts.len() > 0 ==> sorts.filter_map(|s: FeedSort| sort_update_of(s)) == sorts.drop_last().filter_map(
            |s: FeedSort| sort_update_of(s),
        ) + match sort_update_of(sorts.last()) {
            Some(u) => seq![u],
            None => Seq::<SortUpdateView>::empty(),
        },
{
    if sorts.len() > 0 {
        if sort_update_of(sorts.last()) is None {
            assert(sorts.drop_last().filter_map(|s: FeedSort| sort_update_of(s))
                + Seq::<SortUpdateView>::empty() =~= sorts.drop_last().filter_map(
                |s: FeedSort| sort_update_of(s),
            ));
        }
    }
}

/// Requests that call for no statement can be left out: the statements of a
/// reordering stay the same without them.
pub proof fn lemma_idle_requests_change_nothing(sorts: Seq<FeedSort>)
    ensures
        sorts.filter(|s: FeedSort| sort_update_of(s) is Some).filter_map(
            |s: FeedSort| sort_update_of(s),
        ) == sorts.filter_map(|s: FeedSort| sort_update_of(s)),
    decreases sorts.len(),
{
    reveal(Seq::filter);
    if sorts.len() > 0 {
        let d = sorts.drop_last();
        let l = sorts.last();
        lemma_idle_requests_change_nothing(d);
        let kept = d.filter(|s: FeedSort| sort_update_of(s) is Some);
        if sort_update_of(l) is Some {
            assert(kept.push(l).drop_last() =~= kept);
            assert(kept.push(l).last() == l);
        }
    }
}

/// The statements that store the positions of a reordering, one per request
/// that calls for one, in the order of the requests.
pub fn update_feed_sort(sorts: &Vec<FeedSort>) -> (res: Vec<SortUpdate>)
    ensures
        update_views(res@) == sorts@.filter_map(|s: FeedSort| sort_update_of(s)),
        res@.len() <= sorts@.len(),
{
    let mut res: Vec<SortUpdate> = Vec::new();
    let mut i: usize = 0;
    proof {
        assert(sorts@.take(0) =~= Seq::<FeedSort>::empty());
        assert(update_views(res@) =~= Seq::<SortUpdateView>::empty());
    }
    while i < sorts.len()
        invariant
            i <= sorts.len(),
            update_views(res@) == sorts@.take(i as int).filter_map(|s: FeedSort| sort_update_of(s)),
            res@.len() <= i,
        decreases sorts.len() - i,
    {
        let ghost before = res@;
        proof {
            assert(sorts@.take(i + 1).drop_last() =~= sorts@.take(i as int));
            assert(sorts@.take(i + 1).last() == sorts@[i as int]);
        }
        match sort_update_for(&sorts[i]) {
            Some(u) => {
                res.push(u);
                proof {
                    assert(update_views(res@) =~= update_views(before) + seq![res@.last()@]);
                }
            },
            None => {},
        }
        i += 1;
    }
    proof {
        assert(sorts@.take(sorts.len() as int) =~= sorts@);
    }
    res
}

} // verus!

use vstd::prelude::*;

use crate::records::{Channel, ChannelQuery, ChannelQueryResult, ChannelQueryView, FeedMeta};

verus! {

/// The channel found under a uuid: the rows that the lookup by uuid returned
/// name a channel only when there is exactly one of them.
pub fn get_channel_by_uuid(found: Vec<Channel>) -> (res: Option<Channel>)
    ensures
        found.len() == 1 ==> res == Some(found@[0]),
        found.len() != 1 ==> res is None,
{
    let mut found = found;
    if found.len() == 1 {
        found.pop()
    } else {
        None
    }
}

/// The position of the last top-level feed: the last of the `sort` values that
/// the query returned, or 0 when the query failed or returned none.
pub fn get_last_sort(sorts: Option<Vec<i32>>) -> (res: i32)
    ensures
        res == last_sort_of(sorts),
        sorts is Some && sorts->0@.len() > 0 ==> res == sorts->0@[sorts->0@.len() - 1],
        sorts is None || sorts->0@.len() == 0 ==> res == 0,
{
    match sorts {
        Some(mut rows) => match rows.pop() {
            Some(s) => s,
            None => 0,
        },
        None => 0,
    }
}

/// The last element of a successful query result, 0 otherwise.
pub open spec fn last_sort_of(sorts: Option<Vec<i32>>) -> i32 {
    match sorts {
        Some(rows) => if rows@.len() > 0 { rows@.last() } else { 0 },
        None => 0,
    }
}

/// The folder that the placements give the channel `uuid`: the parent of the
/// last placement of it, or the empty text when there is none.
pub open spec fn parent_of(relations: Seq<FeedMeta>, uuid: Seq<char>) -> Seq<char>
    decreases relations.len(),
{
    if relations.len() == 0 {
        Seq::empty()
    } else if relations.last().child_uuid@ == uuid {
        relations.last().parent_uuid@
    } else {
        parent_of(relations.drop_last(), uuid)
    }
}

/// The last top-level position is the last row of a successful query, and 0
/// when the query failed or returned no row.
pub proof fn lemma_last_sort_is_last_row(sorts: Option<Vec<i32>>)
    ensures
        sorts is Some && sorts->0@.len() > 0 ==> last_sort_of(sorts) == sorts->0@[sorts->0@.len()
            - 1],
        sorts is None || sorts->0@.len() == 0 ==> last_sort_of(sorts) == 0,
{
}

/// A channel that no placement names sits at the top level (the empty text);
/// otherwise it sits in the folder of its last placement.
pub proof fn lemma_parent_of(relations: Seq<FeedMeta>, uuid: Seq<char>)
    ensures
        (forall|i: int| 0 <= i < relations.len() ==> #[trigger] relations[i].child_uuid@ != uuid)
            ==> parent_of(relations, uuid) == Seq::<char>::empty(),
        forall|i: int|
            0 <= i < relations.len() && #[trigger] relations[i].child_uuid@ == uuid && (forall|j: int|
                i < j < relations.len() ==> relations[j].child_uuid@ != uuid) ==> parent_of(
                relations,
                uuid,
            ) == relations[i].parent_uuid@,
    decreases relations.len(),
{
    if relations.len() > 0 {
        let d = relations.drop_last();
        lemma_parent_of(d, uuid);
        assert forall|i: int| 0 <= i < d.len() implies #[trigger] d[i] == relations[i] by {}
        let n = relations.len() - 1;
        assert(relations.last() == relations[n]);
        assert forall|i: int|
            0 <= i < relations.len() && #[trigger] relations[i].child_uuid@ == uuid && (forall|j: int|
                i < j < relations.len() ==> relations[j].child_uuid@ != uuid) implies parent_of(
            relations,
            uuid,
        ) == relations[i].parent_uuid@ by {
            if i < n {
                assert(relations[n].child_uuid@ != uuid);
                assert(d[i].child_uuid@ == uuid);
                assert forall|j: int| i < j < d.len() implies d[j].child_uuid@ != uuid by {
                    assert(d[j] == relations[j]);
                }
            }
        }
    }
}

/// A channel as listed, with the folder it sits in.
pub open spec fn query_entry(c: Channel, parent: Seq<char>) -> ChannelQueryView {
    ChannelQueryView {
        id: c.id,
        uuid: c.uuid@,
        title: c.title@,
        link: c.link@,
        feed_url: c.feed_url@,
        image: c.image@,
        description: c.description@,
        pub_date: c.pub_date@,
        sort: c.sort,
        create_date: c.create_date@,
        update_date: c.update_date@,
        parent_uuid: parent,
    }
}

/// A listed channel keeps every field of its channel, and only its folder is
/// added.
pub proof fn lemma_query_entry_keeps_fields(c: Channel, parent: Seq<char>)
    ensures
        query_entry(c, parent).id == c.id,
        query_entry(c, parent).uuid == c.uuid@,
        query_entry(c, parent).title == c.title@,
        query_entry(c, parent).link == c.link@,
        query_entry(c, parent).feed_url == c.feed_url@,
        query_entry(c, parent).image == c.image@,
        query_entry(c, parent).description == c.description@,
        query_entry(c, parent).pub_date == c.pub_date@,
        query_entry(c, parent).sort == c.sort,
        query_entry(c, parent).create_date == c.create_date@,
        query_entry(c, parent).update_date == c.update_date@,
        query_entry(c, parent).parent_uuid == parent,
{
}

/// The parent of the last placement of `uuid`, or the empty text.
fn find_parent(relations: &Vec<FeedMeta>, uuid: &String) -> (res: String)
    ensures
        res@ == parent_of(relations@, uuid@),
{
    let mut j: usize = relations.len();
    proof {
        assert(relations@.take(j as int) =~= relations@);
    }
    while j > 0
        invariant
            j <= relations.len(),
            parent_of(relations@, uuid@) == parent_of(relations@.take(j as int), uuid@),
        decreases j,
    {
        proof {
            assert(relations@.take(j as int).drop_last() =~= relations@.take(j - 1));
            assert(relations@.take(j as int).last() == relations@[j - 1]);
        }
        if relations[j - 1].child_uuid == *uuid {
            return relations[j - 1].parent_uuid.clone();
        }
        j -= 1;
    }
    String::new()
}

/// Every channel, in the order of `channels`, together with the folder that
/// the placements in `relations` give it (the last placement of a channel
/// counts; a channel without one sits at the top level, the empty text).
pub fn get_channels(channels: &Vec<Channel>, relations: &Vec<FeedMeta>) -> (res: ChannelQueryResult)
    ensures
        res.list@.len() == channels@.len(),
        forall|i: int|
            0 <= i < channels@.len() ==> #[trigger] res.list@[i]@ == query_entry(
                channels@[i],
                parent_of(relations@, channels@[i].uuid@),
            ),
        forall|i: int|
            0 <= i < channels@.len() ==> {
                let q = #[trigger] res.list@[i];
                let c = channels@[i];
                &&& q.id == c.id
                &&& q.uuid@ == c.uuid@
                &&& q.title@ == c.title@
                &&& q.link@ == c.link@
                &&& q.feed_url@ == c.feed_url@
                &&& q.image@ == c.image@
                &&& q.description@ == c.description@
                &&& q.pub_date@ == c.pub_date@
                &&& q.sort == c.sort
                &&& q.create_date@ == c.create_date@
                &&& q.update_date@ == c.update_date@
                &&& q.parent_uuid@ == parent_of(relations@, c.uuid@)
            },
{
    let mut list: Vec<ChannelQuery> = Vec::new();
    let mut i: usize = 0;
    while i < channels.len()
        invariant
            i <= channels.len(),
            list@.len() == i,
            forall|k: int|
                0 <= k < i ==> #[trigger] list@[k]@ == query_entry(
                    channels@[k],
                    parent_of(relations@, channels@[k].uuid@),
                ),
        decreases channels.len() - i,
    {
        let c = &channels[i];
        let parent_uuid = find_parent(relations, &c.uuid);
        list.push(
            ChannelQuery {
                id: c.id,
                uuid: c.uuid.clone(),
                title: c.title.clone(),
                link: c.link.clone(),
                feed_url: c.feed_url.clone(),
                image: c.image.clone(),
                description: c.description.clone(),
                pub_date: c.pub_date.clone(),
                sort: c.sort,
                create_date: c.create_date.clone(),
                update_date: c.update_date.clone(),
                parent_uuid,
            },
        );
        i += 1;
    }
    proof {
        assert forall|i: int| 0 <= i < channels@.len() implies {
            let q = #[trigger] list@[i];
            let c = channels@[i];
            &&& q.id == c.id
            &&& q.uuid@ == c.uuid@
            &&& q.title@ == c.title@
            &&& q.link@ == c.link@
            &&& q.feed_url@ == c.feed_url@
            &&& q.image@ == c.image@
            &&& q.description@ == c.description@
            &&& q.pub_date@ == c.pub_date@
            &&& q.sort == c.sort
            &&& q.create_date@ == c.create_date@
            &&& q.update_date@ == c.update_date@
            &&& q.parent_uuid@ == parent_of(relations@, c.uuid@)
        } by {
            assert(list@[i]@ == query_entry(channels@[i], parent_of(relations@, channels@[i].uuid@)));
        }
    }
    ChannelQueryResult { list }
}

} // verus!

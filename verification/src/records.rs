use vstd::prelude::*;

verus! {

/// A subscribed feed, as stored in the `channels` table.
#[derive(Debug)]
pub struct Channel {
    pub id: i32,
    pub uuid: String,
    pub title: String,
    pub link: String,
    pub feed_url: String,
    pub image: String,
    pub description: String,
    pub pub_date: String,
    pub sort: i32,
    pub create_date: String,
    pub update_date: String,
}

/// Placement of a channel or folder: `child_uuid` sits in `parent_uuid`
/// (the empty string for the top level) at position `sort`.
#[derive(Debug)]
pub struct FeedMeta {
    pub child_uuid: String,
    pub parent_uuid: String,
    pub sort: i32,
}

/// A folder that groups channels.
#[derive(Debug)]
pub struct Folder {
    pub uuid: String,
    pub name: String,
    pub sort: i32,
}

/// A placement row about to be inserted.
#[derive(Debug)]
pub struct NewFeedMeta {
    pub child_uuid: String,
    pub parent_uuid: String,
    pub sort: i32,
}

/// Number of unread articles of one channel (or folder, in a result).
#[derive(Debug, Clone)]
pub struct UnreadTotal {
    pub channel_uuid: String,
    pub unread_count: i32,
}

/// One row of the `feed_metas` table as read for the unread totals.
#[derive(Debug)]
pub struct MetaGroup {
    pub child_uuid: String,
    pub parent_uuid: String,
    pub sort: i32,
}

/// New placement of a feed: its folder and position.
#[derive(Debug)]
pub struct FeedMetaUpdateRequest {
    pub parent_uuid: String,
    pub sort: i32,
}

/// A channel shown inside a folder.
#[derive(Debug, Clone)]
pub struct ChildItem {
    pub item_type: String,
    pub uuid: String,
    pub title: String,
    pub sort: i32,
    pub link: Option<String>,
}

/// A top-level entry of the feed list: a folder with its channels, or a
/// channel outside any folder.
#[derive(Debug, Clone)]
pub struct FeedItem {
    pub item_type: String,
    pub uuid: String,
    pub title: String,
    pub sort: i32,
    pub children: Option<Vec<ChildItem>>,
    pub parent_uuid: String,
    pub link: Option<String>,
}

/// A channel that sits in a folder, joined with its placement.
#[derive(Debug)]
pub struct FeedJoinRecord {
    pub title: String,
    pub sort: i32,
    pub uuid: String,
    pub parent_uuid: String,
    pub link: String,
}

/// A reordering request for one feed or folder.
#[derive(Debug)]
pub struct FeedSort {
    pub item_type: String,
    pub parent_uuid: String,
    pub child_uuid: String,
    pub sort: i32,
}

/// The row that the placement upsert hands back.
#[derive(Debug)]
pub struct FeedSortRes {
    pub parent_uuid: String,
    pub child_uuid: String,
    pub sort: i32,
}

/// A channel together with the folder it sits in.
#[derive(Debug)]
pub struct ChannelQuery {
    pub id: i32,
    pub uuid: String,
    pub title: String,
    pub link: String,
    pub feed_url: String,
    pub image: String,
    pub description: String,
    pub pub_date: String,
    pub sort: i32,
    pub create_date: String,
    pub update_date: String,
    pub parent_uuid: String,
}

/// The channel list handed to the user interface.
#[derive(Debug)]
pub struct ChannelQueryResult {
    pub list: Vec<ChannelQuery>,
}

/// What a `ChildItem` holds, its texts taken as characters.
pub struct ChildItemView {
    pub item_type: Seq<char>,
    pub uuid: Seq<char>,
    pub title: Seq<char>,
    pub sort: i32,
    pub link: Option<Seq<char>>,
}

/// What a `FeedItem` holds, its texts taken as characters.
pub struct FeedItemView {
    pub item_type: Seq<char>,
    pub uuid: Seq<char>,
    pub title: Seq<char>,
    pub sort: i32,
    pub children: Option<Seq<ChildItemView>>,
    pub parent_uuid: Seq<char>,
    pub link: Option<Seq<char>>,
}

/// What a `ChannelQuery` holds, its texts taken as characters.
pub struct ChannelQueryView {
    pub id: i32,
    pub uuid: Seq<char>,
    pub title: Seq<char>,
    pub link: Seq<char>,
    pub feed_url: Seq<char>,
    pub image: Seq<char>,
    pub description: Seq<char>,
    pub pub_date: Seq<char>,
    pub sort: i32,
    pub create_date: Seq<char>,
    pub update_date: Seq<char>,
    pub parent_uuid: Seq<char>,
}

/// The characters of an optional text.
pub open spec fn opt_text(s: Option<String>) -> Option<Seq<char>> {
    match s {
        Some(t) => Some(t@),
        None => None,
    }
}

impl View for ChildItem {
    type V = ChildItemView;

    open spec fn view(&self) -> ChildItemView {
        ChildItemView {
            item_type: self.item_type@,
            uuid: self.uuid@,
            title: self.title@,
            sort: self.sort,
            link: opt_text(self.link),
        }
    }
}

/// The views of a list of channel entries.
pub open spec fn child_views(s: Seq<ChildItem>) -> Seq<ChildItemView> {
    s.map_values(|c: ChildItem| c@)
}

impl View for FeedItem {
    type V = FeedItemView;

    open spec fn view(&self) -> FeedItemView {
        FeedItemView {
            item_type: self.item_type@,
            uuid: self.uuid@,
            title: self.title@,
            sort: self.sort,
            children: match self.children {
                Some(c) => Some(child_views(c@)),
                None => None,
            },
            parent_uuid: self.parent_uuid@,
            link: opt_text(self.link),
        }
    }
}

/// The views of a list of feed entries.
pub open spec fn item_views(s: Seq<FeedItem>) -> Seq<FeedItemView> {
    s.map_values(|f: FeedItem| f@)
}

impl View for ChannelQuery {
    type V = ChannelQueryView;

    open spec fn view(&self) -> ChannelQueryView {
        ChannelQueryView {
            id: self.id,
            uuid: self.uuid@,
            title: self.title@,
            link: self.link@,
            feed_url: self.feed_url@,
            image: self.image@,
            description: self.description@,
            pub_date: self.pub_date@,
            sort: self.sort,
            create_date: self.create_date@,
            update_date: self.update_date@,
            parent_uuid: self.parent_uuid@,
        }
    }
}

} // verus!

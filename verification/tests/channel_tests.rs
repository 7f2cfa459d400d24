use std::collections::HashMap;

use feed_channel::channels::{get_channel_by_uuid, get_channels, get_last_sort};
use feed_channel::feeds::{folder_channel_uuids, get_feeds, sort_feed_items};
use feed_channel::ordering::{update_feed_sort, SortUpdate};
use feed_channel::records::{
    Channel, FeedItem, FeedJoinRecord, FeedMeta, FeedSort, Folder, MetaGroup, UnreadTotal,
};
use feed_channel::removal::{
    delete_channel, DeleteChannelAction, DeleteChannelEvent, DeleteChannelStep,
};
use feed_channel::subscription::{add_channel, AddChannelAction, AddChannelEvent, AddChannelStep};
use feed_channel::unread::{get_unread_total, unread_sums_fit};

fn channel(id: i32, uuid: &str, title: &str, sort: i32) -> Channel {
    Channel {
        id,
        uuid: uuid.to_string(),
        title: title.to_string(),
        link: format!("https://{}.example", uuid),
        feed_url: format!("https://{}.example/feed", uuid),
        image: String::new(),
        description: format!("about {}", title),
        pub_date: "2023-01-01".to_string(),
        sort,
        create_date: "2023-01-02".to_string(),
        update_date: "2023-01-03".to_string(),
    }
}

fn meta(child: &str, parent: &str, sort: i32) -> FeedMeta {
    FeedMeta { child_uuid: child.to_string(), parent_uuid: parent.to_string(), sort }
}

fn group(child: &str, parent: &str) -> MetaGroup {
    MetaGroup { child_uuid: child.to_string(), parent_uuid: parent.to_string(), sort: 0 }
}

fn unread(uuid: &str, count: i32) -> UnreadTotal {
    UnreadTotal { channel_uuid: uuid.to_string(), unread_count: count }
}

fn join(title: &str, sort: i32, uuid: &str, parent: &str) -> FeedJoinRecord {
    FeedJoinRecord {
        title: title.to_string(),
        sort,
        uuid: uuid.to_string(),
        parent_uuid: parent.to_string(),
        link: format!("https://{}.example", uuid),
    }
}

fn folder(uuid: &str, name: &str, sort: i32) -> Folder {
    Folder { uuid: uuid.to_string(), name: name.to_string(), sort }
}

fn as_map(v: &[UnreadTotal]) -> HashMap<String, i32> {
    let mut m = HashMap::new();
    for e in v {
        assert!(m.insert(e.channel_uuid.clone(), e.unread_count).is_none(), "duplicate key");
    }
    m
}

fn feed_sort(item_type: &str, parent: &str, child: &str, sort: i32) -> FeedSort {
    FeedSort {
        item_type: item_type.to_string(),
        parent_uuid: parent.to_string(),
        child_uuid: child.to_string(),
        sort,
    }
}

#[test]
fn test_get_feeds() {
    let in_folder = vec![
        join("Rust blog", 1, "c1", "f1"),
        join("Verus news", 2, "c2", "f2"),
        join("This week", 3, "c3", "f1"),
    ];
    let folders = vec![folder("f1", "Programming", 2), folder("f2", "Proofs", 0)];
    let outside = vec![channel(4, "c4", "Weather", 1), channel(5, "c5", "Sports", 2)];
    let result = get_feeds(&in_folder, &folders, &outside);
    println!("{:?}", result);

    let order: Vec<&str> = result.iter().map(|f| f.uuid.as_str()).collect();
    assert_eq!(order, vec!["f2", "c4", "f1", "c5"]);
    let f1 = &result[2];
    assert_eq!(f1.item_type, "folder");
    assert_eq!(f1.title, "Programming");
    assert_eq!(f1.link, Some(String::new()));
    assert_eq!(f1.parent_uuid, "");
    let kids = f1.children.as_ref().unwrap();
    assert_eq!(kids.len(), 2);
    assert_eq!(kids[0].uuid, "c1");
    assert_eq!(kids[0].item_type, "channel");
    assert_eq!(kids[0].link, Some("https://c1.example".to_string()));
    assert_eq!(kids[1].uuid, "c3");
    let c5 = &result[3];
    assert_eq!(c5.item_type, "channel");
    assert_eq!(c5.title, "Sports");
    assert_eq!(c5.link, Some("https://c5.example".to_string()));
    assert_eq!(c5.children.as_ref().unwrap().len(), 0);
}

#[test]
fn test_get_channels() {
    let channels = vec![channel(1, "a", "A", 0), channel(2, "b", "B", 1), channel(3, "c", "C", 2)];
    let relations = vec![meta("a", "f1", 0), meta("b", "", 0), meta("a", "f2", 1)];
    let result = get_channels(&channels, &relations);
    println!("result {:?}", result);
    assert_eq!(result.list.len(), 3);
    // The last placement of a channel counts.
    assert_eq!(result.list[0].parent_uuid, "f2");
    assert_eq!(result.list[1].parent_uuid, "");
    // A channel without a placement sits at the top level.
    assert_eq!(result.list[2].parent_uuid, "");
    assert_eq!(result.list[2].id, 3);
    assert_eq!(result.list[2].title, "C");
    assert_eq!(result.list[2].feed_url, "https://c.example/feed");
    assert_eq!(result.list[2].sort, 2);
}

#[test]
fn test_get_unread_total() {
    let records = vec![unread("c1", 3), unread("c2", 4), unread("c3", 5)];
    let groups = vec![group("c1", "f1"), group("c2", "f1"), group("c3", ""), group("f1", "")];
    assert!(unread_sums_fit(&records, &groups));
    let record = get_unread_total(&records, &groups);
    println!("{:?}", record);
    let m = as_map(&record);
    assert_eq!(m.len(), 4);
    assert_eq!(m["f1"], 7);
    assert_eq!(m["c1"], 3);
    assert_eq!(m["c2"], 4);
    assert_eq!(m["c3"], 5);
}

#[test]
fn unread_channel_without_placement_is_listed() {
    let records = vec![unread("c1", 2), unread("lonely", 9)];
    let groups = vec![group("c1", "f1")];
    let m = as_map(&get_unread_total(&records, &groups));
    assert_eq!(m.len(), 3);
    assert_eq!(m["lonely"], 9);
    assert_eq!(m["f1"], 2);
}

#[test]
fn unread_placement_of_channel_without_unread_is_ignored() {
    let records = vec![unread("c1", 2)];
    let groups = vec![group("quiet", "f1"), group("c1", "f2")];
    let m = as_map(&get_unread_total(&records, &groups));
    assert_eq!(m.len(), 2);
    assert_eq!(m["f2"], 2);
    assert!(!m.contains_key("f1"));
    assert!(!m.contains_key("quiet"));
}

#[test]
fn unread_later_record_replaces_earlier() {
    let records = vec![unread("c1", 2), unread("c1", 6)];
    let m = as_map(&get_unread_total(&records, &Vec::new()));
    assert_eq!(m.len(), 1);
    assert_eq!(m["c1"], 6);
}

#[test]
fn unread_folder_reached_first_keeps_only_the_sum() {
    // "x" has a count of its own but is first reached as a folder.
    let records = vec![unread("x", 10), unread("c1", 1)];
    let groups = vec![group("c1", "x"), group("x", "")];
    let m = as_map(&get_unread_total(&records, &groups));
    assert_eq!(m["x"], 1);
    // Named as a channel first, it keeps its count and adds the sum.
    let groups = vec![group("x", ""), group("c1", "x")];
    let m = as_map(&get_unread_total(&records, &groups));
    assert_eq!(m["x"], 11);
}

#[test]
fn unread_overflow_is_detected() {
    let records = vec![unread("c1", i32::MAX), unread("c2", 1)];
    let groups = vec![group("c1", "f"), group("c2", "f")];
    assert!(!unread_sums_fit(&records, &groups));
    let groups = vec![group("c1", "f")];
    assert!(unread_sums_fit(&records, &groups));
    let m = as_map(&get_unread_total(&records, &groups));
    assert_eq!(m["f"], i32::MAX);
}

#[test]
fn channel_by_uuid_needs_exactly_one_row() {
    assert!(get_channel_by_uuid(Vec::new()).is_none());
    let found = get_channel_by_uuid(vec![channel(7, "u", "T", 0)]).unwrap();
    assert_eq!(found.id, 7);
    assert!(get_channel_by_uuid(vec![channel(1, "u", "T", 0), channel(2, "u", "T", 0)]).is_none());
}

#[test]
fn last_sort_is_last_row_or_zero() {
    assert_eq!(get_last_sort(Some(vec![3, 9, 5])), 5);
    assert_eq!(get_last_sort(Some(Vec::new())), 0);
    assert_eq!(get_last_sort(None), 0);
}

#[test]
fn delete_channel_with_one_match() {
    let (step, action) = delete_channel();
    assert_eq!(step, DeleteChannelStep::Lookup);
    assert_eq!(action, DeleteChannelAction::LoadChannels);
    let (step, action) = step.advance(DeleteChannelEvent::ChannelsLoaded(1));
    assert_eq!(action, DeleteChannelAction::DeleteChannel);
    let (step, action) = step.advance(DeleteChannelEvent::ChannelDeleted(1));
    assert_eq!(action, DeleteChannelAction::DeleteArticles);
    let (step, action) = step.advance(DeleteChannelEvent::ArticlesDeleted);
    assert_eq!(action, DeleteChannelAction::DeleteFeedMetas);
    let (step, action) = step.advance(DeleteChannelEvent::FeedMetasDeleted);
    assert_eq!(step, DeleteChannelStep::Done);
    // The documented example: deleting an existing channel reports 1.
    assert_eq!(action, DeleteChannelAction::Finish(1));
}

#[test]
fn delete_channel_without_single_match_deletes_nothing() {
    for found in [0usize, 2, 5] {
        let (step, _) = delete_channel();
        let (step, action) = step.advance(DeleteChannelEvent::ChannelsLoaded(found));
        assert_eq!(step, DeleteChannelStep::Done);
        assert_eq!(action, DeleteChannelAction::Finish(0));
    }
}

#[test]
fn add_channel_inserted() {
    let (state, action) = add_channel("new".to_string());
    assert!(matches!(action, AddChannelAction::InsertChannel));
    assert_eq!(state.step, AddChannelStep::InsertChannel);
    let (state, action) = state.advance(AddChannelEvent::ChannelInserted(Some(1)));
    assert!(matches!(action, AddChannelAction::LoadLastSort));
    let (state, action) = state.advance(AddChannelEvent::LastSortLoaded(Some(vec![2, 7])));
    match action {
        AddChannelAction::InsertFeedMeta(m) => {
            assert_eq!(m.child_uuid, "new");
            assert_eq!(m.parent_uuid, "");
            assert_eq!(m.sort, 8);
        },
        other => panic!("unexpected {:?}", other),
    }
    let (state, action) = state.advance(AddChannelEvent::FeedMetaInserted);
    assert!(matches!(action, AddChannelAction::InsertArticles));
    let (state, action) = state.advance(AddChannelEvent::ArticlesInserted);
    assert_eq!(state.step, AddChannelStep::Done);
    assert!(matches!(action, AddChannelAction::Finish(1)));
}

#[test]
fn add_channel_first_feed_gets_position_one() {
    let (state, _) = add_channel("first".to_string());
    let (state, _) = state.advance(AddChannelEvent::ChannelInserted(Some(1)));
    let (_, action) = state.advance(AddChannelEvent::LastSortLoaded(None));
    match action {
        AddChannelAction::InsertFeedMeta(m) => assert_eq!(m.sort, 1),
        other => panic!("unexpected {:?}", other),
    }
}

#[test]
fn add_channel_existing_or_failed() {
    let (state, _) = add_channel("old".to_string());
    let (state, action) = state.advance(AddChannelEvent::ChannelInserted(Some(0)));
    assert_eq!(state.step, AddChannelStep::Done);
    assert!(matches!(action, AddChannelAction::Finish(0)));
    let (state, _) = add_channel("bad".to_string());
    let (_, action) = state.advance(AddChannelEvent::ChannelInserted(None));
    assert!(matches!(action, AddChannelAction::Finish(0)));
}

#[test]
fn feed_sort_statements() {
    let sorts = vec![
        feed_sort("channel", "f1", "c1", 3),
        feed_sort("channel", "", "c2", 4),
        feed_sort("folder", "", "f2", 5),
        feed_sort("folder", "f1", "f3", 6),
        feed_sort("other", "", "x", 7),
    ];
    let updates = update_feed_sort(&sorts);
    assert_eq!(updates.len(), 3);
    match &updates[0] {
        SortUpdate::FeedMeta { parent_uuid, child_uuid, sort } => {
            assert_eq!(parent_uuid, "f1");
            assert_eq!(child_uuid, "c1");
            assert_eq!(*sort, 3);
        },
        other => panic!("unexpected {:?}", other),
    }
    match &updates[1] {
        SortUpdate::Channel { uuid, sort } => {
            assert_eq!(uuid, "c2");
            assert_eq!(*sort, 4);
        },
        other => panic!("unexpected {:?}", other),
    }
    match &updates[2] {
        SortUpdate::Folder { uuid, sort } => {
            assert_eq!(uuid, "f2");
            assert_eq!(*sort, 5);
        },
        other => panic!("unexpected {:?}", other),
    }
}

#[test]
fn sort_keeps_order_of_equal_positions() {
    let item = |uuid: &str, sort: i32| FeedItem {
        item_type: "channel".to_string(),
        uuid: uuid.to_string(),
        title: uuid.to_string(),
        sort,
        children: Some(Vec::new()),
        parent_uuid: String::new(),
        link: None,
    };
    let items = vec![item("a", 2), item("b", 1), item("c", 2), item("d", -1), item("e", 1)];
    let sorted = sort_feed_items(items);
    let order: Vec<&str> = sorted.iter().map(|f| f.uuid.as_str()).collect();
    assert_eq!(order, vec!["d", "b", "e", "a", "c"]);
}

#[test]
fn channels_in_folders_are_filtered_out() {
    let in_folder = vec![join("A", 1, "c1", "f1"), join("B", 2, "c2", "f1")];
    assert_eq!(folder_channel_uuids(&in_folder), vec!["c1".to_string(), "c2".to_string()]);
    assert!(folder_channel_uuids(&Vec::new()).is_empty());
}

#[test]
fn one_more_unread_article_raises_channel_and_folder() {
    let groups = vec![group("c1", "f1"), group("c2", "f1"), group("c4", "")];
    let before = vec![unread("c1", 2), unread("c4", 1)];
    let after = vec![unread("c1", 2), unread("c4", 1), unread("c2", 1)];
    let r1 = as_map(&get_unread_total(&before, &groups));
    let r2 = as_map(&get_unread_total(&after, &groups));
    assert_eq!(r1.get("c2"), None);
    assert_eq!(r2["c2"], 1);
    assert_eq!(r2["f1"], r1["f1"] + 1);
    assert_eq!(r2["c1"], r1["c1"]);
    assert_eq!(r2["c4"], r1["c4"]);
    assert_eq!(r2.len(), r1.len() + 1);
}

#[test]
fn same_unread_rows_give_same_totals() {
    let groups = vec![group("c1", "f1"), group("c2", "f1")];
    let records = vec![unread("c1", 2), unread("c2", 3)];
    let r1 = as_map(&get_unread_total(&records, &groups));
    let r2 = as_map(&get_unread_total(&records, &groups));
    assert_eq!(r1, r2);
}

#[test]
fn idle_sort_requests_change_nothing() {
    let all = vec![
        feed_sort("other", "", "x", 1),
        feed_sort("channel", "f1", "c1", 3),
        feed_sort("folder", "f1", "f3", 6),
        feed_sort("folder", "", "f2", 5),
    ];
    let busy = vec![feed_sort("channel", "f1", "c1", 3), feed_sort("folder", "", "f2", 5)];
    let a = format!("{:?}", update_feed_sort(&all));
    let b = format!("{:?}", update_feed_sort(&busy));
    assert_eq!(a, b);
}

#[test]
fn deleting_a_missing_channel_deletes_nothing() {
    let (step, _) = delete_channel();
    let (step, action) = step.advance(DeleteChannelEvent::ChannelsLoaded(0));
    assert_eq!(step, DeleteChannelStep::Done);
    assert_eq!(action, DeleteChannelAction::Finish(0));
}

use vstd::prelude::*;

use crate::channels::{get_last_sort, last_sort_of};
use crate::records::NewFeedMeta;

verus! {

/// Where the subscription to a new channel stands.
#[derive(Debug, Clone, Copy, PartialEq, Eq, Structural)]
pub enum AddChannelStep {
    /// The channel row is being inserted (or ignored when it exists).
    InsertChannel,
    /// The position of the last top-level feed is being read.
    LoadLastSort,
    /// The channel's top-level placement is being inserted.
    InsertFeedMeta,
    /// The channel's articles are being inserted.
    InsertArticles,
    /// Nothing is left to do.
    Done,
}

/// A subscription in progress: the uuid of the channel and the step reached.
#[derive(Debug)]
pub struct AddChannel {
    pub channel_uuid: String,
    pub step: AddChannelStep,
}

/// The statement to run next.
#[derive(Debug)]
pub enum AddChannelAction {
    /// Insert the channel row, ignoring it when the uuid exists.
    InsertChannel,
    /// Read the positions of the top-level placements.
    LoadLastSort,
    /// Insert this placement.
    InsertFeedMeta(NewFeedMeta),
    /// Insert the channel's articles, ignoring those that exist.
    InsertArticles,
    /// Report this number of inserted channels.
    Finish(usize),
}

/// What the last statement gave back.
#[derive(Debug)]
pub enum AddChannelEvent {
    /// The channel insert affected this many rows (`None`: it failed).
    ChannelInserted(Option<usize>),
    /// The positions of the top-level placements (`None`: the query failed).
    LastSortLoaded(Option<Vec<i32>>),
    /// The placement was inserted.
    FeedMetaInserted,
    /// The articles were inserted (or the insert failed, which changes nothing).
    ArticlesInserted,
}

/// The event is the answer to the statement that `step` issued.
pub open spec fn add_answers(step: AddChannelStep, event: AddChannelEvent) -> bool {
    match (step, event) {
        (AddChannelStep::InsertChannel, AddChannelEvent::ChannelInserted(_)) => true,
        (AddChannelStep::LoadLastSort, AddChannelEvent::LastSortLoaded(_)) => true,
        (AddChannelStep::InsertFeedMeta, AddChannelEvent::FeedMetaInserted) => true,
        (AddChannelStep::InsertArticles, AddChannelEvent::ArticlesInserted) => true,
        _ => false,
    }
}

/// The new placement of a channel cannot be given a position: the last
/// top-level position is the largest `i32`.
pub open spec fn position_overflows(event: AddChannelEvent) -> bool {
    match event {
        AddChannelEvent::LastSortLoaded(sorts) => last_sort_of(sorts) == i32::MAX,
        _ => false,
    }
}

/// Starts the subscription to the channel `channel_uuid`: the first statement
/// inserts the channel.
pub fn add_channel(channel_uuid: String) -> (res: (AddChannel, AddChannelAction))
    ensures
        res.0.channel_uuid == channel_uuid,
        res.0.step == AddChannelStep::InsertChannel,
        res.1 is InsertChannel,
{
    (AddChannel { channel_uuid, step: AddChannelStep::InsertChannel }, AddChannelAction::InsertChannel)
}

impl AddChannel {
    /// The next step and statement, given what the last statement gave back.
    ///
    /// A channel that was inserted (exactly one row) gets a top-level placement
    /// right after the last top-level feed, then its articles, and 1 is
    /// reported. A failed insert reports 0; an insert that affected another
    /// number of rows reports that number, with nothing more done.
    pub fn advance(self, event: AddChannelEvent) -> (res: (AddChannel, AddChannelAction))
        requires
            add_answers(self.step, event),
            !position_overflows(event),
        ensures
            res.0.channel_uuid == self.channel_uuid,
            match event {
                AddChannelEvent::ChannelInserted(None) => {
                    res.0.step == AddChannelStep::Done && res.1 == AddChannelAction::Finish(0)
                },
                AddChannelEvent::ChannelInserted(Some(r)) => if r == 1 {
                    res.0.step == AddChannelStep::LoadLastSort && res.1 is LoadLastSort
                } else {
                    res.0.step == AddChannelStep::Done && res.1 == AddChannelAction::Finish(r)
                },
                AddChannelEvent::LastSortLoaded(sorts) => {
                    &&& res.0.step == AddChannelStep::InsertFeedMeta
                    &&& res.1 matches AddChannelAction::InsertFeedMeta(m)
                    &&& m.child_uuid == self.channel_uuid
                    &&& m.parent_uuid@ == Seq::<char>::empty()
                    &&& m.sort == last_sort_of(sorts) + 1
                },
                AddChannelEvent::FeedMetaInserted => {
                    res.0.step == AddChannelStep::InsertArticles && res.1 is InsertArticles
                },
                AddChannelEvent::ArticlesInserted => {
                    res.0.step == AddChannelStep::Done && res.1 == AddChannelAction::Finish(1)
                },
            },
            // The new placement comes right after the last top-level feed: the
            // last row of the positions read, or first when there is none.
            match event {
                AddChannelEvent::LastSortLoaded(Some(v)) => if v@.len() > 0 {
                    res.1 matches AddChannelAction::InsertFeedMeta(m) && m.sort == v@[v@.len() - 1]
                        + 1
                } else {
                    res.1 matches AddChannelAction::InsertFeedMeta(m) && m.sort == 1
                },
                AddChannelEvent::LastSortLoaded(None) => {
                    res.1 matches AddChannelAction::InsertFeedMeta(m) && m.sort == 1
                },
                _ => true,
            },
    {
        let AddChannel { channel_uuid, step } = self;
        match event {
            AddChannelEvent::ChannelInserted(inserted) => {
                let r: usize = match inserted {
                    Some(r) => r,
                    None => 0,
                };
                if r == 1 {
                    (AddChannel { channel_uuid, step: AddChannelStep::LoadLastSort }, AddChannelAction::LoadLastSort)
                } else {
                    (AddChannel { channel_uuid, step: AddChannelStep::Done }, AddChannelAction::Finish(r))
                }
            },
            AddChannelEvent::LastSortLoaded(sorts) => {
                let last_sort = get_last_sort(sorts);
                let meta = NewFeedMeta {
                    child_uuid: channel_uuid.clone(),
                    parent_uuid: String::new(),
                    sort: last_sort + 1,
                };
                (
                    AddChannel { channel_uuid, step: AddChannelStep::InsertFeedMeta },
                    AddChannelAction::InsertFeedMeta(meta),
                )
            },
            AddChannelEvent::FeedMetaInserted => {
                (AddChannel { channel_uuid, step: AddChannelStep::InsertArticles }, AddChannelAction::InsertArticles)
            },
            AddChannelEvent::ArticlesInserted => {
                (AddChannel { channel_uuid, step: AddChannelStep::Done }, AddChannelAction::Finish(1))
            },
        }
    }
}

} // verus!

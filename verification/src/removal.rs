use vstd::prelude::*;

verus! {

/// Where the removal of a channel stands.
#[derive(Debug, Clone, Copy, PartialEq, Eq, Structural)]
pub enum DeleteChannelStep {
    /// The rows under the channel's uuid are being looked up.
    Lookup,
    /// The channel row is being deleted.
    RemoveChannel,
    /// The channel's articles are being deleted; `removed` channel rows went.
    RemoveArticles { removed: usize },
    /// The channel's placements are being deleted.
    RemoveFeedMetas { removed: usize },
    /// Nothing is left to do.
    Done,
}

/// The statement to run next, all of them on the channel's uuid.
#[derive(Debug, Clone, Copy, PartialEq, Eq, Structural)]
pub enum DeleteChannelAction {
    /// Load the channels whose uuid it is.
    LoadChannels,
    /// Delete the channels whose uuid it is.
    DeleteChannel,
    /// Delete the articles of that channel.
    DeleteArticles,
    /// Delete the placements whose child it is.
    DeleteFeedMetas,
    /// Report this number of removed channels.
    Finish(usize),
}

/// What the last statement gave back.
#[derive(Debug, Clone, Copy, PartialEq, Eq, Structural)]
pub enum DeleteChannelEvent {
    /// This many channel rows carry the uuid.
    ChannelsLoaded(usize),
    /// The channel delete removed this many rows.
    ChannelDeleted(usize),
    /// The articles were deleted.
    ArticlesDeleted,
    /// The placements were deleted.
    FeedMetasDeleted,
}

/// The event is the answer to the statement that `step` issued.
pub open spec fn delete_answers(step: DeleteChannelStep, event: DeleteChannelEvent) -> bool {
    match (step, event) {
        (DeleteChannelStep::Lookup, DeleteChannelEvent::ChannelsLoaded(_)) => true,
        (DeleteChannelStep::RemoveChannel, DeleteChannelEvent::ChannelDeleted(_)) => true,
        (DeleteChannelStep::RemoveArticles { .. }, DeleteChannelEvent::ArticlesDeleted) => true,
        (DeleteChannelStep::RemoveFeedMetas { .. }, DeleteChannelEvent::FeedMetasDeleted) => true,
        _ => false,
    }
}

/// The removal protocol: a channel is removed, with its articles and its
/// placements, only when exactly one channel row carries the uuid; the number
/// reported is what the channel delete removed, or 0 when nothing was removed.
pub open spec fn delete_next(step: DeleteChannelStep, event: DeleteChannelEvent) -> (
    DeleteChannelStep,
    DeleteChannelAction,
) {
    match (step, event) {
        (DeleteChannelStep::Lookup, DeleteChannelEvent::ChannelsLoaded(found)) => if found == 1 {
            (DeleteChannelStep::RemoveChannel, DeleteChannelAction::DeleteChannel)
        } else {
            (DeleteChannelStep::Done, DeleteChannelAction::Finish(0))
        },
        (DeleteChannelStep::RemoveChannel, DeleteChannelEvent::ChannelDeleted(removed)) => (
            DeleteChannelStep::RemoveArticles { removed },
            DeleteChannelAction::DeleteArticles,
        ),
        (DeleteChannelStep::RemoveArticles { removed }, DeleteChannelEvent::ArticlesDeleted) => (
            DeleteChannelStep::RemoveFeedMetas { removed },
            DeleteChannelAction::DeleteFeedMetas,
        ),
        (DeleteChannelStep::RemoveFeedMetas { removed }, DeleteChannelEvent::FeedMetasDeleted) => (
            DeleteChannelStep::Done,
            DeleteChannelAction::Finish(removed),
        ),
        _ => (step, DeleteChannelAction::Finish(0)),
    }
}

/// Starts the removal of a channel (with its articles and placements): the
/// first statement looks the channel up.
pub fn delete_channel() -> (res: (DeleteChannelStep, DeleteChannelAction))
    ensures
        res == (DeleteChannelStep::Lookup, DeleteChannelAction::LoadChannels),
{
    (DeleteChannelStep::Lookup, DeleteChannelAction::LoadChannels)
}

impl DeleteChannelStep {
    /// The next step and statement, given what the last statement gave back.
    pub fn advance(self, event: DeleteChannelEvent) -> (res: (DeleteChannelStep, DeleteChannelAction))
        requires
            delete_answers(self, event),
        ensures
            res == delete_next(self, event),
    {
        match (self, event) {
            (DeleteChannelStep::Lookup, DeleteChannelEvent::ChannelsLoaded(found)) => {
                if found == 1 {
                    (DeleteChannelStep::RemoveChannel, DeleteChannelAction::DeleteChannel)
                } else {
                    (DeleteChannelStep::Done, DeleteChannelAction::Finish(0))
                }
            },
            (DeleteChannelStep::RemoveChannel, DeleteChannelEvent::ChannelDeleted(removed)) => {
                (DeleteChannelStep::RemoveArticles { removed }, DeleteChannelAction::DeleteArticles)
            },
            (DeleteChannelStep::RemoveArticles { removed }, DeleteChannelEvent::ArticlesDeleted) => {
                (DeleteChannelStep::RemoveFeedMetas { removed }, DeleteChannelAction::DeleteFeedMetas)
            },
            (
                DeleteChannelStep::RemoveFeedMetas { removed },
                DeleteChannelEvent::FeedMetasDeleted,
            ) => (DeleteChannelStep::Done, DeleteChannelAction::Finish(removed)),
            _ => (self, DeleteChannelAction::Finish(0)),
        }
    }
}

/// A removal run to its end: when exactly one channel row carries the uuid,
/// the channel, its articles and its placements are deleted in that order and
/// the count that the channel delete gave back is reported; otherwise nothing
/// is deleted and 0 is reported.
pub proof fn lemma_delete_run(found: usize, removed: usize)
    ensures
        found != 1 ==> delete_next(DeleteChannelStep::Lookup, DeleteChannelEvent::ChannelsLoaded(found))
            == (DeleteChannelStep::Done, DeleteChannelAction::Finish(0)),
        found == 1 ==> {
            let (s1, a1) = delete_next(
                DeleteChannelStep::Lookup,
                DeleteChannelEvent::ChannelsLoaded(found),
            );
            let (s2, a2) = delete_next(s1, DeleteChannelEvent::ChannelDeleted(removed));
            let (s3, a3) = delete_next(s2, DeleteChannelEvent::ArticlesDeleted);
            let (s4, a4) = delete_next(s3, DeleteChannelEvent::FeedMetasDeleted);
            &&& a1 == DeleteChannelAction::DeleteChannel
            &&& a2 == DeleteChannelAction::DeleteArticles
            &&& a3 == DeleteChannelAction::DeleteFeedMetas
            &&& a4 == DeleteChannelAction::Finish(removed)
            &&& s4 == DeleteChannelStep::Done
        },
{
}

} // verus!

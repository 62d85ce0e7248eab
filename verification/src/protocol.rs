//! The conversation between a run and the store: what the run asks for and
//! what the store may answer.

use crate::channels::{store_channel_views, StoreChannel, StoreChannelView};
use crate::instant::Instant;
use crate::store::{RowView, StoredProgramme};
use vstd::prelude::*;

verus! {

/// What a run asks of the store next. Every request between `Begin` and
/// `Commit` or `Rollback` belongs to one transaction.
#[derive(Debug, PartialEq, Eq)]
pub enum StoreRequest {
    /// Open the transaction of this run.
    Begin,
    /// Find the store's channels whose name is one of `names`.
    FindChannels { names: Vec<String> },
    /// Find the programme row of `channel` that starts at `start`.
    FindProgramme { channel: i64, start: Instant },
    /// Delete every programme row of `channel` that starts within
    /// `start..=end`.
    DeleteRange { channel: i64, start: Instant, end: Instant },
    /// Insert one programme row.
    Insert { channel: i64, title: String, start: Instant, end: Instant },
    /// Commit the transaction.
    Commit,
    /// Abandon the transaction.
    Rollback,
    /// Nothing more: the run is over.
    Done,
}

/// A [`StoreRequest`] as contracts see it.
pub enum RequestView {
    Begin,
    FindChannels { names: Seq<Seq<char>> },
    FindProgramme { channel: int, start: int },
    DeleteRange { channel: int, start: int, end: int },
    Insert { channel: int, title: Seq<char>, start: int, end: int },
    Commit,
    Rollback,
    Done,
}

/// The views of a list of texts, in order.
pub open spec fn text_views(texts: Seq<String>) -> Seq<Seq<char>> {
    texts.map_values(|t: String| t@)
}

impl View for StoreRequest {
    type V = RequestView;

    open spec fn view(&self) -> RequestView {
        match *self {
            StoreRequest::Begin => RequestView::Begin,
            StoreRequest::FindChannels { names } => RequestView::FindChannels {
                names: text_views(names@),
            },
            StoreRequest::FindProgramme { channel, start } => RequestView::FindProgramme {
                channel: channel as int,
                start: start@,
            },
            StoreRequest::DeleteRange { channel, start, end } => RequestView::DeleteRange {
                channel: channel as int,
                start: start@,
                end: end@,
            },
            StoreRequest::Insert { channel, title, start, end } => RequestView::Insert {
                channel: channel as int,
                title: title@,
                start: start@,
                end: end@,
            },
            StoreRequest::Commit => RequestView::Commit,
            StoreRequest::Rollback => RequestView::Rollback,
            StoreRequest::Done => RequestView::Done,
        }
    }
}

/// What the store answered to the request before.
#[derive(Debug, PartialEq, Eq)]
pub enum StoreReply {
    /// The transaction is open.
    Begun,
    /// The channels that were found.
    Channels(Vec<StoreChannel>),
    /// The programme row that was found, if there is one.
    Programme(Option<StoredProgramme>),
    /// So many rows were deleted.
    Deleted(u64),
    /// The row as it was inserted.
    Inserted(StoredProgramme),
    /// The transaction is committed.
    Committed,
    /// The transaction is abandoned.
    RolledBack,
    /// The store could not do what it was asked.
    Failed,
}

/// A [`StoreReply`] as contracts see it.
pub enum ReplyView {
    Begun,
    Channels(Seq<StoreChannelView>),
    Programme(Option<RowView>),
    Deleted(int),
    Inserted(RowView),
    Committed,
    RolledBack,
    Failed,
}

impl View for StoreReply {
    type V = ReplyView;

    open spec fn view(&self) -> ReplyView {
        match *self {
            StoreReply::Begun => ReplyView::Begun,
            StoreReply::Channels(channels) => ReplyView::Channels(store_channel_views(channels@)),
            StoreReply::Programme(row) => ReplyView::Programme(
                match row {
                    Some(row) => Some(row@),
                    None => None,
                },
            ),
            StoreReply::Deleted(count) => ReplyView::Deleted(count as int),
            StoreReply::Inserted(row) => ReplyView::Inserted(row@),
            StoreReply::Committed => ReplyView::Committed,
            StoreReply::RolledBack => ReplyView::RolledBack,
            StoreReply::Failed => ReplyView::Failed,
        }
    }
}

} // verus!

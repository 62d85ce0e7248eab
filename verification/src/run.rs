//! One reconciliation run as a state machine. The run decides; the caller
//! performs each store request and hands the store's reply back.

use crate::channels::{
    display_names, name_index, resolve, resolved_keys, unresolved_channels, ChannelKeyMap,
    StoreChannelView,
};
use crate::feed::{channel_views, programme_views, ChannelView, FeedChannel, FeedProgramme,
    ProgrammeView};
use crate::instant::day_end;
use crate::model::{
    diverges, entry_key, lemma_next_mapped, lemma_next_on_channel, next_mapped, next_on_channel,
    unmapped_entries,
};
use crate::protocol::{text_views, ReplyView, RequestView, StoreReply, StoreRequest};
use vstd::prelude::*;

verus! {

/// Why a run ended without a commit.
#[derive(Clone, Copy, Debug, PartialEq, Eq)]
pub enum ReconcileError {
    /// The store reported that it could not do what it was asked.
    StoreOperationFailure,
    /// The store's reply does not answer the request that was pending.
    UnexpectedReply,
}

/// Where a run stands: which reply it waits for.
#[derive(Clone, Copy, Debug, PartialEq, Eq)]
pub enum Phase {
    /// Waiting for the transaction to open.
    Begin,
    /// Waiting for the store's channels.
    Channels,
    /// Waiting for the stored row at the place of entry `pos`.
    Find { pos: usize },
    /// Waiting for the deletion of the window that entry `pos` opened.
    Delete { pos: usize },
    /// Waiting for the insertion of entry `scan` into the window that entry
    /// `pos` opened.
    Insert { pos: usize, scan: usize },
    /// Waiting for the commit.
    Commit,
    /// Waiting for the transaction to be abandoned after `cause`.
    Rollback { cause: ReconcileError },
    /// Over: every entry was reconciled and the transaction is committed.
    Completed,
    /// Over: nothing was committed.
    Failed { cause: ReconcileError },
}

/// A run as contracts see it.
pub struct RunView {
    /// The feed's channels.
    pub channels: Seq<ChannelView>,
    /// The feed's programme entries.
    pub programmes: Seq<ProgrammeView>,
    /// Feed identifier to store key; empty until the channels are resolved.
    pub keys: Map<Seq<char>, int>,
    /// The feed channels that the store does not know.
    pub unresolved: Seq<ChannelView>,
    /// Which reply the run waits for.
    pub phase: Phase,
}

impl RunView {
    /// What holds of every run: the feed fits in memory, the entries that the
    /// phase speaks of exist,
    /// their channels resolved, and an entry under insertion lies on the
    /// channel and inside the window of the entry that opened it.
    pub open spec fn wf(self) -> bool {
        &&& self.programmes.len() <= usize::MAX
        &&& match self.phase {
            Phase::Find { pos } => pos < self.programmes.len() && entry_key(
                self.programmes,
                self.keys,
                pos as int,
            ) is Some,
            Phase::Delete { pos } => pos < self.programmes.len() && entry_key(
                self.programmes,
                self.keys,
                pos as int,
            ) is Some,
            Phase::Insert { pos, scan } => {
                &&& pos <= scan < self.programmes.len()
                &&& entry_key(self.programmes, self.keys, pos as int) is Some
                &&& entry_key(self.programmes, self.keys, scan as int) == entry_key(
                    self.programmes,
                    self.keys,
                    pos as int,
                )
                &&& self.programmes[scan as int].start <= day_end(
                    self.programmes[pos as int].start,
                )
            },
            _ => true,
        }
    }

    /// This run in another phase.
    pub open spec fn at(self, phase: Phase) -> RunView {
        RunView { phase, ..self }
    }
}

/// The run before its first request was answered.
pub open spec fn initial_run(channels: Seq<ChannelView>, programmes: Seq<ProgrammeView>)
    -> RunView {
    RunView {
        channels,
        programmes,
        keys: Map::empty(),
        unresolved: Seq::empty(),
        phase: Phase::Begin,
    }
}

/// What a reply that does not answer the pending request ends the run with.
pub open spec fn cause_of(reply: ReplyView) -> ReconcileError {
    if reply is Failed {
        ReconcileError::StoreOperationFailure
    } else {
        ReconcileError::UnexpectedReply
    }
}

/// Inside the transaction, a reply that does not answer the pending request
/// makes the run abandon the transaction.
pub open spec fn abandon(run: RunView, reply: ReplyView) -> (RunView, RequestView) {
    (run.at(Phase::Rollback { cause: cause_of(reply) }), RequestView::Rollback)
}

/// The run moves on to the first entry from `from` on whose channel
/// resolved and asks for the stored row at its place; with no such entry
/// left it asks for the commit.
pub open spec fn advance(run: RunView, from: int) -> (RunView, RequestView) {
    let pos = next_mapped(run.programmes, run.keys, from);
    if pos >= run.programmes.len() {
        (run.at(Phase::Commit), RequestView::Commit)
    } else {
        (
            run.at(Phase::Find { pos: pos as usize }),
            RequestView::FindProgramme {
                channel: run.keys[run.programmes[pos].channel],
                start: run.programmes[pos].start,
            },
        )
    }
}

/// The run refills the window that entry `pos` opened, reading the feed
/// from entry `from` on: it asks for the insertion of the channel's next
/// entry, unless that entry starts after the window's end or there is none;
/// then the window is done and the run moves on behind entry `pos`.
pub open spec fn refill(run: RunView, pos: int, from: int) -> (RunView, RequestView) {
    let key = run.keys[run.programmes[pos].channel];
    let scan = next_on_channel(run.programmes, run.keys, key, from);
    if scan >= run.programmes.len() || run.programmes[scan].start > day_end(
        run.programmes[pos].start,
    ) {
        advance(run, pos + 1)
    } else {
        (
            run.at(Phase::Insert { pos: pos as usize, scan: scan as usize }),
            RequestView::Insert {
                channel: key,
                title: run.programmes[scan].title,
                start: run.programmes[scan].start,
                end: run.programmes[scan].end,
            },
        )
    }
}

/// The run with its channels resolved against the channels that the store
/// found.
pub open spec fn resolved_run(run: RunView, found: Seq<StoreChannelView>)
    -> RunView {
    RunView {
        keys: resolved_keys(name_index(found), run.channels),
        unresolved: unresolved_channels(name_index(found), run.channels),
        ..run
    }
}

/// The transition of a run: from where it stands and the store's reply to
/// where it stands next and what it asks for next.
pub open spec fn step_spec(run: RunView, reply: ReplyView) -> (RunView, RequestView) {
    match run.phase {
        Phase::Begin => match reply {
            ReplyView::Begun => (
                run.at(Phase::Channels),
                RequestView::FindChannels {
                    names: run.channels.map_values(|c: ChannelView| c.display_name),
                },
            ),
            _ => (run.at(Phase::Failed { cause: cause_of(reply) }), RequestView::Done),
        },
        Phase::Channels => match reply {
            ReplyView::Channels(found) => advance(resolved_run(run, found), 0),
            _ => abandon(run, reply),
        },
        Phase::Find { pos } => match reply {
            ReplyView::Programme(None) => advance(run, pos + 1),
            ReplyView::Programme(Some(row)) => if diverges(row, run.programmes[pos as int]) {
                (
                    run.at(Phase::Delete { pos }),
                    RequestView::DeleteRange {
                        channel: run.keys[run.programmes[pos as int].channel],
                        start: run.programmes[pos as int].start,
                        end: day_end(run.programmes[pos as int].start),
                    },
                )
            } else {
                advance(run, pos + 1)
            },
            _ => abandon(run, reply),
        },
        Phase::Delete { pos } => match reply {
            ReplyView::Deleted(_) => refill(run, pos as int, pos as int),
            _ => abandon(run, reply),
        },
        Phase::Insert { pos, scan } => match reply {
            ReplyView::Inserted(_) => refill(run, pos as int, scan + 1),
            _ => abandon(run, reply),
        },
        Phase::Commit => match reply {
            ReplyView::Committed => (run.at(Phase::Completed), RequestView::Done),
            _ => (run.at(Phase::Failed { cause: cause_of(reply) }), RequestView::Done),
        },
        Phase::Rollback { cause } => (run.at(Phase::Failed { cause }), RequestView::Done),
        Phase::Completed => (run, RequestView::Done),
        Phase::Failed { cause } => (run, RequestView::Done),
    }
}

/// The request that a run in a given phase waits to have answered.
pub open spec fn pending(run: RunView) -> RequestView {
    match run.phase {
        Phase::Begin => RequestView::Begin,
        Phase::Channels => RequestView::FindChannels {
            names: run.channels.map_values(|c: ChannelView| c.display_name),
        },
        Phase::Find { pos } => RequestView::FindProgramme {
            channel: run.keys[run.programmes[pos as int].channel],
            start: run.programmes[pos as int].start,
        },
        Phase::Delete { pos } => RequestView::DeleteRange {
            channel: run.keys[run.programmes[pos as int].channel],
            start: run.programmes[pos as int].start,
            end: day_end(run.programmes[pos as int].start),
        },
        Phase::Insert { pos, scan } => RequestView::Insert {
            channel: run.keys[run.programmes[pos as int].channel],
            title: run.programmes[scan as int].title,
            start: run.programmes[scan as int].start,
            end: run.programmes[scan as int].end,
        },
        Phase::Commit => RequestView::Commit,
        Phase::Rollback { cause } => RequestView::Rollback,
        Phase::Completed => RequestView::Done,
        Phase::Failed { cause } => RequestView::Done,
    }
}

/// First part of the measure by which every run ends: the entries that are
/// left, above the phases that close the run.
pub open spec fn entries_left(run: RunView) -> int {
    match run.phase {
        Phase::Begin => run.programmes.len() as int + 4,
        Phase::Channels => run.programmes.len() as int + 3,
        Phase::Find { pos } => run.programmes.len() - pos + 2,
        Phase::Delete { pos } => run.programmes.len() - pos + 2,
        Phase::Insert { pos, scan } => run.programmes.len() - pos + 2,
        Phase::Commit => 2,
        Phase::Rollback { cause } => 1,
        Phase::Completed => 0,
        Phase::Failed { cause } => 0,
    }
}

/// Second part of the measure: the requests that the current entry may
/// still cause.
pub open spec fn requests_left(run: RunView) -> int {
    match run.phase {
        Phase::Find { pos } => 2,
        Phase::Delete { pos } => 1,
        _ => 0,
    }
}

/// Third part of the measure: the entries that the current window may
/// still take in.
pub open spec fn window_left(run: RunView) -> int {
    match run.phase {
        Phase::Insert { pos, scan } => run.programmes.len() - scan,
        _ => 0,
    }
}

/// The request that a step answers with is the one that the run then waits
/// for, and a step leaves the run well formed.
pub proof fn lemma_step_asks_pending(run: RunView, reply: ReplyView)
    requires
        run.wf(),
    ensures
        step_spec(run, reply).0.wf(),
        step_spec(run, reply).1 == pending(step_spec(run, reply).0),
{
    let feed = run.programmes;
    match run.phase {
        Phase::Channels => {
            if let ReplyView::Channels(found) = reply {
                lemma_next_mapped(feed, resolved_run(run, found).keys, 0);
            }
        },
        Phase::Find { pos } => {
            lemma_next_mapped(feed, run.keys, pos + 1);
        },
        Phase::Delete { pos } => {
            lemma_next_mapped(feed, run.keys, pos + 1);
            lemma_next_on_channel(feed, run.keys, run.keys[feed[pos as int].channel], pos as int);
        },
        Phase::Insert { pos, scan } => {
            lemma_next_mapped(feed, run.keys, pos + 1);
            lemma_next_on_channel(feed, run.keys, run.keys[feed[pos as int].channel], scan + 1);
        },
        _ => {},
    }
}

/// Every run ends: each step of a run that is not over makes the measure
/// smaller, in the order of its three parts.
pub proof fn lemma_step_descends(run: RunView, reply: ReplyView)
    requires
        run.wf(),
        outcome_of(run.phase) is None,
    ensures
        ({
            let next = step_spec(run, reply).0;
            &&& 0 <= entries_left(next) && 0 <= requests_left(next) && 0 <= window_left(next)
            &&& entries_left(next) < entries_left(run) || (entries_left(next) == entries_left(run)
                && (requests_left(next) < requests_left(run) || (requests_left(next)
                == requests_left(run) && window_left(next) < window_left(run))))
        }),
{
    lemma_step_asks_pending(run, reply);
    let feed = run.programmes;
    match run.phase {
        Phase::Channels => {
            if let ReplyView::Channels(found) = reply {
                lemma_next_mapped(feed, resolved_run(run, found).keys, 0);
            }
        },
        Phase::Find { pos } => {
            lemma_next_mapped(feed, run.keys, pos + 1);
        },
        Phase::Delete { pos } => {
            lemma_next_mapped(feed, run.keys, pos + 1);
            lemma_next_on_channel(feed, run.keys, run.keys[feed[pos as int].channel], pos as int);
        },
        Phase::Insert { pos, scan } => {
            lemma_next_mapped(feed, run.keys, pos + 1);
            lemma_next_on_channel(feed, run.keys, run.keys[feed[pos as int].channel], scan + 1);
        },
        _ => {},
    }
}

/// How a run ended, once it is over.
pub open spec fn outcome_of(phase: Phase) -> Option<Result<(), ReconcileError>> {
    match phase {
        Phase::Completed => Some(Ok(())),
        Phase::Failed { cause } => Some(Err(cause)),
        _ => None,
    }
}

/// One reconciliation run over one feed snapshot.
pub struct Run {
    channels: Vec<FeedChannel>,
    programmes: Vec<FeedProgramme>,
    keys: ChannelKeyMap,
    unresolved: Vec<FeedChannel>,
    phase: Phase,
}

impl View for Run {
    type V = RunView;

    closed spec fn view(&self) -> RunView {
        RunView {
            channels: channel_views(self.channels@),
            programmes: programme_views(self.programmes@),
            keys: self.keys@,
            unresolved: channel_views(self.unresolved@),
            phase: self.phase,
        }
    }
}

fn cause(reply: &StoreReply) -> (r: ReconcileError)
    ensures
        r == cause_of(reply@),
{
    match reply {
        StoreReply::Failed => ReconcileError::StoreOperationFailure,
        _ => ReconcileError::UnexpectedReply,
    }
}

impl Run {
    #[verifier::type_invariant]
    spec fn inv(self) -> bool {
        self@.wf()
    }

    /// A run over the given snapshot, and its first request.
    pub fn new(channels: Vec<FeedChannel>, programmes: Vec<FeedProgramme>) -> (r: (
        Run,
        StoreRequest,
    ))
        ensures
            r.0@ == initial_run(channel_views(channels@), programme_views(programmes@)),
            r.0@.wf(),
            r.1@ == RequestView::Begin,
    {
        let unresolved: Vec<FeedChannel> = Vec::new();
        assert(channel_views(unresolved@) =~= Seq::<ChannelView>::empty());
        let entries = programmes.len();
        assert(programme_views(programmes@).len() == entries);
        let run = Run {
            channels,
            programmes,
            keys: ChannelKeyMap::new(),
            unresolved,
            phase: Phase::Begin,
        };
        (run, StoreRequest::Begin)
    }

    /// Which reply the run waits for.
    pub fn phase(&self) -> (r: Phase)
        ensures
            r == self@.phase,
            self@.wf(),
    {
        proof {
            use_type_invariant(self);
        }
        self.phase
    }

    /// How the run ended; `None` while it is not over.
    pub fn outcome(&self) -> (r: Option<Result<(), ReconcileError>>)
        ensures
            r == outcome_of(self@.phase),
    {
        match self.phase {
            Phase::Completed => Some(Ok(())),
            Phase::Failed { cause } => Some(Err(cause)),
            _ => None,
        }
    }

    /// The feed channels that the store does not know, in feed order. Their
    /// programmes are left out of the run.
    pub fn unresolved_channels(&self) -> (r: &Vec<FeedChannel>)
        ensures
            channel_views(r@) == self@.unresolved,
    {
        &self.unresolved
    }

    /// The places of the feed entries whose channel has no store key, in
    /// feed order. The run passes them over.
    pub fn unmapped_programmes(&self) -> (r: Vec<usize>)
        ensures
            r@.map_values(|i: usize| i as int) == unmapped_entries(self@.programmes, self@.keys),
    {
        let ghost feed = programme_views(self.programmes@);
        let mut places: Vec<usize> = Vec::new();
        let mut i: usize = 0;
        while i < self.programmes.len()
            invariant
                i <= self.programmes.len(),
                feed == programme_views(self.programmes@),
                places@.map_values(|i: usize| i as int) == unmapped_entries(
                    feed.take(i as int),
                    self.keys@,
                ),
            decreases self.programmes.len() - i,
        {
            assert(feed.take(i + 1).drop_last() =~= feed.take(i as int));
            if self.keys.get(self.programmes[i].channel_feed_id()).is_none() {
                let ghost before = places@;
                places.push(i);
                assert(places@.map_values(|i: usize| i as int) =~= before.map_values(
                    |i: usize| i as int,
                ).push(i as int));
            }
            i += 1;
        }
        assert(feed.take(i as int) =~= feed);
        places
    }

    fn advance(&mut self, from: usize) -> (request: StoreRequest)
        requires
            from <= old(self)@.programmes.len(),
        ensures
            (final(self)@, request@) == advance(old(self)@, from as int),
    {
        let ghost feed = self@.programmes;
        let mut j: usize = from;
        while j < self.programmes.len()
            invariant
                from <= j <= self.programmes.len(),
                *self == *old(self),
                feed == self@.programmes,
                next_mapped(feed, self@.keys, from as int) == next_mapped(
                    feed,
                    self@.keys,
                    j as int,
                ),
            decreases self.programmes.len() - j,
        {
            match self.keys.get(self.programmes[j].channel_feed_id()) {
                Some(key) => {
                    let start = self.programmes[j].start();
                    self.phase = Phase::Find { pos: j };
                    return StoreRequest::FindProgramme { channel: key, start };
                },
                None => {
                    j += 1;
                },
            }
        }
        self.phase = Phase::Commit;
        StoreRequest::Commit
    }

    fn refill(&mut self, pos: usize, from: usize) -> (request: StoreRequest)
        requires
            pos < old(self)@.programmes.len(),
            entry_key(old(self)@.programmes, old(self)@.keys, pos as int) is Some,
            pos <= from <= old(self)@.programmes.len(),
        ensures
            (final(self)@, request@) == refill(old(self)@, pos as int, from as int),
    {
        let ghost feed = self@.programmes;
        let key = match self.keys.get(self.programmes[pos].channel_feed_id()) {
            Some(key) => key,
            None => vstd::pervasive::unreached(),
        };
        let window_end = self.programmes[pos].start().end_of_day();
        let mut j: usize = from;
        while j < self.programmes.len()
            invariant
                pos <= from <= j <= self.programmes.len(),
                pos < self.programmes.len(),
                *self == *old(self),
                feed == self@.programmes,
                key == self@.keys[feed[pos as int].channel],
                window_end@ == day_end(feed[pos as int].start),
                entry_key(feed, self@.keys, pos as int) == Some(key as int),
                next_on_channel(feed, self@.keys, key as int, from as int) == next_on_channel(
                    feed,
                    self@.keys,
                    key as int,
                    j as int,
                ),
            decreases self.programmes.len() - j,
        {
            let on_channel = match self.keys.get(self.programmes[j].channel_feed_id()) {
                Some(other) => other == key,
                None => false,
            };
            if on_channel {
                let start = self.programmes[j].start();
                if start.is_after(&window_end) {
                    return self.advance(pos + 1);
                }
                let title = self.programmes[j].title().clone();
                let end = self.programmes[j].end();
                self.phase = Phase::Insert { pos, scan: j };
                return StoreRequest::Insert { channel: key, title, start, end };
            }
            j += 1;
        }
        self.advance(pos + 1)
    }

    /// Takes the store's reply to the pending request and answers with the
    /// next request.
    pub fn step(&mut self, reply: StoreReply) -> (request: StoreRequest)
        ensures
            (final(self)@, request@) == step_spec(old(self)@, reply@),
            final(self)@.wf(),
    {
        proof {
            use_type_invariant(&*self);
            assert(self@.wf());
            assert(self@.programmes.len() == self.programmes.len());
        }
        let request = match self.phase {
            Phase::Begin => match reply {
                StoreReply::Begun => {
                    let names = display_names(&self.channels);
                    assert(text_views(names@) =~= self@.channels.map_values(
                        |c: ChannelView| c.display_name,
                    ));
                    self.phase = Phase::Channels;
                    StoreRequest::FindChannels { names }
                },
                other => {
                    self.phase = Phase::Failed { cause: cause(&other) };
                    StoreRequest::Done
                },
            },
            Phase::Channels => match reply {
                StoreReply::Channels(found) => {
                    let resolution = resolve(&found, &self.channels);
                    self.keys = resolution.keys;
                    self.unresolved = resolution.unresolved;
                    self.advance(0)
                },
                other => {
                    self.phase = Phase::Rollback { cause: cause(&other) };
                    StoreRequest::Rollback
                },
            },
            Phase::Find { pos } => match reply {
                StoreReply::Programme(None) => self.advance(pos + 1),
                StoreReply::Programme(Some(row)) => {
                    let same_title = row.title == *self.programmes[pos].title();
                    let same_end = row.end.same(&self.programmes[pos].end());
                    if same_title && same_end {
                        self.advance(pos + 1)
                    } else {
                        let channel = match self.keys.get(self.programmes[pos].channel_feed_id()) {
                            Some(key) => key,
                            None => vstd::pervasive::unreached(),
                        };
                        let start = self.programmes[pos].start();
                        let end = start.end_of_day();
                        self.phase = Phase::Delete { pos };
                        StoreRequest::DeleteRange { channel, start, end }
                    }
                },
                other => {
                    self.phase = Phase::Rollback { cause: cause(&other) };
                    StoreRequest::Rollback
                },
            },
            Phase::Delete { pos } => match reply {
                StoreReply::Deleted(_) => self.refill(pos, pos),
                other => {
                    self.phase = Phase::Rollback { cause: cause(&other) };
                    StoreRequest::Rollback
                },
            },
            Phase::Insert { pos, scan } => match reply {
                StoreReply::Inserted(_) => self.refill(pos, scan + 1),
                other => {
                    self.phase = Phase::Rollback { cause: cause(&other) };
                    StoreRequest::Rollback
                },
            },
            Phase::Commit => match reply {
                StoreReply::Committed => {
                    self.phase = Phase::Completed;
                    StoreRequest::Done
                },
                other => {
                    self.phase = Phase::Failed { cause: cause(&other) };
                    StoreRequest::Done
                },
            },
            Phase::Rollback { cause } => {
                self.phase = Phase::Failed { cause };
                StoreRequest::Done
            },
            Phase::Completed => StoreRequest::Done,
            Phase::Failed { cause } => StoreRequest::Done,
        };
        proof {
            use_type_invariant(&*self);
        }
        request
    }
}

} // verus!

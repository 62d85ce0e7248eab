//! What one feed snapshot holds: channels and time-boxed programme entries.

use crate::instant::Instant;
use vstd::prelude::*;

verus! {

/// A channel as the feed announces it. `feed_id` names it within one snapshot
/// only; `display_name` is what the store knows it by.
#[derive(Clone, Debug, PartialEq, Eq)]
pub struct FeedChannel {
    pub feed_id: String,
    pub display_name: String,
}

/// A [`FeedChannel`] as contracts see it.
pub struct ChannelView {
    pub feed_id: Seq<char>,
    pub display_name: Seq<char>,
}

impl View for FeedChannel {
    type V = ChannelView;

    open spec fn view(&self) -> ChannelView {
        ChannelView { feed_id: self.feed_id@, display_name: self.display_name@ }
    }
}

/// One programme entry of the feed. It starts strictly before it ends.
#[derive(Debug, PartialEq, Eq)]
pub struct FeedProgramme {
    channel_feed_id: String,
    title: String,
    start: Instant,
    end: Instant,
}

/// A [`FeedProgramme`] as contracts see it, with instants as positions.
pub struct ProgrammeView {
    pub channel: Seq<char>,
    pub title: Seq<char>,
    pub start: int,
    pub end: int,
}

impl View for FeedProgramme {
    type V = ProgrammeView;

    closed spec fn view(&self) -> ProgrammeView {
        ProgrammeView {
            channel: self.channel_feed_id@,
            title: self.title@,
            start: self.start@,
            end: self.end@,
        }
    }
}

/// The views of a list of channels, in order.
pub open spec fn channel_views(channels: Seq<FeedChannel>) -> Seq<ChannelView> {
    channels.map_values(|c: FeedChannel| c@)
}

/// The views of a list of programme entries, in order.
pub open spec fn programme_views(programmes: Seq<FeedProgramme>) -> Seq<ProgrammeView> {
    programmes.map_values(|p: FeedProgramme| p@)
}

impl FeedProgramme {
    #[verifier::type_invariant]
    spec fn inv(self) -> bool {
        self.start@ < self.end@
    }

    /// An entry on feed channel `channel_feed_id`. An entry that does not
    /// start before it ends is malformed and gives `None`.
    pub fn new(channel_feed_id: String, title: String, start: Instant, end: Instant) -> (r: Option<
        FeedProgramme,
    >)
        ensures
            r is Some <==> start@ < end@,
            r matches Some(p) ==> p@ == (ProgrammeView {
                channel: channel_feed_id@,
                title: title@,
                start: start@,
                end: end@,
            }),
    {
        if start.is_before(&end) {
            Some(FeedProgramme { channel_feed_id, title, start, end })
        } else {
            None
        }
    }

    /// The feed's identifier of the channel that carries the entry.
    pub fn channel_feed_id(&self) -> (r: &String)
        ensures
            r@ == self@.channel,
    {
        &self.channel_feed_id
    }

    /// The programme's title.
    pub fn title(&self) -> (r: &String)
        ensures
            r@ == self@.title,
    {
        &self.title
    }

    /// When the programme starts.
    pub fn start(&self) -> (r: Instant)
        ensures
            r@ == self@.start,
            self@.start < self@.end,
    {
        proof {
            use_type_invariant(self);
        }
        self.start
    }

    /// When the programme ends.
    pub fn end(&self) -> (r: Instant)
        ensures
            r@ == self@.end,
            self@.start < self@.end,
    {
        proof {
            use_type_invariant(self);
        }
        self.end
    }
}

} // verus!

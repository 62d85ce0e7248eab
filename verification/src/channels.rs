//! Channel resolution: from the feed's channel identifiers to the store's
//! channel keys, joined on the display name.

use crate::feed::{channel_views, ChannelView, FeedChannel};
use vstd::prelude::*;

verus! {

/// A channel as the store knows it.
#[derive(Clone, Debug, PartialEq, Eq)]
pub struct StoreChannel {
    pub key: i64,
    pub name: String,
}

/// A [`StoreChannel`] as contracts see it.
pub struct StoreChannelView {
    pub key: int,
    pub name: Seq<char>,
}

impl View for StoreChannel {
    type V = StoreChannelView;

    open spec fn view(&self) -> StoreChannelView {
        StoreChannelView { key: self.key as int, name: self.name@ }
    }
}

/// The views of a list of store channels, in order.
pub open spec fn store_channel_views(channels: Seq<StoreChannel>) -> Seq<StoreChannelView> {
    channels.map_values(|c: StoreChannel| c@)
}

struct KeyEntry {
    id: String,
    key: i64,
}

/// A finite mapping from text to channel keys. Built once per run: it maps
/// each resolved feed identifier to the key of its channel in the store.
pub struct ChannelKeyMap {
    entries: Vec<KeyEntry>,
}

spec fn entries_map(entries: Seq<KeyEntry>) -> Map<Seq<char>, int>
    decreases entries.len(),
{
    if entries.len() == 0 {
        Map::empty()
    } else {
        entries_map(entries.drop_last()).insert(entries.last().id@, entries.last().key as int)
    }
}

impl View for ChannelKeyMap {
    type V = Map<Seq<char>, int>;

    closed spec fn view(&self) -> Map<Seq<char>, int> {
        entries_map(self.entries@)
    }
}

/// The key that `keys` gives to `id`, if it gives one.
pub open spec fn key_of(keys: Map<Seq<char>, int>, id: Seq<char>) -> Option<int> {
    if keys.contains_key(id) {
        Some(keys[id])
    } else {
        None
    }
}

impl ChannelKeyMap {
    /// A mapping that knows no identifier.
    pub fn new() -> (r: ChannelKeyMap)
        ensures
            r@ == Map::<Seq<char>, int>::empty(),
    {
        ChannelKeyMap { entries: Vec::new() }
    }

    /// Maps `id` to `key`, in place of what `id` was mapped to before.
    pub fn insert(&mut self, id: String, key: i64)
        ensures
            final(self)@ == old(self)@.insert(id@, key as int),
    {
        let ghost before = self.entries@;
        self.entries.push(KeyEntry { id, key });
        assert(self.entries@.drop_last() =~= before);
    }

    /// The key of `id`.
    pub fn get(&self, id: &String) -> (r: Option<i64>)
        ensures
            match r {
                Some(key) => key_of(self@, id@) == Some(key as int),
                None => key_of(self@, id@) is None,
            },
    {
        let mut found: Option<i64> = None;
        let mut i: usize = 0;
        while i < self.entries.len()
            invariant
                i <= self.entries.len(),
                match found {
                    Some(key) => key_of(entries_map(self.entries@.take(i as int)), id@) == Some(
                        key as int,
                    ),
                    None => key_of(entries_map(self.entries@.take(i as int)), id@) is None,
                },
            decreases self.entries.len() - i,
        {
            assert(self.entries@.take(i + 1).drop_last() =~= self.entries@.take(i as int));
            if self.entries[i].id == *id {
                found = Some(self.entries[i].key);
            }
            i += 1;
        }
        assert(self.entries@.take(i as int) =~= self.entries@);
        found
    }
}

/// The store's channels indexed by name. Where two share a name, the later
/// one counts.
pub open spec fn name_index(store: Seq<StoreChannelView>) -> Map<Seq<char>, int>
    decreases store.len(),
{
    if store.len() == 0 {
        Map::empty()
    } else {
        name_index(store.drop_last()).insert(store.last().name, store.last().key)
    }
}

/// The feed identifiers of the channels whose display name the index knows,
/// each mapped to the key under that name. Where two feed channels share an
/// identifier, the later resolved one counts.
pub open spec fn resolved_keys(index: Map<Seq<char>, int>, feed: Seq<ChannelView>) -> Map<
    Seq<char>,
    int,
>
    decreases feed.len(),
{
    if feed.len() == 0 {
        Map::empty()
    } else {
        let rest = resolved_keys(index, feed.drop_last());
        let channel = feed.last();
        if index.contains_key(channel.display_name) {
            rest.insert(channel.feed_id, index[channel.display_name])
        } else {
            rest
        }
    }
}

/// The feed channels whose display name the index does not know, in feed
/// order.
pub open spec fn unresolved_channels(index: Map<Seq<char>, int>, feed: Seq<ChannelView>) -> Seq<
    ChannelView,
>
    decreases feed.len(),
{
    if feed.len() == 0 {
        Seq::empty()
    } else {
        let rest = unresolved_channels(index, feed.drop_last());
        if index.contains_key(feed.last().display_name) {
            rest
        } else {
            rest.push(feed.last())
        }
    }
}

/// What channel resolution yields.
pub struct Resolution {
    /// Feed identifier to store key, for the channels that resolved.
    pub keys: ChannelKeyMap,
    /// The channels that did not resolve, in feed order.
    pub unresolved: Vec<FeedChannel>,
}

/// Resolves the feed's channels against the store's channels by exact match
/// of the display name. A channel without a match is reported, not fatal.
pub fn resolve(store_channels: &Vec<StoreChannel>, feed_channels: &Vec<FeedChannel>) -> (r:
    Resolution)
    ensures
        r.keys@ == resolved_keys(
            name_index(store_channel_views(store_channels@)),
            channel_views(feed_channels@),
        ),
        channel_views(r.unresolved@) == unresolved_channels(
            name_index(store_channel_views(store_channels@)),
            channel_views(feed_channels@),
        ),
{
    let ghost store = store_channel_views(store_channels@);
    let ghost feed = channel_views(feed_channels@);
    let mut index = ChannelKeyMap::new();
    let mut i: usize = 0;
    while i < store_channels.len()
        invariant
            i <= store_channels.len(),
            store == store_channel_views(store_channels@),
            index@ == name_index(store.take(i as int)),
        decreases store_channels.len() - i,
    {
        assert(store.take(i + 1).drop_last() =~= store.take(i as int));
        index.insert(store_channels[i].name.clone(), store_channels[i].key);
        i += 1;
    }
    assert(store.take(i as int) =~= store);
    let mut keys = ChannelKeyMap::new();
    let mut unresolved: Vec<FeedChannel> = Vec::new();
    let mut j: usize = 0;
    while j < feed_channels.len()
        invariant
            j <= feed_channels.len(),
            feed == channel_views(feed_channels@),
            keys@ == resolved_keys(index@, feed.take(j as int)),
            channel_views(unresolved@) == unresolved_channels(index@, feed.take(j as int)),
        decreases feed_channels.len() - j,
    {
        assert(feed.take(j + 1).drop_last() =~= feed.take(j as int));
        let channel = &feed_channels[j];
        match index.get(&channel.display_name) {
            Some(key) => {
                keys.insert(channel.feed_id.clone(), key);
            },
            None => {
                let ghost before = unresolved@;
                unresolved.push(
                    FeedChannel {
                        feed_id: channel.feed_id.clone(),
                        display_name: channel.display_name.clone(),
                    },
                );
                assert(channel_views(unresolved@) =~= channel_views(before).push(channel@));
            },
        }
        j += 1;
    }
    assert(feed.take(j as int) =~= feed);
    Resolution { keys, unresolved }
}

/// The display names of the feed's channels, in feed order: the names to ask
/// the store for.
pub fn display_names(feed_channels: &Vec<FeedChannel>) -> (names: Vec<String>)
    ensures
        names@.len() == feed_channels@.len(),
        forall|i: int|
            0 <= i < names@.len() ==> (#[trigger] names@[i])@ == feed_channels@[i].display_name@,
{
    let mut names: Vec<String> = Vec::new();
    let mut i: usize = 0;
    while i < feed_channels.len()
        invariant
            i <= feed_channels.len(),
            names@.len() == i,
            forall|k: int|
                0 <= k < i ==> (#[trigger] names@[k])@ == feed_channels@[k].display_name@,
        decreases feed_channels.len() - i,
    {
        names.push(feed_channels[i].display_name.clone());
        i += 1;
    }
    names
}

} // verus!

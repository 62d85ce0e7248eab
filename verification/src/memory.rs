//! A schedule store held in memory. It answers the requests of a run as the
//! model of the store says, which makes it the store of choice for trying a
//! run out.

use crate::channels::{store_channel_views, StoreChannel, StoreChannelView};
use crate::instant::Instant;
use crate::protocol::text_views;
use crate::store::{
    count_within, find_row, row_views, store_with, store_without, without_range, RowView,
    StoreView, StoredProgramme,
};
use vstd::prelude::*;

verus! {

/// The channels of `known` whose name is one of `names`, in the order of
/// `known`.
pub open spec fn channels_named(known: Seq<StoreChannelView>, names: Seq<Seq<char>>) -> Seq<
    StoreChannelView,
>
    decreases known.len(),
{
    if known.len() == 0 {
        known
    } else {
        let rest = channels_named(known.drop_last(), names);
        if names.contains(known.last().name) {
            rest.push(known.last())
        } else {
            rest
        }
    }
}

fn copy_row(row: &StoredProgramme) -> (r: StoredProgramme)
    ensures
        r@ == row@,
{
    StoredProgramme {
        id: row.id,
        channel_id: row.channel_id,
        title: row.title.clone(),
        start: row.start,
        end: row.end,
    }
}

fn copy_channel(channel: &StoreChannel) -> (r: StoreChannel)
    ensures
        r@ == channel@,
{
    StoreChannel { key: channel.key, name: channel.name.clone() }
}

fn is_one_of(names: &Vec<String>, name: &String) -> (r: bool)
    ensures
        r == text_views(names@).contains(name@),
{
    let mut i: usize = 0;
    while i < names.len()
        invariant
            i <= names.len(),
            forall|k: int| 0 <= k < i ==> text_views(names@)[k] != name@,
        decreases names.len() - i,
    {
        if names[i] == *name {
            assert(text_views(names@)[i as int] == name@);
            return true;
        }
        i += 1;
    }
    false
}

/// The programme rows of a store, oldest insertion first.
pub struct ProgrammeTable {
    rows: Vec<StoredProgramme>,
    next_id: i64,
}

impl View for ProgrammeTable {
    type V = StoreView;

    closed spec fn view(&self) -> StoreView {
        StoreView { rows: row_views(self.rows@), next_id: self.next_id as int }
    }
}

impl ProgrammeTable {
    /// A table without rows whose first row will get `first_id`.
    pub fn new(first_id: i64) -> (r: ProgrammeTable)
        ensures
            r@ == (StoreView { rows: Seq::empty(), next_id: first_id as int }),
    {
        let rows: Vec<StoredProgramme> = Vec::new();
        assert(row_views(rows@) =~= Seq::<RowView>::empty());
        ProgrammeTable { rows, next_id: first_id }
    }

    /// The next surrogate key is a key that a row can hold.
    pub proof fn lemma_next_id_fits(&self)
        ensures
            i64::MIN <= self@.next_id <= i64::MAX,
    {
    }

    /// The rows, oldest insertion first.
    pub fn rows(&self) -> (r: &Vec<StoredProgramme>)
        ensures
            row_views(r@) == self@.rows,
    {
        &self.rows
    }

    /// The surrogate key that the next inserted row gets.
    pub fn next_id(&self) -> (r: i64)
        ensures
            r == self@.next_id,
    {
        self.next_id
    }

    /// The row of `channel` that starts at `start`.
    pub fn find(&self, channel: i64, start: &Instant) -> (r: Option<StoredProgramme>)
        ensures
            match r {
                Some(row) => find_row(self@.rows, channel as int, start@) == Some(row@),
                None => find_row(self@.rows, channel as int, start@) is None,
            },
    {
        let ghost rows = row_views(self.rows@);
        let mut found: Option<usize> = None;
        let mut i: usize = 0;
        while i < self.rows.len()
            invariant
                i <= self.rows.len(),
                rows == row_views(self.rows@),
                match found {
                    Some(k) => k < i && find_row(rows.take(i as int), channel as int, start@)
                        == Some(rows[k as int]),
                    None => find_row(rows.take(i as int), channel as int, start@) is None,
                },
            decreases self.rows.len() - i,
        {
            assert(rows.take(i + 1).drop_last() =~= rows.take(i as int));
            if found.is_none() && self.rows[i].channel_id == channel && self.rows[i].start.same(
                start,
            ) {
                found = Some(i);
            }
            i += 1;
        }
        assert(rows.take(i as int) =~= rows);
        match found {
            Some(k) => Some(copy_row(&self.rows[k])),
            None => None,
        }
    }

    /// Deletes every row of `channel` that starts within `start..=end` and
    /// says how many there were.
    pub fn delete_range(&mut self, channel: i64, start: &Instant, end: &Instant) -> (count: u64)
        ensures
            final(self)@ == store_without(old(self)@, channel as int, start@, end@),
            count == count_within(old(self)@.rows, channel as int, start@, end@),
    {
        let ghost rows = row_views(self.rows@);
        let mut kept: Vec<StoredProgramme> = Vec::new();
        let mut count: u64 = 0;
        let mut i: usize = 0;
        assert(row_views(kept@) =~= Seq::<RowView>::empty());
        while i < self.rows.len()
            invariant
                i <= self.rows.len(),
                *self == *old(self),
                rows == row_views(self.rows@),
                count <= i,
                count == count_within(rows.take(i as int), channel as int, start@, end@),
                row_views(kept@) == without_range(
                    rows.take(i as int),
                    channel as int,
                    start@,
                    end@,
                ),
            decreases self.rows.len() - i,
        {
            assert(rows.take(i + 1).drop_last() =~= rows.take(i as int));
            let row = &self.rows[i];
            if row.channel_id == channel && !row.start.is_before(start) && !row.start.is_after(
                end,
            ) {
                count += 1;
            } else {
                let ghost before = kept@;
                kept.push(copy_row(row));
                assert(row_views(kept@) =~= row_views(before).push(row@));
            }
            i += 1;
        }
        assert(rows.take(i as int) =~= rows);
        self.rows = kept;
        count
    }

    /// Inserts one row under the next surrogate key and returns it. With the
    /// surrogate keys used up the table stays as it is and the answer is
    /// `None`.
    pub fn insert(&mut self, channel: i64, title: String, start: Instant, end: Instant) -> (r:
        Option<StoredProgramme>)
        ensures
            r is Some <==> old(self)@.next_id < i64::MAX,
            match r {
                Some(row) => final(self)@ == store_with(
                    old(self)@,
                    channel as int,
                    title@,
                    start@,
                    end@,
                ) && row@ == final(self)@.rows.last(),
                None => final(self)@ == old(self)@,
            },
    {
        if self.next_id == i64::MAX {
            return None;
        }
        let ghost before = self.rows@;
        let row = StoredProgramme { id: self.next_id, channel_id: channel, title, start, end };
        let answer = copy_row(&row);
        self.rows.push(row);
        self.next_id = self.next_id + 1;
        assert(row_views(self.rows@) =~= row_views(before).push(answer@));
        Some(answer)
    }

    /// A table that holds the same rows.
    pub fn duplicate(&self) -> (r: ProgrammeTable)
        ensures
            r@ == self@,
    {
        let mut rows: Vec<StoredProgramme> = Vec::new();
        let mut i: usize = 0;
        while i < self.rows.len()
            invariant
                i <= self.rows.len(),
                row_views(rows@) =~= row_views(self.rows@).take(i as int),
            decreases self.rows.len() - i,
        {
            let ghost before = rows@;
            rows.push(copy_row(&self.rows[i]));
            assert(row_views(rows@) =~= row_views(before).push(self.rows[i as int]@));
            i += 1;
        }
        assert(row_views(self.rows@).take(i as int) =~= row_views(self.rows@));
        ProgrammeTable { rows, next_id: self.next_id }
    }
}

/// A store in memory: the channels it knows and its programme rows.
pub struct MemoryStore {
    pub channels: Vec<StoreChannel>,
    pub programmes: ProgrammeTable,
}

impl MemoryStore {
    /// A store that knows `channels` and holds no programme row yet.
    pub fn new(channels: Vec<StoreChannel>, first_id: i64) -> (r: MemoryStore)
        ensures
            r.channels == channels,
            r.programmes@ == (StoreView { rows: Seq::empty(), next_id: first_id as int }),
    {
        MemoryStore { channels, programmes: ProgrammeTable::new(first_id) }
    }

    /// The channels whose name is one of `names`.
    pub fn find_channels(&self, names: &Vec<String>) -> (r: Vec<StoreChannel>)
        ensures
            store_channel_views(r@) == channels_named(
                store_channel_views(self.channels@),
                text_views(names@),
            ),
    {
        let ghost known = store_channel_views(self.channels@);
        let mut found: Vec<StoreChannel> = Vec::new();
        let mut i: usize = 0;
        assert(store_channel_views(found@) =~= Seq::<StoreChannelView>::empty());
        while i < self.channels.len()
            invariant
                i <= self.channels.len(),
                known == store_channel_views(self.channels@),
                store_channel_views(found@) == channels_named(
                    known.take(i as int),
                    text_views(names@),
                ),
            decreases self.channels.len() - i,
        {
            assert(known.take(i + 1).drop_last() =~= known.take(i as int));
            if is_one_of(names, &self.channels[i].name) {
                let ghost before = found@;
                found.push(copy_channel(&self.channels[i]));
                assert(store_channel_views(found@) =~= store_channel_views(before).push(
                    self.channels[i as int]@,
                ));
            }
            i += 1;
        }
        assert(known.take(i as int) =~= known);
        found
    }
}

} // verus!

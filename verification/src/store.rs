//! The persisted schedule as the reconciliation sees it: rows keyed by
//! channel and start, and the three operations a run asks of a store.

use crate::instant::Instant;
use vstd::prelude::*;

verus! {

/// One persisted programme row. `id` is the store's surrogate key; a row is
/// found again by its channel and its start.
#[derive(Clone, Debug, PartialEq, Eq)]
pub struct StoredProgramme {
    pub id: i64,
    pub channel_id: i64,
    pub title: String,
    pub start: Instant,
    pub end: Instant,
}

/// A [`StoredProgramme`] as contracts see it, with instants as positions.
pub struct RowView {
    pub id: int,
    pub channel: int,
    pub title: Seq<char>,
    pub start: int,
    pub end: int,
}

impl View for StoredProgramme {
    type V = RowView;

    open spec fn view(&self) -> RowView {
        RowView {
            id: self.id as int,
            channel: self.channel_id as int,
            title: self.title@,
            start: self.start@,
            end: self.end@,
        }
    }
}

/// The views of a list of rows, in order.
pub open spec fn row_views(rows: Seq<StoredProgramme>) -> Seq<RowView> {
    rows.map_values(|r: StoredProgramme| r@)
}

/// The programme rows of a store, oldest insertion first, and the surrogate
/// key that the next inserted row gets.
pub struct StoreView {
    pub rows: Seq<RowView>,
    pub next_id: int,
}

/// Whether `row` is the row of `channel` that starts at `start`.
pub open spec fn row_at(row: RowView, channel: int, start: int) -> bool {
    row.channel == channel && row.start == start
}

/// Whether `row` belongs to `channel` and starts within `lo..=hi`.
pub open spec fn row_within(row: RowView, channel: int, lo: int, hi: int) -> bool {
    row.channel == channel && lo <= row.start <= hi
}

/// The row of `channel` that starts at `start`: the oldest one, should the
/// store hold several.
pub open spec fn find_row(rows: Seq<RowView>, channel: int, start: int) -> Option<RowView>
    decreases rows.len(),
{
    if rows.len() == 0 {
        None
    } else {
        match find_row(rows.drop_last(), channel, start) {
            Some(row) => Some(row),
            None => if row_at(rows.last(), channel, start) {
                Some(rows.last())
            } else {
                None
            },
        }
    }
}

/// The rows that are left when every row of `channel` that starts within
/// `lo..=hi` is deleted.
pub open spec fn without_range(rows: Seq<RowView>, channel: int, lo: int, hi: int) -> Seq<RowView>
    decreases rows.len(),
{
    if rows.len() == 0 {
        rows
    } else {
        let rest = without_range(rows.drop_last(), channel, lo, hi);
        if row_within(rows.last(), channel, lo, hi) {
            rest
        } else {
            rest.push(rows.last())
        }
    }
}

/// How many rows of `channel` start within `lo..=hi`.
pub open spec fn count_within(rows: Seq<RowView>, channel: int, lo: int, hi: int) -> nat
    decreases rows.len(),
{
    if rows.len() == 0 {
        0
    } else {
        let rest = count_within(rows.drop_last(), channel, lo, hi);
        if row_within(rows.last(), channel, lo, hi) {
            rest + 1
        } else {
            rest
        }
    }
}

/// The store after the deletion of every row of `channel` that starts within
/// `lo..=hi`.
pub open spec fn store_without(store: StoreView, channel: int, lo: int, hi: int) -> StoreView {
    StoreView { rows: without_range(store.rows, channel, lo, hi), next_id: store.next_id }
}

/// The store after the insertion of one row, which gets the next surrogate
/// key.
pub open spec fn store_with(store: StoreView, channel: int, title: Seq<char>, start: int, end: int)
    -> StoreView {
    StoreView {
        rows: store.rows.push(RowView { id: store.next_id, channel, title, start, end }),
        next_id: store.next_id + 1,
    }
}

/// Looking a row up after an insertion: an older row still answers; the new
/// row answers where there was none and it is the row asked for.
pub proof fn lemma_find_after_insert(rows: Seq<RowView>, row: RowView, channel: int, start: int)
    ensures
        find_row(rows.push(row), channel, start) == match find_row(rows, channel, start) {
            Some(found) => Some(found),
            None => if row_at(row, channel, start) {
                Some(row)
            } else {
                None
            },
        },
{
    assert(rows.push(row).drop_last() =~= rows);
}

/// Looking a row up after a deletion: nothing is left inside the deleted
/// range, and outside of it every lookup answers as before.
pub proof fn lemma_find_after_delete(
    rows: Seq<RowView>,
    deleted: int,
    lo: int,
    hi: int,
    channel: int,
    start: int,
)
    ensures
        find_row(without_range(rows, deleted, lo, hi), channel, start) == if deleted == channel
            && lo <= start <= hi {
            None
        } else {
            find_row(rows, channel, start)
        },
    decreases rows.len(),
{
    if rows.len() > 0 {
        lemma_find_after_delete(rows.drop_last(), deleted, lo, hi, channel, start);
        if !row_within(rows.last(), deleted, lo, hi) {
            lemma_find_after_insert(
                without_range(rows.drop_last(), deleted, lo, hi),
                rows.last(),
                channel,
                start,
            );
        }
    }
}

/// A row that a lookup returns is a row of the store and is the row asked
/// for; a lookup returns none only where the store holds none.
pub proof fn lemma_find_row(rows: Seq<RowView>, channel: int, start: int)
    ensures
        match find_row(rows, channel, start) {
            Some(row) => rows.contains(row) && row_at(row, channel, start),
            None => forall|i: int| 0 <= i < rows.len() ==> !row_at(#[trigger] rows[i], channel, start),
        },
    decreases rows.len(),
{
    if rows.len() > 0 {
        lemma_find_row(rows.drop_last(), channel, start);
        match find_row(rows.drop_last(), channel, start) {
            Some(row) => {
                let i = choose|i: int| 0 <= i < rows.drop_last().len() && rows.drop_last()[i] == row;
                assert(rows[i] == row);
            },
            None => {
                if row_at(rows.last(), channel, start) {
                    assert(rows[rows.len() - 1] == rows.last());
                } else {
                    assert forall|i: int| 0 <= i < rows.len() implies !row_at(
                        #[trigger] rows[i],
                        channel,
                        start,
                    ) by {
                        if i < rows.len() - 1 {
                            assert(rows.drop_last()[i] == rows[i]);
                        }
                    }
                }
            },
        }
    }
}

} // verus!

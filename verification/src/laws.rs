//! What holds of every reconciliation run, proved from the model.

use crate::channels::{resolved_keys, unresolved_channels};
use crate::feed::{ChannelView, ProgrammeView};
use crate::instant::{day_end, ticks_per_day};
use crate::model::{
    diverges, entry_insert, entry_key, entry_log, lemma_next_mapped, log_from, reconcile_entry,
    reconcile_from, reconciled, run_log, triggers, window_delete, window_fill, window_log,
};
use crate::protocol::{ReplyView, RequestView};
use crate::run::{outcome_of, resolved_run, step_spec, Phase, RunView};
use crate::store::{
    find_row, lemma_find_after_delete, lemma_find_after_insert, row_within, store_with,
    store_without, without_range, RowView, StoreView,
};
use vstd::prelude::*;

verus! {

/// The entries of each store channel come in strictly ascending order of
/// their start: the feed is sorted per channel and names no start twice on
/// one channel.
pub open spec fn ascending(feed: Seq<ProgrammeView>, keys: Map<Seq<char>, int>) -> bool {
    forall|i: int, j: int|
        0 <= i < j < feed.len() && entry_key(feed, keys, i) is Some && entry_key(feed, keys, i)
            == entry_key(feed, keys, j) ==> feed[i].start < feed[j].start
}

/// No entry starts after 23:59:59 of its own UTC day, that is, within the
/// last second of the day or within a leap second that follows it.
pub open spec fn starts_in_window(feed: Seq<ProgrammeView>, keys: Map<Seq<char>, int>) -> bool {
    forall|i: int|
        0 <= i < feed.len() && entry_key(feed, keys, i) is Some ==> feed[i].start <= day_end(
            #[trigger] feed[i].start,
        )
}

/// No entry before place `n` triggers a window replacement on `rows`.
pub open spec fn settled_before(
    feed: Seq<ProgrammeView>,
    keys: Map<Seq<char>, int>,
    rows: Seq<RowView>,
    n: int,
) -> bool {
    forall|j: int| 0 <= j < n ==> !#[trigger] triggers(feed, keys, j, rows)
}

/// A stored row that says what the feed entry at its place says is left
/// alone: the entry causes no deletion and no insertion.
pub proof fn lemma_matching_entry_untouched(
    feed: Seq<ProgrammeView>,
    keys: Map<Seq<char>, int>,
    i: int,
    store: StoreView,
)
    requires
        0 <= i < feed.len(),
        entry_key(feed, keys, i) is Some,
        find_row(store.rows, entry_key(feed, keys, i)->0, feed[i].start) matches Some(row)
            && !diverges(row, feed[i]),
    ensures
        entry_log(feed, keys, i, store) == Seq::<RequestView>::empty(),
        reconcile_entry(feed, keys, i, store) == store,
{
}

/// An entry with no stored row at its place is left alone as well: a new
/// slot is filled only by the window of a changed neighbour.
pub proof fn lemma_new_entry_untouched(
    feed: Seq<ProgrammeView>,
    keys: Map<Seq<char>, int>,
    i: int,
    store: StoreView,
)
    requires
        0 <= i < feed.len(),
        entry_key(feed, keys, i) matches Some(key) ==> find_row(store.rows, key, feed[i].start)
            is None,
    ensures
        entry_log(feed, keys, i, store) == Seq::<RequestView>::empty(),
        reconcile_entry(feed, keys, i, store) == store,
{
}

/// A row that the refill of a window finds in the store is still the answer
/// after the refill: inserted rows are younger.
pub proof fn lemma_fill_keeps_found(
    feed: Seq<ProgrammeView>,
    keys: Map<Seq<char>, int>,
    key: int,
    window_end: int,
    from: int,
    store: StoreView,
    channel: int,
    start: int,
)
    requires
        find_row(store.rows, channel, start) is Some,
    ensures
        find_row(window_fill(feed, keys, key, window_end, from, store).rows, channel, start)
            == find_row(store.rows, channel, start),
    decreases feed.len() - from,
{
    if 0 <= from < feed.len() {
        if entry_key(feed, keys, from) == Some(key) {
            if feed[from].start <= window_end {
                let grown = store_with(
                    store,
                    key,
                    feed[from].title,
                    feed[from].start,
                    feed[from].end,
                );
                lemma_find_after_insert(store.rows, grown.rows.last(), channel, start);
                lemma_fill_keeps_found(feed, keys, key, window_end, from + 1, grown, channel, start);
            }
        } else {
            lemma_fill_keeps_found(feed, keys, key, window_end, from + 1, store, channel, start);
        }
    }
}

/// The refill of a window changes no lookup at a place where none of the
/// entries that it reads stands.
pub proof fn lemma_fill_spares_elsewhere(
    feed: Seq<ProgrammeView>,
    keys: Map<Seq<char>, int>,
    key: int,
    window_end: int,
    from: int,
    store: StoreView,
    channel: int,
    start: int,
)
    requires
        0 <= from,
        channel != key || forall|m: int|
            from <= m < feed.len() && #[trigger] entry_key(feed, keys, m) == Some(key)
                ==> feed[m].start != start,
    ensures
        find_row(window_fill(feed, keys, key, window_end, from, store).rows, channel, start)
            == find_row(store.rows, channel, start),
    decreases feed.len() - from,
{
    if from < feed.len() {
        if entry_key(feed, keys, from) == Some(key) {
            if feed[from].start <= window_end {
                let grown = store_with(
                    store,
                    key,
                    feed[from].title,
                    feed[from].start,
                    feed[from].end,
                );
                lemma_find_after_insert(store.rows, grown.rows.last(), channel, start);
                lemma_fill_spares_elsewhere(
                    feed,
                    keys,
                    key,
                    window_end,
                    from + 1,
                    grown,
                    channel,
                    start,
                );
            }
        } else {
            lemma_fill_spares_elsewhere(
                feed,
                keys,
                key,
                window_end,
                from + 1,
                store,
                channel,
                start,
            );
        }
    }
}

/// Change detection: where the stored row at the place of entry `i`
/// diverges from it, the run deletes the window from the entry's start to
/// the end of its UTC day and inserts from the feed, beginning with entry
/// `i` itself; afterwards the row at the entry's place says what the entry
/// says.
pub proof fn lemma_changed_entry_is_replaced(
    feed: Seq<ProgrammeView>,
    keys: Map<Seq<char>, int>,
    i: int,
    store: StoreView,
)
    requires
        0 <= i < feed.len(),
        triggers(feed, keys, i, store.rows),
        feed[i].start <= day_end(feed[i].start),
    ensures
        ({
            let key = entry_key(feed, keys, i)->0;
            let log = entry_log(feed, keys, i, store);
            let after = reconcile_entry(feed, keys, i, store);
            &&& log.len() >= 2
            &&& log[0] == window_delete(feed, key, i)
            &&& log[1] == entry_insert(key, feed[i])
            &&& find_row(after.rows, key, feed[i].start) matches Some(row) && row.title
                == feed[i].title && row.end == feed[i].end && row.channel == key && row.start
                == feed[i].start
        }),
{
    let key = entry_key(feed, keys, i)->0;
    let window_end = day_end(feed[i].start);
    let emptied = store_without(store, key, feed[i].start, window_end);
    let grown = store_with(emptied, key, feed[i].title, feed[i].start, feed[i].end);
    lemma_find_after_delete(store.rows, key, feed[i].start, window_end, key, feed[i].start);
    lemma_find_after_insert(emptied.rows, grown.rows.last(), key, feed[i].start);
    lemma_fill_keeps_found(feed, keys, key, window_end, i + 1, grown, key, feed[i].start);
    assert(window_fill(feed, keys, key, window_end, i, emptied) == window_fill(
        feed,
        keys,
        key,
        window_end,
        i + 1,
        grown,
    ));
}

/// A window replacement spares every row outside the window: rows of other
/// channels, and rows that start before the triggering entry or after the
/// end of its UTC day.
pub proof fn lemma_window_spares_outside(
    rows: Seq<RowView>,
    channel: int,
    lo: int,
    hi: int,
    row: RowView,
)
    requires
        rows.contains(row),
        !row_within(row, channel, lo, hi),
    ensures
        without_range(rows, channel, lo, hi).contains(row),
    decreases rows.len(),
{
    let last = rows.len() - 1;
    if rows[last] == row {
        let kept = without_range(rows.drop_last(), channel, lo, hi).push(row);
        assert(kept[kept.len() - 1] == row);
    } else {
        let at = choose|k: int| 0 <= k < rows.len() && rows[k] == row;
        assert(rows.drop_last()[at] == row);
        lemma_window_spares_outside(rows.drop_last(), channel, lo, hi, row);
        let rest = without_range(rows.drop_last(), channel, lo, hi);
        let k = choose|k: int| 0 <= k < rest.len() && rest[k] == row;
        if !row_within(rows[last], channel, lo, hi) {
            assert(rest.push(rows[last])[k] == row);
        }
    }
}

/// The window of an entry ends on the entry's own UTC day: every position on
/// a later day lies after it.
pub proof fn lemma_window_ends_with_day(start: int, other: int)
    requires
        other / ticks_per_day() > start / ticks_per_day(),
    ensures
        other > day_end(start),
        day_end(start) / ticks_per_day() == start / ticks_per_day(),
{
    let day = start / ticks_per_day();
    assert(day_end(start) == ticks_per_day() * day + 172_798_000_000_000);
    vstd::arithmetic::div_mod::lemma_fundamental_div_mod_converse(
        day_end(start),
        ticks_per_day(),
        day,
        172_798_000_000_000,
    );
    vstd::arithmetic::div_mod::lemma_fundamental_div_mod(other, ticks_per_day());
    vstd::arithmetic::div_mod::lemma_mod_bound(other, ticks_per_day());
    let later = other / ticks_per_day();
    assert(ticks_per_day() * later >= ticks_per_day() * (day + 1)) by (nonlinear_arith)
        requires
            later >= day + 1,
    ;
}

/// The refill of a window keeps every row that the store holds.
pub proof fn lemma_fill_keeps_rows(
    feed: Seq<ProgrammeView>,
    keys: Map<Seq<char>, int>,
    key: int,
    window_end: int,
    from: int,
    store: StoreView,
    row: RowView,
)
    requires
        store.rows.contains(row),
    ensures
        window_fill(feed, keys, key, window_end, from, store).rows.contains(row),
    decreases feed.len() - from,
{
    if 0 <= from < feed.len() {
        if entry_key(feed, keys, from) == Some(key) {
            if feed[from].start <= window_end {
                let grown = store_with(
                    store,
                    key,
                    feed[from].title,
                    feed[from].start,
                    feed[from].end,
                );
                let at = choose|k: int| 0 <= k < store.rows.len() && store.rows[k] == row;
                assert(grown.rows[at] == row);
                lemma_fill_keeps_rows(feed, keys, key, window_end, from + 1, grown, row);
            }
        } else {
            lemma_fill_keeps_rows(feed, keys, key, window_end, from + 1, store, row);
        }
    }
}

/// Window boundary: a stored row that starts on a later UTC day than entry
/// `i` is still in the store after entry `i` was reconciled, whatever the
/// entry triggered.
pub proof fn lemma_trigger_spares_later_days(
    feed: Seq<ProgrammeView>,
    keys: Map<Seq<char>, int>,
    i: int,
    store: StoreView,
    row: RowView,
)
    requires
        0 <= i < feed.len(),
        store.rows.contains(row),
        row.start / ticks_per_day() > feed[i].start / ticks_per_day(),
    ensures
        reconcile_entry(feed, keys, i, store).rows.contains(row),
{
    if triggers(feed, keys, i, store.rows) {
        let key = entry_key(feed, keys, i)->0;
        let window_end = day_end(feed[i].start);
        lemma_window_ends_with_day(feed[i].start, row.start);
        lemma_window_spares_outside(store.rows, key, feed[i].start, window_end, row);
        lemma_fill_keeps_rows(
            feed,
            keys,
            key,
            window_end,
            i,
            store_without(store, key, feed[i].start, window_end),
            row,
        );
    }
}

/// On a store where no entry from `i` on triggers, the rest of the run
/// deletes nothing, inserts nothing and leaves the store as it is.
pub proof fn lemma_settled_run_is_empty(
    feed: Seq<ProgrammeView>,
    keys: Map<Seq<char>, int>,
    i: int,
    store: StoreView,
)
    requires
        0 <= i,
        settled_before(feed, keys, store.rows, feed.len() as int),
    ensures
        log_from(feed, keys, i, store) == Seq::<RequestView>::empty(),
        reconcile_from(feed, keys, i, store) == store,
    decreases feed.len() - i,
{
    if i < feed.len() {
        assert(!triggers(feed, keys, i, store.rows));
        lemma_settled_run_is_empty(feed, keys, i + 1, store);
        assert(entry_log(feed, keys, i, store) + log_from(feed, keys, i + 1, store)
            =~= Seq::<RequestView>::empty());
    }
}

/// Reconciling entry `i` settles it and leaves the entries before it
/// settled.
pub proof fn lemma_entry_settles(
    feed: Seq<ProgrammeView>,
    keys: Map<Seq<char>, int>,
    i: int,
    store: StoreView,
)
    requires
        ascending(feed, keys),
        starts_in_window(feed, keys),
        0 <= i < feed.len(),
        settled_before(feed, keys, store.rows, i),
    ensures
        settled_before(feed, keys, reconcile_entry(feed, keys, i, store).rows, i + 1),
{
    let after = reconcile_entry(feed, keys, i, store);
    if triggers(feed, keys, i, store.rows) {
        let key = entry_key(feed, keys, i)->0;
        let window_end = day_end(feed[i].start);
        let emptied = store_without(store, key, feed[i].start, window_end);
        assert forall|j: int| 0 <= j < i + 1 implies !#[trigger] triggers(
            feed,
            keys,
            j,
            after.rows,
        ) by {
            if j == i {
                lemma_changed_entry_is_replaced(feed, keys, i, store);
            } else if entry_key(feed, keys, j) is Some {
                let other = entry_key(feed, keys, j)->0;
                assert(!triggers(feed, keys, j, store.rows));
                lemma_find_after_delete(
                    store.rows,
                    key,
                    feed[i].start,
                    window_end,
                    other,
                    feed[j].start,
                );
                if other == key {
                    assert(feed[j].start < feed[i].start);
                    assert forall|m: int|
                        i <= m < feed.len() && #[trigger] entry_key(feed, keys, m) == Some(
                            key,
                        ) implies feed[m].start != feed[j].start by {
                        if m > i {
                            assert(feed[i].start < feed[m].start);
                        }
                    }
                }
                lemma_fill_spares_elsewhere(
                    feed,
                    keys,
                    key,
                    window_end,
                    i,
                    emptied,
                    other,
                    feed[j].start,
                );
            }
        }
    } else {
        assert forall|j: int| 0 <= j < i + 1 implies !#[trigger] triggers(
            feed,
            keys,
            j,
            after.rows,
        ) by {}
    }
}

/// A run settles every entry of a feed that is in ascending order.
pub proof fn lemma_run_settles(
    feed: Seq<ProgrammeView>,
    keys: Map<Seq<char>, int>,
    i: int,
    store: StoreView,
)
    requires
        ascending(feed, keys),
        starts_in_window(feed, keys),
        0 <= i <= feed.len(),
        settled_before(feed, keys, store.rows, i),
    ensures
        settled_before(
            feed,
            keys,
            reconcile_from(feed, keys, i, store).rows,
            feed.len() as int,
        ),
    decreases feed.len() - i,
{
    if i < feed.len() {
        lemma_entry_settles(feed, keys, i, store);
        lemma_run_settles(feed, keys, i + 1, reconcile_entry(feed, keys, i, store));
    }
}

/// Idempotence: a second run with the same feed on the store that the first
/// run left deletes nothing, inserts nothing and leaves the store as it is.
/// It holds of feeds in strictly ascending order per channel whose entries
/// start no later than 23:59:59 of their UTC day.
pub proof fn lemma_second_run_changes_nothing(
    feed: Seq<ProgrammeView>,
    keys: Map<Seq<char>, int>,
    store: StoreView,
)
    requires
        ascending(feed, keys),
        starts_in_window(feed, keys),
    ensures
        run_log(feed, keys, reconciled(feed, keys, store)) == Seq::<RequestView>::empty(),
        reconciled(feed, keys, reconciled(feed, keys, store)) == reconciled(feed, keys, store),
{
    lemma_run_settles(feed, keys, 0, store);
    lemma_settled_run_is_empty(feed, keys, 0, reconciled(feed, keys, store));
}

/// Atomicity, the run's part: once the store fails, a run that is not over
/// asks for no further deletion or insertion and never for the commit. It
/// abandons the transaction where one is open, and ends as failed.
pub proof fn lemma_failure_never_commits(run: RunView, later: ReplyView)
    requires
        run.wf(),
        outcome_of(run.phase) is None,
    ensures
        ({
            let (next, request) = step_spec(run, ReplyView::Failed);
            let (last, closing) = step_spec(next, later);
            &&& request is Rollback || request is Done
            &&& request is Done ==> outcome_of(next.phase) is Some && outcome_of(next.phase)->0
                is Err
            &&& request is Rollback ==> closing is Done && outcome_of(last.phase) is Some
                && outcome_of(last.phase)->0 is Err
        }),
{
}

/// A run that is over stays over, whatever it is told.
pub proof fn lemma_finished_run_stays(run: RunView, reply: ReplyView)
    requires
        outcome_of(run.phase) is Some,
    ensures
        step_spec(run, reply) == (run, RequestView::Done),
{
}

/// A run asks for the commit only when no entry with a resolved channel is
/// left to reconcile.
pub proof fn lemma_commit_comes_last(run: RunView, reply: ReplyView)
    requires
        run.wf(),
        step_spec(run, reply).1 is Commit,
    ensures
        ({
            let next = step_spec(run, reply).0;
            match run.phase {
                Phase::Channels => forall|k: int|
                    0 <= k < next.programmes.len() ==> #[trigger] entry_key(
                        next.programmes,
                        next.keys,
                        k,
                    ) is None,
                Phase::Find { pos } => forall|k: int|
                    pos < k < run.programmes.len() ==> #[trigger] entry_key(
                        run.programmes,
                        run.keys,
                        k,
                    ) is None,
                Phase::Delete { pos } => forall|k: int|
                    pos < k < run.programmes.len() ==> #[trigger] entry_key(
                        run.programmes,
                        run.keys,
                        k,
                    ) is None,
                Phase::Insert { pos, scan } => forall|k: int|
                    pos < k < run.programmes.len() ==> #[trigger] entry_key(
                        run.programmes,
                        run.keys,
                        k,
                    ) is None,
                _ => false,
            }
        }),
{
    let feed = run.programmes;
    match run.phase {
        Phase::Channels => {
            if let ReplyView::Channels(found) = reply {
                lemma_next_mapped(feed, resolved_run(run, found).keys, 0);
            }
        },
        Phase::Find { pos } => {
            lemma_next_mapped(feed, run.keys, pos + 1);
        },
        Phase::Delete { pos } => {
            lemma_next_mapped(feed, run.keys, pos + 1);
        },
        Phase::Insert { pos, scan } => {
            lemma_next_mapped(feed, run.keys, pos + 1);
        },
        _ => {},
    }
}

/// Unmatched channel isolation, the resolver's part: where exactly one feed
/// channel has a display name that the store does not know, exactly that
/// channel is reported.
pub proof fn lemma_one_unmatched_channel(
    index: Map<Seq<char>, int>,
    feed: Seq<ChannelView>,
    unmatched: int,
)
    requires
        0 <= unmatched < feed.len(),
        !index.contains_key(feed[unmatched].display_name),
        forall|i: int|
            0 <= i < feed.len() && i != unmatched ==> index.contains_key(
                #[trigger] feed[i].display_name,
            ),
    ensures
        unresolved_channels(index, feed) == seq![feed[unmatched]],
    decreases feed.len(),
{
    let rest = feed.drop_last();
    if unmatched == feed.len() - 1 {
        lemma_all_matched(index, rest);
        assert(unresolved_channels(index, feed) =~= seq![feed[unmatched]]);
    } else {
        lemma_one_unmatched_channel(index, rest, unmatched);
    }
}

/// Where the store knows every display name, no channel is reported.
pub proof fn lemma_all_matched(index: Map<Seq<char>, int>, feed: Seq<ChannelView>)
    requires
        forall|i: int| 0 <= i < feed.len() ==> index.contains_key(#[trigger] feed[i].display_name),
    ensures
        unresolved_channels(index, feed) == Seq::<ChannelView>::empty(),
    decreases feed.len(),
{
    if feed.len() > 0 {
        lemma_all_matched(index, feed.drop_last());
    }
}

/// Unmatched channel isolation, the other channels' part: a channel whose
/// display name the store knows resolves to the key under that name,
/// whatever else the feed holds, as long as no later channel of the feed
/// resolves under the same feed identifier.
pub proof fn lemma_matched_channel_resolves(
    index: Map<Seq<char>, int>,
    feed: Seq<ChannelView>,
    i: int,
)
    requires
        0 <= i < feed.len(),
        index.contains_key(feed[i].display_name),
        forall|j: int|
            i < j < feed.len() && index.contains_key(#[trigger] feed[j].display_name)
                ==> feed[j].feed_id != feed[i].feed_id,
    ensures
        resolved_keys(index, feed).contains_key(feed[i].feed_id),
        resolved_keys(index, feed)[feed[i].feed_id] == index[feed[i].display_name],
    decreases feed.len(),
{
    if i < feed.len() - 1 {
        lemma_matched_channel_resolves(index, feed.drop_last(), i);
    }
}

/// A channel that did not resolve gets no key unless another channel of the
/// feed resolved under the same feed identifier.
pub proof fn lemma_unmatched_channel_has_no_key(
    index: Map<Seq<char>, int>,
    feed: Seq<ChannelView>,
    id: Seq<char>,
)
    requires
        forall|j: int|
            0 <= j < feed.len() && index.contains_key(#[trigger] feed[j].display_name)
                ==> feed[j].feed_id != id,
    ensures
        !resolved_keys(index, feed).contains_key(id),
    decreases feed.len(),
{
    if feed.len() > 0 {
        lemma_unmatched_channel_has_no_key(index, feed.drop_last(), id);
    }
}

/// The feed without the entries whose channel did not resolve.
pub open spec fn mapped_only(feed: Seq<ProgrammeView>, keys: Map<Seq<char>, int>) -> Seq<
    ProgrammeView,
>
    decreases feed.len(),
{
    if feed.len() == 0 {
        feed
    } else if keys.contains_key(feed[0].channel) {
        seq![feed[0]] + mapped_only(feed.skip(1), keys)
    } else {
        mapped_only(feed.skip(1), keys)
    }
}

/// The refill of a window reads the feed from a place on and does not
/// depend on what stands before that place.
pub proof fn lemma_window_reads_forward(
    feed: Seq<ProgrammeView>,
    keys: Map<Seq<char>, int>,
    key: int,
    window_end: int,
    from: int,
    cut: int,
    store: StoreView,
)
    requires
        0 <= cut <= from,
        cut <= feed.len(),
    ensures
        window_log(feed, keys, key, window_end, from) == window_log(
            feed.skip(cut),
            keys,
            key,
            window_end,
            from - cut,
        ),
        window_fill(feed, keys, key, window_end, from, store) == window_fill(
            feed.skip(cut),
            keys,
            key,
            window_end,
            from - cut,
            store,
        ),
    decreases feed.len() - from,
{
    if from < feed.len() {
        assert(feed.skip(cut)[from - cut] == feed[from]);
        if entry_key(feed, keys, from) == Some(key) {
            if feed[from].start <= window_end {
                lemma_window_reads_forward(
                    feed,
                    keys,
                    key,
                    window_end,
                    from + 1,
                    cut,
                    store_with(store, key, feed[from].title, feed[from].start, feed[from].end),
                );
            }
        } else {
            lemma_window_reads_forward(feed, keys, key, window_end, from + 1, cut, store);
        }
    }
}

/// A run reads the feed from a place on and does not depend on what stands
/// before that place.
pub proof fn lemma_run_reads_forward(
    feed: Seq<ProgrammeView>,
    keys: Map<Seq<char>, int>,
    i: int,
    cut: int,
    store: StoreView,
)
    requires
        0 <= cut <= i,
        cut <= feed.len(),
    ensures
        log_from(feed, keys, i, store) == log_from(feed.skip(cut), keys, i - cut, store),
        reconcile_from(feed, keys, i, store) == reconcile_from(
            feed.skip(cut),
            keys,
            i - cut,
            store,
        ),
    decreases feed.len() - i,
{
    if i < feed.len() {
        let rest = feed.skip(cut);
        assert(rest[i - cut] == feed[i]);
        if triggers(feed, keys, i, store.rows) {
            let key = entry_key(feed, keys, i)->0;
            let window_end = day_end(feed[i].start);
            lemma_window_reads_forward(
                feed,
                keys,
                key,
                window_end,
                i,
                cut,
                store_without(store, key, feed[i].start, window_end),
            );
        }
        assert(entry_log(feed, keys, i, store) == entry_log(rest, keys, i - cut, store));
        assert(reconcile_entry(feed, keys, i, store) == reconcile_entry(rest, keys, i - cut, store));
        lemma_run_reads_forward(feed, keys, i + 1, cut, reconcile_entry(feed, keys, i, store));
    }
}

/// The refill of a window is the same with and without the entries whose
/// channel did not resolve.
pub proof fn lemma_window_ignores_unmapped(
    feed: Seq<ProgrammeView>,
    keys: Map<Seq<char>, int>,
    key: int,
    window_end: int,
    store: StoreView,
)
    ensures
        window_log(feed, keys, key, window_end, 0) == window_log(
            mapped_only(feed, keys),
            keys,
            key,
            window_end,
            0,
        ),
        window_fill(feed, keys, key, window_end, 0, store) == window_fill(
            mapped_only(feed, keys),
            keys,
            key,
            window_end,
            0,
            store,
        ),
    decreases feed.len(),
{
    if feed.len() > 0 {
        let rest = feed.skip(1);
        let kept = mapped_only(feed, keys);
        let after = if entry_key(feed, keys, 0) == Some(key) && feed[0].start <= window_end {
            store_with(store, key, feed[0].title, feed[0].start, feed[0].end)
        } else {
            store
        };
        lemma_window_ignores_unmapped(rest, keys, key, window_end, after);
        lemma_window_reads_forward(feed, keys, key, window_end, 1, 1, after);
        if keys.contains_key(feed[0].channel) {
            assert(kept[0] == feed[0]);
            assert(kept.skip(1) =~= mapped_only(rest, keys));
            lemma_window_reads_forward(kept, keys, key, window_end, 1, 1, after);
        }
    }
}

/// Unmatched channel isolation, the run's part: the entries whose channel
/// did not resolve take no part in a run. With them and without them the run
/// deletes and inserts the same rows and leaves the same store.
pub proof fn lemma_run_ignores_unmapped(
    feed: Seq<ProgrammeView>,
    keys: Map<Seq<char>, int>,
    store: StoreView,
)
    ensures
        run_log(feed, keys, store) == run_log(mapped_only(feed, keys), keys, store),
        reconciled(feed, keys, store) == reconciled(mapped_only(feed, keys), keys, store),
    decreases feed.len(),
{
    if feed.len() > 0 {
        let rest = feed.skip(1);
        let kept = mapped_only(feed, keys);
        let after = reconcile_entry(feed, keys, 0, store);
        lemma_run_ignores_unmapped(rest, keys, after);
        lemma_run_reads_forward(feed, keys, 1, 1, after);
        if keys.contains_key(feed[0].channel) {
            assert(kept[0] == feed[0]);
            assert(kept.skip(1) =~= mapped_only(rest, keys));
            if triggers(feed, keys, 0, store.rows) {
                let key = entry_key(feed, keys, 0)->0;
                let window_end = day_end(feed[0].start);
                lemma_window_ignores_unmapped(
                    feed,
                    keys,
                    key,
                    window_end,
                    store_without(store, key, feed[0].start, window_end),
                );
            }
            assert(entry_log(kept, keys, 0, store) == entry_log(feed, keys, 0, store));
            assert(reconcile_entry(kept, keys, 0, store) == after);
            lemma_run_reads_forward(kept, keys, 1, 1, after);
        } else {
            assert(entry_log(feed, keys, 0, store) + log_from(feed, keys, 1, store) =~= log_from(
                feed,
                keys,
                1,
                store,
            ));
        }
    }
}

} // verus!

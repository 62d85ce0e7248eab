//! What a reconciliation run does to a store, stated as mathematics: which
//! rows it deletes and inserts, in which order, and what the store holds
//! afterwards.

use crate::channels::key_of;
use crate::feed::ProgrammeView;
use crate::instant::day_end;
use crate::protocol::RequestView;
use crate::store::{find_row, store_with, store_without, RowView, StoreView};
use vstd::prelude::*;

verus! {

/// The store key of the channel that carries entry `i`, if it resolved.
pub open spec fn entry_key(feed: Seq<ProgrammeView>, keys: Map<Seq<char>, int>, i: int) -> Option<
    int,
> {
    key_of(keys, feed[i].channel)
}

/// Whether a stored row no longer says what the feed entry at its place
/// says. Only the title and the end are compared.
pub open spec fn diverges(row: RowView, entry: ProgrammeView) -> bool {
    row.title != entry.title || row.end != entry.end
}

/// Whether entry `i` triggers a window replacement: its channel resolved, the
/// store holds a row of that channel at the entry's start, and the row
/// diverges from the entry.
pub open spec fn triggers(
    feed: Seq<ProgrammeView>,
    keys: Map<Seq<char>, int>,
    i: int,
    rows: Seq<RowView>,
) -> bool {
    match entry_key(feed, keys, i) {
        Some(key) => match find_row(rows, key, feed[i].start) {
            Some(row) => diverges(row, feed[i]),
            None => false,
        },
        None => false,
    }
}

/// The request that deletes the window which entry `i` opens on `key`.
pub open spec fn window_delete(feed: Seq<ProgrammeView>, key: int, i: int) -> RequestView {
    RequestView::DeleteRange { channel: key, start: feed[i].start, end: day_end(feed[i].start) }
}

/// The request that inserts feed entry `entry` as a row of `key`.
pub open spec fn entry_insert(key: int, entry: ProgrammeView) -> RequestView {
    RequestView::Insert { channel: key, title: entry.title, start: entry.start, end: entry.end }
}

/// The insertions that refill a window of `key` which ends at `window_end`,
/// reading the feed from entry `from` on: every entry of the channel is
/// inserted until one of them starts after the window's end.
pub open spec fn window_log(
    feed: Seq<ProgrammeView>,
    keys: Map<Seq<char>, int>,
    key: int,
    window_end: int,
    from: int,
) -> Seq<RequestView>
    decreases feed.len() - from,
{
    if from < 0 || from >= feed.len() {
        Seq::empty()
    } else if entry_key(feed, keys, from) == Some(key) {
        if feed[from].start > window_end {
            Seq::empty()
        } else {
            seq![entry_insert(key, feed[from])] + window_log(
                feed,
                keys,
                key,
                window_end,
                from + 1,
            )
        }
    } else {
        window_log(feed, keys, key, window_end, from + 1)
    }
}

/// The store after the insertions of [`window_log`].
pub open spec fn window_fill(
    feed: Seq<ProgrammeView>,
    keys: Map<Seq<char>, int>,
    key: int,
    window_end: int,
    from: int,
    store: StoreView,
) -> StoreView
    decreases feed.len() - from,
{
    if from < 0 || from >= feed.len() {
        store
    } else if entry_key(feed, keys, from) == Some(key) {
        if feed[from].start > window_end {
            store
        } else {
            window_fill(
                feed,
                keys,
                key,
                window_end,
                from + 1,
                store_with(store, key, feed[from].title, feed[from].start, feed[from].end),
            )
        }
    } else {
        window_fill(feed, keys, key, window_end, from + 1, store)
    }
}

/// The deletions and insertions that entry `i` causes on `store`: none, or
/// the replacement of the window from the entry's start to the end of its
/// UTC day.
pub open spec fn entry_log(
    feed: Seq<ProgrammeView>,
    keys: Map<Seq<char>, int>,
    i: int,
    store: StoreView,
) -> Seq<RequestView> {
    if triggers(feed, keys, i, store.rows) {
        let key = entry_key(feed, keys, i)->0;
        seq![window_delete(feed, key, i)] + window_log(
            feed,
            keys,
            key,
            day_end(feed[i].start),
            i,
        )
    } else {
        Seq::empty()
    }
}

/// The store after entry `i` was reconciled.
pub open spec fn reconcile_entry(
    feed: Seq<ProgrammeView>,
    keys: Map<Seq<char>, int>,
    i: int,
    store: StoreView,
) -> StoreView {
    if triggers(feed, keys, i, store.rows) {
        let key = entry_key(feed, keys, i)->0;
        let window_end = day_end(feed[i].start);
        window_fill(
            feed,
            keys,
            key,
            window_end,
            i,
            store_without(store, key, feed[i].start, window_end),
        )
    } else {
        store
    }
}

/// The deletions and insertions of the entries from `i` on, in order.
pub open spec fn log_from(
    feed: Seq<ProgrammeView>,
    keys: Map<Seq<char>, int>,
    i: int,
    store: StoreView,
) -> Seq<RequestView>
    decreases feed.len() - i,
{
    if i < 0 || i >= feed.len() {
        Seq::empty()
    } else {
        entry_log(feed, keys, i, store) + log_from(
            feed,
            keys,
            i + 1,
            reconcile_entry(feed, keys, i, store),
        )
    }
}

/// The store after the entries from `i` on were reconciled, in order.
pub open spec fn reconcile_from(
    feed: Seq<ProgrammeView>,
    keys: Map<Seq<char>, int>,
    i: int,
    store: StoreView,
) -> StoreView
    decreases feed.len() - i,
{
    if i < 0 || i >= feed.len() {
        store
    } else {
        reconcile_from(feed, keys, i + 1, reconcile_entry(feed, keys, i, store))
    }
}

/// Every deletion and insertion of a run over the whole feed, in order.
pub open spec fn run_log(feed: Seq<ProgrammeView>, keys: Map<Seq<char>, int>, store: StoreView)
    -> Seq<RequestView> {
    log_from(feed, keys, 0, store)
}

/// The store after a run over the whole feed.
pub open spec fn reconciled(feed: Seq<ProgrammeView>, keys: Map<Seq<char>, int>, store: StoreView)
    -> StoreView {
    reconcile_from(feed, keys, 0, store)
}

/// The first entry from `from` on whose channel resolved, or the length of
/// the feed if there is none.
pub open spec fn next_mapped(feed: Seq<ProgrammeView>, keys: Map<Seq<char>, int>, from: int) -> int
    decreases feed.len() - from,
{
    if from < 0 || from >= feed.len() {
        feed.len() as int
    } else if entry_key(feed, keys, from) is Some {
        from
    } else {
        next_mapped(feed, keys, from + 1)
    }
}

/// The first entry from `from` on that `key`'s channel carries, or the
/// length of the feed if there is none.
pub open spec fn next_on_channel(
    feed: Seq<ProgrammeView>,
    keys: Map<Seq<char>, int>,
    key: int,
    from: int,
) -> int
    decreases feed.len() - from,
{
    if from < 0 || from >= feed.len() {
        feed.len() as int
    } else if entry_key(feed, keys, from) == Some(key) {
        from
    } else {
        next_on_channel(feed, keys, key, from + 1)
    }
}

/// The entries whose channel did not resolve, by their place in the feed.
pub open spec fn unmapped_entries(feed: Seq<ProgrammeView>, keys: Map<Seq<char>, int>) -> Seq<int>
    decreases feed.len(),
{
    if feed.len() == 0 {
        Seq::empty()
    } else {
        let rest = unmapped_entries(feed.drop_last(), keys);
        if keys.contains_key(feed.last().channel) {
            rest
        } else {
            rest.push(feed.len() - 1)
        }
    }
}

/// Where [`next_mapped`] lands: on the first entry from `from` on whose
/// channel resolved, with none before it.
pub proof fn lemma_next_mapped(feed: Seq<ProgrammeView>, keys: Map<Seq<char>, int>, from: int)
    requires
        0 <= from <= feed.len(),
    ensures
        from <= next_mapped(feed, keys, from) <= feed.len(),
        next_mapped(feed, keys, from) < feed.len() ==> entry_key(
            feed,
            keys,
            next_mapped(feed, keys, from),
        ) is Some,
        forall|k: int|
            from <= k < next_mapped(feed, keys, from) ==> #[trigger] entry_key(feed, keys, k)
                is None,
    decreases feed.len() - from,
{
    if from < feed.len() && entry_key(feed, keys, from) is None {
        lemma_next_mapped(feed, keys, from + 1);
    }
}

/// Where [`next_on_channel`] lands: on the first entry from `from` on that
/// the channel carries, with none before it.
pub proof fn lemma_next_on_channel(
    feed: Seq<ProgrammeView>,
    keys: Map<Seq<char>, int>,
    key: int,
    from: int,
)
    requires
        0 <= from <= feed.len(),
    ensures
        from <= next_on_channel(feed, keys, key, from) <= feed.len(),
        next_on_channel(feed, keys, key, from) < feed.len() ==> entry_key(
            feed,
            keys,
            next_on_channel(feed, keys, key, from),
        ) == Some(key),
        forall|k: int|
            from <= k < next_on_channel(feed, keys, key, from) ==> #[trigger] entry_key(
                feed,
                keys,
                k,
            ) != Some(key),
    decreases feed.len() - from,
{
    if from < feed.len() && entry_key(feed, keys, from) != Some(key) {
        lemma_next_on_channel(feed, keys, key, from + 1);
    }
}

/// Entries whose channel did not resolve change nothing: a run may pass
/// them over.
pub proof fn lemma_skip_unmapped(
    feed: Seq<ProgrammeView>,
    keys: Map<Seq<char>, int>,
    from: int,
    store: StoreView,
)
    requires
        0 <= from <= feed.len(),
    ensures
        log_from(feed, keys, from, store) == log_from(
            feed,
            keys,
            next_mapped(feed, keys, from),
            store,
        ),
        reconcile_from(feed, keys, from, store) == reconcile_from(
            feed,
            keys,
            next_mapped(feed, keys, from),
            store,
        ),
    decreases feed.len() - from,
{
    if from < feed.len() && entry_key(feed, keys, from) is None {
        lemma_skip_unmapped(feed, keys, from + 1, store);
        assert(entry_log(feed, keys, from, store) + log_from(feed, keys, from + 1, store)
            =~= log_from(feed, keys, from + 1, store));
    }
}

/// Entries of other channels take no part in the refill of a window.
pub proof fn lemma_skip_off_channel(
    feed: Seq<ProgrammeView>,
    keys: Map<Seq<char>, int>,
    key: int,
    window_end: int,
    from: int,
    store: StoreView,
)
    requires
        0 <= from <= feed.len(),
    ensures
        window_log(feed, keys, key, window_end, from) == window_log(
            feed,
            keys,
            key,
            window_end,
            next_on_channel(feed, keys, key, from),
        ),
        window_fill(feed, keys, key, window_end, from, store) == window_fill(
            feed,
            keys,
            key,
            window_end,
            next_on_channel(feed, keys, key, from),
            store,
        ),
    decreases feed.len() - from,
{
    if from < feed.len() && entry_key(feed, keys, from) != Some(key) {
        lemma_skip_off_channel(feed, keys, key, window_end, from + 1, store);
    }
}

/// The refill of a window uses up surrogate keys and gives none back.
pub proof fn lemma_window_fill_grows(
    feed: Seq<ProgrammeView>,
    keys: Map<Seq<char>, int>,
    key: int,
    window_end: int,
    from: int,
    store: StoreView,
)
    ensures
        window_fill(feed, keys, key, window_end, from, store).next_id >= store.next_id,
    decreases feed.len() - from,
{
    if 0 <= from < feed.len() {
        if entry_key(feed, keys, from) == Some(key) {
            if feed[from].start <= window_end {
                lemma_window_fill_grows(
                    feed,
                    keys,
                    key,
                    window_end,
                    from + 1,
                    store_with(store, key, feed[from].title, feed[from].start, feed[from].end),
                );
            }
        } else {
            lemma_window_fill_grows(feed, keys, key, window_end, from + 1, store);
        }
    }
}

/// A run uses up surrogate keys and gives none back.
pub proof fn lemma_reconcile_grows(
    feed: Seq<ProgrammeView>,
    keys: Map<Seq<char>, int>,
    i: int,
    store: StoreView,
)
    ensures
        reconcile_from(feed, keys, i, store).next_id >= store.next_id,
    decreases feed.len() - i,
{
    if 0 <= i < feed.len() {
        if triggers(feed, keys, i, store.rows) {
            let key = entry_key(feed, keys, i)->0;
            let window_end = day_end(feed[i].start);
            lemma_window_fill_grows(
                feed,
                keys,
                key,
                window_end,
                i,
                store_without(store, key, feed[i].start, window_end),
            );
        }
        lemma_reconcile_grows(feed, keys, i + 1, reconcile_entry(feed, keys, i, store));
    }
}

} // verus!

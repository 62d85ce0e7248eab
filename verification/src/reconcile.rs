//! A whole reconciliation run against a store in memory, inside one
//! transaction: either every deletion and insertion of the run reaches the
//! store, or none does.

use crate::channels::{
    name_index, resolved_keys, store_channel_views, unresolved_channels, StoreChannelView,
};
use crate::feed::{channel_views, programme_views, ChannelView, FeedChannel, FeedProgramme};
use crate::instant::day_end;
use crate::memory::{channels_named, MemoryStore};
use crate::model::{
    entry_key, entry_log, lemma_next_mapped, lemma_next_on_channel, lemma_reconcile_grows,
    lemma_skip_off_channel, lemma_skip_unmapped, lemma_window_fill_grows, log_from, next_mapped,
    next_on_channel, reconcile_entry, reconcile_from, reconciled, run_log, triggers,
    unmapped_entries, window_fill, window_log,
};
use crate::protocol::{ReplyView, RequestView, StoreReply, StoreRequest};
use crate::run::{
    advance, entries_left, lemma_step_asks_pending, lemma_step_descends, pending, refill,
    requests_left, resolved_run, step_spec, window_left, Phase, ReconcileError, Run, RunView,
};
use crate::store::{find_row, store_with, store_without, RowView, StoreView};
use vstd::prelude::*;

verus! {

/// What a run against a store in memory did.
pub struct RunReport {
    /// How the run ended.
    pub outcome: Result<(), ReconcileError>,
    /// The feed channels that the store does not know, in feed order.
    pub unresolved: Vec<FeedChannel>,
    /// The places of the feed entries whose channel has no store key.
    pub unmapped: Vec<usize>,
    /// The deletions and insertions that the store carried out for the run,
    /// in order.
    pub mutations: Vec<StoreRequest>,
}

/// The views of a list of requests, in order.
pub open spec fn request_views(requests: Seq<StoreRequest>) -> Seq<RequestView> {
    requests.map_values(|r: StoreRequest| r@)
}

/// The channels that a store which knows `known` finds for the feed's
/// channels.
pub open spec fn found_channels(known: Seq<StoreChannelView>, channels: Seq<ChannelView>) -> Seq<
    StoreChannelView,
> {
    channels_named(known, channels.map_values(|c: ChannelView| c.display_name))
}

/// The keys that the feed's channels resolve to in a store which knows
/// `known`.
pub open spec fn store_keys(known: Seq<StoreChannelView>, channels: Seq<ChannelView>) -> Map<
    Seq<char>,
    int,
> {
    resolved_keys(name_index(found_channels(known, channels)), channels)
}

/// Whether `carried_out` is what a store carries out of `log` when it has
/// `keys_left` surrogate keys left and `log` needs more: everything up to the
/// first insertion for which no key is left.
pub open spec fn stopped_short(
    carried_out: Seq<RequestView>,
    log: Seq<RequestView>,
    keys_left: int,
) -> bool {
    &&& carried_out.is_prefix_of(log)
    &&& carried_out.len() < log.len()
    &&& log[carried_out.len() as int] is Insert
    &&& inserts_in(carried_out) == keys_left
}

/// How many insertions a list of requests holds.
pub open spec fn inserts_in(log: Seq<RequestView>) -> int
    decreases log.len(),
{
    if log.len() == 0 {
        0
    } else if log.last() is Insert {
        inserts_in(log.drop_last()) + 1
    } else {
        inserts_in(log.drop_last())
    }
}

/// Whether a run that is under way against a faithful store will end as the
/// model says: `staged` is what the transaction holds, `log` what the store
/// has carried out, `before` what the store held when the run began.
spec fn on_track(
    run: RunView,
    staged: StoreView,
    log: Seq<RequestView>,
    keys: Map<Seq<char>, int>,
    before: StoreView,
) -> bool {
    let feed = run.programmes;
    let target_log = run_log(feed, keys, before);
    let target = reconciled(feed, keys, before);
    &&& run.wf()
    &&& staged.next_id <= i64::MAX
    &&& staged.next_id == before.next_id + inserts_in(log)
    &&& match run.phase {
        Phase::Begin => staged == before && log == Seq::<RequestView>::empty(),
        Phase::Channels => staged == before && log == Seq::<RequestView>::empty(),
        Phase::Find { pos } => {
            &&& run.keys == keys
            &&& log + log_from(feed, keys, pos as int, staged) == target_log
            &&& reconcile_from(feed, keys, pos as int, staged) == target
        },
        Phase::Delete { pos } => {
            &&& run.keys == keys
            &&& log + log_from(feed, keys, pos as int, staged) == target_log
            &&& reconcile_from(feed, keys, pos as int, staged) == target
            &&& triggers(feed, keys, pos as int, staged.rows)
        },
        Phase::Insert { pos, scan } => {
            let key = keys[feed[pos as int].channel];
            let window_end = day_end(feed[pos as int].start);
            let filled = window_fill(feed, keys, key, window_end, scan as int, staged);
            &&& run.keys == keys
            &&& log + (window_log(feed, keys, key, window_end, scan as int) + log_from(
                feed,
                keys,
                pos + 1,
                filled,
            )) == target_log
            &&& reconcile_from(feed, keys, pos + 1, filled) == target
        },
        Phase::Commit => run.keys == keys && staged == target && log == target_log,
        Phase::Rollback { cause } => {
            &&& run.keys == keys
            &&& cause == ReconcileError::StoreOperationFailure
            &&& log.is_prefix_of(target_log)
            &&& log.len() < target_log.len()
            &&& target_log[log.len() as int] is Insert
            &&& staged.next_id == i64::MAX
            &&& target.next_id > i64::MAX
        },
        Phase::Completed => false,
        Phase::Failed { cause } => false,
    }
}

proof fn lemma_advance_on_track(
    run: RunView,
    from: int,
    staged: StoreView,
    log: Seq<RequestView>,
    before: StoreView,
)
    requires
        run.programmes.len() <= usize::MAX,
        0 <= from <= run.programmes.len(),
        staged.next_id <= i64::MAX,
        staged.next_id == before.next_id + inserts_in(log),
        log + log_from(run.programmes, run.keys, from, staged) == run_log(
            run.programmes,
            run.keys,
            before,
        ),
        reconcile_from(run.programmes, run.keys, from, staged) == reconciled(
            run.programmes,
            run.keys,
            before,
        ),
    ensures
        on_track(advance(run, from).0, staged, log, run.keys, before),
{
    let feed = run.programmes;
    lemma_next_mapped(feed, run.keys, from);
    lemma_skip_unmapped(feed, run.keys, from, staged);
    let pos = next_mapped(feed, run.keys, from);
    if pos >= feed.len() {
        assert(log + log_from(feed, run.keys, pos, staged) =~= log);
    }
}

proof fn lemma_refill_on_track(
    run: RunView,
    pos: int,
    from: int,
    staged: StoreView,
    log: Seq<RequestView>,
    before: StoreView,
)
    requires
        run.programmes.len() <= usize::MAX,
        0 <= pos < run.programmes.len(),
        entry_key(run.programmes, run.keys, pos) is Some,
        pos <= from <= run.programmes.len(),
        staged.next_id <= i64::MAX,
        staged.next_id == before.next_id + inserts_in(log),
        ({
            let feed = run.programmes;
            let key = run.keys[feed[pos].channel];
            let window_end = day_end(feed[pos].start);
            let filled = window_fill(feed, run.keys, key, window_end, from, staged);
            &&& log + (window_log(feed, run.keys, key, window_end, from) + log_from(
                feed,
                run.keys,
                pos + 1,
                filled,
            )) == run_log(feed, run.keys, before)
            &&& reconcile_from(feed, run.keys, pos + 1, filled) == reconciled(
                feed,
                run.keys,
                before,
            )
        }),
    ensures
        on_track(refill(run, pos, from).0, staged, log, run.keys, before),
{
    let feed = run.programmes;
    let key = run.keys[feed[pos].channel];
    let window_end = day_end(feed[pos].start);
    lemma_next_on_channel(feed, run.keys, key, from);
    lemma_skip_off_channel(feed, run.keys, key, window_end, from, staged);
    let scan = next_on_channel(feed, run.keys, key, from);
    if scan >= feed.len() || feed[scan].start > window_end {
        assert(window_log(feed, run.keys, key, window_end, scan) =~= Seq::<RequestView>::empty());
        assert(window_fill(feed, run.keys, key, window_end, scan, staged) == staged);
        assert(window_log(feed, run.keys, key, window_end, from) + log_from(
            feed,
            run.keys,
            pos + 1,
            staged,
        ) =~= log_from(feed, run.keys, pos + 1, staged));
        lemma_advance_on_track(run, pos + 1, staged, log, before);
    }
}

/// After the store found its channels, the run is on track at the first
/// entry whose channel resolved.
proof fn lemma_channels_served(
    run: RunView,
    before: StoreView,
    found: Seq<StoreChannelView>,
)
    requires
        on_track(run, before, Seq::empty(), resolved_run(run, found).keys, before),
        run.phase is Channels,
    ensures
        on_track(
            step_spec(run, ReplyView::Channels(found)).0,
            before,
            Seq::empty(),
            resolved_run(run, found).keys,
            before,
        ),
{
    let resolved = resolved_run(run, found);
    assert(Seq::<RequestView>::empty() + log_from(resolved.programmes, resolved.keys, 0, before)
        =~= run_log(resolved.programmes, resolved.keys, before));
    lemma_advance_on_track(resolved, 0, before, Seq::empty(), before);
}

/// After the store looked a row up, the run is on track: at the deletion of
/// the window, or past the entry.
proof fn lemma_find_served(
    run: RunView,
    staged: StoreView,
    log: Seq<RequestView>,
    before: StoreView,
)
    requires
        on_track(run, staged, log, run.keys, before),
        run.phase is Find,
    ensures
        ({
            let pos = run.phase->Find_pos as int;
            let entry = run.programmes[pos];
            let reply = ReplyView::Programme(
                find_row(staged.rows, run.keys[entry.channel], entry.start),
            );
            on_track(step_spec(run, reply).0, staged, log, run.keys, before)
        }),
{
    let feed = run.programmes;
    let pos = run.phase->Find_pos as int;
    if !triggers(feed, run.keys, pos, staged.rows) {
        assert(entry_log(feed, run.keys, pos, staged) + log_from(feed, run.keys, pos + 1, staged)
            =~= log_from(feed, run.keys, pos + 1, staged));
        lemma_advance_on_track(run, pos + 1, staged, log, before);
    }
}

/// After the store deleted a window, the run is on track at its refill.
proof fn lemma_delete_served(
    run: RunView,
    staged: StoreView,
    log: Seq<RequestView>,
    before: StoreView,
    count: int,
)
    requires
        on_track(run, staged, log, run.keys, before),
        run.phase is Delete,
    ensures
        ({
            let pos = run.phase->Delete_pos as int;
            let entry = run.programmes[pos];
            on_track(
                step_spec(run, ReplyView::Deleted(count)).0,
                store_without(staged, run.keys[entry.channel], entry.start, day_end(entry.start)),
                log.push(pending(run)),
                run.keys,
                before,
            )
        }),
{
    let feed = run.programmes;
    let pos = run.phase->Delete_pos as int;
    let key = run.keys[feed[pos].channel];
    let window_end = day_end(feed[pos].start);
    let emptied = store_without(staged, key, feed[pos].start, window_end);
    let filled = window_fill(feed, run.keys, key, window_end, pos, emptied);
    assert(reconcile_entry(feed, run.keys, pos, staged) == filled);
    assert(log.push(pending(run)).drop_last() =~= log);
    assert(log.push(pending(run)) + (window_log(feed, run.keys, key, window_end, pos) + log_from(
        feed,
        run.keys,
        pos + 1,
        filled,
    )) =~= log + (entry_log(feed, run.keys, pos, staged) + log_from(
        feed,
        run.keys,
        pos + 1,
        filled,
    )));
    lemma_refill_on_track(run, pos, pos, emptied, log.push(pending(run)), before);
}

/// After the store inserted a row, the run is on track at the rest of the
/// window.
proof fn lemma_insert_served(
    run: RunView,
    staged: StoreView,
    log: Seq<RequestView>,
    before: StoreView,
    row: RowView,
)
    requires
        on_track(run, staged, log, run.keys, before),
        run.phase is Insert,
        staged.next_id < i64::MAX,
    ensures
        ({
            let pos = run.phase->Insert_pos as int;
            let scan = run.phase->Insert_scan as int;
            let entry = run.programmes[scan];
            on_track(
                step_spec(run, ReplyView::Inserted(row)).0,
                store_with(
                    staged,
                    run.keys[run.programmes[pos].channel],
                    entry.title,
                    entry.start,
                    entry.end,
                ),
                log.push(pending(run)),
                run.keys,
                before,
            )
        }),
{
    let feed = run.programmes;
    let pos = run.phase->Insert_pos as int;
    let scan = run.phase->Insert_scan as int;
    let key = run.keys[feed[pos].channel];
    let window_end = day_end(feed[pos].start);
    let grown = store_with(staged, key, feed[scan].title, feed[scan].start, feed[scan].end);
    let filled = window_fill(feed, run.keys, key, window_end, scan + 1, grown);
    assert(window_fill(feed, run.keys, key, window_end, scan, staged) == filled);
    assert(log.push(pending(run)).drop_last() =~= log);
    assert(log.push(pending(run)) + (window_log(feed, run.keys, key, window_end, scan + 1)
        + log_from(feed, run.keys, pos + 1, filled)) =~= log + (window_log(
        feed,
        run.keys,
        key,
        window_end,
        scan,
    ) + log_from(feed, run.keys, pos + 1, filled)));
    lemma_refill_on_track(run, pos, scan + 1, grown, log.push(pending(run)), before);
}

/// Where the store cannot insert for want of surrogate keys, the model's run
/// needs more keys than there are, and the run abandons the transaction.
proof fn lemma_insert_failed(
    run: RunView,
    staged: StoreView,
    log: Seq<RequestView>,
    before: StoreView,
)
    requires
        on_track(run, staged, log, run.keys, before),
        run.phase is Insert,
        staged.next_id == i64::MAX,
    ensures
        on_track(step_spec(run, ReplyView::Failed).0, staged, log, run.keys, before),
{
    let feed = run.programmes;
    let pos = run.phase->Insert_pos as int;
    let scan = run.phase->Insert_scan as int;
    let key = run.keys[feed[pos].channel];
    let window_end = day_end(feed[pos].start);
    let grown = store_with(staged, key, feed[scan].title, feed[scan].start, feed[scan].end);
    let filled = window_fill(feed, run.keys, key, window_end, scan + 1, grown);
    assert(window_fill(feed, run.keys, key, window_end, scan, staged) == filled);
    lemma_window_fill_grows(feed, run.keys, key, window_end, scan + 1, grown);
    lemma_reconcile_grows(feed, run.keys, pos + 1, filled);
    let rest = window_log(feed, run.keys, key, window_end, scan) + log_from(
        feed,
        run.keys,
        pos + 1,
        filled,
    );
    assert(log =~= (log + rest).subrange(0, log.len() as int));
    assert((log + rest)[log.len() as int] == rest[0]);
}

fn closes(request: &StoreRequest) -> (r: bool)
    ensures
        r == (request@ is Commit || request@ is Rollback || request@ is Done),
{
    match request {
        StoreRequest::Commit => true,
        StoreRequest::Rollback => true,
        StoreRequest::Done => true,
        _ => false,
    }
}

/// Reconciles one feed snapshot against a store in memory. The run works on
/// a copy of the programme rows and puts it in place of the store's rows
/// when it commits; a run that fails leaves the store as it was.
///
/// The run fails only where the store runs out of surrogate keys for the
/// rows to insert.
pub fn reconcile(channels: Vec<FeedChannel>, programmes: Vec<FeedProgramme>, store: &mut MemoryStore)
    -> (report: RunReport)
    ensures
        final(store).channels == old(store).channels,
        ({
            let feed = programme_views(programmes@);
            let known = store_channel_views(old(store).channels@);
            let found = found_channels(known, channel_views(channels@));
            let keys = store_keys(known, channel_views(channels@));
            let before = old(store).programmes@;
            let target = reconciled(feed, keys, before);
            let carried_out = request_views(report.mutations@);
            &&& report.outcome is Ok <==> target.next_id <= i64::MAX
            &&& report.outcome is Ok ==> final(store).programmes@ == target && carried_out
                == run_log(feed, keys, before)
            &&& report.outcome is Err ==> report.outcome == Err::<(), ReconcileError>(
                ReconcileError::StoreOperationFailure,
            ) && final(store).programmes@ == before && stopped_short(
                carried_out,
                run_log(feed, keys, before),
                i64::MAX - before.next_id,
            )
            &&& channel_views(report.unresolved@) == unresolved_channels(
                name_index(found),
                channel_views(channels@),
            )
            &&& report.unmapped@.map_values(|i: usize| i as int) == unmapped_entries(feed, keys)
        }),
{
    let ghost feed = programme_views(programmes@);
    let ghost feed_channels = channel_views(channels@);
    let ghost known = store_channel_views(store.channels@);
    let ghost found = found_channels(known, feed_channels);
    let ghost keys = store_keys(known, feed_channels);
    let ghost before = store.programmes@;
    let mut staged = store.programmes.duplicate();
    let mut mutations: Vec<StoreRequest> = Vec::new();
    let (mut run, mut request) = Run::new(channels, programmes);
    proof {
        staged.lemma_next_id_fits();
        assert(request_views(mutations@) =~= Seq::<RequestView>::empty());
    }
    while !closes(&request)
        invariant
            *store == *old(store),
            known == store_channel_views(store.channels@),
            found == found_channels(known, feed_channels),
            keys == resolved_keys(name_index(found), feed_channels),
            before == store.programmes@,
            run@.programmes == feed,
            run@.channels == feed_channels,
            request@ == pending(run@),
            on_track(run@, staged@, request_views(mutations@), keys, before),
            !(run@.phase is Begin) && !(run@.phase is Channels) ==> run@.unresolved
                == unresolved_channels(name_index(found), feed_channels),
        decreases entries_left(run@), requests_left(run@), window_left(run@),
    {
        let ghost at = run@;
        let ghost log = request_views(mutations@);
        let ghost held = staged@;
        let mut carried_out = false;
        let reply = match &request {
            StoreRequest::Begin => StoreReply::Begun,
            StoreRequest::FindChannels { names } => {
                let answer = store.find_channels(names);
                proof {
                    assert(resolved_run(at, found).keys == keys);
                    lemma_channels_served(at, before, found);
                }
                StoreReply::Channels(answer)
            },
            StoreRequest::FindProgramme { channel, start } => {
                proof {
                    lemma_find_served(at, held, log, before);
                }
                StoreReply::Programme(staged.find(*channel, start))
            },
            StoreRequest::DeleteRange { channel, start, end } => {
                let count = staged.delete_range(*channel, start, end);
                carried_out = true;
                proof {
                    lemma_delete_served(at, held, log, before, count as int);
                }
                StoreReply::Deleted(count)
            },
            StoreRequest::Insert { channel, title, start, end } => {
                match staged.insert(*channel, title.clone(), *start, *end) {
                    Some(row) => {
                        carried_out = true;
                        proof {
                            lemma_insert_served(at, held, log, before, row@);
                        }
                        StoreReply::Inserted(row)
                    },
                    None => {
                        proof {
                            lemma_insert_failed(at, held, log, before);
                        }
                        StoreReply::Failed
                    },
                }
            },
            _ => StoreReply::Failed,
        };
        proof {
            lemma_step_asks_pending(at, reply@);
            lemma_step_descends(at, reply@);
        }
        if carried_out {
            let ghost pushed = request@;
            mutations.push(request);
            assert(request_views(mutations@) =~= log.push(pushed));
        }
        request = run.step(reply);
    }
    let ghost log = request_views(mutations@);
    match request {
        StoreRequest::Commit => {
            store.programmes = staged;
            proof {
                lemma_step_asks_pending(run@, ReplyView::Committed);
            }
            let _ = run.step(StoreReply::Committed);
        },
        StoreRequest::Rollback => {
            proof {
                lemma_step_asks_pending(run@, ReplyView::RolledBack);
            }
            let _ = run.step(StoreReply::RolledBack);
        },
        _ => {},
    }
    let outcome = match run.outcome() {
        Some(outcome) => outcome,
        None => Err(ReconcileError::UnexpectedReply),
    };
    let unmapped = run.unmapped_programmes();
    let mut unresolved: Vec<FeedChannel> = Vec::new();
    let mut i: usize = 0;
    let rest = run.unresolved_channels();
    while i < rest.len()
        invariant
            i <= rest.len(),
            channel_views(unresolved@) =~= channel_views(rest@).take(i as int),
        decreases rest.len() - i,
    {
        let ghost so_far = unresolved@;
        unresolved.push(
            FeedChannel {
                feed_id: rest[i].feed_id.clone(),
                display_name: rest[i].display_name.clone(),
            },
        );
        assert(channel_views(unresolved@) =~= channel_views(so_far).push(rest[i as int]@));
        i += 1;
    }
    assert(channel_views(rest@).take(i as int) =~= channel_views(rest@));
    RunReport { outcome, unresolved, unmapped, mutations }
}

} // verus!

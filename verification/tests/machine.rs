use guide_sync::channels::StoreChannel;
use guide_sync::feed::{FeedChannel, FeedProgramme};
use guide_sync::instant::Instant;
use guide_sync::protocol::{StoreReply, StoreRequest};
use guide_sync::run::{Phase, ReconcileError, Run};
use guide_sync::store::StoredProgramme;

const DAY: i64 = 1_709_251_200;

fn at(secs: i64) -> Instant {
    Instant::from_unix_seconds(secs).unwrap()
}

fn entry(channel: &str, title: &str, start: i64, end: i64) -> FeedProgramme {
    FeedProgramme::new(channel.to_string(), title.to_string(), at(start), at(end)).unwrap()
}

fn row(id: i64, channel: i64, title: &str, start: i64, end: i64) -> StoredProgramme {
    StoredProgramme { id, channel_id: channel, title: title.to_string(), start: at(start), end: at(end) }
}

fn channels() -> Vec<FeedChannel> {
    vec![
        FeedChannel { feed_id: "f1".to_string(), display_name: "One".to_string() },
        FeedChannel { feed_id: "f2".to_string(), display_name: "Two".to_string() },
    ]
}

fn known() -> Vec<StoreChannel> {
    vec![StoreChannel { key: 7, name: "One".to_string() }]
}

fn started(programmes: Vec<FeedProgramme>) -> (Run, StoreRequest) {
    let (mut run, first) = Run::new(channels(), programmes);
    assert_eq!(first, StoreRequest::Begin);
    assert_eq!(run.phase(), Phase::Begin);
    let asked = run.step(StoreReply::Begun);
    assert_eq!(
        asked,
        StoreRequest::FindChannels { names: vec!["One".to_string(), "Two".to_string()] }
    );
    let next = run.step(StoreReply::Channels(known()));
    (run, next)
}

#[test]
fn malformed_entry_is_refused() {
    assert!(FeedProgramme::new("f1".to_string(), "A".to_string(), at(10), at(10)).is_none());
    assert!(FeedProgramme::new("f1".to_string(), "A".to_string(), at(11), at(10)).is_none());
    let good = FeedProgramme::new("f1".to_string(), "A".to_string(), at(10), at(11)).unwrap();
    assert_eq!(good.channel_feed_id(), "f1");
    assert_eq!(good.title(), "A");
    assert!(good.start().same(&at(10)));
    assert!(good.end().same(&at(11)));
}

#[test]
fn empty_feed_commits_at_once() {
    let (mut run, first) = Run::new(Vec::new(), Vec::new());
    assert_eq!(first, StoreRequest::Begin);
    assert_eq!(run.outcome(), None);
    assert_eq!(run.step(StoreReply::Begun), StoreRequest::FindChannels { names: Vec::new() });
    assert_eq!(run.step(StoreReply::Channels(Vec::new())), StoreRequest::Commit);
    assert_eq!(run.phase(), Phase::Commit);
    assert_eq!(run.step(StoreReply::Committed), StoreRequest::Done);
    assert_eq!(run.outcome(), Some(Ok(())));
    assert_eq!(run.step(StoreReply::Begun), StoreRequest::Done);
    assert_eq!(run.outcome(), Some(Ok(())));
}

#[test]
fn unmapped_entries_are_passed_over_and_reported() {
    let feed = vec![
        entry("f2", "Elsewhere", DAY, DAY + 60),
        entry("f1", "A", DAY + 100, DAY + 200),
        entry("nowhere", "Lost", DAY + 100, DAY + 200),
    ];
    let (mut run, next) = started(feed);
    assert_eq!(next, StoreRequest::FindProgramme { channel: 7, start: at(DAY + 100) });
    assert_eq!(run.phase(), Phase::Find { pos: 1 });
    assert_eq!(run.unmapped_programmes(), vec![0, 2]);
    assert_eq!(
        run.unresolved_channels(),
        &vec![FeedChannel { feed_id: "f2".to_string(), display_name: "Two".to_string() }]
    );
    assert_eq!(run.step(StoreReply::Programme(None)), StoreRequest::Commit);
    assert_eq!(run.step(StoreReply::Committed), StoreRequest::Done);
    assert_eq!(run.outcome(), Some(Ok(())));
}

#[test]
fn matching_row_asks_for_nothing() {
    let feed = vec![entry("f1", "A", DAY, DAY + 1800), entry("f1", "B", DAY + 1800, DAY + 3600)];
    let (mut run, next) = started(feed);
    assert_eq!(next, StoreRequest::FindProgramme { channel: 7, start: at(DAY) });
    let next = run.step(StoreReply::Programme(Some(row(1, 7, "A", DAY, DAY + 1800))));
    assert_eq!(next, StoreRequest::FindProgramme { channel: 7, start: at(DAY + 1800) });
    let next = run.step(StoreReply::Programme(Some(row(2, 7, "B", DAY + 1800, DAY + 3600))));
    assert_eq!(next, StoreRequest::Commit);
}

#[test]
fn changed_title_opens_a_window() {
    let feed = vec![
        entry("f1", "B", DAY + 600, DAY + 2400),
        entry("f2", "Other", DAY + 700, DAY + 800),
        entry("f1", "C", DAY + 2400, DAY + 3000),
        entry("f1", "Tomorrow", DAY + 86_400, DAY + 86_500),
        entry("f1", "Late", DAY + 4000, DAY + 5000),
    ];
    let (mut run, next) = started(feed);
    assert_eq!(next, StoreRequest::FindProgramme { channel: 7, start: at(DAY + 600) });
    let next = run.step(StoreReply::Programme(Some(row(1, 7, "A", DAY + 600, DAY + 2400))));
    assert_eq!(
        next,
        StoreRequest::DeleteRange { channel: 7, start: at(DAY + 600), end: at(DAY + 86_399) }
    );
    assert_eq!(run.phase(), Phase::Delete { pos: 0 });
    let next = run.step(StoreReply::Deleted(3));
    assert_eq!(
        next,
        StoreRequest::Insert {
            channel: 7,
            title: "B".to_string(),
            start: at(DAY + 600),
            end: at(DAY + 2400)
        }
    );
    assert_eq!(run.phase(), Phase::Insert { pos: 0, scan: 0 });
    let next = run.step(StoreReply::Inserted(row(10, 7, "B", DAY + 600, DAY + 2400)));
    assert_eq!(
        next,
        StoreRequest::Insert {
            channel: 7,
            title: "C".to_string(),
            start: at(DAY + 2400),
            end: at(DAY + 3000)
        }
    );
    assert_eq!(run.phase(), Phase::Insert { pos: 0, scan: 2 });
    let next = run.step(StoreReply::Inserted(row(11, 7, "C", DAY + 2400, DAY + 3000)));
    assert_eq!(next, StoreRequest::FindProgramme { channel: 7, start: at(DAY + 2400) });
    assert_eq!(run.phase(), Phase::Find { pos: 2 });
}

#[test]
fn changed_end_opens_a_window() {
    let feed = vec![entry("f1", "A", DAY, DAY + 1800)];
    let (mut run, _) = started(feed);
    let next = run.step(StoreReply::Programme(Some(row(1, 7, "A", DAY, DAY + 1801))));
    assert_eq!(
        next,
        StoreRequest::DeleteRange { channel: 7, start: at(DAY), end: at(DAY + 86_399) }
    );
}

#[test]
fn only_title_and_end_are_compared() {
    let feed = vec![entry("f1", "A", DAY, DAY + 1800)];
    let (mut run, _) = started(feed);
    let next = run.step(StoreReply::Programme(Some(row(99, 1234, "A", DAY - 5, DAY + 1800))));
    assert_eq!(next, StoreRequest::Commit);
}

#[test]
fn store_failure_abandons_the_transaction() {
    let feed = vec![entry("f1", "B", DAY, DAY + 1800)];
    let (mut run, _) = started(feed);
    let next = run.step(StoreReply::Programme(Some(row(1, 7, "A", DAY, DAY + 1800))));
    assert!(matches!(next, StoreRequest::DeleteRange { .. }));
    assert_eq!(run.step(StoreReply::Failed), StoreRequest::Rollback);
    assert_eq!(
        run.phase(),
        Phase::Rollback { cause: ReconcileError::StoreOperationFailure }
    );
    assert_eq!(run.outcome(), None);
    assert_eq!(run.step(StoreReply::RolledBack), StoreRequest::Done);
    assert_eq!(run.outcome(), Some(Err(ReconcileError::StoreOperationFailure)));
    assert_eq!(run.step(StoreReply::Committed), StoreRequest::Done);
    assert_eq!(run.outcome(), Some(Err(ReconcileError::StoreOperationFailure)));
}

#[test]
fn failure_at_each_request_never_leads_to_a_commit() {
    let replies: Vec<Vec<StoreReply>> = vec![
        vec![],
        vec![StoreReply::Begun],
        vec![StoreReply::Begun, StoreReply::Channels(known())],
        vec![
            StoreReply::Begun,
            StoreReply::Channels(known()),
            StoreReply::Programme(Some(row(1, 7, "A", DAY, DAY + 1800))),
        ],
        vec![
            StoreReply::Begun,
            StoreReply::Channels(known()),
            StoreReply::Programme(Some(row(1, 7, "A", DAY, DAY + 1800))),
            StoreReply::Deleted(1),
        ],
        vec![
            StoreReply::Begun,
            StoreReply::Channels(known()),
            StoreReply::Programme(Some(row(1, 7, "A", DAY, DAY + 1800))),
            StoreReply::Deleted(1),
            StoreReply::Inserted(row(2, 7, "B", DAY, DAY + 1800)),
        ],
    ];
    for (count, prefix) in replies.into_iter().enumerate() {
        let (mut run, _) = Run::new(channels(), vec![entry("f1", "B", DAY, DAY + 1800)]);
        for reply in prefix {
            run.step(reply);
        }
        let mut request = run.step(StoreReply::Failed);
        let in_transaction = count >= 1 && count <= 4;
        if in_transaction {
            assert_eq!(request, StoreRequest::Rollback, "{}", count);
            request = run.step(StoreReply::RolledBack);
        }
        assert_eq!(request, StoreRequest::Done, "{}", count);
        assert_eq!(run.outcome(), Some(Err(ReconcileError::StoreOperationFailure)), "{}", count);
    }
}

#[test]
fn reply_that_answers_another_request_ends_the_run() {
    let (mut run, _) = started(vec![entry("f1", "B", DAY, DAY + 1800)]);
    assert_eq!(run.step(StoreReply::Deleted(0)), StoreRequest::Rollback);
    assert_eq!(run.step(StoreReply::Failed), StoreRequest::Done);
    assert_eq!(run.outcome(), Some(Err(ReconcileError::UnexpectedReply)));

    let (mut run, _) = Run::new(channels(), Vec::new());
    assert_eq!(run.step(StoreReply::Committed), StoreRequest::Done);
    assert_eq!(run.outcome(), Some(Err(ReconcileError::UnexpectedReply)));
}

#[test]
fn window_stops_at_the_first_entry_of_the_channel_past_its_end() {
    let feed = vec![
        entry("f1", "B", DAY + 85_800, DAY + 87_000),
        entry("f1", "Next day", DAY + 86_700, DAY + 88_000),
        entry("f1", "Back again", DAY + 86_000, DAY + 86_100),
    ];
    let (mut run, _) = started(feed);
    let next = run.step(StoreReply::Programme(Some(row(1, 7, "A", DAY + 85_800, DAY + 87_000))));
    assert_eq!(
        next,
        StoreRequest::DeleteRange { channel: 7, start: at(DAY + 85_800), end: at(DAY + 86_399) }
    );
    let next = run.step(StoreReply::Deleted(1));
    assert!(matches!(next, StoreRequest::Insert { .. }));
    let next = run.step(StoreReply::Inserted(row(2, 7, "B", DAY + 85_800, DAY + 87_000)));
    assert_eq!(next, StoreRequest::FindProgramme { channel: 7, start: at(DAY + 86_700) });
}

#[test]
fn start_in_a_leap_second_opens_an_empty_window() {
    let start = Instant::new(DAY + 86_399, 1_000_000_000).unwrap();
    let feed =
        vec![FeedProgramme::new("f1".to_string(), "B".to_string(), start, at(DAY + 90_000)).unwrap()];
    let (mut run, next) = started(feed);
    assert_eq!(next, StoreRequest::FindProgramme { channel: 7, start });
    let stored = StoredProgramme {
        id: 1,
        channel_id: 7,
        title: "A".to_string(),
        start,
        end: at(DAY + 90_000),
    };
    let next = run.step(StoreReply::Programme(Some(stored)));
    assert_eq!(next, StoreRequest::DeleteRange { channel: 7, start, end: at(DAY + 86_399) });
    assert_eq!(run.step(StoreReply::Deleted(0)), StoreRequest::Commit);
}

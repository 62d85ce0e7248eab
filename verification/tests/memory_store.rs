use guide_sync::channels::StoreChannel;
use guide_sync::instant::Instant;
use guide_sync::memory::{MemoryStore, ProgrammeTable};
use guide_sync::store::StoredProgramme;

fn at(secs: i64) -> Instant {
    Instant::from_unix_seconds(secs).unwrap()
}

fn row(id: i64, channel: i64, title: &str, start: i64, end: i64) -> StoredProgramme {
    StoredProgramme { id, channel_id: channel, title: title.to_string(), start: at(start), end: at(end) }
}

#[test]
fn table_hands_out_ascending_keys() {
    let mut table = ProgrammeTable::new(41);
    assert!(table.rows().is_empty());
    assert_eq!(table.next_id(), 41);
    let first = table.insert(7, "A".to_string(), at(100), at(200)).unwrap();
    let second = table.insert(8, "B".to_string(), at(100), at(300)).unwrap();
    assert_eq!(first, row(41, 7, "A", 100, 200));
    assert_eq!(second, row(42, 8, "B", 100, 300));
    assert_eq!(table.rows(), &vec![row(41, 7, "A", 100, 200), row(42, 8, "B", 100, 300)]);
    assert_eq!(table.next_id(), 43);
}

#[test]
fn table_without_keys_left_refuses_the_insert() {
    let mut table = ProgrammeTable::new(i64::MAX - 1);
    assert!(table.insert(7, "A".to_string(), at(100), at(200)).is_some());
    assert_eq!(table.next_id(), i64::MAX);
    assert_eq!(table.insert(7, "B".to_string(), at(200), at(300)), None);
    assert_eq!(table.rows(), &vec![row(i64::MAX - 1, 7, "A", 100, 200)]);
    assert_eq!(table.next_id(), i64::MAX);
}

#[test]
fn find_goes_by_channel_and_start() {
    let mut table = ProgrammeTable::new(1);
    table.insert(7, "A".to_string(), at(100), at(200));
    table.insert(8, "B".to_string(), at(100), at(200));
    table.insert(7, "C".to_string(), at(200), at(300));
    assert_eq!(table.find(7, &at(100)), Some(row(1, 7, "A", 100, 200)));
    assert_eq!(table.find(8, &at(100)), Some(row(2, 8, "B", 100, 200)));
    assert_eq!(table.find(7, &at(200)), Some(row(3, 7, "C", 200, 300)));
    assert_eq!(table.find(8, &at(200)), None);
    assert_eq!(table.find(7, &at(101)), None);
    assert_eq!(table.find(9, &at(100)), None);
    assert_eq!(table.find(7, &Instant::new(100, 1).unwrap()), None);
}

#[test]
fn find_answers_with_the_oldest_of_several() {
    let mut table = ProgrammeTable::new(1);
    table.insert(7, "A".to_string(), at(100), at(200));
    table.insert(7, "B".to_string(), at(100), at(250));
    assert_eq!(table.find(7, &at(100)), Some(row(1, 7, "A", 100, 200)));
}

#[test]
fn delete_range_takes_both_ends() {
    let mut table = ProgrammeTable::new(1);
    for start in [99, 100, 150, 200, 201] {
        table.insert(7, "A".to_string(), at(start), at(start + 10));
    }
    table.insert(8, "Other".to_string(), at(150), at(160));
    let count = table.delete_range(7, &at(100), &at(200));
    assert_eq!(count, 3);
    assert_eq!(
        table.rows(),
        &vec![row(1, 7, "A", 99, 109), row(5, 7, "A", 201, 211), row(6, 8, "Other", 150, 160)]
    );
    assert_eq!(table.next_id(), 7);
}

#[test]
fn delete_range_of_an_empty_range_deletes_nothing() {
    let mut table = ProgrammeTable::new(1);
    table.insert(7, "A".to_string(), at(100), at(200));
    assert_eq!(table.delete_range(7, &at(101), &at(100)), 0);
    assert_eq!(table.delete_range(7, &at(101), &at(300)), 0);
    assert_eq!(table.delete_range(9, &at(0), &at(300)), 0);
    assert_eq!(table.rows(), &vec![row(1, 7, "A", 100, 200)]);
}

#[test]
fn duplicate_holds_the_same_rows() {
    let mut table = ProgrammeTable::new(5);
    table.insert(7, "A".to_string(), at(100), at(200));
    table.insert(8, "B".to_string(), at(100), at(200));
    let mut copy = table.duplicate();
    assert_eq!(copy.rows(), table.rows());
    assert_eq!(copy.next_id(), table.next_id());
    copy.delete_range(7, &at(0), &at(1000));
    assert_eq!(table.rows().len(), 2);
    assert_eq!(copy.rows().len(), 1);
}

#[test]
fn store_finds_channels_by_name() {
    let store = MemoryStore::new(
        vec![
            StoreChannel { key: 1, name: "One".to_string() },
            StoreChannel { key: 2, name: "Two".to_string() },
            StoreChannel { key: 3, name: "Three".to_string() },
            StoreChannel { key: 4, name: "One".to_string() },
        ],
        1,
    );
    assert!(store.programmes.rows().is_empty());
    let found = store.find_channels(&vec!["One".to_string(), "Three".to_string(), "Four".to_string()]);
    assert_eq!(
        found,
        vec![
            StoreChannel { key: 1, name: "One".to_string() },
            StoreChannel { key: 3, name: "Three".to_string() },
            StoreChannel { key: 4, name: "One".to_string() },
        ]
    );
    assert!(store.find_channels(&Vec::new()).is_empty());
    assert!(store.find_channels(&vec!["one".to_string()]).is_empty());
}

use guide_sync::channels::{display_names, resolve, ChannelKeyMap, StoreChannel};
use guide_sync::feed::FeedChannel;

fn feed_channel(id: &str, name: &str) -> FeedChannel {
    FeedChannel { feed_id: id.to_string(), display_name: name.to_string() }
}

fn store_channel(key: i64, name: &str) -> StoreChannel {
    StoreChannel { key, name: name.to_string() }
}

#[test]
fn key_map_starts_empty() {
    let keys = ChannelKeyMap::new();
    assert_eq!(keys.get(&"c1".to_string()), None);
    assert_eq!(keys.get(&String::new()), None);
}

#[test]
fn key_map_keeps_the_latest_key() {
    let mut keys = ChannelKeyMap::new();
    keys.insert("c1".to_string(), 7);
    keys.insert("c2".to_string(), 8);
    assert_eq!(keys.get(&"c1".to_string()), Some(7));
    assert_eq!(keys.get(&"c2".to_string()), Some(8));
    assert_eq!(keys.get(&"c3".to_string()), None);
    keys.insert("c1".to_string(), 9);
    assert_eq!(keys.get(&"c1".to_string()), Some(9));
    assert_eq!(keys.get(&"c2".to_string()), Some(8));
}

#[test]
fn resolves_by_display_name() {
    let store = vec![store_channel(7, "One"), store_channel(8, "Two")];
    let feed = vec![feed_channel("a.example", "Two"), feed_channel("b.example", "One")];
    let resolution = resolve(&store, &feed);
    assert_eq!(resolution.keys.get(&"a.example".to_string()), Some(8));
    assert_eq!(resolution.keys.get(&"b.example".to_string()), Some(7));
    assert_eq!(resolution.keys.get(&"One".to_string()), None);
    assert!(resolution.unresolved.is_empty());
}

#[test]
fn one_unmatched_channel_is_reported_and_the_others_resolve() {
    let store = vec![store_channel(1, "One"), store_channel(2, "Two"), store_channel(3, "Three")];
    let feed = vec![
        feed_channel("f1", "One"),
        feed_channel("f2", "Unknown"),
        feed_channel("f3", "Two"),
        feed_channel("f4", "Three"),
    ];
    let resolution = resolve(&store, &feed);
    assert_eq!(resolution.unresolved, vec![feed_channel("f2", "Unknown")]);
    assert_eq!(resolution.keys.get(&"f1".to_string()), Some(1));
    assert_eq!(resolution.keys.get(&"f2".to_string()), None);
    assert_eq!(resolution.keys.get(&"f3".to_string()), Some(2));
    assert_eq!(resolution.keys.get(&"f4".to_string()), Some(3));
}

#[test]
fn names_match_exactly() {
    let store = vec![store_channel(1, "One")];
    let feed = vec![
        feed_channel("f1", "one"),
        feed_channel("f2", "One "),
        feed_channel("f3", " One"),
        feed_channel("f4", "One"),
    ];
    let resolution = resolve(&store, &feed);
    assert_eq!(
        resolution.unresolved,
        vec![feed_channel("f1", "one"), feed_channel("f2", "One "), feed_channel("f3", " One")]
    );
    assert_eq!(resolution.keys.get(&"f4".to_string()), Some(1));
    assert_eq!(resolution.keys.get(&"f1".to_string()), None);
}

#[test]
fn later_store_channel_of_a_name_counts() {
    let store = vec![store_channel(1, "One"), store_channel(5, "One")];
    let feed = vec![feed_channel("f1", "One")];
    let resolution = resolve(&store, &feed);
    assert_eq!(resolution.keys.get(&"f1".to_string()), Some(5));
}

#[test]
fn later_feed_channel_of_an_identifier_counts() {
    let store = vec![store_channel(1, "One"), store_channel(2, "Two")];
    let feed =
        vec![feed_channel("f1", "One"), feed_channel("f1", "Two"), feed_channel("f1", "Nowhere")];
    let resolution = resolve(&store, &feed);
    assert_eq!(resolution.keys.get(&"f1".to_string()), Some(2));
    assert_eq!(resolution.unresolved, vec![feed_channel("f1", "Nowhere")]);
}

#[test]
fn resolves_nothing_from_nothing() {
    let resolution = resolve(&Vec::new(), &vec![feed_channel("f1", "One")]);
    assert_eq!(resolution.unresolved, vec![feed_channel("f1", "One")]);
    assert_eq!(resolution.keys.get(&"f1".to_string()), None);
    let resolution = resolve(&vec![store_channel(1, "One")], &Vec::new());
    assert!(resolution.unresolved.is_empty());
}

#[test]
fn display_names_come_in_feed_order() {
    let feed = vec![feed_channel("f1", "One"), feed_channel("f2", "Two"), feed_channel("f3", "One")];
    assert_eq!(display_names(&feed), vec!["One".to_string(), "Two".to_string(), "One".to_string()]);
    assert!(display_names(&Vec::new()).is_empty());
}

use feed_subscription::{FeedState, Item, MergeResult, SessionSummaryRecord, Subscription};

fn item(title: &str) -> Item {
    Item::new(title.to_string(), vec![format!("http://feed.example/{}", title)])
}

fn titles(items: &Vec<Item>) -> Vec<String> {
    items.iter().map(|i| i.title().clone()).collect()
}

fn report(new_count: usize, duplicates: usize, backlog: usize) -> MergeResult {
    MergeResult {
        new_count,
        skipped_duplicate_count: duplicates,
        skipped_backlog_count: backlog,
    }
}

#[test]
fn new_subscription_has_the_defaults() {
    let sub = Subscription::new("http://feed.example/rss", "Example Cast", None);
    assert_eq!(sub.url(), "http://feed.example/rss");
    assert_eq!(sub.original_url(), "http://feed.example/rss");
    assert_eq!(sub.name(), "Example Cast");
    assert_eq!(sub.directory(), "fakedir");
    assert_eq!(sub.backlog_limit(), Some(0));
    assert_eq!(sub.use_title_as_filename(), Some(false));
    assert_eq!(sub.get_latest_entry_number(), 0);
    assert_eq!(sub.feed_state(), &FeedState::new());
}

#[test]
fn new_subscription_takes_the_given_directory() {
    let sub = Subscription::new("u", "n", Some("/var/casts"));
    assert_eq!(sub.directory(), "/var/casts");
    assert_eq!(feed_subscription::subscription::process_directory(Some("x")), "x");
    assert_eq!(feed_subscription::subscription::process_directory(None), "fakedir");
}

#[test]
fn accessors_return_the_fields() {
    let mut sub = Subscription::new("u", "n", Some("d"));
    sub.set_url("moved".to_string());
    sub.set_backlog_limit(Some(3));
    sub.set_use_title_as_filename(None);
    assert_eq!(sub.url(), "moved");
    assert_eq!(sub.original_url(), "u");
    assert_eq!(sub.name(), "n");
    assert_eq!(sub.directory(), "d");
    assert_eq!(sub.backlog_limit(), Some(3));
    assert_eq!(sub.use_title_as_filename(), None);
}

#[test]
fn names_of_an_empty_state_are_empty() {
    let sub = Subscription::new("u", "n", None);
    assert_eq!(sub.get_latest_entry_name(), "");
    assert_eq!(sub.get_earliest_entry_name(), "");
}

#[test]
fn latest_name_after_one_item() {
    let mut sub = Subscription::new("u", "n", None);
    sub.merge(&vec![item("Episode 1")]);
    assert_eq!(sub.get_latest_entry_name(), "Episode 1");
    assert_eq!(sub.get_earliest_entry_name(), "Episode 1");
}

#[test]
fn earliest_name_after_three_items() {
    let mut sub = Subscription::new("u", "n", None);
    sub.merge(&vec![item("A"), item("B"), item("C")]);
    assert_eq!(sub.get_earliest_entry_name(), "C");
    assert_eq!(sub.get_latest_entry_name(), "A");
    assert_eq!(sub.get_latest_entry_number(), 3);
}

#[test]
fn single_new_item_under_limit_zero_is_taken_in() {
    let mut sub = Subscription::new("u", "n", None);
    assert_eq!(sub.backlog_limit(), Some(0));
    let result = sub.merge(&vec![item("Only")]);
    assert_eq!(result, report(1, 0, 0));
    assert_eq!(sub.get_latest_entry_number(), 1);
    assert_eq!(sub.feed_state().entries()[0], item("Only"));
    assert_eq!(sub.feed_state().queue(), &vec![item("Only")]);

    let result = sub.merge(&vec![item("Next")]);
    assert_eq!(result, report(1, 0, 0));
    assert_eq!(sub.get_latest_entry_number(), 2);
    assert_eq!(sub.feed_state().entries()[0], item("Next"));
    assert_eq!(sub.feed_state().queue(), &vec![item("Only"), item("Next")]);
}

#[test]
fn merging_the_same_batch_twice_takes_nothing_in() {
    let mut sub = Subscription::new("u", "n", None);
    let batch = vec![item("A"), item("B"), item("C")];
    assert_eq!(sub.merge(&batch), report(3, 0, 0));
    let before = sub.clone();
    assert_eq!(sub.merge(&batch), report(0, 3, 0));
    assert_eq!(sub.get_latest_entry_number(), 3);
    assert_eq!(sub, before);
}

#[test]
fn merge_orders_entries_queue_and_log() {
    let mut state = FeedState::new();
    let result = state.merge(&vec![item("C"), item("B"), item("A")], None);
    assert_eq!(result, report(3, 0, 0));
    assert_eq!(titles(state.entries()), vec!["C", "B", "A"]);
    assert_eq!(titles(state.queue()), vec!["A", "B", "C"]);
    assert_eq!(state.latest_entry_number(), 3);
    let log = state.summary_queue();
    assert_eq!(log.len(), 3);
    assert_eq!(log[0], SessionSummaryRecord::new(1, "A".to_string()));
    assert_eq!(log[1], SessionSummaryRecord::new(2, "B".to_string()));
    assert_eq!(log[2], SessionSummaryRecord::new(3, "C".to_string()));
    assert!(log[0].is_current_session);

    let result = state.merge(&vec![item("E"), item("C"), item("D")], Some(0));
    assert_eq!(result, report(2, 1, 0));
    assert_eq!(titles(state.entries()), vec!["E", "D", "C", "B", "A"]);
    assert_eq!(titles(state.queue()), vec!["A", "B", "C", "D", "E"]);
    assert_eq!(state.latest_entry_number(), 5);
    assert_eq!(state.summary_queue()[3], SessionSummaryRecord::new(4, "D".to_string()));
    assert_eq!(state.summary_queue()[4], SessionSummaryRecord::new(5, "E".to_string()));
}

#[test]
fn merge_keeps_only_the_most_recent_under_a_limit() {
    let mut state = FeedState::new();
    let batch = vec![item("D"), item("C"), item("B"), item("A")];
    let result = state.merge(&batch, Some(2));
    assert_eq!(result, report(2, 0, 2));
    assert_eq!(titles(state.entries()), vec!["D", "C"]);
    assert_eq!(titles(state.queue()), vec!["C", "D"]);
    assert_eq!(state.latest_entry_number(), 2);

    let result = state.merge(&batch, Some(2));
    assert_eq!(result, report(2, 2, 0));
    assert_eq!(titles(state.entries()), vec!["B", "A", "D", "C"]);
    assert_eq!(state.latest_entry_number(), 4);
}

#[test]
fn limit_that_is_not_exceeded_cuts_nothing() {
    let mut state = FeedState::new();
    let result = state.merge(&vec![item("B"), item("A")], Some(2));
    assert_eq!(result, report(2, 0, 0));
    let result = state.merge(&vec![item("C")], Some(5));
    assert_eq!(result, report(1, 0, 0));
    assert_eq!(titles(state.entries()), vec!["C", "B", "A"]);
}

#[test]
fn subscription_merges_under_its_own_limit() {
    let mut sub = Subscription::new("u", "n", None);
    sub.set_backlog_limit(Some(1));
    let result = sub.merge(&vec![item("B"), item("A")]);
    assert_eq!(result, report(1, 0, 1));
    assert_eq!(sub.get_latest_entry_name(), "B");
    assert_eq!(sub.get_latest_entry_number(), 1);
    sub.set_backlog_limit(None);
    let result = sub.merge(&vec![item("B"), item("A")]);
    assert_eq!(result, report(1, 1, 0));
    assert_eq!(sub.get_latest_entry_name(), "A");
    assert_eq!(sub.name(), "n");
    assert_eq!(sub.url(), "u");
}

#[test]
fn merge_of_nothing_changes_nothing() {
    let mut state = FeedState::new();
    state.merge(&vec![item("A")], None);
    let before = state.clone();
    assert_eq!(state.merge(&Vec::new(), Some(3)), report(0, 0, 0));
    assert_eq!(state, before);
}

#[test]
fn items_differ_by_title_or_by_locations() {
    let plain = Item::new("A".to_string(), vec!["x".to_string(), "y".to_string()]);
    let swapped = Item::new("A".to_string(), vec!["y".to_string(), "x".to_string()]);
    let fewer = Item::new("A".to_string(), vec!["x".to_string()]);
    let renamed = Item::new("B".to_string(), vec!["x".to_string(), "y".to_string()]);
    assert_eq!(plain, plain.clone());
    assert_ne!(plain, swapped);
    assert_ne!(plain, fewer);
    assert_ne!(plain, renamed);

    let mut state = FeedState::new();
    assert_eq!(state.merge(&vec![plain.clone()], None), report(1, 0, 0));
    assert_eq!(state.merge(&vec![swapped, plain, renamed], None), report(2, 1, 0));
    assert_eq!(state.latest_entry_number(), 3);
    assert!(feed_subscription::feed_state::contains_item(state.entries(), &fewer) == false);
}

#[test]
fn an_item_twice_in_one_batch_is_taken_in_twice() {
    let mut state = FeedState::new();
    assert_eq!(state.merge(&vec![item("A"), item("A")], None), report(2, 0, 0));
    assert_eq!(state.latest_entry_number(), 2);
    assert_eq!(state.merge(&vec![item("A"), item("A")], None), report(0, 2, 0));
}

#[test]
fn item_with_empty_title_and_no_locations() {
    let empty = Item::new(String::new(), Vec::new());
    assert_eq!(empty.title(), "");
    assert!(empty.urls().is_empty());
    let mut sub = Subscription::new("u", "n", None);
    sub.merge(&vec![empty.clone()]);
    assert_eq!(sub.get_latest_entry_name(), "");
    assert_eq!(sub.feed_state().entries(), &vec![empty]);
}

#[test]
fn setters_change_one_field_each() {
    let mut sub = Subscription::new("u", "n", None);
    sub.merge(&vec![item("A")]);
    let state = sub.feed_state().clone();
    sub.set_url("http://moved.example/feed".to_string());
    sub.set_name("Renamed".to_string());
    sub.set_directory("/real/path".to_string());
    sub.set_backlog_limit(Some(9));
    sub.set_use_title_as_filename(Some(true));
    assert_eq!(sub.url(), "http://moved.example/feed");
    assert_eq!(sub.original_url(), "u");
    assert_eq!(sub.name(), "Renamed");
    assert_eq!(sub.directory(), "/real/path");
    assert_eq!(sub.backlog_limit(), Some(9));
    assert_eq!(sub.use_title_as_filename(), Some(true));
    assert_eq!(sub.feed_state(), &state);
}

#[test]
fn defaults_are_empty() {
    assert_eq!(FeedState::default(), FeedState::new());
    assert_eq!(Item::default(), Item::new(String::new(), Vec::new()));
    let record = SessionSummaryRecord::default();
    assert!(!record.is_current_session);
    assert_eq!(record.sequence_number, 0);
    assert_eq!(record.name, "");
}

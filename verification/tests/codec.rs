use feed_subscription::{
    deserialize, serialize, vec_deserialize, vec_serialize, Item, Subscription,
};

type PlainItem = (String, Vec<String>);
type PlainRecord = (bool, u64, String);
type PlainState = (Vec<PlainItem>, Vec<PlainItem>, u64, Vec<PlainRecord>);
type PlainSubscription =
    (String, String, String, String, Option<u64>, Option<bool>, PlainState);

fn plain_items(items: &Vec<Item>) -> Vec<PlainItem> {
    items.iter().map(|i| (i.title().clone(), i.urls().clone())).collect()
}

fn plain(sub: &Subscription) -> PlainSubscription {
    let state = sub.feed_state();
    (
        sub.url().clone(),
        sub.original_url().clone(),
        sub.name().clone(),
        sub.directory().clone(),
        sub.backlog_limit(),
        sub.use_title_as_filename(),
        (
            plain_items(state.entries()),
            plain_items(state.queue()),
            state.latest_entry_number(),
            state
                .summary_queue()
                .iter()
                .map(|r| (r.is_current_session, r.sequence_number, r.name.clone()))
                .collect(),
        ),
    )
}

fn item(title: &str, urls: &[&str]) -> Item {
    Item::new(title.to_string(), urls.iter().map(|u| u.to_string()).collect())
}

fn busy_subscription() -> Subscription {
    let mut sub = Subscription::new("http://feed.example/rss", "Example Cast", Some("/casts"));
    sub.merge(&vec![
        item("Third", &["http://feed.example/3.mp3", "http://mirror.example/3.mp3"]),
        item("Second", &["http://feed.example/2.mp3"]),
        item("First", &[]),
    ]);
    sub
}

fn fresh_bytes() -> Vec<u8> {
    let mut bytes = vec![0x97, 0xa7];
    bytes.extend_from_slice(b"testurl");
    bytes.push(0xa7);
    bytes.extend_from_slice(b"testurl");
    bytes.push(0xa8);
    bytes.extend_from_slice(b"testname");
    bytes.push(0xa7);
    bytes.extend_from_slice(b"fakedir");
    bytes.extend_from_slice(&[0x00, 0xc2, 0x94, 0x90, 0x90, 0x00, 0x90]);
    bytes
}

#[test]
fn serialize_deserialize_test() {
    let sub = Subscription::new("testurl", "testname", None);
    let s = serialize(&sub);
    let re_sub = deserialize(&s);

    assert_eq!(sub, re_sub.unwrap());
}

#[test]
fn vec_serialize_deserialize_test() {
    let sub = Subscription::new("testurl", "testname", None);
    let mut subs = Vec::new();
    subs.push(sub);

    let s = vec_serialize(&subs);
    let re_subs = vec_deserialize(&s);

    assert_eq!(subs, re_subs.unwrap());
}

#[test]
fn round_trip_of_a_new_subscription_keeps_the_defaults() {
    let sub = Subscription::new("http://feed.example/rss", "Example Cast", None);
    let back = deserialize(&serialize(&sub)).unwrap();
    assert_eq!(back, sub);
    assert_eq!(back.url(), "http://feed.example/rss");
    assert_eq!(back.original_url(), "http://feed.example/rss");
    assert_eq!(back.name(), "Example Cast");
    assert_eq!(back.directory(), "fakedir");
    assert_eq!(back.backlog_limit(), Some(0));
    assert_eq!(back.use_title_as_filename(), Some(false));
    assert_eq!(back.get_latest_entry_number(), 0);
    assert!(back.feed_state().entries().is_empty());
    assert!(back.feed_state().queue().is_empty());
    assert!(back.feed_state().summary_queue().is_empty());
}

#[test]
fn serialize_writes_the_expected_bytes() {
    let sub = Subscription::new("testurl", "testname", None);
    assert_eq!(serialize(&sub), fresh_bytes());
}

#[test]
fn vec_serialize_writes_the_count_first() {
    let subs = vec![
        Subscription::new("testurl", "testname", None),
        Subscription::new("testurl", "testname", None),
    ];
    let mut expected = vec![0x92];
    expected.extend_from_slice(&fresh_bytes());
    expected.extend_from_slice(&fresh_bytes());
    assert_eq!(vec_serialize(&subs), expected);
}

#[test]
fn vec_serialize_of_no_subscriptions_is_one_byte() {
    let subs: Vec<Subscription> = Vec::new();
    let bytes = vec_serialize(&subs);
    assert_eq!(bytes, vec![0x90]);
    assert_eq!(vec_deserialize(&bytes).unwrap(), subs);
}

#[test]
fn round_trip_after_merging() {
    let sub = busy_subscription();
    let back = deserialize(&serialize(&sub)).unwrap();
    assert_eq!(back, sub);
    assert_eq!(back.get_latest_entry_number(), 3);
    assert_eq!(back.get_latest_entry_name(), "Third");
    assert_eq!(back.get_earliest_entry_name(), "First");
    assert_eq!(back.feed_state().queue()[0], item("First", &[]));
}

#[test]
fn round_trip_of_two_subscriptions_keeps_order() {
    let subs = vec![busy_subscription(), Subscription::new("testurl", "testname", None)];
    let back = vec_deserialize(&vec_serialize(&subs)).unwrap();
    assert_eq!(back, subs);
    assert_eq!(back[0].name(), "Example Cast");
    assert_eq!(back[1].name(), "testname");
}

#[test]
fn round_trip_of_absent_options() {
    let mut sub = Subscription::new("u", "n", Some("d"));
    sub.set_backlog_limit(None);
    sub.set_use_title_as_filename(None);
    let bytes = serialize(&sub);
    assert_eq!(
        bytes,
        vec![0x97, 0xa1, b'u', 0xa1, b'u', 0xa1, b'n', 0xa1, b'd', 0xc0, 0xc0, 0x94, 0x90, 0x90, 0x00, 0x90]
    );
    assert_eq!(deserialize(&bytes).unwrap(), sub);
}

#[test]
fn numbers_take_the_shortest_form() {
    let cases: Vec<(u64, Vec<u8>)> = vec![
        (0, vec![0x00]),
        (127, vec![0x7f]),
        (128, vec![0xcc, 0x80]),
        (255, vec![0xcc, 0xff]),
        (256, vec![0xcd, 0x01, 0x00]),
        (65535, vec![0xcd, 0xff, 0xff]),
        (65536, vec![0xce, 0x00, 0x01, 0x00, 0x00]),
        (4294967295, vec![0xce, 0xff, 0xff, 0xff, 0xff]),
        (4294967296, vec![0xcf, 0x00, 0x00, 0x00, 0x01, 0x00, 0x00, 0x00, 0x00]),
        (u64::MAX, vec![0xcf, 0xff, 0xff, 0xff, 0xff, 0xff, 0xff, 0xff, 0xff]),
        (0x0102030405060708, vec![0xcf, 0x01, 0x02, 0x03, 0x04, 0x05, 0x06, 0x07, 0x08]),
    ];
    for (limit, form) in cases {
        let mut sub = Subscription::new("u", "n", Some("d"));
        sub.set_backlog_limit(Some(limit));
        sub.set_use_title_as_filename(Some(true));
        let mut expected = vec![0x97, 0xa1, b'u', 0xa1, b'u', 0xa1, b'n', 0xa1, b'd'];
        expected.extend_from_slice(&form);
        expected.extend_from_slice(&[0xc3, 0x94, 0x90, 0x90, 0x00, 0x90]);
        let bytes = serialize(&sub);
        assert_eq!(bytes, expected);
        let back = deserialize(&bytes).unwrap();
        assert_eq!(back.backlog_limit(), Some(limit));
        assert_eq!(back, sub);
    }
}

#[test]
fn strings_take_the_shortest_header() {
    let cases: Vec<(usize, Vec<u8>)> = vec![
        (0, vec![0xa0]),
        (31, vec![0xbf]),
        (32, vec![0xd9, 32]),
        (255, vec![0xd9, 255]),
        (256, vec![0xda, 0x01, 0x00]),
        (65535, vec![0xda, 0xff, 0xff]),
        (65536, vec![0xdb, 0x00, 0x01, 0x00, 0x00]),
    ];
    for (len, header) in cases {
        let name = "x".repeat(len);
        let sub = Subscription::new("u", &name, Some("d"));
        let mut expected = vec![0x97, 0xa1, b'u', 0xa1, b'u'];
        expected.extend_from_slice(&header);
        expected.extend_from_slice(name.as_bytes());
        expected.extend_from_slice(&[0xa1, b'd', 0x00, 0xc2, 0x94, 0x90, 0x90, 0x00, 0x90]);
        let bytes = serialize(&sub);
        assert_eq!(bytes, expected);
        assert_eq!(deserialize(&bytes).unwrap(), sub);
    }
}

#[test]
fn strings_are_written_as_utf8() {
    let sub = Subscription::new("u", "caf\u{e9} \u{1f3a7}", Some("d"));
    let bytes = serialize(&sub);
    let mut expected = vec![0x97, 0xa1, b'u', 0xa1, b'u', 0xaa];
    expected.extend_from_slice(&[b'c', b'a', b'f', 0xc3, 0xa9, b' ', 0xf0, 0x9f, 0x8e, 0xa7]);
    expected.extend_from_slice(&[0xa1, b'd', 0x00, 0xc2, 0x94, 0x90, 0x90, 0x00, 0x90]);
    assert_eq!(bytes, expected);
    assert_eq!(deserialize(&bytes).unwrap().name(), "caf\u{e9} \u{1f3a7}");
}

#[test]
fn lists_take_the_shortest_header() {
    for count in [15usize, 16, 300] {
        let mut sub = Subscription::new("u", "n", Some("d"));
        let batch: Vec<Item> = (0..count).map(|i| item(&format!("{}", i), &[])).collect();
        sub.merge(&batch);
        let bytes = serialize(&sub);
        let header: Vec<u8> = if count < 16 {
            vec![0x90 + count as u8]
        } else {
            vec![0xdc, (count / 256) as u8, (count % 256) as u8]
        };
        let at = 1 + 2 + 2 + 2 + 2 + 1 + 1 + 1;
        assert_eq!(&bytes[at..at + header.len()], &header[..]);
        let back = deserialize(&bytes).unwrap();
        assert_eq!(back, sub);
        assert_eq!(back.feed_state().entries().len(), count);
    }
}

#[test]
fn long_list_of_subscriptions_round_trips() {
    let subs: Vec<Subscription> =
        (0..70000).map(|i| Subscription::new(&format!("{}", i), "n", Some("d"))).collect();
    let bytes = vec_serialize(&subs);
    assert_eq!(&bytes[..5], &[0xdd, 0x00, 0x01, 0x11, 0x70]);
    assert_eq!(vec_deserialize(&bytes).unwrap(), subs);
}

#[test]
fn bytes_are_those_of_the_compact_messagepack_form() {
    let mut capped = busy_subscription();
    capped.set_backlog_limit(Some(70000));
    capped.set_use_title_as_filename(None);
    for sub in [Subscription::new("testurl", "testname", None), busy_subscription(), capped] {
        let bytes = serialize(&sub);
        assert_eq!(bytes, rmp_serde::to_vec(&plain(&sub)).unwrap());
        let read: PlainSubscription = rmp_serde::from_slice(&bytes).unwrap();
        assert_eq!(read, plain(&sub));
    }
}

#[test]
fn list_bytes_are_those_of_the_compact_messagepack_form() {
    let subs = vec![busy_subscription(), Subscription::new("testurl", "testname", None)];
    let plains: Vec<PlainSubscription> = subs.iter().map(plain).collect();
    let bytes = vec_serialize(&subs);
    assert_eq!(bytes, rmp_serde::to_vec(&plains).unwrap());
    let read: Vec<PlainSubscription> = rmp_serde::from_slice(&bytes).unwrap();
    assert_eq!(read, plains);
}

#[test]
fn reads_what_the_messagepack_encoder_wrote() {
    let written: PlainSubscription = (
        "http://now.example/feed".to_string(),
        "http://then.example/feed".to_string(),
        "Moved Cast".to_string(),
        "/casts/moved".to_string(),
        Some(5),
        Some(true),
        (
            vec![("B".to_string(), vec!["http://b".to_string()]), ("A".to_string(), vec![])],
            vec![("A".to_string(), vec![])],
            1000,
            vec![(true, 1000, "B".to_string()), (false, 999, "A".to_string())],
        ),
    );
    let sub = deserialize(&rmp_serde::to_vec(&written).unwrap()).unwrap();
    assert_eq!(plain(&sub), written);
    assert_eq!(sub.url(), "http://now.example/feed");
    assert_eq!(sub.original_url(), "http://then.example/feed");
    assert_eq!(sub.get_latest_entry_number(), 1000);
    assert_eq!(sub.get_latest_entry_name(), "B");
    assert_eq!(sub.get_earliest_entry_name(), "A");
    assert!(!sub.feed_state().summary_queue()[1].is_current_session);
    assert_eq!(sub.feed_state().summary_queue()[1].sequence_number, 999);
}

#[test]
fn deserialize_refuses_no_bytes() {
    assert!(deserialize(&Vec::new()).is_none());
    assert!(vec_deserialize(&Vec::new()).is_none());
}

#[test]
fn deserialize_refuses_every_cut() {
    let bytes = serialize(&busy_subscription());
    for len in 0..bytes.len() {
        assert!(deserialize(&bytes[..len].to_vec()).is_none());
    }
    assert!(deserialize(&bytes).is_some());
}

#[test]
fn vec_deserialize_refuses_every_cut() {
    let bytes = vec_serialize(&vec![busy_subscription(), busy_subscription()]);
    for len in 0..bytes.len() {
        assert!(vec_deserialize(&bytes[..len].to_vec()).is_none());
    }
    assert!(vec_deserialize(&bytes).is_some());
}

#[test]
fn deserialize_refuses_bytes_left_over() {
    let mut bytes = fresh_bytes();
    bytes.push(0x00);
    assert!(deserialize(&bytes).is_none());
    let mut list = vec![0x91];
    list.extend_from_slice(&fresh_bytes());
    assert!(vec_deserialize(&list).is_some());
    list.push(0xc0);
    assert!(vec_deserialize(&list).is_none());
}

#[test]
fn deserialize_refuses_the_wrong_shape() {
    assert!(deserialize(&vec![0x90]).is_none());
    assert!(deserialize(&vec![0xc0]).is_none());
    assert!(vec_deserialize(&fresh_bytes()).is_none());
    let mut one = vec![0x91];
    one.extend_from_slice(&fresh_bytes());
    assert!(deserialize(&one).is_none());
    let mut six_fields = fresh_bytes();
    six_fields[0] = 0x96;
    assert!(deserialize(&six_fields).is_none());
    let mut flag_for_number = fresh_bytes();
    let at = flag_for_number.len() - 7;
    assert_eq!(flag_for_number[at], 0x00);
    flag_for_number[at] = 0xc3;
    assert!(deserialize(&flag_for_number).is_none());
}

#[test]
fn deserialize_refuses_longer_forms_than_needed() {
    let head = vec![0x97, 0xa1, b'u', 0xa1, b'u', 0xa1, b'n', 0xa1, b'd'];
    let tail = vec![0xc2, 0x94, 0x90, 0x90, 0x00, 0x90];
    let whole = |middle: &[u8]| {
        let mut bytes = head.clone();
        bytes.extend_from_slice(middle);
        bytes.extend_from_slice(&tail);
        bytes
    };
    assert_eq!(deserialize(&whole(&[0x05])).unwrap().backlog_limit(), Some(5));
    assert!(deserialize(&whole(&[0xcc, 0x05])).is_none());
    assert!(deserialize(&whole(&[0xcd, 0x00, 0x05])).is_none());
    assert!(deserialize(&whole(&[0xce, 0x00, 0x00, 0x00, 0x05])).is_none());
    assert!(deserialize(&whole(&[0xcf, 0, 0, 0, 0, 0, 0, 0, 0x05])).is_none());
    assert!(deserialize(&whole(&[0xd0, 0x05])).is_none());
    assert!(deserialize(&whole(&[0xff])).is_none());

    let long_string = vec![0x97, 0xd9, 0x01, b'u', 0xa1, b'u', 0xa1, b'n', 0xa1, b'd', 0x00, 0xc2, 0x94, 0x90, 0x90, 0x00, 0x90];
    assert!(deserialize(&long_string).is_none());
    let long_array = vec![0xdc, 0x00, 0x07, 0xa1, b'u', 0xa1, b'u', 0xa1, b'n', 0xa1, b'd', 0x00, 0xc2, 0x94, 0x90, 0x90, 0x00, 0x90];
    assert!(deserialize(&long_array).is_none());
    let long_list = vec![0xdc, 0x00, 0x00];
    assert!(vec_deserialize(&long_list).is_none());
}

#[test]
fn deserialize_refuses_bytes_that_are_no_text() {
    let bad = vec![0x97, 0xa1, 0xff, 0xa1, b'u', 0xa1, b'n', 0xa1, b'd', 0x00, 0xc2, 0x94, 0x90, 0x90, 0x00, 0x90];
    assert!(deserialize(&bad).is_none());
    let cut_char = vec![0x97, 0xa1, 0xc3, 0xa1, b'u', 0xa1, b'n', 0xa1, b'd', 0x00, 0xc2, 0x94, 0x90, 0x90, 0x00, 0x90];
    assert!(deserialize(&cut_char).is_none());
}

#[test]
fn deserialize_refuses_a_map() {
    let sub = Subscription::new("testurl", "testname", None);
    let mut bytes = serialize(&sub);
    bytes[0] = 0x87;
    assert!(deserialize(&bytes).is_none());
}

#[test]
fn what_is_decoded_encodes_to_the_same_bytes() {
    let bytes = serialize(&busy_subscription());
    let back = deserialize(&bytes).unwrap();
    assert_eq!(serialize(&back), bytes);
    let list = vec_serialize(&vec![busy_subscription(), back]);
    assert_eq!(vec_serialize(&vec_deserialize(&list).unwrap()), list);
}

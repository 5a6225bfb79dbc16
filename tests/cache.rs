use cardamom::cache::{Cache, CacheItem, CacheItemError};
use cardamom::local;
use cardamom::remote;
use cardamom::time::Timestamp;

fn ts(year: i32, month: u32, day: u32, hour: u32, minute: u32, second: u32) -> Timestamp {
    Timestamp { year, month, day, hour, minute, second, nanosecond: 0 }
}

fn lcard(name: &str, date: Timestamp) -> local::Card {
    local::Card { name: name.to_string(), date }
}

fn rcard(name: &str, etag: &str, date: Timestamp) -> remote::Card {
    remote::Card { etag: etag.to_string(), name: name.to_string(), date }
}

fn find<'a>(cache: &'a Cache, name: &str) -> Option<&'a CacheItem> {
    cache.cards.iter().find(|c| c.name == name)
}

#[test]
fn reconcile_keeps_only_shared_names() {
    let t1 = ts(2021, 1, 1, 10, 0, 0);
    let t2 = ts(2021, 1, 2, 10, 0, 0);
    let t3 = ts(2021, 1, 3, 10, 0, 0);
    let t4 = ts(2021, 1, 4, 10, 0, 0);
    let lcards = vec![lcard("alice", t1), lcard("bob", t2)];
    let rcards = vec![rcard("alice", "e1", t3), rcard("carol", "e2", t4)];
    let cache = Cache::build("ctag".to_string(), &lcards, &rcards);
    assert_eq!(cache.ctag, "ctag");
    assert_eq!(cache.cards.len(), 1);
    let alice = find(&cache, "alice").unwrap();
    assert_eq!(alice.etag, "e1");
    assert_eq!(alice.local_date, t1);
    assert_eq!(alice.remote_date, t3);
    assert!(find(&cache, "bob").is_none());
    assert!(find(&cache, "carol").is_none());
}

#[test]
fn reconcile_later_record_wins() {
    let t1 = ts(2020, 5, 1, 0, 0, 0);
    let t2 = ts(2020, 5, 2, 0, 0, 0);
    let t3 = ts(2020, 5, 3, 0, 0, 0);
    let lcards = vec![lcard("a", t1), lcard("a", t2)];
    let rcards = vec![rcard("a", "old", t1), rcard("a", "new", t3)];
    let cache = Cache::build(String::new(), &lcards, &rcards);
    assert_eq!(cache.cards.len(), 1);
    assert_eq!(cache.cards[0].etag, "new");
    assert_eq!(cache.cards[0].local_date, t2);
    assert_eq!(cache.cards[0].remote_date, t3);
}

#[test]
fn reconcile_empty_sides() {
    let t1 = ts(2020, 5, 1, 0, 0, 0);
    let cache = Cache::build("x".to_string(), &vec![lcard("a", t1)], &vec![]);
    assert!(cache.cards.is_empty());
    let cache = Cache::build("x".to_string(), &vec![], &vec![rcard("a", "e", t1)]);
    assert!(cache.cards.is_empty());
}

#[test]
fn cache_text_is_canonical() {
    let t1 = Timestamp { year: 2021, month: 3, day: 4, hour: 5, minute: 6, second: 7, nanosecond: 8 };
    let t2 = ts(1999, 12, 31, 23, 59, 59);
    let cache = Cache::build(
        "token".to_string(),
        &vec![lcard("alice", t1)],
        &vec![rcard("alice", "\"e1\"", t2)],
    );
    assert_eq!(
        cache.to_text(),
        "token\nalice;\"e1\";2021-03-04T05:06:07.000000008Z;1999-12-31T23:59:59.000000000Z\n"
    );
}

#[test]
fn cache_round_trip() {
    let t1 = Timestamp { year: 2021, month: 2, day: 28, hour: 1, minute: 2, second: 3, nanosecond: 123_456_789 };
    let t2 = ts(2024, 2, 29, 12, 0, 0);
    let t3 = ts(1, 1, 1, 0, 0, 0);
    let lcards = vec![lcard("alice", t1), lcard("bob", t2), lcard("dave", t3)];
    let rcards = vec![rcard("bob", "e-b", t3), rcard("alice", "e-a", t2), rcard("dave", "", t1)];
    let cache = Cache::build("ctag-1".to_string(), &lcards, &rcards);
    let back = Cache::parse(&cache.to_text());
    assert_eq!(back.ctag, cache.ctag);
    assert_eq!(back.cards.len(), cache.cards.len());
    for item in &cache.cards {
        let other = find(&back, &item.name).unwrap();
        assert_eq!(other.etag, item.etag);
        assert_eq!(other.local_date, item.local_date);
        assert_eq!(other.remote_date, item.remote_date);
    }
}

#[test]
fn cache_parse_skips_malformed_line() {
    let text = "tok\n\
        alice;e1;2021-01-01T00:00:00Z;2021-01-02T00:00:00Z\n\
        broken line\n\
        bob;e2;2021-01-03T00:00:00Z;2021-01-04T00:00:00Z\n";
    let cache = Cache::parse(text);
    assert_eq!(cache.ctag, "tok");
    assert_eq!(cache.cards.len(), 2);
    assert_eq!(find(&cache, "alice").unwrap().etag, "e1");
    assert_eq!(find(&cache, "bob").unwrap().remote_date, ts(2021, 1, 4, 0, 0, 0));
}

#[test]
fn cache_parse_empty_text() {
    let cache = Cache::parse("");
    assert_eq!(cache.ctag, "");
    assert!(cache.cards.is_empty());
}

#[test]
fn cache_parse_later_line_wins() {
    let text = "t\na;e1;2021-01-01T00:00:00Z;2021-01-01T00:00:00Z\na;e2;2021-01-01T00:00:00Z;2021-01-01T00:00:00Z";
    let cache = Cache::parse(text);
    assert_eq!(cache.cards.len(), 1);
    assert_eq!(cache.cards[0].etag, "e2");
}

#[test]
fn cache_item_reads_offset_dates() {
    let item = CacheItem::from_str("a;e;2021-06-01T12:00:00+02:00;2021-06-01T12:00:00.5Z").unwrap();
    assert_eq!(item.name, "a");
    assert_eq!(item.etag, "e");
    assert_eq!(item.local_date, ts(2021, 6, 1, 10, 0, 0));
    assert_eq!(item.remote_date.nanosecond, 500_000_000);
}

#[test]
fn cache_item_errors() {
    let d = "2021-01-01T00:00:00Z";
    assert!(matches!(CacheItem::from_str(""), Err(CacheItemError::EtagNotFound)));
    assert!(matches!(CacheItem::from_str("a"), Err(CacheItemError::EtagNotFound)));
    assert!(matches!(CacheItem::from_str("a;e"), Err(CacheItemError::LocalDateNotFound)));
    assert!(matches!(CacheItem::from_str("a;e;yesterday"), Err(CacheItemError::LocalDateInvalid)));
    assert!(matches!(
        CacheItem::from_str(&format!("a;e;{}", d)),
        Err(CacheItemError::RemoteDateNotFound)
    ));
    assert!(matches!(
        CacheItem::from_str(&format!("a;e;{};tomorrow", d)),
        Err(CacheItemError::RemoteDateInvalid)
    ));
}

#[test]
fn cache_insert_replaces_same_name() {
    let t = ts(2022, 7, 7, 7, 7, 7);
    let mut cache = Cache::new("c".to_string());
    cache.insert(CacheItem { name: "a".to_string(), etag: "1".to_string(), local_date: t, remote_date: t });
    cache.insert(CacheItem { name: "b".to_string(), etag: "2".to_string(), local_date: t, remote_date: t });
    cache.insert(CacheItem { name: "a".to_string(), etag: "3".to_string(), local_date: t, remote_date: t });
    assert_eq!(cache.cards.len(), 2);
    assert_eq!(find(&cache, "a").unwrap().etag, "3");
}

#[test]
fn cache_item_trims_name_and_etag() {
    let item = CacheItem::from_str(" alice ; e1 ;2021-01-01T00:00:00Z;2021-01-02T00:00:00+02:00").unwrap();
    assert_eq!(item.name, "alice");
    assert_eq!(item.etag, "e1");
    assert_eq!(item.local_date, ts(2021, 1, 1, 0, 0, 0));
    assert_eq!(item.remote_date, ts(2021, 1, 1, 22, 0, 0));
}

#[test]
fn cache_item_accepts_empty_name() {
    let t = ts(2021, 1, 1, 0, 0, 0);
    let item = CacheItem { name: String::new(), etag: "e".to_string(), local_date: t, remote_date: t };
    let back = CacheItem::from_str(&item.to_string()).unwrap();
    assert_eq!(back.name, "");
    assert_eq!(back.etag, "e");
    assert_eq!(back.local_date, t);
}

#[test]
fn cache_parse_crlf_lines() {
    let text = "c\r\na;e;2021-01-01T00:00:00Z;2021-01-02T00:00:00Z\r\nb;f;2021-01-01T00:00:00Z;2021-01-03T00:00:00Z";
    let cache = Cache::parse(text);
    assert_eq!(cache.ctag, "c");
    assert_eq!(cache.cards.len(), 2);
    assert_eq!(find(&cache, "a").unwrap().remote_date, ts(2021, 1, 2, 0, 0, 0));
    assert_eq!(find(&cache, "b").unwrap().remote_date, ts(2021, 1, 3, 0, 0, 0));
}

#[test]
fn cache_parse_malformed_line_without_final_newline() {
    let text = "tok\na;e;2021-01-01T00:00:00Z;2021-01-02T00:00:00Z\nb;e;2021-01-01T00:00:00Z";
    let cache = Cache::parse(text);
    assert_eq!(cache.cards.len(), 1);
    assert_eq!(cache.cards[0].name, "a");
}

#[test]
fn cache_round_trip_leap_second() {
    let leap = Timestamp { year: 2016, month: 12, day: 31, hour: 23, minute: 59, second: 59, nanosecond: 1_250_000_000 };
    let t = ts(2017, 1, 1, 0, 0, 0);
    let cache = Cache::build(
        "t".to_string(),
        &vec![lcard("x", leap)],
        &vec![rcard("x", "e", t)],
    );
    let text = cache.to_text();
    assert_eq!(text, "t\nx;e;2016-12-31T23:59:60.250000000Z;2017-01-01T00:00:00.000000000Z\n");
    let back = Cache::parse(&text);
    assert_eq!(back.cards[0].local_date, leap);
    assert_eq!(back.cards[0].remote_date, t);
}

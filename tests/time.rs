use cardamom::cache::Cache;
use cardamom::local;
use cardamom::remote;
use cardamom::time::Timestamp;

fn at(year: i32, month: u32, day: u32, second: u32, nanosecond: u32) -> Timestamp {
    Timestamp { year, month, day, hour: 23, minute: 59, second, nanosecond }
}

#[test]
fn timestamp_validity() {
    assert!(at(2024, 2, 29, 0, 0).is_valid());
    assert!(!at(2023, 2, 29, 0, 0).is_valid());
    assert!(at(2000, 2, 29, 0, 0).is_valid());
    assert!(!at(1900, 2, 29, 0, 0).is_valid());
    assert!(!at(2023, 4, 31, 0, 0).is_valid());
    assert!(!at(2023, 13, 1, 0, 0).is_valid());
    assert!(!at(2023, 1, 0, 0, 0).is_valid());
    assert!(at(2015, 6, 30, 59, 1_500_000_000).is_valid());
    assert!(!at(2015, 6, 30, 58, 1_500_000_000).is_valid());
    assert!(!at(2015, 6, 30, 59, 2_000_000_000).is_valid());
    assert!(!at(300_000, 1, 1, 0, 0).is_valid());
}

#[test]
fn cache_round_trip_year_bounds() {
    let first = Timestamp { year: 0, month: 1, day: 1, hour: 0, minute: 0, second: 0, nanosecond: 0 };
    let last = Timestamp {
        year: 9999,
        month: 12,
        day: 31,
        hour: 23,
        minute: 59,
        second: 59,
        nanosecond: 999_999_999,
    };
    let lcards = vec![local::Card { name: "x".to_string(), date: first }];
    let rcards = vec![remote::Card { etag: "e".to_string(), name: "x".to_string(), date: last }];
    let cache = Cache::build("t".to_string(), &lcards, &rcards);
    let text = cache.to_text();
    assert_eq!(text, "t\nx;e;0000-01-01T00:00:00.000000000Z;9999-12-31T23:59:59.999999999Z\n");
    let back = Cache::parse(&text);
    assert_eq!(back.ctag, "t");
    assert_eq!(back.cards.len(), 1);
    assert_eq!(back.cards[0].local_date, first);
    assert_eq!(back.cards[0].remote_date, last);
}

use moltis_slack::clock::{
    deadline_since_epoch, seconds_since_epoch, span_nanos, wall_clock, wall_nanos, Clock, LAST_TICK,
};
use moltis_slack::decimal::decimal_text;
use moltis_slack::table::Table;
use moltis_slack::text::{has_text, trimmed, width_of};

#[test]
fn tables_are_maps() {
    let mut t: Table<u32> = Table::new();
    assert_eq!(t.len(), 0);
    t.insert("a", 1);
    t.insert("b", 2);
    t.insert("a", 3);
    assert_eq!(t.len(), 2);
    assert_eq!(t.get("a"), Some(&3));
    assert_eq!(t.get("c"), None);
    assert!(t.contains_key("b"));
    let mut keys = t.keys();
    keys.sort();
    assert_eq!(keys, vec!["a".to_string(), "b".to_string()]);
    assert_eq!(t.remove("a"), Some(3));
    assert_eq!(t.remove("a"), None);
    assert_eq!(t.row(0), (&"b".to_string(), &2));
    assert_eq!(t.remove_row(0), 2);
    assert!(!t.contains_key("b"));
}

#[test]
fn clocks_run_forward() {
    let clock = Clock::new();
    let a = clock.now();
    let b = clock.now();
    assert!(a <= b);
    assert!(b < 60_000_000_000);
    assert!(wall_clock() > 1_600_000_000_000_000_000);
}

#[test]
fn spans_in_nanoseconds() {
    assert_eq!(span_nanos(0, 0), 0);
    assert_eq!(span_nanos(2, 5), 2_000_000_005);
    assert_eq!(span_nanos(u64::MAX, 999_999_999), LAST_TICK);
    assert_eq!(wall_nanos(Ok((3, 7))), 3_000_000_007);
    assert_eq!(wall_nanos(Err((3, 7))), -3_000_000_007);
    assert_eq!(wall_nanos(Err((u64::MAX, 999_999_999))), -(LAST_TICK as i128));
}

#[test]
fn moments_in_seconds() {
    assert_eq!(seconds_since_epoch(-1), 0);
    assert_eq!(seconds_since_epoch(1_999_999_999), 1);
    assert_eq!(deadline_since_epoch(-5_000_000_000, 4_999_999_999), 0);
    assert_eq!(deadline_since_epoch(-5_000_000_000, 7_000_000_000), 2);
    assert_eq!(deadline_since_epoch(10_500_000_000, 500_000_000), 11);
}

#[test]
fn numbers_in_decimal() {
    for n in [0u32, 7, 10, 99, 100_000, 999_999, u32::MAX] {
        assert_eq!(decimal_text(n), n.to_string());
    }
}

#[test]
fn texts() {
    assert!(has_text("hello", "ell"));
    assert!(has_text("hello", ""));
    assert!(!has_text("hello", "elo"));
    assert!(!has_text("", "x"));
    assert_eq!(trimmed(" \t\u{a0}a b\u{2003}\n"), "a b");
    assert_eq!(trimmed(" \n"), "");
    for c in ['a', '\u{7f}', '\u{80}', '\u{7ff}', '\u{800}', '\u{ffff}', '\u{10000}', '\u{10ffff}'] {
        assert_eq!(width_of(c), c.len_utf8());
    }
}

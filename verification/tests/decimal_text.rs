use gossip_glomers::decimal::{push_counter, push_decimal};
use gossip_glomers::kv::make_entry_key;
use gossip_glomers::unique_ids::make_guid;

fn counter(n: u64) -> String {
    let mut s = String::new();
    push_counter(&mut s, n);
    s
}

fn decimal(n: i64) -> String {
    let mut s = String::new();
    push_decimal(&mut s, n);
    s
}

#[test]
fn counter_text_is_the_usual_decimal_text() {
    assert_eq!(counter(0), "0");
    assert_eq!(counter(7), "7");
    assert_eq!(counter(10), "10");
    assert_eq!(counter(1905), "1905");
    for n in [9u64, 11, 99, 100, 101, 12345678901234567890, u64::MAX - 1, u64::MAX] {
        assert_eq!(counter(n), n.to_string());
    }
    for n in 0..2000u64 {
        assert_eq!(counter(n), n.to_string());
    }
}

#[test]
fn decimal_text_is_the_usual_decimal_text() {
    assert_eq!(decimal(0), "0");
    assert_eq!(decimal(-1), "-1");
    assert_eq!(decimal(-120), "-120");
    assert_eq!(decimal(i64::MIN), "-9223372036854775808");
    assert_eq!(decimal(i64::MAX), "9223372036854775807");
    for n in -1500..1500i64 {
        assert_eq!(decimal(n), n.to_string());
    }
    for n in [i64::MIN + 1, i64::MAX - 1, 1_000_000_007, -1_000_000_007] {
        assert_eq!(decimal(n), n.to_string());
    }
}

#[test]
fn text_is_appended_to_what_is_there() {
    let mut s = "k:".to_string();
    push_decimal(&mut s, -45);
    assert_eq!(s, "k:-45");
    push_counter(&mut s, 600);
    assert_eq!(s, "k:-45600");
}

#[test]
fn entry_keys_at_the_ends_of_the_range() {
    let k = "k".to_string();
    assert_eq!(make_entry_key(&k, i64::MAX), "k:9223372036854775807");
    assert_eq!(make_entry_key(&k, i64::MIN), "k:-9223372036854775808");
    assert_ne!(make_entry_key(&k, 1), make_entry_key(&k, 10));
    assert_ne!(make_entry_key(&k, 1), make_entry_key(&k, -1));
    assert_ne!(make_guid(&k, 1), make_guid(&k, 11));
}

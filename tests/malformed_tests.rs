use chat_core::malformed::{MalformedRate, MALFORMED_LIMIT, MALFORMED_WINDOW_MS};

#[test]
fn closes_after_too_many_in_one_window() {
    let mut r = MalformedRate::new(1000);
    for i in 0..MALFORMED_LIMIT {
        assert!(!r.record(1000 + i as u64));
    }
    assert_eq!(r.count, MALFORMED_LIMIT);
    assert!(r.record(1500));
}

#[test]
fn a_new_window_starts_over() {
    let mut r = MalformedRate::new(0);
    for _ in 0..MALFORMED_LIMIT {
        assert!(!r.record(10));
    }
    assert!(!r.record(10 + MALFORMED_WINDOW_MS));
    assert_eq!(r.count, 1);
    assert_eq!(r.window_start, 10 + MALFORMED_WINDOW_MS);
}

#[test]
fn a_clock_going_back_starts_over() {
    let mut r = MalformedRate { window_start: 500, count: 9 };
    assert!(!r.record(100));
    assert_eq!(r, MalformedRate { window_start: 100, count: 1 });
}

#[test]
fn count_saturates() {
    let mut r = MalformedRate { window_start: 0, count: u32::MAX };
    assert!(r.record(1));
    assert_eq!(r.count, u32::MAX);
}

use mnemo_core::time::{whole_days_between, UtcTime};

fn t(secs: i64, nanos: u32) -> UtcTime {
    UtcTime { secs, nanos }
}

#[test]
fn whole_days_truncate_toward_zero() {
    assert_eq!(whole_days_between(t(0, 0), t(86_400, 0)), 1);
    assert_eq!(whole_days_between(t(0, 1), t(86_400, 0)), 0);
    assert_eq!(whole_days_between(t(0, 0), t(3 * 86_400 - 1, 999_999_999)), 2);
    assert_eq!(whole_days_between(t(86_400, 0), t(0, 0)), -1);
    assert_eq!(whole_days_between(t(86_400, 0), t(0, 1)), 0);
    assert_eq!(whole_days_between(t(10 * 86_400, 0), t(0, 0)), -10);
}

use tplayer::timing::TimeBase;

#[test]
fn seconds_truncate() {
    let tb = TimeBase::new(1, 1000);
    assert_eq!(tb.seconds_at(1500), 1);
    assert_eq!(tb.seconds_at(999), 0);
    assert_eq!(tb.seconds_at(0), 0);
    assert_eq!(TimeBase::new(3, 2).seconds_at(5), 7);
}

#[test]
fn seconds_beyond_float_precision() {
    let tb = TimeBase::new(1, 3);
    assert_eq!(tb.seconds_at((1u64 << 53) + 2), ((1u64 << 53) + 2) / 3);
}

#[test]
fn seconds_wrap_on_overflow() {
    let tb = TimeBase::new(u32::MAX, 1);
    assert_eq!(tb.seconds_at(u64::MAX), 18446744069414584321);
}

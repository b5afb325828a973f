use ark_core::util::PrettyDuration;

#[test]
fn test_pretty_duration() {
    let secs = |s: u64| PrettyDuration(s).pretty();
    assert_eq!("59 seconds", secs(59));
    assert_eq!("1 minutes", secs(60));
    assert_eq!("59 minutes", secs(58 * 60 + 1)); // ceil
    assert_eq!("1.00 hours", secs(60 * 60));
    assert_eq!("47.50 hours", secs(47 * 60 * 60 + 30 * 60));
    assert_eq!("2.00 days", secs(48 * 60 * 60));
}

#[test]
fn pretty_duration_zero() {
    assert_eq!("0 seconds", PrettyDuration(0).pretty());
}

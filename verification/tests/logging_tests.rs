use jumakl_extractor::logging::{log_expired, log_level, log_settings, parse_u64};

#[test]
fn level_follows_verbosity() {
    assert_eq!(log_level(true), "debug");
    assert_eq!(log_level(false), "info");
}

#[test]
fn parse_u64_agrees_with_std() {
    for s in ["0", "10", "+10", "-10", "", "+", "-", "18446744073709551615", "18446744073709551616", "1x", " 1"] {
        assert_eq!(parse_u64(s), s.parse::<u64>().ok(), "input {:?}", s);
    }
}

#[test]
fn settings_fall_back_to_defaults() {
    let s = log_settings(None, None);
    assert_eq!(s.dir, "logs");
    assert_eq!(s.days_to_keep, 10);
    let s = log_settings(Some("/var/log/x".to_string()), Some("3".to_string()));
    assert_eq!(s.dir, "/var/log/x");
    assert_eq!(s.days_to_keep, 3);
    assert_eq!(log_settings(None, Some("three".to_string())).days_to_keep, 10);
}

#[test]
fn only_files_older_than_the_kept_days_expire() {
    let day: u64 = 24 * 60 * 60;
    assert!(!log_expired(true, Some((2 * day, 0)), 2));
    assert!(log_expired(true, Some((2 * day, 1)), 2));
    assert!(log_expired(true, Some((2 * day + 1, 0)), 2));
    assert!(!log_expired(false, Some((100 * day, 0)), 2));
    assert!(!log_expired(true, None, 2));
    assert!(log_expired(true, Some((0, 1)), 0));
    let huge = u64::MAX / 1000;
    assert!(!log_expired(true, Some((u64::MAX, 999_999_999)), huge));
    let top = u64::MAX / day;
    assert!(log_expired(true, Some((top * day, 1)), top));
}

use ics_watcher::duration::{rfc5545_to_std_duration, DEFAULT_TTL_SECS};

#[test]
fn default_interval_is_one_hour() {
    assert_eq!(DEFAULT_TTL_SECS, 3600);
    assert_eq!(rfc5545_to_std_duration("PT1H"), Some(3600));
}

#[test]
fn each_unit_has_its_length() {
    assert_eq!(rfc5545_to_std_duration("P1W"), Some(604800));
    assert_eq!(rfc5545_to_std_duration("P1D"), Some(86400));
    assert_eq!(rfc5545_to_std_duration("PT1H"), Some(3600));
    assert_eq!(rfc5545_to_std_duration("PT1M"), Some(60));
    assert_eq!(rfc5545_to_std_duration("PT1S"), Some(1));
}

#[test]
fn tokens_add_up() {
    assert_eq!(rfc5545_to_std_duration("P2W3DT4H5M6S"), Some(2 * 604800 + 3 * 86400 + 4 * 3600 + 5 * 60 + 6));
    assert_eq!(rfc5545_to_std_duration("PT15M"), Some(900));
    assert_eq!(rfc5545_to_std_duration("PT007M"), Some(420));
    assert_eq!(rfc5545_to_std_duration("PT1H1H"), Some(7200));
}

#[test]
fn other_characters_are_passed_over() {
    assert_eq!(rfc5545_to_std_duration(""), Some(0));
    assert_eq!(rfc5545_to_std_duration("soon"), Some(0));
    assert_eq!(rfc5545_to_std_duration("-P1D"), Some(86400));
    assert_eq!(rfc5545_to_std_duration("PPT1-2M"), Some(720));
    assert_eq!(rfc5545_to_std_duration("P1T2H"), Some(12 * 3600));
}

#[test]
fn digits_without_a_unit_count_for_nothing() {
    assert_eq!(rfc5545_to_std_duration("PT5"), Some(0));
    assert_eq!(rfc5545_to_std_duration("PT1H30"), Some(3600));
    assert_eq!(rfc5545_to_std_duration("PTH"), Some(0));
}

#[test]
fn a_magnitude_beyond_64_bits_counts_for_nothing() {
    assert_eq!(rfc5545_to_std_duration("PT18446744073709551615S"), Some(u64::MAX));
    assert_eq!(rfc5545_to_std_duration("PT18446744073709551616S"), Some(0));
    assert_eq!(rfc5545_to_std_duration("PT99999999999999999999999H5M"), Some(300));
}

#[test]
fn a_sum_beyond_64_bits_is_no_duration() {
    assert_eq!(rfc5545_to_std_duration("PT18446744073709551615S1S"), None);
    assert_eq!(rfc5545_to_std_duration("P99999999999999999W"), None);
    assert_eq!(rfc5545_to_std_duration("P30500568904943W"), Some(30500568904943 * 604800));
    assert_eq!(rfc5545_to_std_duration("P30500568904944W"), None);
}

use accelrd::time::{minus_secs, now_minus_secs, now_rfc3339, rfc3339_at};

#[test]
fn epoch() {
    assert_eq!(rfc3339_at(0), "1970-01-01T00:00:00Z");
}

#[test]
fn known_date_2026() {
    assert_eq!(rfc3339_at(1_778_157_296), "2026-05-07T12:34:56Z");
}

#[test]
fn lexicographic_order() {
    assert!(rfc3339_at(1_000_000_000) < rfc3339_at(1_500_000_000));
}

#[test]
fn leap_days_are_dates() {
    assert_eq!(rfc3339_at(951_782_400), "2000-02-29T00:00:00Z");
    assert_eq!(rfc3339_at(951_868_800), "2000-03-01T00:00:00Z");
    assert_eq!(rfc3339_at(4_107_542_400), "2100-03-01T00:00:00Z");
    assert_eq!(rfc3339_at(4_107_542_399), "2100-02-28T23:59:59Z");
}

#[test]
fn times_before_the_epoch() {
    assert_eq!(rfc3339_at(-1), "1969-12-31T23:59:59Z");
    assert_eq!(rfc3339_at(-62_167_219_200), "0000-01-01T00:00:00Z");
}

#[test]
fn order_ends_with_four_digit_years() {
    assert_eq!(rfc3339_at(253_402_300_799), "9999-12-31T23:59:59Z");
    assert!(rfc3339_at(253_402_300_800) < rfc3339_at(253_402_300_799));
}

#[test]
fn cutoff_lies_before_now() {
    assert_eq!(minus_secs(1_778_157_296, 3600), "2026-05-07T11:34:56Z");
    assert!(now_minus_secs()(3600) < now_rfc3339());
}

#[test]
fn the_clock_is_past_2024() {
    assert!(now_rfc3339().as_str() > "2024-01-01T00:00:00Z");
}

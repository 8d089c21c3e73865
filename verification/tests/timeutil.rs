use raytracer::timeutil::TimeUtil;
use std::time::Duration;

#[test]
fn as_millis_returns_number_of_milliseconds_super_second() {
    assert_eq!(TimeUtil::as_millis(&Duration::from_millis(500341)), 500341);
}

#[test]
fn as_millis_returns_number_of_milliseconds_sub_second() {
    assert_eq!(TimeUtil::as_millis(&Duration::from_millis(12)), 12);
}

#[test]
fn as_nanos_returns_number_of_milliseconds_super_second() {
    assert_eq!(TimeUtil::as_nanos(&Duration::from_millis(500341)), 500341000000);
}

#[test]
fn as_nanos_returns_number_of_milliseconds_sub_second() {
    assert_eq!(TimeUtil::as_nanos(&Duration::from_millis(12)), 12000000);
}

#[test]
fn as_millis_drops_what_is_less_than_a_millisecond() {
    assert_eq!(TimeUtil::as_millis(&Duration::new(1, 999_999_999)), 1_999);
    assert_eq!(TimeUtil::as_nanos(&Duration::new(1, 999_999_999)), 1_999_999_999);
}

#[test]
fn as_millis_of_nothing_is_zero() {
    assert_eq!(TimeUtil::as_millis(&Duration::new(0, 0)), 0);
    assert_eq!(TimeUtil::as_nanos(&Duration::new(0, 0)), 0);
}

#[test]
fn checked_millis_agrees_where_it_fits() {
    assert_eq!(TimeUtil::checked_millis(&Duration::from_millis(500341)), Some(500341));
    assert_eq!(TimeUtil::checked_nanos(&Duration::from_millis(12)), Some(12000000));
}

#[test]
fn checked_millis_is_nothing_where_it_does_not_fit() {
    let huge = Duration::new(u64::MAX, 0);
    assert_eq!(TimeUtil::checked_millis(&huge), None);
    assert_eq!(TimeUtil::checked_nanos(&huge), None);
}

#[test]
fn checked_millis_at_the_edge() {
    // The largest count of seconds whose milliseconds still fit.
    let secs = u64::MAX / 1_000;
    let fits = Duration::new(secs, 615_000_000);
    assert_eq!(TimeUtil::checked_millis(&fits), Some(u64::MAX));
    let over = Duration::new(secs, 616_000_000);
    assert_eq!(TimeUtil::checked_millis(&over), None);
}

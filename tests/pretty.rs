use gtdtxt::pretty::{decimal_string, Timerange};

fn fmt(n: u64) -> String {
    Timerange::new(n).print()
}

#[test]
fn formatter_boundaries() {
    assert_eq!(fmt(59), "59 seconds");
    assert_eq!(fmt(60), "1 minute");
    assert_eq!(fmt(61), "1 minute and 1 second");
    assert_eq!(fmt(3661), "1 hour 1 minute and 1 second");
}

#[test]
fn formatter_pluralization() {
    assert_eq!(fmt(1), "1 second");
    assert_eq!(fmt(2), "2 seconds");
    assert_eq!(fmt(120), "2 minutes");
    assert_eq!(fmt(7200), "2 hours");
    assert_eq!(fmt(0), "0 second");
}

#[test]
fn formatter_larger_units() {
    assert_eq!(fmt(3725), "1 hour 2 minutes and 5 seconds");
    assert_eq!(fmt(86400), "1 day");
    assert_eq!(fmt(90061), "1 day 1 hour 1 minute and 1 second");
    assert_eq!(fmt(2592000), "1 month");
    assert_eq!(fmt(31536000), "1 year");
    assert_eq!(fmt(63072000), "2 years");
    assert_eq!(fmt(31536001), "1 year and 1 second");
}

#[test]
fn floor_time_unit_splits() {
    assert_eq!(Timerange::new(3725).floor_time_unit(), (1, 125, String::from("hour")));
    assert_eq!(Timerange::new(125).floor_time_unit(), (2, 5, String::from("minutes")));
    assert_eq!(Timerange::new(7).floor_time_unit(), (7, 0, String::from("seconds")));
}

#[test]
fn decimal_digits() {
    assert_eq!(decimal_string(0), "0");
    assert_eq!(decimal_string(1024), "1024");
    assert_eq!(decimal_string(u64::MAX), "18446744073709551615");
}

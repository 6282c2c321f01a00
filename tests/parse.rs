use gtdtxt::duration::{parse, parse_bytes, ParseError, Reason};

fn malformed(pos: usize) -> Result<u64, ParseError> {
    Err(ParseError::Malformed(pos, Reason::UnexpectedInput))
}

#[test]
fn parses_hours_minutes_seconds() {
    assert_eq!(parse("1h 30m 10s"), Ok(5410));
}

#[test]
fn parses_bare_number_as_seconds() {
    assert_eq!(parse("90"), Ok(90));
}

#[test]
fn parses_long_unit_names() {
    assert_eq!(parse("2 minutes"), Ok(120));
    assert_eq!(parse("1 hour"), Ok(3600));
    assert_eq!(parse("3 seconds"), Ok(3));
    assert_eq!(parse("2 hrs 5 mins 7 secs"), Ok(7507));
    assert_eq!(parse("1 hr 1 min 1 sec"), Ok(3661));
}

#[test]
fn units_ignore_case() {
    assert_eq!(parse("1H 1MIN 1SEC"), parse("1h 1min 1sec"));
    assert_eq!(parse("1H 1MIN 1SEC"), Ok(3661));
    assert_eq!(parse("2 Hours 3 Secs"), Ok(7203));
    assert_eq!(parse("1 MINUTES"), Ok(60));
}

#[test]
fn repeated_components_add_up() {
    assert_eq!(parse("30s 30s"), Ok(60));
    assert_eq!(parse("10s 1h 10s"), Ok(3620));
}

#[test]
fn components_need_no_blanks() {
    assert_eq!(parse("1h30m"), Ok(5400));
    assert_eq!(parse("\t2 hrs"), Ok(7200));
    assert_eq!(parse("  45  "), Ok(45));
    assert_eq!(parse("5 \t m"), Ok(300));
}

#[test]
fn rejects_empty_text() {
    assert_eq!(parse(""), malformed(0));
    assert_eq!(parse("   "), malformed(3));
}

#[test]
fn rejects_words() {
    assert_eq!(parse("abc"), malformed(0));
    assert_eq!(parse("1 fortnight"), malformed(2));
}

#[test]
fn rejects_trailing_input() {
    assert_eq!(parse("1ms"), malformed(2));
    assert_eq!(parse("1h 30"), malformed(3));
    assert_eq!(parse("30s30"), malformed(3));
    assert!(parse("1h x").is_err());
}

#[test]
fn largest_values() {
    assert_eq!(parse("18446744073709551615"), Ok(u64::MAX));
    assert_eq!(parse("5124095576030431h 15s"), Ok(u64::MAX));
}

#[test]
fn rejects_overflow() {
    assert_eq!(
        parse("18446744073709551616"),
        Err(ParseError::Malformed(0, Reason::Overflow))
    );
    assert_eq!(
        parse(" 5124095576030432h"),
        Err(ParseError::Malformed(1, Reason::Overflow))
    );
    assert_eq!(
        parse("5124095576030431h 16s"),
        Err(ParseError::Malformed(0, Reason::Overflow))
    );
}

#[test]
fn parses_bytes() {
    assert_eq!(parse_bytes(b"2m 5s"), Ok(125));
    assert_eq!(parse_bytes(b"x"), malformed(0));
}

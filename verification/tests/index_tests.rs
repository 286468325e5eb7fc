//! Range-expression parsing, calibration, membership and slicing.

use todo::index::{Index, MinMax, ParseError};

#[test]
fn parse_single() {
    assert_eq!(Index::parse("5"), Ok(Index::Nth(5)));
}

#[test]
fn parse_negative_single() {
    assert_eq!(Index::parse("-3"), Ok(Index::Nth(-3)));
}

#[test]
fn parse_plus_sign() {
    assert_eq!(Index::parse("+5"), Ok(Index::Nth(5)));
}

#[test]
fn parse_span() {
    assert_eq!(Index::parse("2:5"), Ok(Index::Between(2, 5)));
}

#[test]
fn parse_span_descending_kept_as_written() {
    assert_eq!(Index::parse("5:2"), Ok(Index::Between(5, 2)));
}

#[test]
fn parse_left_open() {
    assert_eq!(Index::parse(":5"), Ok(Index::Between(0, 5)));
}

#[test]
fn parse_right_open() {
    assert_eq!(Index::parse("5:"), Ok(Index::Between(5, i64::MAX)));
}

#[test]
fn parse_both_open() {
    assert_eq!(Index::parse(":"), Ok(Index::Between(0, i64::MAX)));
}

#[test]
fn parse_from_end_span() {
    assert_eq!(Index::parse("-3:"), Ok(Index::Between(-3, i64::MAX)));
}

#[test]
fn parse_not_a_number() {
    assert_eq!(Index::parse("abc"), Err(ParseError::NotANumber));
    assert_eq!(Index::parse(""), Err(ParseError::NotANumber));
    assert_eq!(Index::parse("-"), Err(ParseError::NotANumber));
}

#[test]
fn parse_overflow_rejected() {
    assert_eq!(
        Index::parse("99999999999999999999999"),
        Err(ParseError::NotANumber)
    );
    assert_eq!(Index::parse("9223372036854775807"), Ok(Index::Nth(i64::MAX)));
    assert_eq!(
        Index::parse("-9223372036854775808"),
        Ok(Index::Nth(i64::MIN))
    );
    assert_eq!(Index::parse("9223372036854775808"), Err(ParseError::NotANumber));
}

#[test]
fn parse_invalid_bound() {
    assert_eq!(
        Index::parse("a:5"),
        Err(ParseError::InvalidBound("a".to_string()))
    );
    assert_eq!(
        Index::parse("5:b"),
        Err(ParseError::InvalidBound("b".to_string()))
    );
}

#[test]
fn parse_too_many_colons() {
    assert_eq!(Index::parse("1:2:3"), Err(ParseError::TooManyColons));
    assert_eq!(Index::parse("::"), Err(ParseError::TooManyColons));
}

#[test]
fn display_forms() {
    assert_eq!(Index::Nth(5).display(), "5");
    assert_eq!(Index::Nth(-3).display(), "-3");
    assert_eq!(Index::Between(2, 5).display(), "2:5");
    assert_eq!(Index::Between(-10, 0).display(), "-10:0");
}

#[test]
fn display_parse_round_trip() {
    // the general law is proved in the library; these are spot checks
    let samples = [
        Index::Nth(0),
        Index::Nth(-1),
        Index::Nth(i64::MAX),
        Index::Nth(i64::MIN),
        Index::Between(2, 5),
        Index::Between(5, 2),
        Index::Between(-3, i64::MAX),
        Index::Between(0, 0),
    ];
    for x in samples {
        assert_eq!(Index::parse(&x.display()), Ok(x));
    }
}

#[test]
fn calibrate_resolves_negative_single() {
    let mut x = Index::Nth(-4);
    x.calibrate(10);
    assert_eq!(x, Index::Nth(6));
}

#[test]
fn calibrate_far_negative_single_matches_nothing() {
    let mut x = Index::Nth(-11);
    x.calibrate(10);
    assert_eq!(x, Index::Nth(i64::MAX));
}

#[test]
fn calibrate_span_offsets_and_clamps() {
    let mut x = Index::Between(-3, i64::MAX);
    x.calibrate(10);
    assert_eq!(x, Index::Between(7, 10));

    let mut y = Index::Between(2, 100);
    y.calibrate(10);
    assert_eq!(y, Index::Between(2, 10));
}

#[test]
fn calibrate_twice_is_calibrating_once() {
    // the general law is proved in the library; this is a spot check
    let samples = [
        Index::Nth(-4),
        Index::Nth(7),
        Index::Between(-3, i64::MAX),
        Index::Between(-20, -15),
        Index::Between(5, 2),
    ];
    for x in samples {
        let mut once = x;
        once.calibrate(10);
        let mut twice = once;
        twice.calibrate(10);
        assert_eq!(once, twice);
    }
}

#[test]
fn in_range_is_half_open() {
    let x = Index::Between(0, 5);
    assert!(x.in_range(0));
    assert!(x.in_range(4));
    assert!(!x.in_range(5));
    assert!(!x.in_range(-1));
}

#[test]
fn in_range_normalizes_bound_order() {
    let x = Index::Between(5, 2);
    assert!(x.in_range(2));
    assert!(x.in_range(4));
    assert!(!x.in_range(5));
}

#[test]
fn slice_selects_first_five_of_ten() {
    let data: Vec<u32> = (0..10).collect();
    let x = Index::Between(0, 5);
    assert_eq!(x.slice(&data), Some(&data[0..5]));
}

#[test]
fn slice_degenerate_span_selects_nothing() {
    let data: Vec<u32> = (0..10).collect();
    assert_eq!(Index::Between(2, 2).slice(&data), None);
    let empty: Vec<u32> = Vec::new();
    assert_eq!(Index::Between(2, 2).slice(&empty), None);
}

#[test]
fn slice_never_returns_an_empty_sub_slice() {
    // a span straddling zero over an empty collection resolves to an
    // empty range and selects nothing
    let empty: Vec<u32> = Vec::new();
    assert_eq!(Index::Between(-1, 1).slice(&empty), None);
    assert_eq!(Index::Between(0, 5).slice(&empty), None);
    assert_eq!(Index::Nth(0).slice(&empty), None);
    let data: Vec<u32> = (0..3).collect();
    assert_eq!(Index::Between(-1, 1).slice(&data), Some(&data[1..2]));
}

#[test]
fn slice_single_and_from_end() {
    let data: Vec<u32> = (0..10).collect();
    assert_eq!(Index::Nth(5).slice(&data), Some(&data[5..6]));
    assert_eq!(Index::Nth(-1).slice(&data), Some(&data[9..10]));
    assert_eq!(Index::Nth(10).slice(&data), None);
    assert_eq!(Index::Between(-3, i64::MAX).slice(&data), Some(&data[7..10]));
}

#[test]
fn is_reversed_means_ascending_bounds() {
    assert!(Index::Between(0, 5).is_reversed());
    assert!(!Index::Between(5, 0).is_reversed());
    assert!(!Index::Nth(3).is_reversed());
}

#[test]
fn default_index_is_whole_collection() {
    assert_eq!(Index::default(), Index::Between(0, i64::MAX));
}

#[test]
fn minmax_open_ended_is_inclusive() {
    let m = MinMax::parse("3:").unwrap();
    assert_eq!(m, MinMax::Between(3, 255));
    assert!(m.in_range(200));
    assert!(m.in_range(3));
    assert!(!m.in_range(2));
}

#[test]
fn minmax_exact_and_span() {
    assert_eq!(MinMax::parse("7"), Ok(MinMax::Nth(7)));
    assert!(MinMax::Nth(7).in_range(7));
    assert!(!MinMax::Nth(7).in_range(8));
    let m = MinMax::parse(":4").unwrap();
    assert_eq!(m, MinMax::Between(0, 4));
    assert!(m.in_range(0));
    assert!(m.in_range(4));
    assert!(!m.in_range(5));
}

#[test]
fn minmax_rejects_out_of_domain() {
    assert_eq!(MinMax::parse("300"), Err(ParseError::NotANumber));
    assert_eq!(MinMax::parse("-1"), Err(ParseError::NotANumber));
    assert_eq!(
        MinMax::parse("300:"),
        Err(ParseError::InvalidBound("300".to_string()))
    );
    assert_eq!(MinMax::parse("1:2:3"), Err(ParseError::TooManyColons));
}

#[test]
fn validators_agree_with_parsers() {
    assert!(todo::index::validate_index("-3:").is_ok());
    assert_eq!(
        todo::index::validate_index("1:2:3"),
        Err(ParseError::TooManyColons)
    );
    assert!(todo::index::validate_minmax(":4").is_ok());
    assert_eq!(
        todo::index::validate_minmax("x"),
        Err(ParseError::NotANumber)
    );
}

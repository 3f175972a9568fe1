use francegen::config::{parse_decimal_milli, parse_height, parse_range};
use francegen::fetch::{build_query, next_fetch_action, FetchAction, FetchOutcome};
use francegen::terrain::ConfigError;

#[test]
fn layer_heights() {
    assert_eq!(parse_height("10 m"), Ok(-2038));
    assert_eq!(parse_height("10"), Ok(-2038));
    assert_eq!(parse_height(" 64b "), Ok(64));
    assert_eq!(parse_height("-12.5 B"), Ok(-13));
    assert_eq!(parse_height("2.4M"), Ok(-2046));
    assert_eq!(parse_height("99999999999999999999 b"), Ok(i32::MAX));
    assert_eq!(parse_height("   "), Err(ConfigError::EmptyHeight));
    assert_eq!(parse_height("m"), Err(ConfigError::MissingHeightNumber));
    assert_eq!(parse_height("1.2.3"), Err(ConfigError::InvalidHeightNumber));
    assert_eq!(parse_height("abc"), Err(ConfigError::InvalidHeightNumber));
}

#[test]
fn decimal_numbers() {
    assert_eq!(parse_decimal_milli("12.3456"), Some(12_345));
    assert_eq!(parse_decimal_milli("-0.5"), Some(-500));
    assert_eq!(parse_decimal_milli("+.25"), Some(250));
    assert_eq!(parse_decimal_milli("7."), Some(7_000));
    assert_eq!(parse_decimal_milli("."), None);
    assert_eq!(parse_decimal_milli(""), None);
}

#[test]
fn layer_ranges() {
    assert_eq!(parse_range(None, None), Ok((i32::MIN, i32::MAX)));
    assert_eq!(parse_range(Some("0 b"), Some("100 b")), Ok((0, 100)));
    assert_eq!(parse_range(Some("100 b"), Some("0 b")), Err(ConfigError::InvertedRange));
    assert_eq!(parse_range(Some("x"), None), Err(ConfigError::InvalidHeightNumber));
}

#[test]
fn overpass_query_text() {
    assert_eq!(
        build_query("  way[highway]({{bbox}}) ", "1,2,3,4"),
        "[out:json][timeout:90];way[highway](1,2,3,4);out geom;"
    );
    assert_eq!(build_query("node;", "x"), "[out:json][timeout:90];node;out geom;");
}

#[test]
fn retry_decisions() {
    assert_eq!(next_fetch_action(1, 3, FetchOutcome::Success), FetchAction::Accept);
    assert_eq!(next_fetch_action(1, 3, FetchOutcome::TransportError), FetchAction::Retry);
    assert_eq!(next_fetch_action(3, 3, FetchOutcome::BadStatus), FetchAction::Fail);
}

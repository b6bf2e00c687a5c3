use hist_temps::extract::Extractor;
use hist_temps::fmi::ExtractError;
use hist_temps::time::Timestamp;

const MIDNIGHT: i64 = 1659312000;

#[test]
fn new_extractor_is_outside_everything() {
    let extractor = Extractor::new();
    assert!(!extractor.in_temperature_series());
    assert!(!extractor.in_pair());
    assert_eq!(extractor.latch(), None);
    assert_eq!(extractor.pending_time(), None);
    assert_eq!(extractor.emitted(), 0);
    assert!(extractor.finish().is_empty());
}

#[test]
fn time_then_value_emits_one_datapoint() {
    let mut extractor = Extractor::new();
    extractor.open_series(true);
    extractor.open_pair();
    assert!(extractor.record_time(" 2022-08-01T00:00:00Z ").is_ok());
    assert_eq!(extractor.pending_time(), Some(Timestamp { seconds: MIDNIGHT, nanos: 0 }));
    assert!(extractor.record_value(" 12.3\n").is_ok());
    extractor.close_pair();
    assert_eq!(extractor.pending_time(), None);
    let datapoints = extractor.finish();
    assert_eq!(datapoints.len(), 1);
    assert_eq!(datapoints[0].timestamp, Timestamp { seconds: MIDNIGHT, nanos: 0 });
    assert_eq!(datapoints[0].value, "12.3");
    assert_eq!(datapoints[0].value.parse::<f64>().unwrap(), 12.3);
}

#[test]
fn offsets_and_fractions_are_read_as_utc() {
    let mut extractor = Extractor::new();
    extractor.open_series(true);
    extractor.open_pair();
    assert!(extractor.record_time("2022-08-01T03:00:00.25+03:00").is_ok());
    assert_eq!(
        extractor.pending_time(),
        Some(Timestamp { seconds: MIDNIGHT, nanos: 250_000_000 })
    );
    assert!(extractor.record_time("1969-12-31T23:59:59Z").is_ok());
    assert_eq!(extractor.pending_time(), Some(Timestamp { seconds: -1, nanos: 0 }));
}

#[test]
fn value_before_time_is_dropped() {
    let mut extractor = Extractor::new();
    extractor.open_series(true);
    extractor.open_pair();
    assert!(extractor.record_value("12.3").is_ok());
    assert!(extractor.record_time("2022-08-01T00:00:00Z").is_ok());
    extractor.close_pair();
    assert_eq!(extractor.emitted(), 0);
}

#[test]
fn time_does_not_leak_into_the_next_pair() {
    let mut extractor = Extractor::new();
    extractor.open_series(true);
    extractor.open_pair();
    assert!(extractor.record_time("2022-08-01T00:00:00Z").is_ok());
    extractor.close_pair();
    extractor.open_pair();
    assert!(extractor.record_value("12.3").is_ok());
    extractor.close_pair();
    assert_eq!(extractor.emitted(), 0);
}

#[test]
fn missing_readings_are_skipped() {
    let mut extractor = Extractor::new();
    extractor.open_series(true);
    extractor.open_pair();
    assert!(extractor.record_time("2022-08-01T00:00:00Z").is_ok());
    for text in ["NaN", "nan", " NAN ", "", "   ", "\n"] {
        assert!(extractor.record_value(text).is_ok(), "{:?}", text);
    }
    assert_eq!(extractor.emitted(), 0);
    assert_eq!(extractor.pending_time(), Some(Timestamp { seconds: MIDNIGHT, nanos: 0 }));
}

#[test]
fn outside_a_temperature_series_nothing_is_recorded() {
    let mut extractor = Extractor::new();
    assert!(extractor.record_time("yesterday").is_ok());
    assert!(extractor.record_value("windy").is_ok());
    extractor.open_series(false);
    extractor.open_pair();
    assert!(!extractor.in_pair());
    assert!(extractor.record_time("2022-08-01T00:00:00Z").is_ok());
    assert!(extractor.record_value("12.3").is_ok());
    assert_eq!(extractor.pending_time(), None);
    assert_eq!(extractor.emitted(), 0);
}

#[test]
fn outside_a_pair_nothing_is_recorded() {
    let mut extractor = Extractor::new();
    extractor.open_series(true);
    assert!(extractor.in_temperature_series());
    assert!(!extractor.in_pair());
    assert!(extractor.record_time("2022-08-01T00:00:00Z").is_ok());
    assert_eq!(extractor.pending_time(), None);
    assert!(extractor.record_value("1.5").is_ok());
    assert!(extractor.record_time("yesterday").is_ok());
    assert!(extractor.record_value("warm").is_ok());
    extractor.open_pair();
    assert!(extractor.in_pair());
    assert!(extractor.record_time("2022-08-01T00:00:00Z").is_ok());
    extractor.close_pair();
    assert!(!extractor.in_pair());
    assert!(extractor.record_value("1.5").is_ok());
    assert!(extractor.record_time("yesterday").is_ok());
    assert_eq!(extractor.emitted(), 0);
}

#[test]
fn a_block_boundary_ends_the_open_pair() {
    let mut extractor = Extractor::new();
    extractor.open_series(true);
    extractor.open_pair();
    assert!(extractor.record_time("2022-08-01T00:00:00Z").is_ok());
    extractor.close_series();
    assert!(!extractor.in_pair());
    assert_eq!(extractor.pending_time(), None);
    extractor.open_series(true);
    assert!(extractor.record_value("1.5").is_ok());
    extractor.open_pair();
    assert!(extractor.record_time("2022-08-01T00:00:00Z").is_ok());
    extractor.open_series(true);
    assert!(!extractor.in_pair());
    assert_eq!(extractor.pending_time(), None);
    assert!(extractor.record_value("1.5").is_ok());
    assert_eq!(extractor.emitted(), 0);
}

#[test]
fn invalid_timestamp_carries_the_text() {
    let mut extractor = Extractor::new();
    extractor.open_series(true);
    extractor.open_pair();
    match extractor.record_time(" yesterday ") {
        Err(ExtractError::InvalidTimestamp(text)) => assert_eq!(text, " yesterday "),
        other => panic!("{:?}", other),
    }
    assert_eq!(extractor.pending_time(), None);
    match extractor.record_time("2022-08-01 00:00:00") {
        Err(ExtractError::InvalidTimestamp(_)) => {}
        other => panic!("{:?}", other),
    }
    match extractor.record_time("") {
        Err(ExtractError::InvalidTimestamp(_)) => {}
        other => panic!("{:?}", other),
    }
}

#[test]
fn invalid_value_carries_the_trimmed_text() {
    let mut extractor = Extractor::new();
    extractor.open_series(true);
    extractor.open_pair();
    match extractor.record_value(" 12,3 ") {
        Err(ExtractError::InvalidValue(text)) => assert_eq!(text, "12,3"),
        other => panic!("{:?}", other),
    }
    assert_eq!(extractor.emitted(), 0);
}

#[test]
fn invalid_value_fails_even_without_a_pending_time() {
    let mut extractor = Extractor::new();
    extractor.open_series(true);
    extractor.open_pair();
    assert!(matches!(extractor.record_value("abc"), Err(ExtractError::InvalidValue(_))));
}

#[test]
fn identifier_hint_wins_over_the_latch() {
    let mut extractor = Extractor::new();
    extractor.observe_property("http://.../WindSpeed");
    assert_eq!(extractor.latch(), Some(false));
    extractor.open_series(true);
    assert!(extractor.in_temperature_series());
    assert_eq!(extractor.latch(), None);
}

#[test]
fn latch_serves_the_next_block_only() {
    let mut extractor = Extractor::new();
    extractor.observe_property("http://.../AirTemperature");
    assert_eq!(extractor.latch(), Some(true));
    extractor.open_series(false);
    assert!(extractor.in_temperature_series());
    extractor.close_series();
    assert!(!extractor.in_temperature_series());
    extractor.open_series(false);
    assert!(!extractor.in_temperature_series());
}

#[test]
fn latch_holds_the_last_property() {
    let mut extractor = Extractor::new();
    extractor.observe_property("AirTemperature");
    extractor.observe_property("WindSpeed");
    extractor.open_series(false);
    assert!(!extractor.in_temperature_series());
}

#[test]
fn closing_a_series_empties_an_unused_latch() {
    let mut extractor = Extractor::new();
    extractor.open_series(false);
    extractor.observe_property("AirTemperature");
    extractor.close_series();
    assert_eq!(extractor.latch(), None);
    extractor.open_series(false);
    assert!(!extractor.in_temperature_series());
}

#[test]
fn one_time_serves_every_value_of_its_pair() {
    let mut extractor = Extractor::new();
    extractor.open_series(true);
    extractor.open_pair();
    assert!(extractor.record_time("2022-08-01T00:00:00Z").is_ok());
    assert!(extractor.record_value("1").is_ok());
    assert!(extractor.record_value("2").is_ok());
    let datapoints = extractor.finish();
    assert_eq!(datapoints.len(), 2);
    assert_eq!(datapoints[0].value, "1");
    assert_eq!(datapoints[1].value, "2");
    assert_eq!(datapoints[0].timestamp, datapoints[1].timestamp);
}

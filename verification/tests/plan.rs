use hist_temps::classify::{lowered_mentions_temperature, Hints};
use hist_temps::extract::{Action, Extractor, TextElement};
use hist_temps::fmi::{ExtractError, Temperatures};
use hist_temps::time::Timestamp;
use hist_temps::xml::{Attribute, StartTag, XmlEvent};

fn start(name: &str, attributes: &[(&str, &str)]) -> XmlEvent {
    XmlEvent::Start(StartTag {
        name: name.as_bytes().to_vec(),
        attributes: attributes
            .iter()
            .map(|(key, value)| {
                Some(Attribute { key: key.as_bytes().to_vec(), value: Some(value.to_string()) })
            })
            .collect(),
    })
}

fn end(name: &str) -> XmlEvent {
    XmlEvent::End(name.as_bytes().to_vec())
}

#[test]
fn plan_outside_a_temperature_series() {
    let hints = Hints::fmi();
    let extractor = Extractor::new();
    assert_eq!(extractor.plan(&XmlEvent::Eof, &hints), Action::Finish);
    assert_eq!(extractor.plan(&XmlEvent::Other, &hints), Action::Pass);
    assert_eq!(
        extractor.plan(&start("wml2:MeasurementTimeseries", &[("gml:id", "obs-t2m")]), &hints),
        Action::OpenSeries(true)
    );
    assert_eq!(
        extractor.plan(&start("wml2:MeasurementTimeseries", &[("gml:id", "obs-ws")]), &hints),
        Action::OpenSeries(false)
    );
    assert_eq!(extractor.plan(&start("wml2:MeasurementTimeseries", &[]), &hints), Action::OpenSeries(false));
    assert_eq!(extractor.plan(&end("wml2:MeasurementTimeseries"), &hints), Action::CloseSeries);
    assert_eq!(extractor.plan(&start("wml2:MeasurementTVP", &[]), &hints), Action::OpenPair);
    assert_eq!(extractor.plan(&end("wml2:MeasurementTVP"), &hints), Action::ClosePair);
    assert_eq!(extractor.plan(&start("wml2:time", &[]), &hints), Action::Pass);
    assert_eq!(extractor.plan(&start("wml2:value", &[]), &hints), Action::Pass);
    assert_eq!(
        extractor.plan(&start("om:observedProperty", &[]), &hints),
        Action::ReadText(TextElement::ObservedProperty)
    );
    assert_eq!(extractor.plan(&end("wml2:time"), &hints), Action::Pass);
    assert_eq!(extractor.plan(&end("om:observedProperty"), &hints), Action::Pass);
    assert_eq!(extractor.plan(&start("wml2:point", &[]), &hints), Action::Pass);
}

#[test]
fn plan_inside_a_temperature_series() {
    let hints = Hints::fmi();
    let mut extractor = Extractor::new();
    extractor.open_series(true);
    assert_eq!(extractor.plan(&start("wml2:time", &[]), &hints), Action::Pass);
    assert_eq!(extractor.plan(&start("value", &[]), &hints), Action::Pass);
    assert_eq!(extractor.plan(&start("wml2:MeasurementTVP", &[]), &hints), Action::OpenPair);
    extractor.open_pair();
    assert_eq!(extractor.plan(&start("wml2:time", &[]), &hints), Action::ReadText(TextElement::Time));
    assert_eq!(extractor.plan(&start("value", &[]), &hints), Action::ReadText(TextElement::Value));
    assert_eq!(
        extractor.plan(&start("observedProperty", &[]), &hints),
        Action::ReadText(TextElement::ObservedProperty)
    );
    assert_eq!(extractor.plan(&end("wml2:value"), &hints), Action::Pass);
    extractor.close_pair();
    assert_eq!(extractor.plan(&start("wml2:time", &[]), &hints), Action::Pass);
    assert_eq!(extractor.plan(&start("wml2:value", &[]), &hints), Action::Pass);
    extractor.open_pair();
    extractor.close_series();
    assert_eq!(extractor.plan(&start("wml2:time", &[]), &hints), Action::Pass);
}

#[test]
fn plan_in_a_pair_outside_a_temperature_series() {
    let hints = Hints::fmi();
    let mut extractor = Extractor::new();
    extractor.open_pair();
    assert_eq!(extractor.plan(&start("wml2:time", &[]), &hints), Action::Pass);
    extractor.open_series(false);
    extractor.open_pair();
    assert_eq!(extractor.plan(&start("wml2:time", &[]), &hints), Action::Pass);
    assert_eq!(extractor.plan(&start("wml2:value", &[]), &hints), Action::Pass);
}

#[test]
fn plan_reads_attributes_up_to_the_first_malformed_item() {
    let hints = Hints::fmi();
    let extractor = Extractor::new();
    let cut = XmlEvent::Start(StartTag {
        name: b"MeasurementTimeseries".to_vec(),
        attributes: vec![
            None,
            Some(Attribute { key: b"id".to_vec(), value: Some("obs-t2m".to_string()) }),
        ],
    });
    assert_eq!(extractor.plan(&cut, &hints), Action::OpenSeries(false));
}

#[test]
fn plan_goes_by_the_hints_that_it_is_given() {
    let hints = Hints::new(&vec!["-ws".to_string()]);
    let extractor = Extractor::new();
    assert_eq!(
        extractor.plan(&start("MeasurementTimeseries", &[("id", "obs-ws")]), &hints),
        Action::OpenSeries(true)
    );
    assert_eq!(
        extractor.plan(&start("MeasurementTimeseries", &[("id", "obs-t2m")]), &hints),
        Action::OpenSeries(false)
    );
}

#[test]
fn accepted_instant_becomes_the_pending_one() {
    let mut extractor = Extractor::new();
    let instant = Timestamp { seconds: 5, nanos: 6 };
    assert!(extractor.accept_time("five", Some(instant)).is_ok());
    assert_eq!(extractor.pending_time(), None);
    assert!(extractor.accept_time("five", None).is_ok());
    extractor.open_series(true);
    assert!(extractor.accept_time("five", Some(instant)).is_ok());
    assert_eq!(extractor.pending_time(), None);
    assert!(extractor.accept_time("five", None).is_ok());
    extractor.open_pair();
    assert!(extractor.accept_time("five", Some(instant)).is_ok());
    assert_eq!(extractor.pending_time(), Some(instant));
    match extractor.accept_time(" six ", None) {
        Err(ExtractError::InvalidTimestamp(text)) => assert_eq!(text, " six "),
        other => panic!("{:?}", other),
    }
    assert_eq!(extractor.pending_time(), Some(instant));
}

#[test]
fn text_goes_to_the_element_that_it_belongs_to() {
    let mut extractor = Extractor::new();
    assert!(extractor.record_text(TextElement::ObservedProperty, "AirTemperature").is_ok());
    assert_eq!(extractor.latch(), Some(true));
    extractor.open_series(false);
    extractor.open_pair();
    assert!(extractor.record_text(TextElement::Time, "2022-08-01T00:00:00Z").is_ok());
    assert_eq!(extractor.pending_time(), Some(Timestamp { seconds: 1659312000, nanos: 0 }));
    assert!(extractor.record_text(TextElement::Value, "12.3").is_ok());
    assert_eq!(extractor.emitted(), 1);
    assert!(matches!(
        extractor.record_text(TextElement::Value, "x"),
        Err(ExtractError::InvalidValue(_))
    ));
    assert!(matches!(
        extractor.record_text(TextElement::Time, "x"),
        Err(ExtractError::InvalidTimestamp(_))
    ));
    assert_eq!(extractor.emitted(), 1);
}

#[test]
fn lowered_text_is_searched_as_it_is() {
    assert!(lowered_mentions_temperature("http://.../airtemperature"));
    assert!(lowered_mentions_temperature("airtemp"));
    assert!(lowered_mentions_temperature("the temperature"));
    assert!(!lowered_mentions_temperature("AirTemperature"));
    assert!(!lowered_mentions_temperature("windspeed"));
}

#[test]
fn request_between_two_texts() {
    let temperatures = Temperatures::new("Oulu");
    let request = temperatures.request_between("a".to_string(), "b".to_string());
    assert_eq!(request.url, "https://opendata.fmi.fi/wfs");
    assert_eq!(request.query.len(), 7);
    assert_eq!(request.query[4], ("starttime".to_string(), "a".to_string()));
    assert_eq!(request.query[5], ("endtime".to_string(), "b".to_string()));
    assert_eq!(request.query[6], ("place".to_string(), "Oulu".to_string()));
}

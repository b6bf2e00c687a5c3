//! Datapoints and errors, the WFS request and the judgement of its response.

use vstd::prelude::*;
use crate::classify::{fmi_hints, Hints};
use crate::number::{is_float_literal, is_nan_word};
use crate::scan::{extraction, parse_with_hints};
use crate::text::{contains, first_lines, head_lines, joined, str_contains};
use crate::time::{format_rfc3339, rfc3339_text, Timestamp};

verus! {

/// One observation: an instant and the value measured at it, in degrees. The value is
/// kept as the text that the document gives, which reads as a floating-point number.
#[derive(Clone, Debug)]
pub struct Datapoint {
    pub timestamp: Timestamp,
    pub value: String,
}

/// A [`Datapoint`] as a value.
pub struct DatapointView {
    pub timestamp: Timestamp,
    pub value: Seq<char>,
}

impl View for Datapoint {
    type V = DatapointView;

    open spec fn view(&self) -> DatapointView {
        DatapointView { timestamp: self.timestamp, value: self.value@ }
    }
}

/// The texts that a datapoint may carry as its value: those that read as a floating-point
/// value, but for the word `nan`.
pub open spec fn is_reading(value: Seq<char>) -> bool {
    is_float_literal(value) && !is_nan_word(value)
}

/// Why an extraction failed.
#[derive(Clone, Debug)]
pub enum ExtractError {
    /// The document is no well-formed XML; the reader's message.
    XmlSyntax(String),
    /// The text of a `time` element is no RFC 3339 date and time; the text.
    InvalidTimestamp(String),
    /// The text of a `value` element is no number; the text, trimmed.
    InvalidValue(String),
}

/// An [`ExtractError`] as a value.
pub enum Failure {
    XmlSyntax(Seq<char>),
    InvalidTimestamp(Seq<char>),
    InvalidValue(Seq<char>),
}

impl View for ExtractError {
    type V = Failure;

    open spec fn view(&self) -> Failure {
        match self {
            ExtractError::XmlSyntax(message) => Failure::XmlSyntax(message@),
            ExtractError::InvalidTimestamp(text) => Failure::InvalidTimestamp(text@),
            ExtractError::InvalidValue(text) => Failure::InvalidValue(text@),
        }
    }
}

/// Datapoints as values.
pub open spec fn datapoint_views(datapoints: Seq<Datapoint>) -> Seq<DatapointView> {
    Seq::new(datapoints.len(), |i: int| datapoints[i]@)
}

/// The outcome of an extraction by its view.
pub open spec fn outcome_view(outcome: Result<Vec<Datapoint>, ExtractError>) -> Result<
    Seq<DatapointView>,
    Failure,
> {
    match outcome {
        Ok(datapoints) => Ok(datapoint_views(datapoints@)),
        Err(error) => Err(error@),
    }
}

/// Extracts the datapoints of the temperature series of `xml` in one pass.
pub fn parse_temperature_timeseries(xml: &str) -> (outcome: Result<Vec<Datapoint>, ExtractError>)
    ensures
        outcome_view(outcome) == extraction(xml@, fmi_hints()),
        outcome matches Ok(datapoints) ==> forall|i: int|
            0 <= i < datapoints.len() ==> is_reading(#[trigger] datapoints[i].value@),
{
    let hints = Hints::fmi();
    parse_with_hints(xml, &hints)
}

/// Why a fetch failed.
#[derive(Clone, Debug)]
pub enum FetchError {
    /// The request could not be sent, or the connection failed; the transport's message.
    Transport(String),
    /// The service answered with this status, which is no success.
    ServiceStatus(u16),
    /// The service answered with an exception report; its first lines.
    ServiceException(String),
    /// The answer could not be extracted from.
    Extract(ExtractError),
}

/// A [`FetchError`] as a value.
pub enum FetchFailure {
    Transport(Seq<char>),
    ServiceStatus(u16),
    ServiceException(Seq<char>),
    Extract(Failure),
}

impl View for FetchError {
    type V = FetchFailure;

    open spec fn view(&self) -> FetchFailure {
        match self {
            FetchError::Transport(message) => FetchFailure::Transport(message@),
            FetchError::ServiceStatus(status) => FetchFailure::ServiceStatus(*status),
            FetchError::ServiceException(excerpt) => FetchFailure::ServiceException(excerpt@),
            FetchError::Extract(error) => FetchFailure::Extract(error@),
        }
    }
}

/// The address of the Finnish Meteorological Institute's WFS.
pub const FMI_URL: &'static str = "https://opendata.fmi.fi/wfs";

/// The stored query for hourly weather observations as time/value pairs.
pub const HOURLY_OBSERVATIONS: &'static str = "fmi::observations::weather::hourly::timevaluepair";

/// How many lines of an exception report an error carries.
pub const EXCERPT_LINES: usize = 10;

/// Key/value pairs by their views.
pub open spec fn pair_views(pairs: Seq<(String, String)>) -> Seq<(Seq<char>, Seq<char>)> {
    Seq::new(pairs.len(), |i: int| (pairs[i].0@, pairs[i].1@))
}

/// The query of a `GetFeature` request: the protocol's parameters, the stored query, and
/// then the caller's parameters in their order.
pub open spec fn feature_query(
    stored_query_id: Seq<char>,
    parameters: Seq<(Seq<char>, Seq<char>)>,
) -> Seq<(Seq<char>, Seq<char>)> {
    seq![
        ("service"@, "WFS"@),
        ("version"@, "2.0.0"@),
        ("request"@, "GetFeature"@),
        ("storedquery_id"@, stored_query_id),
    ] + parameters
}

/// Whether an HTTP status is a success.
pub open spec fn is_success(status: u16) -> bool {
    200 <= status < 300
}

/// Whether a response body is an exception report of the service.
pub open spec fn is_exception_report(body: Seq<char>) -> bool {
    contains(body, "ExceptionReport"@)
}

/// What an error carries of an exception report: its first lines.
pub open spec fn exception_excerpt(body: Seq<char>) -> Seq<char> {
    joined(first_lines(body, EXCERPT_LINES as nat), '\n')
}

/// What a response with this status and body amounts to.
pub open spec fn reception(status: u16, body: Seq<char>) -> Result<
    Seq<DatapointView>,
    FetchFailure,
> {
    if !is_success(status) {
        Err(FetchFailure::ServiceStatus(status))
    } else if is_exception_report(body) {
        Err(FetchFailure::ServiceException(exception_excerpt(body)))
    } else {
        match extraction(body, fmi_hints()) {
            Ok(points) => Ok(points),
            Err(failure) => Err(FetchFailure::Extract(failure)),
        }
    }
}

/// A request to send: an HTTP GET of `url` with `query` as its query parameters.
#[derive(Clone, Debug)]
pub struct WfsRequest {
    pub url: String,
    pub query: Vec<(String, String)>,
}

/// A client of one WFS endpoint: what it asks, and what it makes of the answer.
#[derive(Clone, Debug)]
pub struct WfsClient {
    base_url: String,
}

impl WfsClient {
    /// The address of the endpoint.
    pub closed spec fn url(&self) -> Seq<char> {
        self.base_url@
    }

    /// A client of the endpoint at `base_url`.
    pub fn new(base_url: &str) -> (client: WfsClient)
        ensures
            client.url() == base_url@,
    {
        WfsClient { base_url: base_url.to_owned() }
    }

    /// The address of the endpoint.
    pub fn base_url(&self) -> (url: &str)
        ensures
            url@ == self.url(),
    {
        self.base_url.as_str()
    }

    /// The query parameters of a `GetFeature` request for a stored query.
    pub fn query(stored_query_id: &str, parameters: &Vec<(String, String)>) -> (query: Vec<
        (String, String),
    >)
        ensures
            pair_views(query@) == feature_query(stored_query_id@, pair_views(parameters@)),
    {
        let mut query: Vec<(String, String)> = Vec::new();
        query.push(("service".to_owned(), "WFS".to_owned()));
        query.push(("version".to_owned(), "2.0.0".to_owned()));
        query.push(("request".to_owned(), "GetFeature".to_owned()));
        query.push(("storedquery_id".to_owned(), stored_query_id.to_owned()));
        let ghost protocol = pair_views(query@);
        let mut i: usize = 0;
        while i < parameters.len()
            invariant
                i <= parameters.len(),
                query.len() == 4 + i,
                pair_views(query@) == protocol + pair_views(parameters@).take(i as int),
            decreases parameters.len() - i,
        {
            let ghost before = pair_views(query@);
            let pair = &parameters[i];
            query.push((pair.0.clone(), pair.1.clone()));
            assert(pair_views(query@) =~= before.push(pair_views(parameters@)[i as int]));
            assert(pair_views(parameters@).take(i + 1) =~= pair_views(parameters@).take(
                i as int,
            ).push(pair_views(parameters@)[i as int]));
            i = i + 1;
        }
        assert(pair_views(parameters@).take(i as int) =~= pair_views(parameters@));
        assert(protocol =~= feature_query(stored_query_id@, Seq::empty()));
        query
    }

    /// The `GetFeature` request for a stored query with these parameters.
    pub fn request(&self, stored_query_id: &str, parameters: &Vec<(String, String)>) -> (request:
        WfsRequest)
        ensures
            request.url@ == self.url(),
            pair_views(request.query@) == feature_query(
                stored_query_id@,
                pair_views(parameters@),
            ),
    {
        WfsRequest {
            url: self.base_url.clone(),
            query: WfsClient::query(stored_query_id, parameters),
        }
    }

    /// Accepts the status of a response, or fails with it where it is no success.
    pub fn check_status(status: u16) -> (outcome: Result<(), FetchError>)
        ensures
            is_success(status) ==> outcome is Ok,
            !is_success(status) ==> (outcome matches Err(error) && error@
                == FetchFailure::ServiceStatus(status)),
    {
        if 200 <= status && status < 300 {
            Ok(())
        } else {
            Err(FetchError::ServiceStatus(status))
        }
    }

    /// Accepts the body of a response, or fails with its first lines where it is an
    /// exception report.
    pub fn check_body(body: String) -> (outcome: Result<String, FetchError>)
        ensures
            !is_exception_report(body@) ==> outcome == Ok::<String, FetchError>(body),
            is_exception_report(body@) ==> (outcome matches Err(error) && error@
                == FetchFailure::ServiceException(exception_excerpt(body@))),
    {
        if str_contains(body.as_str(), "ExceptionReport") {
            Err(FetchError::ServiceException(head_lines(body.as_str(), EXCERPT_LINES)))
        } else {
            Ok(body)
        }
    }
}

/// The result of a fetch by its view.
pub open spec fn fetch_view(outcome: Result<Vec<Datapoint>, FetchError>) -> Result<
    Seq<DatapointView>,
    FetchFailure,
> {
    match outcome {
        Ok(datapoints) => Ok(datapoint_views(datapoints@)),
        Err(error) => Err(error@),
    }
}

/// The hourly temperatures of one place, from the Finnish Meteorological Institute.
#[derive(Clone, Debug)]
pub struct Temperatures {
    place: String,
    wfs: WfsClient,
}

/// The parameters of a request for the observations of `place` from `start` to `end`.
pub open spec fn observation_parameters(start: Seq<char>, end: Seq<char>, place: Seq<char>) -> Seq<
    (Seq<char>, Seq<char>),
> {
    seq![("starttime"@, start), ("endtime"@, end), ("place"@, place)]
}

impl Temperatures {
    /// The name of the place.
    pub closed spec fn location(&self) -> Seq<char> {
        self.place@
    }

    /// The address that is asked.
    pub closed spec fn url(&self) -> Seq<char> {
        self.wfs.url()
    }

    /// The temperatures of `place`.
    pub fn new(place: &str) -> (temperatures: Temperatures)
        ensures
            temperatures.location() == place@,
            temperatures.url() == FMI_URL@,
    {
        Temperatures { place: place.to_owned(), wfs: WfsClient::new(FMI_URL) }
    }

    /// The name of the place.
    pub fn place(&self) -> (place: &str)
        ensures
            place@ == self.location(),
    {
        self.place.as_str()
    }

    /// The request for the observations between two instants that are given as RFC 3339
    /// texts.
    pub fn request_between(&self, start_time: String, end_time: String) -> (request: WfsRequest)
        ensures
            request.url@ == self.url(),
            pair_views(request.query@) == feature_query(
                HOURLY_OBSERVATIONS@,
                observation_parameters(start_time@, end_time@, self.location()),
            ),
    {
        let ghost start = start_time@;
        let ghost end = end_time@;
        let mut parameters: Vec<(String, String)> = Vec::new();
        parameters.push(("starttime".to_owned(), start_time));
        parameters.push(("endtime".to_owned(), end_time));
        parameters.push(("place".to_owned(), self.place.clone()));
        assert(pair_views(parameters@) =~= observation_parameters(start, end, self.location()));
        self.wfs.request(HOURLY_OBSERVATIONS, &parameters)
    }

    /// The request for the observations from `start_time` to `end_time`, or `None` where
    /// one of the two has no RFC 3339 text.
    pub fn request(&self, start_time: Timestamp, end_time: Timestamp) -> (request: Option<
        WfsRequest,
    >)
        ensures
            match (rfc3339_text(start_time), rfc3339_text(end_time)) {
                (Some(start), Some(end)) => request matches Some(r) && r.url@ == self.url()
                    && pair_views(r.query@) == feature_query(
                    HOURLY_OBSERVATIONS@,
                    observation_parameters(start, end, self.location()),
                ),
                _ => request is None,
            },
    {
        let start = match format_rfc3339(start_time) {
            Some(text) => text,
            None => {
                return None;
            },
        };
        let end = match format_rfc3339(end_time) {
            Some(text) => text,
            None => {
                return None;
            },
        };
        Some(self.request_between(start, end))
    }

    /// What the response to a request amounts to: the datapoints of its temperature
    /// series, or the reason why there are none.
    pub fn receive(&self, status: u16, body: String) -> (outcome: Result<
        Vec<Datapoint>,
        FetchError,
    >)
        ensures
            fetch_view(outcome) == reception(status, body@),
            outcome matches Ok(datapoints) ==> forall|i: int|
                0 <= i < datapoints.len() ==> is_reading(#[trigger] datapoints[i].value@),
    {
        match WfsClient::check_status(status) {
            Ok(()) => {},
            Err(error) => {
                return Err(error);
            },
        }
        let xml = match WfsClient::check_body(body) {
            Ok(xml) => xml,
            Err(error) => {
                return Err(error);
            },
        };
        match parse_temperature_timeseries(xml.as_str()) {
            Ok(datapoints) => Ok(datapoints),
            Err(error) => Err(FetchError::Extract(error)),
        }
    }
}

} // verus!

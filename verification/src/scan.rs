//! One pass over a document: the reads of the XML reader, and what the extractor makes of
//! them.

use vstd::prelude::*;
use crate::classify::Hints;
use crate::extract::{
    law_pairing_is_forward, law_values_are_readings, lemma_run_append, lemma_run_one,
    paired_forward, run, text_step, Action, Extractor, ScanState, Step, TextElement,
};
use crate::fmi::{
    datapoint_views, is_reading, outcome_view, Datapoint, DatapointView, ExtractError, Failure,
};
use crate::xml::{
    event_read, open_reader, read_event, read_text, reader_document, reads_made, size, text_read,
    XmlEvent, XmlEventView,
};

verus! {

/// What one read leads to.
pub enum Reading {
    /// The document has ended.
    Finished,
    /// The reader failed, with this message.
    Fault(Seq<char>),
    /// Nothing that the extractor acts on.
    Nothing,
    /// A step of the extraction.
    Step(Step),
}

/// The reads that a reader has made, as [`reads_made`] gives them.
pub type Reads = Seq<Option<Seq<u8>>>;

/// What the text of `element`, whose start tag named `name` was the last of the reads
/// `made`, leads to, and the reads made after it. A text that cannot be read fails the
/// extraction, whatever the element.
pub open spec fn text_reading(
    document: Seq<char>,
    made: Reads,
    name: Seq<u8>,
    element: TextElement,
) -> (
    Reading,
    Reads,
) {
    let reading = match text_read(document, made, name) {
        Ok(content) => Reading::Step(text_step(element, content)),
        Err(message) => Reading::Fault(message),
    };
    (reading, made.push(Some(name)))
}

/// What the read of one event after the reads `made` leads to for a scanner in `state`,
/// and the reads made after it.
pub open spec fn reading(
    document: Seq<char>,
    hints: Seq<Seq<char>>,
    made: Reads,
    state: ScanState,
) -> (Reading, Reads) {
    let after = made.push(None);
    match event_read(document, made) {
        Err(message) => (Reading::Fault(message), after),
        Ok(event) => match state.plan(event, hints) {
            Action::Finish => (Reading::Finished, after),
            Action::Pass => (Reading::Nothing, after),
            Action::OpenSeries(hint) => (Reading::Step(Step::OpenSeries(hint)), after),
            Action::CloseSeries => (Reading::Step(Step::CloseSeries), after),
            Action::OpenPair => (Reading::Step(Step::OpenPair), after),
            Action::ClosePair => (Reading::Step(Step::ClosePair), after),
            Action::ReadText(element) => match event {
                XmlEventView::Start(tag) => text_reading(document, after, tag.name, element),
                _ => (Reading::Nothing, after),
            },
        },
    }
}

/// How many reads of `document` may still yield something after `made` of them.
pub open spec fn reads_left(document: Seq<char>, made: nat) -> nat {
    if made <= size(document) {
        (size(document) + 1 - made) as nat
    } else {
        0
    }
}

/// The outcome of an extraction that stands in `state` after the reads `made`. A reader
/// that has made more reads than `document` has bytes yields nothing but its end.
pub open spec fn scan(
    document: Seq<char>,
    hints: Seq<Seq<char>>,
    made: Reads,
    state: ScanState,
) -> Result<Seq<DatapointView>, Failure>
    decreases reads_left(document, made.len()),
{
    if made.len() > size(document) {
        Ok(state.emitted)
    } else {
        let (reading, after) = reading(document, hints, made, state);
        match reading {
            Reading::Finished => Ok(state.emitted),
            Reading::Fault(message) => Err(Failure::XmlSyntax(message)),
            Reading::Nothing => scan(document, hints, after, state),
            Reading::Step(step) => match state.step(step) {
                Ok(next) => scan(document, hints, after, next),
                Err(failure) => Err(failure),
            },
        }
    }
}

/// The datapoints of the temperature series of `document`, in the order of their `value`
/// elements, or the failure that ends the extraction.
pub open spec fn extraction(document: Seq<char>, hints: Seq<Seq<char>>) -> Result<
    Seq<DatapointView>,
    Failure,
> {
    scan(document, hints, Seq::empty(), ScanState::initial())
}

/// Reads the text of the element named `name`, which the reader has just entered, and
/// hands it to the extractor as the text of `element`.
fn take_text(
    reader: &mut quick_xml::Reader<&[u8]>,
    extractor: &mut Extractor,
    name: &Vec<u8>,
    element: TextElement,
) -> (outcome: Result<(), ExtractError>)
    requires
        old(extractor)@.wf(),
    ensures
        reader_document(final(reader)) == reader_document(old(reader)),
        final(extractor)@.wf(),
        ({
            let (reading, after) = text_reading(
                reader_document(old(reader)),
                reads_made(old(reader)),
                name@,
                element,
            );
            &&& reads_made(final(reader)) == after
            &&& match reading {
                Reading::Fault(message) => outcome matches Err(error) && error@
                    == Failure::XmlSyntax(message),
                Reading::Step(step) => match old(extractor)@.step(step) {
                    Ok(after) => outcome is Ok && final(extractor)@ == after,
                    Err(failure) => outcome matches Err(error) && error@ == failure,
                },
                _ => outcome is Ok && final(extractor)@ == old(extractor)@,
            }
        }),
{
    match read_text(reader, name) {
        Ok(text) => extractor.record_text(element, text.as_str()),
        Err(message) => Err(ExtractError::XmlSyntax(message)),
    }
}

/// Extracts the datapoints of the temperature series of `xml` in one pass, with `hints`
/// for the identifiers of temperature series.
pub fn parse_with_hints(xml: &str, hints: &Hints) -> (outcome: Result<
    Vec<Datapoint>,
    ExtractError,
>)
    ensures
        outcome_view(outcome) == extraction(xml@, hints@),
        outcome matches Ok(datapoints) ==> forall|i: int|
            0 <= i < datapoints.len() ==> is_reading(#[trigger] datapoints[i].value@),
{
    let mut reader = open_reader(xml);
    let mut buf: Vec<u8> = Vec::new();
    let mut extractor = Extractor::new();
    loop
        invariant
            reader_document(&reader) == xml@,
            scan(xml@, hints@, reads_made(&reader), extractor@) == extraction(xml@, hints@),
            extractor@.wf(),
        decreases reads_left(xml@, reads_made(&reader).len()),
    {
        let read = read_event(&mut reader, &mut buf);
        buf.clear();
        let event = match read {
            Ok(event) => event,
            Err(message) => {
                return Err(ExtractError::XmlSyntax(message));
            },
        };
        match extractor.plan(&event, hints) {
            Action::Finish => {
                let datapoints = extractor.finish();
                assert forall|i: int| 0 <= i < datapoints.len() implies is_reading(
                    #[trigger] datapoints[i].value@,
                ) by {
                    assert(datapoint_views(datapoints@)[i].value == datapoints[i].value@);
                }
                return Ok(datapoints);
            },
            Action::Pass => {},
            Action::OpenSeries(hint) => extractor.open_series(hint),
            Action::CloseSeries => extractor.close_series(),
            Action::OpenPair => extractor.open_pair(),
            Action::ClosePair => extractor.close_pair(),
            Action::ReadText(element) => match &event {
                XmlEvent::Start(tag) => match take_text(
                    &mut reader,
                    &mut extractor,
                    &tag.name,
                    element,
                ) {
                    Ok(()) => {},
                    Err(error) => {
                        return Err(error);
                    },
                },
                _ => {},
            },
        }
    }
}

/// The steps that an extraction takes when it stands in `state` after the reads `made`,
/// up to the step that fails it.
pub open spec fn trace(
    document: Seq<char>,
    hints: Seq<Seq<char>>,
    made: Reads,
    state: ScanState,
) -> Seq<Step>
    decreases reads_left(document, made.len()),
{
    if made.len() > size(document) {
        Seq::empty()
    } else {
        let (reading, after) = reading(document, hints, made, state);
        match reading {
            Reading::Finished => Seq::empty(),
            Reading::Fault(_) => Seq::empty(),
            Reading::Nothing => trace(document, hints, after, state),
            Reading::Step(step) => match state.step(step) {
                Ok(next) => seq![step] + trace(document, hints, after, next),
                Err(_) => seq![step],
            },
        }
    }
}

/// The steps that the extraction of `document` takes.
pub open spec fn steps_of(document: Seq<char>, hints: Seq<Seq<char>>) -> Seq<Step> {
    trace(document, hints, Seq::empty(), ScanState::initial())
}

proof fn lemma_scan_runs_trace(
    document: Seq<char>,
    hints: Seq<Seq<char>>,
    made: Reads,
    state: ScanState,
    before: Seq<Step>,
    origin: ScanState,
)
    requires
        run(origin, before) == Ok::<ScanState, Failure>(state),
    ensures
        scan(document, hints, made, state) matches Ok(points) ==> run(
            origin,
            before + trace(document, hints, made, state),
        ) matches Ok(last) && last.emitted == points,
    decreases reads_left(document, made.len()),
{
    if made.len() > size(document) {
        assert(before + Seq::<Step>::empty() =~= before);
    } else {
        let (reading, after) = reading(document, hints, made, state);
        match reading {
            Reading::Finished => {
                assert(before + Seq::<Step>::empty() =~= before);
            },
            Reading::Fault(_) => {},
            Reading::Nothing => {
                lemma_scan_runs_trace(document, hints, after, state, before, origin);
            },
            Reading::Step(step) => {
                if let Ok(next) = state.step(step) {
                    lemma_run_append(origin, before, seq![step]);
                    lemma_run_one(state, step);
                    lemma_scan_runs_trace(
                        document,
                        hints,
                        after,
                        next,
                        before + seq![step],
                        origin,
                    );
                    assert(before + (seq![step] + trace(document, hints, after, next)) =~= (before
                        + seq![step]) + trace(document, hints, after, next));
                }
            },
        }
    }
}

/// An extraction that succeeds returns what its steps emit.
pub proof fn law_extraction_runs_steps(document: Seq<char>, hints: Seq<Seq<char>>)
    ensures
        extraction(document, hints) matches Ok(points) ==> run(
            ScanState::initial(),
            steps_of(document, hints),
        ) matches Ok(last) && last.emitted == points,
{
    let origin = ScanState::initial();
    lemma_scan_runs_trace(document, hints, Seq::empty(), origin, Seq::empty(), origin);
    assert(Seq::<Step>::empty() + steps_of(document, hints) =~= steps_of(document, hints));
}

/// Every datapoint extracted from a document carries a value that reads as a
/// floating-point value and is not the word `nan`.
pub proof fn law_extracted_values_are_readings(document: Seq<char>, hints: Seq<Seq<char>>)
    ensures
        extraction(document, hints) matches Ok(points) ==> forall|i: int|
            0 <= i < points.len() ==> is_reading(#[trigger] points[i].value),
{
    law_extraction_runs_steps(document, hints);
    law_values_are_readings(steps_of(document, hints));
}

/// Every datapoint extracted from a document takes its instant from a `time` element
/// that the extraction met before the datapoint's `value` element, with no pair opening
/// or closing between the two.
pub proof fn law_extracted_pairs_are_forward(document: Seq<char>, hints: Seq<Seq<char>>)
    ensures
        extraction(document, hints) matches Ok(points) ==> forall|i: int|
            0 <= i < points.len() ==> paired_forward(
                steps_of(document, hints),
                #[trigger] points[i],
            ),
{
    law_extraction_runs_steps(document, hints);
    law_pairing_is_forward(steps_of(document, hints));
}

} // verus!

//! The streaming extractor as a state machine: what each event asks of it, how each step
//! changes its state, and what holds of every run.

use vstd::prelude::*;
use vstd::string::StringSliceAdditionalSpecFns;
use crate::classify::{
    classification, identifier_hint, is_temperature_block, is_temperature_timeseries,
    mentions_temperature, names_temperature, Hints,
};
use crate::fmi::{datapoint_views, is_reading, Datapoint, DatapointView, ExtractError, Failure};
use crate::number::{
    chars_are_float_literal, chars_are_nan_word, is_decimal, is_float_literal, is_nan_word,
    is_special, unsigned,
};
use crate::text::{chars_of, trim, trimmed};
use crate::time::{parse_rfc3339, rfc3339_instant, Timestamp};
use crate::xml::{local_part, local_start, tail_is, XmlEvent, XmlEventView};

verus! {

/// The elements that the extractor knows, by their local names.
#[derive(Clone, Copy, Debug, PartialEq, Eq, Structural)]
pub enum Element {
    /// `MeasurementTimeseries`: a timeseries block.
    Timeseries,
    /// `MeasurementTVP`: a time/value pair.
    Pair,
    /// `time`.
    Time,
    /// `value`.
    Value,
    /// `observedProperty`.
    ObservedProperty,
    /// Any other element.
    Other,
}

/// The element that a local name stands for.
pub open spec fn element_named(local_name: Seq<u8>) -> Element {
    if local_name == "MeasurementTimeseries".spec_bytes() {
        Element::Timeseries
    } else if local_name == "MeasurementTVP".spec_bytes() {
        Element::Pair
    } else if local_name == "time".spec_bytes() {
        Element::Time
    } else if local_name == "value".spec_bytes() {
        Element::Value
    } else if local_name == "observedProperty".spec_bytes() {
        Element::ObservedProperty
    } else {
        Element::Other
    }
}

/// The element that a qualified name stands for, whatever its prefix.
pub fn element_of(name: &Vec<u8>) -> (element: Element)
    ensures
        element == element_named(local_part(name@)),
{
    let start = local_start(name);
    if tail_is(name, start, "MeasurementTimeseries") {
        Element::Timeseries
    } else if tail_is(name, start, "MeasurementTVP") {
        Element::Pair
    } else if tail_is(name, start, "time") {
        Element::Time
    } else if tail_is(name, start, "value") {
        Element::Value
    } else if tail_is(name, start, "observedProperty") {
        Element::ObservedProperty
    } else {
        Element::Other
    }
}

/// The elements whose text the extractor reads.
#[derive(Clone, Copy, Debug, PartialEq, Eq, Structural)]
pub enum TextElement {
    /// `time`, inside a pair of a temperature block.
    Time,
    /// `value`, inside a pair of a temperature block.
    Value,
    /// `observedProperty`, anywhere.
    ObservedProperty,
}

/// What an event asks of the scanner.
#[derive(Clone, Copy, Debug, PartialEq, Eq, Structural)]
pub enum Action {
    /// The document has ended.
    Finish,
    /// Nothing.
    Pass,
    /// A timeseries block opens; whether its identifier hints at temperature.
    OpenSeries(bool),
    /// A timeseries block closes.
    CloseSeries,
    /// A time/value pair opens.
    OpenPair,
    /// A time/value pair closes.
    ClosePair,
    /// The text of the element that was entered is to be read.
    ReadText(TextElement),
}

/// What the scanner meets in a document, as far as it acts on it.
pub enum Step {
    /// A timeseries block opens; whether its identifier hints at temperature.
    OpenSeries(bool),
    /// A timeseries block closes.
    CloseSeries,
    /// A time/value pair opens.
    OpenPair,
    /// A time/value pair closes.
    ClosePair,
    /// A `time` element with this text.
    Time(Seq<char>),
    /// A `value` element with this text.
    Value(Seq<char>),
    /// A description of an observed property with this text.
    Property(Seq<char>),
}

/// The state of an extraction.
pub struct ScanState {
    /// Whether the scanner is inside a timeseries block that counts as temperature.
    pub in_temperature_series: bool,
    /// Whether the scanner is inside a time/value pair of such a block.
    pub in_pair: bool,
    /// Whether the last observed property named a temperature, until a block takes it.
    pub latch: Option<bool>,
    /// The instant of the last `time` element of the pair that is open.
    pub pending: Option<Timestamp>,
    /// The datapoints emitted so far.
    pub emitted: Seq<DatapointView>,
}

impl ScanState {
    pub open spec fn initial() -> ScanState {
        ScanState {
            in_temperature_series: false,
            in_pair: false,
            latch: None,
            pending: None,
            emitted: Seq::empty(),
        }
    }

    /// A block opens: it is classified once, the latch is used up, and no pair is open.
    pub open spec fn open_series(self, identifier_hint: bool) -> ScanState {
        ScanState {
            in_temperature_series: classification(identifier_hint, self.latch),
            in_pair: false,
            latch: None,
            pending: None,
            ..self
        }
    }

    /// A block closes: the scanner is outside, the latch is empty, and no pair is open.
    pub open spec fn close_series(self) -> ScanState {
        ScanState {
            in_temperature_series: false,
            in_pair: false,
            latch: None,
            pending: None,
            ..self
        }
    }

    /// A pair opens: inside a temperature block the scanner is inside the pair; no instant
    /// is pending.
    pub open spec fn open_pair(self) -> ScanState {
        ScanState { in_pair: self.in_temperature_series, pending: None, ..self }
    }

    /// A pair closes: the scanner is inside no pair, and no instant is pending.
    pub open spec fn close_pair(self) -> ScanState {
        ScanState { in_pair: false, pending: None, ..self }
    }

    /// Whether the scanner reads `time` and `value` elements: whether it is inside a pair
    /// of a temperature block.
    pub open spec fn reads_pairs(self) -> bool {
        self.in_temperature_series && self.in_pair
    }

    /// An observed property is described: the latch holds whether it names a temperature.
    pub open spec fn observe_property(self, text: Seq<char>) -> ScanState {
        ScanState { latch: Some(names_temperature(text)), ..self }
    }

    /// A `time` element with this text, which denotes `instant` or no instant: inside a
    /// pair of a temperature block the instant becomes the pending one, and a text that
    /// denotes none fails the extraction. Anywhere else nothing happens.
    pub open spec fn accept_time(self, text: Seq<char>, instant: Option<Timestamp>) -> Result<
        ScanState,
        Failure,
    > {
        if !self.reads_pairs() {
            Ok(self)
        } else {
            match instant {
                Some(instant) => Ok(ScanState { pending: Some(instant), ..self }),
                None => Err(Failure::InvalidTimestamp(text)),
            }
        }
    }

    /// A `time` element: its text, trimmed, is read as an RFC 3339 date and time.
    pub open spec fn record_time(self, text: Seq<char>) -> Result<ScanState, Failure> {
        self.accept_time(text, rfc3339_instant(trimmed(text)))
    }

    /// A `value` element: inside a pair of a temperature block an empty text and the word
    /// `nan` are passed over, a text that is no number fails the extraction, and a number
    /// is emitted with the pending instant, or dropped where none is pending. Anywhere
    /// else nothing happens.
    pub open spec fn record_value(self, text: Seq<char>) -> Result<ScanState, Failure> {
        let value = trimmed(text);
        if !self.reads_pairs() || value.len() == 0 || is_nan_word(value) {
            Ok(self)
        } else if !is_float_literal(value) {
            Err(Failure::InvalidValue(value))
        } else {
            match self.pending {
                Some(instant) => Ok(
                    ScanState {
                        emitted: self.emitted.push(DatapointView { timestamp: instant, value }),
                        ..self
                    },
                ),
                None => Ok(self),
            }
        }
    }

    pub open spec fn step(self, step: Step) -> Result<ScanState, Failure> {
        match step {
            Step::OpenSeries(identifier_hint) => Ok(self.open_series(identifier_hint)),
            Step::CloseSeries => Ok(self.close_series()),
            Step::OpenPair => Ok(self.open_pair()),
            Step::ClosePair => Ok(self.close_pair()),
            Step::Time(text) => self.record_time(text),
            Step::Value(text) => self.record_value(text),
            Step::Property(text) => Ok(self.observe_property(text)),
        }
    }

    /// What `event` asks of a scanner in this state. The text of a `time` or `value`
    /// element is read only inside a pair of a temperature block, that of an observed
    /// property everywhere.
    pub open spec fn plan(self, event: XmlEventView, hints: Seq<Seq<char>>) -> Action {
        match event {
            XmlEventView::Eof => Action::Finish,
            XmlEventView::Other => Action::Pass,
            XmlEventView::End(name) => match element_named(local_part(name)) {
                Element::Timeseries => Action::CloseSeries,
                Element::Pair => Action::ClosePair,
                _ => Action::Pass,
            },
            XmlEventView::Start(tag) => match element_named(local_part(tag.name)) {
                Element::Timeseries => Action::OpenSeries(identifier_hint(hints, tag.attributes)),
                Element::Pair => Action::OpenPair,
                Element::Time => if self.reads_pairs() {
                    Action::ReadText(TextElement::Time)
                } else {
                    Action::Pass
                },
                Element::Value => if self.reads_pairs() {
                    Action::ReadText(TextElement::Value)
                } else {
                    Action::Pass
                },
                Element::ObservedProperty => Action::ReadText(TextElement::ObservedProperty),
                Element::Other => Action::Pass,
            },
        }
    }

    /// Every datapoint emitted carries a value that a datapoint may carry.
    pub open spec fn wf(self) -> bool {
        forall|i: int| 0 <= i < self.emitted.len() ==> is_reading(#[trigger] self.emitted[i].value)
    }
}

/// The step that the text `content` of `element` amounts to.
pub open spec fn text_step(element: TextElement, content: Seq<char>) -> Step {
    match element {
        TextElement::Time => Step::Time(content),
        TextElement::Value => Step::Value(content),
        TextElement::ObservedProperty => Step::Property(content),
    }
}

/// The state after `steps`, taken in order from `state`, or the first failure among them.
pub open spec fn run(state: ScanState, steps: Seq<Step>) -> Result<ScanState, Failure>
    decreases steps.len(),
{
    if steps.len() == 0 {
        Ok(state)
    } else {
        match run(state, steps.drop_last()) {
            Ok(before) => before.step(steps.last()),
            Err(failure) => Err(failure),
        }
    }
}

/// A run over two sequences of steps is a run over the first and then over the second.
pub proof fn lemma_run_append(state: ScanState, first: Seq<Step>, second: Seq<Step>)
    ensures
        run(state, first + second) == match run(state, first) {
            Ok(middle) => run(middle, second),
            Err(failure) => Err(failure),
        },
    decreases second.len(),
{
    if second.len() == 0 {
        assert(first + second =~= first);
    } else {
        assert((first + second).drop_last() =~= first + second.drop_last());
        assert((first + second).last() == second.last());
        lemma_run_append(state, first, second.drop_last());
    }
}

/// A run over one step is that step.
pub proof fn lemma_run_one(state: ScanState, step: Step)
    ensures
        run(state, seq![step]) == state.step(step),
{
    assert(seq![step].drop_last() =~= Seq::<Step>::empty());
    assert(run(state, seq![step].drop_last()) == Ok::<ScanState, Failure>(state));
}

/// The streaming extractor: the state of one pass over one document.
pub struct Extractor {
    in_temperature_series: bool,
    in_pair: bool,
    latch: Option<bool>,
    current_time: Option<Timestamp>,
    datapoints: Vec<Datapoint>,
}

impl View for Extractor {
    type V = ScanState;

    closed spec fn view(&self) -> ScanState {
        ScanState {
            in_temperature_series: self.in_temperature_series,
            in_pair: self.in_pair,
            latch: self.latch,
            pending: self.current_time,
            emitted: datapoint_views(self.datapoints@),
        }
    }
}

impl Extractor {
    /// An extractor at the start of a document.
    pub fn new() -> (extractor: Extractor)
        ensures
            extractor@ == ScanState::initial(),
    {
        let extractor = Extractor {
            in_temperature_series: false,
            in_pair: false,
            latch: None,
            current_time: None,
            datapoints: Vec::new(),
        };
        assert(extractor@.emitted =~= Seq::empty());
        extractor
    }

    /// Whether the scanner is inside a block that counts as temperature.
    pub fn in_temperature_series(&self) -> (b: bool)
        ensures
            b == self@.in_temperature_series,
    {
        self.in_temperature_series
    }

    /// Whether the scanner is inside a time/value pair of a temperature block.
    pub fn in_pair(&self) -> (b: bool)
        ensures
            b == self@.in_pair,
    {
        self.in_pair
    }

    /// What the latch holds.
    pub fn latch(&self) -> (latch: Option<bool>)
        ensures
            latch == self@.latch,
    {
        self.latch
    }

    /// The instant that is pending.
    pub fn pending_time(&self) -> (pending: Option<Timestamp>)
        ensures
            pending == self@.pending,
    {
        self.current_time
    }

    /// How many datapoints have been emitted.
    pub fn emitted(&self) -> (n: usize)
        ensures
            n == self@.emitted.len(),
    {
        self.datapoints.len()
    }

    /// A timeseries block opens, with this identifier hint.
    pub fn open_series(&mut self, identifier_hint: bool)
        ensures
            final(self)@ == old(self)@.open_series(identifier_hint),
    {
        self.in_temperature_series = is_temperature_block(identifier_hint, self.latch);
        self.in_pair = false;
        self.latch = None;
        self.current_time = None;
    }

    /// A timeseries block closes.
    pub fn close_series(&mut self)
        ensures
            final(self)@ == old(self)@.close_series(),
    {
        self.in_temperature_series = false;
        self.in_pair = false;
        self.latch = None;
        self.current_time = None;
    }

    /// A time/value pair opens.
    pub fn open_pair(&mut self)
        ensures
            final(self)@ == old(self)@.open_pair(),
    {
        self.in_pair = self.in_temperature_series;
        self.current_time = None;
    }

    /// A time/value pair closes.
    pub fn close_pair(&mut self)
        ensures
            final(self)@ == old(self)@.close_pair(),
    {
        self.in_pair = false;
        self.current_time = None;
    }

    /// An observed property is described by `text`.
    pub fn observe_property(&mut self, text: &str)
        ensures
            final(self)@ == old(self)@.observe_property(text@),
    {
        self.latch = Some(mentions_temperature(text));
    }

    /// What `event` asks of the extractor.
    pub fn plan(&self, event: &XmlEvent, hints: &Hints) -> (action: Action)
        ensures
            action == self@.plan(event@, hints@),
    {
        match event {
            XmlEvent::Eof => Action::Finish,
            XmlEvent::Other => Action::Pass,
            XmlEvent::End(name) => match element_of(name) {
                Element::Timeseries => Action::CloseSeries,
                Element::Pair => Action::ClosePair,
                _ => Action::Pass,
            },
            XmlEvent::Start(tag) => match element_of(&tag.name) {
                Element::Timeseries => Action::OpenSeries(
                    is_temperature_timeseries(&tag.attributes, hints),
                ),
                Element::Pair => Action::OpenPair,
                Element::Time => if self.in_temperature_series && self.in_pair {
                    Action::ReadText(TextElement::Time)
                } else {
                    Action::Pass
                },
                Element::Value => if self.in_temperature_series && self.in_pair {
                    Action::ReadText(TextElement::Value)
                } else {
                    Action::Pass
                },
                Element::ObservedProperty => Action::ReadText(TextElement::ObservedProperty),
                Element::Other => Action::Pass,
            },
        }
    }

    /// A `time` element holds `text`, which denotes `instant` or no instant.
    pub fn accept_time(&mut self, text: &str, instant: Option<Timestamp>) -> (outcome: Result<
        (),
        ExtractError,
    >)
        ensures
            match old(self)@.accept_time(text@, instant) {
                Ok(state) => outcome is Ok && final(self)@ == state,
                Err(failure) => outcome matches Err(error) && error@ == failure && final(self)@
                    == old(self)@,
            },
    {
        if !(self.in_temperature_series && self.in_pair) {
            return Ok(());
        }
        match instant {
            Some(instant) => {
                self.current_time = Some(instant);
                Ok(())
            },
            None => Err(ExtractError::InvalidTimestamp(text.to_owned())),
        }
    }

    /// A `time` element holds `text`.
    pub fn record_time(&mut self, text: &str) -> (outcome: Result<(), ExtractError>)
        ensures
            match old(self)@.record_time(text@) {
                Ok(state) => outcome is Ok && final(self)@ == state,
                Err(failure) => outcome matches Err(error) && error@ == failure && final(self)@
                    == old(self)@,
            },
    {
        if !(self.in_temperature_series && self.in_pair) {
            return Ok(());
        }
        let instant = parse_rfc3339(trim(text));
        self.accept_time(text, instant)
    }

    /// A `value` element holds `text`.
    pub fn record_value(&mut self, text: &str) -> (outcome: Result<(), ExtractError>)
        ensures
            match old(self)@.record_value(text@) {
                Ok(state) => outcome is Ok && final(self)@ == state,
                Err(failure) => outcome matches Err(error) && error@ == failure && final(self)@
                    == old(self)@,
            },
            old(self)@.wf() ==> final(self)@.wf(),
    {
        if !(self.in_temperature_series && self.in_pair) {
            return Ok(());
        }
        let value = trim(text);
        let chars = chars_of(value);
        if chars.len() == 0 || chars_are_nan_word(&chars) {
            return Ok(());
        }
        if !chars_are_float_literal(&chars) {
            return Err(ExtractError::InvalidValue(value.to_owned()));
        }
        match self.current_time {
            Some(timestamp) => {
                self.datapoints.push(Datapoint { timestamp, value: value.to_owned() });
                assert(self@.emitted =~= old(self)@.emitted.push(
                    DatapointView { timestamp, value: value@ },
                ));
            },
            None => {},
        }
        Ok(())
    }

    /// `element` holds `text`.
    pub fn record_text(&mut self, element: TextElement, text: &str) -> (outcome: Result<
        (),
        ExtractError,
    >)
        ensures
            match old(self)@.step(text_step(element, text@)) {
                Ok(state) => outcome is Ok && final(self)@ == state,
                Err(failure) => outcome matches Err(error) && error@ == failure && final(self)@
                    == old(self)@,
            },
            old(self)@.wf() ==> final(self)@.wf(),
    {
        match element {
            TextElement::Time => self.record_time(text),
            TextElement::Value => self.record_value(text),
            TextElement::ObservedProperty => {
                self.observe_property(text);
                Ok(())
            },
        }
    }

    /// The datapoints emitted, in the order of their `value` elements.
    pub fn finish(self) -> (datapoints: Vec<Datapoint>)
        ensures
            datapoint_views(datapoints@) == self@.emitted,
    {
        self.datapoints
    }
}

/// Whether `step` ends whatever pair is open: whether a pair or a block opens or closes.
pub open spec fn is_boundary(step: Step) -> bool {
    step is OpenPair || step is ClosePair || step is OpenSeries || step is CloseSeries
}

/// Whether `step` is a `time` element whose text denotes `instant`.
pub open spec fn gives_time(step: Step, instant: Timestamp) -> bool {
    step matches Step::Time(text) && rfc3339_instant(trimmed(text)) == Some(instant)
}

/// Whether `step` is a `value` element whose trimmed text is `value`.
pub open spec fn gives_value(step: Step, value: Seq<char>) -> bool {
    step matches Step::Value(text) && trimmed(text) == value
}

/// Whether a pair opens at step `p` of the first `end` of `steps` and is still open after
/// them: no pair and no block opens or closes behind it.
pub open spec fn pair_open_since(steps: Seq<Step>, p: int, end: int) -> bool {
    &&& 0 <= p < end <= steps.len()
    &&& steps[p] is OpenPair
    &&& forall|j: int| p < j < end ==> !is_boundary(#[trigger] steps[j])
}

/// Whether `point` pairs a `time` element and a `value` element of one pair of `steps`:
/// the pair opens, the `time` element stands behind its opening and the `value` element
/// behind the `time` element, and no pair and no block opens or closes in between.
pub open spec fn paired_forward(steps: Seq<Step>, point: DatapointView) -> bool {
    exists|p: int, t: int, v: int|
        #![trigger steps[p], steps[t], steps[v]]
        {
            &&& pair_open_since(steps, p, v)
            &&& p < t < v < steps.len()
            &&& gives_time(steps[t], point.timestamp)
            &&& gives_value(steps[v], point.value)
        }
}

/// Whether the state's open pair opens in `steps`, and its pending instant comes from a
/// `time` element of that pair.
spec fn traced(steps: Seq<Step>, state: ScanState) -> bool {
    &&& state.in_pair ==> exists|p: int| pair_open_since(steps, p, steps.len() as int)
    &&& state.pending matches Some(instant) ==> state.in_pair && exists|p: int, t: int|
        #![trigger steps[p], steps[t]]
        {
            &&& pair_open_since(steps, p, steps.len() as int)
            &&& p < t < steps.len()
            &&& gives_time(steps[t], instant)
        }
}

proof fn lemma_pair_open_extends(steps: Seq<Step>, p: int, end: int)
    requires
        steps.len() > 0,
        pair_open_since(steps.drop_last(), p, end),
    ensures
        pair_open_since(steps, p, end),
        end == steps.len() - 1 && !is_boundary(steps.last()) ==> pair_open_since(
            steps,
            p,
            steps.len() as int,
        ),
{
    let prefix = steps.drop_last();
    assert(steps[p] == prefix[p]);
    assert forall|j: int| p < j < end implies !is_boundary(#[trigger] steps[j]) by {
        assert(steps[j] == prefix[j]);
    }
}

proof fn lemma_paired_forward_extends(steps: Seq<Step>, point: DatapointView)
    requires
        steps.len() > 0,
        paired_forward(steps.drop_last(), point),
    ensures
        paired_forward(steps, point),
{
    let prefix = steps.drop_last();
    let (p, t, v) = choose|p: int, t: int, v: int|
        #![trigger prefix[p], prefix[t], prefix[v]]
        {
            &&& pair_open_since(prefix, p, v)
            &&& p < t < v < prefix.len()
            &&& gives_time(prefix[t], point.timestamp)
            &&& gives_value(prefix[v], point.value)
        };
    lemma_pair_open_extends(steps, p, v);
    assert(steps[p] == prefix[p] && steps[t] == prefix[t] && steps[v] == prefix[v]);
}

proof fn lemma_run_traced(steps: Seq<Step>)
    ensures
        run(ScanState::initial(), steps) matches Ok(state) ==> {
            &&& state.wf()
            &&& traced(steps, state)
            &&& forall|i: int|
                0 <= i < state.emitted.len() ==> paired_forward(steps, #[trigger] state.emitted[i])
        },
    decreases steps.len(),
{
    if steps.len() > 0 {
        let prefix = steps.drop_last();
        let last = steps.last();
        let end = steps.len() as int;
        let cut = end - 1;
        lemma_run_traced(prefix);
        if let Ok(before) = run(ScanState::initial(), prefix) {
            if let Ok(state) = before.step(last) {
                assert(run(ScanState::initial(), steps) == Ok::<ScanState, Failure>(state));
                assert forall|i: int| 0 <= i < before.emitted.len() implies paired_forward(
                    steps,
                    #[trigger] before.emitted[i],
                ) by {
                    lemma_paired_forward_extends(steps, before.emitted[i]);
                }
                if last is OpenPair {
                    if state.in_pair {
                        assert(pair_open_since(steps, cut, end));
                    }
                } else if !is_boundary(last) {
                    if before.in_pair {
                        let p = choose|p: int| pair_open_since(prefix, p, cut);
                        lemma_pair_open_extends(steps, p, cut);
                        assert(pair_open_since(steps, p, end));
                        if last is Time && before.reads_pairs() {
                            assert(gives_time(steps[cut], state.pending->Some_0));
                            assert(steps[p] is OpenPair);
                        }
                    }
                    if let Some(instant) = before.pending {
                        let (p, t) = choose|p: int, t: int|
                            #![trigger prefix[p], prefix[t]]
                            {
                                &&& pair_open_since(prefix, p, cut)
                                &&& p < t < cut
                                &&& gives_time(prefix[t], instant)
                            };
                        lemma_pair_open_extends(steps, p, cut);
                        assert(steps[p] == prefix[p] && steps[t] == prefix[t]);
                        assert(pair_open_since(steps, p, end));
                        if state.emitted.len() > before.emitted.len() {
                            let point = state.emitted[before.emitted.len() as int];
                            assert(gives_value(steps[cut], point.value));
                            assert(paired_forward(steps, point));
                        }
                    }
                }
                assert(traced(steps, state));
                assert forall|i: int| 0 <= i < state.emitted.len() implies paired_forward(
                    steps,
                    #[trigger] state.emitted[i],
                ) by {
                    if i < before.emitted.len() {
                        assert(state.emitted[i] == before.emitted[i]);
                    }
                }
            }
        }
    }
}

/// Every datapoint that an extraction emits carries a value that reads as a
/// floating-point value and is not the word `nan`: none comes from an empty text.
pub proof fn law_values_are_readings(steps: Seq<Step>)
    ensures
        run(ScanState::initial(), steps) matches Ok(state) ==> forall|i: int|
            0 <= i < state.emitted.len() ==> is_reading(#[trigger] state.emitted[i].value),
{
    lemma_run_traced(steps);
}

/// Where no `value` element holds one of the words `inf`, `infinity` and `nan`, signed or
/// not, every datapoint that an extraction emits carries a decimal number.
pub proof fn law_values_are_decimal(steps: Seq<Step>)
    requires
        forall|j: int|
            0 <= j < steps.len() ==> ((#[trigger] steps[j]) matches Step::Value(text)
                ==> !is_special(unsigned(trimmed(text)))),
    ensures
        run(ScanState::initial(), steps) matches Ok(state) ==> forall|i: int|
            0 <= i < state.emitted.len() ==> is_decimal(
                unsigned(#[trigger] state.emitted[i].value),
            ),
{
    lemma_run_traced(steps);
    if let Ok(state) = run(ScanState::initial(), steps) {
        assert forall|i: int| 0 <= i < state.emitted.len() implies is_decimal(
            unsigned(#[trigger] state.emitted[i].value),
        ) by {
            let point = state.emitted[i];
            assert(paired_forward(steps, point));
            let (p, t, v) = choose|p: int, t: int, v: int|
                #![trigger steps[p], steps[t], steps[v]]
                {
                    &&& pair_open_since(steps, p, v)
                    &&& p < t < v < steps.len()
                    &&& gives_time(steps[t], point.timestamp)
                    &&& gives_value(steps[v], point.value)
                };
            assert(is_reading(point.value));
        }
    }
}

/// Pairing only goes forward, and stays within one pair: every datapoint that an
/// extraction emits takes its instant from a `time` element that stands before its `value`
/// element, both behind the opening of one pair, and no pair and no block opens or closes
/// between that opening and the `value` element.
pub proof fn law_pairing_is_forward(steps: Seq<Step>)
    ensures
        run(ScanState::initial(), steps) matches Ok(state) ==> forall|i: int|
            0 <= i < state.emitted.len() ==> paired_forward(steps, #[trigger] state.emitted[i]),
{
    lemma_run_traced(steps);
}

/// No step takes back or reorders what was emitted: a step that succeeds keeps the
/// datapoints emitted before it, in their order, and adds at most one behind them.
pub proof fn law_emitted_only_grows(state: ScanState, step: Step)
    ensures
        state.step(step) matches Ok(after) ==> {
            ||| after.emitted == state.emitted
            ||| after.emitted.len() == state.emitted.len() + 1 && after.emitted.drop_last()
                == state.emitted
        },
{
    if let Ok(after) = state.step(step) {
        if after.emitted != state.emitted {
            assert(after.emitted.drop_last() =~= state.emitted);
        }
    }
}

/// A `value` element that holds the word `nan`, in whatever case, or nothing but
/// whitespace changes nothing: no datapoint is emitted for it.
pub proof fn law_missing_reading_is_skipped(state: ScanState, text: Seq<char>)
    requires
        is_nan_word(trimmed(text)) || trimmed(text).len() == 0,
    ensures
        state.record_value(text) == Ok::<ScanState, Failure>(state),
{
}

/// A pair that holds no `time` element emits no datapoint, whatever `value` elements
/// it holds.
pub proof fn law_pair_without_time_emits_nothing(state: ScanState, steps: Seq<Step>)
    requires
        steps.len() > 0,
        steps[0] is OpenPair,
        forall|j: int| 0 < j < steps.len() ==> !((#[trigger] steps[j]) is Time),
    ensures
        run(state, steps) matches Ok(after) ==> after.emitted == state.emitted && after.pending
            is None,
    decreases steps.len(),
{
    if steps.len() == 1 {
        assert(steps.drop_last().len() == 0);
        assert(steps.last() == steps[0]);
    } else {
        let prefix = steps.drop_last();
        assert(prefix[0] == steps[0]);
        assert forall|j: int| 0 < j < prefix.len() implies !((#[trigger] prefix[j]) is Time) by {
            assert(prefix[j] == steps[j]);
        }
        law_pair_without_time_emits_nothing(state, prefix);
        assert(steps.last() == steps[steps.len() - 1]);
    }
}

/// A block whose identifier hints at temperature is a temperature block, whatever the
/// latch holds.
pub proof fn law_identifier_hint_suffices(state: ScanState)
    ensures
        state.open_series(true).in_temperature_series,
{
}

/// The latch is a single slot that one block uses up: the block that opens after an
/// observed property is a temperature block exactly where its own identifier hints at it
/// or the property names a temperature, and the block that opens after it closes goes by
/// its own identifier alone.
pub proof fn law_latch_serves_one_block(
    state: ScanState,
    property: Seq<char>,
    first_hint: bool,
    second_hint: bool,
)
    ensures
        ({
            let first = state.observe_property(property).open_series(first_hint);
            let second = first.close_series().open_series(second_hint);
            &&& first.in_temperature_series == (first_hint || names_temperature(property))
            &&& second.in_temperature_series == second_hint
        }),
{
}

/// Only the last observed property before a block counts for it.
pub proof fn law_latch_holds_last_property(state: ScanState, earlier: Seq<char>, later: Seq<char>)
    ensures
        state.observe_property(earlier).observe_property(later) == state.observe_property(later),
{
}

/// Outside a pair of a temperature block, `time` and `value` elements count for nothing:
/// their text is not read, and whatever it is, it changes nothing and fails nothing.
pub proof fn law_time_and_value_count_only_in_a_pair(
    state: ScanState,
    text: Seq<char>,
    event: XmlEventView,
    hints: Seq<Seq<char>>,
)
    requires
        !(state.in_temperature_series && state.in_pair),
    ensures
        state.record_time(text) == Ok::<ScanState, Failure>(state),
        state.record_value(text) == Ok::<ScanState, Failure>(state),
        state.plan(event, hints) != Action::ReadText(TextElement::Time),
        state.plan(event, hints) != Action::ReadText(TextElement::Value),
{
}

/// Whether `step` is one that a block holds besides observed properties and other blocks:
/// a pair opening or closing, a `time` or a `value` element.
pub open spec fn is_pair_content(step: Step) -> bool {
    step is OpenPair || step is ClosePair || step is Time || step is Value
}

proof fn lemma_other_block_is_idle(state: ScanState, block: Seq<Step>)
    requires
        !state.in_temperature_series,
        !state.in_pair,
        state.pending is None,
        forall|j: int| 0 <= j < block.len() ==> is_pair_content(#[trigger] block[j]),
    ensures
        run(state, block) == Ok::<ScanState, Failure>(state),
    decreases block.len(),
{
    if block.len() > 0 {
        let prefix = block.drop_last();
        assert forall|j: int| 0 <= j < prefix.len() implies is_pair_content(
            #[trigger] prefix[j],
        ) by {
            assert(prefix[j] == block[j]);
        }
        lemma_other_block_is_idle(state, prefix);
        assert(is_pair_content(block[block.len() - 1]));
    }
}

/// A block that is no temperature series changes nothing: where a block with an
/// identifier that hints at nothing is put in behind the close of a block, holding pairs,
/// `time` and `value` elements with whatever texts, the steps before and after it run as
/// they do without it, to the same datapoints or the same failure.
pub proof fn law_other_block_changes_nothing(
    origin: ScanState,
    before: Seq<Step>,
    block: Seq<Step>,
    after: Seq<Step>,
)
    requires
        before.len() > 0,
        before.last() is CloseSeries,
        forall|j: int| 0 <= j < block.len() ==> is_pair_content(#[trigger] block[j]),
    ensures
        run(
            origin,
            before + (seq![Step::OpenSeries(false)] + block + seq![Step::CloseSeries]) + after,
        ) == run(origin, before + after),
{
    let opening = seq![Step::OpenSeries(false)];
    let closing = seq![Step::CloseSeries];
    let put_in = opening + block + closing;
    lemma_run_append(origin, before + put_in, after);
    lemma_run_append(origin, before, put_in);
    lemma_run_append(origin, before, after);
    if let Ok(state) = run(origin, before) {
        assert(run(origin, before.drop_last()) is Ok);
        lemma_run_one(state, Step::OpenSeries(false));
        assert(state.open_series(false) == state);
        lemma_other_block_is_idle(state, block);
        lemma_run_append(state, opening, block);
        lemma_run_one(state, Step::CloseSeries);
        assert(state.close_series() == state);
        lemma_run_append(state, opening + block, closing);
        assert(run(state, put_in) == Ok::<ScanState, Failure>(state));
    }
}

} // verus!

//! Which timeseries blocks are temperature series: the identifier hints, the words of an
//! observed property, and the one decision that both feed.

use vstd::prelude::*;
use vstd::string::StringSliceAdditionalSpecFns;
use crate::text::{chars_contain, chars_of, contains, lowercase, to_lowercase, trim, trimmed};
use crate::xml::{
    attribute_views, first_colon, local_part, local_start, tail_is, Attribute, AttributeView,
};

verus! {

/// The substrings of a timeseries identifier that mark a temperature quantity.
pub struct Hints {
    substrings: Vec<Vec<char>>,
}

impl View for Hints {
    type V = Seq<Seq<char>>;

    closed spec fn view(&self) -> Seq<Seq<char>> {
        Seq::new(self.substrings@.len(), |i: int| self.substrings@[i]@)
    }
}

/// The hints for the identifiers of the Finnish Meteorological Institute's open data.
pub open spec fn fmi_hints() -> Seq<Seq<char>> {
    seq!["-t2m"@, "-temperature"@, "TA_PT1H_AVG"@, "AirTemperature"@]
}

/// Whether `identifier` contains one of `hints`.
pub open spec fn matches_hint(hints: Seq<Seq<char>>, identifier: Seq<char>) -> bool {
    exists|i: int| 0 <= i < hints.len() && contains(identifier, #[trigger] hints[i])
}

/// Whether `key` is the attribute name `id` without a prefix.
pub open spec fn is_plain_id(key: Seq<u8>) -> bool {
    key == "id".spec_bytes()
}

/// Whether `key` is the attribute name `id` behind a namespace prefix.
pub open spec fn is_namespaced_id(key: Seq<u8>) -> bool {
    first_colon(key) < key.len() && local_part(key) == "id".spec_bytes()
}

/// Whether `attribute` has a readable value that contains one of `hints`.
pub open spec fn value_matches(hints: Seq<Seq<char>>, attribute: AttributeView) -> bool {
    attribute.value matches Some(value) && matches_hint(hints, value)
}

/// Whether one of `attributes` is a plain `id`.
pub open spec fn has_plain_id(attributes: Seq<AttributeView>) -> bool {
    exists|i: int| 0 <= i < attributes.len() && is_plain_id(#[trigger] attributes[i].key)
}

/// How many attributes stand before the first item of `items` that is none.
pub open spec fn well_formed_count(items: Seq<Option<AttributeView>>) -> nat
    decreases items.len(),
{
    if items.len() == 0 || items.first() is None {
        0
    } else {
        1 + well_formed_count(items.drop_first())
    }
}

/// The attributes that a block is judged by: those that stand before the first malformed
/// item of its attribute list.
pub open spec fn well_formed(items: Seq<Option<AttributeView>>) -> Seq<AttributeView> {
    Seq::new(well_formed_count(items), |i: int| items[i]->Some_0)
}

/// The identifier hint of a timeseries block with this attribute list.
pub open spec fn identifier_hint(hints: Seq<Seq<char>>, items: Seq<Option<AttributeView>>) -> bool {
    attributes_hint(hints, well_formed(items))
}

/// The identifier hint of a timeseries block with these attributes: whether its
/// identifier contains one of `hints`. The identifier is the block's plain `id`; only
/// where it has none, a namespaced `id` stands in for it.
pub open spec fn attributes_hint(hints: Seq<Seq<char>>, attributes: Seq<AttributeView>) -> bool {
    if has_plain_id(attributes) {
        exists|i: int|
            0 <= i < attributes.len() && is_plain_id(#[trigger] attributes[i].key)
                && value_matches(hints, attributes[i])
    } else {
        exists|i: int|
            0 <= i < attributes.len() && is_namespaced_id(#[trigger] attributes[i].key)
                && value_matches(hints, attributes[i])
    }
}

/// Whether a text in lower case names a temperature: whether it contains `temperature` or
/// `airtemp`.
pub open spec fn has_temperature_word(lowered: Seq<char>) -> bool {
    contains(lowered, "temperature"@) || contains(lowered, "airtemp"@)
}

/// Whether a description of an observed property names a temperature: whether its text,
/// trimmed and in lower case, does.
pub open spec fn names_temperature(text: Seq<char>) -> bool {
    has_temperature_word(lowercase(trimmed(text)))
}

/// The classification of a timeseries block: temperature where its identifier hint holds
/// or the latch carries a match over from the last observed property.
pub open spec fn classification(identifier_hint: bool, latch: Option<bool>) -> bool {
    identifier_hint || latch == Some(true)
}

impl Hints {
    /// A table of the given substrings.
    pub fn new(substrings: &Vec<String>) -> (hints: Hints)
        ensures
            hints@ == Seq::new(substrings@.len(), |i: int| substrings@[i]@),
    {
        let mut table: Vec<Vec<char>> = Vec::new();
        let mut i: usize = 0;
        while i < substrings.len()
            invariant
                i <= substrings.len(),
                table@.len() == i,
                forall|j: int| 0 <= j < i ==> (#[trigger] table@[j])@ == substrings@[j]@,
            decreases substrings.len() - i,
        {
            table.push(chars_of(substrings[i].as_str()));
            i = i + 1;
        }
        let hints = Hints { substrings: table };
        assert(hints@ =~= Seq::new(substrings@.len(), |i: int| substrings@[i]@));
        hints
    }

    /// The table for the Finnish Meteorological Institute's identifiers.
    pub fn fmi() -> (hints: Hints)
        ensures
            hints@ == fmi_hints(),
    {
        let mut table: Vec<Vec<char>> = Vec::new();
        table.push(chars_of("-t2m"));
        table.push(chars_of("-temperature"));
        table.push(chars_of("TA_PT1H_AVG"));
        table.push(chars_of("AirTemperature"));
        let hints = Hints { substrings: table };
        assert(hints@ =~= fmi_hints());
        hints
    }

    /// How many substrings the table holds.
    pub fn len(&self) -> (n: usize)
        ensures
            n == self@.len(),
    {
        self.substrings.len()
    }

    /// Whether `identifier` contains one of the table's substrings.
    pub fn matches(&self, identifier: &str) -> (b: bool)
        ensures
            b == matches_hint(self@, identifier@),
    {
        let text = chars_of(identifier);
        let mut i: usize = 0;
        while i < self.substrings.len()
            invariant
                i <= self.substrings.len(),
                text@ == identifier@,
                forall|j: int| 0 <= j < i ==> !contains(identifier@, #[trigger] self@[j]),
            decreases self.substrings.len() - i,
        {
            if chars_contain(&text, &self.substrings[i]) {
                assert(contains(identifier@, self@[i as int]));
                return true;
            }
            i = i + 1;
        }
        false
    }
}

/// Whether `key` is the attribute name `id` without a prefix.
pub fn key_is_plain_id(key: &Vec<u8>) -> (b: bool)
    ensures
        b == is_plain_id(key@),
{
    assert(key@.skip(0) =~= key@);
    tail_is(key, 0, "id")
}

/// Whether `key` is the attribute name `id` behind a namespace prefix.
pub fn key_is_namespaced_id(key: &Vec<u8>) -> (b: bool)
    ensures
        b == is_namespaced_id(key@),
{
    let start = local_start(key);
    start > 0 && tail_is(key, start, "id")
}

proof fn lemma_well_formed_count(items: Seq<Option<AttributeView>>, k: int)
    requires
        0 <= k <= items.len(),
        forall|i: int| 0 <= i < k ==> items[i] is Some,
        k < items.len() ==> items[k] is None,
    ensures
        well_formed_count(items) == k,
    decreases k,
{
    if k > 0 {
        let rest = items.drop_first();
        assert forall|i: int| 0 <= i < k - 1 implies rest[i] is Some by {
            assert(rest[i] == items[i + 1]);
        }
        if k - 1 < rest.len() {
            assert(rest[k - 1] == items[k]);
        }
        lemma_well_formed_count(rest, k - 1);
    }
}

/// Whether the attribute list of a timeseries block marks it as a temperature series.
/// The list counts up to its first malformed item.
pub fn is_temperature_timeseries(attributes: &Vec<Option<Attribute>>, hints: &Hints) -> (hint:
    bool)
    ensures
        hint == identifier_hint(hints@, attribute_views(attributes@)),
{
    let ghost items = attribute_views(attributes@);
    let ghost views = Seq::new(items.len(), |i: int| items[i]->Some_0);
    let mut plain_seen: bool = false;
    let mut plain_match: bool = false;
    let mut namespaced_match: bool = false;
    let mut i: usize = 0;
    loop
        invariant
            i <= attributes.len(),
            items == attribute_views(attributes@),
            views == Seq::new(items.len(), |i: int| items[i]->Some_0),
            forall|j: int| 0 <= j < i ==> items[j] is Some,
            plain_seen == exists|j: int| 0 <= j < i && is_plain_id(#[trigger] views[j].key),
            plain_match == exists|j: int|
                0 <= j < i && is_plain_id(#[trigger] views[j].key) && value_matches(
                    hints@,
                    views[j],
                ),
            namespaced_match == exists|j: int|
                0 <= j < i && is_namespaced_id(#[trigger] views[j].key) && value_matches(
                    hints@,
                    views[j],
                ),
        ensures
            i <= attributes.len(),
            forall|j: int| 0 <= j < i ==> items[j] is Some,
            i < attributes.len() ==> items[i as int] is None,
        decreases attributes.len() - i,
    {
        if i >= attributes.len() {
            break;
        }
        let attribute = match &attributes[i] {
            Some(attribute) => attribute,
            None => {
                break;
            },
        };
        assert(views[i as int] == attribute@);
        assert(views[i as int].key == attribute.key@);
        let plain = key_is_plain_id(&attribute.key);
        let namespaced = key_is_namespaced_id(&attribute.key);
        let matched = match &attribute.value {
            Some(value) => (plain || namespaced) && hints.matches(value.as_str()),
            None => false,
        };
        assert(plain || namespaced ==> matched == value_matches(hints@, views[i as int]));
        if plain {
            plain_seen = true;
            plain_match = plain_match || matched;
        }
        if namespaced {
            namespaced_match = namespaced_match || matched;
        }
        i = i + 1;
    }
    proof {
        lemma_well_formed_count(items, i as int);
        let judged = well_formed(items);
        assert forall|j: int| 0 <= j < i implies judged[j] == views[j] by {}
        assert(plain_seen == has_plain_id(judged)) by {
            if has_plain_id(judged) {
                let j = choose|j: int|
                    0 <= j < judged.len() && is_plain_id(#[trigger] judged[j].key);
                assert(is_plain_id(views[j].key));
            }
            if plain_seen {
                let j = choose|j: int| 0 <= j < i && is_plain_id(#[trigger] views[j].key);
                assert(is_plain_id(judged[j].key));
            }
        }
        assert(plain_match == exists|j: int|
            0 <= j < judged.len() && is_plain_id(#[trigger] judged[j].key) && value_matches(
                hints@,
                judged[j],
            )) by {
            if plain_match {
                let j = choose|j: int|
                    0 <= j < i && is_plain_id(#[trigger] views[j].key) && value_matches(
                        hints@,
                        views[j],
                    );
                assert(is_plain_id(judged[j].key) && value_matches(hints@, judged[j]));
            } else if exists|j: int|
                0 <= j < judged.len() && is_plain_id(#[trigger] judged[j].key) && value_matches(
                    hints@,
                    judged[j],
                ) {
                let j = choose|j: int|
                    0 <= j < judged.len() && is_plain_id(#[trigger] judged[j].key)
                        && value_matches(hints@, judged[j]);
                assert(is_plain_id(views[j].key) && value_matches(hints@, views[j]));
            }
        }
        assert(namespaced_match == exists|j: int|
            0 <= j < judged.len() && is_namespaced_id(#[trigger] judged[j].key)
                && value_matches(hints@, judged[j])) by {
            if namespaced_match {
                let j = choose|j: int|
                    0 <= j < i && is_namespaced_id(#[trigger] views[j].key) && value_matches(
                        hints@,
                        views[j],
                    );
                assert(is_namespaced_id(judged[j].key) && value_matches(hints@, judged[j]));
            } else if exists|j: int|
                0 <= j < judged.len() && is_namespaced_id(#[trigger] judged[j].key)
                    && value_matches(hints@, judged[j]) {
                let j = choose|j: int|
                    0 <= j < judged.len() && is_namespaced_id(#[trigger] judged[j].key)
                        && value_matches(hints@, judged[j]);
                assert(is_namespaced_id(views[j].key) && value_matches(hints@, views[j]));
            }
        }
    }
    if plain_seen {
        plain_match
    } else {
        namespaced_match
    }
}

/// Whether a timeseries block counts as a temperature series, given its identifier hint
/// and the latch.
pub fn is_temperature_block(identifier_hint: bool, latch: Option<bool>) -> (b: bool)
    ensures
        b == classification(identifier_hint, latch),
{
    match latch {
        Some(carried) => identifier_hint || carried,
        None => identifier_hint,
    }
}

/// Whether a text in lower case names a temperature.
pub fn lowered_mentions_temperature(lowered: &str) -> (b: bool)
    ensures
        b == has_temperature_word(lowered@),
{
    let needle = chars_of(lowered);
    let temperature = chars_of("temperature");
    let airtemp = chars_of("airtemp");
    chars_contain(&needle, &temperature) || chars_contain(&needle, &airtemp)
}

/// Whether the text of an observed property names a temperature.
pub fn mentions_temperature(text: &str) -> (b: bool)
    ensures
        b == names_temperature(text@),
{
    let lowered = to_lowercase(trim(text));
    lowered_mentions_temperature(lowered.as_str())
}

/// An identifier that contains `-t2m` hints at temperature, by the institute's table.
pub proof fn law_t2m_hints_at_temperature(identifier: Seq<char>)
    requires
        contains(identifier, "-t2m"@),
    ensures
        matches_hint(fmi_hints(), identifier),
{
    assert(fmi_hints()[0] == "-t2m"@);
}

} // verus!

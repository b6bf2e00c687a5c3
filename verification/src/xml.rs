//! The XML reader: the events of a document as plain values, and qualified names.

use vstd::prelude::*;
use vstd::string::StringSliceAdditionalSpecFns;
use vstd::utf8::encode_utf8;
use quick_xml::events::Event;
use quick_xml::name::QName;
use quick_xml::Reader;

verus! {

/// One attribute of a start tag.
pub struct Attribute {
    /// The key as it is written, prefix included.
    pub key: Vec<u8>,
    /// The value with its escapes resolved, or `None` where they cannot be.
    pub value: Option<String>,
}

/// An [`Attribute`] as a value.
pub struct AttributeView {
    pub key: Seq<u8>,
    pub value: Option<Seq<char>>,
}

impl View for Attribute {
    type V = AttributeView;

    open spec fn view(&self) -> AttributeView {
        AttributeView {
            key: self.key@,
            value: match self.value {
                Some(v) => Some(v@),
                None => None,
            },
        }
    }
}

/// A start tag: its name as it is written, and what its attribute list yields item by
/// item, each an attribute or `None` where the reader rejects what it finds.
pub struct StartTag {
    pub name: Vec<u8>,
    pub attributes: Vec<Option<Attribute>>,
}

/// A [`StartTag`] as a value.
pub struct StartTagView {
    pub name: Seq<u8>,
    pub attributes: Seq<Option<AttributeView>>,
}

impl View for StartTag {
    type V = StartTagView;

    open spec fn view(&self) -> StartTagView {
        StartTagView { name: self.name@, attributes: attribute_views(self.attributes@) }
    }
}

/// The items of an attribute list as values.
pub open spec fn attribute_views(attributes: Seq<Option<Attribute>>) -> Seq<Option<AttributeView>> {
    Seq::new(
        attributes.len(),
        |i: int|
            match attributes[i] {
                Some(attribute) => Some(attribute@),
                None => None,
            },
    )
}

/// What one read of a document yields: a start tag, the name of an end tag, the end of the
/// document, or anything else (text, comments, empty elements, declarations).
pub enum XmlEvent {
    Start(StartTag),
    End(Vec<u8>),
    Eof,
    Other,
}

/// An [`XmlEvent`] as a value.
pub enum XmlEventView {
    Start(StartTagView),
    End(Seq<u8>),
    Eof,
    Other,
}

impl View for XmlEvent {
    type V = XmlEventView;

    open spec fn view(&self) -> XmlEventView {
        match self {
            XmlEvent::Start(tag) => XmlEventView::Start(tag@),
            XmlEvent::End(name) => XmlEventView::End(name@),
            XmlEvent::Eof => XmlEventView::Eof,
            XmlEvent::Other => XmlEventView::Other,
        }
    }
}

/// The outcome of a read by its view: an event, or the reader's message where it failed.
pub open spec fn read_view(read: Result<XmlEvent, String>) -> Result<XmlEventView, Seq<char>> {
    match read {
        Ok(event) => Ok(event@),
        Err(message) => Err(message@),
    }
}

/// The outcome of reading an element's text by its view.
pub open spec fn text_view(text: Result<String, String>) -> Result<Seq<char>, Seq<char>> {
    match text {
        Ok(content) => Ok(content@),
        Err(message) => Err(message@),
    }
}

/// The number of bytes of `document`.
pub open spec fn size(document: Seq<char>) -> nat {
    encode_utf8(document).len()
}

/// `quick_xml::Reader`, of which nothing is known but what the reads below say.
#[verifier::external_type_specification]
#[verifier::external_body]
#[verifier::reject_recursive_types(R)]
pub struct ExReader<R>(quick_xml::Reader<R>);

/// The document that a reader was opened on.
pub uninterp spec fn reader_document(reader: &Reader<&[u8]>) -> Seq<char>;

/// The reads that a reader has made so far, in their order: `None` for a read of one
/// event, `Some` of the end tag's name for a read of an element's text.
pub uninterp spec fn reads_made(reader: &Reader<&[u8]>) -> Seq<Option<Seq<u8>>>;

/// What a reader that trims the whitespace around text yields on `document` when, after
/// the reads `made`, it reads one event.
pub uninterp spec fn event_read(document: Seq<char>, made: Seq<Option<Seq<u8>>>) -> Result<
    XmlEventView,
    Seq<char>,
>;

/// What such a reader yields on `document` when, after the reads `made`, it reads the
/// text that stands before the end tag named `end`.
pub uninterp spec fn text_read(
    document: Seq<char>,
    made: Seq<Option<Seq<u8>>>,
    end: Seq<u8>,
) -> Result<Seq<char>, Seq<char>>;

/// `quick_xml::Reader::from_str` followed by `Reader::trim_text(true)`: a reader at the
/// start of `xml` that has read nothing yet.
#[verifier::external_body]
pub(crate) fn open_reader(xml: &str) -> (reader: Reader<&[u8]>)
    ensures
        reader_document(&reader) == xml@,
        reads_made(&reader) == Seq::<Option<Seq<u8>>>::empty(),
{
    let mut reader = Reader::from_str(xml);
    reader.trim_text(true);
    reader
}

/// `quick_xml::Reader::read_event_into`, its event copied into values of this library:
/// for a start tag the name (`BytesStart::name`) and every item that the iterator of
/// `BytesStart::attributes` yields, an attribute with its value by
/// `Attribute::unescape_value`, or `None` for an item that is an error.
///
/// The reader stays on its document, and what it yields is a matter of the document and
/// of the reads made before. Every read takes at least one byte of the document, unless
/// it fails or finds the end, and after either the reader yields the end for good: so a
/// reader that has made as many reads as the document has bytes yields the end.
#[verifier::external_body]
pub(crate) fn read_event(reader: &mut Reader<&[u8]>, buf: &mut Vec<u8>) -> (read: Result<
    XmlEvent,
    String,
>)
    ensures
        reader_document(final(reader)) == reader_document(old(reader)),
        reads_made(final(reader)) == reads_made(old(reader)).push(None),
        read_view(read) == event_read(reader_document(old(reader)), reads_made(old(reader))),
        reads_made(old(reader)).len() >= size(reader_document(old(reader))) ==> read matches Ok(
            XmlEvent::Eof,
        ),
{
    match reader.read_event_into(buf) {
        Ok(Event::Start(e)) => Ok(XmlEvent::Start(StartTag {
            name: e.name().as_ref().to_vec(),
            attributes: e.attributes().map(|a| a.ok().map(|a| Attribute {
                key: a.key.as_ref().to_vec(),
                value: a.unescape_value().ok().map(|v| v.into_owned()),
            })).collect(),
        })),
        Ok(Event::End(e)) => Ok(XmlEvent::End(e.name().as_ref().to_vec())),
        Ok(Event::Eof) => Ok(XmlEvent::Eof),
        Ok(_) => Ok(XmlEvent::Other),
        Err(e) => Err(e.to_string()),
    }
}

/// `quick_xml::Reader::read_text` for the end tag named `end`: the text between the
/// reader's place and that end tag, or the reader's message where it fails. The reader
/// stays on its document, and what it yields is a matter of the document and of the
/// reads made before.
#[verifier::external_body]
pub(crate) fn read_text(reader: &mut Reader<&[u8]>, end: &Vec<u8>) -> (text: Result<
    String,
    String,
>)
    ensures
        reader_document(final(reader)) == reader_document(old(reader)),
        reads_made(final(reader)) == reads_made(old(reader)).push(Some(end@)),
        text_view(text) == text_read(
            reader_document(old(reader)),
            reads_made(old(reader)),
            end@,
        ),
{
    match reader.read_text(QName(end)) {
        Ok(text) => Ok(text.into_owned()),
        Err(e) => Err(e.to_string()),
    }
}

/// The index of the first colon of `name`, or its length where it has none.
pub open spec fn first_colon(name: Seq<u8>) -> nat
    decreases name.len(),
{
    if name.len() == 0 || name.first() == 0x3A {
        0
    } else {
        1 + first_colon(name.drop_first())
    }
}

/// The local part of a qualified name: what follows its first colon, or all of it where it
/// has none.
pub open spec fn local_part(name: Seq<u8>) -> Seq<u8> {
    if first_colon(name) < name.len() {
        name.skip(first_colon(name) as int + 1)
    } else {
        name
    }
}

proof fn lemma_first_colon(name: Seq<u8>, k: int)
    requires
        0 <= k <= name.len(),
        forall|i: int| 0 <= i < k ==> name[i] != 0x3A,
        k < name.len() ==> name[k] == 0x3A,
    ensures
        first_colon(name) == k,
    decreases k,
{
    if k > 0 {
        let rest = name.drop_first();
        assert forall|i: int| 0 <= i < k - 1 implies rest[i] != 0x3A by {
            assert(rest[i] == name[i + 1]);
        }
        if k - 1 < rest.len() {
            assert(rest[k - 1] == name[k]);
        }
        lemma_first_colon(rest, k - 1);
    }
}

/// The index at which the local part of `name` starts.
pub(crate) fn local_start(name: &Vec<u8>) -> (start: usize)
    ensures
        start <= name.len(),
        name@.skip(start as int) == local_part(name@),
        start > 0 <==> first_colon(name@) < name@.len(),
{
    let mut at: usize = 0;
    while at < name.len() && name[at] != 0x3A
        invariant
            at <= name.len(),
            forall|i: int| 0 <= i < at ==> name@[i] != 0x3A,
        decreases name.len() - at,
    {
        at = at + 1;
    }
    proof {
        lemma_first_colon(name@, at as int);
    }
    if at < name.len() {
        at + 1
    } else {
        assert(name@.skip(0) =~= name@);
        0
    }
}

/// Whether the part of `name` from index `from` on is `word`.
pub(crate) fn tail_is(name: &Vec<u8>, from: usize, word: &str) -> (b: bool)
    requires
        from <= name.len(),
    ensures
        b == (name@.skip(from as int) == word.spec_bytes()),
{
    let bytes = word.as_bytes();
    if name.len() - from != bytes.len() {
        return false;
    }
    let mut i: usize = 0;
    while i < bytes.len()
        invariant
            from <= name.len(),
            name.len() - from == bytes.len(),
            i <= bytes.len(),
            bytes@ == word.spec_bytes(),
            forall|j: int| 0 <= j < i ==> name@.skip(from as int)[j] == bytes@[j],
        decreases bytes.len() - i,
    {
        if name[from + i] != bytes[i] {
            assert(name@.skip(from as int)[i as int] != bytes@[i as int]);
            return false;
        }
        i = i + 1;
    }
    assert(name@.skip(from as int) =~= bytes@);
    true
}

} // verus!

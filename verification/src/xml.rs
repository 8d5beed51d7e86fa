//! Markup events, and the reader that yields them.
//!
//! The reader is `quick_xml`'s. What it yields for a document is not proved
//! here: it has a name, [`document_events`], and the two functions that
//! touch the reader are believed to hand out exactly that run, event by
//! event.

use quick_xml::events::Event;
use quick_xml::Reader;
use vstd::prelude::*;

verus! {

/// One `key="value"` pair of a start tag, both as written in the document.
#[derive(Clone, Debug, PartialEq, Eq)]
pub struct XmlAttribute {
    pub key: String,
    pub value: String,
}

/// What an [`XmlAttribute`] holds, as sequences of characters.
pub struct AttributeModel {
    pub key: Seq<char>,
    pub value: Seq<char>,
}

impl View for XmlAttribute {
    type V = AttributeModel;

    open spec fn view(&self) -> AttributeModel {
        AttributeModel { key: self.key@, value: self.value@ }
    }
}

/// One step of reading a document.
#[derive(Clone, Debug, PartialEq, Eq)]
pub enum XmlEvent {
    /// An opening tag with its attributes.
    Start { name: String, attributes: Vec<XmlAttribute> },
    /// A closing tag.
    End { name: String },
    /// Character data between tags, trimmed.
    Text { content: String },
    /// Anything else: comments, declarations, self-closing tags, references.
    Other,
    /// The reader gave up at this byte offset.
    Malformed { offset: u64 },
    /// The document is exhausted.
    Eof,
}

/// What an [`XmlEvent`] holds, as sequences of characters.
pub enum EventModel {
    Start { name: Seq<char>, attributes: Seq<AttributeModel> },
    End { name: Seq<char> },
    Text { content: Seq<char> },
    Other,
    Malformed { offset: u64 },
    Eof,
}

/// The models of a run of attributes, in order.
pub open spec fn attribute_models(attributes: Seq<XmlAttribute>) -> Seq<AttributeModel> {
    Seq::new(attributes.len(), |i: int| attributes[i]@)
}

impl View for XmlEvent {
    type V = EventModel;

    open spec fn view(&self) -> EventModel {
        match *self {
            XmlEvent::Start { name, attributes } => EventModel::Start {
                name: name@,
                attributes: attribute_models(attributes@),
            },
            XmlEvent::End { name } => EventModel::End { name: name@ },
            XmlEvent::Text { content } => EventModel::Text { content: content@ },
            XmlEvent::Other => EventModel::Other,
            XmlEvent::Malformed { offset } => EventModel::Malformed { offset },
            XmlEvent::Eof => EventModel::Eof,
        }
    }
}

/// An event after which a reader yields nothing more of use.
pub open spec fn is_final(event: EventModel) -> bool {
    event is Eof || event is Malformed
}

/// A run of events that ends with its only final event.
pub open spec fn ends_once(events: Seq<EventModel>) -> bool {
    &&& events.len() > 0
    &&& is_final(events.last())
    &&& forall|i: int| 0 <= i < events.len() - 1 ==> !is_final(#[trigger] events[i])
}

/// `event` is the first of `before`; unless it is final, `after` is the
/// rest. Nothing is said of a reader with no event pending, nor of what
/// follows a final event.
pub open spec fn hands_out(
    before: Seq<EventModel>,
    event: EventModel,
    after: Seq<EventModel>,
) -> bool {
    before.len() > 0 ==> event == before[0] && (!is_final(event) ==> after == before.skip(1))
}

/// `quick_xml::Reader`, which this library only carries from call to call.
#[verifier::external_type_specification]
#[verifier::external_body]
#[verifier::reject_recursive_types(R)]
pub struct ExReader<R>(Reader<R>);

/// The events that a trimming reader yields for `document`, up to and
/// including the first end of input or syntax error.
pub uninterp spec fn document_events(document: Seq<u8>) -> Seq<EventModel>;

/// The events that `reader` has yet to yield, up to and including the first
/// end of input or syntax error.
pub uninterp spec fn pending_events(reader: Reader<&[u8]>) -> Seq<EventModel>;

/// `quick_xml::Reader::from_reader` on a byte slice, with
/// `Config::trim_text(true)`: the new reader has the whole document before it,
/// and its run of events ends with an end of input or a syntax error.
#[verifier::external_body]
pub(crate) fn open_reader<'a>(document: &'a [u8]) -> (reader: Reader<&'a [u8]>)
    ensures
        pending_events(reader) == document_events(document@),
        ends_once(pending_events(reader)),
{
    let mut reader = Reader::from_reader(document);
    reader.config_mut().trim_text(true);
    reader
}

/// `quick_xml::Reader::read_event` on a byte slice: hands out the first event
/// still pending and, unless that event is final, leaves the rest pending.
/// A start tag comes with the attributes that `BytesStart::attributes`
/// yields. An error of the reader and an error among the attributes both
/// come out as `Malformed`, with `Reader::buffer_position` after the read.
#[verifier::external_body]
pub(crate) fn next_event(reader: &mut Reader<&[u8]>) -> (event: XmlEvent)
    ensures
        hands_out(pending_events(*old(reader)), event@, pending_events(*final(reader))),
{
    let read = reader.read_event();
    let offset = reader.buffer_position();
    match read {
        Ok(Event::Start(e)) => match e.attributes().map(|a| a.map(|a| XmlAttribute { key: a.key.0.to_string(), value: a.value.into_owned() })).collect() {
            Ok(attributes) => XmlEvent::Start { name: e.name().0.to_string(), attributes },
            Err(_) => XmlEvent::Malformed { offset },
        },
        Ok(Event::End(e)) => XmlEvent::End { name: e.to_string() },
        Ok(Event::Text(e)) => XmlEvent::Text { content: e.to_string() },
        Ok(Event::Eof) => XmlEvent::Eof,
        Err(_) => XmlEvent::Malformed { offset },
        _ => XmlEvent::Other,
    }
}

} // verus!

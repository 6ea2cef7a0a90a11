//! The trusted boundary to the XML pull parser.
//!
//! `quick_xml` turns a document into a stream of structural tokens; the thin
//! wrappers here convert each token into a plain [`XmlEvent`] of this
//! library. Reading a string slice is a pure computation: the token stream is
//! a function of the document alone. That parse is given a name,
//! [`doc_scan`] — the events the boundary yields for a document, together
//! with the byte offset of the first malformed construct, if any — and every
//! wrapper's contract is stated over that name and the reader's position in
//! it. What the events mean is then verified downstream of this boundary.

use vstd::prelude::*;

use crate::error::ScanError;
use crate::events::{events_view, EventV, XmlEvent};
use quick_xml::events::Event;

verus! {

#[verifier::external_type_specification]
#[verifier::external_body]
#[verifier::reject_recursive_types(R)]
pub struct ExReader<R>(quick_xml::Reader<R>);

#[verifier::external_type_specification]
#[verifier::external_body]
pub struct ExBytesStart<'a>(quick_xml::events::BytesStart<'a>);

#[verifier::external_type_specification]
#[verifier::external_body]
pub struct ExBytesText<'a>(quick_xml::events::BytesText<'a>);

/// The parse of one document: the structural events the boundary yields, in
/// document order, and — where the document stops being readable XML
/// (unbalanced or truncated markup, an invalid encoding, a malformed
/// attribute or character reference) — the byte offset the parser reports,
/// `None` for a document read to the end. Reading a string slice involves no
/// input, randomness or ambient state, so this is a function of the document
/// alone.
pub uninterp spec fn doc_scan(doc: Seq<char>) -> (Seq<EventV>, Option<u64>);

/// The document a reader was created over.
pub uninterp spec fn reader_doc(r: quick_xml::Reader<&[u8]>) -> Seq<char>;

/// How many structural events of its document a reader has already yielded.
pub uninterp spec fn reader_pos(r: quick_xml::Reader<&[u8]>) -> int;

/// Relies on `quick_xml::Reader::from_str` and `Config::trim_text`: a pull
/// reader over the document, with insignificant whitespace around text nodes
/// trimmed away, positioned before the first structural event.
#[verifier::external_body]
fn reader_from_str<'a>(doc: &'a str) -> (r: quick_xml::Reader<&'a [u8]>)
    ensures
        reader_doc(r) == doc@,
        reader_pos(r) == 0,
{
    let mut r = quick_xml::Reader::from_str(doc);
    r.config_mut().trim_text(true);
    r
}

/// Relies on `BytesStart::name`, `BytesStart::attributes` and
/// `Attribute::unescape_value`: the tag name and its attribute values in
/// document order, or `None` when an attribute is malformed.
#[verifier::external_body]
fn tag_event(e: &quick_xml::events::BytesStart<'_>, self_closing: bool) -> (ev: Option<XmlEvent>) {
    let name = String::from_utf8_lossy(e.name().as_ref()).into_owned();
    let mut attrs: Vec<String> = Vec::new();
    for a in e.attributes() {
        match a.ok()?.unescape_value() {
            Ok(v) => attrs.push(v.into_owned()),
            Err(_) => return None,
        }
    }
    Some(if self_closing { XmlEvent::SelfClose { name, attrs } } else { XmlEvent::Open { name, attrs } })
}

/// Relies on `BytesText::unescape`: the text content with character
/// references resolved, or `None` when a reference is malformed.
#[verifier::external_body]
fn text_event(t: &quick_xml::events::BytesText<'_>) -> (ev: Option<XmlEvent>) {
    match t.unescape() {
        Ok(c) => Some(XmlEvent::Text { content: c.into_owned() }),
        Err(_) => None,
    }
}

/// Relies on `quick_xml::Reader::read_event` and `Reader::buffer_position`,
/// which read a fixed string slice deterministically: the next structural
/// event of the reader's document — the one [`doc_scan`] places at the
/// reader's position — then `Ok(None)` once the whole document has been read,
/// or the byte offset of its first malformed construct. After an error the
/// parser does not stand still (it may report end-of-file or read on), so an
/// error moves the modeled position past the event count, and the
/// precondition confines this contract to readers that have not failed yet:
/// verified code can never consult a post-error reader.
#[verifier::external_body]
fn next_event(r: &mut quick_xml::Reader<&[u8]>) -> (ev: Result<Option<XmlEvent>, u64>)
    requires
        reader_pos(*old(r)) <= doc_scan(reader_doc(*old(r))).0.len(),
    ensures
        reader_doc(*final(r)) == reader_doc(*old(r)),
        match ev {
            Ok(Some(e)) => {
                &&& 0 <= reader_pos(*old(r)) < doc_scan(reader_doc(*old(r))).0.len()
                &&& e@ == doc_scan(reader_doc(*old(r))).0[reader_pos(*old(r))]
                &&& reader_pos(*final(r)) == reader_pos(*old(r)) + 1
            },
            Ok(None) => {
                &&& reader_pos(*old(r)) == doc_scan(reader_doc(*old(r))).0.len()
                &&& doc_scan(reader_doc(*old(r))).1 is None
                &&& reader_pos(*final(r)) == reader_pos(*old(r))
            },
            Err(pos) => {
                &&& reader_pos(*old(r)) == doc_scan(reader_doc(*old(r))).0.len()
                &&& doc_scan(reader_doc(*old(r))).1 == Some(pos)
                &&& reader_pos(*final(r)) == doc_scan(reader_doc(*old(r))).0.len() + 1
            },
        },
{
    let conv = match r.read_event() {
        Ok(Event::Eof) => return Ok(None),
        Ok(Event::Start(e)) => tag_event(&e, false),
        Ok(Event::Empty(e)) => tag_event(&e, true),
        Ok(Event::End(e)) => Some(XmlEvent::Close {
            name: String::from_utf8_lossy(e.name().as_ref()).into_owned(),
        }),
        Ok(Event::Text(t)) => text_event(&t),
        Ok(_) => Some(XmlEvent::Other),
        Err(_) => None,
    };
    match conv {
        Some(ev) => Ok(Some(ev)),
        None => Err(r.buffer_position()),
    }
}

/// Scan one document into its sequence of structural events.
///
/// Returns exactly the events [`doc_scan`] assigns to the document when it
/// parses to the end, and otherwise `MalformedXml` carrying the byte offset
/// of the first malformed construct. The only way this fails is malformed
/// XML; a malformed document always fails.
pub fn scan_document(doc: &str) -> (r: Result<Vec<XmlEvent>, ScanError>)
    ensures
        match r {
            Ok(events) => doc_scan(doc@).1 is None && events_view(events@) == doc_scan(doc@).0,
            Err(e) => doc_scan(doc@).1 matches Some(position) && e == (ScanError::MalformedXml {
                position,
            }),
        },
{
    let mut reader = reader_from_str(doc);
    let mut events: Vec<XmlEvent> = Vec::new();
    proof {
        assert(events_view(events@) =~= doc_scan(doc@).0.take(0));
    }
    loop
        invariant
            reader_doc(reader) == doc@,
            0 <= reader_pos(reader) <= doc_scan(doc@).0.len(),
            reader_pos(reader) == events@.len(),
            events_view(events@) == doc_scan(doc@).0.take(reader_pos(reader)),
        decreases doc_scan(doc@).0.len() - reader_pos(reader),
    {
        let ghost pos = reader_pos(reader);
        match next_event(&mut reader) {
            Ok(Some(ev)) => {
                events.push(ev);
                proof {
                    assert(events_view(events@) =~= doc_scan(doc@).0.take(pos + 1));
                }
            },
            Ok(None) => {
                proof {
                    assert(doc_scan(doc@).0.take(pos) =~= doc_scan(doc@).0);
                }
                return Ok(events);
            },
            Err(position) => {
                return Err(ScanError::MalformedXml { position });
            },
        }
    }
}


} // verus!

//! Structural events of one XML document, in document order.
//!
//! The tag-context scanner reduces a document to this stream: element-open
//! (tag name and attribute values in positional order), element-close,
//! text content, and self-closing elements. Everything the extractors do is
//! defined over a sequence of these events; the underlying XML library is
//! only consulted to produce them.

use vstd::prelude::*;

verus! {

/// One structural event of an XML document.
///
/// Attribute values are kept in document order; the extractors address them
/// positionally, as the definition schema prescribes.
#[derive(Debug)]
pub enum XmlEvent {
    /// An opening tag with its attribute values.
    Open { name: String, attrs: Vec<String> },
    /// A closing tag.
    Close { name: String },
    /// A text node (whitespace around it is insignificant and trimmed).
    Text { content: String },
    /// A self-closing element with its attribute values.
    SelfClose { name: String, attrs: Vec<String> },
    /// Any other structural token (declaration, comment, processing
    /// instruction, CDATA); the extractors ignore these.
    Other,
}

/// The mathematical value of an [`XmlEvent`]: names and contents as
/// character sequences.
pub enum EventV {
    Open { name: Seq<char>, attrs: Seq<Seq<char>> },
    Close { name: Seq<char> },
    Text { content: Seq<char> },
    SelfClose { name: Seq<char>, attrs: Seq<Seq<char>> },
    Other,
}

/// The mathematical values of a sequence of events.
pub open spec fn events_view(s: Seq<XmlEvent>) -> Seq<EventV> {
    s.map_values(|e: XmlEvent| e@)
}

impl View for XmlEvent {
    type V = EventV;

    open spec fn view(&self) -> EventV {
        match self {
            XmlEvent::Open { name, attrs } => EventV::Open {
                name: name@,
                attrs: attrs.deep_view(),
            },
            XmlEvent::Close { name } => EventV::Close { name: name@ },
            XmlEvent::Text { content } => EventV::Text { content: content@ },
            XmlEvent::SelfClose { name, attrs } => EventV::SelfClose {
                name: name@,
                attrs: attrs.deep_view(),
            },
            XmlEvent::Other => EventV::Other,
        }
    }
}

} // verus!

//! The events that make up an encoded document.

use rbx_dom_weak::RbxValue;
use vstd::prelude::*;

verus! {

/// One event of the document, as the encoder emits it.
#[derive(Debug, Clone, PartialEq)]
pub enum WireEvent {
    /// An element is opened under a tag name, with attributes as pairs of
    /// name and value.
    StartElement { name: String, attributes: Vec<(String, String)> },
    /// Character data inside the current element.
    Characters(String),
    /// The content of a value, to be written inside the current element by
    /// the codec of the value's type.
    Payload(RbxValue),
    /// The element opened last is closed.
    EndElement,
}

/// What a [`WireEvent`] holds.
pub enum WireEventView {
    StartElement { name: Seq<char>, attributes: Seq<(Seq<char>, Seq<char>)> },
    Characters(Seq<char>),
    Payload(RbxValue),
    EndElement,
}

impl View for WireEvent {
    type V = WireEventView;

    open spec fn view(&self) -> WireEventView {
        match *self {
            WireEvent::StartElement { name, attributes } => WireEventView::StartElement {
                name: name@,
                attributes: attributes@.map_values(|a: (String, String)| (a.0@, a.1@)),
            },
            WireEvent::Characters(text) => WireEventView::Characters(text@),
            WireEvent::Payload(value) => WireEventView::Payload(value),
            WireEvent::EndElement => WireEventView::EndElement,
        }
    }
}

/// What a sequence of events holds.
pub open spec fn events_view(events: Seq<WireEvent>) -> Seq<WireEventView> {
    events.map_values(|event: WireEvent| event@)
}

/// The event that opens an element without attributes.
pub open spec fn start_plain(tag: Seq<char>) -> WireEventView {
    WireEventView::StartElement { name: tag, attributes: Seq::empty() }
}

/// The event that opens an element with one attribute.
pub open spec fn start_with(tag: Seq<char>, key: Seq<char>, value: Seq<char>) -> WireEventView {
    WireEventView::StartElement { name: tag, attributes: seq![(key, value)] }
}

/// The event that opens an element with two attributes.
pub open spec fn start_with_two(
    tag: Seq<char>,
    first: (Seq<char>, Seq<char>),
    second: (Seq<char>, Seq<char>),
) -> WireEventView {
    WireEventView::StartElement { name: tag, attributes: seq![first, second] }
}

/// Appends an event to the output.
pub fn emit(output: &mut Vec<WireEvent>, event: WireEvent)
    ensures
        events_view(final(output)@) == events_view(old(output)@).push(event@),
{
    output.push(event);
    assert(events_view(output@) =~= events_view(old(output)@).push(event@));
}

/// Opens an element without attributes.
pub fn emit_start_plain(output: &mut Vec<WireEvent>, tag: &str)
    ensures
        events_view(final(output)@) == events_view(old(output)@).push(start_plain(tag@)),
{
    let event = WireEvent::StartElement {
        name: String::from_str(tag),
        attributes: Vec::new(),
    };
    assert(event@ =~= start_plain(tag@)) by {
        assert(event@->StartElement_attributes =~= Seq::empty());
    }
    emit(output, event);
}

/// Opens an element with one attribute.
pub fn emit_start_with(output: &mut Vec<WireEvent>, tag: &str, key: &str, value: &str)
    ensures
        events_view(final(output)@) == events_view(old(output)@).push(
            start_with(tag@, key@, value@),
        ),
{
    let mut attributes: Vec<(String, String)> = Vec::new();
    attributes.push((String::from_str(key), String::from_str(value)));
    let event = WireEvent::StartElement { name: String::from_str(tag), attributes };
    assert(event@ =~= start_with(tag@, key@, value@)) by {
        assert(event@->StartElement_attributes =~= seq![(key@, value@)]);
    }
    emit(output, event);
}

/// Opens an element with two attributes.
pub fn emit_start_with_two(
    output: &mut Vec<WireEvent>,
    tag: &str,
    first: (&str, &str),
    second: (&str, &str),
)
    ensures
        events_view(final(output)@) == events_view(old(output)@).push(
            start_with_two(tag@, (first.0@, first.1@), (second.0@, second.1@)),
        ),
{
    let mut attributes: Vec<(String, String)> = Vec::new();
    attributes.push((String::from_str(first.0), String::from_str(first.1)));
    attributes.push((String::from_str(second.0), String::from_str(second.1)));
    let event = WireEvent::StartElement { name: String::from_str(tag), attributes };
    assert(event@ =~= start_with_two(tag@, (first.0@, first.1@), (second.0@, second.1@))) by {
        assert(event@->StartElement_attributes =~= seq![
            (first.0@, first.1@),
            (second.0@, second.1@),
        ]);
    }
    emit(output, event);
}

/// Writes character data.
pub fn emit_characters(output: &mut Vec<WireEvent>, text: &str)
    ensures
        events_view(final(output)@) == events_view(old(output)@).push(
            WireEventView::Characters(text@),
        ),
{
    emit(output, WireEvent::Characters(String::from_str(text)));
}

/// Closes the element opened last.
pub fn emit_end(output: &mut Vec<WireEvent>)
    ensures
        events_view(final(output)@) == events_view(old(output)@).push(WireEventView::EndElement),
{
    emit(output, WireEvent::EndElement);
}

} // verus!

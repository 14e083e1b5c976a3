//! Parsing of the events of a document: the items with their properties as
//! the document gives them, and the dictionary of shared strings.
//!
//! The parser is a state machine that takes one event at a time.

use crate::error::DecodeError;
use crate::error::DecodeErrorView;
use crate::text::str_eq;
use crate::value::DataValue;
use crate::value::payload_kind;
use crate::value::ValueKind;
use crate::wire::events_view;
use crate::wire::WireEvent;
use crate::wire::WireEventView;
use rbx_dom_weak::RbxValue;
use vstd::prelude::*;

verus! {

/// The value of a property as the document gives it. References and shared
/// strings are named by a text that is resolved once the whole document was
/// read.
#[derive(Debug)]
pub enum ParsedValue {
    /// A value that is neither a reference nor a shared string.
    Data(DataValue),
    /// The reference to no instance.
    NoReference,
    /// A reference to the item that carries this referent.
    Reference(String),
    /// The shared string that the dictionary lists under this digest text.
    Shared(String),
}

/// What a [`ParsedValue`] holds.
#[verifier::ext_equal]
pub enum ParsedValueView {
    Data(DataValue),
    NoReference,
    Reference(Seq<char>),
    Shared(Seq<char>),
}

impl View for ParsedValue {
    type V = ParsedValueView;

    open spec fn view(&self) -> ParsedValueView {
        match *self {
            ParsedValue::Data(data) => ParsedValueView::Data(data),
            ParsedValue::NoReference => ParsedValueView::NoReference,
            ParsedValue::Reference(referent) => ParsedValueView::Reference(referent@),
            ParsedValue::Shared(md5) => ParsedValueView::Shared(md5@),
        }
    }
}

/// A property of an item as the document gives it.
#[derive(Debug)]
pub struct ParsedProperty {
    pub name: String,
    pub value: ParsedValue,
}

/// What a [`ParsedProperty`] holds.
#[verifier::ext_equal]
pub struct ParsedPropertyView {
    pub name: Seq<char>,
    pub value: ParsedValueView,
}

impl View for ParsedProperty {
    type V = ParsedPropertyView;

    open spec fn view(&self) -> ParsedPropertyView {
        ParsedPropertyView { name: self.name@, value: self.value@ }
    }
}

/// An item of the document: an instance with its class, its referent, its
/// name, its properties in document order, and the position of the item
/// that encloses it, if any.
#[derive(Debug)]
pub struct ParsedItem {
    pub class_name: String,
    pub referent: String,
    pub name: String,
    pub properties: Vec<ParsedProperty>,
    pub parent: Option<usize>,
}

/// What a [`ParsedItem`] holds.
#[verifier::ext_equal]
pub struct ParsedItemView {
    pub class_name: Seq<char>,
    pub referent: Seq<char>,
    pub name: Seq<char>,
    pub properties: Seq<ParsedPropertyView>,
    pub parent: Option<usize>,
}

impl View for ParsedItem {
    type V = ParsedItemView;

    open spec fn view(&self) -> ParsedItemView {
        ParsedItemView {
            class_name: self.class_name@,
            referent: self.referent@,
            name: self.name@,
            properties: self.properties@.map_values(|p: ParsedProperty| p@),
            parent: self.parent,
        }
    }
}

/// An entry of the dictionary of shared strings: the text of the digest
/// and the text of the content, both as the document gives them.
#[derive(Debug)]
pub struct SharedEntry {
    pub md5: String,
    pub data: String,
}

/// What a [`SharedEntry`] holds.
#[verifier::ext_equal]
pub struct SharedEntryView {
    pub md5: Seq<char>,
    pub data: Seq<char>,
}

impl View for SharedEntry {
    type V = SharedEntryView;

    open spec fn view(&self) -> SharedEntryView {
        SharedEntryView { md5: self.md5@, data: self.data@ }
    }
}

/// What was read inside a property element so far.
#[derive(Debug)]
pub enum Content {
    Empty,
    Text(String),
    Payload(RbxValue),
}

/// What a [`Content`] holds.
#[verifier::ext_equal]
pub enum ContentView {
    Empty,
    Text(Seq<char>),
    Payload(RbxValue),
}

impl View for Content {
    type V = ContentView;

    open spec fn view(&self) -> ContentView {
        match *self {
            Content::Empty => ContentView::Empty,
            Content::Text(text) => ContentView::Text(text@),
            Content::Payload(value) => ContentView::Payload(value),
        }
    }
}

/// Where in a document the parser stands.
#[derive(Debug)]
pub enum Phase {
    /// Before the document element.
    Start,
    /// Inside the document element or inside an item, behind its
    /// properties: an item may open, or the element closes.
    Items,
    /// Behind the opening of an item: its properties must follow.
    ItemOpened,
    /// Inside the properties of an item.
    Properties,
    /// Inside the element of a property.
    Value { tag: String, name: String, content: Content },
    /// Inside the dictionary of shared strings.
    SharedStrings,
    /// Inside an entry of the dictionary.
    SharedEntry { md5: String, data: Option<String> },
    /// Behind the document element.
    Done,
}

/// What a [`Phase`] holds.
#[verifier::ext_equal]
pub enum PhaseView {
    Start,
    Items,
    ItemOpened,
    Properties,
    Value { tag: Seq<char>, name: Seq<char>, content: ContentView },
    SharedStrings,
    SharedEntry { md5: Seq<char>, data: Option<Seq<char>> },
    Done,
}

impl View for Phase {
    type V = PhaseView;

    open spec fn view(&self) -> PhaseView {
        match *self {
            Phase::Start => PhaseView::Start,
            Phase::Items => PhaseView::Items,
            Phase::ItemOpened => PhaseView::ItemOpened,
            Phase::Properties => PhaseView::Properties,
            Phase::Value { tag, name, content } => PhaseView::Value {
                tag: tag@,
                name: name@,
                content: content@,
            },
            Phase::SharedStrings => PhaseView::SharedStrings,
            Phase::SharedEntry { md5, data } => PhaseView::SharedEntry {
                md5: md5@,
                data: match data {
                    Some(text) => Some(text@),
                    None => None,
                },
            },
            Phase::Done => PhaseView::Done,
        }
    }
}

/// The state of the parser: where it stands, the items that are open, the
/// innermost last, and what was read so far.
#[derive(Debug)]
pub struct Parser {
    pub phase: Phase,
    pub open: Vec<usize>,
    pub items: Vec<ParsedItem>,
    pub shared_strings: Vec<SharedEntry>,
}

/// What a [`Parser`] holds.
#[verifier::ext_equal]
pub struct ParserView {
    pub phase: PhaseView,
    pub open: Seq<usize>,
    pub items: Seq<ParsedItemView>,
    pub shared_strings: Seq<SharedEntryView>,
}

impl View for Parser {
    type V = ParserView;

    open spec fn view(&self) -> ParserView {
        ParserView {
            phase: self.phase@,
            open: self.open@,
            items: self.items@.map_values(|item: ParsedItem| item@),
            shared_strings: self.shared_strings@.map_values(|entry: SharedEntry| entry@),
        }
    }
}

/// The value of the first attribute with the given key, from position
/// `from` on.
pub open spec fn attribute_from(
    attributes: Seq<(Seq<char>, Seq<char>)>,
    key: Seq<char>,
    from: int,
) -> Option<Seq<char>>
    decreases attributes.len() - from,
{
    if from < 0 || from >= attributes.len() {
        None
    } else if attributes[from].0 == key {
        Some(attributes[from].1)
    } else {
        attribute_from(attributes, key, from + 1)
    }
}

/// The value of the first attribute with the given key.
pub open spec fn attribute(attributes: Seq<(Seq<char>, Seq<char>)>, key: Seq<char>) -> Option<
    Seq<char>,
> {
    attribute_from(attributes, key, 0)
}

/// What the attributes of an element hold.
pub open spec fn attributes_view(attributes: Seq<(String, String)>) -> Seq<(Seq<char>, Seq<char>)> {
    attributes.map_values(|a: (String, String)| (a.0@, a.1@))
}

/// Finds the value of the first attribute with the given key.
pub fn find_attribute<'a>(attributes: &'a Vec<(String, String)>, key: &str) -> (value: Option<
    &'a String,
>)
    ensures
        match value {
            Some(found) => attribute(attributes_view(attributes@), key@) == Some(found@),
            None => attribute(attributes_view(attributes@), key@) is None,
        },
{
    let ghost view = attributes_view(attributes@);
    let mut i: usize = 0;
    while i < attributes.len()
        invariant
            i <= attributes@.len(),
            view == attributes_view(attributes@),
            attribute(view, key@) == attribute_from(view, key@, i as int),
        decreases attributes@.len() - i,
    {
        if str_eq(attributes[i].0.as_str(), key) {
            return Some(&attributes[i].1);
        }
        i += 1;
    }
    None
}

/// What a property element stands for: the name of the instance, or a
/// property with its value.
#[verifier::ext_equal]
pub enum Interpreted {
    Name(Seq<char>),
    Property(ParsedValueView),
}

/// What a property element read in full stands for.
#[derive(Debug)]
pub enum InterpretedElement {
    Name(String),
    Property(ParsedValue),
}

impl View for InterpretedElement {
    type V = Interpreted;

    open spec fn view(&self) -> Interpreted {
        match *self {
            InterpretedElement::Name(name) => Interpreted::Name(name@),
            InterpretedElement::Property(value) => Interpreted::Property(value@),
        }
    }
}

/// What a property element with the given tag, name and content stands for.
///
/// A string element called `Name` that holds text gives the name of the
/// instance. A reference holds the text `null` or a referent, a shared
/// string the text of a digest. Any other element must carry a tag that
/// stands for a type, and hold a value that is written under that tag.
pub open spec fn interpret(
    tag: Seq<char>,
    name: Seq<char>,
    content: ContentView,
    position: usize,
) -> Result<Interpreted, DecodeErrorView> {
    if tag == "string"@ && name == "Name"@ && !(content is Payload) {
        Ok(
            Interpreted::Name(
                match content {
                    ContentView::Text(text) => text,
                    _ => Seq::empty(),
                },
            ),
        )
    } else if tag == "Ref"@ {
        match content {
            ContentView::Text(text) => Ok(
                Interpreted::Property(
                    if text == "null"@ {
                        ParsedValueView::NoReference
                    } else {
                        ParsedValueView::Reference(text)
                    },
                ),
            ),
            _ => Err(DecodeErrorView::Malformed { position }),
        }
    } else if tag == "SharedString"@ {
        match content {
            ContentView::Text(text) => Ok(Interpreted::Property(ParsedValueView::Shared(text))),
            _ => Err(DecodeErrorView::Malformed { position }),
        }
    } else if ValueKind::spec_from_wire_tag(tag) is None {
        Err(DecodeErrorView::UnknownTag { tag })
    } else {
        match content {
            ContentView::Payload(value) => if DataValue::admits(value) && payload_kind(
                value,
            ).unwrap().spec_wire_tag() == tag {
                Ok(
                    Interpreted::Property(
                        ParsedValueView::Data(
                            DataValue::spec_new(value, payload_kind(value).unwrap()),
                        ),
                    ),
                )
            } else {
                Err(DecodeErrorView::Malformed { position })
            },
            _ => Err(DecodeErrorView::Malformed { position }),
        }
    }
}

/// Interprets a property element that was read in full.
pub fn interpret_element(tag: &str, name: &str, content: Content, position: usize) -> (result:
    Result<InterpretedElement, DecodeError>)
    ensures
        match interpret(tag@, name@, content@, position) {
            Ok(interpreted) => result matches Ok(element) && element@ == interpreted,
            Err(error) => result matches Err(e) && e@ == error,
        },
{
    let is_name = str_eq(tag, "string") && str_eq(name, "Name");
    match content {
        Content::Empty => {
            if is_name {
                return Ok(InterpretedElement::Name(String::new()));
            }
            if str_eq(tag, "Ref") || str_eq(tag, "SharedString") || ValueKind::from_wire_tag(
                tag,
            ).is_some() {
                Err(DecodeError::Malformed { position })
            } else {
                Err(DecodeError::UnknownTag { tag: String::from_str(tag) })
            }
        },
        Content::Text(text) => {
            if is_name {
                Ok(InterpretedElement::Name(text))
            } else if str_eq(tag, "Ref") {
                if str_eq(text.as_str(), "null") {
                    Ok(InterpretedElement::Property(ParsedValue::NoReference))
                } else {
                    Ok(InterpretedElement::Property(ParsedValue::Reference(text)))
                }
            } else if str_eq(tag, "SharedString") {
                Ok(InterpretedElement::Property(ParsedValue::Shared(text)))
            } else if ValueKind::from_wire_tag(tag).is_some() {
                Err(DecodeError::Malformed { position })
            } else {
                Err(DecodeError::UnknownTag { tag: String::from_str(tag) })
            }
        },
        Content::Payload(value) => {
            if str_eq(tag, "Ref") || str_eq(tag, "SharedString") {
                Err(DecodeError::Malformed { position })
            } else if ValueKind::from_wire_tag(tag).is_none() {
                Err(DecodeError::UnknownTag { tag: String::from_str(tag) })
            } else {
                match DataValue::new(value) {
                    Some(data) => if str_eq(data.kind().wire_tag(), tag) {
                        Ok(InterpretedElement::Property(ParsedValue::Data(data)))
                    } else {
                        Err(DecodeError::Malformed { position })
                    },
                    None => Err(DecodeError::Malformed { position }),
                }
            }
        },
    }
}

impl ParserView {
    /// The parser before the first event.
    pub open spec fn start() -> ParserView {
        ParserView {
            phase: PhaseView::Start,
            open: Seq::empty(),
            items: Seq::empty(),
            shared_strings: Seq::empty(),
        }
    }

    /// The parser in another phase, with everything else unchanged.
    pub open spec fn at(self, phase: PhaseView) -> ParserView {
        ParserView {
            phase,
            open: self.open,
            items: self.items,
            shared_strings: self.shared_strings,
        }
    }

    /// The parser after an item with the given class and referent was
    /// opened inside the innermost open item, if there is one.
    pub open spec fn open_item(self, class_name: Seq<char>, referent: Seq<char>) -> ParserView {
        ParserView {
            phase: PhaseView::ItemOpened,
            open: self.open.push(self.items.len() as usize),
            items: self.items.push(
                ParsedItemView {
                    class_name,
                    referent,
                    name: Seq::empty(),
                    properties: Seq::empty(),
                    parent: if self.open.len() > 0 {
                        Some(self.open.last())
                    } else {
                        None
                    },
                },
            ),
            shared_strings: self.shared_strings,
        }
    }

    /// The parser after a property element was read in full: the innermost
    /// open item takes the name, or the property behind those it has.
    pub open spec fn attach(
        self,
        name: Seq<char>,
        interpreted: Interpreted,
        position: usize,
    ) -> Result<
        ParserView,
        DecodeErrorView,
    > {
        if self.open.len() == 0 || self.open.last() >= self.items.len() {
            Err(DecodeErrorView::Malformed { position })
        } else {
            let at = self.open.last() as int;
            let item = self.items[at];
            let changed = match interpreted {
                Interpreted::Name(text) => ParsedItemView {
                    class_name: item.class_name,
                    referent: item.referent,
                    name: text,
                    properties: item.properties,
                    parent: item.parent,
                },
                Interpreted::Property(value) => ParsedItemView {
                    class_name: item.class_name,
                    referent: item.referent,
                    name: item.name,
                    properties: item.properties.push(ParsedPropertyView { name, value }),
                    parent: item.parent,
                },
            };
            Ok(
                ParserView {
                    phase: PhaseView::Properties,
                    open: self.open,
                    items: self.items.update(at, changed),
                    shared_strings: self.shared_strings,
                },
            )
        }
    }

    /// The parser after one more event, or the error if the event does not
    /// fit. `position` is the position of the event in the document.
    pub open spec fn step(self, event: WireEventView, position: usize) -> Result<
        ParserView,
        DecodeErrorView,
    > {
        let malformed = Err(DecodeErrorView::Malformed { position });
        match self.phase {
            PhaseView::Start => match event {
                WireEventView::StartElement { name, attributes } => if name == "roblox"@ {
                    Ok(self.at(PhaseView::Items))
                } else {
                    malformed
                },
                _ => malformed,
            },
            PhaseView::Items => match event {
                WireEventView::StartElement { name, attributes } => if name == "Item"@ {
                    match (attribute(attributes, "class"@), attribute(attributes, "referent"@)) {
                        (Some(class_name), Some(referent)) => Ok(
                            self.open_item(class_name, referent),
                        ),
                        _ => malformed,
                    }
                } else if name == "SharedStrings"@ && self.open.len() == 0 {
                    Ok(self.at(PhaseView::SharedStrings))
                } else {
                    malformed
                },
                WireEventView::EndElement => if self.open.len() > 0 {
                    Ok(
                        ParserView {
                            phase: PhaseView::Items,
                            open: self.open.drop_last(),
                            items: self.items,
                            shared_strings: self.shared_strings,
                        },
                    )
                } else {
                    Ok(self.at(PhaseView::Done))
                },
                _ => malformed,
            },
            PhaseView::ItemOpened => match event {
                WireEventView::StartElement { name, attributes } => if name == "Properties"@ {
                    Ok(self.at(PhaseView::Properties))
                } else {
                    malformed
                },
                _ => malformed,
            },
            PhaseView::Properties => match event {
                WireEventView::StartElement { name, attributes } => match attribute(
                    attributes,
                    "name"@,
                ) {
                    Some(property_name) => Ok(
                        self.at(
                            PhaseView::Value {
                                tag: name,
                                name: property_name,
                                content: ContentView::Empty,
                            },
                        ),
                    ),
                    None => malformed,
                },
                WireEventView::EndElement => Ok(self.at(PhaseView::Items)),
                _ => malformed,
            },
            PhaseView::Value { tag, name, content } => match event {
                WireEventView::Characters(text) => if content is Empty {
                    Ok(self.at(PhaseView::Value { tag, name, content: ContentView::Text(text) }))
                } else {
                    malformed
                },
                WireEventView::Payload(value) => if content is Empty {
                    Ok(
                        self.at(
                            PhaseView::Value { tag, name, content: ContentView::Payload(value) },
                        ),
                    )
                } else {
                    malformed
                },
                WireEventView::EndElement => match interpret(tag, name, content, position) {
                    Ok(interpreted) => self.attach(name, interpreted, position),
                    Err(error) => Err(error),
                },
                WireEventView::StartElement { .. } => malformed,
            },
            PhaseView::SharedStrings => match event {
                WireEventView::StartElement { name, attributes } => if name == "SharedString"@ {
                    match attribute(attributes, "md5"@) {
                        Some(md5) => Ok(self.at(PhaseView::SharedEntry { md5, data: None })),
                        None => malformed,
                    }
                } else {
                    malformed
                },
                WireEventView::EndElement => Ok(self.at(PhaseView::Items)),
                _ => malformed,
            },
            PhaseView::SharedEntry { md5, data } => match event {
                WireEventView::Characters(text) => if data is None {
                    Ok(self.at(PhaseView::SharedEntry { md5, data: Some(text) }))
                } else {
                    malformed
                },
                WireEventView::EndElement => Ok(
                    ParserView {
                        phase: PhaseView::SharedStrings,
                        open: self.open,
                        items: self.items,
                        shared_strings: self.shared_strings.push(
                            SharedEntryView {
                                md5,
                                data: match data {
                                    Some(text) => text,
                                    None => Seq::empty(),
                                },
                            },
                        ),
                    },
                ),
                _ => malformed,
            },
            PhaseView::Done => malformed,
        }
    }

    /// The parser after the events from position `from` on, or the first
    /// error.
    pub open spec fn run(self, events: Seq<WireEventView>, from: int) -> Result<
        ParserView,
        DecodeErrorView,
    >
        decreases events.len() - from,
    {
        if from < 0 || from >= events.len() {
            Ok(self)
        } else {
            match self.step(events[from], from as usize) {
                Ok(next) => next.run(events, from + 1),
                Err(error) => Err(error),
            }
        }
    }
}

/// What a document holds: its items, each before the items inside it, and
/// the entries of its dictionary of shared strings.
#[derive(Debug)]
pub struct ParsedDocument {
    pub items: Vec<ParsedItem>,
    pub shared_strings: Vec<SharedEntry>,
}

/// What a [`ParsedDocument`] holds.
#[verifier::ext_equal]
pub struct ParsedDocumentView {
    pub items: Seq<ParsedItemView>,
    pub shared_strings: Seq<SharedEntryView>,
}

impl View for ParsedDocument {
    type V = ParsedDocumentView;

    open spec fn view(&self) -> ParsedDocumentView {
        ParsedDocumentView {
            items: self.items@.map_values(|item: ParsedItem| item@),
            shared_strings: self.shared_strings@.map_values(|entry: SharedEntry| entry@),
        }
    }
}

/// What the events of a whole document hold, or the error if they do not
/// make up a document. A document that ends before its element is closed
/// is malformed at its end.
pub open spec fn parsed(events: Seq<WireEventView>) -> Result<ParsedDocumentView, DecodeErrorView> {
    match ParserView::start().run(events, 0) {
        Err(error) => Err(error),
        Ok(parser) => if parser.phase is Done {
            Ok(ParsedDocumentView { items: parser.items, shared_strings: parser.shared_strings })
        } else {
            Err(DecodeErrorView::Malformed { position: events.len() as usize })
        },
    }
}

impl Parser {
    /// The parser before the first event.
    pub fn new() -> (parser: Parser)
        ensures
            parser@ == ParserView::start(),
    {
        let parser = Parser {
            phase: Phase::Start,
            open: Vec::new(),
            items: Vec::new(),
            shared_strings: Vec::new(),
        };
        assert(parser@ =~= ParserView::start());
        parser
    }

    /// Opens an item inside the innermost open item.
    fn open_item(self, class_name: String, referent: String) -> (parser: Parser)
        ensures
            parser@ == self@.open_item(class_name@, referent@),
    {
        let Parser { phase: _, mut open, mut items, shared_strings } = self;
        let parent = if open.len() > 0 {
            Some(open[open.len() - 1])
        } else {
            None
        };
        let item = ParsedItem {
            class_name,
            referent,
            name: String::new(),
            properties: Vec::new(),
            parent,
        };
        assert(item@ =~= ParsedItemView {
            class_name: class_name@,
            referent: referent@,
            name: Seq::empty(),
            properties: Seq::empty(),
            parent,
        });
        open.push(items.len());
        items.push(item);
        let parser = Parser { phase: Phase::ItemOpened, open, items, shared_strings };
        assert(parser@ =~= self@.open_item(class_name@, referent@));
        parser
    }

    /// Gives the innermost open item the name or the property that a
    /// property element stands for.
    fn attach(self, name: String, element: InterpretedElement, position: usize) -> (result: Result<
        Parser,
        DecodeError,
    >)
        ensures
            match self@.attach(name@, element@, position) {
                Ok(parser) => result matches Ok(p) && p@ == parser,
                Err(error) => result matches Err(e) && e@ == error,
            },
    {
        let Parser { phase: _, open, mut items, shared_strings } = self;
        if open.len() == 0 {
            return Err(DecodeError::Malformed { position });
        }
        let at = open[open.len() - 1];
        if at >= items.len() {
            return Err(DecodeError::Malformed { position });
        }
        let ghost before = items@[at as int]@;
        match element {
            InterpretedElement::Name(text) => {
                items[at].name = text;
                assert(items@[at as int]@ =~= ParsedItemView {
                    class_name: before.class_name,
                    referent: before.referent,
                    name: text@,
                    properties: before.properties,
                    parent: before.parent,
                });
            },
            InterpretedElement::Property(value) => {
                let property = ParsedProperty { name, value };
                items[at].properties.push(property);
                assert(items@[at as int]@ =~= ParsedItemView {
                    class_name: before.class_name,
                    referent: before.referent,
                    name: before.name,
                    properties: before.properties.push(property@),
                    parent: before.parent,
                });
            },
        }
        let parser = Parser { phase: Phase::Properties, open, items, shared_strings };
        assert(parser@.items =~= self@.items.update(at as int, items@[at as int]@));
        assert(parser@ =~= self@.attach(name@, element@, position)->Ok_0);
        Ok(parser)
    }

    /// Takes one more event. `position` is the position of the event in the
    /// document.
    pub fn step(self, event: &WireEvent, position: usize) -> (result: Result<Parser, DecodeError>)
        ensures
            match self@.step(event@, position) {
                Ok(parser) => result matches Ok(p) && p@ == parser,
                Err(error) => result matches Err(e) && e@ == error,
            },
    {
        let Parser { phase, mut open, items, mut shared_strings } = self;
        match phase {
            Phase::Start => match event {
                WireEvent::StartElement { name, attributes: _ } => {
                    if str_eq(name.as_str(), "roblox") {
                        let parser = Parser { phase: Phase::Items, open, items, shared_strings };
                        assert(parser@ =~= self@.at(PhaseView::Items));
                        Ok(parser)
                    } else {
                        Err(DecodeError::Malformed { position })
                    }
                },
                _ => Err(DecodeError::Malformed { position }),
            },
            Phase::Items => match event {
                WireEvent::StartElement { name, attributes } => {
                    if str_eq(name.as_str(), "Item") {
                        let class_name = find_attribute(attributes, "class");
                        let referent = find_attribute(attributes, "referent");
                        match (class_name, referent) {
                            (Some(class_name), Some(referent)) => {
                                let parser = Parser {
                                    phase: Phase::Items,
                                    open,
                                    items,
                                    shared_strings,
                                };
                                assert(parser@ =~= self@);
                                Ok(parser.open_item(class_name.clone(), referent.clone()))
                            },
                            _ => Err(DecodeError::Malformed { position }),
                        }
                    } else if str_eq(name.as_str(), "SharedStrings") && open.len() == 0 {
                        let parser = Parser {
                            phase: Phase::SharedStrings,
                            open,
                            items,
                            shared_strings,
                        };
                        assert(parser@ =~= self@.at(PhaseView::SharedStrings));
                        Ok(parser)
                    } else {
                        Err(DecodeError::Malformed { position })
                    }
                },
                WireEvent::EndElement => {
                    if open.len() > 0 {
                        open.pop();
                        let parser = Parser { phase: Phase::Items, open, items, shared_strings };
                        assert(parser@ =~= ParserView {
                            phase: PhaseView::Items,
                            open: self@.open.drop_last(),
                            items: self@.items,
                            shared_strings: self@.shared_strings,
                        });
                        Ok(parser)
                    } else {
                        let parser = Parser { phase: Phase::Done, open, items, shared_strings };
                        assert(parser@ =~= self@.at(PhaseView::Done));
                        Ok(parser)
                    }
                },
                _ => Err(DecodeError::Malformed { position }),
            },
            Phase::ItemOpened => match event {
                WireEvent::StartElement { name, attributes: _ } => {
                    if str_eq(name.as_str(), "Properties") {
                        let parser = Parser {
                            phase: Phase::Properties,
                            open,
                            items,
                            shared_strings,
                        };
                        assert(parser@ =~= self@.at(PhaseView::Properties));
                        Ok(parser)
                    } else {
                        Err(DecodeError::Malformed { position })
                    }
                },
                _ => Err(DecodeError::Malformed { position }),
            },
            Phase::Properties => match event {
                WireEvent::StartElement { name, attributes } => {
                    match find_attribute(attributes, "name") {
                        Some(property_name) => {
                            let parser = Parser {
                                phase: Phase::Value {
                                    tag: name.clone(),
                                    name: property_name.clone(),
                                    content: Content::Empty,
                                },
                                open,
                                items,
                                shared_strings,
                            };
                            assert(parser@ =~= self@.at(
                                PhaseView::Value {
                                    tag: name@,
                                    name: property_name@,
                                    content: ContentView::Empty,
                                },
                            ));
                            Ok(parser)
                        },
                        None => Err(DecodeError::Malformed { position }),
                    }
                },
                WireEvent::EndElement => {
                    let parser = Parser { phase: Phase::Items, open, items, shared_strings };
                    assert(parser@ =~= self@.at(PhaseView::Items));
                    Ok(parser)
                },
                _ => Err(DecodeError::Malformed { position }),
            },
            Phase::Value { tag, name, content } => match event {
                WireEvent::Characters(text) => match content {
                    Content::Empty => {
                        let parser = Parser {
                            phase: Phase::Value { tag, name, content: Content::Text(text.clone()) },
                            open,
                            items,
                            shared_strings,
                        };
                        assert(parser@ =~= self@.at(
                            PhaseView::Value {
                                tag: tag@,
                                name: name@,
                                content: ContentView::Text(text@),
                            },
                        ));
                        Ok(parser)
                    },
                    _ => Err(DecodeError::Malformed { position }),
                },
                WireEvent::Payload(value) => match content {
                    Content::Empty => {
                        let parser = Parser {
                            phase: Phase::Value {
                                tag,
                                name,
                                content: Content::Payload(value.clone()),
                            },
                            open,
                            items,
                            shared_strings,
                        };
                        assert(parser@ =~= self@.at(
                            PhaseView::Value {
                                tag: tag@,
                                name: name@,
                                content: ContentView::Payload(*value),
                            },
                        ));
                        Ok(parser)
                    },
                    _ => Err(DecodeError::Malformed { position }),
                },
                WireEvent::EndElement => {
                    match interpret_element(tag.as_str(), name.as_str(), content, position) {
                        Ok(element) => {
                            let parser = Parser {
                                phase: Phase::Properties,
                                open,
                                items,
                                shared_strings,
                            };
                            assert(parser@.attach(name@, element@, position) == self@.attach(
                                name@,
                                element@,
                                position,
                            ));
                            parser.attach(name, element, position)
                        },
                        Err(error) => Err(error),
                    }
                },
                WireEvent::StartElement { .. } => Err(DecodeError::Malformed { position }),
            },
            Phase::SharedStrings => match event {
                WireEvent::StartElement { name, attributes } => {
                    if str_eq(name.as_str(), "SharedString") {
                        match find_attribute(attributes, "md5") {
                            Some(md5) => {
                                let parser = Parser {
                                    phase: Phase::SharedEntry { md5: md5.clone(), data: None },
                                    open,
                                    items,
                                    shared_strings,
                                };
                                assert(parser@ =~= self@.at(
                                    PhaseView::SharedEntry { md5: md5@, data: None },
                                ));
                                Ok(parser)
                            },
                            None => Err(DecodeError::Malformed { position }),
                        }
                    } else {
                        Err(DecodeError::Malformed { position })
                    }
                },
                WireEvent::EndElement => {
                    let parser = Parser { phase: Phase::Items, open, items, shared_strings };
                    assert(parser@ =~= self@.at(PhaseView::Items));
                    Ok(parser)
                },
                _ => Err(DecodeError::Malformed { position }),
            },
            Phase::SharedEntry { md5, data } => match event {
                WireEvent::Characters(text) => match data {
                    None => {
                        let parser = Parser {
                            phase: Phase::SharedEntry { md5, data: Some(text.clone()) },
                            open,
                            items,
                            shared_strings,
                        };
                        assert(parser@ =~= self@.at(
                            PhaseView::SharedEntry { md5: md5@, data: Some(text@) },
                        ));
                        Ok(parser)
                    },
                    Some(_) => Err(DecodeError::Malformed { position }),
                },
                WireEvent::EndElement => {
                    let entry = SharedEntry {
                        md5,
                        data: match data {
                            Some(text) => text,
                            None => String::new(),
                        },
                    };
                    shared_strings.push(entry);
                    let parser = Parser {
                        phase: Phase::SharedStrings,
                        open,
                        items,
                        shared_strings,
                    };
                    assert(parser@.shared_strings =~= self@.shared_strings.push(entry@));
                    assert(parser@ =~= self@.step(event@, position)->Ok_0);
                    Ok(parser)
                },
                _ => Err(DecodeError::Malformed { position }),
            },
            Phase::Done => Err(DecodeError::Malformed { position }),
        }
    }
}

/// Parses the events of a whole document.
pub fn parse(events: &[WireEvent]) -> (result: Result<ParsedDocument, DecodeError>)
    ensures
        match parsed(events_view(events@)) {
            Ok(document) => result matches Ok(d) && d@ == document,
            Err(error) => result matches Err(e) && e@ == error,
        },
{
    let ghost views = events_view(events@);
    let mut parser = Parser::new();
    let mut i: usize = 0;
    while i < events.len()
        invariant
            i <= events@.len(),
            views == events_view(events@),
            ParserView::start().run(views, 0) == parser@.run(views, i as int),
        decreases events@.len() - i,
    {
        parser = match parser.step(&events[i], i) {
            Ok(next) => next,
            Err(error) => {
                return Err(error);
            },
        };
        i += 1;
    }
    match parser.phase {
        Phase::Done => {
            let document = ParsedDocument {
                items: parser.items,
                shared_strings: parser.shared_strings,
            };
            assert(document@ =~= ParsedDocumentView {
                items: parser@.items,
                shared_strings: parser@.shared_strings,
            });
            Ok(document)
        },
        _ => Err(DecodeError::Malformed { position: events.len() }),
    }
}

} // verus!

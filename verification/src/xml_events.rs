//! XML events as the registry grammar sees them, and the one place where the
//! `xml-rs` reader is run over the input bytes.
use vstd::prelude::*;
use xml::reader::XmlEvent::{CData, Characters, Comment, EndDocument, EndElement, ProcessingInstruction,
    StartDocument, StartElement, Whitespace};
use xml::EventReader;
use crate::text::string_is;

verus! {

/// An attribute of an element: its local name and its value.
pub type Attribute = (String, String);

/// One item of the event stream that the XML reader produces.
///
/// Element names are local names (namespace prefixes dropped). A reader
/// error is carried in the stream as `Error`, with the reader's message.
#[derive(Debug)]
pub enum XmlEvent {
    StartDocument,
    EndDocument,
    ProcessingInstruction { name: String, data: Option<String> },
    StartElement { name: String, attributes: Vec<Attribute> },
    EndElement { name: String },
    CData(String),
    Comment(String),
    Characters(String),
    Whitespace(String),
    Error(String),
}

/// The mathematical model of [`XmlEvent`].
pub enum SpecEvent {
    StartDocument,
    EndDocument,
    ProcessingInstruction { name: Seq<char>, data: Option<Seq<char>> },
    StartElement { name: Seq<char>, attributes: Seq<(Seq<char>, Seq<char>)> },
    EndElement { name: Seq<char> },
    CData(Seq<char>),
    Comment(Seq<char>),
    Characters(Seq<char>),
    Whitespace(Seq<char>),
    Error(Seq<char>),
}

/// The model of an optional string.
pub open spec fn opt_view(o: Option<String>) -> Option<Seq<char>> {
    match o {
        Some(s) => Some(s@),
        None => None,
    }
}

/// The model of a list of attributes.
pub open spec fn attrs_view(a: Seq<Attribute>) -> Seq<(Seq<char>, Seq<char>)> {
    a.map_values(|x: Attribute| x@)
}

impl View for XmlEvent {
    type V = SpecEvent;

    open spec fn view(&self) -> SpecEvent {
        match self {
            XmlEvent::StartDocument => SpecEvent::StartDocument,
            XmlEvent::EndDocument => SpecEvent::EndDocument,
            XmlEvent::ProcessingInstruction { name, data } => SpecEvent::ProcessingInstruction {
                name: name@,
                data: opt_view(*data),
            },
            XmlEvent::StartElement { name, attributes } => SpecEvent::StartElement {
                name: name@,
                attributes: attrs_view(attributes@),
            },
            XmlEvent::EndElement { name } => SpecEvent::EndElement { name: name@ },
            XmlEvent::CData(s) => SpecEvent::CData(s@),
            XmlEvent::Comment(s) => SpecEvent::Comment(s@),
            XmlEvent::Characters(s) => SpecEvent::Characters(s@),
            XmlEvent::Whitespace(s) => SpecEvent::Whitespace(s@),
            XmlEvent::Error(s) => SpecEvent::Error(s@),
        }
    }
}

/// The whole sequence of events read from one input.
#[derive(Debug)]
pub struct EventStream {
    pub events: Vec<XmlEvent>,
}

impl View for EventStream {
    type V = Seq<SpecEvent>;

    open spec fn view(&self) -> Seq<SpecEvent> {
        self.events@.map_values(|e: XmlEvent| e@)
    }
}

/// The events that xml-rs's `EventReader`, in its default configuration,
/// yields for the document `input`, in order: every item of its event
/// iterator, an error item mapped to `SpecEvent::Error`.
pub uninterp spec fn xml_event_stream(input: Seq<u8>) -> Seq<SpecEvent>;

/// Runs `xml::EventReader::new(input)` and collects the items of its event
/// iterator (`IntoIterator for EventReader`), which stops after the first
/// `EndDocument` or error. Each item is converted one for one: element and
/// attribute names become their local names, an error becomes `Error` with
/// the error's display text. The contract claims only that the result is
/// the stream named [`xml_event_stream`] for these bytes, a function of the
/// bytes alone; nothing about XML syntax is stated.
#[verifier::external_body]
pub(crate) fn read_events(input: &[u8]) -> (stream: EventStream)
    ensures
        stream@ == xml_event_stream(input@),
{
    EventStream { events: EventReader::new(input).into_iter().map(|item| item.map(|e| match e {
        StartDocument { .. } => XmlEvent::StartDocument,
        EndDocument => XmlEvent::EndDocument,
        ProcessingInstruction { name, data } => XmlEvent::ProcessingInstruction { name, data },
        StartElement { name, attributes, .. } => XmlEvent::StartElement { name: name.local_name,
            attributes: attributes.into_iter().map(|a| (a.name.local_name, a.value)).collect() },
        EndElement { name } => XmlEvent::EndElement { name: name.local_name },
        CData(s) => XmlEvent::CData(s),
        Comment(s) => XmlEvent::Comment(s),
        Characters(s) => XmlEvent::Characters(s),
        Whitespace(s) => XmlEvent::Whitespace(s),
    }).unwrap_or_else(|e| XmlEvent::Error(e.to_string()))).collect() }
}

/// A copy of an optional string.
pub fn clone_opt(o: &Option<String>) -> (r: Option<String>)
    ensures
        opt_view(r) == opt_view(*o),
{
    match o {
        Some(s) => Some(s.clone()),
        None => None,
    }
}

/// A copy of a list of attributes.
pub fn clone_attributes(a: &Vec<Attribute>) -> (r: Vec<Attribute>)
    ensures
        attrs_view(r@) == attrs_view(a@),
{
    let mut r: Vec<Attribute> = Vec::new();
    let mut i: usize = 0;
    while i < a.len()
        invariant
            0 <= i <= a.len(),
            r.len() == i,
            attrs_view(r@) == attrs_view(a@.take(i as int)),
        decreases a.len() - i,
    {
        let ghost before = r@;
        r.push((a[i].0.clone(), a[i].1.clone()));
        assert(r@[i as int]@ == a@[i as int]@);
        assert(a@.take(i + 1) =~= a@.take(i as int).push(a@[i as int]));
        assert forall|k: int| 0 <= k < i implies r@[k]@ == a@.take(i + 1)[k]@ by {
            assert(attrs_view(before)[k] == attrs_view(a@.take(i as int))[k]);
        }
        assert(attrs_view(r@) =~= attrs_view(a@.take(i + 1)));
        i += 1;
    }
    assert(a@.take(a.len() as int) =~= a@);
    r
}

impl XmlEvent {
    /// A copy of this event.
    pub fn clone_event(&self) -> (r: XmlEvent)
        ensures
            r@ == self@,
    {
        match self {
            XmlEvent::StartDocument => XmlEvent::StartDocument,
            XmlEvent::EndDocument => XmlEvent::EndDocument,
            XmlEvent::ProcessingInstruction { name, data } => XmlEvent::ProcessingInstruction {
                name: name.clone(),
                data: clone_opt(data),
            },
            XmlEvent::StartElement { name, attributes } => XmlEvent::StartElement {
                name: name.clone(),
                attributes: clone_attributes(attributes),
            },
            XmlEvent::EndElement { name } => XmlEvent::EndElement { name: name.clone() },
            XmlEvent::CData(s) => XmlEvent::CData(s.clone()),
            XmlEvent::Comment(s) => XmlEvent::Comment(s.clone()),
            XmlEvent::Characters(s) => XmlEvent::Characters(s.clone()),
            XmlEvent::Whitespace(s) => XmlEvent::Whitespace(s.clone()),
            XmlEvent::Error(s) => XmlEvent::Error(s.clone()),
        }
    }
}

/// The value of the first attribute in `attrs` whose name is `name`.
pub open spec fn spec_get_attribute(attrs: Seq<(Seq<char>, Seq<char>)>, name: Seq<char>) -> Option<Seq<char>>
    decreases attrs.len(),
{
    if attrs.len() == 0 {
        None
    } else if attrs[0].0 == name {
        Some(attrs[0].1)
    } else {
        spec_get_attribute(attrs.drop_first(), name)
    }
}

/// Looks up the value of the first attribute named `name`.
pub fn get_attribute(a: &[Attribute], name: &str) -> (r: Option<String>)
    ensures
        opt_view(r) == spec_get_attribute(attrs_view(a@), name@),
{
    let ghost av = attrs_view(a@);
    let mut i: usize = 0;
    assert(av.skip(0) =~= av);
    while i < a.len()
        invariant
            0 <= i <= a@.len(),
            av == attrs_view(a@),
            spec_get_attribute(av, name@) == spec_get_attribute(av.skip(i as int), name@),
        decreases a.len() - i,
    {
        assert(av.skip(i as int)[0] == av[i as int]);
        if string_is(&a[i].0, name) {
            return Some(a[i].1.clone());
        }
        assert(av.skip(i as int).drop_first() =~= av.skip(i + 1));
        i += 1;
    }
    assert(av.skip(i as int).len() == 0);
    None
}

} // verus!

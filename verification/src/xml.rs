//! The XML reader the project-file parser is built on, behind contracts.
//!
//! `quick_xml` does the reading. What it hands back is carried over into plain values here, and
//! the results that take a whole grammar to state are named rather than spelled out.

use quick_xml::events::attributes::{AttrError, Attribute};
use quick_xml::events::{BytesStart, Event};
use quick_xml::Reader;
use vstd::prelude::*;

verus! {

/// `quick_xml::Reader`, which hands out a document event by event.
#[verifier::external_type_specification]
#[verifier::external_body]
#[verifier::reject_recursive_types(R)]
pub struct ExReader<R>(quick_xml::Reader<R>);

/// `quick_xml::events::attributes::AttrError`: why the attributes of a tag cannot be read.
#[verifier::external_type_specification]
#[verifier::external_body]
pub struct ExAttrError(quick_xml::events::attributes::AttrError);

/// `quick_xml::Error`: why a value cannot be unescaped.
#[verifier::external_type_specification]
#[verifier::external_body]
pub struct ExXmlError(quick_xml::Error);

/// The opening tag of an element, or the only tag of an empty one.
pub struct XmlElement {
    /// The tag name as written, prefix included.
    pub name: String,
    /// The rest of the tag as written: everything from the end of the name to `>` or `/>`.
    pub attributes: String,
}

/// One step of reading a document.
pub enum XmlEvent {
    /// An opening tag.
    Start(XmlElement),
    /// A tag that opens an element and closes it at once.
    Empty(XmlElement),
    /// Anything else inside the document: text, comments, closing tags, declarations.
    Other,
    /// The document is exhausted.
    Eof,
    /// The document is malformed at this point.
    Malformed,
}

/// An [`XmlElement`] as the contracts see it.
pub struct XmlElementView {
    pub name: Seq<char>,
    pub attributes: Seq<char>,
}

/// An [`XmlEvent`] as the contracts see it.
pub enum XmlEventView {
    Start(XmlElementView),
    Empty(XmlElementView),
    Other,
    Eof,
    Malformed,
}

impl View for XmlElement {
    type V = XmlElementView;

    open spec fn view(&self) -> XmlElementView {
        XmlElementView { name: self.name@, attributes: self.attributes@ }
    }
}

impl View for XmlEvent {
    type V = XmlEventView;

    open spec fn view(&self) -> XmlEventView {
        match self {
            XmlEvent::Start(element) => XmlEventView::Start(element@),
            XmlEvent::Empty(element) => XmlEventView::Empty(element@),
            XmlEvent::Other => XmlEventView::Other,
            XmlEvent::Eof => XmlEventView::Eof,
            XmlEvent::Malformed => XmlEventView::Malformed,
        }
    }
}

impl XmlEventView {
    /// The element that this event opens, if it opens one.
    pub open spec fn element(self) -> Option<XmlElementView> {
        match self {
            XmlEventView::Start(element) => Some(element),
            XmlEventView::Empty(element) => Some(element),
            _ => None,
        }
    }

    /// Whether reading stops at this event.
    pub open spec fn is_last(self) -> bool {
        self is Eof || self is Malformed
    }
}

/// The events of the document `text`, up to and including the first end of file or error.
/// `check_end_names` says whether a closing tag that does not match its opening tag is an error.
pub uninterp spec fn xml_events(text: Seq<char>, check_end_names: bool) -> Seq<XmlEventView>;

/// The events a reader hands out from where it stands, up to and including the first end of file or
/// error. There is always one: at the end of the document, that is the end of file.
pub uninterp spec fn pending_events(reader: quick_xml::Reader<&[u8]>) -> Seq<XmlEventView>;

/// The raw value of the first attribute called `key` among the attributes written `attributes`;
/// `Err` when the text is malformed before such an attribute is found.
pub uninterp spec fn xml_raw_attribute(attributes: Seq<char>, key: Seq<char>) -> Result<
    Option<Seq<char>>,
    (),
>;

/// An attribute value with its entity and character references replaced, or `None` when one of
/// them cannot be resolved.
pub uninterp spec fn xml_unescaped(raw: Seq<char>) -> Option<Seq<char>>;

/// A reader at the start of `text`: `quick_xml::Reader::from_str`, with its check of closing tag
/// names set as given. There is always a first event.
#[verifier::external_body]
pub(crate) fn xml_reader<'a>(text: &'a str, check_end_names: bool) -> (reader: Reader<&'a [u8]>)
    ensures
        pending_events(reader) == xml_events(text@, check_end_names),
        pending_events(reader).len() > 0,
{
    let mut reader = Reader::from_str(text);
    reader.config_mut().check_end_names = check_end_names;
    reader
}

/// The next event: `quick_xml::Reader::read_event`. It is the first of those pending, and the end
/// of file or an error is the last of them; after any other event the rest is pending. Where a
/// reader stands once it has reported the end of file or an error is left open.
#[verifier::external_body]
pub(crate) fn read_event<'a>(reader: &mut Reader<&'a [u8]>) -> (event: XmlEvent)
    ensures
        pending_events(*old(reader)).len() > 0,
        event@ == pending_events(*old(reader))[0],
        event@.is_last() <==> pending_events(*old(reader)).len() == 1,
        !event@.is_last() ==> pending_events(*final(reader)) == pending_events(
            *old(reader),
        ).drop_first(),
{
    match reader.read_event() {
        Ok(Event::Start(tag)) => XmlEvent::Start(XmlElement {
            name: String::from_utf8_lossy(tag.name().as_ref()).into_owned(),
            attributes: String::from_utf8_lossy(tag.attributes_raw()).into_owned(),
        }),
        Ok(Event::Empty(tag)) => XmlEvent::Empty(XmlElement {
            name: String::from_utf8_lossy(tag.name().as_ref()).into_owned(),
            attributes: String::from_utf8_lossy(tag.attributes_raw()).into_owned(),
        }),
        Ok(Event::Eof) => XmlEvent::Eof,
        Ok(_) => XmlEvent::Other,
        Err(_) => XmlEvent::Malformed,
    }
}

/// The raw value of an attribute: `quick_xml::events::BytesStart::try_get_attribute`, on a tag
/// that holds nothing but the attributes given.
#[verifier::external_body]
pub(crate) fn try_get_attribute(attributes: &str, key: &str) -> (value: Result<
    Option<String>,
    AttrError,
>)
    ensures
        match xml_raw_attribute(attributes@, key@) {
            Err(_) => value is Err,
            Ok(None) => value is Ok && value->Ok_0 is None,
            Ok(Some(raw)) => value is Ok && value->Ok_0 is Some && value->Ok_0->0@ == raw,
        },
{
    let tag = BytesStart::from_content(attributes, 0);
    let attribute = tag.try_get_attribute(key)?;
    Ok(attribute.map(|found| String::from_utf8_lossy(&found.value).into_owned()))
}

/// An attribute value with its references replaced:
/// `quick_xml::events::attributes::Attribute::unescape_value`.
#[verifier::external_body]
pub(crate) fn unescape_value(raw: &str) -> (value: Result<String, quick_xml::Error>)
    ensures
        match xml_unescaped(raw@) {
            None => value is Err,
            Some(text) => value is Ok && value->Ok_0@ == text,
        },
{
    let attribute = Attribute::from((&b""[..], raw.as_bytes()));
    attribute.unescape_value().map(|text| text.into_owned())
}

/// The value of the attribute `key` of an element: `None` when the element has no such
/// attribute, or when the attribute cannot be read.
pub open spec fn attribute_value_of(element: XmlElementView, key: Seq<char>) -> Option<Seq<char>> {
    match xml_raw_attribute(element.attributes, key) {
        Ok(Some(raw)) => xml_unescaped(raw),
        _ => None,
    }
}

/// The value of the attribute `key` of an element, unescaped; `None` when it is absent or
/// unreadable.
pub(crate) fn attribute_value(element: &XmlElement, key: &str) -> (value: Option<String>)
    ensures
        match attribute_value_of(element@, key@) {
            None => value is None,
            Some(text) => value is Some && value->0@ == text,
        },
{
    match try_get_attribute(element.attributes.as_str(), key) {
        Ok(Some(raw)) => match unescape_value(raw.as_str()) {
            Ok(text) => Some(text),
            Err(_) => None,
        },
        Ok(None) => None,
        Err(_) => None,
    }
}

}

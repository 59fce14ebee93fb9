//! The markup of a document, read as a stream of events.
//!
//! The reading itself is the work of the `quick_xml` crate. This module holds
//! what the library needs of an event as plain values, the reader behind a
//! few functions whose contracts are taken on trust, and the search through
//! the attributes of an element.

use quick_xml::events::Event;
use quick_xml::Reader;
use vstd::prelude::*;
use vstd::string::*;
use vstd::utf8::*;

verus! {

#[verifier::external_type_specification]
#[verifier::external_body]
#[verifier::reject_recursive_types(R)]
pub struct ExReader<R>(Reader<R>);

/// An attribute as the reader found it: its key and its raw value.
pub type Attribute = (String, String);

/// One event of the stream, with what the library reads of it.
#[derive(Debug)]
pub enum Markup {
    /// An opening tag: its name and its attributes. An attribute that the
    /// reader could not make out stands as `None`.
    Start(String, Vec<Option<Attribute>>),
    /// A tag that closes itself: its name and its attributes.
    Empty(String, Vec<Option<Attribute>>),
    /// Text between tags: the number of its bytes without the white space
    /// around it.
    Text(usize),
    /// The end of the document.
    Eof,
    /// Any other event.
    Other,
    /// The reader's complaint about markup that it cannot read.
    Failed(String),
}

/// What an [`Attribute`] holds, where it could be read.
pub type AttributeModel = Option<(Seq<char>, Seq<char>)>;

/// What a [`Markup`] holds.
pub enum MarkupModel {
    Start(Seq<char>, Seq<AttributeModel>),
    Empty(Seq<char>, Seq<AttributeModel>),
    Text(usize),
    Eof,
    Other,
    Failed(Seq<char>),
}

/// The view of one attribute.
pub open spec fn attribute_view(attribute: Option<Attribute>) -> AttributeModel {
    match attribute {
        Some((key, value)) => Some((key@, value@)),
        None => None,
    }
}

/// The views of `attributes`, in order.
pub open spec fn attribute_views(attributes: Seq<Option<Attribute>>) -> Seq<AttributeModel> {
    attributes.map_values(|a: Option<Attribute>| attribute_view(a))
}

impl View for Markup {
    type V = MarkupModel;

    open spec fn view(&self) -> MarkupModel {
        match self {
            Markup::Start(name, attributes) => MarkupModel::Start(
                name@,
                attribute_views(attributes@),
            ),
            Markup::Empty(name, attributes) => MarkupModel::Empty(
                name@,
                attribute_views(attributes@),
            ),
            Markup::Text(length) => MarkupModel::Text(*length),
            Markup::Eof => MarkupModel::Eof,
            Markup::Other => MarkupModel::Other,
            Markup::Failed(message) => MarkupModel::Failed(message@),
        }
    }
}

impl MarkupModel {
    /// Whether reading stops at this event: at the end of the document and at
    /// a complaint.
    pub open spec fn is_last(self) -> bool {
        self is Eof || self is Failed
    }
}

/// What one read yields: the reader's position before it, and the event.
pub type Read = (u64, MarkupModel);

/// Whether `reads` ends with the one event at which reading stops.
pub open spec fn ends_once(reads: Seq<Read>) -> bool {
    &&& reads.len() > 0
    &&& reads.last().1.is_last()
    &&& forall|k: int| 0 <= k < reads.len() - 1 ==> !(#[trigger] reads[k]).1.is_last()
}

/// The reads of a reader over `text` that trims the white space around text
/// events, from the first read up to the first that stops the reading.
pub uninterp spec fn markup_reads(text: Seq<char>) -> Seq<Read>;

/// The reads that `reader` has yet to yield, up to the first that stops the
/// reading.
pub uninterp spec fn pending_reads(reader: Reader<&[u8]>) -> Seq<Read>;

/// Calls `quick_xml::Reader::from_str` and switches on `trim_text` in the
/// reader's configuration. Taken on trust: the reader yields the same reads
/// for the same text, and reaches the end of the document or a complaint
/// after finitely many of them.
#[verifier::external_body]
pub(crate) fn open_reader(text: &str) -> (reader: Reader<&[u8]>)
    ensures
        pending_reads(reader) == markup_reads(text@),
        ends_once(pending_reads(reader)),
{
    let mut reader = Reader::from_str(text);
    reader.config_mut().trim_text(true);
    reader
}

/// Calls `quick_xml::Reader::buffer_position`. Taken on trust: the result is
/// the position that goes with the reader's next read.
#[verifier::external_body]
pub(crate) fn reader_position(reader: &Reader<&[u8]>) -> (position: u64)
    ensures
        pending_reads(*reader).len() > 0 ==> position == pending_reads(*reader)[0].0,
{
    reader.buffer_position()
}

/// Calls `quick_xml::Reader::read_event_into` and hands the event on as plain
/// values. Taken on trust: the result is the reader's next read, and the
/// reads behind it are left.
#[verifier::external_body]
pub(crate) fn read_markup(reader: &mut Reader<&[u8]>, buffer: &mut Vec<u8>) -> (markup: Markup)
    ensures
        pending_reads(*old(reader)).len() > 0 ==> markup@ == pending_reads(*old(reader))[0].1
            && pending_reads(*final(reader)) == pending_reads(*old(reader)).skip(1),
{
    let (closed, e) = match reader.read_event_into(buffer) {
        Ok(Event::Start(e)) => (false, e),
        Ok(Event::Empty(e)) => (true, e),
        Ok(Event::Text(e)) => return Markup::Text(e.len()),
        Ok(Event::Eof) => return Markup::Eof,
        Ok(_) => return Markup::Other,
        Err(e) => return Markup::Failed(e.to_string()),
    };
    let name = e.name().0.to_string();
    let found = e.attributes().map(|a| a.ok().map(|a| (a.key.0.to_string(), a.value.to_string())));
    (if closed { Markup::Empty } else { Markup::Start })(name, found.collect())
}

/// The value of the first attribute with the given key that could be read.
pub open spec fn attr_value(attributes: Seq<AttributeModel>, key: Seq<char>) -> Option<Seq<char>>
    decreases attributes.len(),
{
    if attributes.len() == 0 {
        None
    } else {
        match attributes.first() {
            Some((name, value)) if name == key => Some(value),
            _ => attr_value(attributes.drop_first(), key),
        }
    }
}

/// Whether some attribute has the given key and the given value.
pub open spec fn has_attr_value(
    attributes: Seq<AttributeModel>,
    key: Seq<char>,
    value: Seq<char>,
) -> bool {
    exists|k: int| 0 <= k < attributes.len() && #[trigger] attributes[k] == Some((key, value))
}

/// Whether two texts hold the same characters.
pub fn same_text(a: &str, b: &str) -> (same: bool)
    ensures
        same == (a@ == b@),
{
    let x = a.as_bytes();
    let y = b.as_bytes();
    proof {
        encode_utf8_decode_utf8(a@);
        encode_utf8_decode_utf8(b@);
    }
    if x.len() != y.len() {
        return false;
    }
    let mut k: usize = 0;
    while k < x.len()
        invariant
            k <= x.len(),
            x.len() == y.len(),
            x@ == encode_utf8(a@),
            y@ == encode_utf8(b@),
            decode_utf8(encode_utf8(a@)) == a@,
            decode_utf8(encode_utf8(b@)) == b@,
            forall|j: int| 0 <= j < k ==> x@[j] == y@[j],
        decreases x.len() - k,
    {
        if x[k] != y[k] {
            return false;
        }
        k = k + 1;
    }
    proof {
        assert(x@ =~= y@);
    }
    true
}

/// The value of the first attribute with the given key, if there is one.
pub fn attr(attributes: &Vec<Option<Attribute>>, key: &str) -> (value: Option<String>)
    ensures
        match value {
            Some(v) => attr_value(attribute_views(attributes@), key@) == Some(v@),
            None => attr_value(attribute_views(attributes@), key@) is None,
        },
{
    let ghost views = attribute_views(attributes@);
    let mut k: usize = 0;
    proof {
        assert(views.skip(0) =~= views);
    }
    while k < attributes.len()
        invariant
            k <= attributes.len(),
            views == attribute_views(attributes@),
            attr_value(views, key@) == attr_value(views.skip(k as int), key@),
        decreases attributes.len() - k,
    {
        proof {
            assert(views.skip(k as int).first() == attribute_view(attributes@[k as int]));
            assert(views.skip(k as int).drop_first() =~= views.skip(k as int + 1));
        }
        match &attributes[k] {
            Some((name, value)) => {
                if same_text(name.as_str(), key) {
                    return Some(value.clone());
                }
            },
            None => {},
        }
        k = k + 1;
    }
    None
}

/// Whether an attribute with the given key is there.
pub fn has_attr(attributes: &Vec<Option<Attribute>>, key: &str) -> (found: bool)
    ensures
        found == attr_value(attribute_views(attributes@), key@) is Some,
{
    attr(attributes, key).is_some()
}

/// Whether an attribute with the given key and the given value is there.
pub fn has_attr_val(attributes: &Vec<Option<Attribute>>, key: &str, val: &str) -> (found: bool)
    ensures
        found == has_attr_value(attribute_views(attributes@), key@, val@),
{
    let ghost views = attribute_views(attributes@);
    let mut k: usize = 0;
    while k < attributes.len()
        invariant
            k <= attributes.len(),
            views == attribute_views(attributes@),
            forall|j: int| 0 <= j < k ==> #[trigger] views[j] != Some((key@, val@)),
        decreases attributes.len() - k,
    {
        proof {
            assert(views[k as int] == attribute_view(attributes@[k as int]));
        }
        match &attributes[k] {
            Some((name, value)) => {
                if same_text(name.as_str(), key) && same_text(value.as_str(), val) {
                    return true;
                }
            },
            None => {},
        }
        k = k + 1;
    }
    false
}

} // verus!

//! Reading the events of a document with the XML reader.

use vstd::prelude::*;
use crate::attrs::{Attrs, pair_views};
use crate::builder::{ElementEvent, EventView, event_views};
use crate::error::ModelError;

verus! {

#[verifier::external_type_specification]
#[verifier::external_body]
#[verifier::reject_recursive_types(R)]
pub struct ExReader<R>(quick_xml::reader::Reader<R>);

#[verifier::external_type_specification]
#[verifier::external_body]
pub struct ExEvent<'a>(quick_xml::events::Event<'a>);

/// What the reader found next.
#[derive(Clone, Copy, PartialEq, Eq, Structural, Debug)]
pub enum EventKind {
    Start,
    End,
    Empty,
    /// Text, comments, declarations and the like.
    Other,
    /// The end of the document.
    Eof,
}

/// One thing that the reader finds: `None` where it reports an error, else
/// the kind of the event, the name of its tag, and the attributes of its tag,
/// which are `None` where the reader rejects one of them.
pub type Found = Option<(EventKind, Seq<char>, Option<Seq<(Seq<char>, Seq<char>)>>)>;

/// What the reader finds in a text, in order, up to and with the first error
/// or the end of the document.
pub uninterp spec fn events_in(text: Seq<char>) -> Seq<
    Option<(EventKind, Seq<char>, Option<Seq<(Seq<char>, Seq<char>)>>)>,
>;

/// What the calls of `read_event` on a reader give from now on, in order, up
/// to and with the first error or the end of the document.
pub uninterp spec fn pending(reader: quick_xml::reader::Reader<&[u8]>) -> Seq<
    Option<(EventKind, Seq<char>, Option<Seq<(Seq<char>, Seq<char>)>>)>,
>;

/// The kind of an event.
pub uninterp spec fn kind_in(event: quick_xml::events::Event<'_>) -> EventKind;

/// The name of the tag of an event, and the empty text for an event without
/// a tag.
pub uninterp spec fn name_in(event: quick_xml::events::Event<'_>) -> Seq<char>;

/// The attributes of the tag of an event, in the order of the tag: `None`
/// where the reader rejects one of them, and none for an event that has no
/// attributes.
pub uninterp spec fn attrs_in(event: quick_xml::events::Event<'_>) -> Option<
    Seq<(Seq<char>, Seq<char>)>,
>;

/// Whether a thing that the reader found is the last: an error, or the end
/// of the document.
pub open spec fn is_last(item: Found) -> bool {
    item is None || (item->0).0 == EventKind::Eof
}

/// Whether a list of things found ends as reading ends: with an error or
/// with the end of the document, and with neither before.
pub open spec fn ends_well(items: Seq<Found>) -> bool {
    &&& items.len() > 0
    &&& is_last(items.last())
    &&& forall|i: int| 0 <= i < items.len() - 1 ==> !is_last(#[trigger] items[i])
}

/// Calls `Reader::from_str`: a reader at the start of the text. The reader
/// has still to find what there is to find in the text, and, the text being
/// finite, that ends with an error or with the end of the document.
#[verifier::external_body]
fn open_reader<'a>(contents: &'a str) -> (reader: quick_xml::reader::Reader<&'a [u8]>)
    ensures
        pending(reader) == events_in(contents@),
        ends_well(pending(reader)),
{
    quick_xml::reader::Reader::from_str(contents)
}

/// Calls `Reader::read_event`: the next event, or `None` where the reader
/// reports an error. The event holds the first of what the reader had still
/// to find; where that was neither an error nor the end of the document, the
/// reader has then the rest still to find. Nothing is said of a reader that
/// has found an error or the end.
#[verifier::external_body]
fn next_event<'a>(reader: &mut quick_xml::reader::Reader<&'a [u8]>) -> (event: Option<
    quick_xml::events::Event<'a>,
>)
    ensures
        pending(*old(reader)).len() > 0 && !is_last(pending(*old(reader))[0]) ==> pending(
            *final(reader),
        ) == pending(*old(reader)).drop_first(),
        pending(*old(reader)).len() > 0 ==> match event {
            Some(e) => pending(*old(reader))[0] == Some((kind_in(e), name_in(e), attrs_in(e))),
            None => pending(*old(reader))[0] is None,
        },
{
    reader.read_event().ok()
}

/// Tells the variants of `Event` apart.
#[verifier::external_body]
fn event_kind<'a>(event: &quick_xml::events::Event<'a>) -> (kind: EventKind)
    ensures
        kind == kind_in(*event),
{
    match event {
        quick_xml::events::Event::Start(_) => EventKind::Start,
        quick_xml::events::Event::End(_) => EventKind::End,
        quick_xml::events::Event::Empty(_) => EventKind::Empty,
        quick_xml::events::Event::Eof => EventKind::Eof,
        quick_xml::events::Event::Text(_) => EventKind::Other,
        quick_xml::events::Event::CData(_) => EventKind::Other,
        quick_xml::events::Event::Comment(_) => EventKind::Other,
        quick_xml::events::Event::Decl(_) => EventKind::Other,
        quick_xml::events::Event::PI(_) => EventKind::Other,
        quick_xml::events::Event::DocType(_) => EventKind::Other,
        quick_xml::events::Event::GeneralRef(_) => EventKind::Other,
    }
}

/// Calls `BytesStart::name` or `BytesEnd::name`: the name of the tag as it
/// stands in the document, and the empty text for an event without a tag.
#[verifier::external_body]
fn event_name<'a>(event: &quick_xml::events::Event<'a>) -> (name: String)
    ensures
        name@ == name_in(*event),
{
    match event {
        quick_xml::events::Event::Start(e) => e.name().into_inner().to_owned(),
        quick_xml::events::Event::Empty(e) => e.name().into_inner().to_owned(),
        quick_xml::events::Event::End(e) => e.name().into_inner().to_owned(),
        _ => String::new(),
    }
}

/// Calls `BytesStart::attributes` and collects what it yields: the keys with
/// their raw values, in the order of the tag, or `None` where the reader
/// reports an error in one of them; no pairs for an event without attributes.
#[verifier::external_body]
fn event_attributes<'a>(event: &quick_xml::events::Event<'a>) -> (attrs: Option<
    Vec<(String, String)>,
>)
    ensures
        option_pairs(attrs) == attrs_in(*event),
{
    match event {
        quick_xml::events::Event::Start(e) | quick_xml::events::Event::Empty(e) => e.attributes().map(
            |a| a.map(|a| (a.key.into_inner().to_owned(), a.value.into_owned())),
        ).collect::<Result<Vec<_>, _>>().ok(),
        _ => Some(Vec::new()),
    }
}

/// What the reader found, as an element of a document: a start tag and the
/// tag of an element without content with their attributes, an end tag with
/// its name, and nothing for anything else. A tag whose attributes the
/// reader rejected is a parse error.
pub open spec fn element_of(kind: EventKind, name: Seq<char>, attrs: Option<Attrs>) -> Result<
    Option<EventView>,
    ModelError,
> {
    match kind {
        EventKind::Start => match attrs {
            Some(a) => Ok(Some(EventView::Start(name, a))),
            None => Err(ModelError::Parse),
        },
        EventKind::Empty => match attrs {
            Some(a) => Ok(Some(EventView::Empty(name, a))),
            None => Err(ModelError::Parse),
        },
        EventKind::End => Ok(Some(EventView::End(name))),
        EventKind::Other => Ok(None),
        EventKind::Eof => Ok(None),
    }
}

/// What a list of pairs that may be missing holds.
pub open spec fn option_pairs(attrs: Option<Vec<(String, String)>>) -> Option<Attrs> {
    match attrs {
        Some(a) => Some(pair_views(a@)),
        None => None,
    }
}

/// What an element that may be missing holds.
pub open spec fn option_event(event: Option<ElementEvent>) -> Option<EventView> {
    match event {
        Some(e) => Some(e@),
        None => None,
    }
}

/// Makes an element of a document of what the reader found: see
/// [`element_of`].
pub fn element(kind: EventKind, name: String, attrs: Option<Vec<(String, String)>>) -> (r: Result<
    Option<ElementEvent>,
    ModelError,
>)
    ensures
        match element_of(kind, name@, option_pairs(attrs)) {
            Ok(e) => r is Ok && option_event(r->Ok_0) == e,
            Err(e) => r == Err::<Option<ElementEvent>, ModelError>(e),
        },
{
    match kind {
        EventKind::Start => match attrs {
            Some(a) => Ok(Some(ElementEvent::Start(name, a))),
            None => Err(ModelError::Parse),
        },
        EventKind::Empty => match attrs {
            Some(a) => Ok(Some(ElementEvent::Empty(name, a))),
            None => Err(ModelError::Parse),
        },
        EventKind::End => Ok(Some(ElementEvent::End(name))),
        EventKind::Other => Ok(None),
        EventKind::Eof => Ok(None),
    }
}

/// The elements of a list of things found, from an index on: the elements
/// that [`element_of`] makes of the things before the end of the document,
/// in order. There are none where an error comes before the end: an error
/// of the reader, or a tag whose attributes it rejected.
pub open spec fn gathered(items: Seq<Found>, from: int) -> Option<Seq<EventView>>
    decreases items.len() - from,
{
    if from < 0 || from >= items.len() {
        None
    } else {
        match items[from] {
            None => None,
            Some((kind, name, attrs)) => if kind == EventKind::Eof {
                Some(Seq::empty())
            } else {
                match (element_of(kind, name, attrs), gathered(items, from + 1)) {
                    (Ok(Some(e)), Some(rest)) => Some(seq![e] + rest),
                    (Ok(None), Some(rest)) => Some(rest),
                    _ => None,
                }
            },
        }
    }
}

/// The elements of a document: its start tags, its end tags and the tags of
/// its elements without content, with their attributes, in order; `None`
/// where the reader rejects the document or an attribute.
pub open spec fn document_events(text: Seq<char>) -> Option<Seq<EventView>> {
    gathered(events_in(text), 0)
}

/// Elements gathered so far, with those still to come behind them.
pub open spec fn joined(so_far: Seq<EventView>, rest: Option<Seq<EventView>>) -> Option<
    Seq<EventView>,
> {
    match rest {
        Some(r) => Some(so_far + r),
        None => None,
    }
}

/// Reads the elements of a document: see [`document_events`]. An error of
/// the reader, in the document or in an attribute, is a parse error.
pub fn read_events(contents: &str) -> (r: Result<Vec<ElementEvent>, ModelError>)
    ensures
        match document_events(contents@) {
            Some(events) => r is Ok && event_views(r->Ok_0@) == events,
            None => r == Err::<Vec<ElementEvent>, ModelError>(ModelError::Parse),
        },
{
    let mut reader = open_reader(contents);
    let ghost items = events_in(contents@);
    let ghost mut at: int = 0;
    let mut events: Vec<ElementEvent> = Vec::new();
    proof {
        assert(event_views(events@) =~= Seq::<EventView>::empty());
        assert(items.skip(0) =~= items);
        match gathered(items, 0) {
            Some(r) => {
                assert(Seq::<EventView>::empty() + r =~= r);
            },
            None => {},
        }
    }
    loop
        invariant
            items == events_in(contents@),
            ends_well(items),
            0 <= at < items.len(),
            pending(reader) == items.skip(at),
            gathered(items, 0) == joined(event_views(events@), gathered(items, at)),
        decreases items.len() - at,
    {
        proof {
            assert(items.skip(at)[0] == items[at]);
            assert(items.skip(at).drop_first() =~= items.skip(at + 1));
        }
        let event = match next_event(&mut reader) {
            None => {
                return Err(ModelError::Parse);
            },
            Some(e) => e,
        };
        let kind = event_kind(&event);
        if kind == EventKind::Eof {
            proof {
                assert(event_views(events@) + Seq::<EventView>::empty() =~= event_views(events@));
            }
            return Ok(events);
        }
        let ghost before = event_views(events@);
        match element(kind, event_name(&event), event_attributes(&event)) {
            Err(e) => {
                return Err(e);
            },
            Ok(Some(found)) => {
                events.push(found);
                proof {
                    assert(event_views(events@) =~= before.push(found@));
                    match gathered(items, at + 1) {
                        Some(rest) => {
                            assert(before + (seq![found@] + rest) =~= before.push(found@) + rest);
                        },
                        None => {},
                    }
                }
            },
            Ok(None) => {},
        }
        proof {
            assert(!is_last(items[at]));
            at = at + 1;
        }
    }
}

} // verus!

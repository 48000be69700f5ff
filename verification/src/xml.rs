//! The flat XML envelope in which a host answers: a `root` element with a status and leaf
//! elements with text.
use quick_xml::events::Event;
use quick_xml::Reader;

use vstd::prelude::*;
use vstd::string::*;
use vstd::utf8::{decode_utf8, valid_utf8};

use crate::bytes::same_bytes;
use crate::error::{is_protocol, protocol2, Error};
use crate::text::{
    after_last, chars_of, comes_before, copy_str, decimal, decode_lossy, decode_strict,
    law_parsed_decimal, lemma_last_index_is, lemma_precedes_not_self, lemma_precedes_total,
    lemma_precedes_transitive, parse_u16, parsed, precedes, same_chars, string_of, tail_after,
    trim, trimmed, utf8_lossy,
};

verus! {

/// A reader of XML events of the `quick_xml` crate.
#[verifier::external_type_specification]
#[verifier::external_body]
#[verifier::reject_recursive_types(R)]
pub struct ExReader<R>(quick_xml::Reader<R>);

/// An event of an XML document, as far as an envelope needs it.
pub enum XmlEvent {
    /// An opening tag: its name, and a key and a value for each attribute that is well formed.
    Start { name: Vec<u8>, attributes: Vec<Option<(Vec<u8>, Vec<u8>)>> },
    /// Text without its escapes, or why they cannot be resolved.
    Text(Result<String, String>),
    /// A closing tag.
    End,
    /// The end of the document.
    Eof,
    /// Anything else.
    Other,
}

/// What an [`XmlEvent`] holds.
pub enum EventView {
    Start { name: Seq<u8>, attributes: Seq<Option<(Seq<u8>, Seq<u8>)>> },
    Text(Result<Seq<char>, Seq<char>>),
    End,
    Eof,
    Other,
}

/// The contents of a list of attributes.
pub open spec fn attribute_views(v: Seq<Option<(Vec<u8>, Vec<u8>)>>) -> Seq<
    Option<(Seq<u8>, Seq<u8>)>,
> {
    v.map_values(
        |a: Option<(Vec<u8>, Vec<u8>)>|
            match a {
                Some(p) => Some((p.0@, p.1@)),
                None => None,
            },
    )
}

impl View for XmlEvent {
    type V = EventView;

    open spec fn view(&self) -> EventView {
        match *self {
            XmlEvent::Start { name, attributes } => EventView::Start {
                name: name@,
                attributes: attribute_views(attributes@),
            },
            XmlEvent::Text(Ok(t)) => EventView::Text(Ok(t@)),
            XmlEvent::Text(Err(e)) => EventView::Text(Err(e@)),
            XmlEvent::End => EventView::End,
            XmlEvent::Eof => EventView::Eof,
            XmlEvent::Other => EventView::Other,
        }
    }
}

/// What came of reading an event: the event or the text of the error.
pub open spec fn outcome_view(r: Result<XmlEvent, String>) -> Result<EventView, Seq<char>> {
    match r {
        Ok(e) => Ok(e@),
        Err(t) => Err(t@),
    }
}

/// The contents of a list of outcomes.
pub open spec fn outcome_views(v: Seq<Result<XmlEvent, String>>) -> Seq<
    Result<EventView, Seq<char>>,
> {
    v.map_values(|r: Result<XmlEvent, String>| outcome_view(r))
}

/// Whether nothing is read after an outcome.
pub open spec fn is_last(r: Result<EventView, Seq<char>>) -> bool {
    r is Err || r->Ok_0 is Eof
}

/// The outcomes of reading a document, up to its end or the first error.
pub uninterp spec fn xml_events(xml: Seq<u8>) -> Seq<Result<EventView, Seq<char>>>;

/// The outcomes that a reader has yet to yield.
pub uninterp spec fn unread(reader: Reader<&[u8]>) -> Seq<Result<EventView, Seq<char>>>;

/// A list that ends with the first outcome after which nothing is read.
pub open spec fn is_finite_run(s: Seq<Result<EventView, Seq<char>>>) -> bool {
    &&& s.len() > 0
    &&& is_last(s.last())
    &&& forall|i: int| 0 <= i < s.len() - 1 ==> !is_last(#[trigger] s[i])
}

/// Starts reading a document by `quick_xml::Reader::from_reader`. What a reader yields is a
/// function of the document; every event but the last takes at least a byte of it, so the run
/// is finite. The events are named, not described.
#[verifier::external_body]
fn open_document<'a>(xml: &'a [u8]) -> (r: Reader<&'a [u8]>)
    ensures
        unread(r) == xml_events(xml@),
        is_finite_run(unread(r)),
{
    Reader::from_reader(xml)
}

/// Reads the next event by `quick_xml::Reader::read_event_into` and takes out what an envelope
/// needs: names and attributes as bytes, text by `BytesText::unescape`. Errors become their
/// text.
#[verifier::external_body]
fn next_event(reader: &mut Reader<&[u8]>) -> (r: Result<XmlEvent, String>)
    requires
        unread(*old(reader)).len() > 0,
    ensures
        outcome_view(r) == unread(*old(reader))[0],
        unread(*final(reader)) == unread(*old(reader)).skip(1),
{
    let mut buf = Vec::new();
    match reader.read_event_into(&mut buf).map_err(|e| e.to_string())? {
        Event::Start(e) => Ok(XmlEvent::Start {
            name: e.name().into_inner().to_vec(),
            attributes: e.attributes()
                .map(|a| a.ok().map(|a| (a.key.into_inner().to_vec(), a.value.to_vec())))
                .collect(),
        }),
        Event::Text(e) => Ok(
            XmlEvent::Text(e.unescape().map(|t| t.into_owned()).map_err(|e| e.to_string())),
        ),
        Event::End(_) => Ok(XmlEvent::End),
        Event::Eof => Ok(XmlEvent::Eof),
        _ => Ok(XmlEvent::Other),
    }
}

/// An envelope: the attributes of its root and the text of its leaves by their names.
///
/// The names of the leaves are in ascending order and occur once each.
#[derive(Debug, Clone, PartialEq, Eq)]
pub struct Flat {
    pub status_code: Option<u16>,
    pub status_message: Option<String>,
    pub fields: Vec<(String, String)>,
}

/// What a [`Flat`] holds.
#[verifier::ext_equal]
pub struct FlatView {
    pub status_code: Option<u16>,
    pub status_message: Option<Seq<char>>,
    pub fields: Map<Seq<char>, Seq<char>>,
}

/// The names in ascending order.
pub open spec fn ascending(v: Seq<(String, String)>) -> bool {
    forall|i: int, j: int|
        0 <= i < j < v.len() ==> precedes((#[trigger] v[i]).0@, (#[trigger] v[j]).0@)
}

/// Whether `name` is at place `i`.
pub open spec fn named_at(v: Seq<(String, String)>, name: Seq<char>, i: int) -> bool {
    0 <= i < v.len() && v[i].0@ == name
}

/// The values by their names.
pub open spec fn field_map(v: Seq<(String, String)>) -> Map<Seq<char>, Seq<char>> {
    Map::new(
        |name: Seq<char>| exists|i: int| named_at(v, name, i),
        |name: Seq<char>| v[choose|i: int| named_at(v, name, i)].1@,
    )
}

impl View for Flat {
    type V = FlatView;

    open spec fn view(&self) -> FlatView {
        FlatView {
            status_code: self.status_code,
            status_message: match self.status_message {
                Some(s) => Some(s@),
                None => None,
            },
            fields: field_map(self.fields@),
        }
    }
}

/// An ascending list has one value for a name.
proof fn lemma_field(v: Seq<(String, String)>, i: int)
    requires
        ascending(v),
        0 <= i < v.len(),
    ensures
        field_map(v).contains_key(v[i].0@),
        field_map(v)[v[i].0@] == v[i].1@,
{
    let name = v[i].0@;
    assert(named_at(v, name, i));
    let j = choose|j: int| named_at(v, name, j);
    lemma_precedes_not_self(name);
    if j < i {
        assert(precedes(v[j].0@, v[i].0@));
    } else if i < j {
        assert(precedes(v[i].0@, v[j].0@));
    }
}

impl Flat {
    /// The names of the leaves are in ascending order.
    pub open spec fn wf(&self) -> bool {
        ascending(self.fields@)
    }

    /// The text of a leaf.
    pub fn get(&self, tag: &str) -> (r: Option<&str>)
        requires
            self.wf(),
        ensures
            r is Some <==> self@.fields.contains_key(tag@),
            r matches Some(v) ==> v@ == self@.fields[tag@],
    {
        let wanted: Vec<char> = chars_of(tag);
        let mut i: usize = 0;
        while i < self.fields.len()
            invariant
                i <= self.fields.len(),
                self.wf(),
                wanted@ == tag@,
                forall|j: int| 0 <= j < i ==> (#[trigger] self.fields@[j]).0@ != tag@,
            decreases self.fields.len() - i,
        {
            let name: Vec<char> = chars_of(self.fields[i].0.as_str());
            if same_chars(&name, &wanted) {
                proof {
                    lemma_field(self.fields@, i as int);
                }
                return Some(self.fields[i].1.as_str());
            }
            i += 1;
        }
        proof {
            if self@.fields.contains_key(tag@) {
                let j = choose|j: int| named_at(self.fields@, tag@, j);
                assert(self.fields@[j].0@ == tag@);
            }
        }
        None
    }

    /// Set the text of a leaf.
    fn set(&mut self, tag: String, value: String)
        requires
            old(self).wf(),
        ensures
            final(self).wf(),
            final(self)@ == (FlatView {
                fields: old(self)@.fields.insert(tag@, value@),
                ..old(self)@
            }),
    {
        let ghost v = self.fields@;
        let ghost (k, x) = (tag@, value@);
        let wanted: Vec<char> = chars_of(tag.as_str());
        let mut i: usize = 0;
        while i < self.fields.len() && comes_before(
            &chars_of(self.fields[i].0.as_str()),
            &wanted,
        )
            invariant
                i <= self.fields.len(),
                self.fields@ == v,
                wanted@ == k,
                forall|j: int| 0 <= j < i ==> precedes((#[trigger] v[j]).0@, k),
            decreases self.fields.len() - i,
        {
            i += 1;
        }
        let exists_here = i < self.fields.len() && same_chars(
            &chars_of(self.fields[i].0.as_str()),
            &wanted,
        );
        if exists_here {
            self.fields[i] = (tag, value);
            proof {
                assert forall|a: int, b: int| 0 <= a < b < self.fields@.len() implies precedes(
                    (#[trigger] self.fields@[a]).0@,
                    (#[trigger] self.fields@[b]).0@,
                ) by {
                    assert(precedes(v[a].0@, v[b].0@));
                }
            }
        } else {
            self.fields.insert(i, (tag, value));
            proof {
                if i < v.len() {
                    lemma_precedes_total(v[i as int].0@, k);
                }
                assert forall|a: int, b: int| 0 <= a < b < self.fields@.len() implies precedes(
                    (#[trigger] self.fields@[a]).0@,
                    (#[trigger] self.fields@[b]).0@,
                ) by {
                    let (p, q) = (
                        if a < i {
                            a
                        } else {
                            a - 1
                        },
                        if b < i {
                            b
                        } else {
                            b - 1
                        },
                    );
                    if a == i {
                        if q > i {
                            assert(precedes(v[i as int].0@, v[q].0@));
                            lemma_precedes_transitive(k, v[i as int].0@, v[q].0@);
                        }
                    } else if b == i {
                        assert(precedes(v[p].0@, k));
                    } else {
                        assert(precedes(v[p].0@, v[q].0@));
                    }
                }
            }
        }
        proof {
            lemma_field_set(v, self.fields@, i as int, k, x, exists_here);
        }
    }
}

/// A list with `(k, x)` put at its place holds what it held before and `x` under `k`.
proof fn lemma_field_set(
    v: Seq<(String, String)>,
    w: Seq<(String, String)>,
    i: int,
    k: Seq<char>,
    x: Seq<char>,
    replaced: bool,
)
    requires
        ascending(v),
        ascending(w),
        0 <= i < w.len(),
        w[i].0@ == k,
        w[i].1@ == x,
        replaced ==> w.len() == v.len() && v[i].0@ == k && forall|j: int|
            0 <= j < v.len() && j != i ==> #[trigger] w[j] == v[j],
        !replaced ==> w.len() == v.len() + 1 && (forall|j: int|
            0 <= j < i ==> #[trigger] w[j] == v[j]) && (forall|j: int|
            i < j < w.len() ==> #[trigger] w[j] == v[j - 1]),
    ensures
        field_map(w) == field_map(v).insert(k, x),
{
    let (mv, mw) = (field_map(v), field_map(w));
    assert forall|name: Seq<char>| #![auto]
        mw.contains_key(name) <==> mv.insert(k, x).contains_key(name) by {
        if mw.contains_key(name) {
            let j = choose|j: int| named_at(w, name, j);
            if j != i {
                let p = if replaced || j < i {
                    j
                } else {
                    j - 1
                };
                assert(named_at(v, name, p));
            }
        }
        if mv.contains_key(name) {
            let p = choose|p: int| named_at(v, name, p);
            let j = if replaced || p < i {
                p
            } else {
                p + 1
            };
            assert(named_at(w, name, j));
        }
        if name == k {
            assert(named_at(w, name, i));
        }
    }
    assert forall|name: Seq<char>| #![auto] mw.contains_key(name) implies mw[name] == mv.insert(
        k,
        x,
    )[name] by {
        if name == k {
            lemma_field(w, i);
        } else {
            let j = choose|j: int| named_at(w, name, j);
            lemma_field(w, j);
            let p = if replaced || j < i {
                j
            } else {
                j - 1
            };
            assert(named_at(v, name, p));
            lemma_field(v, p);
        }
    }
    assert(mw =~= mv.insert(k, x));
}

/// The name of an element without its prefix.
pub open spec fn local_part(name: Seq<u8>) -> Seq<char> {
    after_last(utf8_lossy(name), ':')
}

/// The name of an element without its prefix.
pub fn local_name(name: &[u8]) -> (r: String)
    ensures
        r@ == local_part(name@),
{
    let text: String = decode_lossy(name);
    let chars: Vec<char> = chars_of(text.as_str());
    string_of(tail_after(&chars, ':'))
}

/// The value of the first attribute with the given key, if it is text.
pub open spec fn attribute(attributes: Seq<Option<(Seq<u8>, Seq<u8>)>>, key: Seq<u8>) -> Option<
    Seq<char>,
>
    decreases attributes.len(),
{
    if attributes.len() == 0 {
        None
    } else {
        match attributes[0] {
            Some((k, v)) => if k != key {
                attribute(attributes.skip(1), key)
            } else if valid_utf8(v) {
                Some(decode_utf8(v))
            } else {
                None
            },
            None => attribute(attributes.skip(1), key),
        }
    }
}

fn attr(attributes: &Vec<Option<(Vec<u8>, Vec<u8>)>>, key: &str) -> (r: Option<String>)
    ensures
        r is Some <==> attribute(attribute_views(attributes@), key.spec_bytes()) is Some,
        r matches Some(s) ==> s@ == attribute(
            attribute_views(attributes@),
            key.spec_bytes(),
        )->0,
{
    let wanted = key.as_bytes();
    let ghost all = attribute_views(attributes@);
    let mut i: usize = 0;
    assert(all.skip(0) =~= all);
    while i < attributes.len()
        invariant
            i <= attributes.len(),
            all == attribute_views(attributes@),
            wanted@ == key.spec_bytes(),
            attribute(all, wanted@) == attribute(all.skip(i as int), wanted@),
        decreases attributes.len() - i,
    {
        if let Some(pair) = &attributes[i] {
            assert(all[i as int] == Some((pair.0@, pair.1@)));
            if same_bytes(&pair.0, wanted) {
                return decode_strict(&pair.1);
            }
        } else {
            assert(all[i as int] is None);
        }
        assert(all.skip(i as int).skip(1) =~= all.skip(i + 1));
        i += 1;
    }
    None
}

/// The open elements and the envelope so far.
#[verifier::ext_equal]
pub struct Parsing {
    pub open: Seq<Seq<char>>,
    pub flat: FlatView,
}

/// An envelope that holds nothing.
pub open spec fn empty_flat() -> FlatView {
    FlatView { status_code: None, status_message: None, fields: Map::empty() }
}

/// The attributes of an opening tag in the envelope: those of a `root` element count.
pub open spec fn with_attributes(
    flat: FlatView,
    name: Seq<char>,
    attributes: Seq<Option<(Seq<u8>, Seq<u8>)>>,
) -> FlatView {
    if name == "root"@ {
        FlatView {
            status_code: match attribute(attributes, "status_code".spec_bytes()) {
                Some(v) => match parsed(v, u16::MAX as nat) {
                    Some(n) => Some(n as u16),
                    None => None,
                },
                None => None,
            },
            status_message: attribute(attributes, "status_message".spec_bytes()),
            ..flat
        }
    } else {
        flat
    }
}

/// The state after one event, or the text of the error.
pub open spec fn after_event(p: Parsing, r: Result<EventView, Seq<char>>) -> Result<
    Parsing,
    Seq<char>,
> {
    match r {
        Err(e) => Err("XML: "@ + e),
        Ok(EventView::Start { name, attributes }) => Ok(
            Parsing {
                open: p.open.push(local_part(name)),
                flat: with_attributes(p.flat, local_part(name), attributes),
            },
        ),
        Ok(EventView::Text(Err(e))) => Err("XML text: "@ + e),
        Ok(EventView::Text(Ok(t))) => if trimmed(t).len() > 0 && p.open.len() > 0 {
            Ok(
                Parsing {
                    flat: FlatView {
                        fields: p.flat.fields.insert(p.open.last(), trimmed(t)),
                        ..p.flat
                    },
                    ..p
                },
            )
        } else {
            Ok(p)
        },
        Ok(EventView::End) => if p.open.len() > 0 {
            Ok(Parsing { open: p.open.drop_last(), ..p })
        } else {
            Ok(p)
        },
        Ok(_) => Ok(p),
    }
}

/// The state after the first `n` events, or the text of the first error.
pub open spec fn after_events(events: Seq<Result<EventView, Seq<char>>>, n: nat) -> Result<
    Parsing,
    Seq<char>,
>
    decreases n,
{
    if n == 0 {
        Ok(Parsing { open: Seq::empty(), flat: empty_flat() })
    } else {
        match after_events(events, (n - 1) as nat) {
            Err(e) => Err(e),
            Ok(p) => after_event(p, events[n - 1]),
        }
    }
}

/// The contents of a list of names.
spec fn names(v: Seq<String>) -> Seq<Seq<char>> {
    v.map_values(|s: String| s@)
}

/// The envelope that a list of events makes: later leaves replace earlier ones of their name.
pub fn fold_events(events: &Vec<Result<XmlEvent, String>>) -> (r: Result<Flat, Error>)
    ensures
        match after_events(outcome_views(events@), events@.len()) {
            Ok(p) => r matches Ok(f) && f.wf() && f@ == p.flat,
            Err(text) => r matches Err(e) && is_protocol(e, text),
        },
{
    let ghost all = outcome_views(events@);
    let mut flat = Flat { status_code: None, status_message: None, fields: Vec::new() };
    let mut open: Vec<String> = Vec::new();
    let root: Vec<char> = chars_of("root");
    assert(names(open@) =~= Seq::empty());
    assert(flat@.fields =~= Map::empty());
    let mut i: usize = 0;
    while i < events.len()
        invariant
            i <= events.len(),
            all == outcome_views(events@),
            root@ == "root"@,
            flat.wf(),
            after_events(all, i as nat) == Ok::<Parsing, Seq<char>>(
                Parsing { open: names(open@), flat: flat@ },
            ),
        decreases events.len() - i,
    {
        assert(all[i as int] == outcome_view(events@[i as int]));
        let ghost before = Parsing { open: names(open@), flat: flat@ };
        let ghost stack = open@;
        assert(after_events(all, (i + 1) as nat) == after_event(before, all[i as int]));
        match &events[i] {
            Err(e) => {
                proof {
                    lemma_failed(all, (i + 1) as nat, all.len());
                }
                return Err(protocol2("XML: ", e.as_str()));
            },
            Ok(XmlEvent::Start { name, attributes }) => {
                let local: String = local_name(name);
                if same_chars(&chars_of(local.as_str()), &root) {
                    flat.status_code = match attr(attributes, "status_code") {
                        Some(v) => parse_u16(&chars_of(v.as_str())),
                        None => None,
                    };
                    flat.status_message = attr(attributes, "status_message");
                }
                let ghost part = local@;
                open.push(local);
                assert(names(open@) =~= names(stack).push(part));
            },
            Ok(XmlEvent::Text(Err(e))) => {
                proof {
                    lemma_failed(all, (i + 1) as nat, all.len());
                }
                return Err(protocol2("XML text: ", e.as_str()));
            },
            Ok(XmlEvent::Text(Ok(t))) => {
                let chars: Vec<char> = chars_of(t.as_str());
                let content = trim(&chars);
                if content.len() > 0 && open.len() > 0 {
                    assert(names(open@).last() == open@.last()@);
                    let tag: String = copy_str(open[open.len() - 1].as_str());
                    flat.set(tag, string_of(content));
                }
            },
            Ok(XmlEvent::End) => {
                if open.len() > 0 {
                    let _ = open.pop();
                    assert(names(open@) =~= names(stack).drop_last());
                }
            },
            Ok(XmlEvent::Eof) => {},
            Ok(XmlEvent::Other) => {},
        }
        i += 1;
    }
    Ok(flat)
}

/// An error stays.
proof fn lemma_failed(events: Seq<Result<EventView, Seq<char>>>, m: nat, n: nat)
    requires
        m <= n,
        after_events(events, m) is Err,
    ensures
        after_events(events, n) == after_events(events, m),
    decreases n,
{
    if m < n {
        lemma_failed(events, m, (n - 1) as nat);
    }
}

/// Read a document up to its end or the first error.
pub(crate) fn read_events(xml: &[u8]) -> (r: Vec<Result<XmlEvent, String>>)
    ensures
        outcome_views(r@) == xml_events(xml@),
{
    let mut reader = open_document(xml);
    let ghost all = xml_events(xml@);
    let mut events: Vec<Result<XmlEvent, String>> = Vec::new();
    assert(outcome_views(events@) + all =~= all);
    loop
        invariant
            all == xml_events(xml@),
            outcome_views(events@) + unread(reader) == all,
            is_finite_run(unread(reader)),
        decreases unread(reader).len(),
    {
        let ghost rest = unread(reader);
        let ghost so_far = outcome_views(events@);
        let event = next_event(&mut reader);
        let last = match &event {
            Ok(XmlEvent::Eof) => true,
            Ok(_) => false,
            Err(_) => true,
        };
        assert(last == is_last(rest[0]));
        let ghost read = outcome_view(event);
        events.push(event);
        assert(outcome_views(events@) =~= so_far.push(read));
        assert(outcome_views(events@) + unread(reader) =~= so_far + rest);
        if last {
            assert(rest.len() == 1);
            assert(outcome_views(events@) =~= all);
            return events;
        }
        assert(unread(reader).last() == rest.last());
    }
}

/// Parse an envelope. For records that repeat, of which only the last would stay, use a parser
/// of their own.
pub fn parse_flat(xml: &[u8]) -> (r: Result<Flat, Error>)
    ensures
        match after_events(xml_events(xml@), xml_events(xml@).len()) {
            Ok(p) => r matches Ok(f) && f.wf() && f@ == p.flat,
            Err(text) => r matches Err(e) && is_protocol(e, text),
        },
{
    let events = read_events(xml);
    fold_events(&events)
}

/// A leaf of an envelope: its text goes under its name, white space around it aside, and what
/// encloses it stays open. The leaf has no prefix or any.
pub proof fn law_leaf(
    p: Parsing,
    name: Seq<u8>,
    attributes: Seq<Option<(Seq<u8>, Seq<u8>)>>,
    text: Seq<char>,
)
    requires
        local_part(name) != "root"@,
    ensures
        ({
            let opened = after_event(p, Ok(EventView::Start { name, attributes }));
            let filled = after_event(opened->Ok_0, Ok(EventView::Text(Ok(text))));
            let closed = after_event(filled->Ok_0, Ok(EventView::End));
            &&& opened is Ok && filled is Ok && closed is Ok
            &&& closed->Ok_0.open == p.open
            &&& closed->Ok_0.flat.status_code == p.flat.status_code
            &&& closed->Ok_0.flat.status_message == p.flat.status_message
            &&& closed->Ok_0.flat.fields == if trimmed(text).len() > 0 {
                p.flat.fields.insert(local_part(name), trimmed(text))
            } else {
                p.flat.fields
            }
        }),
{
    assert(p.open.push(local_part(name)).drop_last() =~= p.open);
}

/// The root tells the status: the number and the text of its attributes of these names.
pub proof fn law_root(
    p: Parsing,
    name: Seq<u8>,
    attributes: Seq<Option<(Seq<u8>, Seq<u8>)>>,
    code: u16,
    message: Seq<char>,
)
    requires
        local_part(name) == "root"@,
        attribute(attributes, "status_code".spec_bytes()) == Some(decimal(code as nat)),
        attribute(attributes, "status_message".spec_bytes()) == Some(message),
    ensures
        after_event(p, Ok(EventView::Start { name, attributes })) matches Ok(next)
            && next.flat.status_code == Some(code) && next.flat.status_message == Some(message)
            && next.flat.fields == p.flat.fields && next.open == p.open.push("root"@),
{
    law_parsed_decimal(code as nat, u16::MAX as nat);
}

/// An attribute is found by its key; the first of a key counts.
pub proof fn law_attribute(
    before_it: Seq<Option<(Seq<u8>, Seq<u8>)>>,
    key: Seq<u8>,
    value: Seq<u8>,
    after_it: Seq<Option<(Seq<u8>, Seq<u8>)>>,
)
    requires
        forall|i: int|
            0 <= i < before_it.len() ==> (#[trigger] before_it[i] matches Some(a) ==> a.0 != key),
        valid_utf8(value),
    ensures
        attribute(before_it + seq![Some((key, value))] + after_it, key) == Some(
            decode_utf8(value),
        ),
        attribute(before_it, key) is None,
    decreases before_it.len(),
{
    let all = before_it + seq![Some((key, value))] + after_it;
    if before_it.len() > 0 {
        assert(all[0] == before_it[0]);
        let rest = before_it.skip(1);
        assert(all.skip(1) =~= rest + seq![Some((key, value))] + after_it);
        assert forall|i: int| 0 <= i < rest.len() implies (#[trigger] rest[i] matches Some(a)
            ==> a.0 != key) by {
            assert(rest[i] == before_it[i + 1]);
        }
        law_attribute(rest, key, value, after_it);
    } else {
        assert(all[0] == Some((key, value)));
    }
}

/// The name of an element is what follows its prefix, if it has one.
pub proof fn law_local_part(name: Seq<u8>, prefix: Seq<char>, local: Seq<char>)
    requires
        utf8_lossy(name) == prefix + seq![':'] + local || utf8_lossy(name) == local,
        forall|i: int| 0 <= i < local.len() ==> #[trigger] local[i] != ':',
    ensures
        local_part(name) == local,
{
    let full = prefix + seq![':'] + local;
    let n = prefix.len() as int;
    assert forall|j: int| n < j < full.len() implies #[trigger] full[j] != ':' by {
        assert(full[j] == local[j - n - 1]);
    }
    lemma_last_index_is(full, ':', n);
    assert(full.skip(n + 1) =~= local);
    lemma_last_index_is(local, ':', -1);
    assert(local.skip(0) =~= local);
}

} // verus!

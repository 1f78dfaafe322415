use vstd::prelude::*;
use vstd::slice::slice_to_vec;
use vstd::string::StringExecFns;
use vstd::utf8::encode_utf8;
use crate::error::{ErrorKind, StoreError};
use crate::text::{debug_list_of, debug_option_of, decimal_of, push_debug_list, push_decimal, push_debug_option};
use crate::identifier::{parse_uuid, parsed_uuid, uuid_text, uuid_text_of};

verus! {

/// The abstract value of an [`Event`].
pub struct EventView {
    pub event_type: Seq<char>,
    pub data: Seq<u8>,
    pub tags: Seq<Seq<char>>,
    pub uuid: Option<Seq<char>>,
}

/// One domain event: its type, an opaque payload, its tags and an optional
/// identifier that the store uses to recognise a repeated append.
pub struct Event {
    pub event_type: String,
    pub data: Vec<u8>,
    pub tags: Vec<String>,
    pub uuid: Option<String>,
}

pub open spec fn option_text_view(o: Option<String>) -> Option<Seq<char>> {
    match o {
        Some(s) => Some(s@),
        None => None,
    }
}

impl View for Event {
    type V = EventView;

    open spec fn view(&self) -> EventView {
        EventView {
            event_type: self.event_type@,
            data: self.data@,
            tags: self.tags.deep_view(),
            uuid: option_text_view(self.uuid),
        }
    }
}

/// Copies a list of strings, keeping every string.
pub fn copy_strings(v: &Vec<String>) -> (r: Vec<String>)
    ensures
        r.deep_view() == v.deep_view(),
{
    let mut r: Vec<String> = Vec::new();
    let mut i: usize = 0;
    while i < v.len()
        invariant
            i <= v.len(),
            r@.len() == i,
            forall|j: int| 0 <= j < i ==> #[trigger] r@[j]@ == v@[j]@,
        decreases v.len() - i,
    {
        r.push(v[i].clone());
        i = i + 1;
    }
    assert(r.deep_view() =~= v.deep_view());
    r
}

/// Whether `s` occurs in `v`, comparing strings character for character.
pub fn contains_string(v: &Vec<String>, s: &String) -> (r: bool)
    ensures
        r == v.deep_view().contains(s@),
{
    let mut i: usize = 0;
    while i < v.len()
        invariant
            i <= v.len(),
            forall|j: int| 0 <= j < i ==> v.deep_view()[j] != s@,
        decreases v.len() - i,
    {
        if v[i] == *s {
            assert(v.deep_view()[i as int] == s@);
            return true;
        }
        i = i + 1;
    }
    false
}

impl Clone for Event {
    fn clone(&self) -> (r: Event)
        ensures
            r@ == self@,
    {
        let uuid = match &self.uuid {
            Some(u) => Some(u.clone()),
            None => None,
        };
        Event {
            event_type: self.event_type.clone(),
            data: self.data.clone(),
            tags: copy_strings(&self.tags),
            uuid,
        }
    }
}

/// The text that a lossy UTF-8 decoding reads from some bytes.
pub uninterp spec fn lossy_text_of(b: Seq<u8>) -> Seq<char>;

/// Relies on `String::from_utf8_lossy`: the text depends on the bytes alone,
/// and bytes that are the UTF-8 encoding of a text decode to that text.
#[verifier::external_body]
fn lossy_text(b: &Vec<u8>) -> (r: String)
    ensures
        r@ == lossy_text_of(b@),
        forall|c: Seq<char>| encode_utf8(c) == b@ ==> r@ == c,
{
    String::from_utf8_lossy(b.as_slice()).into_owned()
}

/// The tags an optional list supplies: none when it is absent.
pub open spec fn tags_or_empty(tags: Option<Vec<String>>) -> Seq<Seq<char>> {
    match tags {
        Some(t) => t.deep_view(),
        None => Seq::empty(),
    }
}

impl Event {
    /// Builds an event; the payload is the UTF-8 encoding of `data`, and an
    /// absent tag list means no tags.
    #[allow(non_snake_case)]
    pub fn __construct(
        event_type: String,
        data: String,
        tags: Option<Vec<String>>,
        uuid: Option<String>,
    ) -> (r: Event)
        ensures
            r@ == (EventView {
                event_type: event_type@,
                data: encode_utf8(data@),
                tags: tags_or_empty(tags),
                uuid: option_text_view(uuid),
            }),
    {
        let bytes = slice_to_vec(data.as_str().as_bytes());
        let ghost given = tags;
        let tags = match tags {
            Some(t) => t,
            None => Vec::new(),
        };
        proof {
            assert(tags.deep_view() =~= tags_or_empty(given));
        }
        Event { event_type, data: bytes, tags, uuid }
    }

    pub fn get_event_type(&self) -> (r: String)
        ensures
            r@ == self@.event_type,
    {
        self.event_type.clone()
    }

    /// The payload read as text; invalid UTF-8 sequences become replacement
    /// characters.
    pub fn get_data(&self) -> (r: String)
        ensures
            r@ == lossy_text_of(self@.data),
            forall|c: Seq<char>| encode_utf8(c) == self@.data ==> r@ == c,
    {
        lossy_text(&self.data)
    }

    pub fn get_tags(&self) -> (r: Vec<String>)
        ensures
            r.deep_view() == self@.tags,
    {
        copy_strings(&self.tags)
    }

    pub fn get_uuid(&self) -> (r: Option<String>)
        ensures
            option_text_view(r) == self@.uuid,
    {
        match &self.uuid {
            Some(u) => Some(u.clone()),
            None => None,
        }
    }

    /// A one-line description: type, tags and identifier.
    #[allow(non_snake_case)]
    pub fn __toString(&self) -> (r: String)
        ensures
            r@ == event_text(self@),
    {
        let mut out = String::from_str("Event(type=");
        out.append(self.event_type.as_str());
        out.append(", tags=");
        push_debug_list(&mut out, &self.tags);
        out.append(", uuid=");
        push_debug_option(&mut out, &self.uuid);
        out.append(")");
        out
    }

    /// Converts the event to the form handed to the store, reading its
    /// identifier as a 128-bit value. Fails with a validation error when the
    /// identifier is present and is not a UUID.
    pub fn to_dcb_event(&self) -> (r: Result<WireEvent, StoreError>)
        ensures
            r is Ok <==> uuid_valid(self@.uuid),
            r is Ok ==> r->Ok_0@ == wire_of(self@),
            forall|v: u128|
                self@.uuid == Some(#[trigger] uuid_text_of(v)) ==> r is Ok && r->Ok_0@.uuid == Some(v),
            r is Err ==> r->Err_0.kind == ErrorKind::Validation && r->Err_0.message@
                == "Invalid UUID: "@ + self@.uuid->0,
    {
        let uuid = match &self.uuid {
            Some(text) => match parse_uuid(text.as_str()) {
                Some(v) => Some(v),
                None => {
                    let mut message = String::from_str("Invalid UUID: ");
                    message.append(text.as_str());
                    return Err(StoreError::new(ErrorKind::Validation, message));
                },
            },
            None => None,
        };
        Ok(
            WireEvent {
                event_type: self.event_type.clone(),
                data: self.data.clone(),
                tags: copy_strings(&self.tags),
                uuid,
            },
        )
    }
}

/// The one-line description of an event.
pub open spec fn event_text(e: EventView) -> Seq<char> {
    "Event(type="@ + e.event_type + ", tags="@ + debug_list_of(e.tags) + ", uuid="@
        + debug_option_of(e.uuid) + ")"@
}

/// An identifier is acceptable when absent, or when it parses as a UUID.
pub open spec fn uuid_valid(uuid: Option<Seq<char>>) -> bool {
    match uuid {
        Some(t) => parsed_uuid(t) is Some,
        None => true,
    }
}

/// The abstract value of a [`WireEvent`].
pub struct WireEventView {
    pub event_type: Seq<char>,
    pub data: Seq<u8>,
    pub tags: Seq<Seq<char>>,
    pub uuid: Option<u128>,
}

/// An event in the form the store exchanges: the identifier, if any, is a
/// 128-bit value.
pub struct WireEvent {
    pub event_type: String,
    pub data: Vec<u8>,
    pub tags: Vec<String>,
    pub uuid: Option<u128>,
}

impl View for WireEvent {
    type V = WireEventView;

    open spec fn view(&self) -> WireEventView {
        WireEventView {
            event_type: self.event_type@,
            data: self.data@,
            tags: self.tags.deep_view(),
            uuid: self.uuid,
        }
    }
}

/// The store form of an event whose identifier is valid.
pub open spec fn wire_of(e: EventView) -> WireEventView {
    WireEventView {
        event_type: e.event_type,
        data: e.data,
        tags: e.tags,
        uuid: match e.uuid {
            Some(t) => parsed_uuid(t),
            None => None,
        },
    }
}

/// The event that a store-form event stands for: its identifier is rendered
/// in canonical text.
pub open spec fn event_of_wire(w: WireEventView) -> EventView {
    EventView {
        event_type: w.event_type,
        data: w.data,
        tags: w.tags,
        uuid: match w.uuid {
            Some(v) => Some(uuid_text_of(v)),
            None => None,
        },
    }
}

/// The abstract value of a [`SequencedEvent`].
pub struct SequencedEventView {
    pub event: EventView,
    pub position: u64,
}

/// An event together with the position the store gave it.
pub struct SequencedEvent {
    pub event: Event,
    pub position: u64,
}

impl View for SequencedEvent {
    type V = SequencedEventView;

    open spec fn view(&self) -> SequencedEventView {
        SequencedEventView { event: self.event@, position: self.position }
    }
}

impl Clone for SequencedEvent {
    fn clone(&self) -> (r: SequencedEvent)
        ensures
            r@ == self@,
    {
        SequencedEvent { event: self.event.clone(), position: self.position }
    }
}

impl SequencedEvent {
    /// Builds the caller's view of an event that the store returned at
    /// `position`.
    pub fn from_wire(event: WireEvent, position: u64) -> (r: SequencedEvent)
        ensures
            r@ == (SequencedEventView { event: event_of_wire(event@), position }),
    {
        let uuid = match event.uuid {
            Some(v) => Some(uuid_text(v)),
            None => None,
        };
        let tags = event.tags;
        SequencedEvent {
            event: Event { event_type: event.event_type, data: event.data, tags, uuid },
            position,
        }
    }

    pub fn get_event(&self) -> (r: Event)
        ensures
            r@ == self@.event,
    {
        self.event.clone()
    }

    /// A one-line description: position, then the event's own description.
    #[allow(non_snake_case)]
    pub fn __toString(&self) -> (r: String)
        ensures
            r@ == "SequencedEvent(position="@ + decimal_of(self.position as nat) + ", event="@
                + event_text(self@.event) + ")"@,
    {
        let mut out = String::from_str("SequencedEvent(position=");
        push_decimal(&mut out, self.position);
        out.append(", event=");
        let e = self.event.__toString();
        out.append(e.as_str());
        out.append(")");
        out
    }

    pub fn get_position(&self) -> (r: u64)
        ensures
            r == self.position,
    {
        self.position
    }
}

} // verus!

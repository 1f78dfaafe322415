use vstd::prelude::*;
use vstd::string::StringExecFns;
use crate::error::{ErrorKind, StoreError};
use crate::identifier::{parsed_uuid, uuid_text_of};
use crate::event::{uuid_valid, wire_of, Event, WireEvent};

verus! {

/// Every event of the batch carries an acceptable identifier.
pub open spec fn all_uuids_valid(events: Seq<Event>) -> bool {
    forall|i: int| 0 <= i < events.len() ==> uuid_valid(#[trigger] events[i]@.uuid)
}

/// The index of the first event whose identifier is not a UUID.
pub open spec fn first_invalid(events: Seq<Event>, i: int) -> bool {
    0 <= i < events.len() && !uuid_valid(events[i]@.uuid) && forall|j: int|
        0 <= j < i ==> uuid_valid(#[trigger] events[j]@.uuid)
}

/// Turns a batch of events into the form handed to the store. An empty batch
/// is refused, and so is a batch holding an identifier that is not a UUID: the
/// error then names the first such identifier, and nothing is sent.
pub fn prepare_append(events: &Vec<&Event>) -> (r: Result<Vec<WireEvent>, StoreError>)
    ensures
        r is Ok <==> events@.len() > 0 && all_uuids_valid(events@.map_values(|e: &Event| *e)),
        r is Ok ==> r->Ok_0@.len() == events@.len() && forall|i: int|
            0 <= i < events@.len() ==> #[trigger] r->Ok_0@[i]@ == wire_of(events@[i]@),
        r is Ok ==> forall|i: int, v: u128|
            #![trigger events@[i], uuid_text_of(v)]
            0 <= i < events@.len() && events@[i]@.uuid == Some(uuid_text_of(v))
                ==> parsed_uuid(uuid_text_of(v)) == Some(v),
        r is Err ==> r->Err_0.kind == ErrorKind::Validation,
        r is Err && events@.len() > 0 ==> exists|i: int|
            first_invalid(events@.map_values(|e: &Event| *e), i) && r->Err_0.message@
                == "Invalid UUID: "@ + events@[i]@.uuid->0,
{
    let ghost evs = events@.map_values(|e: &Event| *e);
    if events.len() == 0 {
        return Err(StoreError::new(ErrorKind::Validation, String::from_str("no events to append")));
    }
    let mut out: Vec<WireEvent> = Vec::new();
    let mut i: usize = 0;
    while i < events.len()
        invariant
            i <= events.len(),
            evs == events@.map_values(|e: &Event| *e),
            out@.len() == i,
            forall|j: int| 0 <= j < i ==> #[trigger] out@[j]@ == wire_of(events@[j]@),
            forall|j: int| 0 <= j < i ==> uuid_valid(#[trigger] evs[j]@.uuid),
            forall|j: int, v: u128|
                #![trigger events@[j], uuid_text_of(v)]
                0 <= j < i && events@[j]@.uuid == Some(uuid_text_of(v))
                    ==> parsed_uuid(uuid_text_of(v)) == Some(v),
        decreases events.len() - i,
    {
        match events[i].to_dcb_event() {
            Ok(w) => {
                out.push(w);
            },
            Err(e) => {
                assert(first_invalid(evs, i as int));
                return Err(e);
            },
        }
        i = i + 1;
    }
    Ok(out)
}

} // verus!

//! Client-side model of a Dynamic-Consistency-Boundary event store: events,
//! OR-of-AND queries over event types and tags, append conditions for
//! optimistic concurrency, and the checks that a client applies to what the
//! store hands back.

mod append;
mod condition;
mod error;
mod event;
mod identifier;
mod query;
mod read;
mod store;
mod text;

pub use append::{all_uuids_valid, first_invalid, prepare_append};
pub use condition::{
    AppendCondition, AppendConditionView, after_boundary, log_view, violated, violates_at,
};
pub use error::{ErrorKind, StoreError, kind_prefix};
pub use event::{
    Event, EventView, SequencedEvent, event_text, SequencedEventView, WireEvent, WireEventView, event_of_wire,
    uuid_valid, wire_of,
};
pub use identifier::{hex_digit, hex_of, parsed_uuid, uuid_text_of};
pub use query::{
    Query, QueryItem, QueryItemView, item_matches, lemma_item_order_irrelevant,
    lemma_matches_by_tag_sets, lemma_tag_order_irrelevant, query_matches, tags_present,
    type_admitted,
};
pub use read::{
    ReadCollector, ReadCollectorView, ReadRequest, ReadRequestView, ReadStep, acceptable, follows,
    in_window, limit_reached, selects, strictly_ordered, valid_read,
};
pub use store::{
    MemoryStore, appended, lemma_condition_at_head, lemma_head_is_length, lemma_read_item_order, lemma_read_tag_order, lemma_read_valid,
    lemma_round_trip, appended_ids, batch_of, contiguous, head_of, picked_backward,
    picked_forward, picks, read_of, take_limit, uuid_conflict,
};
pub use text::{debug_list_of, debug_option_of, debug_text_of, decimal_of, digit_of, joined_debug};

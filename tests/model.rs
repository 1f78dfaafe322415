use umadb_php::{
    prepare_append, AppendCondition, ErrorKind, Event, Query, QueryItem, ReadCollector,
    ReadRequest, ReadStep, SequencedEvent, StoreError, WireEvent,
};

fn s(x: &str) -> String {
    x.to_string()
}

fn seq_event(t: &str, tags: &[&str], position: u64) -> SequencedEvent {
    SequencedEvent {
        event: Event::__construct(s(t), s("x"), Some(tags.iter().map(|x| s(x)).collect()), None),
        position,
    }
}

#[test]
fn event_construction_keeps_fields() {
    let e = Event::__construct(s("Created"), s("x"), Some(vec![s("order:1")]), None);
    assert_eq!(e.get_event_type(), "Created");
    assert_eq!(e.data, b"x".to_vec());
    assert_eq!(e.get_data(), "x");
    assert_eq!(e.get_tags(), vec![s("order:1")]);
    assert_eq!(e.get_uuid(), None);
    let bare = Event::__construct(s("T"), s(""), None, None);
    assert!(bare.tags.is_empty());
}

#[test]
fn data_that_is_not_utf8_is_read_lossily() {
    let mut e = Event::__construct(s("T"), s(""), None, None);
    e.data = vec![0x61, 0xff, 0x62];
    assert_eq!(e.get_data(), "a\u{fffd}b");
}

#[test]
fn valid_uuid_is_read_as_its_value() {
    let e = Event::__construct(
        s("T"),
        s("x"),
        None,
        Some(s("67e55044-10b1-426f-9247-bb680e5fe0c8")),
    );
    let w = e.to_dcb_event().ok().unwrap();
    assert_eq!(w.uuid, Some(0x67e5504410b1426f9247bb680e5fe0c8u128));
    assert_eq!(w.event_type, "T");
    assert_eq!(w.data, b"x".to_vec());
}

#[test]
fn invalid_uuid_is_a_validation_error() {
    let e = Event::__construct(s("T"), s("x"), None, Some(s("not-a-uuid")));
    let err = e.to_dcb_event().err().unwrap();
    assert_eq!(err.kind, ErrorKind::Validation);
    assert_eq!(err.message, "Invalid UUID: not-a-uuid");
}

#[test]
fn stored_uuid_comes_back_in_canonical_text() {
    let w = WireEvent {
        event_type: s("T"),
        data: vec![1, 2],
        tags: vec![s("a")],
        uuid: Some(0x67E5504410B1426F9247BB680E5FE0C8u128),
    };
    let se = SequencedEvent::from_wire(w, 9);
    assert_eq!(se.get_position(), 9);
    assert_eq!(se.get_event().get_uuid(), Some(s("67e55044-10b1-426f-9247-bb680e5fe0c8")));
    assert_eq!(se.event.data, vec![1, 2]);
}

#[test]
fn empty_batch_is_refused() {
    let err = prepare_append(&vec![]).err().unwrap();
    assert_eq!(err.kind, ErrorKind::Validation);
}

#[test]
fn batch_error_names_first_bad_uuid() {
    let good = Event::__construct(s("T"), s("x"), None, None);
    let bad1 = Event::__construct(s("T"), s("x"), None, Some(s("first")));
    let bad2 = Event::__construct(s("T"), s("x"), None, Some(s("second")));
    let err = prepare_append(&vec![&good, &bad1, &bad2]).err().unwrap();
    assert_eq!(err.message, "Invalid UUID: first");
    let ok = prepare_append(&vec![&good, &good]).ok().unwrap();
    assert_eq!(ok.len(), 2);
}

#[test]
fn error_messages_carry_their_class() {
    let cases = [
        (ErrorKind::Integrity, "UmaDB\\Exception\\IntegrityException: boom"),
        (ErrorKind::Transport, "UmaDB\\Exception\\TransportException: boom"),
        (ErrorKind::Corruption, "UmaDB\\Exception\\CorruptionException: boom"),
        (ErrorKind::Io, "UmaDB\\Exception\\IoException: boom"),
        (ErrorKind::Validation, "UmaDB\\Exception\\ValidationException: boom"),
    ];
    for (kind, text) in cases {
        assert_eq!(StoreError::new(kind, s("boom")).exception_message(), text);
    }
}

#[test]
fn descriptions_are_rendered() {
    let e = Event::__construct(s("Created"), s("x"), Some(vec![s("a"), s("b\"c")]), Some(s("u")));
    assert_eq!(e.__toString(), "Event(type=Created, tags=[\"a\", \"b\\\"c\"], uuid=Some(\"u\"))");
    let se = SequencedEvent { event: Event::__construct(s("T"), s(""), None, None), position: 42 };
    assert_eq!(se.__toString(), "SequencedEvent(position=42, event=Event(type=T, tags=[], uuid=None))");
}

#[test]
fn condition_getters_and_violation() {
    let i = QueryItem::__construct(Some(vec![s("Cancelled")]), Some(vec![s("order:1")]));
    let q = Query::__construct(Some(vec![&i]));
    let c = AppendCondition::__construct(&q, Some(2));
    assert_eq!(c.get_after(), Some(2));
    assert_eq!(c.get_fail_if_events_match().items.len(), 1);
    let at_two = vec![seq_event("Cancelled", &["order:1"], 2)];
    assert!(!c.is_violated_by(&at_two));
    let at_three = vec![seq_event("Created", &["order:1"], 1), seq_event("Cancelled", &["order:1"], 3)];
    assert!(c.is_violated_by(&at_three));
    let unbounded = AppendCondition::__construct(&q, None);
    assert!(unbounded.is_violated_by(&at_two));
}

#[test]
fn read_request_defaults_and_policy() {
    let r = ReadRequest::new(None, None, None, None, None);
    assert!(!r.backwards && !r.subscribe);
    let r = ReadRequest::new(None, Some(3), Some(true), Some(2), Some(true));
    assert!(r.backwards && !r.subscribe);
    let r = ReadRequest::new(None, None, Some(false), None, Some(true));
    assert!(r.subscribe);
}

#[test]
fn collector_stops_at_limit() {
    let mut c = ReadCollector::new(ReadRequest::new(None, None, None, Some(2), None));
    assert_eq!(c.accept(seq_event("T", &[], 1)).ok(), Some(ReadStep::Continue));
    assert_eq!(c.accept(seq_event("T", &[], 2)).ok(), Some(ReadStep::Done));
    assert_eq!(c.accept(seq_event("T", &[], 3)).ok(), Some(ReadStep::Done));
    let got = c.finish();
    assert_eq!(got.iter().map(|e| e.position).collect::<Vec<_>>(), vec![1, 2]);
}

#[test]
fn collector_refuses_out_of_order_backward_event() {
    let mut c = ReadCollector::new(ReadRequest::new(None, Some(5), Some(true), None, None));
    assert_eq!(c.accept(seq_event("T", &[], 5)).ok(), Some(ReadStep::Continue));
    assert_eq!(c.accept(seq_event("T", &[], 3)).ok(), Some(ReadStep::Continue));
    let err = c.accept(seq_event("T", &[], 4)).err().unwrap();
    assert_eq!(err.kind, ErrorKind::Corruption);
    let err = c.accept(seq_event("T", &[], 6)).err().unwrap();
    assert_eq!(err.kind, ErrorKind::Corruption);
    assert_eq!(c.finish().iter().map(|e| e.position).collect::<Vec<_>>(), vec![5, 3]);
}

#[test]
fn collector_refuses_event_outside_query() {
    let i = QueryItem::__construct(Some(vec![s("Created")]), None);
    let q = Query::__construct(Some(vec![&i]));
    let mut c = ReadCollector::new(ReadRequest::new(Some(&q), None, None, None, None));
    assert!(c.accept(seq_event("Created", &[], 1)).is_ok());
    assert_eq!(c.accept(seq_event("Deleted", &[], 2)).err().unwrap().kind, ErrorKind::Corruption);
}

#[test]
fn positions_render_in_decimal() {
    let mk = |p: u64| SequencedEvent { event: Event::__construct(s("T"), s(""), None, None), position: p };
    assert!(mk(0).__toString().starts_with("SequencedEvent(position=0, "));
    assert!(mk(1070).__toString().starts_with("SequencedEvent(position=1070, "));
    assert!(mk(u64::MAX).__toString().starts_with("SequencedEvent(position=18446744073709551615, "));
}

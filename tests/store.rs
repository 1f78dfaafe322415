use umadb_php::{AppendCondition, ErrorKind, Event, MemoryStore, Query, QueryItem, ReadRequest};

fn s(x: &str) -> String {
    x.to_string()
}

fn event(t: &str, tags: &[&str]) -> Event {
    Event::__construct(s(t), s("x"), Some(tags.iter().map(|x| s(x)).collect()), None)
}

fn query(types: &[&str], tags: &[&str]) -> Query {
    let i = QueryItem::__construct(
        Some(types.iter().map(|x| s(x)).collect()),
        Some(tags.iter().map(|x| s(x)).collect()),
    );
    Query::__construct(Some(vec![&i]))
}

fn store_with(n: usize) -> MemoryStore {
    let mut st = MemoryStore::new();
    for k in 0..n {
        let e = event("Created", &[&format!("order:{}", k + 10)]);
        st.append(&vec![&e], None).ok().unwrap();
    }
    st
}

#[test]
fn empty_store_first_append_and_read() {
    let mut st = MemoryStore::new();
    assert_eq!(st.head(), None);
    let e = event("Created", &["order:1"]);
    assert_eq!(st.append(&vec![&e], None).ok(), Some(1));
    let q = query(&["Created"], &[]);
    let got = st.read(&ReadRequest::new(Some(&q), None, None, None, None));
    assert_eq!(got.len(), 1);
    assert_eq!(got[0].position, 1);
    assert_eq!(got[0].event.event_type, "Created");
    assert_eq!(got[0].event.data, b"x".to_vec());
    assert_eq!(got[0].event.tags, vec![s("order:1")]);
    assert_eq!(got[0].event.uuid, None);
}

#[test]
fn conditional_append_succeeds_when_nothing_matches() {
    let mut st = store_with(5);
    assert_eq!(st.head(), Some(5));
    let q = query(&["Cancelled"], &["order:1"]);
    let c = AppendCondition::__construct(&q, Some(5));
    let e = event("Cancelled", &["order:1"]);
    assert_eq!(st.append(&vec![&e], Some(&c)).ok(), Some(6));
}

#[test]
fn conditional_append_fails_when_an_event_matches() {
    let mut st = store_with(4);
    st.append(&vec![&event("Cancelled", &["order:1"])], None).ok().unwrap();
    assert_eq!(st.head(), Some(5));
    let q = query(&["Cancelled"], &["order:1"]);
    let c = AppendCondition::__construct(&q, Some(3));
    let err = st.append(&vec![&event("Cancelled", &["order:1"])], Some(&c)).err().unwrap();
    assert_eq!(err.kind, ErrorKind::Integrity);
    assert_eq!(st.head(), Some(5));
}

#[test]
fn condition_at_head_counts_appended_events() {
    let mut st = store_with(3);
    let q = query(&[], &["order:10"]);
    let c = AppendCondition::__construct(&q, Some(3));
    let a = event("A", &[]);
    let b = event("B", &[]);
    assert_eq!(st.append(&vec![&a, &b], Some(&c)).ok(), Some(5));
}

#[test]
fn condition_boundary_is_exclusive() {
    let mut st = store_with(2);
    let q = query(&[], &["order:11"]);
    let at = AppendCondition::__construct(&q, Some(2));
    assert!(st.append(&vec![&event("A", &[])], Some(&at)).is_ok());
    let before = AppendCondition::__construct(&q, Some(1));
    assert_eq!(st.append(&vec![&event("A", &[])], Some(&before)).err().unwrap().kind, ErrorKind::Integrity);
}

#[test]
fn repeated_uuid_is_refused() {
    let mut st = MemoryStore::new();
    let id = s("67e55044-10b1-426f-9247-bb680e5fe0c8");
    let e = Event::__construct(s("T"), s("x"), None, Some(id.clone()));
    assert_eq!(st.append(&vec![&e], None).ok(), Some(1));
    let again = Event::__construct(s("T"), s("y"), None, Some(id));
    assert_eq!(st.append(&vec![&again], None).err().unwrap().kind, ErrorKind::Validation);
    assert_eq!(st.head(), Some(1));
    let f = Event::__construct(s("T"), s("x"), None, Some(s("00000000-0000-0000-0000-000000000001")));
    assert_eq!(st.append(&vec![&f, &f], None).err().unwrap().kind, ErrorKind::Validation);
    assert_eq!(st.head(), Some(1));
}

#[test]
fn repeated_uuid_with_condition_at_head_is_no_integrity_failure() {
    let mut st = store_with(2);
    let q = query(&["Cancelled"], &[]);
    let c = AppendCondition::__construct(&q, Some(2));
    let f = Event::__construct(s("T"), s("x"), None, Some(s("00000000-0000-0000-0000-000000000002")));
    let err = st.append(&vec![&f, &f], Some(&c)).err().unwrap();
    assert_eq!(err.kind, ErrorKind::Validation);
    assert_eq!(st.head(), Some(2));
}

#[test]
fn round_trip_keeps_fields_and_advances_position() {
    let mut st = store_with(2);
    let before = st.head().unwrap();
    let e = Event::__construct(
        s("Shipped"),
        s("parcel"),
        Some(vec![s("order:7"), s("carrier:x")]),
        Some(s("67e55044-10b1-426f-9247-bb680e5fe0c8")),
    );
    st.append(&vec![&e], None).ok().unwrap();
    let q = query(&["Shipped"], &["order:7"]);
    let got = st.read(&ReadRequest::new(Some(&q), None, None, None, None));
    assert_eq!(got.len(), 1);
    assert!(got[0].position > before);
    assert_eq!(got[0].event.event_type, e.event_type);
    assert_eq!(got[0].event.data, e.data);
    assert_eq!(got[0].event.tags, e.tags);
    assert_eq!(got[0].event.uuid, e.uuid);
}

#[test]
fn backward_read_descends_from_start() {
    let st = store_with(6);
    let got = st.read(&ReadRequest::new(None, Some(4), Some(true), None, None));
    assert_eq!(got.iter().map(|e| e.position).collect::<Vec<_>>(), vec![4, 3, 2, 1]);
    let limited = st.read(&ReadRequest::new(None, Some(4), Some(true), Some(2), None));
    assert_eq!(limited.iter().map(|e| e.position).collect::<Vec<_>>(), vec![4, 3]);
}

#[test]
fn forward_read_with_start_and_limit() {
    let st = store_with(6);
    let got = st.read(&ReadRequest::new(None, Some(3), None, Some(2), None));
    assert_eq!(got.iter().map(|e| e.position).collect::<Vec<_>>(), vec![3, 4]);
    let q = query(&[], &["order:12"]);
    let one = st.read(&ReadRequest::new(Some(&q), None, None, None, None));
    assert_eq!(one.iter().map(|e| e.position).collect::<Vec<_>>(), vec![3]);
}

#[test]
fn invalid_batch_leaves_store_unchanged() {
    let mut st = store_with(1);
    let bad = Event::__construct(s("T"), s("x"), None, Some(s("nope")));
    let good = event("T", &[]);
    let err = st.append(&vec![&good, &bad], None).err().unwrap();
    assert_eq!(err.kind, ErrorKind::Validation);
    assert_eq!(st.head(), Some(1));
    assert_eq!(st.append(&vec![], None).err().unwrap().kind, ErrorKind::Validation);
}

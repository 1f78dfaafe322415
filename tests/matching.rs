use umadb_php::{Event, Query, QueryItem};

fn s(x: &str) -> String {
    x.to_string()
}

fn event(t: &str, tags: &[&str]) -> Event {
    Event::__construct(s(t), s("payload"), Some(tags.iter().map(|x| s(x)).collect()), None)
}

fn item(types: &[&str], tags: &[&str]) -> QueryItem {
    QueryItem::__construct(
        Some(types.iter().map(|x| s(x)).collect()),
        Some(tags.iter().map(|x| s(x)).collect()),
    )
}

#[test]
fn empty_query_matches_everything() {
    let q = Query::__construct(None);
    assert!(q.matches(&event("Created", &[])));
    assert!(q.matches(&event("Anything", &["a", "b"])));
}

#[test]
fn item_with_no_constraints_matches() {
    let i = QueryItem::__construct(None, None);
    assert!(i.matches(&event("Created", &[])));
    assert!(i.matches(&event("Other", &["x"])));
}

#[test]
fn type_must_be_listed() {
    let i = item(&["Created", "Updated"], &[]);
    assert!(i.matches(&event("Updated", &["x"])));
    assert!(!i.matches(&event("Deleted", &["x"])));
}

#[test]
fn all_tags_must_be_present() {
    let i = item(&[], &["order:1", "customer:7"]);
    assert!(i.matches(&event("Created", &["customer:7", "order:1", "extra"])));
    assert!(!i.matches(&event("Created", &["order:1"])));
}

#[test]
fn event_without_tags_matches_only_tagless_items() {
    let e = event("Created", &[]);
    assert!(item(&["Created"], &[]).matches(&e));
    assert!(!item(&["Created"], &["order:1"]).matches(&e));
}

#[test]
fn matching_is_case_sensitive() {
    assert!(!item(&["created"], &[]).matches(&event("Created", &[])));
    assert!(!item(&[], &["Order:1"]).matches(&event("Created", &["order:1"])));
}

#[test]
fn duplicate_tags_are_harmless() {
    let i = item(&[], &["a", "a"]);
    assert!(i.matches(&event("T", &["a"])));
    assert!(item(&[], &["a"]).matches(&event("T", &["a", "a"])));
}

#[test]
fn query_is_a_disjunction_of_items() {
    let a = item(&["Created"], &["order:1"]);
    let b = item(&["Cancelled"], &[]);
    let q = Query::__construct(Some(vec![&a, &b]));
    assert!(q.matches(&event("Created", &["order:1"])));
    assert!(q.matches(&event("Cancelled", &["order:2"])));
    assert!(!q.matches(&event("Created", &["order:2"])));
}

#[test]
fn item_order_does_not_change_matching() {
    let a = item(&["Created"], &["order:1"]);
    let b = item(&["Cancelled"], &[]);
    let q1 = Query::__construct(Some(vec![&a, &b]));
    let q2 = Query::__construct(Some(vec![&b, &a]));
    for e in [event("Created", &["order:1"]), event("Cancelled", &[]), event("Other", &["order:1"])] {
        assert_eq!(q1.matches(&e), q2.matches(&e));
    }
}

#[test]
fn tag_order_does_not_change_matching() {
    let i1 = item(&["T"], &["a", "b"]);
    let i2 = item(&["T"], &["b", "a"]);
    for e in [event("T", &["a", "b"]), event("T", &["b"]), event("T", &["b", "a", "c"])] {
        assert_eq!(i1.matches(&e), i2.matches(&e));
    }
}

#[test]
fn getters_return_the_constructed_values() {
    let i = item(&["Created"], &["order:1"]);
    assert_eq!(i.get_types(), vec![s("Created")]);
    assert_eq!(i.get_tags(), vec![s("order:1")]);
    let q = Query::__construct(Some(vec![&i]));
    let items = q.get_items();
    assert_eq!(items.len(), 1);
    assert_eq!(items[0].types, vec![s("Created")]);
}

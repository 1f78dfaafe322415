use vstd::prelude::*;
use crate::event::{contains_string, copy_strings, Event, EventView};

verus! {

/// The abstract value of a [`QueryItem`].
pub struct QueryItemView {
    pub types: Seq<Seq<char>>,
    pub tags: Seq<Seq<char>>,
}

/// One conjunctive clause of a query: the event's type is one of `types`
/// (any type when `types` is empty), and every tag of `tags` is on the event.
pub struct QueryItem {
    pub types: Vec<String>,
    pub tags: Vec<String>,
}

/// A disjunction of query items. With no items it selects every event.
pub struct Query {
    pub items: Vec<QueryItem>,
}

impl View for QueryItem {
    type V = QueryItemView;

    open spec fn view(&self) -> QueryItemView {
        QueryItemView { types: self.types.deep_view(), tags: self.tags.deep_view() }
    }
}

impl View for Query {
    type V = Seq<QueryItemView>;

    open spec fn view(&self) -> Seq<QueryItemView> {
        Seq::new(self.items@.len(), |i: int| self.items@[i]@)
    }
}

/// Every tag the item asks for is on the event.
pub open spec fn tags_present(e: EventView, item: QueryItemView) -> bool {
    forall|k: int| 0 <= k < item.tags.len() ==> e.tags.contains(#[trigger] item.tags[k])
}

/// The event's type is admitted by the item.
pub open spec fn type_admitted(e: EventView, item: QueryItemView) -> bool {
    item.types.len() == 0 || item.types.contains(e.event_type)
}

/// An event matches a query item.
pub open spec fn item_matches(e: EventView, item: QueryItemView) -> bool {
    type_admitted(e, item) && tags_present(e, item)
}

/// An event matches a query: the query has no items, or one of them matches.
pub open spec fn query_matches(e: EventView, q: Seq<QueryItemView>) -> bool {
    q.len() == 0 || exists|k: int| 0 <= k < q.len() && item_matches(e, #[trigger] q[k])
}

/// An event matches a query exactly when the query has no items, or some item
/// of it has no types or lists the event's type, and asks for a set of tags
/// that is a subset of the event's tags.
pub proof fn lemma_matches_by_tag_sets(e: EventView, q: Seq<QueryItemView>)
    ensures
        query_matches(e, q) <==> (q.len() == 0 || exists|k: int|
            0 <= k < q.len() && (q[k].types.len() == 0 || q[k].types.contains(e.event_type))
                && (#[trigger] q[k].tags.to_set()).subset_of(e.tags.to_set())),
{
    assert forall|k: int| 0 <= k < q.len() implies (item_matches(e, q[k]) <==> ((q[k].types.len()
        == 0 || q[k].types.contains(e.event_type)) && (#[trigger] q[k].tags.to_set()).subset_of(
        e.tags.to_set()))) by {
        if q[k].tags.to_set().subset_of(e.tags.to_set()) {
            assert forall|j: int| 0 <= j < q[k].tags.len() implies e.tags.contains(
                #[trigger] q[k].tags[j]) by {
                assert(q[k].tags.to_set().contains(q[k].tags[j]));
            }
        }
    }
    if query_matches(e, q) && q.len() != 0 {
        let k = choose|k: int| 0 <= k < q.len() && item_matches(e, #[trigger] q[k]);
        assert(q[k].tags.to_set().subset_of(e.tags.to_set()));
    }
    if q.len() != 0 && exists|k: int|
        0 <= k < q.len() && (q[k].types.len() == 0 || q[k].types.contains(e.event_type))
            && (#[trigger] q[k].tags.to_set()).subset_of(e.tags.to_set()) {
        let k = choose|k: int|
            0 <= k < q.len() && (q[k].types.len() == 0 || q[k].types.contains(e.event_type))
                && (#[trigger] q[k].tags.to_set()).subset_of(e.tags.to_set());
        assert(item_matches(e, q[k]));
    }
}

/// Matching does not depend on the order of a query's items: two queries
/// whose items are the same multiset select the same events.
pub proof fn lemma_item_order_irrelevant(e: EventView, q1: Seq<QueryItemView>, q2: Seq<
    QueryItemView,
>)
    requires
        q1.to_multiset() == q2.to_multiset(),
    ensures
        query_matches(e, q1) == query_matches(e, q2),
{
    q1.to_multiset_ensures();
    q2.to_multiset_ensures();
    assert(q1.len() == q2.len());
    if exists|k: int| 0 <= k < q1.len() && item_matches(e, #[trigger] q1[k]) {
        let k = choose|k: int| 0 <= k < q1.len() && item_matches(e, #[trigger] q1[k]);
        assert(q1.contains(q1[k]));
        assert(q1.to_multiset().count(q1[k]) > 0);
        assert(q2.to_multiset().count(q1[k]) > 0);
        assert(q2.contains(q1[k]));
        let j = choose|j: int| 0 <= j < q2.len() && q2[j] == q1[k];
        assert(item_matches(e, q2[j]));
    }
    if exists|k: int| 0 <= k < q2.len() && item_matches(e, #[trigger] q2[k]) {
        let k = choose|k: int| 0 <= k < q2.len() && item_matches(e, #[trigger] q2[k]);
        assert(q2.contains(q2[k]));
        assert(q2.to_multiset().count(q2[k]) > 0);
        assert(q1.to_multiset().count(q2[k]) > 0);
        assert(q1.contains(q2[k]));
        let j = choose|j: int| 0 <= j < q1.len() && q1[j] == q2[k];
        assert(item_matches(e, q1[j]));
    }
}

/// Matching does not depend on the order of an item's types or tags: two
/// items whose types and tags are the same multisets match the same events.
pub proof fn lemma_tag_order_irrelevant(e: EventView, a: QueryItemView, b: QueryItemView)
    requires
        a.types.to_multiset() == b.types.to_multiset(),
        a.tags.to_multiset() == b.tags.to_multiset(),
    ensures
        item_matches(e, a) == item_matches(e, b),
{
    a.types.to_multiset_ensures();
    b.types.to_multiset_ensures();
    a.tags.to_multiset_ensures();
    b.tags.to_multiset_ensures();
    assert(a.types.len() == b.types.len());
    assert(a.types.contains(e.event_type) <==> a.types.to_multiset().count(e.event_type) > 0);
    assert(b.types.contains(e.event_type) <==> b.types.to_multiset().count(e.event_type) > 0);
    if tags_present(e, a) {
        assert forall|k: int| 0 <= k < b.tags.len() implies e.tags.contains(
            #[trigger] b.tags[k]) by {
            assert(b.tags.contains(b.tags[k]));
            assert(b.tags.to_multiset().count(b.tags[k]) > 0);
            assert(a.tags.contains(b.tags[k]));
        }
    }
    if tags_present(e, b) {
        assert forall|k: int| 0 <= k < a.tags.len() implies e.tags.contains(
            #[trigger] a.tags[k]) by {
            assert(a.tags.contains(a.tags[k]));
            assert(a.tags.to_multiset().count(a.tags[k]) > 0);
            assert(b.tags.contains(a.tags[k]));
        }
    }
}

impl Clone for QueryItem {
    fn clone(&self) -> (r: QueryItem)
        ensures
            r@ == self@,
    {
        QueryItem { types: copy_strings(&self.types), tags: copy_strings(&self.tags) }
    }
}

/// The strings an optional list supplies: none when it is absent.
pub open spec fn strings_or_empty(v: Option<Vec<String>>) -> Seq<Seq<char>> {
    match v {
        Some(t) => t.deep_view(),
        None => Seq::empty(),
    }
}

impl QueryItem {
    /// Builds an item; an absent list is an empty one.
    #[allow(non_snake_case)]
    pub fn __construct(types: Option<Vec<String>>, tags: Option<Vec<String>>) -> (r: QueryItem)
        ensures
            r@ == (QueryItemView { types: strings_or_empty(types), tags: strings_or_empty(tags) }),
    {
        let ghost given_types = types;
        let ghost given_tags = tags;
        let types = match types {
            Some(t) => t,
            None => Vec::new(),
        };
        let tags = match tags {
            Some(t) => t,
            None => Vec::new(),
        };
        proof {
            assert(types.deep_view() =~= strings_or_empty(given_types));
            assert(tags.deep_view() =~= strings_or_empty(given_tags));
        }
        QueryItem { types, tags }
    }

    pub fn get_types(&self) -> (r: Vec<String>)
        ensures
            r.deep_view() == self@.types,
    {
        copy_strings(&self.types)
    }

    pub fn get_tags(&self) -> (r: Vec<String>)
        ensures
            r.deep_view() == self@.tags,
    {
        copy_strings(&self.tags)
    }

    /// Whether `event` matches this item.
    pub fn matches(&self, event: &Event) -> (r: bool)
        ensures
            r == item_matches(event@, self@),
    {
        if self.types.len() > 0 && !contains_string(&self.types, &event.event_type) {
            return false;
        }
        let mut k: usize = 0;
        while k < self.tags.len()
            invariant
                k <= self.tags.len(),
                type_admitted(event@, self@),
                forall|j: int| 0 <= j < k ==> event@.tags.contains(#[trigger] self@.tags[j]),
            decreases self.tags.len() - k,
        {
            if !contains_string(&event.tags, &self.tags[k]) {
                assert(!event@.tags.contains(self@.tags[k as int]));
                return false;
            }
            k = k + 1;
        }
        true
    }
}

/// Copies a list of query items, keeping every item.
fn copy_items(v: &Vec<QueryItem>) -> (r: Vec<QueryItem>)
    ensures
        r@.len() == v@.len(),
        forall|j: int| 0 <= j < v@.len() ==> #[trigger] r@[j]@ == v@[j]@,
{
    let mut r: Vec<QueryItem> = Vec::new();
    let mut i: usize = 0;
    while i < v.len()
        invariant
            i <= v.len(),
            r@.len() == i,
            forall|j: int| 0 <= j < i ==> #[trigger] r@[j]@ == v@[j]@,
        decreases v.len() - i,
    {
        r.push(v[i].clone());
        i = i + 1;
    }
    r
}

impl Clone for Query {
    fn clone(&self) -> (r: Query)
        ensures
            r@ == self@,
    {
        let r = Query { items: copy_items(&self.items) };
        assert(r@ =~= self@);
        r
    }
}

impl Query {
    /// Builds a query from copies of the given items; an absent list is an
    /// empty one, which selects every event.
    #[allow(non_snake_case)]
    pub fn __construct(items: Option<Vec<&QueryItem>>) -> (r: Query)
        ensures
            r@.len() == (match items {
                Some(v) => v@.len(),
                None => 0,
            }),
            forall|j: int| 0 <= j < r@.len() ==> #[trigger] r@[j] == items->0@[j]@,
    {
        let mut out: Vec<QueryItem> = Vec::new();
        match items {
            Some(v) => {
                let mut i: usize = 0;
                while i < v.len()
                    invariant
                        i <= v.len(),
                        out@.len() == i,
                        items == Some(v),
                        forall|j: int| 0 <= j < i ==> #[trigger] out@[j]@ == v@[j]@,
                    decreases v.len() - i,
                {
                    out.push(v[i].clone());
                    i = i + 1;
                }
            },
            None => {},
        }
        Query { items: out }
    }

    pub fn get_items(&self) -> (r: Vec<QueryItem>)
        ensures
            r@.len() == self@.len(),
            forall|j: int| 0 <= j < self@.len() ==> #[trigger] r@[j]@ == self@[j],
    {
        copy_items(&self.items)
    }

    /// Whether `event` matches this query.
    pub fn matches(&self, event: &Event) -> (r: bool)
        ensures
            r == query_matches(event@, self@),
    {
        if self.items.len() == 0 {
            return true;
        }
        let mut k: usize = 0;
        while k < self.items.len()
            invariant
                k <= self.items.len(),
                forall|j: int| 0 <= j < k ==> !item_matches(event@, #[trigger] self@[j]),
            decreases self.items.len() - k,
        {
            if self.items[k].matches(event) {
                assert(item_matches(event@, self@[k as int]));
                return true;
            }
            k = k + 1;
        }
        false
    }
}

} // verus!

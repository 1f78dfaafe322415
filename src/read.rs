use vstd::prelude::*;
use vstd::string::StringExecFns;
use crate::condition::log_view;
use crate::error::{ErrorKind, StoreError};
use crate::event::{SequencedEvent, SequencedEventView};
use crate::query::{query_matches, Query, QueryItemView};

verus! {

/// The abstract value of a [`ReadRequest`].
pub struct ReadRequestView {
    pub query: Option<Seq<QueryItemView>>,
    pub start: Option<u64>,
    pub backwards: bool,
    pub limit: Option<u32>,
    pub subscribe: bool,
}

/// The parameters of one read. An absent query selects every event. A
/// backward read is a bounded scan of history, so it never subscribes.
pub struct ReadRequest {
    pub query: Option<Query>,
    pub start: Option<u64>,
    pub backwards: bool,
    pub limit: Option<u32>,
    pub subscribe: bool,
}

pub open spec fn option_query_view(q: Option<Query>) -> Option<Seq<QueryItemView>> {
    match q {
        Some(q) => Some(q@),
        None => None,
    }
}

impl View for ReadRequest {
    type V = ReadRequestView;

    open spec fn view(&self) -> ReadRequestView {
        ReadRequestView {
            query: option_query_view(self.query),
            start: self.start,
            backwards: self.backwards,
            limit: self.limit,
            subscribe: self.subscribe,
        }
    }
}

/// The read selects the event.
pub open spec fn selects(query: Option<Seq<QueryItemView>>, e: SequencedEventView) -> bool {
    match query {
        Some(q) => query_matches(e.event, q),
        None => true,
    }
}

/// The position lies on the read's side of its start: at or after it going
/// forward, at or before it going backward.
pub open spec fn in_window(position: u64, start: Option<u64>, backwards: bool) -> bool {
    match start {
        Some(s) => if backwards {
            position <= s
        } else {
            position >= s
        },
        None => true,
    }
}

/// Position `b` may follow position `a` in the read's direction.
pub open spec fn follows(a: u64, b: u64, backwards: bool) -> bool {
    if backwards {
        b < a
    } else {
        b > a
    }
}

/// Positions strictly increase going forward, strictly decrease going backward.
pub open spec fn strictly_ordered(s: Seq<SequencedEventView>, backwards: bool) -> bool {
    forall|i: int, j: int|
        0 <= i < j < s.len() ==> follows(#[trigger] s[i].position, #[trigger] s[j].position, backwards)
}

/// The read has delivered all the events its limit allows.
pub open spec fn limit_reached(limit: Option<u32>, n: nat) -> bool {
    match limit {
        Some(l) => n >= l,
        None => false,
    }
}

/// What a read may yield: events in its direction, on its side of the start,
/// each selected by its query, and no more than its limit.
pub open spec fn valid_read(req: ReadRequestView, s: Seq<SequencedEventView>) -> bool {
    &&& strictly_ordered(s, req.backwards)
    &&& forall|i: int| 0 <= i < s.len() ==> in_window(#[trigger] s[i].position, req.start, req.backwards)
    &&& forall|i: int| 0 <= i < s.len() ==> selects(req.query, #[trigger] s[i])
    &&& match req.limit {
        Some(l) => s.len() <= l,
        None => true,
    }
}

/// The store may hand over `e` next, after the events `s` of this read.
pub open spec fn acceptable(req: ReadRequestView, s: Seq<SequencedEventView>, e: SequencedEventView) -> bool {
    &&& in_window(e.position, req.start, req.backwards)
    &&& selects(req.query, e)
    &&& (s.len() == 0 || follows(s.last().position, e.position, req.backwards))
}

impl ReadRequest {
    /// Gathers the parameters of a read: `backwards` and `subscribe` default
    /// to false, and `subscribe` is dropped when reading backward.
    pub fn new(
        query: Option<&Query>,
        start: Option<u64>,
        backwards: Option<bool>,
        limit: Option<u32>,
        subscribe: Option<bool>,
    ) -> (r: ReadRequest)
        ensures
            r@.query == (match query {
                Some(q) => Some(q@),
                None => None::<Seq<QueryItemView>>,
            }),
            r@.start == start,
            r@.backwards == (backwards == Some(true)),
            r@.limit == limit,
            r@.subscribe == (subscribe == Some(true) && backwards != Some(true)),
    {
        let backwards = match backwards {
            Some(b) => b,
            None => false,
        };
        let subscribe = match subscribe {
            Some(s) => s && !backwards,
            None => false,
        };
        let query = match query {
            Some(q) => Some(q.clone()),
            None => None,
        };
        ReadRequest { query, start, backwards, limit, subscribe }
    }

    /// Whether the read selects `e`.
    pub fn selects(&self, e: &SequencedEvent) -> (r: bool)
        ensures
            r == selects(self@.query, e@),
    {
        match &self.query {
            Some(q) => q.matches(&e.event),
            None => true,
        }
    }
}

/// What a read does after taking an event.
#[derive(PartialEq, Eq, Structural, Clone, Copy, Debug)]
pub enum ReadStep {
    /// Ask the store for the next event.
    Continue,
    /// The limit is reached: stop reading.
    Done,
}

/// The events a read has taken so far, each checked against the read's
/// parameters as it arrives.
pub struct ReadCollector {
    request: ReadRequest,
    events: Vec<SequencedEvent>,
}

/// The abstract value of a [`ReadCollector`].
pub struct ReadCollectorView {
    pub request: ReadRequestView,
    pub events: Seq<SequencedEventView>,
}

impl View for ReadCollector {
    type V = ReadCollectorView;

    closed spec fn view(&self) -> ReadCollectorView {
        ReadCollectorView { request: self.request@, events: log_view(self.events@) }
    }
}

impl ReadCollector {
    /// The events taken so far are what the read may yield.
    pub closed spec fn wf(&self) -> bool {
        valid_read(self.request@, log_view(self.events@))
    }

    /// Starts a read with nothing taken yet.
    pub fn new(request: ReadRequest) -> (r: ReadCollector)
        ensures
            r.wf(),
            r@.request == request@,
            r@.events.len() == 0,
    {
        let r = ReadCollector { request, events: Vec::new() };
        assert(log_view(r.events@) =~= Seq::<SequencedEventView>::empty());
        r
    }

    /// Takes the next event that the store handed over. The read stops once
    /// its limit is reached; an event that breaks the read's order, lies
    /// beyond its start, or is not selected by its query is a corruption
    /// failure, and nothing is taken.
    pub fn accept(&mut self, e: SequencedEvent) -> (r: Result<ReadStep, StoreError>)
        requires
            old(self).wf(),
        ensures
            final(self).wf(),
            final(self)@.request == old(self)@.request,
            limit_reached(old(self)@.request.limit, old(self)@.events.len()) ==> (r is Ok && r->Ok_0
                == ReadStep::Done && final(self)@.events == old(self)@.events),
            !limit_reached(old(self)@.request.limit, old(self)@.events.len()) && acceptable(
                old(self)@.request,
                old(self)@.events,
                e@,
            ) ==> r is Ok && final(self)@.events == old(self)@.events.push(e@) && (r->Ok_0 == ReadStep::Done <==> limit_reached(old(self)@.request.limit, final(self)@.events.len())),
            !limit_reached(old(self)@.request.limit, old(self)@.events.len()) && !acceptable(
                old(self)@.request,
                old(self)@.events,
                e@,
            ) ==> r is Err && r->Err_0.kind == ErrorKind::Corruption && final(self)@.events == old(
                self,
            )@.events,
    {
        let n = self.events.len();
        let full = match self.request.limit {
            Some(l) => n >= l as usize,
            None => false,
        };
        if full {
            return Ok(ReadStep::Done);
        }
        let in_window = match self.request.start {
            Some(s) => if self.request.backwards {
                e.position <= s
            } else {
                e.position >= s
            },
            None => true,
        };
        let in_order = if n == 0 {
            true
        } else {
            let last = self.events[n - 1].position;
            if self.request.backwards {
                e.position < last
            } else {
                e.position > last
            }
        };
        if !in_window || !in_order || !self.request.selects(&e) {
            return Err(
                StoreError::new(
                    ErrorKind::Corruption,
                    String::from_str("event does not fit the read"),
                ),
            );
        }
        let ghost before = log_view(self.events@);
        self.events.push(e);
        proof {
            let after = log_view(self.events@);
            assert(after =~= before.push(e@));
            assert forall|i: int, j: int| 0 <= i < j < after.len() implies follows(
                #[trigger] after[i].position,
                #[trigger] after[j].position,
                self.request.backwards,
            ) by {
                if j == after.len() - 1 && i < j - 1 {
                    assert(follows(before[i].position, before[j - 1].position, self.request.backwards));
                }
            }
            assert(forall|i: int| 0 <= i < before.len() ==> #[trigger] after[i] == before[i]);
        }
        let taken = self.events.len();
        let done = match self.request.limit {
            Some(l) => taken >= l as usize,
            None => false,
        };
        if done {
            Ok(ReadStep::Done)
        } else {
            Ok(ReadStep::Continue)
        }
    }

    /// The events taken, in the order taken.
    pub fn finish(self) -> (r: Vec<SequencedEvent>)
        requires
            self.wf(),
        ensures
            log_view(r@) == self@.events,
            valid_read(self@.request, log_view(r@)),
    {
        self.events
    }
}

} // verus!

use vstd::prelude::*;
use vstd::string::StringExecFns;
use crate::append::{all_uuids_valid, prepare_append};
use crate::condition::{log_view, violated, AppendCondition, AppendConditionView};
use crate::error::{ErrorKind, StoreError};
use crate::event::{event_of_wire, wire_of, Event, SequencedEvent, SequencedEventView, WireEvent, WireEventView};
use crate::identifier::{parsed_uuid, uuid_text_of};
use crate::query::{
    item_matches, lemma_item_order_irrelevant, lemma_tag_order_irrelevant, query_matches,
};
use crate::read::{follows, in_window, selects, strictly_ordered, valid_read, ReadRequest, ReadRequestView};

verus! {

/// Positions run 1, 2, 3, ... in log order.
pub open spec fn contiguous(log: Seq<SequencedEventView>) -> bool {
    forall|i: int| 0 <= i < log.len() ==> #[trigger] log[i].position == i + 1
}

/// The position of the last stored event, absent for an empty log.
pub open spec fn head_of(log: Seq<SequencedEventView>) -> Option<u64> {
    if log.len() == 0 {
        None
    } else {
        Some(log.last().position)
    }
}

/// The read takes this stored event, limit aside.
pub open spec fn picks(req: ReadRequestView, e: SequencedEventView) -> bool {
    in_window(e.position, req.start, req.backwards) && selects(req.query, e)
}

/// The events of `log[0..n]` that the read takes, in log order.
pub open spec fn picked_forward(log: Seq<SequencedEventView>, req: ReadRequestView, n: nat) -> Seq<
    SequencedEventView,
>
    decreases n,
{
    if n == 0 || n > log.len() {
        Seq::empty()
    } else {
        let rest = picked_forward(log, req, (n - 1) as nat);
        if picks(req, log[n - 1]) {
            rest.push(log[n - 1])
        } else {
            rest
        }
    }
}

/// The events of `log[n..]` that the read takes, last stored first.
pub open spec fn picked_backward(log: Seq<SequencedEventView>, req: ReadRequestView, n: nat) -> Seq<
    SequencedEventView,
>
    decreases log.len() - n,
{
    if n >= log.len() {
        Seq::empty()
    } else {
        let rest = picked_backward(log, req, n + 1);
        if picks(req, log[n as int]) {
            rest.push(log[n as int])
        } else {
            rest
        }
    }
}

/// At most `limit` events, the first ones.
pub open spec fn take_limit(s: Seq<SequencedEventView>, limit: Option<u32>) -> Seq<SequencedEventView> {
    match limit {
        Some(l) => if s.len() > l {
            s.take(l as int)
        } else {
            s
        },
        None => s,
    }
}

/// What a read of `log` yields.
pub open spec fn read_of(log: Seq<SequencedEventView>, req: ReadRequestView) -> Seq<SequencedEventView> {
    if req.backwards {
        take_limit(picked_backward(log, req, 0), req.limit)
    } else {
        take_limit(picked_forward(log, req, log.len()), req.limit)
    }
}

/// Some identifier of the batch is already stored, or occurs twice in it.
pub open spec fn uuid_conflict(stored: Seq<Option<u128>>, batch: Seq<WireEventView>) -> bool {
    exists|i: int|
        0 <= i < batch.len() && (#[trigger] batch[i].uuid) is Some && (stored.contains(batch[i].uuid)
            || exists|j: int| 0 <= j < batch.len() && j != i && batch[j].uuid == batch[i].uuid)
}

/// The log after a batch is stored at the positions following it.
pub open spec fn appended(log: Seq<SequencedEventView>, batch: Seq<WireEventView>) -> Seq<
    SequencedEventView,
> {
    log + Seq::new(
        batch.len(),
        |i: int| SequencedEventView { event: event_of_wire(batch[i]), position: (log.len() + i + 1) as u64 },
    )
}

/// The identifiers after a batch is stored.
pub open spec fn appended_ids(ids: Seq<Option<u128>>, batch: Seq<WireEventView>) -> Seq<Option<u128>> {
    ids + Seq::new(batch.len(), |i: int| batch[i].uuid)
}

/// The store form of a batch of events.
pub open spec fn batch_of(events: Seq<&Event>) -> Seq<WireEventView> {
    Seq::new(events.len(), |i: int| wire_of(events[i]@))
}

proof fn lemma_forward_prefix(log: Seq<SequencedEventView>, req: ReadRequestView, n: nat, m: nat)
    requires
        n <= m <= log.len(),
    ensures
        picked_forward(log, req, n).len() <= picked_forward(log, req, m).len(),
        picked_forward(log, req, m).take(picked_forward(log, req, n).len() as int)
            == picked_forward(log, req, n),
    decreases m - n,
{
    let small = picked_forward(log, req, n);
    if n == m {
        assert(small.take(small.len() as int) =~= small);
    } else {
        lemma_forward_prefix(log, req, n, (m - 1) as nat);
        let mid = picked_forward(log, req, (m - 1) as nat);
        assert(picked_forward(log, req, m).take(small.len() as int) =~= mid.take(small.len() as int));
    }
}

proof fn lemma_backward_prefix(log: Seq<SequencedEventView>, req: ReadRequestView, n: nat, m: nat)
    requires
        n <= m <= log.len(),
    ensures
        picked_backward(log, req, m).len() <= picked_backward(log, req, n).len(),
        picked_backward(log, req, n).take(picked_backward(log, req, m).len() as int)
            == picked_backward(log, req, m),
    decreases m - n,
{
    let small = picked_backward(log, req, m);
    if n == m {
        assert(small.take(small.len() as int) =~= small);
    } else {
        lemma_backward_prefix(log, req, n + 1, m);
        let mid = picked_backward(log, req, n + 1);
        assert(picked_backward(log, req, n).take(small.len() as int) =~= mid.take(small.len() as int));
    }
}

proof fn lemma_forward_valid(log: Seq<SequencedEventView>, req: ReadRequestView, n: nat)
    requires
        contiguous(log),
        n <= log.len(),
    ensures
        strictly_ordered(picked_forward(log, req, n), false),
        forall|i: int|
            0 <= i < picked_forward(log, req, n).len() ==> picks(req, #[trigger] picked_forward(log, req, n)[i])
                && picked_forward(log, req, n)[i].position <= n,
    decreases n,
{
    if n > 0 {
        lemma_forward_valid(log, req, (n - 1) as nat);
        assert(log[n - 1].position == n);
    }
}

proof fn lemma_backward_valid(log: Seq<SequencedEventView>, req: ReadRequestView, n: nat)
    requires
        contiguous(log),
        n <= log.len(),
    ensures
        strictly_ordered(picked_backward(log, req, n), true),
        forall|i: int|
            0 <= i < picked_backward(log, req, n).len() ==> picks(req, #[trigger] picked_backward(log, req, n)[i])
                && picked_backward(log, req, n)[i].position > n,
    decreases log.len() - n,
{
    if n < log.len() {
        lemma_backward_valid(log, req, n + 1);
        assert(log[n as int].position == n + 1);
    }
}

/// Every read of a log whose positions run from 1 yields what a read may:
/// events strictly ordered in its direction (strictly decreasing positions
/// for a backward read), on its side of the start (at or below it going
/// backward), each matching its query, within its limit.
pub proof fn lemma_read_valid(log: Seq<SequencedEventView>, req: ReadRequestView)
    requires
        contiguous(log),
    ensures
        valid_read(req, read_of(log, req)),
{
    let all = if req.backwards {
        lemma_backward_valid(log, req, 0);
        picked_backward(log, req, 0)
    } else {
        lemma_forward_valid(log, req, log.len());
        picked_forward(log, req, log.len())
    };
    let r = read_of(log, req);
    assert(r.len() <= all.len());
    assert(forall|i: int| 0 <= i < r.len() ==> #[trigger] r[i] == all[i]);
    assert forall|i: int| 0 <= i < r.len() implies picks(req, #[trigger] r[i]) by {
        assert(picks(req, all[i]));
    }
    assert forall|i: int, j: int| 0 <= i < j < r.len() implies follows(
        #[trigger] r[i].position,
        #[trigger] r[j].position,
        req.backwards,
    ) by {
        assert(follows(all[i].position, all[j].position, req.backwards));
    }
}

proof fn lemma_picked_forward_same(
    log: Seq<SequencedEventView>,
    r1: ReadRequestView,
    r2: ReadRequestView,
    n: nat,
)
    requires
        forall|e: SequencedEventView| picks(r1, e) == picks(r2, e),
    ensures
        picked_forward(log, r1, n) == picked_forward(log, r2, n),
    decreases n,
{
    if n > 0 {
        lemma_picked_forward_same(log, r1, r2, (n - 1) as nat);
    }
}

proof fn lemma_picked_backward_same(
    log: Seq<SequencedEventView>,
    r1: ReadRequestView,
    r2: ReadRequestView,
    n: nat,
)
    requires
        forall|e: SequencedEventView| picks(r1, e) == picks(r2, e),
    ensures
        picked_backward(log, r1, n) == picked_backward(log, r2, n),
    decreases log.len() - n,
{
    if n < log.len() {
        lemma_picked_backward_same(log, r1, r2, n + 1);
    }
}

/// Two reads with the same start, direction and limit, whose queries hold
/// the same items in any order, yield the same events in the same order.
pub proof fn lemma_read_item_order(
    log: Seq<SequencedEventView>,
    r1: ReadRequestView,
    r2: ReadRequestView,
)
    requires
        r1.start == r2.start,
        r1.backwards == r2.backwards,
        r1.limit == r2.limit,
        r1.query is Some,
        r2.query is Some,
        r1.query->0.to_multiset() == r2.query->0.to_multiset(),
    ensures
        read_of(log, r1) == read_of(log, r2),
{
    assert forall|e: SequencedEventView| picks(r1, e) == picks(r2, e) by {
        lemma_item_order_irrelevant(e.event, r1.query->0, r2.query->0);
    }
    lemma_picked_forward_same(log, r1, r2, log.len());
    lemma_picked_backward_same(log, r1, r2, 0);
}

/// Two reads with the same start, direction and limit, whose queries have
/// the same number of items and pair each item with one of the same types and
/// tags in any order, yield the same events in the same order.
pub proof fn lemma_read_tag_order(
    log: Seq<SequencedEventView>,
    r1: ReadRequestView,
    r2: ReadRequestView,
)
    requires
        r1.start == r2.start,
        r1.backwards == r2.backwards,
        r1.limit == r2.limit,
        r1.query is Some,
        r2.query is Some,
        r1.query->0.len() == r2.query->0.len(),
        forall|k: int|
            0 <= k < r1.query->0.len() ==> (#[trigger] r1.query->0[k]).types.to_multiset()
                == r2.query->0[k].types.to_multiset() && r1.query->0[k].tags.to_multiset()
                == r2.query->0[k].tags.to_multiset(),
    ensures
        read_of(log, r1) == read_of(log, r2),
{
    let q1 = r1.query->0;
    let q2 = r2.query->0;
    assert forall|e: SequencedEventView| picks(r1, e) == picks(r2, e) by {
        assert forall|k: int| 0 <= k < q1.len() implies item_matches(e.event, #[trigger] q1[k])
            == item_matches(e.event, q2[k]) by {
            lemma_tag_order_irrelevant(e.event, q1[k], q2[k]);
        }
        if query_matches(e.event, q1) && q1.len() > 0 {
            let k = choose|k: int| 0 <= k < q1.len() && item_matches(e.event, #[trigger] q1[k]);
            assert(item_matches(e.event, q2[k]));
        }
        if query_matches(e.event, q2) && q2.len() > 0 {
            let k = choose|k: int| 0 <= k < q2.len() && item_matches(e.event, #[trigger] q2[k]);
            assert(item_matches(e.event, q1[k]));
        }
    }
    lemma_picked_forward_same(log, r1, r2, log.len());
    lemma_picked_backward_same(log, r1, r2, 0);
}

/// In a log whose positions run from 1, the head is the number of events.
pub proof fn lemma_head_is_length(log: Seq<SequencedEventView>)
    requires
        contiguous(log),
    ensures
        log.len() == 0 ==> head_of(log) is None,
        log.len() > 0 ==> head_of(log) == Some(log.len() as u64),
{
}

/// A condition whose boundary is the head of the log holds on it, whatever
/// its query: no stored event stands after the head.
pub proof fn lemma_condition_at_head(log: Seq<SequencedEventView>, c: AppendConditionView)
    requires
        contiguous(log),
        c.after == head_of(log),
        log.len() > 0,
    ensures
        !violated(c, log),
{
    assert(log.last().position == log.len());
}

/// An event that is stored and then read back, forward from the start of
/// the log with no limit by a query that matches it, is the last event the
/// read yields; it carries the event's fields and a position after the
/// previous head. An event comes back equal to itself when it has no
/// identifier, or when its identifier is the canonical text of a value that
/// the parser reads back from that text.
pub proof fn lemma_round_trip(log: Seq<SequencedEventView>, e: Event, req: ReadRequestView)
    requires
        contiguous(log),
        log.len() + 1 <= u64::MAX,
        !req.backwards,
        req.start is None,
        req.limit is None,
        match req.query {
            Some(q) => query_matches(e@, q),
            None => true,
        },
    ensures
        ({
            let after = appended(log, seq![wire_of(e@)]);
            let r = read_of(after, req);
            &&& r.len() > 0
            &&& r.last() == (SequencedEventView {
                event: event_of_wire(wire_of(e@)),
                position: (log.len() + 1) as u64,
            })
            &&& match head_of(log) {
                Some(p) => p < r.last().position,
                None => true,
            }
        }),
        e@.uuid is None ==> event_of_wire(wire_of(e@)) == e@,
        forall|v: u128|
            e@.uuid == Some(#[trigger] uuid_text_of(v)) && parsed_uuid(uuid_text_of(v)) == Some(v)
                ==> event_of_wire(wire_of(e@)) == e@,
{
    let after = appended(log, seq![wire_of(e@)]);
    let back = event_of_wire(wire_of(e@));
    assert(after[log.len() as int].event == back);
    assert(back.event_type == e@.event_type && back.tags == e@.tags);
    match req.query {
        Some(q) => {
            if q.len() > 0 {
                let k = choose|k: int| 0 <= k < q.len() && item_matches(e@, #[trigger] q[k]);
                assert(item_matches(back, q[k]));
            }
        },
        None => {},
    }
    assert(picks(req, after[log.len() as int]));
    if log.len() > 0 {
        assert(log.last().position == log.len());
    }
}

/// The read has taken as many events as its limit allows.
fn limit_full(n: usize, limit: Option<u32>) -> (r: bool)
    ensures
        r == (match limit {
            Some(l) => n >= l,
            None => false,
        }),
{
    match limit {
        Some(l) => n >= l as usize,
        None => false,
    }
}

/// Whether the read takes the stored event, limit aside.
fn takes(req: &ReadRequest, e: &SequencedEvent) -> (r: bool)
    ensures
        r == picks(req@, e@),
{
    let in_window = match req.start {
        Some(s) => if req.backwards {
            e.position <= s
        } else {
            e.position >= s
        },
        None => true,
    };
    in_window && req.selects(e)
}

/// A reference model of an event log, held in memory, for testing and
/// mocking: positions from 1, atomic conditional appends, identifiers that
/// are never stored twice.
pub struct MemoryStore {
    events: Vec<SequencedEvent>,
    ids: Vec<Option<u128>>,
}

impl View for MemoryStore {
    type V = Seq<SequencedEventView>;

    closed spec fn view(&self) -> Seq<SequencedEventView> {
        log_view(self.events@)
    }
}

impl MemoryStore {
    /// The identifiers of the stored events, in log order.
    pub closed spec fn ids(&self) -> Seq<Option<u128>> {
        self.ids@
    }

    pub open spec fn wf(&self) -> bool {
        contiguous(self@) && self.ids().len() == self@.len()
    }

    pub fn new() -> (r: MemoryStore)
        ensures
            r.wf(),
            r@.len() == 0,
            r.ids().len() == 0,
    {
        let r = MemoryStore { events: Vec::new(), ids: Vec::new() };
        assert(log_view(r.events@) =~= Seq::<SequencedEventView>::empty());
        r
    }

    /// The position of the most recent event, absent when nothing is stored.
    pub fn head(&self) -> (r: Option<u64>)
        requires
            self.wf(),
        ensures
            r == head_of(self@),
    {
        let n = self.events.len();
        if n == 0 {
            None
        } else {
            Some(self.events[n - 1].position)
        }
    }

    /// The events a read of the log yields, in the read's direction.
    pub fn read(&self, req: &ReadRequest) -> (r: Vec<SequencedEvent>)
        requires
            self.wf(),
        ensures
            log_view(r@) == read_of(self@, req@),
            valid_read(req@, log_view(r@)),
    {
        let ghost lv = self@;
        let n = self.events.len();
        let mut out: Vec<SequencedEvent> = Vec::new();
        if !req.backwards {
            let mut i: usize = 0;
            while i < n && !limit_full(out.len(), req.limit)
                invariant
                    i <= n,
                    n == lv.len(),
                    lv == self@,
                    log_view(out@) == picked_forward(lv, req@, i as nat),
                    req.limit is Some ==> out@.len() <= req.limit->0,
                decreases n - i,
            {
                let ghost before = log_view(out@);
                if takes(req, &self.events[i]) {
                    out.push(self.events[i].clone());
                }
                i = i + 1;
                proof {
                    assert(lv[i - 1] == self.events@[i - 1]@);
                    assert(log_view(out@) =~= picked_forward(lv, req@, i as nat));
                }
            }
            proof {
                lemma_forward_prefix(lv, req@, i as nat, n as nat);
                let all = picked_forward(lv, req@, n as nat);
                assert(take_limit(all, req.limit) =~= log_view(out@));
            }
        } else {
            let mut i: usize = n;
            while i > 0 && !limit_full(out.len(), req.limit)
                invariant
                    i <= n,
                    n == lv.len(),
                    lv == self@,
                    log_view(out@) == picked_backward(lv, req@, i as nat),
                    req.limit is Some ==> out@.len() <= req.limit->0,
                decreases i,
            {
                i = i - 1;
                if takes(req, &self.events[i]) {
                    out.push(self.events[i].clone());
                }
                proof {
                    assert(lv[i as int] == self.events@[i as int]@);
                    assert(log_view(out@) =~= picked_backward(lv, req@, i as nat));
                }
            }
            proof {
                lemma_backward_prefix(lv, req@, 0, i as nat);
                let all = picked_backward(lv, req@, 0);
                assert(take_limit(all, req.limit) =~= log_view(out@));
            }
        }
        proof {
            lemma_read_valid(lv, req@);
        }
        out
    }

    /// Whether a stored identifier or another of the batch equals one of the
    /// batch's identifiers.
    fn has_conflict(&self, batch: &Vec<WireEvent>) -> (r: bool)
        ensures
            r == uuid_conflict(self.ids(), Seq::new(batch@.len(), |i: int| batch@[i]@)),
    {
        let ghost b = Seq::new(batch@.len(), |i: int| batch@[i]@);
        let mut i: usize = 0;
        while i < batch.len()
            invariant
                i <= batch.len(),
                b == Seq::new(batch@.len(), |i: int| batch@[i]@),
                forall|k: int|
                    0 <= k < i ==> !((#[trigger] b[k].uuid) is Some && (self.ids().contains(b[k].uuid)
                        || exists|j: int| 0 <= j < b.len() && j != k && b[j].uuid == b[k].uuid)),
            decreases batch.len() - i,
        {
            if let Some(v) = batch[i].uuid {
                let mut s: usize = 0;
                while s < self.ids.len()
                    invariant
                        s <= self.ids.len(),
                        i < batch.len(),
                        b == Seq::new(batch@.len(), |i: int| batch@[i]@),
                        batch@[i as int].uuid == Some(v),
                        forall|t: int| 0 <= t < s ==> self.ids@[t] != Some(v),
                    decreases self.ids.len() - s,
                {
                    if self.ids[s] == Some(v) {
                        assert(self.ids()[s as int] == b[i as int].uuid);
                        assert(self.ids().contains(b[i as int].uuid));
                        assert(uuid_conflict(self.ids(), b));
                        return true;
                    }
                    s = s + 1;
                }
                let mut j: usize = 0;
                while j < batch.len()
                    invariant
                        j <= batch.len(),
                        i < batch.len(),
                        b == Seq::new(batch@.len(), |i: int| batch@[i]@),
                        batch@[i as int].uuid == Some(v),
                        forall|t: int| 0 <= t < j && t != i ==> b[t].uuid != Some(v),
                    decreases batch.len() - j,
                {
                    if j != i && batch[j].uuid == Some(v) {
                        assert(b[j as int].uuid == b[i as int].uuid);
                        assert(uuid_conflict(self.ids(), b));
                        return true;
                    }
                    j = j + 1;
                }
            }
            i = i + 1;
        }
        false
    }

    /// Stores a batch of events atomically, after the last stored one, and
    /// returns the new head position. Refused, with nothing stored: an empty
    /// batch or one holding an identifier that is not a UUID (validation);
    /// a batch whose condition matches a stored event after its boundary
    /// (integrity); a batch with an identifier already stored or repeated
    /// (validation). An integrity failure thus comes exactly when the
    /// condition matches.
    pub fn append(&mut self, events: &Vec<&Event>, condition: Option<&AppendCondition>) -> (r: Result<
        u64,
        StoreError,
    >)
        requires
            old(self).wf(),
            old(self)@.len() + events@.len() < usize::MAX,
        ensures
            final(self).wf(),
            !(events@.len() > 0 && all_uuids_valid(events@.map_values(|e: &Event| *e))) ==> r is Err
                && r->Err_0.kind == ErrorKind::Validation && final(self)@ == old(self)@,
            events@.len() > 0 && all_uuids_valid(events@.map_values(|e: &Event| *e)) ==> {
                let batch = batch_of(events@);
                let refused = match condition {
                    Some(c) => violated(c@, old(self)@),
                    None => false,
                };
                &&& refused ==> r is Err && r->Err_0.kind == ErrorKind::Integrity
                    && final(self)@ == old(self)@
                &&& !refused && uuid_conflict(old(self).ids(), batch) ==> r is Err
                    && r->Err_0.kind == ErrorKind::Validation && final(self)@ == old(self)@
                &&& !refused && !uuid_conflict(old(self).ids(), batch) ==> r == Ok::<u64, StoreError>(
                    (old(self)@.len() + events@.len()) as u64,
                ) && final(self)@ == appended(old(self)@, batch) && final(self).ids()
                    == appended_ids(old(self).ids(), batch)
            },
            r is Ok ==> forall|i: int, v: u128|
                #![trigger events@[i], uuid_text_of(v)]
                0 <= i < events@.len() && events@[i]@.uuid == Some(uuid_text_of(v))
                    ==> parsed_uuid(uuid_text_of(v)) == Some(v),
            (r is Err && r->Err_0.kind == ErrorKind::Integrity) <==> (events@.len() > 0
                && all_uuids_valid(events@.map_values(|e: &Event| *e)) && match condition {
                Some(c) => violated(c@, old(self)@),
                None => false,
            }),
    {
        let batch = match prepare_append(events) {
            Ok(b) => b,
            Err(e) => {
                return Err(e);
            },
        };
        proof {
            assert(Seq::new(batch@.len(), |i: int| batch@[i]@) =~= batch_of(events@));
        }
        if let Some(c) = condition {
            if c.is_violated_by(&self.events) {
                return Err(
                    StoreError::new(ErrorKind::Integrity, String::from_str("condition failed")),
                );
            }
        }
        if self.has_conflict(&batch) {
            return Err(
                StoreError::new(ErrorKind::Validation, String::from_str("duplicate event identifier")),
            );
        }
        let ghost old_log = self@;
        let ghost old_ids = self.ids();
        let ghost b = batch_of(events@);
        let count = batch.len();
        let mut batch = batch;
        let mut k: usize = 0;
        while k < count
            invariant
                k <= count,
                count == b.len(),
                old_log.len() + count < usize::MAX,
                batch@.len() == count - k,
                forall|t: int| 0 <= t < batch@.len() ==> #[trigger] batch@[t]@ == b[t + k],
                self@ == appended(old_log, b.take(k as int)),
                self.ids() == appended_ids(old_ids, b.take(k as int)),
                self.wf(),
                self@.len() == old_log.len() + k,
            decreases count - k,
        {
            let w = batch.remove(0);
            assert(w@ == b[k as int]);
            let ghost before = self@;
            let ghost before_ids = self.ids();
            let position = (self.events.len() + 1) as u64;
            assert(position == old_log.len() + k + 1);
            self.ids.push(w.uuid);
            let e = SequencedEvent::from_wire(w, position);
            self.events.push(e);
            k = k + 1;
            proof {
                assert(self@ =~= before.push(e@));
                assert(forall|t: int| 0 <= t < batch@.len() ==> #[trigger] batch@[t]@ == b[t + k]);
                assert(b.take(k as int) =~= b.take(k - 1).push(b[k - 1]));
                assert(self@ =~= appended(old_log, b.take(k as int)));
                assert(self.ids() =~= appended_ids(old_ids, b.take(k as int)));
            }
        }
        proof {
            assert(b.take(count as int) =~= b);
        }
        Ok((self.events.len()) as u64)
    }
}

} // verus!

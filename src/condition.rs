use vstd::prelude::*;
use crate::event::{SequencedEvent, SequencedEventView};
use crate::query::{query_matches, Query, QueryItemView};

verus! {

/// The abstract value of an [`AppendCondition`].
pub struct AppendConditionView {
    pub fail_if_events_match: Seq<QueryItemView>,
    pub after: Option<u64>,
}

/// The optimistic-concurrency guard of an append: the append is refused when
/// an event matching `fail_if_events_match` stands at a position strictly
/// greater than `after` (at any position when `after` is absent).
pub struct AppendCondition {
    pub fail_if_events_match: Query,
    pub after: Option<u64>,
}

impl View for AppendCondition {
    type V = AppendConditionView;

    open spec fn view(&self) -> AppendConditionView {
        AppendConditionView { fail_if_events_match: self.fail_if_events_match@, after: self.after }
    }
}

/// A stored event falls in the range the condition watches.
pub open spec fn after_boundary(position: u64, after: Option<u64>) -> bool {
    match after {
        Some(p) => position > p,
        None => true,
    }
}

/// The stored event at index `k` of `log` makes the condition fail.
pub open spec fn violates_at(
    c: AppendConditionView,
    log: Seq<SequencedEventView>,
    k: int,
) -> bool {
    after_boundary(log[k].position, c.after) && query_matches(log[k].event, c.fail_if_events_match)
}

/// Some stored event of `log` makes the condition fail.
pub open spec fn violated(c: AppendConditionView, log: Seq<SequencedEventView>) -> bool {
    exists|k: int| 0 <= k < log.len() && #[trigger] violates_at(c, log, k)
}

/// The abstract values of a list of stored events.
pub open spec fn log_view(log: Seq<SequencedEvent>) -> Seq<SequencedEventView> {
    Seq::new(log.len(), |i: int| log[i]@)
}

impl Clone for AppendCondition {
    fn clone(&self) -> (r: AppendCondition)
        ensures
            r@ == self@,
    {
        AppendCondition { fail_if_events_match: self.fail_if_events_match.clone(), after: self.after }
    }
}

impl AppendCondition {
    #[allow(non_snake_case)]
    pub fn __construct(fail_if_events_match: &Query, after: Option<u64>) -> (r: AppendCondition)
        ensures
            r@ == (AppendConditionView { fail_if_events_match: fail_if_events_match@, after }),
    {
        AppendCondition { fail_if_events_match: fail_if_events_match.clone(), after }
    }

    pub fn get_fail_if_events_match(&self) -> (r: Query)
        ensures
            r@ == self@.fail_if_events_match,
    {
        self.fail_if_events_match.clone()
    }

    pub fn get_after(&self) -> (r: Option<u64>)
        ensures
            r == self@.after,
    {
        self.after
    }

    /// Whether some event of `log` makes this condition fail: one that stands
    /// after the boundary position and matches the condition's query.
    pub fn is_violated_by(&self, log: &Vec<SequencedEvent>) -> (r: bool)
        ensures
            r == violated(self@, log_view(log@)),
    {
        let ghost lv = log_view(log@);
        let mut k: usize = 0;
        while k < log.len()
            invariant
                k <= log.len(),
                lv == log_view(log@),
                forall|j: int| 0 <= j < k ==> !#[trigger] violates_at(self@, lv, j),
            decreases log.len() - k,
        {
            let in_range = match self.after {
                Some(p) => log[k].position > p,
                None => true,
            };
            if in_range && self.fail_if_events_match.matches(&log[k].event) {
                assert(violates_at(self@, lv, k as int));
                return true;
            }
            k = k + 1;
        }
        false
    }
}

} // verus!

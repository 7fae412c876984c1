//! Keeping execution states: filters, an in-memory store, and the row in which
//! a state is stored.

use crate::model;
use crate::model::{ExecutionPattern, ExecutionState, ExecutionStatus, StateView};
use crate::names;
use crate::sorting;
use crate::sorting::sort_by_key;
use crate::text;
use crate::text::quoted;
use crate::text_map;
use crate::text_map::TextMap;
use crate::time;
use crate::time::{format_stamp, parse_stamp, utc_now, Span, Timestamp, STAMP_PATTERN};
use crate::value::{Value, ValueView};
use vstd::prelude::*;
use vstd::string::*;

verus! {

/// A failure that a backend reported.
#[derive(Debug)]
pub struct PersistenceError(
    /// The message of the backend.
    pub String,
);

impl PersistenceError {
    /// The message of the error.
    pub fn to_string(&self) -> (message: String)
        ensures
            message@ == "firefly/orchestration: persistence: "@ + self.0@,
    {
        let mut out: String = "firefly/orchestration: persistence: ".to_owned();
        out.append(self.0.as_str());
        out
    }
}

/// Which executions to list.
#[derive(Debug, Clone, Copy, PartialEq, Eq, Structural)]
pub struct ExecutionFilter {
    /// Only those in this status.
    pub status: Option<ExecutionStatus>,
    /// Only those of this pattern.
    pub pattern: Option<ExecutionPattern>,
}

/// Whether a filter lets a state through.
pub open spec fn passes(filter: ExecutionFilter, state: StateView) -> bool {
    &&& filter.status matches Some(status) ==> state.status == status
    &&& filter.pattern matches Some(pattern) ==> state.pattern == pattern
}

/// The conditions of a stored query for a filter.
pub open spec fn condition_text(filter: ExecutionFilter) -> Seq<char> {
    match (filter.status, filter.pattern) {
        (Some(_), Some(_)) => " AND status = ?1"@ + " AND pattern = ?2"@,
        (Some(_), None) => " AND status = ?1"@,
        (None, Some(_)) => " AND pattern = ?1"@,
        (None, None) => Seq::empty(),
    }
}

/// The parameters of those conditions.
pub open spec fn condition_params(filter: ExecutionFilter) -> Seq<Seq<char>> {
    let first = match filter.status {
        Some(status) => seq![model::status_wire(status)],
        None => Seq::empty(),
    };
    match filter.pattern {
        Some(pattern) => first.push(model::pattern_wire(pattern)),
        None => first,
    }
}

impl ExecutionFilter {
    /// The filter that lets every state through.
    pub fn all() -> (filter: ExecutionFilter)
        ensures
            filter.status is None,
            filter.pattern is None,
    {
        ExecutionFilter { status: None, pattern: None }
    }

    /// The filter, only for one status.
    pub fn status(self, status: ExecutionStatus) -> (filter: ExecutionFilter)
        ensures
            filter == (ExecutionFilter { status: Some(status), ..self }),
    {
        ExecutionFilter { status: Some(status), ..self }
    }

    /// The filter, only for one pattern.
    pub fn pattern(self, pattern: ExecutionPattern) -> (filter: ExecutionFilter)
        ensures
            filter == (ExecutionFilter { pattern: Some(pattern), ..self }),
    {
        ExecutionFilter { pattern: Some(pattern), ..self }
    }

    /// Whether the filter lets a state through.
    pub fn matches(&self, state: &ExecutionState) -> (yes: bool)
        ensures
            yes == passes(*self, state@),
            yes <==> (self.status is None || self.status == Some(state.status)) && (
            self.pattern is None || self.pattern == Some(state.pattern)),
    {
        let status_fits: bool = match self.status {
            Some(status) => state.status == status,
            None => true,
        };
        let pattern_fits: bool = match self.pattern {
            Some(pattern) => state.pattern == pattern,
            None => true,
        };
        status_fits && pattern_fits
    }

    /// The conditions of a stored query for the filter, and their parameters.
    pub fn conditions(&self) -> (query: (String, Vec<String>))
        ensures
            query.0@ == condition_text(*self),
            text::texts(query.1@) == condition_params(*self),
    {
        let mut sql: String = String::new();
        let mut params: Vec<String> = Vec::new();
        if let Some(status) = self.status {
            sql.append(" AND status = ?1");
            params.push(status.as_str().to_owned());
        }
        if let Some(pattern) = self.pattern {
            if params.len() == 0 {
                sql.append(" AND pattern = ?1");
            } else {
                sql.append(" AND pattern = ?2");
            }
            params.push(pattern.as_str().to_owned());
        }
        proof {
            assert(text::texts(params@) =~= condition_params(*self));
            assert(sql@ =~= condition_text(*self));
        }
        (sql, params)
    }
}

/// Whether a state is stale: not terminal, and last changed before an instant.
pub open spec fn stale(state: StateView, before: Timestamp) -> bool {
    !model::terminal(state.status) && time::instant(state.updated_at) < time::instant(before)
}

/// Whether a state is past keeping: terminal, and completed before an instant,
/// or last changed before it where the completion is not recorded.
pub open spec fn expired(state: StateView, cutoff: Timestamp) -> bool {
    model::terminal(state.status) && time::instant(
        match state.completed_at {
            Some(at) => at,
            None => state.updated_at,
        },
    ) < time::instant(cutoff)
}

/// A claimed execution cannot be claimed again under the same cutoff: the
/// claim itself refreshes the state.
pub proof fn law_second_claim_loses(
    state: StateView,
    before: Timestamp,
    status: ExecutionStatus,
    now: Timestamp,
)
    requires
        time::instant(now) >= time::instant(before),
    ensures
        !stale(model::transitioned(state, status, now), before),
{
}

/// A claim with a terminal status completes the execution.
pub proof fn law_terminal_claim_completes(
    state: StateView,
    status: ExecutionStatus,
    now: Timestamp,
)
    requires
        model::terminal(status),
    ensures
        model::transitioned(state, status, now).completed_at == Some(now),
{
}

/// Claims an execution that was loaded, if it is stale: the state to store, at
/// the claimed status.
pub fn claim(
    loaded: Option<ExecutionState>,
    before: Timestamp,
    claimed_status: ExecutionStatus,
    now: Timestamp,
) -> (claimed: Option<ExecutionState>)
    ensures
        claimed is Some <==> loaded is Some && stale(loaded->0@, before),
        claimed is Some <==> loaded is Some && time::instant(loaded->0.updated_at) < time::instant(
            before,
        ) && !(loaded->0.status is Completed || loaded->0.status is Failed
            || loaded->0.status is Cancelled || loaded->0.status is TimedOut
            || loaded->0.status is Confirmed || loaded->0.status is Canceled
            || loaded->0.status is Compensated),
        claimed matches Some(state) ==> state.status == claimed_status && state.updated_at == now
            && state.correlation_id@ == loaded->0.correlation_id@,
        claimed is Some ==> {
            &&& claimed->0@ == model::transitioned(loaded->0@, claimed_status, now)
            &&& claimed->0.payload == loaded->0.payload
        },
{
    match loaded {
        Some(found) => {
            let mut state: ExecutionState = found;
            if state.is_terminal() || !state.updated_at.is_before(before) {
                return None;
            }
            state.transition_at(claimed_status, now);
            Some(state)
        },
        None => None,
    }
}

/// Executions in memory, by correlation id.
#[derive(Debug)]
pub struct MemoryPersistence {
    /// The states.
    pub store: TextMap<ExecutionState>,
}

/// The places of the states that a filter lets through, with the keys by which
/// they are listed.
pub open spec fn matching(
    entries: Seq<(String, ExecutionState)>,
    filter: ExecutionFilter,
) -> Seq<(i128, usize)>
    decreases entries.len(),
{
    if entries.len() == 0 {
        Seq::empty()
    } else {
        let front = matching(entries.drop_last(), filter);
        let state = entries.last().1@;
        if passes(filter, state) {
            front.push((time::instant(state.started_at) as i128, (entries.len() - 1) as usize))
        } else {
            front
        }
    }
}

/// The stale states, in order of their ids.
pub open spec fn stale_states(
    entries: Seq<(String, ExecutionState)>,
    before: Timestamp,
) -> Seq<StateView>
    decreases entries.len(),
{
    if entries.len() == 0 {
        Seq::empty()
    } else {
        let front = stale_states(entries.drop_last(), before);
        if stale(entries.last().1@, before) {
            front.push(entries.last().1@)
        } else {
            front
        }
    }
}

/// What some states hold.
pub open spec fn state_views(states: Seq<ExecutionState>) -> Seq<StateView> {
    Seq::new(states.len(), |i: int| states[i]@)
}

/// Whether each state of a list has a well-formed payload.
pub open spec fn good_states(states: Seq<ExecutionState>) -> bool {
    forall|i: int| 0 <= i < states.len() ==> (#[trigger] states[i]).payload.well_formed()
}

/// Every place in a listing is one that the filter lets through, and every
/// such place is in it.
pub proof fn lemma_matching(entries: Seq<(String, ExecutionState)>, filter: ExecutionFilter)
    requires
        entries.len() <= usize::MAX,
    ensures
        forall|j: int|
            0 <= j < matching(entries, filter).len() ==> {
                let p = #[trigger] matching(entries, filter)[j];
                &&& p.1 < entries.len()
                &&& passes(filter, entries[p.1 as int].1@)
                &&& p.0 == time::instant(entries[p.1 as int].1@.started_at)
            },
        forall|i: int|
            0 <= i < entries.len() && passes(filter, (#[trigger] entries[i]).1@) ==> exists|j: int|
                0 <= j < matching(entries, filter).len() && (#[trigger] matching(
                    entries,
                    filter,
                )[j]).1 == i,
    decreases entries.len(),
{
    if entries.len() > 0 {
        let front = entries.drop_last();
        lemma_matching(front, filter);
        let prev = matching(front, filter);
        let list = matching(entries, filter);
        assert forall|j: int| 0 <= j < list.len() implies {
            let p = #[trigger] list[j];
            &&& p.1 < entries.len()
            &&& passes(filter, entries[p.1 as int].1@)
            &&& p.0 == time::instant(entries[p.1 as int].1@.started_at)
        } by {
            if j < prev.len() {
                assert(list[j] == prev[j]);
                assert(front[prev[j].1 as int] == entries[prev[j].1 as int]);
            }
        }
        assert forall|i: int|
            0 <= i < entries.len() && passes(filter, (#[trigger] entries[i]).1@) implies exists|
            j: int,
        |
            0 <= j < list.len() && (#[trigger] list[j]).1 == i by {
            if i < front.len() {
                assert(front[i] == entries[i]);
                let j = choose|j: int| 0 <= j < prev.len() && (#[trigger] prev[j]).1 == i;
                assert(list[j].1 == i);
            } else {
                assert(list[prev.len() as int].1 == i);
            }
        }
    }
}

impl MemoryPersistence {
    /// Whether the store is in order: each state under its own id.
    pub open spec fn well_formed(self) -> bool {
        &&& self.store.well_formed()
        &&& forall|i: int|
            0 <= i < self.store.entries@.len() ==> {
                &&& (#[trigger] self.store.entries@[i]).1.payload.well_formed()
                &&& self.store.entries@[i].1.correlation_id@ == self.store.entries@[i].0@
            }
    }

    /// An empty store.
    pub fn new() -> (memory: MemoryPersistence)
        ensures
            memory.well_formed(),
            memory.store@ == Map::<Seq<char>, ExecutionState>::empty(),
    {
        MemoryPersistence { store: TextMap::new() }
    }

    proof fn lemma_after_insert(before: TextMap<ExecutionState>, later: MemoryPersistence, state: ExecutionState)
        requires
            (MemoryPersistence { store: before }).well_formed(),
            later.store.well_formed(),
            later.store@ == before@.insert(state.correlation_id@, state),
            state.payload.well_formed(),
        ensures
            later.well_formed(),
    {
        assert forall|i: int| 0 <= i < later.store.entries@.len() implies {
            &&& (#[trigger] later.store.entries@[i]).1.payload.well_formed()
            &&& later.store.entries@[i].1.correlation_id@ == later.store.entries@[i].0@
        } by {
            let k = later.store.entries@[i].0@;
            later.store.lemma_entry(i);
            if k != state.correlation_id@ {
                assert(before@.contains_key(k));
                names::lemma_place(text_map::keys_of(before.entries@), k);
                let p = names::place(text_map::keys_of(before.entries@), k);
                assert(before.entries@[p].1.payload.well_formed());
            }
        }
    }

    /// Stores a state, in place of any with its id.
    pub fn save(&mut self, state: ExecutionState)
        requires
            old(self).well_formed(),
            state.payload.well_formed(),
        ensures
            final(self).well_formed(),
            final(self).store@ == old(self).store@.insert(state.correlation_id@, state),
    {
        let ghost before = self.store;
        let id: String = state.correlation_id.clone();
        self.store.insert(id, state);
        proof {
            MemoryPersistence::lemma_after_insert(before, *self, state);
        }
    }

    /// The state with an id.
    pub fn load(&self, correlation_id: &str) -> (state: Option<ExecutionState>)
        requires
            self.well_formed(),
        ensures
            match state {
                Some(found) => {
                    &&& self.store@.contains_key(correlation_id@)
                    &&& found@ == self.store@[correlation_id@]@
                    &&& found.payload.well_formed()
                },
                None => !self.store@.contains_key(correlation_id@),
            },
    {
        match self.store.index_of(correlation_id) {
            Some(i) => {
                assert(self.store.entries@[i as int].1.payload.well_formed());
                Some(self.store.entries[i].1.duplicate())
            },
            None => None,
        }
    }

    /// The states that a filter lets through, by the time at which they
    /// started; those of the same time in order of their ids.
    pub fn list(&self, filter: ExecutionFilter) -> (states: Vec<ExecutionState>)
        requires
            self.well_formed(),
        ensures
            good_states(states@),
            ({
                let order = sorting::stable(matching(self.store.entries@, filter));
                &&& states@.len() == order.len()
                &&& forall|i: int|
                    0 <= i < states@.len() ==> (#[trigger] states@[i])@
                        == self.store.entries@[order[i].1 as int].1@
            }),
            forall|id: Seq<char>| #[trigger]
                self.store@.contains_key(id) ==> (state_views(states@).contains(self.store@[id]@)
                    <==> (filter.status is None || filter.status == Some(self.store@[id].status))
                    && (filter.pattern is None || filter.pattern == Some(
                    self.store@[id].pattern,
                ))),
            forall|i: int|
                0 <= i < states@.len() ==> self.store@.contains_key(
                    (#[trigger] states@[i]).correlation_id@,
                ) && self.store@[states@[i].correlation_id@]@ == states@[i]@,
            forall|a: int, b: int|
                0 <= a <= b < states@.len() ==> time::instant((#[trigger] states@[a]).started_at)
                    <= time::instant((#[trigger] states@[b]).started_at),
    {
        let mut pairs: Vec<(i128, usize)> = Vec::new();
        let mut i: usize = 0;
        while i < self.store.entries.len()
            invariant
                i <= self.store.entries@.len(),
                pairs@ == matching(self.store.entries@.take(i as int), filter),
            decreases self.store.entries.len() - i,
        {
            proof {
                let next = self.store.entries@.take(i + 1);
                assert(next.drop_last() =~= self.store.entries@.take(i as int));
                assert(next.last() == self.store.entries@[i as int]);
            }
            if filter.matches(&self.store.entries[i].1) {
                pairs.push((self.store.entries[i].1.started_at.as_nanos(), i));
            }
            i += 1;
        }
        let ghost all = self.store.entries@;
        proof {
            assert(all.len() == self.store.entries.len());
            assert(all.take(all.len() as int) =~= all);
            lemma_matching(all, filter);
            sorting::law_stable_sorts(pairs@);
        }
        let ghost list = pairs@;
        let order: Vec<(i128, usize)> = sort_by_key(pairs);
        let mut out: Vec<ExecutionState> = Vec::new();
        let mut k: usize = 0;
        while k < order.len()
            invariant
                k <= order@.len(),
                all == self.store.entries@,
                all.len() <= usize::MAX,
                list == matching(all, filter),
                order@ == sorting::stable(list),
                self.well_formed(),
                out@.len() == k,
                good_states(out@),
                forall|j: int|
                    0 <= j < k ==> (#[trigger] out@[j])@ == all[order@[j].1 as int].1@,
            decreases order.len() - k,
        {
            proof {
                lemma_matching(all, filter);
                sorting::lemma_stable_member(list, k as int);
                let m = choose|m: int| 0 <= m < list.len() && list[m] == order@[k as int];
                assert(list[m].1 < all.len());
                assert(all[order@[k as int].1 as int].1.payload.well_formed());
            }
            out.push(self.store.entries[order[k].1].1.duplicate());
            k += 1;
        }
        proof {
            let views = state_views(out@);
            let keys = text_map::keys_of(all);
            assert forall|i: int| 0 <= i < out@.len() implies {
                &&& order@[i].1 < all.len()
                &&& passes(filter, all[order@[i].1 as int].1@)
                &&& (#[trigger] out@[i])@ == all[order@[i].1 as int].1@
                &&& self.store@.contains_key(out@[i].correlation_id@)
                &&& self.store@[out@[i].correlation_id@]@ == out@[i]@
            } by {
                sorting::lemma_stable_member(list, i);
                let m = choose|m: int| 0 <= m < list.len() && list[m] == order@[i];
                assert(list[m].1 < all.len());
                self.store.lemma_entry(order@[i].1 as int);
            }
            assert forall|id: Seq<char>| #[trigger] self.store@.contains_key(id) implies (
            views.contains(self.store@[id]@) <==> passes(filter, self.store@[id]@)) by {
                names::lemma_place(keys, id);
                let p = names::place(keys, id);
                self.store.lemma_entry(p);
                law_listing_is_sorted_and_exact(all, filter, p);
                if passes(filter, all[p].1@) {
                    let j = choose|j: int| 0 <= j < order@.len() && (#[trigger] order@[j]).1 == p;
                    assert(views[j] == out@[j]@);
                }
                if views.contains(self.store@[id]@) {
                    let j = choose|j: int| 0 <= j < views.len() && views[j] == self.store@[id]@;
                    assert(out@[j]@ == self.store@[id]@);
                }
            }
            if out@.len() > 0 {
                assert(out@[0]@ == all[order@[0].1 as int].1@);
                law_listing_is_sorted_and_exact(all, filter, order@[0].1 as int);
            }
            assert forall|a: int, b: int| 0 <= a <= b < out@.len() implies time::instant(
                (#[trigger] out@[a]).started_at,
            ) <= time::instant((#[trigger] out@[b]).started_at) by {
                assert(out@[a]@.started_at == out@[a].started_at);
                assert(out@[b]@.started_at == out@[b].started_at);
                let _ = (order@[a], order@[b]);
            }
        }
        out
    }

    /// The stale states, in order of their ids.
    pub fn list_stale(&self, before: Timestamp) -> (states: Vec<ExecutionState>)
        requires
            self.well_formed(),
        ensures
            good_states(states@),
            state_views(states@) == stale_states(self.store.entries@, before),
            forall|id: Seq<char>| #[trigger]
                self.store@.contains_key(id) ==> (state_views(states@).contains(self.store@[id]@)
                    <==> time::instant(self.store@[id].updated_at) < time::instant(before)
                        && !(self.store@[id].status is Completed
                            || self.store@[id].status is Failed
                            || self.store@[id].status is Cancelled
                            || self.store@[id].status is TimedOut
                            || self.store@[id].status is Confirmed
                            || self.store@[id].status is Canceled
                            || self.store@[id].status is Compensated)),
            forall|i: int|
                0 <= i < states@.len() ==> self.store@.contains_key(
                    (#[trigger] states@[i]).correlation_id@,
                ) && self.store@[states@[i].correlation_id@]@ == states@[i]@,
    {
        let mut out: Vec<ExecutionState> = Vec::new();
        let mut i: usize = 0;
        assert(state_views(out@) =~= Seq::empty());
        while i < self.store.entries.len()
            invariant
                i <= self.store.entries@.len(),
                self.well_formed(),
                good_states(out@),
                state_views(out@) == stale_states(self.store.entries@.take(i as int), before),
            decreases self.store.entries.len() - i,
        {
            proof {
                let next = self.store.entries@.take(i + 1);
                assert(next.drop_last() =~= self.store.entries@.take(i as int));
                assert(next.last() == self.store.entries@[i as int]);
            }
            let state: &ExecutionState = &self.store.entries[i].1;
            if !state.is_terminal() && state.updated_at.is_before(before) {
                let ghost prev = state_views(out@);
                out.push(state.duplicate());
                assert(state_views(out@) =~= prev.push(self.store.entries@[i as int].1@));
            }
            i += 1;
        }
        assert(self.store.entries@.take(self.store.entries@.len() as int)
            =~= self.store.entries@);
        proof {
            let list = state_views(out@);
            lemma_stale_states(*self, before);
            assert forall|id: Seq<char>| #[trigger] self.store@.contains_key(id) implies (
            list.contains(self.store@[id]@) <==> stale(self.store@[id]@, before)) by {}
            assert forall|i: int| 0 <= i < out@.len() implies self.store@.contains_key(
                (#[trigger] out@[i]).correlation_id@,
            ) && self.store@[out@[i].correlation_id@]@ == out@[i]@ by {
                assert(list[i] == out@[i]@);
            }
        }
        out
    }

    /// Claims a stale execution now, as [`MemoryPersistence::claim_stale_at`]
    /// does.
    pub fn claim_stale(
        &mut self,
        correlation_id: &str,
        before: Timestamp,
        claimed_status: ExecutionStatus,
    ) -> (claimed: Option<ExecutionState>)
        requires
            old(self).well_formed(),
        ensures
            final(self).well_formed(),
            exists|now: Timestamp|
                now.well_formed() && #[trigger] is_claim(
                    old(self).store@,
                    final(self).store@,
                    correlation_id@,
                    before,
                    claimed_status,
                    now,
                    claimed,
                ),
            claimed matches Some(state) ==> state.payload.well_formed(),
            claimed is Some <==> {
                let stored = old(self).store@;
                &&& stored.contains_key(correlation_id@)
                &&& time::instant(stored[correlation_id@].updated_at) < time::instant(before)
                &&& !(stored[correlation_id@].status is Completed
                    || stored[correlation_id@].status is Failed
                    || stored[correlation_id@].status is Cancelled
                    || stored[correlation_id@].status is TimedOut
                    || stored[correlation_id@].status is Confirmed
                    || stored[correlation_id@].status is Canceled
                    || stored[correlation_id@].status is Compensated)
            },
            claimed matches Some(state) ==> state.status == claimed_status
                && state.correlation_id@ == correlation_id@,
            claimed is None ==> final(self).store@ == old(self).store@,
    {
        let now: Timestamp = utc_now();
        self.claim_stale_at(correlation_id, before, claimed_status, now)
    }

    /// Claims a stale execution: if the id is stored and its state is stale,
    /// the state moves to `claimed_status` at `now`, and is given. Otherwise
    /// nothing changes.
    pub fn claim_stale_at(
        &mut self,
        correlation_id: &str,
        before: Timestamp,
        claimed_status: ExecutionStatus,
        now: Timestamp,
    ) -> (claimed: Option<ExecutionState>)
        requires
            old(self).well_formed(),
        ensures
            final(self).well_formed(),
            is_claim(
                old(self).store@,
                final(self).store@,
                correlation_id@,
                before,
                claimed_status,
                now,
                claimed,
            ),
            claimed matches Some(state) ==> state.payload.well_formed(),
            claimed is Some <==> {
                let stored = old(self).store@;
                &&& stored.contains_key(correlation_id@)
                &&& time::instant(stored[correlation_id@].updated_at) < time::instant(before)
                &&& !(stored[correlation_id@].status is Completed
                    || stored[correlation_id@].status is Failed
                    || stored[correlation_id@].status is Cancelled
                    || stored[correlation_id@].status is TimedOut
                    || stored[correlation_id@].status is Confirmed
                    || stored[correlation_id@].status is Canceled
                    || stored[correlation_id@].status is Compensated)
            },
            claimed matches Some(state) ==> state.status == claimed_status
                && state.correlation_id@ == correlation_id@,
            claimed is None ==> final(self).store@ == old(self).store@,
            claimed matches Some(state) ==> state.updated_at == now && final(self).store@.contains_key(correlation_id@) && final(self).store@[correlation_id@]@
                == state@,
    {
        let at: usize = match self.store.index_of(correlation_id) {
            Some(at) => at,
            None => {
                return None;
            },
        };
        let ghost keys = text_map::keys_of(self.store.entries@);
        proof {
            names::lemma_place(keys, correlation_id@);
            assert(self.store.entries@[at as int].1.payload.well_formed());
        }
        let found: ExecutionState = self.store.entries[at].1.duplicate();
        let state: ExecutionState = match claim(Some(found), before, claimed_status, now) {
            Some(state) => state,
            None => {
                return None;
            },
        };
        let copy: ExecutionState = state.duplicate();
        let ghost before_map = self.store;
        let id: String = correlation_id.to_owned();
        assert(state.correlation_id@ == correlation_id@) by {
            assert(keys[at as int] == self.store.entries@[at as int].0@);
        }
        self.store.insert(id, state);
        proof {
            MemoryPersistence::lemma_after_insert(before_map, *self, state);
            assert(self.store@.remove(correlation_id@) =~= before_map@.remove(correlation_id@));
        }
        Some(copy)
    }

    /// Removes an execution, if it is stored.
    pub fn delete(&mut self, correlation_id: &str) -> (found: bool)
        requires
            old(self).well_formed(),
        ensures
            final(self).well_formed(),
            final(self).store@ == old(self).store@.remove(correlation_id@),
            found == old(self).store@.contains_key(correlation_id@),
    {
        let ghost before = self.store;
        let removed: Option<ExecutionState> = self.store.remove(correlation_id);
        proof {
            assert forall|i: int| 0 <= i < self.store.entries@.len() implies {
                &&& (#[trigger] self.store.entries@[i]).1.payload.well_formed()
                &&& self.store.entries@[i].1.correlation_id@ == self.store.entries@[i].0@
            } by {
                let k = self.store.entries@[i].0@;
                self.store.lemma_entry(i);
                assert(before@.contains_key(k));
                names::lemma_place(text_map::keys_of(before.entries@), k);
                let p = names::place(text_map::keys_of(before.entries@), k);
                assert(before.entries@[p].1.payload.well_formed());
            }
        }
        removed.is_some()
    }

    /// Removes the executions that are past keeping by now, as
    /// [`MemoryPersistence::cleanup_before`] does.
    pub fn cleanup(&mut self, older_than: Span) -> (removed: usize)
        requires
            old(self).well_formed(),
            older_than.nanos < 1_000_000_000,
            0 <= older_than.secs <= 8_334_601_228_799,
        ensures
            final(self).well_formed(),
            exists|now: Timestamp, cutoff: Timestamp|
                now.well_formed() && now.secs >= 0 && #[trigger] time::instant(now)
                    == time::instant(cutoff) + time::span_nanos(older_than) && #[trigger] is_cleanup(
                    old(self).store@,
                    final(self).store@,
                    cutoff,
                ),
            removed == old(self).store.entries@.len() - final(self).store.entries@.len(),
    {
        let now: Timestamp = utc_now();
        let cutoff: Timestamp = now.minus(older_than);
        self.cleanup_before(cutoff)
    }

    /// Removes the executions that are past keeping, and counts them.
    pub fn cleanup_before(&mut self, cutoff: Timestamp) -> (removed: usize)
        requires
            old(self).well_formed(),
        ensures
            final(self).well_formed(),
            is_cleanup(old(self).store@, final(self).store@, cutoff),
            removed == old(self).store.entries@.len() - final(self).store.entries@.len(),
    {
        let ghost all = self.store.entries@;
        let ghost keep = |entry: (String, ExecutionState)| !expired(entry.1@, cutoff);
        let mut removed: usize = 0;
        let mut i: usize = 0;
        proof {
            reveal(Seq::filter);
            assert(all.take(0).filter(keep) =~= Seq::empty());
            assert(Seq::empty() + all =~= all);
            assert(all.skip(0) =~= all);
            assert(all.len() == self.store.entries.len());
        }
        while i < self.store.entries.len()
            invariant
                i <= self.store.entries@.len(),
                self.store.entries@.len() + removed == all.len(),
                all.len() <= usize::MAX,
                keep == (|entry: (String, ExecutionState)| !expired(entry.1@, cutoff)),
                all.take(i + removed).filter(keep).len() == i,
                self.store.entries@ == all.take(i + removed).filter(keep) + all.skip(i + removed),
            decreases self.store.entries.len() - i,
        {
            let ghost done = i + removed;
            let ghost kept = all.take(done).filter(keep);
            proof {
                reveal(Seq::filter);
                assert(self.store.entries@[i as int] == all[done]);
                assert(all.take(done + 1).drop_last() =~= all.take(done));
                assert(all.take(done + 1).last() == all[done]);
                assert(all.skip(done).drop_first() =~= all.skip(done + 1));
            }
            let state: &ExecutionState = &self.store.entries[i].1;
            let finished: Timestamp = match state.completed_at {
                Some(at) => at,
                None => state.updated_at,
            };
            if state.is_terminal() && finished.is_before(cutoff) {
                let _ = self.store.entries.remove(i);
                removed += 1;
                assert(self.store.entries@ =~= kept + all.skip(done + 1));
            } else {
                i += 1;
                assert(self.store.entries@ =~= kept.push(all[done]) + all.skip(done + 1));
            }
        }
        proof {
            assert(all.take(i + removed) =~= all);
            assert(all.skip(i + removed) =~= Seq::empty());
            assert(self.store.entries@ =~= all.filter(keep));
            let before = text_map::entries_map(all);
            text_map::lemma_kept(all, keep, Seq::empty());
            assert forall|k: Seq<char>| #[trigger]
                self.store@.contains_key(k) <==> before.contains_key(k) && !expired(
                    before[k]@,
                    cutoff,
                ) by {
                text_map::lemma_kept(all, keep, k);
            }
            assert forall|k: Seq<char>| self.store@.contains_key(k) implies #[trigger]
                self.store@[k] == before[k] by {
                text_map::lemma_kept(all, keep, k);
            }
            assert forall|j: int| 0 <= j < self.store.entries@.len() implies {
                &&& (#[trigger] self.store.entries@[j]).1.payload.well_formed()
                &&& self.store.entries@[j].1.correlation_id@ == self.store.entries@[j].0@
            } by {
                all.lemma_filter_contains_rev(keep, self.store.entries@[j]);
                let m = choose|m: int| 0 <= m < all.len() && all[m] == self.store.entries@[j];
                assert(all[m].1.payload.well_formed());
            }
        }
        removed
    }
}

/// The stale states of a store are those of its states that are stale, each
/// once.
pub proof fn lemma_stale_states(memory: MemoryPersistence, before: Timestamp)
    requires
        memory.well_formed(),
    ensures
        ({
            let list = stale_states(memory.store.entries@, before);
            &&& forall|k: int|
                0 <= k < list.len() ==> {
                    &&& memory.store@.contains_key((#[trigger] list[k]).correlation_id)
                    &&& memory.store@[list[k].correlation_id]@ == list[k]
                    &&& stale(list[k], before)
                }
            &&& forall|j: int, k: int|
                0 <= j < k < list.len() ==> (#[trigger] list[j]).correlation_id != (
                #[trigger] list[k]).correlation_id
            &&& forall|id: Seq<char>|
                memory.store@.contains_key(id) && stale(
                    (#[trigger] memory.store@[id])@,
                    before,
                ) ==> list.contains(memory.store@[id]@)
        }),
{
    let entries = memory.store.entries@;
    let list = stale_states(entries, before);
    lemma_stale_part(memory, before, entries.len() as int);
    assert(entries.take(entries.len() as int) =~= entries);
    assert forall|id: Seq<char>|
        memory.store@.contains_key(id) && stale((#[trigger] memory.store@[id])@, before) implies
    list.contains(memory.store@[id]@) by {
        let keys = text_map::keys_of(entries);
        names::lemma_place(keys, id);
        let p = names::place(keys, id);
        memory.store.lemma_entry(p);
        assert(keys[p] == id);
        assert(entries[p].1@ == memory.store@[id]@);
    }
}

proof fn lemma_stale_part(memory: MemoryPersistence, before: Timestamp, n: int)
    requires
        memory.well_formed(),
        0 <= n <= memory.store.entries@.len(),
    ensures
        ({
            let entries = memory.store.entries@;
            let list = stale_states(entries.take(n), before);
            &&& forall|k: int|
                0 <= k < list.len() ==> {
                    &&& memory.store@.contains_key((#[trigger] list[k]).correlation_id)
                    &&& memory.store@[list[k].correlation_id]@ == list[k]
                    &&& stale(list[k], before)
                    &&& exists|i: int|
                        0 <= i < n && (#[trigger] entries[i]).0@ == list[k].correlation_id
                }
            &&& forall|j: int, k: int|
                0 <= j < k < list.len() ==> (#[trigger] list[j]).correlation_id != (
                #[trigger] list[k]).correlation_id
            &&& forall|i: int|
                0 <= i < n && stale((#[trigger] entries[i]).1@, before) ==> list.contains(
                    entries[i].1@,
                )
        }),
    decreases n,
{
    let entries = memory.store.entries@;
    if n > 0 {
        let part = entries.take(n);
        let front = stale_states(entries.take(n - 1), before);
        let list = stale_states(part, before);
        lemma_stale_part(memory, before, n - 1);
        assert(part.drop_last() =~= entries.take(n - 1));
        assert(part.last() == entries[n - 1]);
        memory.store.lemma_entry(n - 1);
        let last = entries[n - 1].1@;
        assert(last.correlation_id == entries[n - 1].0@);
        let added = stale(last, before);
        assert(list == if added {
            front.push(last)
        } else {
            front
        });
        assert forall|k: int| 0 <= k < list.len() implies {
            &&& memory.store@.contains_key((#[trigger] list[k]).correlation_id)
            &&& memory.store@[list[k].correlation_id]@ == list[k]
            &&& stale(list[k], before)
            &&& exists|i: int| 0 <= i < n && (#[trigger] entries[i]).0@ == list[k].correlation_id
        } by {
            if k < front.len() {
                assert(list[k] == front[k]);
            } else {
                assert(entries[n - 1].0@ == list[k].correlation_id);
            }
        }
        assert forall|j: int, k: int| 0 <= j < k < list.len() implies (
        #[trigger] list[j]).correlation_id != (#[trigger] list[k]).correlation_id by {
            assert(list[j] == front[j]);
            if k < front.len() {
                assert(list[k] == front[k]);
            } else {
                let i = choose|i: int|
                    0 <= i < n - 1 && (#[trigger] entries[i]).0@ == front[j].correlation_id;
                let keys = text_map::keys_of(entries);
                assert(keys[i] == entries[i].0@ && keys[n - 1] == entries[n - 1].0@);
                if keys[i] == keys[n - 1] {
                    text_map::lemma_ascending_distinct(keys, i, n - 1);
                }
            }
        }
        assert forall|i: int|
            0 <= i < n && stale((#[trigger] entries[i]).1@, before) implies list.contains(
            entries[i].1@,
        ) by {
            if i < n - 1 {
                let m = choose|m: int| 0 <= m < front.len() && front[m] == entries[i].1@;
                assert(list[m] == entries[i].1@);
            } else {
                assert(list[list.len() - 1] == entries[i].1@);
            }
        }
    }
}

/// Whether a claim did what it should: the state of a stored, stale execution
/// moved to the claimed status at `now` and is given, and otherwise nothing
/// changed and nothing is given.
pub open spec fn is_claim(
    before: Map<Seq<char>, ExecutionState>,
    later: Map<Seq<char>, ExecutionState>,
    id: Seq<char>,
    cutoff: Timestamp,
    status: ExecutionStatus,
    now: Timestamp,
    claimed: Option<ExecutionState>,
) -> bool {
    if before.contains_key(id) && stale(before[id]@, cutoff) {
        &&& claimed matches Some(state) && state@ == model::transitioned(before[id]@, status, now)
        &&& later.contains_key(id)
        &&& later[id]@ == model::transitioned(before[id]@, status, now)
        &&& later.remove(id) == before.remove(id)
    } else {
        claimed is None && later == before
    }
}

/// Whether exactly the executions past keeping were removed.
pub open spec fn is_cleanup(
    before: Map<Seq<char>, ExecutionState>,
    later: Map<Seq<char>, ExecutionState>,
    cutoff: Timestamp,
) -> bool {
    &&& forall|k: Seq<char>| #[trigger]
        later.contains_key(k) <==> before.contains_key(k) && !expired(before[k]@, cutoff)
    &&& forall|k: Seq<char>| later.contains_key(k) ==> #[trigger] later[k] == before[k]
}

/// Every stored execution that has not ended, whatever it was doing, and that
/// was last changed before the cutoff, is listed as stale and can be claimed;
/// no other is, and the seven statuses in which an execution has ended are the
/// only ones that keep it from being claimed.
pub proof fn law_every_unfinished_execution_can_be_claimed(
    memory: MemoryPersistence,
    later: Map<Seq<char>, ExecutionState>,
    id: Seq<char>,
    before: Timestamp,
    claimed_status: ExecutionStatus,
    now: Timestamp,
    claimed: Option<ExecutionState>,
)
    requires
        memory.well_formed(),
        memory.store@.contains_key(id),
        is_claim(memory.store@, later, id, before, claimed_status, now, claimed),
    ensures
        ({
            let state = memory.store@[id];
            let due = time::instant(state.updated_at) < time::instant(before)
                && !(state.status is Completed || state.status is Failed
                    || state.status is Cancelled || state.status is TimedOut
                    || state.status is Confirmed || state.status is Canceled
                    || state.status is Compensated);
            &&& stale_states(memory.store.entries@, before).contains(state@) <==> due
            &&& claimed is Some <==> due
            &&& claimed matches Some(taken) ==> taken.status == claimed_status && taken.updated_at
                == now && taken.correlation_id@ == state.correlation_id@ && taken.started_at
                == state.started_at && taken.payload.model() == state.payload.model()
            &&& claimed matches Some(taken) ==> later.contains_key(id) && later[id]@ == taken@
            &&& claimed is None ==> later == memory.store@
            &&& forall|other: Seq<char>|
                other != id ==> (#[trigger] later.contains_key(other)
                    <==> memory.store@.contains_key(other)) && (later.contains_key(other)
                    ==> later[other] == memory.store@[other])
        }),
{
    lemma_stale_states(memory, before);
    let list = stale_states(memory.store.entries@, before);
    if list.contains(memory.store@[id]@) {
        let k = choose|k: int| 0 <= k < list.len() && list[k] == memory.store@[id]@;
        assert(stale(list[k], before));
    }
    assert forall|other: Seq<char>| other != id implies (#[trigger] later.contains_key(other)
        <==> memory.store@.contains_key(other)) && (later.contains_key(other) ==> later[other]
        == memory.store@[other]) by {
        assert(later.remove(id).contains_key(other) <==> later.contains_key(other));
        assert(memory.store@.remove(id).contains_key(other) <==> memory.store@.contains_key(
            other,
        ));
        if later.contains_key(other) {
            assert(later.remove(id)[other] == later[other]);
            assert(memory.store@.remove(id)[other] == memory.store@[other]);
        }
    }
}

/// A cleanup removes exactly the executions that have ended, in one of the
/// seven statuses in which they do, before the cutoff: by the time of their
/// completion, or by that of the last change where none is recorded. No other
/// execution is touched.
pub proof fn law_cleanup_spares_what_is_unfinished_or_recent(
    before: Map<Seq<char>, ExecutionState>,
    later: Map<Seq<char>, ExecutionState>,
    cutoff: Timestamp,
    id: Seq<char>,
)
    requires
        is_cleanup(before, later, cutoff),
        before.contains_key(id),
    ensures
        ({
            let state = before[id];
            let ended = (state.status is Completed || state.status is Failed
                || state.status is Cancelled || state.status is TimedOut
                || state.status is Confirmed || state.status is Canceled
                || state.status is Compensated);
            &&& !later.contains_key(id) <==> ended && (
            (state.completed_at is Some && time::instant(state.completed_at->0) < time::instant(
                cutoff,
            )) || (state.completed_at is None && time::instant(state.updated_at) < time::instant(
                cutoff,
            )))
            &&& later.contains_key(id) ==> later[id] == state
        }),
{
}

/// A filter lets a state through exactly when the state has the status and the
/// pattern that the filter asks for, as far as it asks: narrowing a filter by
/// the status or the pattern of a state changes nothing for that state.
pub proof fn law_filters_narrow(filter: ExecutionFilter, state: StateView)
    ensures
        passes(ExecutionFilter { status: None, pattern: None }, state),
        passes(filter, state) <==> passes(ExecutionFilter { status: None, ..filter }, state)
            && passes(ExecutionFilter { pattern: None, ..filter }, state),
        forall|status: ExecutionStatus|
            #[trigger] passes(ExecutionFilter { status: Some(status), pattern: None }, state)
                <==> state.status == status,
        forall|pattern: ExecutionPattern|
            #[trigger] passes(ExecutionFilter { status: None, pattern: Some(pattern) }, state)
                <==> state.pattern == pattern,
{
}

/// A listing is in order of the start times, and holds exactly the places that
/// the filter lets through.
pub proof fn law_listing_is_sorted_and_exact(
    entries: Seq<(String, ExecutionState)>,
    filter: ExecutionFilter,
    i: int,
)
    requires
        entries.len() <= usize::MAX,
        0 <= i < entries.len(),
    ensures
        forall|a: int, b: int|
            0 <= a <= b < sorting::stable(matching(entries, filter)).len() ==> time::instant(
                entries[(#[trigger] sorting::stable(matching(entries, filter))[a]).1 as int].1@.started_at,
            ) <= time::instant(
                entries[(#[trigger] sorting::stable(matching(entries, filter))[b]).1 as int].1@.started_at,
            ),
        passes(filter, entries[i].1@) <==> exists|j: int|
            0 <= j < sorting::stable(matching(entries, filter)).len() && (
            #[trigger] sorting::stable(matching(entries, filter))[j]).1 == i,
{
    broadcast use vstd::seq_lib::group_to_multiset_ensures;

    let list = matching(entries, filter);
    let sorted = sorting::stable(list);
    sorting::law_stable_sorts(list);
    lemma_matching(entries, filter);
    assert forall|a: int, b: int| 0 <= a <= b < sorted.len() implies time::instant(
        entries[(#[trigger] sorted[a]).1 as int].1@.started_at,
    ) <= time::instant(entries[(#[trigger] sorted[b]).1 as int].1@.started_at) by {
        sorting::lemma_stable_member(list, a);
        sorting::lemma_stable_member(list, b);
        let m = choose|m: int| 0 <= m < list.len() && list[m] == sorted[a];
        let n = choose|n: int| 0 <= n < list.len() && list[n] == sorted[b];
        assert(list[m].0 == time::instant(entries[list[m].1 as int].1@.started_at));
        assert(list[n].0 == time::instant(entries[list[n].1 as int].1@.started_at));
    }
    if passes(filter, entries[i].1@) {
        let j = choose|j: int| 0 <= j < list.len() && (#[trigger] list[j]).1 == i;
        assert(list.contains(list[j]));
        assert(list.to_multiset().count(list[j]) > 0);
        assert(sorted.contains(list[j]));
        let k = choose|k: int| 0 <= k < sorted.len() && sorted[k] == list[j];
        assert(sorted[k].1 == i);
    }
    if exists|j: int| 0 <= j < sorted.len() && (#[trigger] sorted[j]).1 == i {
        let j = choose|j: int| 0 <= j < sorted.len() && (#[trigger] sorted[j]).1 == i;
        sorting::lemma_stable_member(list, j);
        let m = choose|m: int| 0 <= m < list.len() && list[m] == sorted[j];
        assert(passes(filter, entries[list[m].1 as int].1@));
    }
}

/// An instant as it is stored.
pub open spec fn stored_stamp(t: Timestamp) -> Seq<char> {
    time::stamp_text(t.secs, t.nanos, STAMP_PATTERN@)
}

/// Renders an instant for storage. Of years with four digits, stored instants
/// can be read back, and compare as texts as the instants do.
pub fn encode_ts(ts: Timestamp) -> (stamp: String)
    requires
        ts.well_formed(),
    ensures
        stamp@ == stored_stamp(ts),
        time::four_digit_year(ts) ==> reads_as(stamp@, ts),
        time::four_digit_year(ts) ==> forall|other: Timestamp|
            time::four_digit_year(other) ==> (text::text_lt(
                #[trigger] stored_stamp(other),
                stamp@,
            ) <==> time::instant(other) < time::instant(ts)),
{
    format_stamp(ts, STAMP_PATTERN)
}

/// Whether a stored instant reads as `t`.
pub open spec fn reads_as(stamp: Seq<char>, t: Timestamp) -> bool {
    time::stamp_parsed(stamp) is Ok && time::stamp_parsed(stamp)->Ok_0 == (t.secs, t.nanos)
}

/// The message about an instant that cannot be read.
pub open spec fn bad_stamp_text(raw: Seq<char>) -> Seq<char> {
    "bad timestamp "@ + text::debug_text(raw) + ": "@ + time::stamp_parsed(raw)->Err_0
}

/// Reads a stored instant.
pub fn decode_ts(raw: &str) -> (result: Result<Timestamp, PersistenceError>)
    ensures
        match result {
            Ok(t) => reads_as(raw@, t),
            Err(error) => time::stamp_parsed(raw@) is Err && error.0@ == bad_stamp_text(raw@),
        },
{
    match parse_stamp(raw) {
        Ok(t) => Ok(t),
        Err(reason) => {
            let mut message: String = "bad timestamp ".to_owned();
            message.append(quoted(raw).as_str());
            message.append(": ");
            message.append(reason.as_str());
            Err(PersistenceError(message))
        },
    }
}

/// An execution state as a row of texts, all but its payload.
#[derive(Debug)]
pub struct StoredRow {
    /// The id of the run.
    pub correlation_id: String,
    /// The name of the definition.
    pub name: String,
    /// The wire string of the pattern.
    pub pattern: String,
    /// The wire string of the status.
    pub status: String,
    /// Whether the status is terminal, as a number.
    pub terminal: i64,
    /// When the run started.
    pub started_at: String,
    /// When the state last changed.
    pub updated_at: String,
    /// When the run completed, if it has.
    pub completed_at: Option<String>,
}

/// Whether a row is that of a state.
pub open spec fn is_row_of(state: StateView, row: StoredRow) -> bool {
    &&& row.correlation_id@ == state.correlation_id
    &&& row.name@ == state.name
    &&& row.pattern@ == model::pattern_wire(state.pattern)
    &&& row.status@ == model::status_wire(state.status)
    &&& row.terminal == if model::terminal(state.status) {
        1i64
    } else {
        0i64
    }
    &&& row.started_at@ == stored_stamp(state.started_at)
    &&& row.updated_at@ == stored_stamp(state.updated_at)
    &&& match (row.completed_at, state.completed_at) {
        (Some(stamp), Some(t)) => stamp@ == stored_stamp(t),
        (None, None) => true,
        _ => false,
    }
}

/// Whether the instants of a row read as those of a state.
pub open spec fn row_reads_as(state: StateView, row: StoredRow) -> bool {
    &&& reads_as(row.started_at@, state.started_at)
    &&& reads_as(row.updated_at@, state.updated_at)
    &&& row.completed_at matches Some(stamp) ==> (state.completed_at matches Some(t) && reads_as(
        stamp@,
        t,
    ))
}

/// Whether all instants of a state lie in years of four digits.
pub open spec fn storable(state: StateView) -> bool {
    &&& time::four_digit_year(state.started_at)
    &&& time::four_digit_year(state.updated_at)
    &&& state.completed_at matches Some(t) ==> time::four_digit_year(t)
}

/// Whether some pattern has a wire string.
pub open spec fn known_pattern(wire: Seq<char>) -> bool {
    exists|pattern: ExecutionPattern| #[trigger] model::pattern_wire(pattern) == wire
}

/// Whether some status has a wire string.
pub open spec fn known_status(wire: Seq<char>) -> bool {
    exists|status: ExecutionStatus| #[trigger] model::status_wire(status) == wire
}

/// What decoding a row gives: the state, or the message about its first column
/// that cannot be read, in the order pattern, status, start, change,
/// completion, payload.
pub open spec fn decodes_to(
    row: StoredRow,
    payload: Result<ValueView, Seq<char>>,
    result: Result<StateView, Seq<char>>,
) -> bool {
    let started = time::stamp_parsed(row.started_at@);
    let updated = time::stamp_parsed(row.updated_at@);
    match result {
        Ok(state) => {
            &&& state.correlation_id == row.correlation_id@
            &&& state.name == row.name@
            &&& model::pattern_wire(state.pattern) == row.pattern@
            &&& model::status_wire(state.status) == row.status@
            &&& reads_as(row.started_at@, state.started_at)
            &&& reads_as(row.updated_at@, state.updated_at)
            &&& match (row.completed_at, state.completed_at) {
                (Some(stamp), Some(t)) => reads_as(stamp@, t),
                (None, None) => true,
                _ => false,
            }
            &&& payload is Ok && payload->Ok_0 == state.payload
        },
        Err(message) => if !known_pattern(row.pattern@) {
            message == "bad pattern "@ + text::debug_text(row.pattern@)
        } else if !known_status(row.status@) {
            message == "bad status "@ + text::debug_text(row.status@)
        } else if started is Err {
            message == bad_stamp_text(row.started_at@)
        } else if updated is Err {
            message == bad_stamp_text(row.updated_at@)
        } else if row.completed_at is Some && time::stamp_parsed(row.completed_at->0@) is Err {
            message == bad_stamp_text(row.completed_at->0@)
        } else {
            payload is Err && message == "bad payload: "@ + payload->Err_0
        },
    }
}

/// What was stored is read back: a row of a storable state, decoded with its
/// payload, gives that state.
pub proof fn law_stored_state_is_read_back(
    state: StateView,
    row: StoredRow,
    result: Result<StateView, Seq<char>>,
)
    requires
        is_row_of(state, row),
        row_reads_as(state, row),
        decodes_to(row, Ok(state.payload), result),
    ensures
        result == Ok::<StateView, Seq<char>>(state),
{
    assert(known_pattern(row.pattern@)) by {
        assert(model::pattern_wire(state.pattern) == row.pattern@);
    }
    assert(known_status(row.status@)) by {
        assert(model::status_wire(state.status) == row.status@);
    }
    if let Ok(read) = result {
        model::law_pattern_wire_is_unique(read.pattern, state.pattern);
        model::law_status_wire_is_unique(read.status, state.status);
        assert(read.started_at == state.started_at);
        assert(read.updated_at == state.updated_at);
        assert(read.completed_at == state.completed_at);
        assert(read =~= state);
    }
}

/// The row of a state. Of years with four digits, decoding the row together
/// with the payload gives the state again.
pub fn encode_row(state: &ExecutionState) -> (row: StoredRow)
    requires
        state.started_at.well_formed(),
        state.updated_at.well_formed(),
        state.completed_at matches Some(t) ==> t.well_formed(),
    ensures
        is_row_of(state@, row),
        row.terminal == 0 || row.terminal == 1,
        row.terminal == 1 <==> (state.status is Completed || state.status is Failed
            || state.status is Cancelled || state.status is TimedOut
            || state.status is Confirmed || state.status is Canceled
            || state.status is Compensated),
        row.completed_at is Some <==> state.completed_at is Some,
        storable(state@) ==> forall|result: Result<StateView, Seq<char>>| #[trigger]
            decodes_to(row, Ok(state@.payload), result) ==> result == Ok::<StateView, Seq<char>>(
                state@,
            ),
{
    let row: StoredRow = StoredRow {
        correlation_id: state.correlation_id.clone(),
        name: state.name.clone(),
        pattern: state.pattern.as_str().to_owned(),
        status: state.status.as_str().to_owned(),
        terminal: if state.status.is_terminal() {
            1
        } else {
            0
        },
        started_at: encode_ts(state.started_at),
        updated_at: encode_ts(state.updated_at),
        completed_at: match state.completed_at {
            Some(t) => Some(encode_ts(t)),
            None => None,
        },
    };
    proof {
        if storable(state@) {
            assert forall|result: Result<StateView, Seq<char>>| #[trigger]
                decodes_to(row, Ok(state@.payload), result) implies result == Ok::<
                StateView,
                Seq<char>,
            >(state@) by {
                law_stored_state_is_read_back(state@, row, result);
            }
        }
    }
    row
}

/// The columns that a claim writes into the row of an execution.
#[derive(Debug)]
pub struct ClaimColumns {
    /// The wire string of the claimed status.
    pub status: String,
    /// Whether the claimed status is terminal, as a number.
    pub terminal: i64,
    /// When the claim was made.
    pub updated_at: String,
    /// When the run completed; without it the row keeps what it holds.
    pub completed_at: Option<String>,
}

/// A row after a claim has written its columns.
pub open spec fn claimed_row(row: StoredRow, columns: ClaimColumns) -> StoredRow {
    StoredRow {
        status: columns.status,
        terminal: columns.terminal,
        updated_at: columns.updated_at,
        completed_at: match columns.completed_at {
            Some(stamp) => Some(stamp),
            None => row.completed_at,
        },
        ..row
    }
}

/// Whether some columns are those of a claim.
pub open spec fn is_columns_of(
    columns: ClaimColumns,
    status: ExecutionStatus,
    now: Timestamp,
) -> bool {
    &&& columns.status@ == model::status_wire(status)
    &&& columns.terminal == if model::terminal(status) {
        1i64
    } else {
        0i64
    }
    &&& columns.updated_at@ == stored_stamp(now)
    &&& columns.completed_at is Some <==> model::terminal(status)
    &&& columns.completed_at matches Some(stamp) ==> stamp@ == stored_stamp(now)
}

/// A claim written into the row of an execution leaves the row of the claimed
/// execution.
pub proof fn law_claimed_row_holds_the_claim(
    state: StateView,
    row: StoredRow,
    columns: ClaimColumns,
    status: ExecutionStatus,
    now: Timestamp,
)
    requires
        is_row_of(state, row),
        is_columns_of(columns, status, now),
    ensures
        is_row_of(model::transitioned(state, status, now), claimed_row(row, columns)),
{
}

/// The columns that a claim writes.
pub fn claim_columns(claimed_status: ExecutionStatus, now: Timestamp) -> (columns: ClaimColumns)
    requires
        now.well_formed(),
    ensures
        is_columns_of(columns, claimed_status, now),
        columns.terminal == 0 || columns.terminal == 1,
        columns.terminal == 1 <==> (claimed_status is Completed || claimed_status is Failed
            || claimed_status is Cancelled || claimed_status is TimedOut
            || claimed_status is Confirmed || claimed_status is Canceled
            || claimed_status is Compensated),
        columns.completed_at is Some <==> columns.terminal == 1,
{
    let terminal: bool = claimed_status.is_terminal();
    ClaimColumns {
        status: claimed_status.as_str().to_owned(),
        terminal: if terminal {
            1
        } else {
            0
        },
        updated_at: encode_ts(now),
        completed_at: if terminal {
            Some(encode_ts(now))
        } else {
            None
        },
    }
}

fn bad(what: &str, raw: &str) -> (error: PersistenceError)
    ensures
        error.0@ == what@ + text::debug_text(raw@),
{
    let mut message: String = what.to_owned();
    message.append(quoted(raw).as_str());
    PersistenceError(message)
}

/// What a payload holds, or the message of its refusal.
pub open spec fn payload_view(payload: Result<Value, String>) -> Result<ValueView, Seq<char>> {
    match payload {
        Ok(v) => Ok(v.model()),
        Err(message) => Err(message@),
    }
}

/// The state of a row, given its payload or the message about a payload that
/// cannot be read.
pub fn decode_row(row: StoredRow, payload: Result<Value, String>) -> (result: Result<
    ExecutionState,
    PersistenceError,
>)
    requires
        payload matches Ok(v) ==> v.well_formed(),
    ensures
        decodes_to(
            row,
            payload_view(payload),
            match result {
                Ok(state) => Ok(state@),
                Err(error) => Err(error.0@),
            },
        ),
        result matches Ok(state) ==> state.payload.well_formed(),
{
    let pattern: ExecutionPattern = match ExecutionPattern::parse(row.pattern.as_str()) {
        Some(pattern) => pattern,
        None => {
            return Err(bad("bad pattern ", row.pattern.as_str()));
        },
    };
    let status: ExecutionStatus = match ExecutionStatus::parse(row.status.as_str()) {
        Some(status) => status,
        None => {
            return Err(bad("bad status ", row.status.as_str()));
        },
    };
    assert(known_pattern(row.pattern@) && known_status(row.status@));
    let started_at: Timestamp = match decode_ts(row.started_at.as_str()) {
        Ok(t) => t,
        Err(error) => {
            return Err(error);
        },
    };
    let updated_at: Timestamp = match decode_ts(row.updated_at.as_str()) {
        Ok(t) => t,
        Err(error) => {
            return Err(error);
        },
    };
    let completed_at: Option<Timestamp> = match &row.completed_at {
        Some(stamp) => match decode_ts(stamp.as_str()) {
            Ok(t) => Some(t),
            Err(error) => {
                return Err(error);
            },
        },
        None => None,
    };
    match payload {
        Ok(payload) => Ok(
            ExecutionState {
                correlation_id: row.correlation_id,
                name: row.name,
                pattern,
                status,
                started_at,
                updated_at,
                completed_at,
                payload,
            },
        ),
        Err(reason) => {
            let mut message: String = "bad payload: ".to_owned();
            message.append(reason.as_str());
            Err(PersistenceError(message))
        },
    }
}

/// A row is decoded only where its pattern and its status exist and its
/// instants and payload can be read; the first of these that fails is what the
/// message is about.
pub proof fn law_unreadable_rows_are_refused(
    row: StoredRow,
    payload: Result<ValueView, Seq<char>>,
    result: Result<StateView, Seq<char>>,
)
    requires
        decodes_to(row, payload, result),
    ensures
        (forall|p: ExecutionPattern| #[trigger] model::pattern_wire(p) != row.pattern@)
            ==> result is Err && result->Err_0 == "bad pattern "@ + text::debug_text(row.pattern@),
        (forall|s: ExecutionStatus| #[trigger] model::status_wire(s) != row.status@)
            ==> result is Err,
        time::stamp_parsed(row.started_at@) is Err ==> result is Err,
        time::stamp_parsed(row.updated_at@) is Err ==> result is Err,
        row.completed_at is Some && time::stamp_parsed(row.completed_at->0@) is Err
            ==> result is Err,
        payload is Err ==> result is Err,
        result matches Ok(state) ==> {
            &&& state.correlation_id == row.correlation_id@
            &&& state.name == row.name@
            &&& state.completed_at is Some <==> row.completed_at is Some
            &&& payload == Ok::<ValueView, Seq<char>>(state.payload)
        },
        result is Err && payload is Ok ==> {
            ||| forall|p: ExecutionPattern| #[trigger] model::pattern_wire(p) != row.pattern@
            ||| forall|s: ExecutionStatus| #[trigger] model::status_wire(s) != row.status@
            ||| time::stamp_parsed(row.started_at@) is Err
            ||| time::stamp_parsed(row.updated_at@) is Err
            ||| row.completed_at is Some && time::stamp_parsed(row.completed_at->0@) is Err
        },
{
    if let Ok(state) = result {
        assert(known_pattern(row.pattern@)) by {
            assert(model::pattern_wire(state.pattern) == row.pattern@);
        }
        assert(known_status(row.status@)) by {
            assert(model::status_wire(state.status) == row.status@);
        }
    }
}

/// The conditions of a stored query stand for the filter: one for each thing
/// that it asks for, numbered from one, with the wire strings in that order.
pub proof fn law_queries_ask_what_the_filter_asks(filter: ExecutionFilter)
    ensures
        condition_params(filter).len() == (if filter.status is Some {
            1int
        } else {
            0
        }) + (if filter.pattern is Some {
            1int
        } else {
            0
        }),
        filter.status matches Some(status) ==> condition_params(filter)[0] == model::status_wire(
            status,
        ),
        filter.pattern matches Some(pattern) ==> condition_params(filter).last()
            == model::pattern_wire(pattern),
        condition_params(filter).len() == 0 <==> condition_text(filter).len() == 0,
        filter.status is Some && filter.pattern is None ==> condition_text(filter)
            == " AND status = ?1"@,
        filter.status is None && filter.pattern is Some ==> condition_text(filter)
            == " AND pattern = ?1"@,
        filter.status is Some && filter.pattern is Some ==> condition_text(filter)
            == " AND status = ?1"@ + " AND pattern = ?2"@,
{
    reveal_strlit(" AND status = ?1");
    reveal_strlit(" AND pattern = ?1");
    reveal_strlit(" AND pattern = ?2");
}

/// What the message about a row that cannot be decoded says: which column is
/// bad, and what it holds.
pub proof fn law_refusals_name_the_column(
    row: StoredRow,
    payload: Result<ValueView, Seq<char>>,
    message: Seq<char>,
)
    requires
        decodes_to(row, payload, Err(message)),
        known_pattern(row.pattern@),
    ensures
        !known_status(row.status@) ==> message == "bad status "@ + text::debug_text(row.status@),
        known_status(row.status@) && time::stamp_parsed(row.started_at@) is Err ==> message
            == "bad timestamp "@ + text::debug_text(row.started_at@) + ": "@ + time::stamp_parsed(
            row.started_at@,
        )->Err_0,
        known_status(row.status@) && time::stamp_parsed(row.started_at@) is Ok
            && time::stamp_parsed(row.updated_at@) is Err ==> message == "bad timestamp "@
            + text::debug_text(row.updated_at@) + ": "@ + time::stamp_parsed(
            row.updated_at@,
        )->Err_0,
        known_status(row.status@) && time::stamp_parsed(row.started_at@) is Ok
            && time::stamp_parsed(row.updated_at@) is Ok && row.completed_at is None ==> payload
            is Err && message == "bad payload: "@ + payload->Err_0,
{
}

/// A row holds its state column by column: the texts as they are, the kinds by
/// their wire strings, and the instants as they are stored.
pub proof fn law_rows_hold_their_state(state: StateView, row: StoredRow)
    requires
        is_row_of(state, row),
    ensures
        row.correlation_id@ == state.correlation_id,
        row.name@ == state.name,
        row.pattern@ == model::pattern_wire(state.pattern),
        row.status@ == model::status_wire(state.status),
        row.started_at@ == time::stamp_text(
            state.started_at.secs,
            state.started_at.nanos,
            STAMP_PATTERN@,
        ),
        row.updated_at@ == time::stamp_text(
            state.updated_at.secs,
            state.updated_at.nanos,
            STAMP_PATTERN@,
        ),
        row.completed_at is Some <==> state.completed_at is Some,
        state.completed_at matches Some(t) ==> row.completed_at->0@ == time::stamp_text(
            t.secs,
            t.nanos,
            STAMP_PATTERN@,
        ),
{
}

/// A claim writes its status and its instant: as that of the change, and as
/// that of the completion where the status ends the execution.
pub proof fn law_claims_write_status_and_instant(
    columns: ClaimColumns,
    status: ExecutionStatus,
    now: Timestamp,
    row: StoredRow,
)
    requires
        is_columns_of(columns, status, now),
    ensures
        columns.status@ == model::status_wire(status),
        columns.updated_at@ == time::stamp_text(now.secs, now.nanos, STAMP_PATTERN@),
        columns.completed_at is Some <==> (status is Completed || status is Failed
            || status is Cancelled || status is TimedOut || status is Confirmed
            || status is Canceled || status is Compensated),
        columns.completed_at matches Some(stamp) ==> stamp@ == columns.updated_at@,
        columns.terminal == 1 <==> columns.completed_at is Some,
        columns.terminal == 0 <==> columns.completed_at is None,
        claimed_row(row, columns).correlation_id == row.correlation_id,
        claimed_row(row, columns).name == row.name,
        claimed_row(row, columns).pattern == row.pattern,
        claimed_row(row, columns).started_at == row.started_at,
        claimed_row(row, columns).status == columns.status,
        claimed_row(row, columns).updated_at == columns.updated_at,
        columns.completed_at is None ==> claimed_row(row, columns).completed_at
            == row.completed_at,
        columns.completed_at is Some ==> claimed_row(row, columns).completed_at
            == columns.completed_at,
{
}

} // verus!

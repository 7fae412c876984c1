//! Recovery: stuck executions are claimed one by one and then failed, resumed
//! or compensated; old terminal ones are removed.
//!
//! [`RecoveryPass::begin`] starts a pass over stale executions.
//! [`RecoveryPass::work`] names what is due, and [`RecoveryPass::decided`],
//! [`RecoveryPass::claim_answered`], [`RecoveryPass::handled`] and
//! [`RecoveryPass::saved`] take back what happened.
//! [`RecoveryService::recover_stale`] runs a whole pass over a store in memory.

use crate::model;
use crate::model::{ExecutionState, ExecutionStatus};
use crate::names;
use crate::persistence;
use crate::persistence::MemoryPersistence;
use crate::text_map;
use crate::time;
use crate::time::{utc_now, Span, Timestamp};
use vstd::prelude::*;

verus! {

/// What to do with a stuck execution.
#[derive(Debug, Clone, Copy, PartialEq, Eq, Structural)]
pub enum RecoveryAction {
    /// Mark it failed.
    MarkFailed,
    /// Run it again.
    Resume,
    /// Roll it back.
    Compensate,
    /// Leave it as it is.
    Skip,
}

/// The status with which an execution is claimed for an action; none where it
/// is not claimed.
pub open spec fn claim_status_of(action: RecoveryAction) -> Option<ExecutionStatus> {
    match action {
        RecoveryAction::MarkFailed => Some(ExecutionStatus::Failed),
        RecoveryAction::Resume => Some(ExecutionStatus::Running),
        RecoveryAction::Compensate => Some(ExecutionStatus::Compensating),
        RecoveryAction::Skip => None,
    }
}

/// The status in which a claimed execution ends, once its handler has run; none
/// where an action has no handler.
pub open spec fn settled_status_of(action: RecoveryAction, succeeded: bool) -> Option<
    ExecutionStatus,
> {
    match action {
        RecoveryAction::Resume => Some(
            if succeeded {
                ExecutionStatus::Completed
            } else {
                ExecutionStatus::Failed
            },
        ),
        RecoveryAction::Compensate => Some(
            if succeeded {
                ExecutionStatus::Compensated
            } else {
                ExecutionStatus::Failed
            },
        ),
        RecoveryAction::MarkFailed => None,
        RecoveryAction::Skip => None,
    }
}

impl RecoveryAction {
    /// The status with which an execution is claimed for the action.
    pub fn claim_status(self) -> (status: Option<ExecutionStatus>)
        ensures
            status == claim_status_of(self),
            status is None <==> self == RecoveryAction::Skip,
            status == Some(ExecutionStatus::Failed) <==> self == RecoveryAction::MarkFailed,
            status == Some(ExecutionStatus::Running) <==> self == RecoveryAction::Resume,
            status == Some(ExecutionStatus::Compensating) <==> self == RecoveryAction::Compensate,
    {
        match self {
            RecoveryAction::MarkFailed => Some(ExecutionStatus::Failed),
            RecoveryAction::Resume => Some(ExecutionStatus::Running),
            RecoveryAction::Compensate => Some(ExecutionStatus::Compensating),
            RecoveryAction::Skip => None,
        }
    }

    /// The status in which a claimed execution ends, once its handler has run.
    pub fn settled_status(self, succeeded: bool) -> (status: Option<ExecutionStatus>)
        ensures
            status == settled_status_of(self, succeeded),
            status is Some <==> self == RecoveryAction::Resume || self
                == RecoveryAction::Compensate,
            status == Some(ExecutionStatus::Completed) <==> self == RecoveryAction::Resume
                && succeeded,
            status == Some(ExecutionStatus::Compensated) <==> self == RecoveryAction::Compensate
                && succeeded,
            status is Some && !succeeded ==> status == Some(ExecutionStatus::Failed),
    {
        match self {
            RecoveryAction::Resume => Some(
                if succeeded {
                    ExecutionStatus::Completed
                } else {
                    ExecutionStatus::Failed
                },
            ),
            RecoveryAction::Compensate => Some(
                if succeeded {
                    ExecutionStatus::Compensated
                } else {
                    ExecutionStatus::Failed
                },
            ),
            RecoveryAction::MarkFailed => None,
            RecoveryAction::Skip => None,
        }
    }
}

/// The action for a stuck execution: the one that was decided, or that it is
/// marked failed where nothing decides.
pub open spec fn action_of(decided: Option<RecoveryAction>) -> RecoveryAction {
    match decided {
        Some(action) => action,
        None => RecoveryAction::MarkFailed,
    }
}

/// The action for a stuck execution: the one that was decided, or that it is
/// marked failed where nothing decides.
pub fn decided_or_default(decided: Option<RecoveryAction>) -> (action: RecoveryAction)
    ensures
        action == action_of(decided),
        decided is None ==> action == RecoveryAction::MarkFailed,
        decided matches Some(chosen) ==> action == chosen,
{
    match decided {
        Some(action) => action,
        None => RecoveryAction::MarkFailed,
    }
}

/// Whether a handler succeeded; one that is absent has failed.
pub open spec fn succeeded_of(outcome: Option<bool>) -> bool {
    outcome == Some(true)
}

/// Whether a handler succeeded; one that is absent has failed.
pub fn outcome_or_default(outcome: Option<bool>) -> (succeeded: bool)
    ensures
        succeeded == succeeded_of(outcome),
        succeeded <==> outcome == Some(true),
{
    match outcome {
        Some(succeeded) => succeeded,
        None => false,
    }
}

/// What the outside answers about a stuck execution.
#[derive(Debug, Clone, Copy)]
pub struct RecoveryAnswer {
    /// The action that was decided; none where nothing decides.
    pub decision: Option<RecoveryAction>,
    /// Whether its handler succeeded; none where the action has no handler.
    pub outcome: Option<bool>,
}

/// The state in which a pass leaves a stuck execution.
pub open spec fn recovered_state(
    state: model::StateView,
    answer: RecoveryAnswer,
    now: Timestamp,
) -> model::StateView {
    let action = action_of(answer.decision);
    match claim_status_of(action) {
        None => state,
        Some(status) => {
            let claimed = model::transitioned(state, status, now);
            match settled_status_of(action, succeeded_of(answer.outcome)) {
                None => claimed,
                Some(settled) => model::transitioned(claimed, settled, now),
            }
        },
    }
}

/// How many answers call for an execution to be acted upon.
pub open spec fn acted(answers: Seq<RecoveryAnswer>) -> nat
    decreases answers.len(),
{
    if answers.len() == 0 {
        0
    } else {
        acted(answers.drop_last()) + if action_of(answers.last().decision) == RecoveryAction::Skip {
            0nat
        } else {
            1nat
        }
    }
}

/// Whether a store went through a pass: each stale execution, in the order of
/// the listing, is in the state that its answer calls for, and every other is
/// as it was.
pub open spec fn is_recovery(
    before: MemoryPersistence,
    later: MemoryPersistence,
    cutoff: Timestamp,
    answers: Seq<RecoveryAnswer>,
    now: Timestamp,
) -> bool {
    let stuck = persistence::stale_states(before.store.entries@, cutoff);
    &&& answers.len() == stuck.len()
    &&& forall|id: Seq<char>| #[trigger]
        later.store@.contains_key(id) <==> before.store@.contains_key(id)
    &&& forall|k: int|
        0 <= k < stuck.len() ==> later.store@[(#[trigger] stuck[k]).correlation_id]@
            == recovered_state(stuck[k], answers[k], now)
    &&& forall|id: Seq<char>|
        before.store@.contains_key(id) && !persistence::stale(before.store@[id]@, cutoff)
            ==> (#[trigger] later.store@[id])@ == before.store@[id]@
}

/// When executions count as stuck, and how long terminal ones are kept.
#[derive(Debug, Clone, Copy)]
pub struct RecoveryService {
    /// How long a live execution may stay unchanged.
    pub stale_threshold: Span,
    /// How long a terminal execution is kept.
    pub retention_period: Span,
}

impl RecoveryService {
    /// Stuck after one hour, kept for seven days.
    pub fn new() -> (service: RecoveryService)
        ensures
            service.stale_threshold == (Span { secs: 3_600, nanos: 0 }),
            service.retention_period == (Span { secs: 604_800, nanos: 0 }),
    {
        RecoveryService {
            stale_threshold: Span { secs: 3_600, nanos: 0 },
            retention_period: Span { secs: 604_800, nanos: 0 },
        }
    }

    /// The service with another threshold.
    pub fn stale_threshold(self, threshold: Span) -> (service: RecoveryService)
        ensures
            service == (RecoveryService { stale_threshold: threshold, ..self }),
    {
        RecoveryService { stale_threshold: threshold, ..self }
    }

    /// The service with another retention.
    pub fn retention_period(self, retention: Span) -> (service: RecoveryService)
        ensures
            service == (RecoveryService { retention_period: retention, ..self }),
    {
        RecoveryService { retention_period: retention, ..self }
    }

    /// The instant before which unchanged executions are stuck, by the clock.
    pub fn stale_cutoff(&self) -> (cutoff: Timestamp)
        requires
            self.stale_threshold.nanos < 1_000_000_000,
            0 <= self.stale_threshold.secs <= 8_334_601_228_799,
        ensures
            cutoff.well_formed(),
            exists|now: Timestamp|
                now.well_formed() && now.secs >= 0 && #[trigger] time::instant(now)
                    == time::instant(cutoff) + time::span_nanos(self.stale_threshold),
    {
        let now: Timestamp = utc_now();
        self.stale_cutoff_at(now)
    }

    /// The instant before which unchanged executions are stuck at `now`.
    pub fn stale_cutoff_at(&self, now: Timestamp) -> (cutoff: Timestamp)
        requires
            now.nanos < 1_000_000_000,
            self.stale_threshold.nanos < 1_000_000_000,
            time::within_years(time::instant(now) - time::span_nanos(self.stale_threshold)),
        ensures
            cutoff.well_formed(),
            time::instant(cutoff) == time::instant(now) - time::span_nanos(self.stale_threshold),
            cutoff == self.cutoff_at(now),
    {
        now.minus(self.stale_threshold)
    }

    /// The instant before which unchanged executions are stuck at `now`.
    pub open spec fn cutoff_at(self, now: Timestamp) -> Timestamp {
        let nanos = time::instant(now) - time::span_nanos(self.stale_threshold);
        Timestamp { secs: (nanos / 1_000_000_000) as i64, nanos: (nanos % 1_000_000_000) as u32 }
    }

    /// Whether an instant and the threshold before it lie within the years that
    /// instants reach.
    pub open spec fn reaches(self, now: Timestamp) -> bool {
        &&& now.nanos < 1_000_000_000
        &&& self.stale_threshold.nanos < 1_000_000_000
        &&& time::within_years(time::instant(now) - time::span_nanos(self.stale_threshold))
    }

    /// The executions of a store that are stuck at `now`, in order of their
    /// ids.
    pub fn find_stale(&self, store: &MemoryPersistence, now: Timestamp) -> (stuck: Vec<
        ExecutionState,
    >)
        requires
            store.well_formed(),
            self.reaches(now),
        ensures
            persistence::good_states(stuck@),
            persistence::state_views(stuck@) == persistence::stale_states(
                store.store.entries@,
                self.cutoff_at(now),
            ),
            forall|id: Seq<char>| #[trigger]
                store.store@.contains_key(id) ==> (persistence::state_views(stuck@).contains(
                    store.store@[id]@,
                ) <==> time::instant(store.store@[id].updated_at) + time::span_nanos(
                    self.stale_threshold,
                ) < time::instant(now) && !(store.store@[id].status is Completed
                    || store.store@[id].status is Failed
                    || store.store@[id].status is Cancelled
                    || store.store@[id].status is TimedOut
                    || store.store@[id].status is Confirmed
                    || store.store@[id].status is Canceled
                    || store.store@[id].status is Compensated)),
    {
        store.list_stale(self.stale_cutoff_at(now))
    }

    /// Recovers the executions of a store that are stuck at `now`, given what
    /// the outside answers about each of them, and counts those that were acted
    /// upon.
    pub fn recover_stale(
        &self,
        store: &mut MemoryPersistence,
        answers: &Vec<RecoveryAnswer>,
        now: Timestamp,
    ) -> (recovered: usize)
        requires
            old(store).well_formed(),
            self.reaches(now),
            answers@.len() == persistence::stale_states(
                old(store).store.entries@,
                self.cutoff_at(now),
            ).len(),
        ensures
            final(store).well_formed(),
            is_recovery(*old(store), *final(store), self.cutoff_at(now), answers@, now),
            recovered == acted(answers@),
    {
        let ghost before = *store;
        let cutoff: Timestamp = self.stale_cutoff_at(now);
        let candidates: Vec<ExecutionState> = store.list_stale(cutoff);
        let ghost stuck = persistence::stale_states(before.store.entries@, cutoff);
        let mut pass: RecoveryPass = RecoveryPass::begin(candidates, cutoff);
        proof {
            lemma_progress_starts(before, stuck, answers@, now);
            assert(answers@.take(0) =~= Seq::empty());
        }
        while pass.at < pass.candidates.len()
            invariant
                before.well_formed(),
                store.well_formed(),
                pass.well_formed(),
                pass.cutoff == cutoff,
                pass.stage == pass.stage_at(pass.at as int),
                persistence::state_views(pass.candidates@) == stuck,
                stuck == persistence::stale_states(before.store.entries@, cutoff),
                answers@.len() == stuck.len(),
                pass.recovered@.len() == acted(answers@.take(pass.at as int)),
                progress(before, store.store@, stuck, answers@, pass.at as int, now),
            decreases pass.candidates.len() - pass.at,
        {
            let at: usize = pass.at;
            let answer: RecoveryAnswer = answers[at];
            let ghost earlier = store.store@;
            proof {
                assert(pass.candidates@[at as int]@ == stuck[at as int]);
                lemma_next_is_stale(before, earlier, stuck, answers@, cutoff, at as int, now);
            }
            pass.recover_one(store, answer, now);
            proof {
                assert(answers@.take(at + 1).drop_last() =~= answers@.take(at as int));
                assert(answers@.take(at + 1).last() == answer);
                reveal_with_fuel(acted, 2);
                assert(seq![answer].drop_last() =~= Seq::empty());
                lemma_progress(before, earlier, store.store@, stuck, answers@, cutoff, at as int, now);
            }
        }
        proof {
            assert(answers@.take(answers@.len() as int) =~= answers@);
            lemma_progress_ends(before, *store, stuck, answers@, cutoff, now);
        }
        pass.recovered.len()
    }
}

/// Where a recovery pass stands with its current candidate.
#[derive(Debug, Clone, Copy, PartialEq, Eq, Structural)]
pub enum RecoveryStage {
    /// An action is to be chosen.
    Deciding,
    /// The candidate is to be claimed.
    Claiming,
    /// The handler of the action is to run.
    Handling,
    /// The settled state is to be saved.
    Saving,
    /// No candidate is left.
    Ended,
}

/// A pass over stale executions.
#[derive(Debug)]
pub struct RecoveryPass {
    /// The instant before which unchanged executions are stuck.
    pub cutoff: Timestamp,
    /// The stale executions that were found.
    pub candidates: Vec<ExecutionState>,
    /// The current candidate.
    pub at: usize,
    /// The action that was chosen for it.
    pub action: RecoveryAction,
    /// Its state, once it is claimed.
    pub claimed: Option<ExecutionState>,
    /// The candidates that were acted upon.
    pub recovered: Vec<usize>,
    /// Where the pass stands.
    pub stage: RecoveryStage,
}

/// What a recovery pass waits for.
#[derive(Debug)]
pub enum RecoveryWork {
    /// Choose an action for this candidate.
    Decide(usize),
    /// Claim this execution, if it is still stale, with this status.
    Claim {
        /// The id of the execution.
        correlation_id: String,
        /// The instant before which unchanged executions are stuck.
        cutoff: Timestamp,
        /// The status to claim it with.
        status: ExecutionStatus,
    },
    /// Run the claimed execution again.
    Resume,
    /// Roll the claimed execution back.
    Compensate,
    /// Save the claimed execution.
    Save,
    /// Nothing is left; so many executions were acted upon.
    Finished(usize),
}

impl RecoveryPass {
    /// Whether the records of the pass fit together.
    pub open spec fn well_formed(self) -> bool {
        let n = self.candidates@.len();
        &&& self.at <= n
        &&& n <= usize::MAX
        &&& forall|k: int|
            0 <= k < self.recovered@.len() ==> (#[trigger] self.recovered@[k]) < self.at
        &&& forall|j: int, k: int|
            0 <= j < k < self.recovered@.len() ==> (#[trigger] self.recovered@[j]) < (
            #[trigger] self.recovered@[k])
        &&& match self.stage {
            RecoveryStage::Deciding => self.at < n && self.claimed is None,
            RecoveryStage::Claiming => self.at < n && self.claimed is None && claim_status_of(
                self.action,
            ) is Some,
            RecoveryStage::Handling => self.at < n && self.claimed is Some && (self.action
                == RecoveryAction::Resume || self.action == RecoveryAction::Compensate),
            RecoveryStage::Saving => self.at < n && self.claimed is Some,
            RecoveryStage::Ended => self.at == n && self.claimed is None,
        }
    }

    /// The stage at the start of a candidate.
    pub open spec fn stage_at(self, at: int) -> RecoveryStage {
        if at < self.candidates@.len() {
            RecoveryStage::Deciding
        } else {
            RecoveryStage::Ended
        }
    }

    /// Starts a pass over the stale executions that were found.
    pub fn begin(candidates: Vec<ExecutionState>, cutoff: Timestamp) -> (pass: RecoveryPass)
        ensures
            pass.well_formed(),
            pass.candidates == candidates,
            pass.cutoff == cutoff,
            pass.at == 0,
            pass.recovered@.len() == 0,
            pass.stage == pass.stage_at(0),
    {
        let stage: RecoveryStage = if candidates.len() > 0 {
            RecoveryStage::Deciding
        } else {
            RecoveryStage::Ended
        };
        RecoveryPass {
            cutoff,
            candidates,
            at: 0,
            action: RecoveryAction::MarkFailed,
            claimed: None,
            recovered: Vec::new(),
            stage,
        }
    }

    /// Names what is due.
    pub fn work(&self) -> (work: RecoveryWork)
        requires
            self.well_formed(),
        ensures
            match self.stage {
                RecoveryStage::Deciding => work == RecoveryWork::Decide(self.at),
                RecoveryStage::Claiming => {
                    &&& work matches RecoveryWork::Claim { correlation_id, cutoff, status }
                    &&& correlation_id@ == self.candidates@[self.at as int].correlation_id@
                    &&& cutoff == self.cutoff
                    &&& Some(status) == claim_status_of(self.action)
                },
                RecoveryStage::Handling => work == if self.action == RecoveryAction::Resume {
                    RecoveryWork::Resume
                } else {
                    RecoveryWork::Compensate
                },
                RecoveryStage::Saving => work == RecoveryWork::Save,
                RecoveryStage::Ended => work == RecoveryWork::Finished(
                    self.recovered@.len() as usize,
                ),
            },
    {
        match self.stage {
            RecoveryStage::Deciding => RecoveryWork::Decide(self.at),
            RecoveryStage::Claiming => match self.action.claim_status() {
                Some(status) => RecoveryWork::Claim {
                    correlation_id: self.candidates[self.at].correlation_id.clone(),
                    cutoff: self.cutoff,
                    status,
                },
                None => RecoveryWork::Finished(0),
            },
            RecoveryStage::Handling => if self.action == RecoveryAction::Resume {
                RecoveryWork::Resume
            } else {
                RecoveryWork::Compensate
            },
            RecoveryStage::Saving => RecoveryWork::Save,
            RecoveryStage::Ended => RecoveryWork::Finished(self.recovered.len()),
        }
    }

    fn advance(&mut self, acted: bool)
        requires
            old(self).at < old(self).candidates@.len(),
            forall|k: int|
                0 <= k < old(self).recovered@.len() ==> (#[trigger] old(self).recovered@[k])
                    < old(self).at,
            forall|j: int, k: int|
                0 <= j < k < old(self).recovered@.len() ==> (#[trigger] old(self).recovered@[j])
                    < (#[trigger] old(self).recovered@[k]),
        ensures
            final(self).well_formed(),
            *final(self) == (RecoveryPass {
                at: (old(self).at + 1) as usize,
                claimed: None,
                recovered: final(self).recovered,
                stage: old(self).stage_at(old(self).at + 1),
                ..*old(self)
            }),
            acted ==> final(self).recovered@ == old(self).recovered@.push(old(self).at),
            !acted ==> final(self).recovered == old(self).recovered,
    {
        assert(self.candidates@.len() == self.candidates.len());
        if acted {
            self.recovered.push(self.at);
        }
        self.at = self.at + 1;
        self.claimed = None;
        self.stage = if self.at < self.candidates.len() {
            RecoveryStage::Deciding
        } else {
            RecoveryStage::Ended
        };
    }

    /// Takes the action that was chosen for the candidate: a skipped one is
    /// left alone, any other is to be claimed.
    pub fn decided(&mut self, action: RecoveryAction)
        requires
            old(self).well_formed(),
            old(self).stage == RecoveryStage::Deciding,
        ensures
            final(self).well_formed(),
            *final(self) == (if action == RecoveryAction::Skip {
                RecoveryPass {
                    at: (old(self).at + 1) as usize,
                    action,
                    stage: old(self).stage_at(old(self).at + 1),
                    ..*old(self)
                }
            } else {
                RecoveryPass { action, stage: RecoveryStage::Claiming, ..*old(self) }
            }),
    {
        self.action = action;
        if action == RecoveryAction::Skip {
            self.advance(false);
        } else {
            self.stage = RecoveryStage::Claiming;
        }
    }

    /// Takes the answer to the claim. A lost claim leaves the candidate alone;
    /// a claim that marks it failed is all there was to do; and for any other
    /// the handler runs.
    pub fn claim_answered(&mut self, claimed: Option<ExecutionState>)
        requires
            old(self).well_formed(),
            old(self).stage == RecoveryStage::Claiming,
        ensures
            final(self).well_formed(),
            match claimed {
                None => *final(self) == (RecoveryPass {
                    at: (old(self).at + 1) as usize,
                    stage: old(self).stage_at(old(self).at + 1),
                    ..*old(self)
                }),
                Some(state) => if old(self).action == RecoveryAction::MarkFailed {
                    &&& *final(self) == (RecoveryPass {
                        at: (old(self).at + 1) as usize,
                        recovered: final(self).recovered,
                        stage: old(self).stage_at(old(self).at + 1),
                        ..*old(self)
                    })
                    &&& final(self).recovered@ == old(self).recovered@.push(old(self).at)
                } else {
                    *final(self) == (RecoveryPass {
                        claimed: Some(state),
                        stage: RecoveryStage::Handling,
                        ..*old(self)
                    })
                },
            },
    {
        match claimed {
            None => self.advance(false),
            Some(state) => {
                if self.action == RecoveryAction::MarkFailed {
                    self.advance(true);
                } else {
                    self.claimed = Some(state);
                    self.stage = RecoveryStage::Handling;
                }
            },
        }
    }

    /// Takes the result of the handler, and settles the claimed state now.
    pub fn handled(&mut self, succeeded: bool)
        requires
            old(self).well_formed(),
            old(self).stage == RecoveryStage::Handling,
        ensures
            final(self).well_formed(),
            exists|now: Timestamp|
                now.well_formed() && #[trigger] is_settled(
                    *old(self),
                    *final(self),
                    succeeded,
                    now,
                ),
    {
        let now: Timestamp = utc_now();
        self.handled_at(succeeded, now);
    }

    /// Takes the result of the handler, and settles the claimed state at
    /// `now`.
    pub fn handled_at(&mut self, succeeded: bool, now: Timestamp)
        requires
            old(self).well_formed(),
            old(self).stage == RecoveryStage::Handling,
        ensures
            final(self).well_formed(),
            is_settled(*old(self), *final(self), succeeded, now),
            old(self).claimed->0.payload.well_formed()
                ==> final(self).claimed->0.payload.well_formed(),
    {
        let taken: Option<ExecutionState> = self.claimed.take();
        if let Some(mut state) = taken {
            if let Some(status) = self.action.settled_status(succeeded) {
                state.transition_at(status, now);
            }
            self.claimed = Some(state);
        }
        self.stage = RecoveryStage::Saving;
    }

    /// Records that the settled state was saved.
    pub fn saved(&mut self)
        requires
            old(self).well_formed(),
            old(self).stage == RecoveryStage::Saving,
        ensures
            final(self).well_formed(),
            *final(self) == (RecoveryPass {
                at: (old(self).at + 1) as usize,
                claimed: None,
                recovered: final(self).recovered,
                stage: old(self).stage_at(old(self).at + 1),
                ..*old(self)
            }),
            final(self).recovered@ == old(self).recovered@.push(old(self).at),
    {
        self.advance(true);
    }
}

impl RecoveryPass {
    /// Takes the current candidate through the pass, on a store that still
    /// holds it as it was found.
    fn recover_one(&mut self, store: &mut MemoryPersistence, answer: RecoveryAnswer, now: Timestamp)
        requires
            old(self).well_formed(),
            old(self).stage == RecoveryStage::Deciding,
            old(store).well_formed(),
            ({
                let state = old(self).candidates@[old(self).at as int]@;
                &&& old(store).store@.contains_key(state.correlation_id)
                &&& old(store).store@[state.correlation_id]@ == state
                &&& persistence::stale(state, old(self).cutoff)
            }),
        ensures
            final(self).well_formed(),
            final(store).well_formed(),
            final(self).candidates == old(self).candidates,
            final(self).cutoff == old(self).cutoff,
            final(self).at == old(self).at + 1,
            final(self).stage == old(self).stage_at(old(self).at + 1),
            final(self).recovered@.len() == old(self).recovered@.len() + acted(seq![answer]),
            ({
                let state = old(self).candidates@[old(self).at as int]@;
                &&& final(store).store@.contains_key(state.correlation_id)
                &&& final(store).store@[state.correlation_id]@ == recovered_state(
                    state,
                    answer,
                    now,
                )
                &&& final(store).store@.remove(state.correlation_id) == old(store).store@.remove(
                    state.correlation_id,
                )
            }),
    {
        let action: RecoveryAction = decided_or_default(answer.decision);
        let ghost state = self.candidates@[self.at as int]@;
        let ghost before = store.store@;
        proof {
            reveal_with_fuel(acted, 2);
            assert(seq![answer].drop_last() =~= Seq::empty());
        }
        self.decided(action);
        if action == RecoveryAction::Skip {
            return;
        }
        if let RecoveryWork::Claim { correlation_id, cutoff, status } = self.work() {
            let claimed: Option<ExecutionState> = store.claim_stale_at(
                correlation_id.as_str(),
                cutoff,
                status,
                now,
            );
            self.claim_answered(claimed);
            if action != RecoveryAction::MarkFailed {
                let ghost between = store.store@;
                self.handled_at(outcome_or_default(answer.outcome), now);
                if let Some(settled) = &self.claimed {
                    store.save(settled.duplicate());
                }
                self.saved();
                assert(store.store@.remove(state.correlation_id) =~= between.remove(
                    state.correlation_id,
                ));
            }
        }
    }
}

/// Whether the first `n` stuck executions were recovered and nothing else
/// changed.
#[verifier::opaque]
spec fn progress(
    before: MemoryPersistence,
    later: Map<Seq<char>, ExecutionState>,
    stuck: Seq<model::StateView>,
    answers: Seq<RecoveryAnswer>,
    n: int,
    now: Timestamp,
) -> bool {
    &&& forall|id: Seq<char>| #[trigger]
        later.contains_key(id) <==> before.store@.contains_key(id)
    &&& forall|k: int|
        0 <= k < n ==> later[(#[trigger] stuck[k]).correlation_id]@ == recovered_state(
            stuck[k],
            answers[k],
            now,
        )
    &&& forall|id: Seq<char>|
        before.store@.contains_key(id) && !touched(stuck, n, id) ==> (#[trigger] later[id])@
            == before.store@[id]@
}

/// Whether one of the first `n` stuck executions has an id.
spec fn touched(stuck: Seq<model::StateView>, n: int, id: Seq<char>) -> bool {
    exists|k: int| 0 <= k < n && (#[trigger] stuck[k]).correlation_id == id
}

proof fn lemma_progress_starts(
    before: MemoryPersistence,
    stuck: Seq<model::StateView>,
    answers: Seq<RecoveryAnswer>,
    now: Timestamp,
)
    ensures
        progress(before, before.store@, stuck, answers, 0, now),
{
    reveal(progress);
}

proof fn lemma_next_is_stale(
    before: MemoryPersistence,
    earlier: Map<Seq<char>, ExecutionState>,
    stuck: Seq<model::StateView>,
    answers: Seq<RecoveryAnswer>,
    cutoff: Timestamp,
    n: int,
    now: Timestamp,
)
    requires
        before.well_formed(),
        stuck == persistence::stale_states(before.store.entries@, cutoff),
        0 <= n < stuck.len(),
        progress(before, earlier, stuck, answers, n, now),
    ensures
        earlier.contains_key(stuck[n].correlation_id),
        earlier[stuck[n].correlation_id]@ == stuck[n],
        persistence::stale(stuck[n], cutoff),
{
    reveal(progress);
    persistence::lemma_stale_states(before, cutoff);
    let id = stuck[n].correlation_id;
    assert(before.store@.contains_key(id));
    if touched(stuck, n, id) {
        let k = choose|k: int| 0 <= k < n && (#[trigger] stuck[k]).correlation_id == id;
        assert(stuck[k].correlation_id != stuck[n].correlation_id);
    }
    assert(earlier[id]@ == before.store@[id]@);
}

proof fn lemma_progress(
    before: MemoryPersistence,
    earlier: Map<Seq<char>, ExecutionState>,
    later: Map<Seq<char>, ExecutionState>,
    stuck: Seq<model::StateView>,
    answers: Seq<RecoveryAnswer>,
    cutoff: Timestamp,
    n: int,
    now: Timestamp,
)
    requires
        before.well_formed(),
        stuck == persistence::stale_states(before.store.entries@, cutoff),
        0 <= n < stuck.len(),
        progress(before, earlier, stuck, answers, n, now),
        earlier.contains_key(stuck[n].correlation_id),
        later.contains_key(stuck[n].correlation_id),
        later[stuck[n].correlation_id]@ == recovered_state(stuck[n], answers[n], now),
        later.remove(stuck[n].correlation_id) == earlier.remove(stuck[n].correlation_id),
    ensures
        progress(before, later, stuck, answers, n + 1, now),
{
    reveal(progress);
    persistence::lemma_stale_states(before, cutoff);
    let id = stuck[n].correlation_id;
    assert forall|other: Seq<char>| other != id implies {
        &&& #[trigger] later.contains_key(other) == earlier.contains_key(other)
        &&& later.contains_key(other) ==> later[other] == earlier[other]
    } by {
        let a = later.remove(id);
        let b = earlier.remove(id);
        assert(a.contains_key(other) == b.contains_key(other));
        assert(a[other] == b[other]);
    }
    assert forall|k: int| 0 <= k < n + 1 implies later[(
    #[trigger] stuck[k]).correlation_id]@ == recovered_state(stuck[k], answers[k], now) by {
        if k < n {
            assert(stuck[k].correlation_id != stuck[n].correlation_id);
            assert(before.store@.contains_key(stuck[k].correlation_id));
            assert(later.contains_key(stuck[k].correlation_id));
        }
    }
    assert forall|other: Seq<char>|
        before.store@.contains_key(other) && !touched(stuck, n + 1, other) implies (
    #[trigger] later[other])@ == before.store@[other]@ by {
        assert(stuck[n].correlation_id != other);
        if touched(stuck, n, other) {
            let k = choose|k: int| 0 <= k < n && (#[trigger] stuck[k]).correlation_id == other;
            assert(0 <= k < n + 1 && stuck[k].correlation_id == other);
        }
        assert(later.contains_key(other));
        assert(earlier[other]@ == before.store@[other]@);
    }
}

proof fn lemma_progress_ends(
    before: MemoryPersistence,
    later: MemoryPersistence,
    stuck: Seq<model::StateView>,
    answers: Seq<RecoveryAnswer>,
    cutoff: Timestamp,
    now: Timestamp,
)
    requires
        before.well_formed(),
        stuck == persistence::stale_states(before.store.entries@, cutoff),
        answers.len() == stuck.len(),
        progress(before, later.store@, stuck, answers, stuck.len() as int, now),
    ensures
        is_recovery(before, later, cutoff, answers, now),
{
    reveal(progress);
    persistence::lemma_stale_states(before, cutoff);
    assert forall|id: Seq<char>|
        before.store@.contains_key(id) && !persistence::stale(
            before.store@[id]@,
            cutoff,
        ) implies (#[trigger] later.store@[id])@ == before.store@[id]@ by {
        if touched(stuck, stuck.len() as int, id) {
            let k = choose|k: int|
                0 <= k < stuck.len() && (#[trigger] stuck[k]).correlation_id == id;
            assert(before.store@[stuck[k].correlation_id]@ == stuck[k]);
        }
    }
}

/// Whether the claimed state moved, at `now`, to the status that the result of
/// its handler calls for.
pub open spec fn is_settled(
    before: RecoveryPass,
    later: RecoveryPass,
    succeeded: bool,
    now: Timestamp,
) -> bool {
    &&& later == (RecoveryPass {
        claimed: later.claimed,
        stage: RecoveryStage::Saving,
        ..before
    })
    &&& settled_status_of(before.action, succeeded) is Some
    &&& later.claimed is Some
    &&& later.claimed->0@ == model::transitioned(
        before.claimed->0@,
        settled_status_of(before.action, succeeded)->0,
        now,
    )
}

/// A handler runs only on an execution whose claim was won.
pub proof fn law_handlers_run_on_claimed_executions(pass: RecoveryPass)
    requires
        pass.well_formed(),
        pass.stage == RecoveryStage::Handling,
    ensures
        pass.claimed is Some,
        pass.action == RecoveryAction::Resume || pass.action == RecoveryAction::Compensate,
{
}

/// Each candidate is acted upon at most once, so the count never exceeds the
/// candidates.
pub proof fn law_count_is_at_most_the_candidates(pass: RecoveryPass)
    requires
        pass.well_formed(),
    ensures
        pass.recovered@.no_duplicates(),
        pass.recovered@.len() <= pass.candidates@.len(),
{
    assert forall|a: int, b: int|
        0 <= a < pass.recovered@.len() && 0 <= b < pass.recovered@.len() && a != b implies
    pass.recovered@[a] != pass.recovered@[b] by {
        if a < b {
            assert(pass.recovered@[a] < pass.recovered@[b]);
        } else {
            assert(pass.recovered@[b] < pass.recovered@[a]);
        }
    }
    lemma_increasing_below(pass.recovered@, pass.at as int, pass.recovered@.len() as int);
}

proof fn lemma_increasing_below(list: Seq<usize>, bound: int, n: int)
    requires
        0 <= n <= list.len(),
        0 <= bound,
        forall|k: int| 0 <= k < n ==> (#[trigger] list[k]) < bound,
        forall|j: int, k: int| 0 <= j < k < n ==> (#[trigger] list[j]) < (#[trigger] list[k]),
    ensures
        n <= bound,
    decreases n,
{
    if n > 0 {
        lemma_increasing_below(list, list[n - 1] as int, n - 1);
    }
}

/// Two passes cannot both act on one execution: once the first has claimed it,
/// with any of the statuses that claims use, it is no longer stale under the
/// cutoff.
pub proof fn law_overlapping_passes_act_once(
    state: model::StateView,
    action: RecoveryAction,
    cutoff: Timestamp,
    now: Timestamp,
)
    requires
        claim_status_of(action) is Some,
        time::instant(now) >= time::instant(cutoff),
    ensures
        !persistence::stale(
            model::transitioned(state, claim_status_of(action)->0, now),
            cutoff,
        ),
{
}

/// A second pass acts on nothing: where a first one left no stale execution
/// alone, and no other has become stale since, the listing is empty. A pass
/// over it counts nothing and leaves every execution as it was.
pub proof fn law_second_pass_acts_on_nothing(
    before: MemoryPersistence,
    between: MemoryPersistence,
    later: MemoryPersistence,
    first: Timestamp,
    second: Timestamp,
    answers: Seq<RecoveryAnswer>,
    more: Seq<RecoveryAnswer>,
    now: Timestamp,
    again: Timestamp,
)
    requires
        before.well_formed(),
        between.well_formed(),
        is_recovery(before, between, first, answers, now),
        forall|k: int|
            0 <= k < answers.len() ==> action_of((#[trigger] answers[k]).decision)
                != RecoveryAction::Skip,
        forall|id: Seq<char>|
            before.store@.contains_key(id) && persistence::stale(
                (#[trigger] before.store@[id])@,
                second,
            ) ==> persistence::stale(before.store@[id]@, first),
        is_recovery(between, later, second, more, again),
    ensures
        persistence::stale_states(between.store.entries@, second).len() == 0,
        acted(more) == 0,
        forall|id: Seq<char>| #[trigger]
            later.store@.contains_key(id) <==> between.store@.contains_key(id),
        forall|id: Seq<char>|
            between.store@.contains_key(id) ==> (#[trigger] later.store@[id])@
                == between.store@[id]@,
{
    let stuck = persistence::stale_states(before.store.entries@, first);
    let left = persistence::stale_states(between.store.entries@, second);
    persistence::lemma_stale_states(before, first);
    persistence::lemma_stale_states(between, second);
    assert forall|id: Seq<char>| between.store@.contains_key(id) implies !persistence::stale(
        (#[trigger] between.store@[id])@,
        second,
    ) by {
        let was = before.store@[id];
        if persistence::stale(was@, first) {
            let k = choose|k: int| 0 <= k < stuck.len() && stuck[k] == was@;
            assert(before.store@[stuck[k].correlation_id]@ == stuck[k]);
            lemma_own_id(before, id);
            assert(between.store@[stuck[k].correlation_id]@ == recovered_state(
                stuck[k],
                answers[k],
                now,
            ));
            assert(action_of(answers[k].decision) != RecoveryAction::Skip);
        } else {
            assert(between.store@[id]@ == was@);
        }
    }
    if left.len() > 0 {
        assert(between.store@[left[0].correlation_id]@ == left[0]);
    }
}

proof fn lemma_own_id(memory: MemoryPersistence, id: Seq<char>)
    requires
        memory.well_formed(),
        memory.store@.contains_key(id),
    ensures
        memory.store@[id]@.correlation_id == id,
{
    let keys = text_map::keys_of(memory.store.entries@);
    names::lemma_place(keys, id);
    let p = names::place(keys, id);
    memory.store.lemma_entry(p);
    assert(keys[p] == id);
    assert(memory.store.entries@[p].1.correlation_id@ == id);
}

/// The state in which a pass leaves a stuck execution, by the answer about it.
/// Skipped, it stays as it was. Marked failed, which is also what happens where
/// nothing decides, it has failed. Resumed, it has completed where the handler
/// succeeded; compensated, it is compensated where the handler did; and where
/// the handler failed or is absent it has failed. Whatever was done ends the
/// execution now, and changes nothing else of it.
pub proof fn law_recovered_executions_have_ended(
    state: model::StateView,
    answer: RecoveryAnswer,
    now: Timestamp,
)
    ensures
        ({
            let after = recovered_state(state, answer, now);
            let resumed = answer.decision == Some(RecoveryAction::Resume);
            let compensated = answer.decision == Some(RecoveryAction::Compensate);
            let skipped = answer.decision == Some(RecoveryAction::Skip);
            let succeeded = answer.outcome == Some(true);
            &&& skipped ==> after == state
            &&& !skipped && resumed && succeeded ==> after.status == ExecutionStatus::Completed
            &&& !skipped && compensated && succeeded ==> after.status
                == ExecutionStatus::Compensated
            &&& !skipped && !(resumed && succeeded) && !(compensated && succeeded) ==> after.status
                == ExecutionStatus::Failed
            &&& !skipped ==> after.updated_at == now && after.completed_at == Some(now)
            &&& after.correlation_id == state.correlation_id
            &&& after.name == state.name
            &&& after.pattern == state.pattern
            &&& after.started_at == state.started_at
            &&& after.payload == state.payload
        }),
{
}

/// A pass touches exactly the executions that were stuck: one that has ended,
/// or that was changed at the cutoff or later, is left as it was, and every
/// other one is left in the state that the answer about it calls for.
pub proof fn law_pass_touches_only_stuck_executions(
    before: MemoryPersistence,
    later: MemoryPersistence,
    cutoff: Timestamp,
    answers: Seq<RecoveryAnswer>,
    now: Timestamp,
    id: Seq<char>,
)
    requires
        before.well_formed(),
        is_recovery(before, later, cutoff, answers, now),
        before.store@.contains_key(id),
    ensures
        later.store@.contains_key(id),
        ({
            let state = before.store@[id];
            let due = time::instant(state.updated_at) < time::instant(cutoff)
                && !(state.status is Completed || state.status is Failed
                    || state.status is Cancelled || state.status is TimedOut
                    || state.status is Confirmed || state.status is Canceled
                    || state.status is Compensated);
            &&& !due ==> later.store@[id]@ == state@
            &&& due ==> exists|k: int|
                0 <= k < answers.len() && later.store@[id]@ == recovered_state(
                    state@,
                    #[trigger] answers[k],
                    now,
                )
        }),
{
    let stuck = persistence::stale_states(before.store.entries@, cutoff);
    persistence::lemma_stale_states(before, cutoff);
    let state = before.store@[id]@;
    if persistence::stale(state, cutoff) {
        let k = choose|k: int| 0 <= k < stuck.len() && stuck[k] == state;
        lemma_own_id(before, id);
        assert(later.store@[stuck[k].correlation_id]@ == recovered_state(
            stuck[k],
            answers[k],
            now,
        ));
    }
}

/// Every answer but one to skip counts: one more answer adds one to the count,
/// unless it skips the execution.
pub proof fn law_all_but_the_skipped_count(
    answers: Seq<RecoveryAnswer>,
    answer: RecoveryAnswer,
)
    ensures
        acted(Seq::empty()) == 0,
        answer.decision == Some(RecoveryAction::Skip) ==> acted(answers.push(answer)) == acted(
            answers,
        ),
        answer.decision != Some(RecoveryAction::Skip) ==> acted(answers.push(answer)) == acted(
            answers,
        ) + 1,
        acted(answers) <= answers.len(),
    decreases answers.len(),
{
    assert(answers.push(answer).drop_last() =~= answers);
    if answers.len() > 0 {
        law_all_but_the_skipped_count(answers.drop_last(), answers.last());
    }
}

/// A claimed execution is settled by how its handler went: resumed and
/// completed, or compensated, where it succeeded, and failed where it did not.
pub proof fn law_handlers_settle_what_was_claimed(
    before: RecoveryPass,
    later: RecoveryPass,
    succeeded: bool,
    now: Timestamp,
)
    requires
        is_settled(before, later, succeeded, now),
    ensures
        later.claimed is Some,
        ({
            let state = later.claimed->0;
            &&& !succeeded ==> state.status == ExecutionStatus::Failed
            &&& succeeded && before.action == RecoveryAction::Resume ==> state.status
                == ExecutionStatus::Completed
            &&& succeeded && before.action == RecoveryAction::Compensate ==> state.status
                == ExecutionStatus::Compensated
            &&& state.updated_at == now
            &&& state.completed_at == Some(now)
            &&& state.correlation_id@ == before.claimed->0.correlation_id@
        }),
        later.stage == RecoveryStage::Saving,
        later.at == before.at,
        later.recovered == before.recovered,
{
    assert(later.claimed->0@.status == later.claimed->0.status);
}

} // verus!

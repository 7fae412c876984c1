//! Waiting for all, or for the first, of several signals and timers.
//!
//! The program waits for the targets and reports which of them came; the
//! functions here say what that means for the wait.

use crate::text;
use crate::text::quoted;
use crate::time;
use crate::time::{debug_delay, Delay};
use crate::value::Value;
use vstd::prelude::*;
use vstd::string::*;

verus! {

/// One of the things to wait for.
#[derive(Debug)]
pub enum WaitTarget {
    /// A signal of an execution.
    Signal {
        /// The execution.
        correlation_id: String,
        /// The signal.
        signal: String,
    },
    /// A timer.
    Timer {
        /// How long it runs.
        delay: Delay,
    },
}

impl WaitTarget {
    /// A signal of an execution.
    pub fn signal(correlation_id: &str, signal: &str) -> (target: WaitTarget)
        ensures
            target is Signal,
            target->correlation_id@ == correlation_id@,
            target->signal@ == signal@,
    {
        WaitTarget::Signal {
            correlation_id: correlation_id.to_owned(),
            signal: signal.to_owned(),
        }
    }

    /// A timer.
    pub fn timer(delay: Delay) -> (target: WaitTarget)
        ensures
            target == (WaitTarget::Timer { delay }),
    {
        WaitTarget::Timer { delay }
    }
}

/// Which target came first.
#[derive(Debug)]
pub enum WaitOutcome {
    /// A signal.
    Signal {
        /// The signal.
        signal: String,
        /// Its payload.
        payload: Value,
    },
    /// A timer.
    Timer {
        /// Its place among the timers.
        index: usize,
    },
}

/// How a wait fails.
#[derive(Debug)]
pub enum WaitError {
    /// It was not done in time.
    TimedOut(Delay),
    /// A waiter for a signal was discarded.
    Cancelled {
        /// The execution that waited.
        correlation_id: String,
        /// The signal it waited for.
        signal: String,
    },
    /// There was nothing to wait for.
    Empty,
}

/// The message of a wait error.
pub open spec fn wait_error_text(error: WaitError) -> Seq<char> {
    match error {
        WaitError::TimedOut(limit) => "wait gate timed out after "@ + time::delay_debug(
            limit.secs,
            limit.nanos,
        ),
        WaitError::Cancelled { correlation_id, signal } => "wait gate cancelled: signal "@
            + text::debug_text(signal@) + " for "@ + text::debug_text(correlation_id@),
        WaitError::Empty => "wait gate has no targets"@,
    }
}

impl WaitError {
    /// The message of the error.
    pub fn to_string(&self) -> (message: String)
        requires
            self matches WaitError::TimedOut(limit) ==> limit.nanos < 1_000_000_000,
        ensures
            message@ == wait_error_text(*self),
            message@ == match *self {
                WaitError::TimedOut(limit) => "wait gate timed out after "@ + time::delay_debug(
                    limit.secs,
                    limit.nanos,
                ),
                WaitError::Cancelled { correlation_id, signal } =>
                    "wait gate cancelled: signal "@ + text::debug_text(signal@) + " for "@
                    + text::debug_text(correlation_id@),
                WaitError::Empty => "wait gate has no targets"@,
            },
    {
        match self {
            WaitError::TimedOut(limit) => {
                let mut out: String = "wait gate timed out after ".to_owned();
                out.append(debug_delay(*limit).as_str());
                out
            },
            WaitError::Cancelled { correlation_id, signal } => {
                let mut out: String = "wait gate cancelled: signal ".to_owned();
                out.append(quoted(signal.as_str()).as_str());
                out.append(" for ");
                out.append(quoted(correlation_id.as_str()).as_str());
                out
            },
            WaitError::Empty => "wait gate has no targets".to_owned(),
        }
    }
}

/// What came of one target.
#[derive(Debug)]
pub enum TargetEvent {
    /// The signal came, with this payload.
    Signalled(Value),
    /// The waiter for the signal was discarded.
    Discarded,
    /// The timer ran out.
    Elapsed,
}

/// What came first.
#[derive(Debug)]
pub enum GateEvent {
    /// Something came of this target.
    Target(usize, TargetEvent),
    /// The time was up.
    Expired(Delay),
}

/// Whether an event can come of a target.
pub open spec fn fits(target: WaitTarget, event: TargetEvent) -> bool {
    match target {
        WaitTarget::Signal { .. } => !(event is Elapsed),
        WaitTarget::Timer { .. } => event is Elapsed,
    }
}

/// The number of timers among some targets.
pub open spec fn timers_in(targets: Seq<WaitTarget>) -> nat
    decreases targets.len(),
{
    if targets.len() == 0 {
        0
    } else {
        timers_in(targets.drop_last()) + if targets.last() is Timer {
            1nat
        } else {
            0nat
        }
    }
}

/// What an event of target `i` means for one that waits for the first: a
/// signal wins with its payload, a timer with its place among the timers, and
/// a discarded waiter cancels the wait.
pub open spec fn wins(
    targets: Seq<WaitTarget>,
    i: int,
    event: TargetEvent,
    result: Result<WaitOutcome, WaitError>,
) -> bool {
    match event {
        TargetEvent::Signalled(payload) => result matches Ok(WaitOutcome::Signal {
            signal,
            payload: carried,
        }) && signal@ == targets[i]->signal@ && carried == payload,
        TargetEvent::Discarded => result matches Err(WaitError::Cancelled {
            correlation_id,
            signal,
        }) && correlation_id@ == targets[i]->correlation_id@ && signal@ == targets[i]->signal@,
        TargetEvent::Elapsed => result matches Ok(WaitOutcome::Timer { index }) && index
            == timers_in(targets.take(i)),
    }
}

/// What the first event means for one that waits for the first of some
/// targets; without targets there is nothing to wait for.
pub fn wait_any(targets: &Vec<WaitTarget>, first: Option<GateEvent>) -> (result: Result<
    WaitOutcome,
    WaitError,
>)
    requires
        targets@.len() > 0 ==> first is Some,
        first matches Some(GateEvent::Target(i, event)) ==> i < targets@.len() && fits(
            targets@[i as int],
            event,
        ),
    ensures
        targets@.len() == 0 ==> result == Err::<WaitOutcome, WaitError>(WaitError::Empty),
        targets@.len() > 0 ==> match first->0 {
            GateEvent::Target(i, event) => wins(targets@, i as int, event, result),
            GateEvent::Expired(limit) => result == Err::<WaitOutcome, WaitError>(
                WaitError::TimedOut(limit),
            ),
        },
        first matches Some(GateEvent::Target(i, event)) ==> {
            &&& result is Ok <==> !(event is Discarded)
            &&& event matches TargetEvent::Signalled(carried) ==> result->Ok_0 is Signal
                && result->Ok_0->signal@ == targets@[i as int]->signal@
                && result->Ok_0->payload == carried
            &&& event is Elapsed ==> result->Ok_0 is Timer && result->Ok_0->index == timers_in(
                targets@.take(i as int),
            )
        },
{
    if targets.len() == 0 {
        return Err(WaitError::Empty);
    }
    match first {
        Some(GateEvent::Expired(limit)) => Err(WaitError::TimedOut(limit)),
        Some(GateEvent::Target(i, event)) => match &targets[i] {
            WaitTarget::Signal { correlation_id, signal } => match event {
                TargetEvent::Signalled(payload) => Ok(
                    WaitOutcome::Signal { signal: signal.clone(), payload },
                ),
                _ => Err(
                    WaitError::Cancelled {
                        correlation_id: correlation_id.clone(),
                        signal: signal.clone(),
                    },
                ),
            },
            WaitTarget::Timer { .. } => {
                let mut index: usize = 0;
                let mut k: usize = 0;
                while k < i
                    invariant
                        k <= i < targets@.len(),
                        index <= k,
                        index == timers_in(targets@.take(k as int)),
                    decreases i - k,
                {
                    proof {
                        let next = targets@.take(k + 1);
                        assert(next.drop_last() =~= targets@.take(k as int));
                        assert(next.last() == targets@[k as int]);
                    }
                    if let WaitTarget::Timer { .. } = &targets[k] {
                        index += 1;
                    }
                    k += 1;
                }
                Ok(WaitOutcome::Timer { index })
            },
        },
        None => Err(WaitError::Empty),
    }
}

/// A wait for all of some targets.
#[derive(Debug)]
pub struct WaitAll {
    /// Which targets have come.
    pub done: Vec<bool>,
    /// How many have not.
    pub left: usize,
}

/// The number of flags that are not set.
pub open spec fn outstanding(done: Seq<bool>) -> nat
    decreases done.len(),
{
    if done.len() == 0 {
        0
    } else {
        outstanding(done.drop_last()) + if done.last() {
            0nat
        } else {
            1nat
        }
    }
}

proof fn lemma_outstanding(done: Seq<bool>, i: int)
    requires
        0 <= i < done.len(),
        !done[i],
    ensures
        outstanding(done) > 0,
        outstanding(done.update(i, true)) == outstanding(done) - 1,
    decreases done.len(),
{
    let later = done.update(i, true);
    if i == done.len() - 1 {
        assert(later.drop_last() =~= done.drop_last());
    } else {
        lemma_outstanding(done.drop_last(), i);
        assert(later.drop_last() =~= done.drop_last().update(i, true));
    }
}

proof fn lemma_none_outstanding(done: Seq<bool>)
    ensures
        outstanding(done) == 0 <==> forall|i: int| 0 <= i < done.len() ==> #[trigger] done[i],
    decreases done.len(),
{
    if done.len() > 0 {
        lemma_none_outstanding(done.drop_last());
        if outstanding(done) == 0 {
            assert forall|i: int| 0 <= i < done.len() implies #[trigger] done[i] by {
                if i < done.len() - 1 {
                    assert(done.drop_last()[i]);
                }
            }
        }
        if forall|i: int| 0 <= i < done.len() ==> #[trigger] done[i] {
            assert forall|i: int| 0 <= i < done.len() - 1 implies #[trigger] done.drop_last()[i] by {
                assert(done[i]);
            }
            assert(done[done.len() - 1]);
        }
    }
}

impl WaitAll {
    /// Whether the count agrees with the flags.
    pub open spec fn well_formed(self, targets: Seq<WaitTarget>) -> bool {
        self.done@.len() == targets.len() && self.left == outstanding(self.done@)
    }

    /// Starts waiting.
    pub fn begin(targets: &Vec<WaitTarget>) -> (wait: WaitAll)
        ensures
            wait.well_formed(targets@),
            forall|i: int| 0 <= i < targets@.len() ==> !#[trigger] wait.done@[i],
            wait.left == targets@.len(),
    {
        let mut done: Vec<bool> = Vec::new();
        let mut i: usize = 0;
        while i < targets.len()
            invariant
                i <= targets@.len(),
                done@.len() == i,
                outstanding(done@) == i,
                forall|k: int| 0 <= k < i ==> !#[trigger] done@[k],
            decreases targets.len() - i,
        {
            let ghost before = done@;
            done.push(false);
            assert(done@.drop_last() =~= before);
            i += 1;
        }
        WaitAll { done, left: targets.len() }
    }

    /// Whether every target has come. Without targets that is so from the
    /// start.
    pub fn is_complete(&self) -> (yes: bool)
        requires
            self.left == outstanding(self.done@),
        ensures
            yes == (forall|i: int| 0 <= i < self.done@.len() ==> #[trigger] self.done@[i]),
    {
        proof {
            lemma_none_outstanding(self.done@);
        }
        self.left == 0
    }

    /// Takes an event. A target that came is counted; a discarded waiter or
    /// the end of the time fails the wait.
    pub fn take(&mut self, targets: &Vec<WaitTarget>, event: GateEvent) -> (failed: Option<WaitError>)
        requires
            old(self).well_formed(targets@),
            event matches GateEvent::Target(i, came) ==> i < targets@.len() && !old(
                self,
            ).done@[i as int] && fits(targets@[i as int], came),
        ensures
            final(self).well_formed(targets@),
            match event {
                GateEvent::Expired(limit) => {
                    &&& failed == Some(WaitError::TimedOut(limit))
                    &&& *final(self) == *old(self)
                },
                GateEvent::Target(i, came) => if came is Discarded {
                    &&& failed matches Some(WaitError::Cancelled { correlation_id, signal })
                    &&& correlation_id@ == targets@[i as int]->correlation_id@
                    &&& signal@ == targets@[i as int]->signal@
                    &&& *final(self) == *old(self)
                } else {
                    &&& failed is None
                    &&& final(self).done@ == old(self).done@.update(i as int, true)
                },
            },
    {
        match event {
            GateEvent::Expired(limit) => Some(WaitError::TimedOut(limit)),
            GateEvent::Target(i, came) => {
                if let WaitTarget::Signal { correlation_id, signal } = &targets[i] {
                    if let TargetEvent::Discarded = came {
                        return Some(
                            WaitError::Cancelled {
                                correlation_id: correlation_id.clone(),
                                signal: signal.clone(),
                            },
                        );
                    }
                }
                proof {
                    lemma_outstanding(self.done@, i as int);
                }
                self.done.set(i, true);
                self.left = self.left - 1;
                None
            },
        }
    }
}

/// A wait for all is complete only when every target has come.
pub proof fn law_all_means_every_target(wait: WaitAll, targets: Seq<WaitTarget>)
    requires
        wait.well_formed(targets),
        wait.left == 0,
    ensures
        forall|i: int| 0 <= i < targets.len() ==> #[trigger] wait.done@[i],
{
    lemma_none_outstanding(wait.done@);
}

/// A timer that wins is named by its place among the timers: signals before it
/// do not count.
pub proof fn law_timers_are_counted_alone(targets: Seq<WaitTarget>, target: WaitTarget)
    ensures
        timers_in(Seq::empty()) == 0,
        target is Timer ==> timers_in(targets.push(target)) == timers_in(targets) + 1,
        target is Signal ==> timers_in(targets.push(target)) == timers_in(targets),
        timers_in(targets) <= targets.len(),
    decreases targets.len(),
{
    assert(targets.push(target).drop_last() =~= targets);
    if targets.len() > 0 {
        law_timers_are_counted_alone(targets.drop_last(), targets.last());
    }
}

/// What comes first decides a wait for any: a signal wins with its name and
/// its payload, a timer as a timer, and a waiter that is discarded cancels the
/// wait under its own name.
pub proof fn law_the_first_event_decides(
    targets: Seq<WaitTarget>,
    i: int,
    event: TargetEvent,
    result: Result<WaitOutcome, WaitError>,
)
    requires
        0 <= i < targets.len(),
        fits(targets[i], event),
        wins(targets, i, event, result),
    ensures
        result is Ok <==> !(event is Discarded),
        event is Elapsed <==> targets[i] is Timer,
        result matches Ok(outcome) ==> (outcome is Timer <==> targets[i] is Timer),
        result matches Ok(WaitOutcome::Timer { index }) ==> index == timers_in(targets.take(i)),
        result matches Ok(outcome) ==> (outcome is Signal ==> outcome->signal@
            == targets[i]->signal@ && outcome->payload == event->Signalled_0),
        result matches Err(error) ==> error is Cancelled && error->correlation_id@
            == targets[i]->correlation_id@ && error->Cancelled_signal@ == targets[i]->signal@,
{
}

} // verus!

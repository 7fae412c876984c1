//! Observing orchestration: fan-out of lifecycle hooks, counters and
//! percentiles, and span tags.
//!
//! Durations and latencies are double-precision numbers of milliseconds, held
//! by their bits.

use crate::model::TccPhase;
use crate::names;
use crate::sorting;
use crate::sorting::sort_by_key;
use crate::step_context;
use crate::step_context::put;
use crate::text_map;
use crate::text_map::TextMap;
use crate::value;
use crate::value::{Number, Value, ValueView};
use vstd::prelude::*;
use vstd::string::*;

verus! {

/// A list of listeners that are called one after another.
#[derive(Debug)]
pub struct CompositeOrchestrationEvents<L> {
    /// The listeners, in the order in which they are called.
    pub delegates: Vec<L>,
}

impl<L> CompositeOrchestrationEvents<L> {
    /// A list without listeners.
    pub fn new() -> (composite: CompositeOrchestrationEvents<L>)
        ensures
            composite.delegates@.len() == 0,
    {
        CompositeOrchestrationEvents { delegates: Vec::new() }
    }

    /// The list with one listener more.
    pub fn with(self, listener: L) -> (composite: CompositeOrchestrationEvents<L>)
        ensures
            composite.delegates@ == self.delegates@.push(listener),
    {
        let mut delegates: Vec<L> = self.delegates;
        delegates.push(listener);
        CompositeOrchestrationEvents { delegates }
    }

    /// Puts one listener more at the end of the list.
    pub fn add(&mut self, listener: L)
        ensures
            final(self).delegates@ == old(self).delegates@.push(listener),
    {
        self.delegates.push(listener);
    }

    /// The number of listeners.
    pub fn len(&self) -> (n: usize)
        ensures
            n == self.delegates@.len(),
    {
        self.delegates.len()
    }

    /// Whether there is no listener.
    pub fn is_empty(&self) -> (yes: bool)
        ensures
            yes == (self.delegates@.len() == 0),
    {
        self.delegates.len() == 0
    }
}

/// The size of a double-precision number, by its bits without the sign.
pub open spec fn magnitude(bits: u64) -> int {
    if bits >= 0x8000_0000_0000_0000 {
        bits - 0x8000_0000_0000_0000
    } else {
        bits as int
    }
}

/// Whether bits stand for a number, finite or infinite.
pub open spec fn is_number(bits: u64) -> bool {
    magnitude(bits) <= 0x7ff0_0000_0000_0000
}

/// Whether bits stand for a finite number.
pub open spec fn is_finite(bits: u64) -> bool {
    magnitude(bits) < 0x7ff0_0000_0000_0000
}

/// How many samples a histogram keeps.
pub const MAX_SAMPLES: usize = 1000;

/// A histogram over its most recent samples.
#[derive(Debug)]
pub struct Hist {
    /// How many samples were added.
    pub count: u64,
    /// The most recent samples, oldest first.
    pub samples: Vec<u64>,
}

/// Samples with the keys by which they are ordered.
pub open spec fn keyed(samples: Seq<u64>) -> Seq<(i128, u64)> {
    Seq::new(samples.len(), |i: int| (value::double_key(samples[i]) as i128, samples[i]))
}

/// The sample at a rank in percent: that at place `n * percent / 100` of the
/// ascending order, the last one at most, and zero without samples.
pub open spec fn percentile_of(samples: Seq<u64>, percent: nat) -> u64 {
    let n = samples.len();
    let at = n * percent / 100;
    if n == 0 {
        0
    } else if at < n {
        sorting::stable(keyed(samples))[at as int].1
    } else {
        sorting::stable(keyed(samples)).last().1
    }
}

/// The samples after one more, of which only the most recent are kept.
pub open spec fn sampled(samples: Seq<u64>, value: u64) -> Seq<u64> {
    if samples.len() < MAX_SAMPLES {
        samples.push(value)
    } else {
        samples.push(value).drop_first()
    }
}

/// A percentile of some samples is one of them.
pub proof fn law_percentile_is_a_sample(samples: Seq<u64>, percent: nat)
    requires
        samples.len() > 0,
        percent <= 100,
    ensures
        samples.contains(percentile_of(samples, percent)),
{
    let pairs = keyed(samples);
    let sorted = sorting::stable(pairs);
    sorting::law_stable_sorts(pairs);
    let n = samples.len();
    let at = if n * percent / 100 < n {
        n * percent / 100
    } else {
        (n - 1) as nat
    };
    let pair = sorted[at as int];
    sorting::lemma_stable_member(pairs, at as int);
    let k = choose|k: int| 0 <= k < pairs.len() && pairs[k] == pair;
    assert(samples[k] == pair.1);
}

fn key_of(bits: u64) -> (key: i128)
    ensures
        key == value::double_key(bits),
{
    if bits >= 0x8000_0000_0000_0000 {
        -((bits - 0x8000_0000_0000_0000) as i128)
    } else {
        bits as i128
    }
}

impl Hist {
    /// Whether no more samples are kept than there may be, and all of them are
    /// numbers.
    pub open spec fn well_formed(self) -> bool {
        &&& self.samples@.len() <= MAX_SAMPLES
        &&& forall|k: int| 0 <= k < self.samples@.len() ==> is_number(#[trigger] self.samples@[k])
    }

    /// A histogram without samples.
    pub fn new() -> (hist: Hist)
        ensures
            hist.well_formed(),
            hist.count == 0,
            hist.samples@.len() == 0,
    {
        Hist { count: 0, samples: Vec::new() }
    }

    /// Adds a sample.
    pub fn add(&mut self, value: u64)
        requires
            old(self).well_formed(),
            old(self).count < u64::MAX,
            is_number(value),
        ensures
            final(self).well_formed(),
            final(self).count == old(self).count + 1,
            final(self).samples@ == sampled(old(self).samples@, value),
    {
        let ghost before = self.samples@;
        self.count = self.count + 1;
        self.samples.push(value);
        if self.samples.len() > MAX_SAMPLES {
            let _ = self.samples.remove(0);
            assert(self.samples@ =~= before.push(value).drop_first());
        }
    }

    /// The sample at a rank in percent.
    pub fn percentile(&self, percent: u64) -> (value: u64)
        requires
            self.well_formed(),
            percent <= 100,
        ensures
            value == percentile_of(self.samples@, percent as nat),
    {
        let n: usize = self.samples.len();
        if n == 0 {
            return 0;
        }
        let mut pairs: Vec<(i128, u64)> = Vec::new();
        let mut i: usize = 0;
        while i < n
            invariant
                i <= n,
                n == self.samples@.len(),
                pairs@ == keyed(self.samples@).take(i as int),
            decreases n - i,
        {
            let v: u64 = self.samples[i];
            pairs.push((key_of(v), v));
            assert(pairs@ =~= keyed(self.samples@).take(i + 1));
            i += 1;
        }
        assert(keyed(self.samples@).take(n as int) =~= keyed(self.samples@));
        let out: Vec<(i128, u64)> = sort_by_key(pairs);
        proof {
            sorting::law_stable_sorts(keyed(self.samples@));
        }
        assert(n * percent <= 100_000) by (nonlinear_arith)
            requires
                n <= 1000,
                percent <= 100,
        ;
        let at: u64 = (n as u64) * percent / 100;
        if at < n as u64 {
            out[at as usize].1
        } else {
            out[n - 1].1
        }
    }
}

/// Counters and histograms of orchestration activity.
#[derive(Debug)]
pub struct OrchestrationMetrics {
    /// Executions started, by name.
    pub executions_started: TextMap<u64>,
    /// Executions completed successfully, by name.
    pub executions_completed: TextMap<u64>,
    /// Executions failed, by name.
    pub executions_failed: TextMap<u64>,
    /// Durations of executions, by name.
    pub execution_duration: TextMap<Hist>,
    /// Steps started, by name and step.
    pub steps_started: TextMap<u64>,
    /// Steps that succeeded, by name and step.
    pub steps_succeeded: TextMap<u64>,
    /// Steps that failed, by name and step.
    pub steps_failed: TextMap<u64>,
    /// Latencies of steps, by name and step.
    pub step_latency: TextMap<Hist>,
    /// Compensations, by name and step.
    pub compensations: TextMap<u64>,
    /// Compensations that failed, by name and step.
    pub compensation_failures: TextMap<u64>,
    /// Executions and steps that were dead-lettered.
    pub dead_letters: u64,
    /// Try phases started.
    pub tries: u64,
    /// Confirm phases started.
    pub confirms: u64,
    /// Cancel phases started.
    pub cancels: u64,
}

/// The count under a key, zero where there is none.
pub open spec fn count_in(counts: Map<Seq<char>, u64>, key: Seq<char>) -> u64 {
    if counts.contains_key(key) {
        counts[key]
    } else {
        0
    }
}

/// The samples under a key.
pub open spec fn samples_in(hists: Map<Seq<char>, Hist>, key: Seq<char>) -> Seq<u64> {
    if hists.contains_key(key) {
        hists[key].samples@
    } else {
        Seq::empty()
    }
}

/// How many samples were added under a key.
pub open spec fn added_in(hists: Map<Seq<char>, Hist>, key: Seq<char>) -> u64 {
    if hists.contains_key(key) {
        hists[key].count
    } else {
        0
    }
}

/// Whether a map of histograms is in order throughout.
pub open spec fn good_hists(hists: TextMap<Hist>) -> bool {
    &&& hists.well_formed()
    &&& forall|k: Seq<char>| hists@.contains_key(k) ==> (#[trigger] hists@[k]).well_formed()
}

/// Whether `later` is `before` with one more sample under a key.
pub open spec fn observed(
    before: Map<Seq<char>, Hist>,
    later: Map<Seq<char>, Hist>,
    key: Seq<char>,
    value: u64,
) -> bool {
    &&& later.contains_key(key)
    &&& later[key].samples@ == sampled(samples_in(before, key), value)
    &&& later[key].count == added_in(before, key) + 1
    &&& later.remove(key) == before.remove(key)
}

/// The key of a step.
pub open spec fn step_key_text(name: Seq<char>, step: Seq<char>) -> Seq<char> {
    name + "."@ + step
}

fn step_key(name: &str, step: &str) -> (key: String)
    ensures
        key@ == step_key_text(name@, step@),
{
    let mut out: String = name.to_owned();
    out.append(".");
    out.append(step);
    out
}

/// The count under a key, zero where there is none.
pub fn count(counts: &TextMap<u64>, key: &str) -> (n: u64)
    ensures
        n == count_in(counts@, key@),
        counts@.contains_key(key@) ==> n == counts@[key@],
        !counts@.contains_key(key@) ==> n == 0,
{
    match counts.get(key) {
        Some(n) => *n,
        None => 0,
    }
}

fn bump(counts: &mut TextMap<u64>, key: &str)
    requires
        old(counts).well_formed(),
        count_in(old(counts)@, key@) < u64::MAX,
    ensures
        final(counts).well_formed(),
        final(counts)@ == old(counts)@.insert(key@, (count_in(old(counts)@, key@) + 1) as u64),
{
    let n: u64 = count(counts, key);
    counts.insert(key.to_owned(), n + 1);
}

fn observe(hists: &mut TextMap<Hist>, key: &str, value: u64)
    requires
        good_hists(*old(hists)),
        added_in(old(hists)@, key@) < u64::MAX,
        is_number(value),
    ensures
        good_hists(*final(hists)),
        observed(old(hists)@, final(hists)@, key@, value),
{
    let ghost before = hists@;
    let mut hist: Hist = match hists.remove(key) {
        Some(hist) => hist,
        None => Hist::new(),
    };
    assert(hist.samples@ =~= samples_in(before, key@));
    hist.add(value);
    hists.insert(key.to_owned(), hist);
    proof {
        assert(hists@.remove(key@) =~= before.remove(key@));
        assert forall|k: Seq<char>| hists@.contains_key(k) implies (
        #[trigger] hists@[k]).well_formed() by {
            if k != key@ {
                assert(before[k].well_formed());
            }
        }
    }
}

impl OrchestrationMetrics {
    /// Whether the maps are in order.
    pub open spec fn well_formed(self) -> bool {
        &&& self.executions_started.well_formed()
        &&& self.executions_completed.well_formed()
        &&& self.executions_failed.well_formed()
        &&& good_hists(self.execution_duration)
        &&& self.steps_started.well_formed()
        &&& self.steps_succeeded.well_formed()
        &&& self.steps_failed.well_formed()
        &&& good_hists(self.step_latency)
        &&& self.compensations.well_formed()
        &&& self.compensation_failures.well_formed()
    }

    /// Metrics of nothing.
    pub fn new() -> (metrics: OrchestrationMetrics)
        ensures
            metrics.well_formed(),
            metrics.executions_started@ == Map::<Seq<char>, u64>::empty(),
            metrics.executions_completed@ == Map::<Seq<char>, u64>::empty(),
            metrics.executions_failed@ == Map::<Seq<char>, u64>::empty(),
            metrics.execution_duration@ == Map::<Seq<char>, Hist>::empty(),
            metrics.steps_started@ == Map::<Seq<char>, u64>::empty(),
            metrics.steps_succeeded@ == Map::<Seq<char>, u64>::empty(),
            metrics.steps_failed@ == Map::<Seq<char>, u64>::empty(),
            metrics.step_latency@ == Map::<Seq<char>, Hist>::empty(),
            metrics.compensations@ == Map::<Seq<char>, u64>::empty(),
            metrics.compensation_failures@ == Map::<Seq<char>, u64>::empty(),
            metrics.dead_letters == 0,
            metrics.tries == 0,
            metrics.confirms == 0,
            metrics.cancels == 0,
    {
        OrchestrationMetrics {
            executions_started: TextMap::new(),
            executions_completed: TextMap::new(),
            executions_failed: TextMap::new(),
            execution_duration: TextMap::new(),
            steps_started: TextMap::new(),
            steps_succeeded: TextMap::new(),
            steps_failed: TextMap::new(),
            step_latency: TextMap::new(),
            compensations: TextMap::new(),
            compensation_failures: TextMap::new(),
            dead_letters: 0,
            tries: 0,
            confirms: 0,
            cancels: 0,
        }
    }

    /// How many executions and steps were dead-lettered.
    pub fn dead_letters(&self) -> (n: u64)
        ensures
            n == self.dead_letters,
    {
        self.dead_letters
    }

    /// Counts an execution that starts.
    pub fn on_start(&mut self, name: &str)
        requires
            old(self).well_formed(),
            count_in(old(self).executions_started@, name@) < u64::MAX,
        ensures
            final(self).well_formed(),
            *final(self) == (OrchestrationMetrics {
                executions_started: final(self).executions_started,
                ..*old(self)
            }),
            final(self).executions_started@ == old(self).executions_started@.insert(
                name@,
                (count_in(old(self).executions_started@, name@) + 1) as u64,
            ),
    {
        bump(&mut self.executions_started, name);
    }

    /// Counts an execution that ends, and samples its duration.
    pub fn on_completed(&mut self, name: &str, success: bool, duration_ms: u64)
        requires
            old(self).well_formed(),
            count_in(old(self).executions_completed@, name@) < u64::MAX,
            count_in(old(self).executions_failed@, name@) < u64::MAX,
            added_in(old(self).execution_duration@, name@) < u64::MAX,
            is_number(duration_ms),
        ensures
            final(self).well_formed(),
            *final(self) == (OrchestrationMetrics {
                executions_completed: final(self).executions_completed,
                executions_failed: final(self).executions_failed,
                execution_duration: final(self).execution_duration,
                ..*old(self)
            }),
            final(self).executions_completed@ == (if success {
                old(self).executions_completed@.insert(
                    name@,
                    (count_in(old(self).executions_completed@, name@) + 1) as u64,
                )
            } else {
                old(self).executions_completed@
            }),
            final(self).executions_failed@ == (if success {
                old(self).executions_failed@
            } else {
                old(self).executions_failed@.insert(
                    name@,
                    (count_in(old(self).executions_failed@, name@) + 1) as u64,
                )
            }),
            observed(
                old(self).execution_duration@,
                final(self).execution_duration@,
                name@,
                duration_ms,
            ),
    {
        if success {
            bump(&mut self.executions_completed, name);
        } else {
            bump(&mut self.executions_failed, name);
        }
        observe(&mut self.execution_duration, name, duration_ms);
    }

    /// Counts a step that starts.
    pub fn on_step_started(&mut self, name: &str, step_id: &str)
        requires
            old(self).well_formed(),
            count_in(old(self).steps_started@, step_key_text(name@, step_id@)) < u64::MAX,
        ensures
            final(self).well_formed(),
            *final(self) == (OrchestrationMetrics {
                steps_started: final(self).steps_started,
                ..*old(self)
            }),
            final(self).steps_started@ == old(self).steps_started@.insert(
                step_key_text(name@, step_id@),
                (count_in(old(self).steps_started@, step_key_text(name@, step_id@)) + 1) as u64,
            ),
    {
        bump(&mut self.steps_started, step_key(name, step_id).as_str());
    }

    /// Counts a step that succeeds, and samples its latency.
    pub fn on_step_success(&mut self, name: &str, step_id: &str, latency_ms: u64)
        requires
            old(self).well_formed(),
            count_in(old(self).steps_succeeded@, step_key_text(name@, step_id@)) < u64::MAX,
            added_in(old(self).step_latency@, step_key_text(name@, step_id@)) < u64::MAX,
            is_number(latency_ms),
        ensures
            final(self).well_formed(),
            *final(self) == (OrchestrationMetrics {
                steps_succeeded: final(self).steps_succeeded,
                step_latency: final(self).step_latency,
                ..*old(self)
            }),
            final(self).steps_succeeded@ == old(self).steps_succeeded@.insert(
                step_key_text(name@, step_id@),
                (count_in(old(self).steps_succeeded@, step_key_text(name@, step_id@)) + 1) as u64,
            ),
            observed(
                old(self).step_latency@,
                final(self).step_latency@,
                step_key_text(name@, step_id@),
                latency_ms,
            ),
    {
        let key: String = step_key(name, step_id);
        bump(&mut self.steps_succeeded, key.as_str());
        observe(&mut self.step_latency, key.as_str(), latency_ms);
    }

    /// Counts a step that fails, and samples its latency.
    pub fn on_step_failed(&mut self, name: &str, step_id: &str, latency_ms: u64)
        requires
            old(self).well_formed(),
            count_in(old(self).steps_failed@, step_key_text(name@, step_id@)) < u64::MAX,
            added_in(old(self).step_latency@, step_key_text(name@, step_id@)) < u64::MAX,
            is_number(latency_ms),
        ensures
            final(self).well_formed(),
            *final(self) == (OrchestrationMetrics {
                steps_failed: final(self).steps_failed,
                step_latency: final(self).step_latency,
                ..*old(self)
            }),
            final(self).steps_failed@ == old(self).steps_failed@.insert(
                step_key_text(name@, step_id@),
                (count_in(old(self).steps_failed@, step_key_text(name@, step_id@)) + 1) as u64,
            ),
            observed(
                old(self).step_latency@,
                final(self).step_latency@,
                step_key_text(name@, step_id@),
                latency_ms,
            ),
    {
        let key: String = step_key(name, step_id);
        bump(&mut self.steps_failed, key.as_str());
        observe(&mut self.step_latency, key.as_str(), latency_ms);
    }

    /// Counts a compensation, and its failure.
    pub fn on_step_compensated(&mut self, name: &str, step_id: &str, failed: bool)
        requires
            old(self).well_formed(),
            count_in(old(self).compensations@, step_key_text(name@, step_id@)) < u64::MAX,
            count_in(old(self).compensation_failures@, step_key_text(name@, step_id@)) < u64::MAX,
        ensures
            final(self).well_formed(),
            *final(self) == (OrchestrationMetrics {
                compensations: final(self).compensations,
                compensation_failures: final(self).compensation_failures,
                ..*old(self)
            }),
            final(self).compensations@ == old(self).compensations@.insert(
                step_key_text(name@, step_id@),
                (count_in(old(self).compensations@, step_key_text(name@, step_id@)) + 1) as u64,
            ),
            final(self).compensation_failures@ == (if failed {
                old(self).compensation_failures@.insert(
                    step_key_text(name@, step_id@),
                    (count_in(old(self).compensation_failures@, step_key_text(name@, step_id@))
                        + 1) as u64,
                )
            } else {
                old(self).compensation_failures@
            }),
    {
        let key: String = step_key(name, step_id);
        bump(&mut self.compensations, key.as_str());
        if failed {
            bump(&mut self.compensation_failures, key.as_str());
        }
    }

    /// How often a phase was started.
    pub open spec fn phase_count(self, phase: TccPhase) -> u64 {
        match phase {
            TccPhase::Try => self.tries,
            TccPhase::Confirm => self.confirms,
            TccPhase::Cancel => self.cancels,
        }
    }

    /// Counts a phase that starts.
    pub fn on_phase_started(&mut self, phase: TccPhase)
        requires
            old(self).well_formed(),
            old(self).phase_count(phase) < u64::MAX,
        ensures
            final(self).well_formed(),
            *final(self) == (OrchestrationMetrics {
                tries: final(self).tries,
                confirms: final(self).confirms,
                cancels: final(self).cancels,
                ..*old(self)
            }),
            forall|other: TccPhase| #[trigger]
                final(self).phase_count(other) == old(self).phase_count(other) + if other == phase {
                    1int
                } else {
                    0
                },
            final(self).tries == old(self).tries + if phase == TccPhase::Try {
                1int
            } else {
                0
            },
            final(self).confirms == old(self).confirms + if phase == TccPhase::Confirm {
                1int
            } else {
                0
            },
            final(self).cancels == old(self).cancels + if phase == TccPhase::Cancel {
                1int
            } else {
                0
            },
    {
        match phase {
            TccPhase::Try => {
                self.tries = self.tries + 1;
            },
            TccPhase::Confirm => {
                self.confirms = self.confirms + 1;
            },
            TccPhase::Cancel => {
                self.cancels = self.cancels + 1;
            },
        }
    }

    /// Counts an execution or a step that is dead-lettered.
    pub fn on_dead_lettered(&mut self)
        requires
            old(self).well_formed(),
            old(self).dead_letters < u64::MAX,
        ensures
            final(self).well_formed(),
            *final(self) == (OrchestrationMetrics {
                dead_letters: (old(self).dead_letters + 1) as u64,
                ..*old(self)
            }),
    {
        self.dead_letters = self.dead_letters + 1;
    }
}

/// A count as a JSON value.
pub open spec fn count_view(n: u64) -> ValueView {
    ValueView::Number(Number::PosInt(n))
}

/// A double-precision number as a JSON value: `null` where it is not finite.
pub open spec fn double_view(bits: u64) -> ValueView {
    if is_finite(bits) {
        ValueView::Number(Number::Float(bits))
    } else {
        ValueView::Null
    }
}

/// What a snapshot shows of one execution name.
pub open spec fn execution_record(metrics: OrchestrationMetrics, name: Seq<char>) -> Map<
    Seq<char>,
    ValueView,
> {
    let durations = samples_in(metrics.execution_duration@, name);
    Map::empty().insert(
        "started"@,
        count_view(count_in(metrics.executions_started@, name)),
    ).insert("completed"@, count_view(count_in(metrics.executions_completed@, name))).insert(
        "failed"@,
        count_view(count_in(metrics.executions_failed@, name)),
    ).insert("duration_p50_ms"@, double_view(percentile_of(durations, 50))).insert(
        "duration_p95_ms"@,
        double_view(percentile_of(durations, 95)),
    )
}

/// What a snapshot shows of one step key.
pub open spec fn step_record(metrics: OrchestrationMetrics, key: Seq<char>) -> Map<
    Seq<char>,
    ValueView,
> {
    let latencies = samples_in(metrics.step_latency@, key);
    Map::empty().insert("started"@, count_view(count_in(metrics.steps_started@, key))).insert(
        "succeeded"@,
        count_view(count_in(metrics.steps_succeeded@, key)),
    ).insert("failed"@, count_view(count_in(metrics.steps_failed@, key))).insert(
        "p50_ms"@,
        double_view(percentile_of(latencies, 50)),
    ).insert("p95_ms"@, double_view(percentile_of(latencies, 95)))
}

/// What a snapshot shows of a step key, or else of an execution name.
pub open spec fn record_of(metrics: OrchestrationMetrics, steps: bool, key: Seq<char>) -> Map<
    Seq<char>,
    ValueView,
> {
    if steps {
        step_record(metrics, key)
    } else {
        execution_record(metrics, key)
    }
}

/// Whether a snapshot lists a step key, or else an execution name: whether
/// anything was counted under it.
pub open spec fn listed(metrics: OrchestrationMetrics, steps: bool, key: Seq<char>) -> bool {
    if steps {
        metrics.steps_started@.contains_key(key) || metrics.steps_succeeded@.contains_key(key)
            || metrics.steps_failed@.contains_key(key)
    } else {
        metrics.executions_started@.contains_key(key)
            || metrics.executions_completed@.contains_key(key)
            || metrics.executions_failed@.contains_key(key)
    }
}

/// Whether a value is the object of the records of all step keys, or else of
/// all execution names, that a snapshot lists.
pub open spec fn is_record_table(
    metrics: OrchestrationMetrics,
    steps: bool,
    table: ValueView,
) -> bool {
    &&& table is Object
    &&& forall|key: Seq<char>|
        match #[trigger] value::field_of(table, key) {
            Some(record) => listed(metrics, steps, key) && step_context::is_object_of(
                record,
                record_of(metrics, steps, key),
            ),
            None => !listed(metrics, steps, key),
        }
}

/// Counts as JSON values.
pub open spec fn count_views(counts: Map<Seq<char>, u64>) -> Map<Seq<char>, ValueView> {
    Map::new(|k: Seq<char>| counts.contains_key(k), |k: Seq<char>| count_view(counts[k]))
}

/// The phases that were started, with their counts.
pub open spec fn phase_views(metrics: OrchestrationMetrics) -> Map<Seq<char>, ValueView> {
    let tries = if metrics.tries > 0 {
        Map::empty().insert("TRY"@, count_view(metrics.tries))
    } else {
        Map::empty()
    };
    let confirms = if metrics.confirms > 0 {
        tries.insert("CONFIRM"@, count_view(metrics.confirms))
    } else {
        tries
    };
    if metrics.cancels > 0 {
        confirms.insert("CANCEL"@, count_view(metrics.cancels))
    } else {
        confirms
    }
}

/// Whether a value is the snapshot of some metrics: an object with the six
/// parts and nothing else.
pub open spec fn is_metrics_snapshot(metrics: OrchestrationMetrics, snapshot: ValueView) -> bool {
    &&& snapshot is Object
    &&& value::field_of(snapshot, "executions"@) matches Some(v) && is_record_table(
        metrics,
        false,
        v,
    )
    &&& value::field_of(snapshot, "steps"@) matches Some(v) && is_record_table(metrics, true, v)
    &&& value::field_of(snapshot, "compensations"@) matches Some(v) && step_context::is_object_of(
        v,
        count_views(metrics.compensations@),
    )
    &&& value::field_of(snapshot, "compensation_failures"@) matches Some(v)
        && step_context::is_object_of(v, count_views(metrics.compensation_failures@))
    &&& value::field_of(snapshot, "dead_letters"@) == Some(count_view(metrics.dead_letters))
    &&& value::field_of(snapshot, "tcc_phases"@) matches Some(v) && step_context::is_object_of(
        v,
        phase_views(metrics),
    )
    &&& forall|k: Seq<char>|
        k != "executions"@ && k != "steps"@ && k != "compensations"@ && k
            != "compensation_failures"@ && k != "dead_letters"@ && k != "tcc_phases"@
            ==> #[trigger] value::field_of(snapshot, k) is None
}

fn count_value(n: u64) -> (v: Value)
    ensures
        v.well_formed(),
        v.model() == count_view(n),
{
    Value::Number(Number::PosInt(n))
}

fn double_value(bits: u64) -> (v: Value)
    ensures
        v.well_formed(),
        v.model() == double_view(bits),
{
    let size: u64 = if bits >= 0x8000_0000_0000_0000 {
        bits - 0x8000_0000_0000_0000
    } else {
        bits
    };
    if size < 0x7ff0_0000_0000_0000 {
        Value::Number(Number::Float(bits))
    } else {
        Value::Null
    }
}

fn counts_value(counts: &TextMap<u64>) -> (v: Value)
    requires
        counts.well_formed(),
    ensures
        v.well_formed(),
        step_context::is_object_of(v.model(), count_views(counts@)),
{
    let mut entries: Vec<(String, Value)> = Vec::new();
    let mut i: usize = 0;
    while i < counts.entries.len()
        invariant
            i <= counts.entries@.len(),
            entries@.len() == i,
            forall|k: int|
                0 <= k < i ==> (#[trigger] entries@[k]).0@ == counts.entries@[k].0@
                    && entries@[k].1.well_formed() && entries@[k].1.model() == count_view(
                    counts.entries@[k].1,
                ),
        decreases counts.entries.len() - i,
    {
        entries.push((counts.entries[i].0.clone(), count_value(counts.entries[i].1)));
        i += 1;
    }
    let fields: TextMap<Value> = TextMap { entries };
    proof {
        let keys = text_map::keys_of(counts.entries@);
        assert(text_map::keys_of(fields.entries@) =~= keys);
        let a = step_context::values_of(fields);
        let b = count_views(counts@);
        assert forall|k: Seq<char>|
            #![trigger a.dom().contains(k)]
            #![trigger b.dom().contains(k)]
            a.dom().contains(k) == b.dom().contains(k) && (a.dom().contains(k) ==> a[k]
                == b[k]) by {
            names::lemma_place(keys, k);
        }
        assert(a =~= b);
        step_context::lemma_is_object_of(fields);
    }
    Value::Object(fields)
}

impl OrchestrationMetrics {
    fn percentiles(hists: &TextMap<Hist>, key: &str) -> (pair: (u64, u64))
        requires
            good_hists(*hists),
        ensures
            pair.0 == percentile_of(samples_in(hists@, key@), 50),
            pair.1 == percentile_of(samples_in(hists@, key@), 95),
    {
        match hists.get(key) {
            Some(hist) => {
                assert(hists@[key@].well_formed());
                (hist.percentile(50), hist.percentile(95))
            },
            None => (0, 0),
        }
    }

    fn record(&self, steps: bool, key: &str) -> (v: Value)
        requires
            self.well_formed(),
        ensures
            v.well_formed(),
            step_context::is_object_of(v.model(), record_of(*self, steps, key@)),
    {
        let mut fields: TextMap<Value> = TextMap::new();
        assert(step_context::values_of(fields) =~= Map::empty());
        if steps {
            let pair: (u64, u64) = Self::percentiles(&self.step_latency, key);
            put(&mut fields, "started".to_owned(), count_value(count(&self.steps_started, key)));
            put(&mut fields, "succeeded".to_owned(), count_value(count(&self.steps_succeeded, key)));
            put(&mut fields, "failed".to_owned(), count_value(count(&self.steps_failed, key)));
            put(&mut fields, "p50_ms".to_owned(), double_value(pair.0));
            put(&mut fields, "p95_ms".to_owned(), double_value(pair.1));
        } else {
            let pair: (u64, u64) = Self::percentiles(&self.execution_duration, key);
            put(
                &mut fields,
                "started".to_owned(),
                count_value(count(&self.executions_started, key)),
            );
            put(
                &mut fields,
                "completed".to_owned(),
                count_value(count(&self.executions_completed, key)),
            );
            put(
                &mut fields,
                "failed".to_owned(),
                count_value(count(&self.executions_failed, key)),
            );
            put(&mut fields, "duration_p50_ms".to_owned(), double_value(pair.0));
            put(&mut fields, "duration_p95_ms".to_owned(), double_value(pair.1));
        }
        proof {
            step_context::lemma_good_entries(fields);
            step_context::lemma_is_object_of(fields);
        }
        Value::Object(fields)
    }

    /// Whether every member of a table is the record of its key.
    spec fn holds_records(self, steps: bool, table: Map<Seq<char>, ValueView>) -> bool {
        forall|k: Seq<char>|
            table.contains_key(k) ==> step_context::is_object_of(
                #[trigger] table[k],
                record_of(self, steps, k),
            )
    }

    fn fill(&self, steps: bool, counts: &TextMap<u64>, table: &mut TextMap<Value>)
        requires
            self.well_formed(),
            step_context::good_values(*old(table)),
            self.holds_records(steps, step_context::values_of(*old(table))),
        ensures
            step_context::good_values(*final(table)),
            self.holds_records(steps, step_context::values_of(*final(table))),
            forall|k: Seq<char>| #[trigger]
                step_context::values_of(*final(table)).contains_key(k)
                    <==> step_context::values_of(*old(table)).contains_key(k)
                    || counts@.contains_key(k),
    {
        let ghost before = step_context::values_of(*table);
        let ghost keys = text_map::keys_of(counts.entries@);
        let mut i: usize = 0;
        while i < counts.entries.len()
            invariant
                i <= counts.entries@.len(),
                self.well_formed(),
                keys == text_map::keys_of(counts.entries@),
                step_context::good_values(*table),
                self.holds_records(steps, step_context::values_of(*table)),
                forall|k: Seq<char>| #[trigger]
                    step_context::values_of(*table).contains_key(k) <==> before.contains_key(k)
                        || 0 <= names::place(keys, k) < i,
            decreases counts.entries.len() - i,
        {
            let ghost last = step_context::values_of(*table);
            let record: Value = self.record(steps, counts.entries[i].0.as_str());
            let key: String = counts.entries[i].0.clone();
            put(table, key, record);
            proof {
                let name = counts.entries@[i as int].0@;
                let now = step_context::values_of(*table);
                names::lemma_place(keys, name);
                assert(keys[i as int] == name);
                assert forall|k: Seq<char>| #[trigger]
                    now.contains_key(k) <==> before.contains_key(k) || 0 <= names::place(keys, k)
                        < i + 1 by {
                    names::lemma_place(keys, k);
                    assert(last.contains_key(k) <==> before.contains_key(k) || 0 <= names::place(
                        keys,
                        k,
                    ) < i);
                    if names::place(keys, k) == i {
                        assert(k == name);
                    }
                }
                assert forall|k: Seq<char>| now.contains_key(k) implies step_context::is_object_of(
                    #[trigger] now[k],
                    record_of(*self, steps, k),
                ) by {
                    if k != name {
                        assert(last.contains_key(k));
                        assert(now[k] == last[k]);
                    }
                }
            }
            i += 1;
        }
        proof {
            assert forall|k: Seq<char>| #[trigger]
                step_context::values_of(*table).contains_key(k) <==> before.contains_key(k)
                    || counts@.contains_key(k) by {
                names::lemma_place(keys, k);
            }
        }
    }

    fn table(&self, steps: bool) -> (v: Value)
        requires
            self.well_formed(),
        ensures
            v.well_formed(),
            is_record_table(*self, steps, v.model()),
    {
        let mut fields: TextMap<Value> = TextMap::new();
        assert(step_context::values_of(fields) =~= Map::empty());
        if steps {
            self.fill(true, &self.steps_started, &mut fields);
            self.fill(true, &self.steps_succeeded, &mut fields);
            self.fill(true, &self.steps_failed, &mut fields);
        } else {
            self.fill(false, &self.executions_started, &mut fields);
            self.fill(false, &self.executions_completed, &mut fields);
            self.fill(false, &self.executions_failed, &mut fields);
        }
        proof {
            step_context::lemma_good_entries(fields);
            step_context::lemma_is_object_of(fields);
            let table = Value::Object(fields).model();
            let all = step_context::values_of(fields);
            assert forall|key: Seq<char>|
                match #[trigger] value::field_of(table, key) {
                    Some(record) => listed(*self, steps, key) && step_context::is_object_of(
                        record,
                        record_of(*self, steps, key),
                    ),
                    None => !listed(*self, steps, key),
                } by {
                assert(value::field_of(table, key) == step_context::entry(all, key));
                assert(all.contains_key(key) <==> listed(*self, steps, key));
            }
        }
        Value::Object(fields)
    }

    fn phases(&self) -> (v: Value)
        ensures
            v.well_formed(),
            step_context::is_object_of(v.model(), phase_views(*self)),
    {
        let mut fields: TextMap<Value> = TextMap::new();
        assert(step_context::values_of(fields) =~= Map::empty());
        if self.tries > 0 {
            put(&mut fields, TccPhase::Try.to_string(), count_value(self.tries));
        }
        if self.confirms > 0 {
            put(&mut fields, TccPhase::Confirm.to_string(), count_value(self.confirms));
        }
        if self.cancels > 0 {
            put(&mut fields, TccPhase::Cancel.to_string(), count_value(self.cancels));
        }
        proof {
            step_context::lemma_good_entries(fields);
            step_context::lemma_is_object_of(fields);
        }
        Value::Object(fields)
    }

    /// The metrics as one JSON object.
    pub fn snapshot(&self) -> (snapshot: Value)
        requires
            self.well_formed(),
        ensures
            snapshot.well_formed(),
            is_metrics_snapshot(*self, snapshot.model()),
    {
        let executions: Value = self.table(false);
        let steps: Value = self.table(true);
        let compensations: Value = counts_value(&self.compensations);
        let failures: Value = counts_value(&self.compensation_failures);
        let phases: Value = self.phases();
        let mut fields: TextMap<Value> = TextMap::new();
        assert(step_context::values_of(fields) =~= Map::empty());
        proof {
            lemma_snapshot_keys();
        }
        put(&mut fields, "executions".to_owned(), executions);
        put(&mut fields, "steps".to_owned(), steps);
        put(&mut fields, "compensations".to_owned(), compensations);
        put(&mut fields, "compensation_failures".to_owned(), failures);
        put(&mut fields, "dead_letters".to_owned(), count_value(self.dead_letters));
        put(&mut fields, "tcc_phases".to_owned(), phases);
        proof {
            step_context::lemma_good_entries(fields);
            step_context::lemma_is_object_of(fields);
            let all = step_context::values_of(fields);
            let whole = Value::Object(fields).model();
            assert(value::field_of(whole, "executions"@) == step_context::entry(
                all,
                "executions"@,
            ));
            assert(value::field_of(whole, "steps"@) == step_context::entry(all, "steps"@));
            assert(value::field_of(whole, "compensations"@) == step_context::entry(
                all,
                "compensations"@,
            ));
            assert(value::field_of(whole, "compensation_failures"@) == step_context::entry(
                all,
                "compensation_failures"@,
            ));
            assert(value::field_of(whole, "dead_letters"@) == step_context::entry(
                all,
                "dead_letters"@,
            ));
            assert(value::field_of(whole, "tcc_phases"@) == step_context::entry(
                all,
                "tcc_phases"@,
            ));
        }
        Value::Object(fields)
    }
}

proof fn lemma_snapshot_keys()
    ensures
        "executions"@ != "steps"@,
        "executions"@ != "compensations"@,
        "executions"@ != "compensation_failures"@,
        "executions"@ != "dead_letters"@,
        "executions"@ != "tcc_phases"@,
        "steps"@ != "compensations"@,
        "steps"@ != "compensation_failures"@,
        "steps"@ != "dead_letters"@,
        "steps"@ != "tcc_phases"@,
        "compensations"@ != "compensation_failures"@,
        "compensations"@ != "dead_letters"@,
        "compensations"@ != "tcc_phases"@,
        "compensation_failures"@ != "dead_letters"@,
        "compensation_failures"@ != "tcc_phases"@,
        "dead_letters"@ != "tcc_phases"@,
{
    reveal_strlit("executions");
    reveal_strlit("steps");
    reveal_strlit("compensations");
    reveal_strlit("compensation_failures");
    reveal_strlit("dead_letters");
    reveal_strlit("tcc_phases");
    assert("executions"@.len() == 10);
    assert("steps"@.len() == 5);
    assert("compensations"@.len() == 13);
    assert("compensation_failures"@.len() == 21);
    assert("dead_letters"@.len() == 12);
    assert("tcc_phases"@.len() == 10);
    assert("executions"@[0] == 'e');
    assert("tcc_phases"@[0] == 't');
}

/// The tags of a span.
#[derive(Debug)]
pub struct SpanGuard {
    /// The service and the name of the span; none where no span is open.
    pub tags: Option<(String, String)>,
}

/// Tags spans with a service name, or opens none.
#[derive(Debug)]
pub struct OrchestrationTracer {
    /// The service name.
    pub service_name: String,
    /// Whether spans are opened.
    pub enabled: bool,
}

impl Default for OrchestrationTracer {
    fn default() -> (tracer: OrchestrationTracer)
        ensures
            tracer.service_name@ == "firefly.orchestration"@,
            tracer.enabled,
    {
        OrchestrationTracer::new("firefly.orchestration")
    }
}

impl OrchestrationTracer {
    /// A tracer that opens spans.
    pub fn new(service_name: &str) -> (tracer: OrchestrationTracer)
        ensures
            tracer.service_name@ == service_name@,
            tracer.enabled,
    {
        OrchestrationTracer { service_name: service_name.to_owned(), enabled: true }
    }

    /// A tracer that opens no spans.
    pub fn disabled() -> (tracer: OrchestrationTracer)
        ensures
            tracer.service_name@ == "firefly.orchestration"@,
            !tracer.enabled,
    {
        OrchestrationTracer { service_name: "firefly.orchestration".to_owned(), enabled: false }
    }

    /// The service name.
    pub fn service_name(&self) -> (name: &str)
        ensures
            name@ == self.service_name@,
    {
        self.service_name.as_str()
    }

    /// Whether the tracer opens spans.
    pub fn is_enabled(&self) -> (yes: bool)
        ensures
            yes == self.enabled,
    {
        self.enabled
    }

    /// The span to open for `name`: tagged with the service, or none where the
    /// tracer is disabled.
    pub fn span(&self, name: &str) -> (guard: SpanGuard)
        ensures
            match guard.tags {
                Some(tags) => self.enabled && tags.0@ == self.service_name@ && tags.1@ == name@,
                None => !self.enabled,
            },
    {
        if self.enabled {
            SpanGuard { tags: Some((self.service_name.clone(), name.to_owned())) }
        } else {
            SpanGuard { tags: None }
        }
    }
}

proof fn lemma_sorting_keeps_count(items: Seq<(i128, u64)>, pred: spec_fn((i128, u64)) -> bool)
    ensures
        sorting::stable(items).filter(pred).len() == items.filter(pred).len(),
    decreases items.len(),
{
    if items.len() == 0 {
        assert(sorting::stable(items) =~= items);
    } else {
        let tail = items.drop_first();
        lemma_sorting_keeps_count(tail, pred);
        let rest = sorting::stable(tail);
        let v = items[0];
        let at = sorting::place_before(rest, v.0);
        sorting::lemma_place_before(rest, v.0);
        let one = Seq::<(i128, u64)>::empty().push(v);
        let low = rest.take(at);
        let high = rest.skip(at);
        assert(sorting::stable(items) =~= low + (one + high));
        assert(rest =~= low + high);
        assert(items =~= one + tail);
        Seq::filter_distributes_over_add(low, one + high, pred);
        Seq::filter_distributes_over_add(one, high, pred);
        Seq::filter_distributes_over_add(low, high, pred);
        Seq::filter_distributes_over_add(one, tail, pred);
    }
}

proof fn lemma_none_pass<T>(items: Seq<T>, pred: spec_fn(T) -> bool)
    requires
        forall|i: int| 0 <= i < items.len() ==> !pred(#[trigger] items[i]),
    ensures
        items.filter(pred).len() == 0,
    decreases items.len(),
{
    reveal(Seq::filter);
    if items.len() > 0 {
        lemma_none_pass(items.drop_last(), pred);
        assert(!pred(items[items.len() - 1]));
    }
}

proof fn lemma_all_pass<T>(items: Seq<T>, pred: spec_fn(T) -> bool)
    requires
        forall|i: int| 0 <= i < items.len() ==> pred(#[trigger] items[i]),
    ensures
        items.filter(pred).len() == items.len(),
    decreases items.len(),
{
    reveal(Seq::filter);
    if items.len() > 0 {
        lemma_all_pass(items.drop_last(), pred);
        assert(pred(items[items.len() - 1]));
    }
}

proof fn lemma_keyed_count(
    samples: Seq<u64>,
    pred: spec_fn((i128, u64)) -> bool,
    plain: spec_fn(u64) -> bool,
)
    requires
        forall|s: u64| #[trigger] plain(s) == pred((value::double_key(s) as i128, s)),
    ensures
        keyed(samples).filter(pred).len() == samples.filter(plain).len(),
    decreases samples.len(),
{
    reveal(Seq::filter);
    if samples.len() > 0 {
        let front = samples.drop_last();
        lemma_keyed_count(front, pred, plain);
        assert(keyed(samples).drop_last() =~= keyed(front));
        assert(keyed(samples).last() == (
            value::double_key(samples.last()) as i128,
            samples.last(),
        ));
        assert(plain(samples.last()) == pred(keyed(samples).last()));
    }
}

/// What a percentile is: fewer than the given share of the samples, or just
/// that share, lie below it, and more than that share lie at or below it,
/// unless it is the greatest sample of all. Without samples it is zero.
pub proof fn law_percentile_has_its_rank(samples: Seq<u64>, percent: nat)
    requires
        percent <= 100,
    ensures
        samples.len() == 0 ==> percentile_of(samples, percent) == 0,
        samples.len() > 0 ==> {
            let key = value::double_key(percentile_of(samples, percent));
            let below = samples.filter(|s: u64| value::double_key(s) < key).len();
            let up_to = samples.filter(|s: u64| value::double_key(s) <= key).len();
            &&& below * 100 <= samples.len() * percent
            &&& up_to * 100 > samples.len() * percent || up_to == samples.len()
        },
{
    let n = samples.len();
    if n > 0 {
        let pairs = keyed(samples);
        let sorted = sorting::stable(pairs);
        sorting::law_stable_sorts(pairs);
        let rank: nat = n * percent / 100;
        let at: int = if rank < n {
            rank as int
        } else {
            n - 1
        };
        assert(rank * 100 <= n * percent < rank * 100 + 100) by {
            vstd::arithmetic::div_mod::lemma_fundamental_div_mod((n * percent) as int, 100);
        }
        let v = sorted[at];
        assert(percentile_of(samples, percent) == v.1);
        sorting::lemma_stable_member(pairs, at);
        let m = choose|m: int| 0 <= m < pairs.len() && pairs[m] == v;
        assert(v.0 == value::double_key(v.1));
        let key = v.0 as int;
        let lower = |p: (i128, u64)| (p.0 as int) < key;
        let upto = |p: (i128, u64)| (p.0 as int) <= key;
        let plain_lower = |s: u64| value::double_key(s) < key;
        let plain_upto = |s: u64| value::double_key(s) <= key;
        lemma_keyed_count(samples, lower, plain_lower);
        lemma_keyed_count(samples, upto, plain_upto);
        lemma_sorting_keeps_count(pairs, lower);
        lemma_sorting_keeps_count(pairs, upto);
        assert(sorted =~= sorted.take(at) + sorted.skip(at));
        Seq::filter_distributes_over_add(sorted.take(at), sorted.skip(at), lower);
        assert forall|i: int| 0 <= i < sorted.skip(at).len() implies !lower(
            #[trigger] sorted.skip(at)[i],
        ) by {
            assert(sorted[at].0 <= sorted[at + i].0);
        }
        lemma_none_pass(sorted.skip(at), lower);
        sorted.take(at).lemma_filter_len(lower);
        assert(sorted =~= sorted.take(at + 1) + sorted.skip(at + 1));
        Seq::filter_distributes_over_add(sorted.take(at + 1), sorted.skip(at + 1), upto);
        assert forall|i: int| 0 <= i < sorted.take(at + 1).len() implies upto(
            #[trigger] sorted.take(at + 1)[i],
        ) by {
            assert(sorted[i].0 <= sorted[at].0);
        }
        lemma_all_pass(sorted.take(at + 1), upto);
        sorted.lemma_filter_len(upto);
        assert(samples.filter(|s: u64| value::double_key(s) < value::double_key(v.1))
            =~= samples.filter(plain_lower)) by {
            assert((|s: u64| value::double_key(s) < value::double_key(v.1)) =~= plain_lower);
        }
        assert(samples.filter(|s: u64| value::double_key(s) <= value::double_key(v.1))
            =~= samples.filter(plain_upto)) by {
            assert((|s: u64| value::double_key(s) <= value::double_key(v.1)) =~= plain_upto);
        }
    }
}

/// The newest sample is always kept, and of the older ones the most recent, in
/// their order: a thousand samples at most.
pub proof fn law_the_newest_samples_are_kept(samples: Seq<u64>, value: u64)
    requires
        samples.len() <= 1000,
    ensures
        sampled(samples, value).last() == value,
        samples.len() < 1000 ==> sampled(samples, value).drop_last() == samples,
        samples.len() == 1000 ==> sampled(samples, value).drop_last() == samples.drop_first(),
{
    if samples.len() < 1000 {
        assert(sampled(samples, value).drop_last() =~= samples);
    } else {
        assert(sampled(samples, value).drop_last() =~= samples.drop_first());
    }
}

/// A number is shown exactly when it is finite: its exponent is not all ones.
pub proof fn law_only_finite_numbers_are_shown(bits: u64)
    ensures
        double_view(bits) is Null <==> (bits >> 52) & 0x7ff == 0x7ff,
        !(double_view(bits) is Null) ==> double_view(bits) == ValueView::Number(
            Number::Float(bits),
        ),
{
    assert((bits >> 52) & 0x7ff == 0x7ff <==> (bits & 0x7fff_ffff_ffff_ffff)
        >= 0x7ff0_0000_0000_0000) by (bit_vector);
    assert(bits >= 0x8000_0000_0000_0000 ==> bits & 0x7fff_ffff_ffff_ffff == bits
        - 0x8000_0000_0000_0000) by (bit_vector);
    assert(bits < 0x8000_0000_0000_0000 ==> bits & 0x7fff_ffff_ffff_ffff == bits) by (bit_vector);
}

/// A snapshot shows a phase exactly when it was started, with its count.
pub proof fn law_started_phases_are_shown(metrics: OrchestrationMetrics, key: Seq<char>)
    ensures
        phase_views(metrics).contains_key(key) ==> key == "TRY"@ || key == "CONFIRM"@ || key
            == "CANCEL"@,
        phase_views(metrics).contains_key("TRY"@) <==> metrics.tries > 0,
        phase_views(metrics).contains_key("CONFIRM"@) <==> metrics.confirms > 0,
        phase_views(metrics).contains_key("CANCEL"@) <==> metrics.cancels > 0,
        metrics.tries > 0 ==> phase_views(metrics)["TRY"@] == ValueView::Number(
            Number::PosInt(metrics.tries),
        ),
        metrics.confirms > 0 ==> phase_views(metrics)["CONFIRM"@] == ValueView::Number(
            Number::PosInt(metrics.confirms),
        ),
        metrics.cancels > 0 ==> phase_views(metrics)["CANCEL"@] == ValueView::Number(
            Number::PosInt(metrics.cancels),
        ),
{
    reveal_strlit("TRY");
    reveal_strlit("CONFIRM");
    reveal_strlit("CANCEL");
    assert("TRY"@.len() == 3 && "CONFIRM"@.len() == 7 && "CANCEL"@.len() == 6);
}

/// What a snapshot shows of an execution name: how often it was started, how
/// often it completed, how often it failed, and the middle and the upper end
/// of its durations.
pub proof fn law_execution_records_show_their_counts(
    metrics: OrchestrationMetrics,
    name: Seq<char>,
)
    ensures
        ({
            let record = execution_record(metrics, name);
            let durations = samples_in(metrics.execution_duration@, name);
            &&& record["started"@] == ValueView::Number(
                Number::PosInt(count_in(metrics.executions_started@, name)),
            )
            &&& record["completed"@] == ValueView::Number(
                Number::PosInt(count_in(metrics.executions_completed@, name)),
            )
            &&& record["failed"@] == ValueView::Number(
                Number::PosInt(count_in(metrics.executions_failed@, name)),
            )
            &&& record["duration_p50_ms"@] == double_view(percentile_of(durations, 50))
            &&& record["duration_p95_ms"@] == double_view(percentile_of(durations, 95))
            &&& forall|k: Seq<char>|
                #[trigger] record.contains_key(k) <==> k == "started"@ || k == "completed"@ || k
                    == "failed"@ || k == "duration_p50_ms"@ || k == "duration_p95_ms"@
        }),
{
    reveal_strlit("started");
    reveal_strlit("completed");
    reveal_strlit("failed");
    reveal_strlit("duration_p50_ms");
    reveal_strlit("duration_p95_ms");
    assert("started"@.len() == 7 && "completed"@.len() == 9 && "failed"@.len() == 6);
    assert("duration_p50_ms"@.len() == 15 && "duration_p50_ms"@[10] == '5'
        && "duration_p95_ms"@[10] == '9');
}

/// What a snapshot shows of a step: how often it was started, how often it
/// succeeded, how often it failed, and the middle and the upper end of its
/// latencies.
pub proof fn law_step_records_show_their_counts(metrics: OrchestrationMetrics, key: Seq<char>)
    ensures
        ({
            let record = step_record(metrics, key);
            let latencies = samples_in(metrics.step_latency@, key);
            &&& record["started"@] == ValueView::Number(
                Number::PosInt(count_in(metrics.steps_started@, key)),
            )
            &&& record["succeeded"@] == ValueView::Number(
                Number::PosInt(count_in(metrics.steps_succeeded@, key)),
            )
            &&& record["failed"@] == ValueView::Number(
                Number::PosInt(count_in(metrics.steps_failed@, key)),
            )
            &&& record["p50_ms"@] == double_view(percentile_of(latencies, 50))
            &&& record["p95_ms"@] == double_view(percentile_of(latencies, 95))
            &&& forall|k: Seq<char>|
                #[trigger] record.contains_key(k) <==> k == "started"@ || k == "succeeded"@ || k
                    == "failed"@ || k == "p50_ms"@ || k == "p95_ms"@
        }),
{
    reveal_strlit("started");
    reveal_strlit("succeeded");
    reveal_strlit("failed");
    reveal_strlit("p50_ms");
    reveal_strlit("p95_ms");
    assert("started"@.len() == 7 && "succeeded"@.len() == 9 && "failed"@.len() == 6);
    assert("p50_ms"@.len() == 6 && "failed"@[0] == 'f' && "p50_ms"@[0] == 'p' && "p95_ms"@[0]
        == 'p' && "p50_ms"@[1] == '5' && "p95_ms"@[1] == '9');
}

/// A snapshot lists a name exactly when a start, a success or a failure was
/// counted under it.
pub proof fn law_counted_names_are_listed(metrics: OrchestrationMetrics, key: Seq<char>)
    ensures
        listed(metrics, false, key) <==> metrics.executions_started@.dom().union(
            metrics.executions_completed@.dom(),
        ).union(metrics.executions_failed@.dom()).contains(key),
        listed(metrics, true, key) <==> metrics.steps_started@.dom().union(
            metrics.steps_succeeded@.dom(),
        ).union(metrics.steps_failed@.dom()).contains(key),
{
}

/// A sample goes to its own key: it is the newest there, one more is counted,
/// and the other keys are as they were.
pub proof fn law_samples_go_to_their_key(
    before: Map<Seq<char>, Hist>,
    later: Map<Seq<char>, Hist>,
    key: Seq<char>,
    value: u64,
    other: Seq<char>,
)
    requires
        observed(before, later, key, value),
    ensures
        later.contains_key(key),
        later[key].samples@.len() > 0,
        later[key].samples@.last() == value,
        before.contains_key(key) ==> later[key].count == before[key].count + 1,
        !before.contains_key(key) ==> later[key].count == 1 && later[key].samples@ == seq![value],
        other != key ==> (later.contains_key(other) <==> before.contains_key(other)),
        other != key && later.contains_key(other) ==> later[other] == before[other],
{
    if !before.contains_key(key) {
        assert(later[key].samples@ =~= seq![value]);
    }
    if other != key {
        assert(later.remove(key).contains_key(other) <==> later.contains_key(other));
        assert(before.remove(key).contains_key(other) <==> before.contains_key(other));
        if later.contains_key(other) {
            assert(later.remove(key)[other] == later[other]);
            assert(before.remove(key)[other] == before[other]);
        }
    }
}

/// What a snapshot shows: how often each step was compensated and how often
/// that failed, the dead letters, and a record for every name that was counted.
pub proof fn law_snapshots_show_the_metrics(
    metrics: OrchestrationMetrics,
    snapshot: ValueView,
    key: Seq<char>,
)
    requires
        is_metrics_snapshot(metrics, snapshot),
    ensures
        ({
            let compensations = value::field_of(snapshot, "compensations"@);
            let failures = value::field_of(snapshot, "compensation_failures"@);
            let executions = value::field_of(snapshot, "executions"@);
            let steps = value::field_of(snapshot, "steps"@);
            &&& compensations is Some && value::field_of(compensations->0, key) == (
            if metrics.compensations@.contains_key(key) {
                Some(ValueView::Number(Number::PosInt(metrics.compensations@[key])))
            } else {
                None
            })
            &&& failures is Some && value::field_of(failures->0, key) == (
            if metrics.compensation_failures@.contains_key(key) {
                Some(ValueView::Number(Number::PosInt(metrics.compensation_failures@[key])))
            } else {
                None
            })
            &&& value::field_of(snapshot, "dead_letters"@) == Some(
                ValueView::Number(Number::PosInt(metrics.dead_letters)),
            )
            &&& executions is Some && (value::field_of(executions->0, key) is Some
                <==> metrics.executions_started@.contains_key(key)
                || metrics.executions_completed@.contains_key(key)
                || metrics.executions_failed@.contains_key(key))
            &&& steps is Some && (value::field_of(steps->0, key) is Some
                <==> metrics.steps_started@.contains_key(key)
                || metrics.steps_succeeded@.contains_key(key)
                || metrics.steps_failed@.contains_key(key))
        }),
{
    let compensations = value::field_of(snapshot, "compensations"@)->0;
    let failures = value::field_of(snapshot, "compensation_failures"@)->0;
    assert(value::field_of(compensations, key) == step_context::entry(
        count_views(metrics.compensations@),
        key,
    ));
    assert(value::field_of(failures, key) == step_context::entry(
        count_views(metrics.compensation_failures@),
        key,
    ));
    let executions = value::field_of(snapshot, "executions"@)->0;
    let steps = value::field_of(snapshot, "steps"@)->0;
    assert(value::field_of(executions, key) is Some <==> listed(metrics, false, key));
    assert(value::field_of(steps, key) is Some <==> listed(metrics, true, key));
}

} // verus!

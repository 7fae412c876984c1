//! Periodic triggers: which tasks run, and when they fire.
//!
//! [`OrchestrationScheduler`] keeps the tasks and says which loops to start
//! and to end; [`ScheduledTask::next_fire`] says how long a loop waits.

use crate::model::TriggerMode;
use crate::registry::OrchestrationRegistry;
use crate::text;
use crate::text::quoted;
use crate::text_map;
use crate::text_map::TextMap;
use crate::time;
use crate::time::Delay;
use vstd::prelude::*;
use vstd::string::*;

verus! {

/// When a task fires.
#[derive(Debug)]
pub enum ScheduleTrigger {
    /// Every period, measured from each start.
    FixedRate(Delay),
    /// A period after each run has completed.
    FixedDelay(Delay),
    /// By a cron expression; without an evaluator for it, never.
    Cron(String),
}

/// How a scheduled task is refused.
#[derive(Debug)]
pub enum SchedulerError {
    /// The period is zero, or the cron expression empty.
    InvalidTrigger {
        /// The task.
        id: String,
    },
}

/// The message of a scheduler error.
pub open spec fn scheduler_error_text(error: SchedulerError) -> Seq<char> {
    match error {
        SchedulerError::InvalidTrigger { id } => "firefly/orchestration: scheduled task "@
            + text::debug_text(id@) + ": invalid trigger"@,
    }
}

impl SchedulerError {
    /// The message of the error.
    pub fn to_string(&self) -> (message: String)
        ensures
            message@ == scheduler_error_text(*self),
    {
        match self {
            SchedulerError::InvalidTrigger { id } => {
                let mut out: String = "firefly/orchestration: scheduled task ".to_owned();
                out.append(quoted(id.as_str()).as_str());
                out.append(": invalid trigger");
                out
            },
        }
    }
}

/// A task that fires periodically.
#[derive(Debug)]
pub struct ScheduledTask {
    /// The id of the task.
    pub id: String,
    /// When it fires.
    pub trigger: ScheduleTrigger,
    /// How long before it fires for the first time.
    pub initial_delay: Delay,
    /// Whether it is started.
    pub enabled: bool,
}

/// Whether a trigger is valid: a period that is not zero, or a cron expression
/// that is not empty.
pub open spec fn trigger_valid(trigger: ScheduleTrigger) -> bool {
    match trigger {
        ScheduleTrigger::FixedRate(period) => time::delay_nanos(period) > 0,
        ScheduleTrigger::FixedDelay(period) => time::delay_nanos(period) > 0,
        ScheduleTrigger::Cron(expression) => expression@.len() > 0,
    }
}

/// The last run of a task, in nanoseconds from the start of its loop.
#[derive(Debug, Clone, Copy)]
pub struct LastRun {
    /// When it started.
    pub started: u128,
    /// When it was complete.
    pub completed: u128,
}

/// The moment at which a task fires next, in nanoseconds from the start of its
/// loop; none where it never does.
pub open spec fn fires_at(task: ScheduledTask, last: Option<LastRun>) -> Option<nat> {
    match (task.trigger, last) {
        (ScheduleTrigger::Cron(_), _) => None,
        (_, None) => Some(time::delay_nanos(task.initial_delay)),
        (ScheduleTrigger::FixedRate(period), Some(run)) => Some(
            (run.started + time::delay_nanos(period)) as nat,
        ),
        (ScheduleTrigger::FixedDelay(period), Some(run)) => Some(
            (run.completed + time::delay_nanos(period)) as nat,
        ),
    }
}

/// The message about a saga that is not registered.
pub open spec fn unknown_saga_text(name: Seq<char>) -> Seq<char> {
    "unknown saga "@ + text::debug_text(name)
}

/// How a triggered saga runs.
#[derive(Debug, Clone, Copy, PartialEq, Eq, Structural)]
pub enum SagaStart {
    /// It runs, and the trigger answers its outcome.
    Inline,
    /// It runs on its own, and the trigger answers at once.
    Detached,
}

/// Decides how a trigger starts a saga of a registry.
pub fn start_saga(registry: &OrchestrationRegistry, name: &str, mode: TriggerMode) -> (start: Result<
    SagaStart,
    String,
>)
    ensures
        match start {
            Ok(how) => registry.sagas@.contains_key(name@) && how == match mode {
                TriggerMode::Sync => SagaStart::Inline,
                TriggerMode::Async => SagaStart::Detached,
            },
            Err(message) => !registry.sagas@.contains_key(name@) && message@ == unknown_saga_text(
                name@,
            ),
        },
{
    if registry.sagas.contains_key(name) {
        match mode {
            TriggerMode::Sync => Ok(SagaStart::Inline),
            TriggerMode::Async => Ok(SagaStart::Detached),
        }
    } else {
        let mut message: String = "unknown saga ".to_owned();
        message.append(quoted(name).as_str());
        Err(message)
    }
}

impl ScheduledTask {
    /// An enabled task without initial delay.
    pub fn new(id: &str, trigger: ScheduleTrigger) -> (task: ScheduledTask)
        ensures
            task.id@ == id@,
            task.trigger == trigger,
            task.initial_delay == (Delay { secs: 0, nanos: 0 }),
            task.enabled,
    {
        ScheduledTask {
            id: id.to_owned(),
            trigger,
            initial_delay: Delay { secs: 0, nanos: 0 },
            enabled: true,
        }
    }

    /// A task that fires every period.
    pub fn fixed_rate(id: &str, period: Delay) -> (task: ScheduledTask)
        ensures
            task.id@ == id@,
            task.trigger == ScheduleTrigger::FixedRate(period),
            task.initial_delay == (Delay { secs: 0, nanos: 0 }),
            task.enabled,
    {
        ScheduledTask::new(id, ScheduleTrigger::FixedRate(period))
    }

    /// A task that fires a period after each run.
    pub fn fixed_delay(id: &str, period: Delay) -> (task: ScheduledTask)
        ensures
            task.id@ == id@,
            task.trigger == ScheduleTrigger::FixedDelay(period),
            task.initial_delay == (Delay { secs: 0, nanos: 0 }),
            task.enabled,
    {
        ScheduledTask::new(id, ScheduleTrigger::FixedDelay(period))
    }

    /// A task that starts a saga.
    pub fn for_saga(saga_name: &str, trigger: ScheduleTrigger) -> (task: ScheduledTask)
        ensures
            task.id@ == "saga:"@ + saga_name@,
            task.trigger == trigger,
            task.initial_delay == (Delay { secs: 0, nanos: 0 }),
            task.enabled,
    {
        let mut id: String = "saga:".to_owned();
        id.append(saga_name);
        ScheduledTask::new(id.as_str(), trigger)
    }

    /// The task with an initial delay.
    pub fn initial_delay(self, delay: Delay) -> (task: ScheduledTask)
        ensures
            task == (ScheduledTask { initial_delay: delay, ..self }),
    {
        ScheduledTask { initial_delay: delay, ..self }
    }

    /// The task, not to be started.
    pub fn disabled(self) -> (task: ScheduledTask)
        ensures
            task == (ScheduledTask { enabled: false, ..self }),
    {
        ScheduledTask { enabled: false, ..self }
    }

    /// Whether the trigger is valid.
    pub fn valid(&self) -> (yes: bool)
        ensures
            yes == trigger_valid(self.trigger),
            match self.trigger {
                ScheduleTrigger::FixedRate(period) => yes == (period.secs > 0 || period.nanos > 0),
                ScheduleTrigger::FixedDelay(period) => yes == (period.secs > 0 || period.nanos > 0),
                ScheduleTrigger::Cron(expression) => yes == (expression@.len() > 0),
            },
    {
        match &self.trigger {
            ScheduleTrigger::FixedRate(period) => !period.is_zero(),
            ScheduleTrigger::FixedDelay(period) => !period.is_zero(),
            ScheduleTrigger::Cron(expression) => expression.as_str().unicode_len() > 0,
        }
    }

    /// How many nanoseconds the loop of the task waits before it fires; none
    /// where it never does.
    pub fn next_fire(&self, last: Option<LastRun>, now: u128) -> (wait: Option<u128>)
        requires
            now < 0x1_0000_0000_0000_0000_0000_0000_0000,
            last matches Some(run) ==> run.started <= run.completed <= now,
        ensures
            match (wait, fires_at(*self, last)) {
                (Some(nanos), Some(at)) => nanos == if at > now {
                    at - now
                } else {
                    0
                },
                (None, None) => true,
                _ => false,
            },
            wait is None <==> self.trigger is Cron,
            wait matches Some(nanos) ==> {
                let due = match (self.trigger, last) {
                    (ScheduleTrigger::FixedRate(period), Some(run)) => run.started + period.secs
                        * 1_000_000_000 + period.nanos,
                    (ScheduleTrigger::FixedDelay(period), Some(run)) => run.completed + period.secs
                        * 1_000_000_000 + period.nanos,
                    _ => self.initial_delay.secs * 1_000_000_000 + self.initial_delay.nanos,
                };
                &&& due <= now ==> nanos == 0
                &&& due > now ==> now + nanos == due
            },
    {
        let at: u128 = match &self.trigger {
            ScheduleTrigger::Cron(_) => {
                return None;
            },
            ScheduleTrigger::FixedRate(period) => match last {
                None => self.initial_delay.as_nanos(),
                Some(run) => run.started + period.as_nanos(),
            },
            ScheduleTrigger::FixedDelay(period) => match last {
                None => self.initial_delay.as_nanos(),
                Some(run) => run.completed + period.as_nanos(),
            },
        };
        if at > now {
            Some(at - now)
        } else {
            Some(0)
        }
    }
}

/// A task at a glance.
#[derive(Debug)]
pub struct ScheduledTaskInfo {
    /// The id of the task.
    pub id: String,
    /// Whether it is enabled.
    pub enabled: bool,
    /// How often it has succeeded.
    pub runs: u64,
    /// How often it has failed.
    pub failures: u64,
}

/// A registered task.
#[derive(Debug)]
pub struct ScheduledEntry {
    /// The task.
    pub task: ScheduledTask,
    /// How often it has succeeded.
    pub runs: u64,
    /// How often it has failed.
    pub failures: u64,
    /// Whether its loop runs.
    pub looping: bool,
}

/// Keeps periodic tasks.
#[derive(Debug)]
pub struct OrchestrationScheduler {
    /// The tasks, by id.
    pub tasks: TextMap<ScheduledEntry>,
    /// Whether the scheduler runs.
    pub running: bool,
}

/// The ids of the entries whose loop is to be started or ended, in increasing
/// order.
pub open spec fn ids_where(entries: Seq<(String, ScheduledEntry)>, looping: bool) -> Seq<Seq<char>>
    decreases entries.len(),
{
    if entries.len() == 0 {
        Seq::empty()
    } else {
        let front = ids_where(entries.drop_last(), looping);
        let last = entries.last();
        if if looping {
            last.1.looping
        } else {
            last.1.task.enabled
        } {
            front.push(last.0@)
        } else {
            front
        }
    }
}

/// Whether only the loops of some entries have changed.
pub open spec fn same_tasks(
    before: Seq<(String, ScheduledEntry)>,
    later: Seq<(String, ScheduledEntry)>,
) -> bool {
    &&& later.len() == before.len()
    &&& forall|i: int|
        0 <= i < before.len() ==> {
            &&& (#[trigger] later[i]).0 == before[i].0
            &&& later[i].1 == (ScheduledEntry { looping: later[i].1.looping, ..before[i].1 })
        }
}

impl OrchestrationScheduler {
    /// Whether the tasks are in order, loops run only while the scheduler
    /// does, and all enabled tasks loop while it does.
    pub open spec fn well_formed(self) -> bool {
        &&& self.tasks.well_formed()
        &&& forall|i: int|
            0 <= i < self.tasks.entries@.len() ==> (
            #[trigger] self.tasks.entries@[i]).1.looping == (self.running
                && self.tasks.entries@[i].1.task.enabled)
        &&& forall|i: int|
            0 <= i < self.tasks.entries@.len() ==> trigger_valid(
                (#[trigger] self.tasks.entries@[i]).1.task.trigger,
            )
    }

    /// A scheduler without tasks that does not run.
    pub fn new() -> (scheduler: OrchestrationScheduler)
        ensures
            scheduler.well_formed(),
            scheduler.tasks@ == Map::<Seq<char>, ScheduledEntry>::empty(),
            !scheduler.running,
    {
        OrchestrationScheduler { tasks: TextMap::new(), running: false }
    }

    /// Registers a task, in place of any with its id, if its trigger is valid.
    /// Gives whether its loop is to be started.
    pub fn register(&mut self, task: ScheduledTask) -> (result: Result<bool, SchedulerError>)
        requires
            old(self).well_formed(),
        ensures
            final(self).well_formed(),
            final(self).running == old(self).running,
            match result {
                Ok(start) => {
                    &&& trigger_valid(task.trigger)
                    &&& task.trigger matches ScheduleTrigger::Cron(expression)
                        ==> expression@.len() > 0
                    &&& task.trigger matches ScheduleTrigger::FixedRate(period) ==> period.secs > 0
                        || period.nanos > 0
                    &&& task.trigger matches ScheduleTrigger::FixedDelay(period) ==> period.secs
                        > 0 || period.nanos > 0
                    &&& start == (old(self).running && task.enabled)
                    &&& final(self).tasks@ == old(self).tasks@.insert(
                        task.id@,
                        ScheduledEntry { task, runs: 0, failures: 0, looping: start },
                    )
                },
                Err(SchedulerError::InvalidTrigger { id }) => {
                    &&& !trigger_valid(task.trigger)
                    &&& id == task.id
                    &&& *final(self) == *old(self)
                },
            },
    {
        if !task.valid() {
            return Err(SchedulerError::InvalidTrigger { id: task.id });
        }
        let start: bool = self.running && task.enabled;
        let id: String = task.id.clone();
        let ghost before = self.tasks;
        let entry: ScheduledEntry = ScheduledEntry { task, runs: 0, failures: 0, looping: start };
        self.tasks.insert(id, entry);
        proof {
            assert forall|i: int| 0 <= i < self.tasks.entries@.len() implies (
            #[trigger] self.tasks.entries@[i]).1.looping == (self.running
                && self.tasks.entries@[i].1.task.enabled) && trigger_valid(
                self.tasks.entries@[i].1.task.trigger,
            ) by {
                let k = self.tasks.entries@[i].0@;
                self.tasks.lemma_entry(i);
                if k != task.id@ {
                    lemma_entry_of(before, k);
                }
            }
        }
        Ok(start)
    }

    /// Removes a task; its loop is to be ended.
    pub fn unregister(&mut self, task_id: &str) -> (found: bool)
        requires
            old(self).well_formed(),
        ensures
            final(self).well_formed(),
            final(self).running == old(self).running,
            final(self).tasks@ == old(self).tasks@.remove(task_id@),
            found == old(self).tasks@.contains_key(task_id@),
    {
        let ghost before = self.tasks;
        let removed: Option<ScheduledEntry> = self.tasks.remove(task_id);
        proof {
            assert forall|i: int| 0 <= i < self.tasks.entries@.len() implies (
            #[trigger] self.tasks.entries@[i]).1.looping == (self.running
                && self.tasks.entries@[i].1.task.enabled) && trigger_valid(
                self.tasks.entries@[i].1.task.trigger,
            ) by {
                self.tasks.lemma_entry(i);
                lemma_entry_of(before, self.tasks.entries@[i].0@);
            }
        }
        removed.is_some()
    }

    /// The tasks at a glance, in order of their ids.
    pub fn list(&self) -> (infos: Vec<ScheduledTaskInfo>)
        ensures
            infos@.len() == self.tasks.entries@.len(),
            forall|i: int|
                0 <= i < infos@.len() ==> {
                    &&& (#[trigger] infos@[i]).id@ == self.tasks.entries@[i].1.task.id@
                    &&& infos@[i].enabled == self.tasks.entries@[i].1.task.enabled
                    &&& infos@[i].runs == self.tasks.entries@[i].1.runs
                    &&& infos@[i].failures == self.tasks.entries@[i].1.failures
                },
    {
        let mut out: Vec<ScheduledTaskInfo> = Vec::new();
        let mut i: usize = 0;
        while i < self.tasks.entries.len()
            invariant
                i <= self.tasks.entries@.len(),
                out@.len() == i,
                forall|k: int|
                    0 <= k < i ==> {
                        &&& (#[trigger] out@[k]).id@ == self.tasks.entries@[k].1.task.id@
                        &&& out@[k].enabled == self.tasks.entries@[k].1.task.enabled
                        &&& out@[k].runs == self.tasks.entries@[k].1.runs
                        &&& out@[k].failures == self.tasks.entries@[k].1.failures
                    },
            decreases self.tasks.entries.len() - i,
        {
            let entry: &ScheduledEntry = &self.tasks.entries[i].1;
            out.push(
                ScheduledTaskInfo {
                    id: entry.task.id.clone(),
                    enabled: entry.task.enabled,
                    runs: entry.runs,
                    failures: entry.failures,
                },
            );
            i += 1;
        }
        out
    }

    /// Whether the scheduler runs.
    pub fn is_running(&self) -> (yes: bool)
        ensures
            yes == self.running,
    {
        self.running
    }

    fn set_loops(&mut self, on: bool) -> (ids: Vec<String>)
        requires
            old(self).tasks.well_formed(),
        ensures
            final(self).running == old(self).running,
            final(self).tasks.well_formed(),
            same_tasks(old(self).tasks.entries@, final(self).tasks.entries@),
            forall|i: int|
                0 <= i < final(self).tasks.entries@.len() ==> (
                #[trigger] final(self).tasks.entries@[i]).1.looping == (on
                    && final(self).tasks.entries@[i].1.task.enabled),
            text::texts(ids@) == ids_where(old(self).tasks.entries@, !on),
    {
        let ghost all = self.tasks.entries@;
        let mut ids: Vec<String> = Vec::new();
        let mut i: usize = 0;
        assert(text::texts(ids@) =~= Seq::empty());
        while i < self.tasks.entries.len()
            invariant
                i <= self.tasks.entries@.len(),
                self.running == old(self).running,
                same_tasks(all, self.tasks.entries@),
                forall|k: int|
                    i <= k < all.len() ==> #[trigger] self.tasks.entries@[k] == all[k],
                forall|k: int|
                    0 <= k < i ==> (#[trigger] self.tasks.entries@[k]).1.looping == (on
                        && self.tasks.entries@[k].1.task.enabled),
                text::texts(ids@) == ids_where(all.take(i as int), !on),
            decreases self.tasks.entries.len() - i,
        {
            proof {
                let next = all.take(i + 1);
                assert(next.drop_last() =~= all.take(i as int));
                assert(next.last() == all[i as int]);
                assert(self.tasks.entries@[i as int] == all[i as int]);
            }
            let chosen: bool = if on {
                self.tasks.entries[i].1.task.enabled
            } else {
                self.tasks.entries[i].1.looping
            };
            if chosen {
                let ghost prev = text::texts(ids@);
                ids.push(self.tasks.entries[i].0.clone());
                assert(text::texts(ids@) =~= prev.push(all[i as int].0@));
            }
            let looping: bool = on && self.tasks.entries[i].1.task.enabled;
            let (key, entry): (String, ScheduledEntry) = self.tasks.entries.remove(i);
            let changed: ScheduledEntry = ScheduledEntry { looping, ..entry };
            self.tasks.entries.insert(i, (key, changed));
            i += 1;
        }
        proof {
            assert(all.take(all.len() as int) =~= all);
            assert(text_map::keys_of(self.tasks.entries@) =~= text_map::keys_of(all));
        }
        ids
    }

    /// Starts the scheduler. Gives the tasks whose loops are to be started;
    /// none where it runs already.
    pub fn start(&mut self) -> (ids: Vec<String>)
        requires
            old(self).well_formed(),
        ensures
            final(self).well_formed(),
            final(self).running,
            same_tasks(old(self).tasks.entries@, final(self).tasks.entries@),
            text::texts(ids@) == (if old(self).running {
                Seq::empty()
            } else {
                ids_where(old(self).tasks.entries@, false)
            }),
    {
        if self.running {
            let none: Vec<String> = Vec::new();
            assert(text::texts(none@) =~= Seq::empty());
            return none;
        }
        let ids: Vec<String> = self.set_loops(true);
        self.running = true;
        ids
    }

    /// Stops the scheduler. Gives the tasks whose loops are to be ended.
    pub fn stop(&mut self) -> (ids: Vec<String>)
        requires
            old(self).well_formed(),
        ensures
            final(self).well_formed(),
            !final(self).running,
            same_tasks(old(self).tasks.entries@, final(self).tasks.entries@),
            text::texts(ids@) == (if old(self).running {
                ids_where(old(self).tasks.entries@, true)
            } else {
                Seq::empty()
            }),
    {
        if !self.running {
            let none: Vec<String> = Vec::new();
            assert(text::texts(none@) =~= Seq::empty());
            return none;
        }
        let ids: Vec<String> = self.set_loops(false);
        self.running = false;
        ids
    }

    /// Counts a run of a task, if it is registered.
    pub fn ran(&mut self, task_id: &str, succeeded: bool)
        requires
            old(self).well_formed(),
            old(self).tasks@.contains_key(task_id@) ==> old(self).tasks@[task_id@].runs < u64::MAX
                && old(self).tasks@[task_id@].failures < u64::MAX,
        ensures
            final(self).well_formed(),
            final(self).running == old(self).running,
            final(self).tasks@ == (if old(self).tasks@.contains_key(task_id@) {
                let was = old(self).tasks@[task_id@];
                old(self).tasks@.insert(
                    task_id@,
                    if succeeded {
                        ScheduledEntry { runs: (was.runs + 1) as u64, ..was }
                    } else {
                        ScheduledEntry { failures: (was.failures + 1) as u64, ..was }
                    },
                )
            } else {
                old(self).tasks@
            }),
    {
        let ghost before = self.tasks;
        if let Some(entry) = self.tasks.remove(task_id) {
            let changed: ScheduledEntry = if succeeded {
                ScheduledEntry { runs: entry.runs + 1, ..entry }
            } else {
                ScheduledEntry { failures: entry.failures + 1, ..entry }
            };
            self.tasks.insert(task_id.to_owned(), changed);
            proof {
                assert(self.tasks@ =~= before@.insert(task_id@, changed));
                assert forall|i: int| 0 <= i < self.tasks.entries@.len() implies (
                #[trigger] self.tasks.entries@[i]).1.looping == (self.running
                    && self.tasks.entries@[i].1.task.enabled) && trigger_valid(
                    self.tasks.entries@[i].1.task.trigger,
                ) by {
                    self.tasks.lemma_entry(i);
                    lemma_entry_of(before, self.tasks.entries@[i].0@);
                }
            }
        }
    }
}

proof fn lemma_entry_of(tasks: TextMap<ScheduledEntry>, k: Seq<char>)
    requires
        tasks.well_formed(),
        tasks@.contains_key(k),
    ensures
        exists|i: int|
            0 <= i < tasks.entries@.len() && (#[trigger] tasks.entries@[i]).1 == tasks@[k],
{
    crate::names::lemma_place(text_map::keys_of(tasks.entries@), k);
    let p = crate::names::place(text_map::keys_of(tasks.entries@), k);
    assert(tasks.entries@[p].1 == tasks@[k]);
}

/// Starting twice starts nothing more, and stopping twice ends nothing more: a
/// running scheduler has a loop for exactly the enabled tasks, and one that
/// does not run has none.
pub proof fn law_loops_follow_the_scheduler(scheduler: OrchestrationScheduler, i: int)
    requires
        scheduler.well_formed(),
        0 <= i < scheduler.tasks.entries@.len(),
    ensures
        scheduler.tasks.entries@[i].1.looping <==> scheduler.running
            && scheduler.tasks.entries@[i].1.task.enabled,
{
}

/// When a task fires. The first time it fires after its initial delay; after
/// that a fixed rate counts from the start of the last run and a fixed delay
/// from its end. A cron trigger never fires by itself.
pub proof fn law_rates_count_from_starts_and_delays_from_ends(
    task: ScheduledTask,
    run: LastRun,
)
    ensures
        task.trigger is Cron ==> fires_at(task, None) is None && fires_at(task, Some(run)) is None,
        !(task.trigger is Cron) ==> fires_at(task, None) == Some(
            (task.initial_delay.secs * 1_000_000_000 + task.initial_delay.nanos) as nat,
        ),
        task.trigger matches ScheduleTrigger::FixedRate(period) ==> fires_at(task, Some(run))
            == Some((run.started + period.secs * 1_000_000_000 + period.nanos) as nat),
        task.trigger matches ScheduleTrigger::FixedDelay(period) ==> fires_at(task, Some(run))
            == Some((run.completed + period.secs * 1_000_000_000 + period.nanos) as nat),
{
}

/// A trigger is refused exactly when its period is zero or its expression is
/// empty.
pub proof fn law_only_empty_triggers_are_refused(trigger: ScheduleTrigger)
    ensures
        trigger matches ScheduleTrigger::FixedRate(period) ==> (trigger_valid(trigger)
            <==> period.secs > 0 || period.nanos > 0),
        trigger matches ScheduleTrigger::FixedDelay(period) ==> (trigger_valid(trigger)
            <==> period.secs > 0 || period.nanos > 0),
        trigger matches ScheduleTrigger::Cron(expression) ==> (trigger_valid(trigger)
            <==> expression@ != Seq::<char>::empty()),
{
    if let ScheduleTrigger::Cron(expression) = trigger {
        if expression@.len() == 0 {
            assert(expression@ =~= Seq::<char>::empty());
        }
    }
}

/// The loops that are started are those of the enabled tasks, and the loops
/// that are ended are those that run.
pub proof fn law_enabled_tasks_are_started(
    entries: Seq<(String, ScheduledEntry)>,
    id: Seq<char>,
)
    ensures
        ids_where(entries, false).contains(id) <==> exists|i: int|
            0 <= i < entries.len() && (#[trigger] entries[i]).0@ == id && entries[i].1.task.enabled,
        ids_where(entries, true).contains(id) <==> exists|i: int|
            0 <= i < entries.len() && (#[trigger] entries[i]).0@ == id && entries[i].1.looping,
    decreases entries.len(),
{
    if entries.len() > 0 {
        let front = entries.drop_last();
        let n = entries.len() - 1;
        law_enabled_tasks_are_started(front, id);
        lemma_ids_grow(entries, false, id);
        lemma_ids_grow(entries, true, id);
        assert forall|i: int| 0 <= i < n implies #[trigger] entries[i] == front[i] by {}
        if ids_where(front, false).contains(id) {
            let i = choose|i: int|
                0 <= i < front.len() && (#[trigger] front[i]).0@ == id && front[i].1.task.enabled;
            assert(entries[i].0@ == id);
        }
        if ids_where(front, true).contains(id) {
            let i = choose|i: int|
                0 <= i < front.len() && (#[trigger] front[i]).0@ == id && front[i].1.looping;
            assert(entries[i].0@ == id);
        }
        assert(entries[n] == entries.last());
        assert forall|i: int| 0 <= i < front.len() implies #[trigger] front[i] == entries[i] by {}
        if exists|i: int|
            0 <= i < entries.len() && (#[trigger] entries[i]).0@ == id && entries[i].1.task.enabled {
            let i = choose|i: int|
                0 <= i < entries.len() && (#[trigger] entries[i]).0@ == id
                    && entries[i].1.task.enabled;
            if i < n {
                assert(front[i].0@ == id);
            }
        }
        if exists|i: int|
            0 <= i < entries.len() && (#[trigger] entries[i]).0@ == id && entries[i].1.looping {
            let i = choose|i: int|
                0 <= i < entries.len() && (#[trigger] entries[i]).0@ == id && entries[i].1.looping;
            if i < n {
                assert(front[i].0@ == id);
            }
        }
    }
}

proof fn lemma_ids_grow(entries: Seq<(String, ScheduledEntry)>, looping: bool, id: Seq<char>)
    requires
        entries.len() > 0,
    ensures
        ids_where(entries, looping).contains(id) <==> ids_where(
            entries.drop_last(),
            looping,
        ).contains(id) || (entries.last().0@ == id && if looping {
            entries.last().1.looping
        } else {
            entries.last().1.task.enabled
        }),
{
    let front = ids_where(entries.drop_last(), looping);
    let grown = front.push(entries.last().0@);
    assert(grown[front.len() as int] == entries.last().0@);
    if front.contains(id) {
        let k = choose|k: int| 0 <= k < front.len() && front[k] == id;
        assert(grown[k] == id);
    }
    if grown.contains(id) {
        let k = choose|k: int| 0 <= k < grown.len() && grown[k] == id;
        if k < front.len() {
            assert(front[k] == id);
        }
    }
}

/// Starting and stopping change which loops run and nothing else of a task.
pub proof fn law_loops_change_nothing_else(
    before: Seq<(String, ScheduledEntry)>,
    later: Seq<(String, ScheduledEntry)>,
    i: int,
)
    requires
        same_tasks(before, later),
        0 <= i < before.len(),
    ensures
        later.len() == before.len(),
        later[i].0 == before[i].0,
        later[i].1.task == before[i].1.task,
        later[i].1.runs == before[i].1.runs,
        later[i].1.failures == before[i].1.failures,
{
    assert(later[i].1 == (ScheduledEntry { looping: later[i].1.looping, ..before[i].1 }));
}

/// Loops are started, and ended, in the order of the entries: one more entry
/// adds its id at the end, where it is enabled, or where its loop runs.
pub proof fn law_loops_follow_the_entries(
    entries: Seq<(String, ScheduledEntry)>,
    entry: (String, ScheduledEntry),
)
    ensures
        ids_where(Seq::empty(), false).len() == 0,
        ids_where(Seq::empty(), true).len() == 0,
        ids_where(entries.push(entry), false) == if entry.1.task.enabled {
            ids_where(entries, false).push(entry.0@)
        } else {
            ids_where(entries, false)
        },
        ids_where(entries.push(entry), true) == if entry.1.looping {
            ids_where(entries, true).push(entry.0@)
        } else {
            ids_where(entries, true)
        },
{
    assert(entries.push(entry).drop_last() =~= entries);
}

} // verus!

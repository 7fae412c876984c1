//! Try-Confirm-Cancel: every participant tries, then every participant
//! confirms; after a failed try the participants that tried are cancelled,
//! last first.
//!
//! [`Tcc::begin`] starts a run, [`Tcc::next`] names the action that is due,
//! and the `*_succeeded` / `*_failed` methods take back what happened, until
//! [`Tcc::finish`] gives the result.

use crate::model::{RetryPolicy, TccPhase};
use crate::step_invoker;
use crate::step_invoker::{unwrap_invoke_cause, StepInvokeError};
use crate::text;
use crate::text::{join, quoted};
use vstd::prelude::*;
use vstd::string::*;

verus! {

/// A participant: it tries, and later confirms or is cancelled.
#[derive(Debug)]
pub struct TccParticipant {
    /// The name under which messages report the participant.
    pub name: String,
    /// Whether the participant has a cancel action.
    pub cancellable: bool,
    /// The retry policy of its try and confirm actions.
    pub retry: RetryPolicy,
}

impl TccParticipant {
    /// A participant without cancel action or retries.
    pub fn new(name: &str) -> (participant: TccParticipant)
        ensures
            participant.name@ == name@,
            !participant.cancellable,
            participant.retry == (RetryPolicy {
                max_attempts: 1,
                backoff_ms: 0,
                timeout_ms: 0,
                jitter: false,
            }),
    {
        TccParticipant { name: name.to_owned(), cancellable: false, retry: RetryPolicy::default() }
    }

    /// The participant with a cancel action.
    pub fn with_cancel(self) -> (participant: TccParticipant)
        ensures
            participant == (TccParticipant { cancellable: true, ..self }),
    {
        TccParticipant { cancellable: true, ..self }
    }

    /// The participant under a retry policy.
    pub fn with_retry(self, retry: RetryPolicy) -> (participant: TccParticipant)
        ensures
            participant == (TccParticipant { retry: retry, ..self }),
    {
        TccParticipant { retry, ..self }
    }

    /// The participant name.
    pub fn name(&self) -> (name: &str)
        ensures
            name@ == self.name@,
    {
        self.name.as_str()
    }

    /// The retry policy of the participant.
    pub fn retry_policy(&self) -> (policy: &RetryPolicy)
        ensures
            *policy == self.retry,
    {
        &self.retry
    }
}

/// One failed confirmation.
#[derive(Debug)]
pub struct ConfirmError {
    /// The participant that failed to confirm.
    pub participant: String,
    /// The message of the failure.
    pub source: String,
}

/// The message of a failed confirmation.
pub open spec fn confirm_error_text(error: ConfirmError) -> Seq<char> {
    "confirm "@ + text::debug_text(error.participant@) + ": "@ + error.source@
}

impl ConfirmError {
    /// The message of the error.
    pub fn to_string(&self) -> (message: String)
        ensures
            message@ == confirm_error_text(*self),
    {
        let mut out: String = "confirm ".to_owned();
        out.append(quoted(self.participant.as_str()).as_str());
        out.append(": ");
        out.append(self.source.as_str());
        out
    }
}

/// The messages of failed confirmations, one per line.
pub open spec fn confirm_errors_text(errors: Seq<ConfirmError>) -> Seq<char> {
    text::joined(Seq::new(errors.len(), |i: int| confirm_error_text(errors[i])), "\n"@)
}

fn joined_confirm_errors(errors: &Vec<ConfirmError>) -> (message: String)
    ensures
        message@ == confirm_errors_text(errors@),
{
    let mut lines: Vec<String> = Vec::new();
    let mut i: usize = 0;
    while i < errors.len()
        invariant
            i <= errors@.len(),
            lines@.len() == i,
            forall|k: int| 0 <= k < i ==> (#[trigger] lines@[k])@ == confirm_error_text(errors@[k]),
        decreases errors.len() - i,
    {
        lines.push(errors[i].to_string());
        i += 1;
    }
    assert(text::texts(lines@) =~= Seq::new(
        errors@.len(),
        |i: int| confirm_error_text(errors@[i]),
    ));
    join(&lines, "\n")
}

/// How a TCC run fails.
#[derive(Debug)]
pub enum TccError {
    /// A try failed; the participants that had tried were cancelled.
    Try {
        /// The TCC name.
        tcc: String,
        /// The participant whose try failed.
        participant: String,
        /// The message of the failure.
        source: String,
    },
    /// One or more confirmations failed.
    Confirm(Vec<ConfirmError>),
}

/// The message of a TCC error.
pub open spec fn tcc_error_text(error: TccError) -> Seq<char> {
    match error {
        TccError::Try { tcc, participant, source } => "tcc "@ + text::debug_text(tcc@) + ": try "@
            + text::debug_text(participant@) + ": "@ + source@,
        TccError::Confirm(errors) => confirm_errors_text(errors@),
    }
}

impl TccError {
    /// The message of the error.
    pub fn to_string(&self) -> (message: String)
        ensures
            message@ == tcc_error_text(*self),
    {
        match self {
            TccError::Try { tcc, participant, source } => {
                let mut out: String = "tcc ".to_owned();
                out.append(quoted(tcc.as_str()).as_str());
                out.append(": try ");
                out.append(quoted(participant.as_str()).as_str());
                out.append(": ");
                out.append(source.as_str());
                out
            },
            TccError::Confirm(errors) => joined_confirm_errors(errors),
        }
    }
}

/// A TCC definition.
#[derive(Debug)]
pub struct Tcc {
    /// The TCC name.
    pub name: String,
    /// The participants, in the order in which they try.
    pub participants: Vec<TccParticipant>,
}

/// Where a TCC run stands.
#[derive(Debug, Clone, Copy, PartialEq, Eq, Structural)]
pub enum TccStage {
    /// The try phase is about to start.
    Opening,
    /// Participants try.
    Trying,
    /// All have tried; the confirm phase is about to start.
    Tried,
    /// Participants confirm.
    Confirming,
    /// A try has failed.
    TryFailed,
    /// The cancel phase is about to start.
    Aborting,
    /// Participants are cancelled.
    Canceling,
    /// Nothing is left to do.
    Ended,
}

/// A TCC run in progress.
#[derive(Debug)]
pub struct TccRun {
    /// How many participants have tried successfully.
    pub tried: usize,
    /// How many participants have been asked to confirm.
    pub confirmed: usize,
    /// The confirmations that failed.
    pub failures: Vec<ConfirmError>,
    /// The message of the failed try, if one failed.
    pub cause: Option<String>,
    /// The participants below this number may still be cancelled.
    pub left: usize,
    /// The participants that were cancelled, in order.
    pub undone: Vec<usize>,
    /// Where the run stands.
    pub stage: TccStage,
}

/// The action that a TCC run waits for.
#[derive(Debug)]
pub enum TccAction {
    /// Announce that a phase starts.
    PhaseStarted(TccPhase),
    /// Announce that a phase is complete.
    PhaseCompleted(TccPhase),
    /// Announce that a phase failed, with this message.
    PhaseFailed(TccPhase, String),
    /// Let this participant try, under its retry policy.
    Try(usize),
    /// Let this participant confirm, under its retry policy.
    Confirm(usize),
    /// Cancel this participant.
    Cancel(usize),
    /// Nothing is left to do.
    Finish,
}

/// The participants below `left` that can be cancelled, last first.
pub open spec fn cancel_plan(participants: Seq<TccParticipant>, left: nat) -> Seq<usize>
    decreases left,
{
    if left == 0 {
        Seq::empty()
    } else if participants[left - 1].cancellable {
        seq![(left - 1) as usize] + cancel_plan(participants, (left - 1) as nat)
    } else {
        cancel_plan(participants, (left - 1) as nat)
    }
}

impl TccRun {
    /// Whether the run is one that `tcc` can be in.
    pub open spec fn well_formed(self, tcc: Tcc) -> bool {
        let n = tcc.participants@.len();
        &&& self.tried <= n
        &&& self.confirmed <= self.tried
        &&& self.left <= self.tried
        &&& self.failures@.len() <= self.confirmed
        &&& self.cause is None ==> self.undone@.len() == 0
        &&& self.cause is Some ==> self.undone@ + cancel_plan(tcc.participants@, self.left as nat)
            == cancel_plan(tcc.participants@, self.tried as nat)
        &&& match self.stage {
            TccStage::Opening => self.tried == 0 && self.confirmed == 0 && self.cause is None,
            TccStage::Trying => self.confirmed == 0 && self.cause is None,
            TccStage::Tried => self.tried == n && self.confirmed == 0 && self.cause is None,
            TccStage::Confirming => self.tried == n && self.cause is None,
            TccStage::TryFailed => self.tried < n && self.confirmed == 0 && self.cause is Some
                && self.undone@.len() == 0,
            TccStage::Aborting => self.tried < n && self.confirmed == 0 && self.cause is Some
                && self.undone@.len() == 0,
            TccStage::Canceling => self.tried < n && self.confirmed == 0 && self.cause is Some,
            TccStage::Ended => {
                ||| self.cause is None && self.tried == n && self.confirmed == n
                ||| self.cause is Some && self.tried < n && self.confirmed == 0 && cancel_plan(
                    tcc.participants@,
                    self.left as nat,
                ).len() == 0
            },
        }
    }
}

/// The action that is due in a run, and the stage that follows its
/// announcement.
pub open spec fn tcc_due(tcc: Tcc, run: TccRun, stage: TccStage, action: TccAction) -> bool {
    let n = tcc.participants@.len();
    match run.stage {
        TccStage::Opening => stage == TccStage::Trying && action == TccAction::PhaseStarted(
            TccPhase::Try,
        ),
        TccStage::Trying => if run.tried < n {
            stage == run.stage && action == TccAction::Try(run.tried)
        } else {
            stage == TccStage::Tried && action == TccAction::PhaseCompleted(TccPhase::Try)
        },
        TccStage::Tried => stage == TccStage::Confirming && action == TccAction::PhaseStarted(
            TccPhase::Confirm,
        ),
        TccStage::Confirming => if run.confirmed < n {
            stage == run.stage && action == TccAction::Confirm(run.confirmed)
        } else if run.failures@.len() == 0 {
            stage == TccStage::Ended && action == TccAction::PhaseCompleted(TccPhase::Confirm)
        } else {
            stage == TccStage::Ended && (action matches TccAction::PhaseFailed(phase, message)
                && phase == TccPhase::Confirm && message@ == confirm_errors_text(run.failures@))
        },
        TccStage::TryFailed => stage == TccStage::Aborting && (
        action matches TccAction::PhaseFailed(phase, message) && phase == TccPhase::Try && Some(
            message@,
        ) == run.cause_text()),
        TccStage::Aborting => if run.tried > 0 {
            stage == TccStage::Canceling && action == TccAction::PhaseStarted(TccPhase::Cancel)
        } else {
            stage == TccStage::Ended && action == TccAction::Finish
        },
        TccStage::Canceling => {
            let plan = cancel_plan(tcc.participants@, run.left as nat);
            if plan.len() > 0 {
                stage == run.stage && action == TccAction::Cancel(plan[0])
            } else {
                stage == TccStage::Ended && action == TccAction::Finish
            }
        },
        TccStage::Ended => stage == run.stage && action == TccAction::Finish,
    }
}

impl TccRun {
    /// The text of the failed try.
    pub open spec fn cause_text(self) -> Option<Seq<char>> {
        match self.cause {
            Some(message) => Some(message@),
            None => None,
        }
    }
}

/// The first participant to cancel is the last one that can be, and the rest
/// are those before it.
pub proof fn lemma_cancel_plan(participants: Seq<TccParticipant>, left: nat)
    requires
        left <= participants.len() <= usize::MAX,
    ensures
        ({
            let plan = cancel_plan(participants, left);
            &&& plan.len() > 0 ==> {
                &&& plan[0] < left
                &&& participants[plan[0] as int].cancellable
                &&& forall|k: int| plan[0] < k < left ==> !(#[trigger] participants[k]).cancellable
                &&& plan.drop_first() == cancel_plan(participants, plan[0] as nat)
            }
            &&& plan.len() == 0 ==> forall|k: int|
                0 <= k < left ==> !(#[trigger] participants[k]).cancellable
        }),
    decreases left,
{
    if left > 0 {
        let m: nat = (left - 1) as nat;
        lemma_cancel_plan(participants, m);
        let plan = cancel_plan(participants, left);
        if participants[left - 1].cancellable {
            assert(plan.drop_first() =~= cancel_plan(participants, m));
        }
    }
}

impl Tcc {
    /// A TCC without participants.
    pub fn new(name: &str) -> (tcc: Tcc)
        ensures
            tcc.name@ == name@,
            tcc.participants@.len() == 0,
    {
        Tcc { name: name.to_owned(), participants: Vec::new() }
    }

    /// The TCC with one participant more.
    pub fn participant(self, participant: TccParticipant) -> (tcc: Tcc)
        ensures
            tcc.name == self.name,
            tcc.participants@ == self.participants@.push(participant),
    {
        let mut participants: Vec<TccParticipant> = self.participants;
        participants.push(participant);
        Tcc { name: self.name, participants }
    }

    /// The TCC name.
    pub fn name(&self) -> (name: &str)
        ensures
            name@ == self.name@,
    {
        self.name.as_str()
    }

    /// The participants, in the order in which they try.
    pub fn participants(&self) -> (participants: &Vec<TccParticipant>)
        ensures
            *participants == self.participants,
    {
        &self.participants
    }

    /// The participant names, in the order in which they try.
    pub fn participant_names(&self) -> (list: Vec<String>)
        ensures
            list@.len() == self.participants@.len(),
            forall|i: int|
                0 <= i < list@.len() ==> (#[trigger] list@[i])@ == self.participants@[i].name@,
    {
        let mut out: Vec<String> = Vec::new();
        let mut i: usize = 0;
        while i < self.participants.len()
            invariant
                i <= self.participants@.len(),
                out@.len() == i,
                forall|a: int| 0 <= a < i ==> (#[trigger] out@[a])@ == self.participants@[a].name@,
            decreases self.participants.len() - i,
        {
            out.push(self.participants[i].name.clone());
            i += 1;
        }
        out
    }

    /// Starts a run.
    pub fn begin(&self) -> (run: TccRun)
        ensures
            run.well_formed(*self),
            run.stage == TccStage::Opening,
    {
        TccRun {
            tried: 0,
            confirmed: 0,
            failures: Vec::new(),
            cause: None,
            left: 0,
            undone: Vec::new(),
            stage: TccStage::Opening,
        }
    }

    /// Names the action that is due. An announcement moves the run on; a try,
    /// a confirmation or a cancellation waits for its result.
    pub fn next(&self, run: &mut TccRun) -> (action: TccAction)
        requires
            old(run).well_formed(*self),
        ensures
            final(run).well_formed(*self),
            *final(run) == (TccRun { stage: final(run).stage, ..*old(run) }),
            tcc_due(*self, *old(run), final(run).stage, action),
            old(run).stage is Trying && old(run).tried < self.participants@.len() ==> action
                == TccAction::Try(old(run).tried),
            old(run).stage is Confirming && old(run).confirmed < self.participants@.len()
                ==> action == TccAction::Confirm(old(run).confirmed),
            action matches TccAction::Cancel(i) ==> old(run).cause is Some && i < old(run).left
                && self.participants@[i as int].cancellable && forall|k: int|
                i < k < old(run).left ==> !(#[trigger] self.participants@[k]).cancellable,
            old(run).stage is Canceling && !(action is Cancel) ==> forall|k: int|
                0 <= k < old(run).left ==> !(#[trigger] self.participants@[k]).cancellable,
    {
        assert(self.participants@.len() == self.participants.len());
        proof {
            lemma_cancel_plan(self.participants@, run.left as nat);
        }
        let n: usize = self.participants.len();
        match run.stage {
            TccStage::Opening => {
                run.stage = TccStage::Trying;
                TccAction::PhaseStarted(TccPhase::Try)
            },
            TccStage::Trying => if run.tried < n {
                TccAction::Try(run.tried)
            } else {
                run.stage = TccStage::Tried;
                TccAction::PhaseCompleted(TccPhase::Try)
            },
            TccStage::Tried => {
                run.stage = TccStage::Confirming;
                TccAction::PhaseStarted(TccPhase::Confirm)
            },
            TccStage::Confirming => if run.confirmed < n {
                TccAction::Confirm(run.confirmed)
            } else if run.failures.len() == 0 {
                run.stage = TccStage::Ended;
                TccAction::PhaseCompleted(TccPhase::Confirm)
            } else {
                let message: String = joined_confirm_errors(&run.failures);
                run.stage = TccStage::Ended;
                TccAction::PhaseFailed(TccPhase::Confirm, message)
            },
            TccStage::TryFailed => {
                let message: String = match &run.cause {
                    Some(cause) => cause.clone(),
                    None => String::new(),
                };
                run.stage = TccStage::Aborting;
                TccAction::PhaseFailed(TccPhase::Try, message)
            },
            TccStage::Aborting => if run.tried > 0 {
                run.stage = TccStage::Canceling;
                TccAction::PhaseStarted(TccPhase::Cancel)
            } else {
                run.stage = TccStage::Ended;
                TccAction::Finish
            },
            TccStage::Canceling => {
                let mut at: usize = run.left;
                while at > 0 && !self.participants[at - 1].cancellable
                    invariant
                        at <= run.left <= self.participants@.len(),
                        cancel_plan(self.participants@, at as nat) == cancel_plan(
                            self.participants@,
                            run.left as nat,
                        ),
                    decreases at,
                {
                    at -= 1;
                }
                if at > 0 {
                    assert(cancel_plan(self.participants@, at as nat)[0] == (at - 1) as usize);
                    TccAction::Cancel(at - 1)
                } else {
                    run.stage = TccStage::Ended;
                    TccAction::Finish
                }
            },
            TccStage::Ended => TccAction::Finish,
        }
    }

    /// Records that the participant that was due has tried successfully.
    pub fn try_succeeded(&self, run: &mut TccRun)
        requires
            old(run).well_formed(*self),
            old(run).stage == TccStage::Trying,
            old(run).tried < self.participants@.len(),
        ensures
            final(run).well_formed(*self),
            *final(run) == (TccRun { tried: (old(run).tried + 1) as usize, ..*old(run) }),
    {
        assert(self.participants@.len() == self.participants.len());
        run.tried = run.tried + 1;
    }

    /// Records that the try of the participant that was due has failed: those
    /// before it may now be cancelled. Gives the message of the failure.
    pub fn try_failed(&self, run: &mut TccRun, error: StepInvokeError) -> (message: String)
        requires
            old(run).well_formed(*self),
            old(run).stage == TccStage::Trying,
            old(run).tried < self.participants@.len(),
        ensures
            final(run).well_formed(*self),
            *final(run) == (TccRun {
                cause: final(run).cause,
                left: old(run).tried,
                stage: TccStage::TryFailed,
                ..*old(run)
            }),
            final(run).cause_text() == Some(message@),
            message@ == step_invoker::reported_cause(
                self.participants@[old(run).tried as int].retry,
                error,
                "participant failed"@,
            ),
    {
        let cause: String = unwrap_invoke_cause(
            &self.participants[run.tried].retry,
            error,
            "participant failed",
        );
        let message: String = cause.clone();
        run.cause = Some(cause);
        run.left = run.tried;
        run.stage = TccStage::TryFailed;
        proof {
            let plan = cancel_plan(self.participants@, run.left as nat);
            assert(run.undone@ + plan =~= plan);
        }
        message
    }

    /// Records that the participant that was due has confirmed.
    pub fn confirm_succeeded(&self, run: &mut TccRun)
        requires
            old(run).well_formed(*self),
            old(run).stage == TccStage::Confirming,
            old(run).confirmed < self.participants@.len(),
        ensures
            final(run).well_formed(*self),
            *final(run) == (TccRun { confirmed: (old(run).confirmed + 1) as usize, ..*old(run) }),
    {
        assert(self.participants@.len() == self.participants.len());
        run.confirmed = run.confirmed + 1;
    }

    /// Records that the confirmation of the participant that was due has
    /// failed; the others are still asked. Gives the message of the failure.
    pub fn confirm_failed(&self, run: &mut TccRun, error: StepInvokeError) -> (message: String)
        requires
            old(run).well_formed(*self),
            old(run).stage == TccStage::Confirming,
            old(run).confirmed < self.participants@.len(),
        ensures
            final(run).well_formed(*self),
            *final(run) == (TccRun {
                confirmed: (old(run).confirmed + 1) as usize,
                failures: final(run).failures,
                ..*old(run)
            }),
            final(run).failures@.len() == old(run).failures@.len() + 1,
            final(run).failures@.drop_last() == old(run).failures@,
            final(run).failures@.last().participant@
                == self.participants@[old(run).confirmed as int].name@,
            final(run).failures@.last().source@ == message@,
            message@ == step_invoker::reported_cause(
                self.participants@[old(run).confirmed as int].retry,
                error,
                "participant failed"@,
            ),
    {
        assert(self.participants@.len() == self.participants.len());
        let ghost before = run.failures@;
        let at: usize = run.confirmed;
        let source: String = unwrap_invoke_cause(
            &self.participants[at].retry,
            error,
            "participant failed",
        );
        let message: String = source.clone();
        run.failures.push(
            ConfirmError { participant: self.participants[at].name.clone(), source },
        );
        run.confirmed = at + 1;
        assert(run.failures@.drop_last() =~= before);
        message
    }

    /// Records that the participant that was due was cancelled. Whether the
    /// cancellation succeeded makes no difference.
    pub fn cancelled(&self, run: &mut TccRun, participant: usize)
        requires
            old(run).well_formed(*self),
            tcc_due(
                *self,
                *old(run),
                old(run).stage,
                TccAction::Cancel(participant),
            ),
        ensures
            final(run).well_formed(*self),
            final(run).undone@ == old(run).undone@.push(participant),
            *final(run) == (TccRun {
                left: participant,
                undone: final(run).undone,
                ..*old(run)
            }),
    {
        let ghost before = *run;
        proof {
            assert(self.participants@.len() == self.participants.len());
            lemma_cancel_plan(self.participants@, run.left as nat);
        }
        run.left = participant;
        run.undone.push(participant);
        proof {
            let plan = cancel_plan(self.participants@, before.left as nat);
            assert(run.undone@ + plan.drop_first() =~= before.undone@ + plan);
        }
    }

    /// The result of a run that has ended.
    pub fn finish(&self, run: TccRun) -> (result: Result<(), TccError>)
        requires
            run.well_formed(*self),
            run.stage == TccStage::Ended,
        ensures
            match result {
                Ok(_) => run.cause is None && run.failures@.len() == 0,
                Err(TccError::Try { tcc, participant, source }) => {
                    &&& run.cause == Some(source)
                    &&& tcc@ == self.name@
                    &&& participant@ == self.participants@[run.tried as int].name@
                },
                Err(TccError::Confirm(errors)) => {
                    &&& run.cause is None
                    &&& run.failures@.len() > 0
                    &&& errors == run.failures
                },
            },
            result is Ok <==> run.cause is None && run.failures@.len() == 0,
    {
        match run.cause {
            Some(source) => Err(
                TccError::Try {
                    tcc: self.name.clone(),
                    participant: self.participants[run.tried].name.clone(),
                    source,
                },
            ),
            None => if run.failures.len() == 0 {
                Ok(())
            } else {
                Err(TccError::Confirm(run.failures))
            },
        }
    }
}

/// Confirmation is asked of a participant only once every participant has
/// tried successfully.
pub proof fn law_confirm_only_after_all_tried(tcc: Tcc, run: TccRun, stage: TccStage, i: usize)
    requires
        run.well_formed(tcc),
        tcc_due(tcc, run, stage, TccAction::Confirm(i)),
    ensures
        run.tried == tcc.participants@.len(),
        run.cause is None,
{
}

/// A participant is cancelled only after a try has failed, only if it has
/// tried itself, and never the one whose try failed.
pub proof fn law_cancel_only_what_was_tried(tcc: Tcc, run: TccRun, stage: TccStage, i: usize)
    requires
        tcc.participants@.len() <= usize::MAX,
        run.well_formed(tcc),
        tcc_due(tcc, run, stage, TccAction::Cancel(i)),
    ensures
        run.cause is Some,
        i < run.tried,
        tcc.participants@[i as int].cancellable,
{
    lemma_cancel_plan(tcc.participants@, run.left as nat);
}

/// Cancellations come in reverse order of the tries, and none is left out:
/// once participant `i` is cancelled, what remains of the plan is the plan
/// without it.
pub proof fn law_cancellations_run_in_reverse(tcc: Tcc, run: TccRun, stage: TccStage, i: usize)
    requires
        tcc.participants@.len() <= usize::MAX,
        run.well_formed(tcc),
        tcc_due(tcc, run, stage, TccAction::Cancel(i)),
    ensures
        cancel_plan(tcc.participants@, run.left as nat) == seq![i] + cancel_plan(
            tcc.participants@,
            i as nat,
        ),
{
    lemma_cancel_plan(tcc.participants@, run.left as nat);
    let plan = cancel_plan(tcc.participants@, run.left as nat);
    assert(plan =~= seq![i] + plan.drop_first());
}

/// A run that ends on a failed try has cancelled every participant that had
/// tried and can be cancelled, last first.
pub proof fn law_failed_try_cancels_all_that_tried(tcc: Tcc, run: TccRun)
    requires
        run.well_formed(tcc),
        run.stage == TccStage::Ended,
        run.cause is Some,
    ensures
        run.undone@ == cancel_plan(tcc.participants@, run.tried as nat),
{
    let rest = cancel_plan(tcc.participants@, run.left as nat);
    assert(run.undone@ + rest =~= run.undone@);
}

/// As long as no try has failed, nothing is cancelled: a failed confirmation
/// cancels no participant.
pub proof fn law_failed_confirmation_cancels_nothing(tcc: Tcc, run: TccRun)
    requires
        run.well_formed(tcc),
        run.cause is None,
    ensures
        run.undone@ == Seq::<usize>::empty(),
{
    assert(run.undone@ =~= Seq::<usize>::empty());
}

/// A run that ends without a failed try has asked every participant to
/// confirm, whether or not some of them failed.
pub proof fn law_every_participant_is_asked_to_confirm(tcc: Tcc, run: TccRun)
    requires
        run.well_formed(tcc),
        run.stage == TccStage::Ended,
        run.cause is None,
    ensures
        run.confirmed == tcc.participants@.len(),
{
}

/// What is cancelled is every participant that has tried and can be cancelled,
/// each once, and a later one before an earlier one.
pub proof fn law_cancellations_are_exact(
    participants: Seq<TccParticipant>,
    left: nat,
    i: usize,
)
    requires
        left <= participants.len() <= usize::MAX,
    ensures
        cancel_plan(participants, left).contains(i) <==> i < left
            && participants[i as int].cancellable,
        forall|a: int, b: int|
            0 <= a < b < cancel_plan(participants, left).len() ==> (#[trigger] cancel_plan(
                participants,
                left,
            )[a]) > (#[trigger] cancel_plan(participants, left)[b]),
    decreases left,
{
    let plan = cancel_plan(participants, left);
    if left > 0 {
        let m = (left - 1) as nat;
        let rest = cancel_plan(participants, m);
        law_cancellations_are_exact(participants, m, i);
        if participants[left - 1].cancellable {
            assert(plan =~= seq![m as usize] + rest);
            assert(plan[0] == m);
            if rest.contains(i) {
                let k = choose|k: int| 0 <= k < rest.len() && rest[k] == i;
                assert(plan[k + 1] == i);
            }
            if plan.contains(i) && i != m {
                let k = choose|k: int| 0 <= k < plan.len() && plan[k] == i;
                assert(rest[k - 1] == i);
            }
            assert forall|a: int, b: int| 0 <= a < b < plan.len() implies (#[trigger] plan[a]) > (
            #[trigger] plan[b]) by {
                assert(plan[b] == rest[b - 1]);
                if a == 0 {
                    law_cancellations_are_exact(participants, m, rest[b - 1]);
                    assert(rest.contains(rest[b - 1]));
                } else {
                    assert(plan[a] == rest[a - 1]);
                }
            }
        }
    }
}

/// A run moves from phase to phase by what happened alone: participants try in
/// their order until all have tried or one has failed; then all are asked to
/// confirm in their order, or those that have tried are cancelled from the
/// last on. A participant is asked at most for what its phase is for.
pub proof fn law_phases_follow_what_happened(
    tcc: Tcc,
    run: TccRun,
    stage: TccStage,
    action: TccAction,
)
    requires
        tcc.participants@.len() <= usize::MAX,
        run.well_formed(tcc),
        tcc_due(tcc, run, stage, action),
    ensures
        ({
            let n = tcc.participants@.len();
            let more = exists|k: int|
                0 <= k < run.left && (#[trigger] tcc.participants@[k]).cancellable;
            &&& action is Try <==> run.stage is Trying && run.tried < n
            &&& action matches TccAction::Try(i) ==> i == run.tried
            &&& action is Confirm <==> run.stage is Confirming && run.confirmed < n
            &&& action matches TccAction::Confirm(i) ==> i == run.confirmed
            &&& action is Cancel <==> run.stage is Canceling && more
            &&& action matches TccAction::Cancel(i) ==> i < run.left
                && tcc.participants@[i as int].cancellable && forall|k: int|
                i < k < run.left ==> !(#[trigger] tcc.participants@[k]).cancellable
            &&& action matches TccAction::PhaseCompleted(phase) ==> if phase is Try {
                run.tried == n && run.cause is None && stage is Tried
            } else {
                phase is Confirm && run.confirmed == n && run.failures@.len() == 0
            }
            &&& action matches TccAction::PhaseFailed(phase, message) ==> if phase is Try {
                run.cause is Some && run.cause->0@ == message@
            } else {
                phase is Confirm && run.confirmed == n && run.failures@.len() > 0
            }
            &&& action matches TccAction::PhaseStarted(phase) ==> {
                &&& phase is Try ==> run.tried == 0
                &&& phase is Confirm ==> run.tried == n && run.cause is None
                &&& phase is Cancel ==> run.tried > 0 && run.cause is Some
            }
            &&& action is Finish ==> stage is Ended && (run.cause is Some || run.confirmed == n)
            &&& action is Finish && run.cause is Some && run.stage is Canceling ==> !more
            &&& action is Finish && run.stage is Aborting ==> run.tried == 0
        }),
{
    lemma_cancel_plan(tcc.participants@, run.left as nat);
}

} // verus!

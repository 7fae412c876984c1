//! Retry decisions: what to do after each attempt of a step.
//!
//! The surrounding program runs an attempt and hands its result to
//! [`Invocation::record`], which answers whether to try again and after how
//! long, or how the invocation ended.

use crate::model::RetryPolicy;
use crate::text;
use crate::text::{decimal, quoted};
use vstd::prelude::*;
use vstd::string::*;

verus! {

/// How a step that used up its attempts failed.
#[derive(Debug)]
pub enum StepInvokeError {
    /// The step failed on every attempt.
    Failed {
        /// The step, node or participant.
        step: String,
        /// How many times the action ran.
        attempts: u32,
        /// The error of the last attempt.
        source: String,
    },
    /// The step exceeded its timeout on the last attempt.
    TimedOut {
        /// The step, node or participant.
        step: String,
        /// The timeout of each attempt, in milliseconds.
        timeout_ms: u64,
        /// How many times the action ran.
        attempts: u32,
    },
}

/// The message of a failed invocation.
pub open spec fn invoke_error_text(error: StepInvokeError) -> Seq<char> {
    match error {
        StepInvokeError::Failed { step, attempts, source } => "step "@ + text::debug_text(step@)
            + " failed after "@ + text::decimal_text(attempts as nat) + " attempt(s): "@ + source@,
        StepInvokeError::TimedOut { step, timeout_ms, attempts } => "step "@ + text::debug_text(
            step@,
        ) + " timed out after "@ + text::decimal_text(timeout_ms as nat) + "ms on "@
            + text::decimal_text(attempts as nat) + " attempt(s)"@,
    }
}

impl StepInvokeError {
    /// How many times the action ran before giving up.
    pub fn attempts(&self) -> (n: u32)
        ensures
            n == match *self {
                StepInvokeError::Failed { attempts, .. } => attempts,
                StepInvokeError::TimedOut { attempts, .. } => attempts,
            },
    {
        match self {
            StepInvokeError::Failed { attempts, .. } => *attempts,
            StepInvokeError::TimedOut { attempts, .. } => *attempts,
        }
    }

    /// `true` when the failure was a timeout.
    pub fn is_timeout(&self) -> (yes: bool)
        ensures
            yes == (*self is TimedOut),
    {
        match self {
            StepInvokeError::Failed { .. } => false,
            StepInvokeError::TimedOut { .. } => true,
        }
    }

    /// The error of the last attempt, or `None` for a timeout.
    pub fn into_source(self) -> (cause: Option<String>)
        ensures
            match self {
                StepInvokeError::Failed { source, .. } => cause == Some(source),
                StepInvokeError::TimedOut { .. } => cause is None,
            },
    {
        match self {
            StepInvokeError::Failed { source, .. } => Some(source),
            StepInvokeError::TimedOut { .. } => None,
        }
    }

    /// The message of the error.
    pub fn to_string(&self) -> (message: String)
        ensures
            message@ == invoke_error_text(*self),
            message@ == match *self {
                StepInvokeError::Failed { step, attempts, source } => "step "@ + text::debug_text(
                    step@,
                ) + " failed after "@ + text::decimal_text(attempts as nat) + " attempt(s): "@
                    + source@,
                StepInvokeError::TimedOut { step, timeout_ms, attempts } => "step "@
                    + text::debug_text(step@) + " timed out after "@ + text::decimal_text(
                    timeout_ms as nat,
                ) + "ms on "@ + text::decimal_text(attempts as nat) + " attempt(s)"@,
            },
    {
        let mut out: String = "step ".to_owned();
        match self {
            StepInvokeError::Failed { step, attempts, source } => {
                out.append(quoted(step.as_str()).as_str());
                out.append(" failed after ");
                out.append(decimal(*attempts as u64).as_str());
                out.append(" attempt(s): ");
                out.append(source.as_str());
            },
            StepInvokeError::TimedOut { step, timeout_ms, attempts } => {
                out.append(quoted(step.as_str()).as_str());
                out.append(" timed out after ");
                out.append(decimal(*timeout_ms).as_str());
                out.append("ms on ");
                out.append(decimal(*attempts as u64).as_str());
                out.append(" attempt(s)");
            },
        }
        out
    }
}

/// The result of one attempt.
#[derive(Debug)]
pub enum AttemptResult {
    /// The action succeeded.
    Done,
    /// The action failed with this message.
    Failed(String),
    /// The action did not finish within the timeout.
    TimedOut,
}

/// What follows an attempt.
#[derive(Debug)]
pub enum InvokeStep {
    /// The invocation succeeded after this many attempts.
    Succeeded(u32),
    /// Try again after this many milliseconds.
    Retry(u64),
    /// The attempts are used up.
    GaveUp(StepInvokeError),
}

/// `base` doubled `times` times.
pub open spec fn doubled(base: nat, times: nat) -> nat
    decreases times,
{
    if times == 0 {
        base
    } else {
        2 * doubled(base, (times - 1) as nat)
    }
}

/// The number of attempts that a policy allows: at least one.
pub open spec fn attempt_limit(policy: RetryPolicy) -> int {
    if policy.max_attempts == 0 {
        1
    } else {
        policy.max_attempts as int
    }
}

/// How often the base delay is doubled after attempt number `attempt`.
pub open spec fn doublings(attempt: u32) -> nat {
    if attempt == 0 {
        0
    } else if attempt > 21 {
        20
    } else {
        (attempt - 1) as nat
    }
}

/// A number held to 64 bits.
pub open spec fn capped(n: int) -> u64 {
    if n > u64::MAX {
        u64::MAX
    } else {
        n as u64
    }
}

/// The delay after attempt number `attempt`, without jitter.
pub open spec fn backoff_base(policy: RetryPolicy, attempt: u32) -> u64 {
    capped(doubled(policy.backoff_ms as nat, doublings(attempt)) as int)
}

/// The delay after attempt number `attempt`, where `jitter_ms` was drawn.
pub open spec fn backoff(policy: RetryPolicy, attempt: u32, jitter_ms: u64) -> u64 {
    if policy.backoff_ms == 0 {
        0
    } else if policy.jitter {
        capped(backoff_base(policy, attempt) + jitter_ms)
    } else {
        backoff_base(policy, attempt)
    }
}

/// What follows attempt number `attempt` with the given result.
pub open spec fn follows(
    step: Seq<char>,
    policy: RetryPolicy,
    attempt: u32,
    result: AttemptResult,
    jitter_ms: u64,
    next: InvokeStep,
) -> bool {
    match result {
        AttemptResult::Done => next == InvokeStep::Succeeded(attempt),
        AttemptResult::Failed(message) => if attempt < attempt_limit(policy) {
            next == InvokeStep::Retry(backoff(policy, attempt, jitter_ms))
        } else {
            next matches InvokeStep::GaveUp(error) && error matches StepInvokeError::Failed {
                step: s,
                attempts,
                source,
            } && s@ == step && attempts == attempt && source == message
        },
        AttemptResult::TimedOut => if attempt < attempt_limit(policy) {
            next == InvokeStep::Retry(backoff(policy, attempt, jitter_ms))
        } else {
            next matches InvokeStep::GaveUp(error) && error matches StepInvokeError::TimedOut {
                step: s,
                timeout_ms,
                attempts,
            } && s@ == step && attempts == attempt && timeout_ms == policy.timeout_ms
        },
    }
}

proof fn lemma_doubled_monotone(base: nat, a: nat, b: nat)
    requires
        a <= b,
    ensures
        doubled(base, a) <= doubled(base, b),
    decreases b,
{
    if a < b {
        lemma_doubled_monotone(base, a, (b - 1) as nat);
    }
}

/// The delay never shrinks from one attempt to the next, and it doubles
/// between any two of the first twenty-one unless it has reached its limit.
pub proof fn law_backoff_doubles(policy: RetryPolicy, attempt: u32)
    requires
        1 <= attempt < u32::MAX,
    ensures
        backoff_base(policy, attempt) <= backoff_base(policy, (attempt + 1) as u32),
        attempt <= 20 ==> backoff_base(policy, (attempt + 1) as u32) == capped(
            2 * backoff_base(policy, attempt),
        ),
{
    let next = (attempt + 1) as u32;
    lemma_doubled_monotone(policy.backoff_ms as nat, doublings(attempt), doublings(next));
    if attempt <= 20 {
        assert(doublings(next) == doublings(attempt) + 1);
    }
}

proof fn lemma_doubled_is_power(base: nat, times: nat)
    ensures
        doubled(base, times) == base * vstd::arithmetic::power2::pow2(times),
    decreases times,
{
    if times == 0 {
        vstd::arithmetic::power2::lemma2_to64();
        assert(base * 1 == base);
    } else {
        let less = (times - 1) as nat;
        lemma_doubled_is_power(base, less);
        vstd::arithmetic::power2::lemma_pow2_unfold(times);
        let p = vstd::arithmetic::power2::pow2(less);
        assert(2 * (base * p) == base * (2 * p)) by (nonlinear_arith);
    }
}

/// The delay after an attempt is the base times a power of two, with the
/// jitter on top where the policy asks for it: the base itself after the first
/// attempt, and never more than two to the twentieth times the base. It is
/// held to 64 bits, and a policy without a base never waits.
pub proof fn law_delay_is_a_power_of_two_times_the_base(
    policy: RetryPolicy,
    attempt: u32,
    jitter_ms: u64,
)
    ensures
        ({
            let times: int = if attempt <= 1 {
                0
            } else if attempt <= 21 {
                attempt - 1
            } else {
                20
            };
            let raw = policy.backoff_ms * vstd::arithmetic::power2::pow2(times as nat);
            let extra: int = if policy.jitter {
                jitter_ms as int
            } else {
                0
            };
            let delay = backoff(policy, attempt, jitter_ms);
            &&& policy.backoff_ms == 0 ==> delay == 0
            &&& policy.backoff_ms > 0 && raw + extra <= u64::MAX ==> delay == raw + extra
            &&& policy.backoff_ms > 0 && raw + extra > u64::MAX ==> delay == u64::MAX
            &&& raw >= policy.backoff_ms
        }),
{
    let times = doublings(attempt);
    lemma_doubled_is_power(policy.backoff_ms as nat, times);
    lemma_doubled_monotone(policy.backoff_ms as nat, 0, times);
}

/// An attempt that did not succeed is followed by another exactly when fewer
/// attempts have been made than the policy allows, whatever its timeout, its
/// backoff and its jitter; a policy that allows none makes one attempt. The
/// first attempt that succeeds ends the invocation, and otherwise the error of
/// the last one does.
pub proof fn law_failed_attempts_are_retried(
    step: Seq<char>,
    policy: RetryPolicy,
    attempt: u32,
    result: AttemptResult,
    jitter_ms: u64,
    next: InvokeStep,
)
    requires
        attempt >= 1,
        follows(step, policy, attempt, result, jitter_ms, next),
    ensures
        result is Done <==> next is Succeeded,
        next is Retry <==> !(result is Done) && attempt < policy.max_attempts,
        next is GaveUp <==> !(result is Done) && attempt >= policy.max_attempts,
        next matches InvokeStep::GaveUp(error) ==> (error is TimedOut <==> result is TimedOut),
        next matches InvokeStep::Retry(delay_ms) ==> delay_ms == backoff(
            policy,
            attempt,
            jitter_ms,
        ),
{
}

/// The attempts of two policies with the same number of attempts go alike: the
/// timeout, the backoff and the jitter never change whether another attempt
/// is made.
pub proof fn law_only_the_attempts_decide_a_retry(
    step: Seq<char>,
    a: RetryPolicy,
    b: RetryPolicy,
    attempt: u32,
    result: AttemptResult,
    jitter_ms: u64,
    next_a: InvokeStep,
    next_b: InvokeStep,
)
    requires
        a.max_attempts == b.max_attempts,
        follows(step, a, attempt, result, jitter_ms, next_a),
        follows(step, b, attempt, result, jitter_ms, next_b),
    ensures
        next_a is Retry <==> next_b is Retry,
        next_a is GaveUp <==> next_b is GaveUp,
        next_a is Succeeded <==> next_b is Succeeded,
{
}

/// The delay before the next attempt in milliseconds: the base doubled with
/// every attempt made, at most twenty times, and `jitter_ms` on top where the
/// policy asks for jitter.
pub fn compute_backoff(policy: &RetryPolicy, attempt: u32, jitter_ms: u64) -> (delay_ms: u64)
    ensures
        delay_ms == backoff(*policy, attempt, jitter_ms),
        policy.backoff_ms == 0 ==> delay_ms == 0,
        policy.backoff_ms > 0 && attempt <= 1 && !policy.jitter ==> delay_ms == policy.backoff_ms,
        policy.backoff_ms > 0 ==> delay_ms >= policy.backoff_ms,
        policy.backoff_ms > 0 && policy.jitter ==> delay_ms >= jitter_ms,
{
    proof {
        law_delay_is_a_power_of_two_times_the_base(*policy, attempt, jitter_ms);
    }
    if policy.backoff_ms == 0 {
        return 0;
    }
    let times: u32 = if attempt == 0 {
        0
    } else if attempt > 21 {
        20
    } else {
        attempt - 1
    };
    let mut delay: u64 = policy.backoff_ms;
    let mut i: u32 = 0;
    while i < times
        invariant
            i <= times,
            delay == capped(doubled(policy.backoff_ms as nat, i as nat) as int),
        decreases times - i,
    {
        if delay > u64::MAX / 2 {
            delay = u64::MAX;
        } else {
            delay = delay * 2;
        }
        i += 1;
    }
    if policy.jitter {
        delay.saturating_add(jitter_ms)
    } else {
        delay
    }
}

/// One step under a retry policy, between its attempts.
#[derive(Debug)]
pub struct Invocation {
    /// The step, node or participant.
    pub step: String,
    /// The policy it runs under.
    pub policy: RetryPolicy,
    /// How many attempts have been made.
    pub made: u32,
}

impl Invocation {
    /// Before the first attempt.
    pub fn new(step: &str, policy: RetryPolicy) -> (invocation: Invocation)
        ensures
            invocation.step@ == step@,
            invocation.policy == policy,
            invocation.made == 0,
    {
        Invocation { step: step.to_owned(), policy, made: 0 }
    }

    /// Takes the result of the attempt that was just made and answers what
    /// follows: success at the first attempt that succeeds, another attempt
    /// after the backoff while any is left, and otherwise the error of the
    /// last attempt.
    pub fn record(&mut self, result: AttemptResult, jitter_ms: u64) -> (next: InvokeStep)
        requires
            old(self).made < attempt_limit(old(self).policy),
        ensures
            final(self).step == old(self).step,
            final(self).policy == old(self).policy,
            final(self).made == old(self).made + 1,
            follows(
                old(self).step@,
                old(self).policy,
                (old(self).made + 1) as u32,
                result,
                jitter_ms,
                next,
            ),
            result is Done ==> next == InvokeStep::Succeeded((old(self).made + 1) as u32),
            !(result is Done) ==> (next is Retry <==> old(self).made + 1
                < old(self).policy.max_attempts),
            !(result is Done) ==> (next is GaveUp <==> old(self).made + 1
                >= old(self).policy.max_attempts),
            next matches InvokeStep::GaveUp(error) ==> match result {
                AttemptResult::Failed(message) => error matches StepInvokeError::Failed {
                    step,
                    attempts,
                    source,
                } && step@ == old(self).step@ && attempts == old(self).made + 1 && source
                    == message,
                AttemptResult::TimedOut => error matches StepInvokeError::TimedOut {
                    step,
                    timeout_ms,
                    attempts,
                } && step@ == old(self).step@ && attempts == old(self).made + 1 && timeout_ms
                    == old(self).policy.timeout_ms,
                AttemptResult::Done => false,
            },
            next matches InvokeStep::Retry(delay_ms) ==> (old(self).policy.backoff_ms == 0
                ==> delay_ms == 0) && (old(self).policy.backoff_ms > 0 ==> delay_ms
                >= old(self).policy.backoff_ms),
    {
        proof {
            law_delay_is_a_power_of_two_times_the_base(
                self.policy,
                (self.made + 1) as u32,
                jitter_ms,
            );
        }
        self.made = self.made + 1;
        let limit: u32 = if self.policy.max_attempts == 0 {
            1
        } else {
            self.policy.max_attempts
        };
        let attempts: u32 = self.made;
        match result {
            AttemptResult::Done => InvokeStep::Succeeded(attempts),
            AttemptResult::Failed(source) => if attempts < limit {
                InvokeStep::Retry(compute_backoff(&self.policy, attempts, jitter_ms))
            } else {
                InvokeStep::GaveUp(
                    StepInvokeError::Failed { step: self.step.clone(), attempts, source },
                )
            },
            AttemptResult::TimedOut => if attempts < limit {
                InvokeStep::Retry(compute_backoff(&self.policy, attempts, jitter_ms))
            } else {
                InvokeStep::GaveUp(
                    StepInvokeError::TimedOut {
                        step: self.step.clone(),
                        timeout_ms: self.policy.timeout_ms,
                        attempts,
                    },
                )
            },
        }
    }
}

/// Whether a policy makes one attempt and sets no timeout.
pub open spec fn single_shot(policy: RetryPolicy) -> bool {
    policy.max_attempts <= 1 && policy.timeout_ms == 0
}

/// The message under which an engine reports a failed invocation: the bare
/// cause of a single attempt, or the whole error where attempts or a timeout
/// were configured. `fallback` stands for a cause that is not there.
pub open spec fn reported_cause(
    policy: RetryPolicy,
    error: StepInvokeError,
    fallback: Seq<char>,
) -> Seq<char> {
    if single_shot(policy) {
        match error {
            StepInvokeError::Failed { source, .. } => source@,
            StepInvokeError::TimedOut { .. } => fallback,
        }
    } else {
        invoke_error_text(error)
    }
}

/// The message under which an engine reports a failed invocation.
pub fn unwrap_invoke_cause(policy: &RetryPolicy, error: StepInvokeError, fallback: &str) -> (cause:
    String)
    ensures
        cause@ == reported_cause(*policy, error, fallback@),
        policy.max_attempts > 1 || policy.timeout_ms > 0 ==> cause@ == invoke_error_text(error),
        policy.max_attempts <= 1 && policy.timeout_ms == 0 ==> match error {
            StepInvokeError::Failed { source, .. } => cause@ == source@,
            StepInvokeError::TimedOut { .. } => cause@ == fallback@,
        },
{
    if policy.max_attempts <= 1 && policy.timeout_ms == 0 {
        match error.into_source() {
            Some(source) => source,
            None => fallback.to_owned(),
        }
    } else {
        error.to_string()
    }
}

/// An invocation that gave up reports its own step, how many attempts were
/// made, and the failure of the last one: its message, or the timeout of the
/// policy.
pub proof fn law_giving_up_reports_the_last_attempt(
    step: Seq<char>,
    policy: RetryPolicy,
    attempt: u32,
    result: AttemptResult,
    jitter_ms: u64,
    next: InvokeStep,
)
    requires
        follows(step, policy, attempt, result, jitter_ms, next),
        next is GaveUp,
    ensures
        next->GaveUp_0 matches StepInvokeError::Failed { step: s, attempts, source } ==> s@ == step
            && attempts == attempt && result == AttemptResult::Failed(source),
        next->GaveUp_0 matches StepInvokeError::TimedOut { step: s, timeout_ms, attempts } ==> s@
            == step && attempts == attempt && timeout_ms == policy.timeout_ms
            && result is TimedOut,
{
}

/// A failure is reported by its bare cause exactly where a single attempt
/// without a timeout was configured; anything else is reported with the step,
/// the attempts and the timeout.
pub proof fn law_only_single_attempts_report_the_bare_cause(
    policy: RetryPolicy,
    error: StepInvokeError,
    fallback: Seq<char>,
)
    ensures
        policy.max_attempts > 1 || policy.timeout_ms > 0 ==> reported_cause(
            policy,
            error,
            fallback,
        ) == invoke_error_text(error),
        policy.max_attempts <= 1 && policy.timeout_ms == 0 ==> match error {
            StepInvokeError::Failed { source, .. } => reported_cause(policy, error, fallback)
                == source@,
            StepInvokeError::TimedOut { .. } => reported_cause(policy, error, fallback)
                == fallback,
        },
{
}

} // verus!

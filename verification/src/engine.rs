//! The request engine's retry loop, as a pure decision machine.
//!
//! The engine makes an attempt, looks at its outcome, and either
//! delivers, waits and retries, or gives up.  The decisions are functions
//! from plain values to plain values; the embedding loop performs the
//! send and the sleep and feeds each outcome back.

use vstd::prelude::*;

use crate::errors::{spec_is_retryable, ErrorKind};
use crate::retry::{spec_delay_millis, RetrySettings};

verus! {

/// What one send attempt produced: a response status with the body's
/// text, or a classified transport failure with its message.  The text
/// is carried so that a terminal failure can embed the last attempt's
/// detail.
#[derive(Clone, Debug, PartialEq, Eq)]
pub enum SendOutcome {
    Delivered { status: u16, body_text: String },
    TransportFailure { kind: ErrorKind, detail: String },
}

/// An attempt counts as failed when the transport failed or the status
/// is not 2xx.
pub open spec fn outcome_failed(o: SendOutcome) -> bool {
    match o {
        SendOutcome::Delivered { status, .. } => !(200 <= status < 300),
        SendOutcome::TransportFailure { .. } => true,
    }
}

/// The error kind a failed attempt surfaces as: its transport kind, or
/// an HTTP status error for a non-2xx response.
pub open spec fn spec_outcome_kind(o: SendOutcome) -> ErrorKind {
    match o {
        SendOutcome::Delivered { .. } => ErrorKind::HttpStatusError,
        SendOutcome::TransportFailure { kind, .. } => kind,
    }
}

/// The detail a failed attempt surfaces with: the response body's text
/// for a status failure, the failure message otherwise.
pub open spec fn spec_outcome_detail(o: SendOutcome) -> Seq<char> {
    match o {
        SendOutcome::Delivered { body_text, .. } => body_text@,
        SendOutcome::TransportFailure { detail, .. } => detail@,
    }
}

/// The status an attempt came back with, where a response arrived at
/// all.
pub open spec fn spec_outcome_status(o: SendOutcome) -> Option<u16> {
    match o {
        SendOutcome::Delivered { status, .. } => Some(status),
        SendOutcome::TransportFailure { .. } => None,
    }
}

impl SendOutcome {
    pub fn failed(&self) -> (r: bool)
        ensures
            r == outcome_failed(*self),
    {
        match self {
            SendOutcome::Delivered { status, .. } => !(200 <= *status && *status < 300),
            SendOutcome::TransportFailure { .. } => true,
        }
    }

    pub fn error_kind(&self) -> (r: ErrorKind)
        ensures
            r == spec_outcome_kind(*self),
    {
        match self {
            SendOutcome::Delivered { .. } => ErrorKind::HttpStatusError,
            SendOutcome::TransportFailure { kind, .. } => *kind,
        }
    }

    pub fn detail_text(&self) -> (r: String)
        ensures
            r@ == spec_outcome_detail(*self),
    {
        match self {
            SendOutcome::Delivered { body_text, .. } => body_text.clone(),
            SendOutcome::TransportFailure { detail, .. } => detail.clone(),
        }
    }

    pub fn status(&self) -> (r: Option<u16>)
        ensures
            r == spec_outcome_status(*self),
    {
        match self {
            SendOutcome::Delivered { status, .. } => Some(*status),
            SendOutcome::TransportFailure { .. } => None,
        }
    }
}

/// What the engine does after an attempt.
#[derive(Clone, Copy, Debug, PartialEq, Eq, Structural)]
pub enum NextStep {
    /// Hand the response to the caller.
    Deliver,
    /// Sleep this many milliseconds, then send again.
    RetryAfter { delay_millis: u64 },
    /// Surface the failure of the attempt just made.
    GiveUp,
}

/// Decides the next step after attempt number `attempts_made` (counted
/// from 1) came back with `outcome`: deliver on success; after a
/// retryable failure retry while `attempts_made <= max_retries`, waiting
/// the backoff delay of retry `attempts_made`; give up otherwise.  A
/// failure that is not retryable (a build error, a bad URL) is surfaced
/// on first occurrence.  A delay too long for a `u64` of milliseconds is
/// clamped to `u64::MAX`.
pub fn next_step(settings: &RetrySettings, attempts_made: u32, outcome: &SendOutcome) -> (r:
    NextStep)
    requires
        attempts_made >= 1,
        settings.wf(),
    ensures
        (r is Deliver) == !outcome_failed(*outcome),
        (r is RetryAfter) == (outcome_failed(*outcome) && spec_is_retryable(
            spec_outcome_kind(*outcome),
        ) && attempts_made <= settings.max_retries),
        (r is GiveUp) == (outcome_failed(*outcome) && (!spec_is_retryable(
            spec_outcome_kind(*outcome),
        ) || attempts_made > settings.max_retries)),
        r matches NextStep::RetryAfter { delay_millis } ==> delay_millis == spec_delay_millis(
            settings.backoff_factor_millis as nat,
            attempts_made as nat,
        ) || (delay_millis == u64::MAX && spec_delay_millis(
            settings.backoff_factor_millis as nat,
            attempts_made as nat,
        ) > u64::MAX as nat / 2000),
{
    if !outcome.failed() {
        NextStep::Deliver
    } else if outcome.error_kind().is_retryable() && attempts_made <= settings.max_retries {
        match settings.next_delay_millis(attempts_made) {
            Some(d) => NextStep::RetryAfter { delay_millis: d },
            None => NextStep::RetryAfter { delay_millis: u64::MAX },
        }
    } else {
        NextStep::GiveUp
    }
}

/// What a finished run of the engine reports: the delivered status, or
/// the last failure embedded in full — its kind, its detail (the
/// response body's text for a status failure, the failure message
/// otherwise), and the status where a response arrived; either way the
/// number of attempts made.
#[derive(Clone, Debug, PartialEq, Eq)]
pub enum EngineResult {
    Delivered { status: u16, attempts: u32 },
    Exhausted { kind: ErrorKind, detail: String, status: Option<u16>, attempts: u32 },
}

impl EngineResult {
    /// How many send attempts the run made.
    pub open spec fn spec_attempts(self) -> u32 {
        match self {
            EngineResult::Delivered { attempts, .. } => attempts,
            EngineResult::Exhausted { attempts, .. } => attempts,
        }
    }

    pub fn attempts(&self) -> (r: u32)
        ensures
            r == self.spec_attempts(),
    {
        match self {
            EngineResult::Delivered { attempts, .. } => *attempts,
            EngineResult::Exhausted { attempts, .. } => *attempts,
        }
    }
}

/// Runs the engine's decisions over the outcomes of successive attempts,
/// in order: `outcomes[i]` is what attempt `i + 1` produced.  The run
/// stops at the first successful attempt, or gives up once a failure
/// follows `max_retries` retries; the tape must be long enough to decide.
///
/// A permanently failing transport makes exactly `max_retries + 1`
/// attempts: the last ensures clause states it for every all-failure
/// tape.
pub fn run_attempts(settings: &RetrySettings, outcomes: &Vec<SendOutcome>) -> (r: EngineResult)
    requires
        settings.wf(),
        settings.max_retries < u32::MAX,
        outcomes@.len() > settings.max_retries,
    ensures
        1 <= r.spec_attempts() <= settings.max_retries + 1,
        r.spec_attempts() <= outcomes@.len(),
        forall|j: int| 0 <= j < r.spec_attempts() - 1 ==> outcome_failed(outcomes@[j]),
        (r is Delivered) == !outcome_failed(outcomes@[r.spec_attempts() - 1]),
        r matches EngineResult::Delivered { status, attempts } ==> (outcomes@[attempts
            - 1] matches SendOutcome::Delivered { status: s, .. } && s == status),
        r matches EngineResult::Exhausted { kind, detail, status, attempts } ==> (attempts
            == settings.max_retries + 1 || !spec_is_retryable(kind)) && kind == spec_outcome_kind(
            outcomes@[attempts - 1],
        ) && detail@ == spec_outcome_detail(outcomes@[attempts - 1]) && status
            == spec_outcome_status(outcomes@[attempts - 1]),
        (forall|j: int|
            0 <= j < outcomes@.len() ==> outcome_failed(#[trigger] outcomes@[j])
                && spec_is_retryable(spec_outcome_kind(outcomes@[j]))) ==> r is Exhausted
            && r.spec_attempts() == settings.max_retries + 1,
{
    let mut i: u32 = 1;
    while i <= settings.max_retries
        invariant
            1 <= i <= settings.max_retries + 1,
            i as int <= outcomes@.len(),
            settings.wf(),
            settings.max_retries < u32::MAX,
            outcomes@.len() > settings.max_retries,
            forall|j: int| 0 <= j < i - 1 ==> outcome_failed(outcomes@[j]),
        decreases settings.max_retries + 1 - i,
    {
        let outcome = &outcomes[i as usize - 1];
        let step = next_step(settings, i, outcome);
        match step {
            NextStep::Deliver => {
                let status = match outcome {
                    SendOutcome::Delivered { status, .. } => *status,
                    SendOutcome::TransportFailure { .. } => 0,
                };
                return EngineResult::Delivered { status, attempts: i };
            },
            NextStep::RetryAfter { .. } => {
                i = i + 1;
            },
            NextStep::GiveUp => {
                return EngineResult::Exhausted {
                    kind: outcome.error_kind(),
                    detail: outcome.detail_text(),
                    status: outcome.status(),
                    attempts: i,
                };
            },
        }
    }
    let outcome = &outcomes[i as usize - 1];
    let step = next_step(settings, i, outcome);
    match step {
        NextStep::Deliver => {
            let status = match outcome {
                SendOutcome::Delivered { status, .. } => *status,
                SendOutcome::TransportFailure { .. } => 0,
            };
            EngineResult::Delivered { status, attempts: i }
        },
        _ => EngineResult::Exhausted {
            kind: outcome.error_kind(),
            detail: outcome.detail_text(),
            status: outcome.status(),
            attempts: i,
        },
    }
}

} // verus!

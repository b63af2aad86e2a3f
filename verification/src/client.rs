//! The SOAP exchange with the SEI, as decisions: how an attempt to send
//! ends, whether to try again, and what an answer means.

use vstd::prelude::*;
use crate::error::AppError;
use crate::xml::{extract_fault, fault_of};
use crate::text::decimal_string;

verus! {

/// How one attempt to send a request ended.
#[derive(Debug, Clone, Copy, PartialEq, Eq, Structural)]
pub enum SendOutcome {
    /// The SEI answered (with any HTTP status).
    Answered,
    /// The request timed out.
    TimedOut,
    /// No connection (DNS, route, firewall, server down).
    ConnectionFailed,
}

/// What to do after an attempt.
#[derive(Debug)]
pub enum Step {
    /// Read the answer.
    Proceed,
    /// Wait this many milliseconds and send again.
    Retry { wait_ms: u64 },
    /// Give up with this error.
    Fail(AppError),
}

/// The most attempts made for one request.
pub const MAX_ATTEMPTS: u8 = 2;

/// The pause before the second attempt.
pub const RETRY_WAIT_MS: u64 = 400;

/// What follows attempt number `attempt` (counting from 1): an answer is
/// read; a timeout fails at once; a connection failure is tried once more
/// after a short pause (the way to the SEI crosses a firewall and can fail
/// now and then), then fails as `SeiUnavailable`.
pub open spec fn step_of(attempt: u8, outcome: SendOutcome) -> Step {
    match outcome {
        SendOutcome::Answered => Step::Proceed,
        SendOutcome::TimedOut => Step::Fail(AppError::Timeout),
        SendOutcome::ConnectionFailed => if attempt < MAX_ATTEMPTS {
            Step::Retry { wait_ms: RETRY_WAIT_MS }
        } else {
            Step::Fail(AppError::SeiUnavailable)
        },
    }
}

/// Decides what follows an attempt to send.
pub fn next_step(attempt: u8, outcome: SendOutcome) -> (r: Step)
    ensures
        r == step_of(attempt, outcome),
{
    match outcome {
        SendOutcome::Answered => Step::Proceed,
        SendOutcome::TimedOut => Step::Fail(AppError::Timeout),
        SendOutcome::ConnectionFailed => if attempt < MAX_ATTEMPTS {
            Step::Retry { wait_ms: RETRY_WAIT_MS }
        } else {
            Step::Fail(AppError::SeiUnavailable)
        },
    }
}

/// A request is sent at most twice: after a retry from attempt `a`, the next
/// attempt never retries again.
pub proof fn law_at_most_two_attempts(a: u8, o1: SendOutcome, o2: SendOutcome)
    requires
        a >= 1,
        step_of(a, o1) is Retry,
        a < 255,
    ensures
        !(step_of((a + 1) as u8, o2) is Retry),
{
}

/// The message of an HTTP error of the SEI.
pub open spec fn http_error_message(status: u16, operation: Seq<char>) -> Seq<char> {
    "HTTP "@ + crate::text::decimal(status as nat) + " do SEI na operação '"@ + operation + "'"@
}

/// Whether `r` is what an answer of the SEI means: a SOAP Fault (which may
/// come even with HTTP 500) is that fault; otherwise a status outside 2xx is
/// an HTTP error; otherwise the body is the answer.
pub open spec fn is_answer_of(
    r: Result<String, AppError>,
    operation: Seq<char>,
    status: u16,
    body: Seq<char>,
) -> bool {
    match fault_of(body) {
        Some((c, s)) => r matches Err(AppError::SoapFault { code, string }) && code@ == c && string@
            == s,
        None => if 200 <= status < 300 {
            r matches Ok(b) && b@ == body
        } else {
            r matches Err(AppError::Upstream(m)) && m@ == http_error_message(status, operation)
        },
    }
}

/// Interprets an answer of the SEI (its HTTP status and body).
pub fn interpret_answer(operation: &str, status: u16, body: String) -> (r: Result<String, AppError>)
    ensures
        is_answer_of(r, operation@, status, body@),
{
    if let Some((code, string)) = extract_fault(body.as_str()) {
        return Err(AppError::SoapFault { code, string });
    }
    if 200 <= status && status < 300 {
        Ok(body)
    } else {
        let mut m = String::from_str("HTTP ");
        let d = decimal_string(status as u64);
        m.append(d.as_str());
        m.append(" do SEI na operação '");
        m.append(operation);
        m.append("'");
        Err(AppError::Upstream(m))
    }
}

} // verus!

//! When a failed request is made again.
use vstd::prelude::*;

use crate::error::AgentError;
use crate::text::starts_with;

verus! {

/// The API that a request goes to.
#[derive(Clone, Copy, PartialEq, Eq, Structural, Debug)]
pub enum Service {
    GitHub,
    Ai,
}

/// What to do after a failed request.
pub enum RetryStep {
    /// Make it again after so many milliseconds.
    Wait(u64),
    /// Report the error.
    GiveUp(AgentError),
}

/// The words for a request that kept failing.
pub open spec fn exhausted_heading(error: AgentError) -> Seq<char> {
    "Max retries exceeded: "@ + error.heading()
}

/// The error that a request which kept failing ends with.
pub open spec fn is_exhausted(service: Service, error: AgentError, last: AgentError) -> bool {
    match (service, last) {
        (Service::GitHub, AgentError::GitHub(m)) => exhausted_words(error, m@),
        (Service::Ai, AgentError::Ai(m)) => exhausted_words(error, m@),
        _ => false,
    }
}

/// The message of a request that kept failing.
pub open spec fn exhausted_words(error: AgentError, m: Seq<char>) -> bool {
    &&& starts_with(m, exhausted_heading(error))
    &&& (error.details() matches Some(d) ==> m == exhausted_heading(error) + d)
}

/// How often a request is made again at most.
pub const MAX_RETRIES: u32 = 3;

/// What is done after a failed request that was made again so often before, and how often
/// it was made again then.
pub open spec fn is_retry(
    service: Service,
    error: AgentError,
    before: u32,
    pause_ms: Option<u64>,
    after: u32,
    step: RetryStep,
) -> bool {
    match step {
        RetryStep::Wait(ms) => error.transient() && before < MAX_RETRIES && pause_ms == Some(ms)
            && after == before + 1,
        RetryStep::GiveUp(last) => after == before && if error.transient() {
            (before >= MAX_RETRIES || pause_ms is None) && is_exhausted(service, error, last)
        } else {
            last == error
        },
    }
}

/// A request is made again three times at most, only after an error that may pass, and
/// after the pause that there is for it. An error that stays is reported as it is, and one
/// that kept coming as one of the service that it came from.
pub proof fn requests_are_made_again_three_times_at_most(
    service: Service,
    error: AgentError,
    before: u32,
    pause_ms: Option<u64>,
    after: u32,
    step: RetryStep,
)
    requires
        is_retry(service, error, before, pause_ms, after, step),
    ensures
        before <= 3 ==> after <= 3,
        step matches RetryStep::Wait(ms) ==> error.transient() && pause_ms == Some(ms) && after
            == before + 1 && after <= 3,
        error.transient() && before < 3 && pause_ms is Some ==> step is Wait,
        !error.transient() ==> step == RetryStep::GiveUp(error),
        error.transient() && step is GiveUp ==> match service {
            Service::GitHub => step->GiveUp_0 is GitHub,
            Service::Ai => step->GiveUp_0 is Ai,
        },
{
}

/// What to do after a failed request, given the pause that the backoff allows before
/// the next attempt, if it allows one. Only a transient error is worth another
/// attempt. How often the request was made again is counted, and the count, begun at
/// zero, never passes [`MAX_RETRIES`].
pub fn retry_step(
    service: Service,
    error: AgentError,
    retries: &mut u32,
    pause_ms: Option<u64>,
) -> (r: RetryStep)
    ensures
        is_retry(service, error, *old(retries), pause_ms, *final(retries), r),
        !error.transient() ==> r == RetryStep::GiveUp(error),
        error.transient() ==> match pause_ms {
            Some(ms) if *old(retries) < MAX_RETRIES => r == RetryStep::Wait(ms),
            _ => r matches RetryStep::GiveUp(last) && is_exhausted(service, error, last),
        },
        r is Wait ==> *final(retries) == *old(retries) + 1 && *final(retries) <= MAX_RETRIES,
        r is GiveUp ==> *final(retries) == *old(retries),
{
    if !error.is_transient() {
        return RetryStep::GiveUp(error);
    }
    if let Some(ms) = pause_ms {
        if *retries < MAX_RETRIES {
            *retries = *retries + 1;
            return RetryStep::Wait(ms);
        }
    }
    let words = error.message();
    let mut m = "Max retries exceeded: ".to_owned();
    m.push_str(words.as_str());
    proof {
        let h = error.heading();
        let front = "Max retries exceeded: "@;
        assert(words@.subrange(0, h.len() as int) == h);
        assert(m@.subrange(0, (front + h).len() as int) =~= front + h);
        if let Some(d) = error.details() {
            assert(front + (h + d) =~= front + h + d);
        }
    }
    match service {
        Service::GitHub => RetryStep::GiveUp(AgentError::GitHub(m)),
        Service::Ai => RetryStep::GiveUp(AgentError::Ai(m)),
    }
}

/// What is reported at last is never worth another attempt.
pub proof fn given_up_is_permanent(service: Service, error: AgentError, last: AgentError)
    requires
        is_exhausted(service, error, last),
    ensures
        !last.transient(),
{
    reveal_strlit("Max retries exceeded: ");
    reveal_strlit("GitHub API transient error");
    reveal_strlit("GitHub API rate limit exceeded");
    reveal_strlit("GitHub API error (5");
    reveal_strlit("GitHub API error (429)");
    reveal_strlit("AI API rate limit exceeded (429)");
    reveal_strlit("AI API server error (5");
    let m = match last {
        AgentError::GitHub(m) => m@,
        AgentError::Ai(m) => m@,
        _ => Seq::empty(),
    };
    let front = exhausted_heading(error);
    assert(m.subrange(0, front.len() as int)[0] == m[0]);
    assert(m[0] == 'M');
    assert forall|pat: Seq<char>| pat.len() > 0 && #[trigger] starts_with(m, pat) implies pat[0]
        == 'M' by {
        assert(m.subrange(0, pat.len() as int)[0] == m[0]);
    }
}

} // verus!

use vstd::prelude::*;

verus! {

/// How many times a session may attempt to acquire the registry before
/// registration is reported as failed.
pub const MAX_RETRIES: u32 = 5;

/// Backoff, in milliseconds, between two registration attempts.
pub const RETRY_BACKOFF_MS: u64 = 200;

/// What the session should do after one failed attempt to acquire the
/// registry.
#[derive(Debug, Copy, Clone, PartialEq, Eq, Structural)]
pub enum RetryDecision {
    /// Wait the given number of milliseconds, then try again.
    RetryAfterMs(u64),
    /// The budget is exhausted; reject the connection.
    GiveUp,
}

/// The attempt counter of one registration loop.
#[derive(Debug, Copy, Clone, PartialEq, Eq, Structural)]
pub struct RegistrationRetry {
    pub tries: u32,
}

impl RegistrationRetry {
    pub fn new() -> (r: Self)
        ensures
            r.tries == 0,
    {
        RegistrationRetry { tries: 0 }
    }

    /// Record that an attempt found the registry locked: either back off and
    /// try again, or, after the last allowed attempt, give up.
    pub fn on_busy(&mut self) -> (r: RetryDecision)
        requires
            old(self).tries < MAX_RETRIES,
        ensures
            final(self).tries == old(self).tries + 1,
            final(self).tries < MAX_RETRIES ==> r == RetryDecision::RetryAfterMs(RETRY_BACKOFF_MS),
            final(self).tries == MAX_RETRIES ==> r == RetryDecision::GiveUp,
    {
        self.tries += 1;
        if self.tries < MAX_RETRIES {
            RetryDecision::RetryAfterMs(RETRY_BACKOFF_MS)
        } else {
            RetryDecision::GiveUp
        }
    }
}

/// The attempt, if any, at which a registration loop acquires the registry,
/// when attempt `t` finds the registry busy exactly when `busy[t]`.
pub open spec fn spec_retry_from(busy: Seq<bool>, t: int) -> Option<int>
    decreases MAX_RETRIES - t,
{
    if t < 0 || t >= MAX_RETRIES || t >= busy.len() {
        None
    } else if !busy[t] {
        Some(t)
    } else {
        spec_retry_from(busy, t + 1)
    }
}

/// See [`spec_retry_from`]: the overall outcome of one registration loop.
pub open spec fn spec_retry_outcome(busy: Seq<bool>) -> Option<int> {
    spec_retry_from(busy, 0)
}

/// The bounded registration loop over an observed contention pattern: walk
/// the attempts in order and stop at the first one that finds the registry
/// free, never spending more than the retry budget.
pub fn registration_outcome(busy: &Vec<bool>) -> (r: Option<u32>)
    ensures
        match r {
            Some(i) => spec_retry_outcome(busy@) == Some(i as int),
            None => spec_retry_outcome(busy@) is None,
        },
{
    let mut retry = RegistrationRetry::new();
    let n = busy.len();
    loop
        invariant
            retry.tries <= MAX_RETRIES,
            n == busy@.len(),
            spec_retry_outcome(busy@) == spec_retry_from(busy@, retry.tries as int),
        decreases MAX_RETRIES - retry.tries,
    {
        let t = retry.tries;
        if t >= MAX_RETRIES || t as usize >= n {
            return None;
        }
        if !busy[t as usize] {
            return Some(t);
        }
        match retry.on_busy() {
            RetryDecision::RetryAfterMs(_) => {},
            RetryDecision::GiveUp => {
                return None;
            },
        }
    }
}

/// Registration succeeds within the retry budget as soon as the contention
/// clears within it: the loop acquires the registry at the first attempt that
/// finds it free. When every attempt in the budget finds it busy, the loop
/// fails deterministically after the last one.
pub proof fn lemma_retry_budget(busy: Seq<bool>)
    ensures
        (exists|i: int| 0 <= i < MAX_RETRIES && i < busy.len() && !busy[i])
            ==> spec_retry_outcome(busy) is Some,
        spec_retry_outcome(busy) matches Some(i) ==> 0 <= i < MAX_RETRIES && i < busy.len()
            && !busy[i] && forall|j: int| 0 <= j < i ==> busy[j],
        (forall|i: int| 0 <= i < MAX_RETRIES && i < busy.len() ==> busy[i]) ==> spec_retry_outcome(
            busy,
        ) is None,
{
    lemma_retry_from(busy, 0);
}

proof fn lemma_retry_from(busy: Seq<bool>, t: int)
    requires
        0 <= t <= MAX_RETRIES,
    ensures
        (exists|i: int| t <= i < MAX_RETRIES && i < busy.len() && !busy[i]) ==> spec_retry_from(
            busy,
            t,
        ) is Some,
        spec_retry_from(busy, t) matches Some(i) ==> t <= i < MAX_RETRIES && i < busy.len()
            && !busy[i] && forall|j: int| t <= j < i ==> busy[j],
        (forall|i: int| t <= i < MAX_RETRIES && i < busy.len() ==> busy[i]) ==> spec_retry_from(
            busy,
            t,
        ) is None,
    decreases MAX_RETRIES - t,
{
    if t < MAX_RETRIES && t < busy.len() && !busy[t] {
    } else if t < MAX_RETRIES {
        lemma_retry_from(busy, t + 1);
    }
}

} // verus!

//! The retry rule for requests.
//!
//! A transport failure (no response was received at all) is retried after a
//! fixed pause, a fixed number of times. A response, whatever its status,
//! ends the exchange at once. The caller performs the attempts and the
//! pauses; this module decides after each attempt what comes next.

use vstd::prelude::*;

verus! {

/// How many times a failed request to the caching proxy is repeated.
pub const MAX_RETRIES: u32 = 10;

/// Seconds to wait before a request to the caching proxy is repeated.
pub const RETRY_DELAY_SECS: u64 = 1;

/// How often, and how far apart, a request is repeated after a transport
/// failure.
#[derive(Clone, Copy, Debug, PartialEq, Eq)]
pub struct RetryPolicy {
    /// How many times a failed attempt is repeated.
    pub max_retries: u32,
    /// Seconds to wait before an attempt is repeated.
    pub delay_secs: u64,
}

/// The policy of a request that is attempted once.
pub open spec fn single_attempt() -> RetryPolicy {
    RetryPolicy { max_retries: 0, delay_secs: 0 }
}

/// The policy of a request to the caching proxy: up to `MAX_RETRIES`
/// repetitions, `RETRY_DELAY_SECS` apart.
pub open spec fn proxy_retries() -> RetryPolicy {
    RetryPolicy { max_retries: MAX_RETRIES, delay_secs: RETRY_DELAY_SECS }
}

impl RetryPolicy {
    /// The policy of a request that is attempted once.
    pub fn once() -> (policy: RetryPolicy)
        ensures
            policy == single_attempt(),
    {
        RetryPolicy { max_retries: 0, delay_secs: 0 }
    }

    /// The policy of a request to the caching proxy.
    pub fn cache_proxy() -> (policy: RetryPolicy)
        ensures
            policy == proxy_retries(),
    {
        RetryPolicy { max_retries: MAX_RETRIES, delay_secs: RETRY_DELAY_SECS }
    }
}

/// What to do after an attempt.
#[derive(Debug)]
pub enum RetryStep<R, E> {
    /// The exchange is over, with this result.
    Finished(Result<R, E>),
    /// Wait this many seconds, then attempt again.
    RetryAfter { seconds: u64 },
}

/// The course of one exchange: its policy, and how many of its attempts
/// have failed so far.
#[derive(Debug)]
pub struct RetryState {
    policy: RetryPolicy,
    failures: u32,
}

/// The decision after an attempt that followed `failures` failed ones.
pub open spec fn retry_step<R, E>(
    policy: RetryPolicy,
    failures: nat,
    outcome: Result<R, E>,
) -> RetryStep<R, E> {
    match outcome {
        Ok(response) => RetryStep::Finished(Ok(response)),
        Err(error) => if failures < policy.max_retries {
            RetryStep::RetryAfter { seconds: policy.delay_secs }
        } else {
            RetryStep::Finished(Err(error))
        },
    }
}

/// The number of failures on record after an attempt.
pub open spec fn failures_after<R, E>(
    policy: RetryPolicy,
    failures: nat,
    outcome: Result<R, E>,
) -> nat {
    if outcome is Err && failures < policy.max_retries {
        failures + 1
    } else {
        failures
    }
}

/// How an exchange ends when its attempts come out as `outcomes`, in order,
/// after `failures` earlier failures: `None` while the outcomes given do not
/// end it yet.
pub open spec fn conclude<R, E>(
    policy: RetryPolicy,
    outcomes: Seq<Result<R, E>>,
    failures: nat,
) -> Option<Result<R, E>>
    decreases outcomes.len(),
{
    if outcomes.len() == 0 {
        None
    } else {
        match retry_step(policy, failures, outcomes[0]) {
            RetryStep::Finished(result) => Some(result),
            RetryStep::RetryAfter { .. } => conclude(
                policy,
                outcomes.drop_first(),
                failures_after(policy, failures, outcomes[0]),
            ),
        }
    }
}

impl RetryState {
    /// The policy of the exchange.
    pub closed spec fn policy(&self) -> RetryPolicy {
        self.policy
    }

    /// The failures on record.
    pub closed spec fn failures(&self) -> nat {
        self.failures as nat
    }

    /// The state before the first attempt.
    pub fn new(policy: RetryPolicy) -> (state: RetryState)
        ensures
            state.policy() == policy,
            state.failures() == 0,
    {
        RetryState { policy, failures: 0 }
    }

    /// Decides what follows an attempt that came out as `outcome`.
    pub fn on_outcome<R, E>(&mut self, outcome: Result<R, E>) -> (step: RetryStep<R, E>)
        ensures
            step == retry_step(old(self).policy(), old(self).failures(), outcome),
            final(self).policy() == old(self).policy(),
            final(self).failures() == failures_after(
                old(self).policy(),
                old(self).failures(),
                outcome,
            ),
    {
        match outcome {
            Ok(response) => RetryStep::Finished(Ok(response)),
            Err(error) => {
                if self.failures < self.policy.max_retries {
                    self.failures = self.failures + 1;
                    RetryStep::RetryAfter { seconds: self.policy.delay_secs }
                } else {
                    RetryStep::Finished(Err(error))
                }
            },
        }
    }
}

/// After `failures` failures, attempts that fail no more often than the
/// policy still allows and then succeed end with that success.
proof fn lemma_recovers_from<R, E>(policy: RetryPolicy, outcomes: Seq<Result<R, E>>, failures: nat)
    requires
        outcomes.len() > 0,
        failures + outcomes.len() - 1 <= policy.max_retries,
        forall|i: int| 0 <= i < outcomes.len() - 1 ==> outcomes[i] is Err,
        outcomes.last() is Ok,
    ensures
        conclude(policy, outcomes, failures) == Some(outcomes.last()),
    decreases outcomes.len(),
{
    if outcomes.len() > 1 {
        let rest = outcomes.drop_first();
        assert(outcomes[0] is Err);
        assert forall|i: int| 0 <= i < rest.len() - 1 implies rest[i] is Err by {
            assert(rest[i] == outcomes[i + 1]);
        }
        assert(rest.last() == outcomes.last());
        lemma_recovers_from(policy, rest, failures + 1);
    }
}

/// After `failures` failures, attempts that all fail go on while the policy
/// allows, and end with the first error that it does not allow to retry.
proof fn lemma_gives_up_from<R, E>(policy: RetryPolicy, outcomes: Seq<Result<R, E>>, failures: nat)
    requires
        failures <= policy.max_retries,
        forall|i: int| 0 <= i < outcomes.len() ==> outcomes[i] is Err,
    ensures
        failures + outcomes.len() <= policy.max_retries ==> conclude(policy, outcomes, failures)
            is None,
        failures + outcomes.len() > policy.max_retries ==> conclude(policy, outcomes, failures)
            == Some(outcomes[policy.max_retries - failures]),
    decreases outcomes.len(),
{
    if outcomes.len() > 0 {
        assert(outcomes[0] is Err);
        if failures < policy.max_retries {
            let rest = outcomes.drop_first();
            assert forall|i: int| 0 <= i < rest.len() implies rest[i] is Err by {
                assert(rest[i] == outcomes[i + 1]);
            }
            lemma_gives_up_from(policy, rest, failures + 1);
            if failures + outcomes.len() > policy.max_retries {
                assert(rest[policy.max_retries - failures - 1] == outcomes[policy.max_retries
                    - failures]);
            }
        }
    }
}

/// Once an exchange has ended, what further attempts would have brought
/// does not matter.
pub proof fn lemma_conclusion_stands<R, E>(
    policy: RetryPolicy,
    outcomes: Seq<Result<R, E>>,
    further: Seq<Result<R, E>>,
    failures: nat,
)
    requires
        conclude(policy, outcomes, failures) is Some,
    ensures
        conclude(policy, outcomes + further, failures) == conclude(policy, outcomes, failures),
    decreases outcomes.len(),
{
    let all = outcomes + further;
    assert(outcomes.len() > 0);
    assert(all[0] == outcomes[0]);
    match retry_step(policy, failures, outcomes[0]) {
        RetryStep::Finished(_) => {},
        RetryStep::RetryAfter { .. } => {
            assert(all.drop_first() =~= outcomes.drop_first() + further);
            lemma_conclusion_stands(
                policy,
                outcomes.drop_first(),
                further,
                failures_after(policy, failures, outcomes[0]),
            );
        },
    }
}

/// A transport that fails `failing` times, no more often than the policy
/// allows retries, and then answers, yields that answer: the exchange
/// itself does not fail.
pub proof fn lemma_retry_recovers<R, E>(
    policy: RetryPolicy,
    outcomes: Seq<Result<R, E>>,
    failing: nat,
)
    requires
        failing <= policy.max_retries,
        failing < outcomes.len(),
        forall|i: int| 0 <= i < failing ==> outcomes[i] is Err,
        outcomes[failing as int] is Ok,
    ensures
        conclude(policy, outcomes, 0) == Some(outcomes[failing as int]),
{
    let cut = failing as int + 1;
    let first = outcomes.take(cut);
    lemma_recovers_from(policy, first, 0);
    lemma_conclusion_stands(policy, first, outcomes.skip(cut), 0);
    assert(first + outcomes.skip(cut) =~= outcomes);
}

/// A transport that fails on every attempt surfaces the error of attempt
/// number `max_retries + 1`, and no further attempt is made: for the
/// caching proxy, the eleventh.
pub proof fn lemma_retry_gives_up<R, E>(policy: RetryPolicy, outcomes: Seq<Result<R, E>>)
    requires
        outcomes.len() > policy.max_retries,
        forall|i: int| 0 <= i <= policy.max_retries ==> outcomes[i] is Err,
    ensures
        conclude(policy, outcomes, 0) == Some(outcomes[policy.max_retries as int]),
{
    let cut = policy.max_retries as int + 1;
    let first = outcomes.take(cut);
    lemma_gives_up_from(policy, first, 0);
    lemma_conclusion_stands(policy, first, outcomes.skip(cut), 0);
    assert(first + outcomes.skip(cut) =~= outcomes);
}

/// While every attempt has failed and retries are left, the exchange goes on.
pub proof fn lemma_retry_goes_on<R, E>(policy: RetryPolicy, outcomes: Seq<Result<R, E>>)
    requires
        outcomes.len() <= policy.max_retries,
        forall|i: int| 0 <= i < outcomes.len() ==> outcomes[i] is Err,
    ensures
        conclude(policy, outcomes, 0) is None,
{
    lemma_gives_up_from(policy, outcomes, 0);
}

} // verus!

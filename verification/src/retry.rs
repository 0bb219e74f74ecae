//! The retry policy of one call.
//!
//! A call makes attempts against its backend until one succeeds, one fails
//! in a way that no retry can mend, or the budget of retries is spent. The
//! state here counts the attempts of a single call; it is never shared
//! between calls. The caller makes each attempt and hands back how it
//! ended.

use crate::error::LLMError;
use vstd::prelude::*;

verus! {

/// What the policy says after an attempt that ended in `outcome`, when
/// `made` attempts had failed before it and `budget` retries are allowed:
/// `None` to try again, or the result of the call. A success ends the
/// call. A failure is retried only if its kind may be retried and a retry
/// is left.
pub open spec fn verdict<T>(budget: nat, made: nat, outcome: Result<T, LLMError>) -> Option<
    Result<T, LLMError>,
> {
    match outcome {
        Ok(v) => Some(Ok(v)),
        Err(e) => if e.retryable() && made < budget {
            None
        } else {
            Some(Err(e))
        },
    }
}

/// The result and the number of attempts of a call whose attempts end as
/// `outcomes` say, one after the other, when `made` attempts had failed
/// before. `None` where the outcomes run out before the call is over.
pub open spec fn run<T>(budget: nat, made: nat, outcomes: Seq<Result<T, LLMError>>) -> Option<
    (Result<T, LLMError>, nat),
>
    decreases outcomes.len(),
{
    if outcomes.len() == 0 {
        None
    } else {
        match verdict(budget, made, outcomes[0]) {
            Some(result) => Some((result, made + 1)),
            None => run(budget, made + 1, outcomes.drop_first()),
        }
    }
}

/// The attempts of one call so far. All of them failed in a way that may
/// be retried, and there are no more of them than retries allowed.
#[derive(Debug)]
pub struct RetryState {
    max_retries: u32,
    failed: u32,
}

/// What to do after an attempt.
#[derive(Debug)]
pub enum RetryStep<T> {
    /// Make another attempt, and hand its outcome to this state.
    Retry(RetryState),
    /// The call is over with `result`, after `attempts` attempts.
    Done { result: Result<T, LLMError>, attempts: u64 },
}

impl RetryState {
    #[verifier::type_invariant]
    spec fn within_budget(self) -> bool {
        self.failed <= self.max_retries
    }

    /// The number of retries allowed.
    pub closed spec fn budget(self) -> nat {
        self.max_retries as nat
    }

    /// The number of attempts made so far.
    pub closed spec fn made(self) -> nat {
        self.failed as nat
    }

    /// The state of a call that has made no attempt yet.
    pub fn new(max_retries: u32) -> (state: RetryState)
        ensures
            state.budget() == max_retries,
            state.made() == 0,
    {
        RetryState { max_retries, failed: 0 }
    }

    pub fn max_retries(&self) -> (n: u32)
        ensures
            n == self.budget(),
    {
        self.max_retries
    }

    /// The attempts made so far, which never exceed the retries allowed.
    pub fn attempts_made(&self) -> (n: u32)
        ensures
            n == self.made(),
            n <= self.budget(),
    {
        proof {
            use_type_invariant(self);
        }
        self.failed
    }

    /// Takes the outcome of the attempt just made and says how the call
    /// goes on.
    ///
    /// A success ends the call with its value. A failure ends it with the
    /// error unless the error's kind may be retried and a retry is left;
    /// then the next attempt is due. The number of attempts of a finished
    /// call is never more than one above the retries allowed.
    pub fn step<T>(self, outcome: Result<T, LLMError>) -> (next: RetryStep<T>)
        ensures
            match verdict(self.budget(), self.made(), outcome) {
                Some(result) => next == (RetryStep::Done {
                    result,
                    attempts: (self.made() + 1) as u64,
                }),
                None => next matches RetryStep::Retry(state) && state.budget() == self.budget()
                    && state.made() == self.made() + 1,
            },
            next matches RetryStep::Done { attempts, .. } ==> 1 <= attempts <= self.budget() + 1,
    {
        proof {
            use_type_invariant(&self);
        }
        let attempts: u64 = self.failed as u64 + 1;
        match outcome {
            Ok(value) => RetryStep::Done { result: Ok(value), attempts },
            Err(error) => {
                if error.is_retryable() && self.failed < self.max_retries {
                    RetryStep::Retry(
                        RetryState { max_retries: self.max_retries, failed: self.failed + 1 },
                    )
                } else {
                    RetryStep::Done { result: Err(error), attempts }
                }
            },
        }
    }
}

/// Every outcome before position `n` is a failure that may be retried.
pub open spec fn transient_until<T>(outcomes: Seq<Result<T, LLMError>>, n: int) -> bool {
    forall|i: int| 0 <= i < n ==> (#[trigger] outcomes[i] matches Err(e) && e.retryable())
}

/// A call that ends makes at least one attempt more than had failed
/// before, and never more than one above the retries allowed.
pub proof fn lemma_attempts_bounded<T>(
    budget: nat,
    made: nat,
    outcomes: Seq<Result<T, LLMError>>,
)
    requires
        made <= budget,
    ensures
        run(budget, made, outcomes) matches Some((_, attempts)) ==> made < attempts <= budget + 1
            && attempts <= made + outcomes.len(),
    decreases outcomes.len(),
{
    if outcomes.len() > 0 {
        if verdict(budget, made, outcomes[0]) is None {
            lemma_attempts_bounded(budget, made + 1, outcomes.drop_first());
        }
    }
}

/// A backend whose first `failures` attempts fail in a way that may be
/// retried, and whose next attempt succeeds, is answered with that
/// success after `failures + 1` attempts, provided the retries allowed
/// cover the failures.
pub proof fn lemma_success_after_transient_failures<T>(
    budget: nat,
    made: nat,
    outcomes: Seq<Result<T, LLMError>>,
    failures: nat,
)
    requires
        made + failures <= budget,
        failures < outcomes.len(),
        transient_until(outcomes, failures as int),
        outcomes[failures as int] is Ok,
    ensures
        run(budget, made, outcomes) == Some((outcomes[failures as int], made + failures + 1)),
    decreases failures,
{
    if failures > 0 {
        let rest = outcomes.drop_first();
        assert(outcomes[0] matches Err(e) && e.retryable());
        assert(transient_until(rest, failures - 1)) by {
            assert forall|i: int| 0 <= i < failures - 1 implies (#[trigger] rest[i] matches Err(e)
                && e.retryable()) by {
                assert(rest[i] == outcomes[i + 1]);
            }
        }
        assert(rest[failures - 1] == outcomes[failures as int]);
        lemma_success_after_transient_failures(budget, made + 1, rest, (failures - 1) as nat);
    }
}

/// A failure that may not be retried ends the call at once, with that
/// error and no further attempt.
pub proof fn lemma_permanent_failure_is_final<T>(
    budget: nat,
    made: nat,
    outcomes: Seq<Result<T, LLMError>>,
)
    requires
        outcomes.len() > 0,
        outcomes[0] matches Err(e) && !e.retryable(),
    ensures
        run(budget, made, outcomes) == Some((outcomes[0], made + 1)),
{
}

/// When every attempt fails in a way that may be retried, the call ends
/// after one attempt more than the retries allowed, with the error of the
/// last attempt.
pub proof fn lemma_last_error_surfaces<T>(
    budget: nat,
    made: nat,
    outcomes: Seq<Result<T, LLMError>>,
)
    requires
        made <= budget,
        outcomes.len() > budget - made,
        transient_until(outcomes, budget - made + 1),
    ensures
        run(budget, made, outcomes) == Some((outcomes[budget - made], budget + 1)),
    decreases budget - made,
{
    assert(outcomes[0] matches Err(e) && e.retryable());
    if made < budget {
        let rest = outcomes.drop_first();
        assert(transient_until(rest, budget - made)) by {
            assert forall|i: int| 0 <= i < budget - made implies (#[trigger] rest[i] matches Err(e)
                && e.retryable()) by {
                assert(rest[i] == outcomes[i + 1]);
            }
        }
        assert(rest[budget - made - 1] == outcomes[budget - made]);
        lemma_last_error_surfaces(budget, made + 1, rest);
    }
}

} // verus!

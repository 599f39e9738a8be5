//! The retry policy of the store operations: up to twenty attempts, with a
//! pause of twice the attempt's number, in seconds, after each failure but
//! the last.

use vstd::prelude::*;

verus! {

/// The most attempts that one store operation gets.
pub const MAX_ATTEMPTS: u64 = 20;

/// What to do once an attempt is over.
#[derive(Copy, Clone, PartialEq, Eq, Debug, Structural)]
pub enum RetryStep {
    /// The attempt succeeded: hand its result on.
    Done,
    /// The attempt failed: wait this many seconds, then try again.
    RetryAfter { seconds: u64 },
    /// The attempt failed and was the last: hand its error on.
    GiveUp,
}

/// The attempts made on one store operation so far.
#[derive(Copy, Clone, PartialEq, Eq, Debug)]
pub struct Retry {
    attempt: u64,
}

/// How a run of attempts ends.
pub enum RetryOutcome {
    /// The attempt with this number succeeded, after pauses of this many
    /// seconds in all.
    Succeeded { attempt: nat, paused: nat },
    /// No attempt succeeded and none is left.
    Failed,
    /// Every attempt so far failed, and the next has this number.
    Pending { attempt: nat },
}

/// What the policy says after attempt number `attempt`.
pub open spec fn step_after(attempt: nat, succeeded: bool) -> RetryStep {
    if succeeded {
        RetryStep::Done
    } else if attempt < MAX_ATTEMPTS {
        RetryStep::RetryAfter { seconds: (attempt * 2) as u64 }
    } else {
        RetryStep::GiveUp
    }
}

/// How the policy ends on attempts with the given results, the first of them
/// being attempt number `attempt`, after `paused` seconds of pauses.
pub open spec fn outcome_from(attempt: nat, paused: nat, results: Seq<bool>) -> RetryOutcome
    decreases results.len(),
{
    if results.len() == 0 {
        RetryOutcome::Pending { attempt }
    } else {
        match step_after(attempt, results.first()) {
            RetryStep::Done => RetryOutcome::Succeeded { attempt, paused },
            RetryStep::RetryAfter { seconds } => outcome_from(
                attempt + 1,
                paused + seconds as nat,
                results.drop_first(),
            ),
            RetryStep::GiveUp => RetryOutcome::Failed,
        }
    }
}

/// How the policy ends on an operation whose successive attempts have the
/// given results.
pub open spec fn outcome(results: Seq<bool>) -> RetryOutcome {
    outcome_from(1, 0, results)
}

impl Retry {
    /// The number of the attempt that is being made, counted from 1.
    pub closed spec fn attempt(self) -> nat {
        self.attempt as nat
    }

    /// Attempts are numbered from 1 to 20.
    pub closed spec fn wf(self) -> bool {
        1 <= self.attempt <= MAX_ATTEMPTS
    }

    /// Before the first attempt.
    pub fn new() -> (r: Retry)
        ensures
            r.wf(),
            r.attempt() == 1,
    {
        Retry { attempt: 1 }
    }

    /// The number of the attempt that is being made.
    pub fn current_attempt(&self) -> (n: u64)
        ensures
            n == self.attempt(),
    {
        self.attempt
    }

    /// Takes the result of the current attempt and says how to go on. Only a
    /// pause moves on to the next attempt.
    pub fn next(&mut self, succeeded: bool) -> (step: RetryStep)
        requires
            old(self).wf(),
        ensures
            final(self).wf(),
            step == step_after(old(self).attempt(), succeeded),
            final(self).attempt() == if step is RetryAfter {
                old(self).attempt() + 1
            } else {
                old(self).attempt()
            },
    {
        if succeeded {
            RetryStep::Done
        } else if self.attempt < MAX_ATTEMPTS {
            let seconds = self.attempt * 2;
            self.attempt = self.attempt + 1;
            RetryStep::RetryAfter { seconds }
        } else {
            RetryStep::GiveUp
        }
    }
}

/// An operation that fails `failures` times, fewer than twenty, and then
/// succeeds, succeeds as a whole: on attempt `failures + 1`, after pauses of
/// 2, 4, ... seconds, `failures * (failures + 1)` seconds in all.
pub proof fn law_retry_succeeds(results: Seq<bool>, failures: nat)
    requires
        failures < MAX_ATTEMPTS,
        failures < results.len(),
        forall|i: int| 0 <= i < failures ==> !results[i],
        results[failures as int],
    ensures
        outcome(results) == (RetryOutcome::Succeeded {
            attempt: failures + 1,
            paused: failures * (failures + 1),
        }),
{
    lemma_succeeds_from(1, 0, results, failures);
    assert(failures * (failures + 1) == (failures + 1) * failures) by (nonlinear_arith);
}

proof fn lemma_succeeds_from(attempt: nat, paused: nat, results: Seq<bool>, failures: nat)
    requires
        attempt >= 1,
        attempt + failures <= MAX_ATTEMPTS,
        failures < results.len(),
        forall|i: int| 0 <= i < failures ==> !results[i],
        results[failures as int],
    ensures
        outcome_from(attempt, paused, results) == (RetryOutcome::Succeeded {
            attempt: attempt + failures,
            paused: (paused + failures * (2 * attempt + failures - 1)) as nat,
        }),
    decreases failures,
{
    if failures == 0 {
        assert(results.first());
    } else {
        assert(!results.first());
        let rest = results.drop_first();
        assert forall|i: int| 0 <= i < failures - 1 implies !rest[i] by {
            assert(rest[i] == results[i + 1]);
        }
        lemma_succeeds_from(attempt + 1, paused + attempt * 2, rest, (failures - 1) as nat);
        assert(attempt * 2 + (failures - 1) * (2 * (attempt + 1) + (failures - 1) - 1) == failures
            * (2 * attempt + failures - 1)) by (nonlinear_arith)
            requires
                failures >= 1,
        ;
    }
}

/// An operation whose first twenty attempts all fail is given up: no later
/// result is looked at.
pub proof fn law_retry_gives_up(results: Seq<bool>)
    requires
        results.len() >= MAX_ATTEMPTS,
        forall|i: int| 0 <= i < MAX_ATTEMPTS ==> !results[i],
    ensures
        outcome(results) == RetryOutcome::Failed,
{
    lemma_gives_up_from(1, 0, results);
}

proof fn lemma_gives_up_from(attempt: nat, paused: nat, results: Seq<bool>)
    requires
        1 <= attempt <= MAX_ATTEMPTS,
        results.len() >= MAX_ATTEMPTS - attempt + 1,
        forall|i: int| 0 <= i < MAX_ATTEMPTS - attempt + 1 ==> !results[i],
    ensures
        outcome_from(attempt, paused, results) == RetryOutcome::Failed,
    decreases MAX_ATTEMPTS - attempt,
{
    assert(!results.first());
    if attempt < MAX_ATTEMPTS {
        let rest = results.drop_first();
        assert forall|i: int| 0 <= i < MAX_ATTEMPTS - attempt implies !rest[i] by {
            assert(rest[i] == results[i + 1]);
        }
        lemma_gives_up_from(attempt + 1, paused + attempt * 2, rest);
    }
}

} // verus!

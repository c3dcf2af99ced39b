//! Creating a client: a bounded number of launch attempts with growing
//! pauses between them.
//!
//! The host launches; this module decides. One attempt follows another
//! until one succeeds or `max_retries` have failed. After the failure of the
//! attempt with index `k` (the first attempt has index 0) the host pauses
//! for `5 * 2^k` milliseconds, unless that attempt was the last.

use crate::error::{AttemptFailure, PoolError};
use crate::language::Language;
use crate::pool::LspClientPool;
use vstd::arithmetic::power2::{
    lemma2_to64, lemma_pow2_strictly_increases, lemma_pow2_unfold, pow2,
};
use vstd::prelude::*;

verus! {

/// The pause after the failed attempt with index `attempt`, in
/// milliseconds.
pub open spec fn backoff(attempt: nat) -> nat {
    5 * pow2(attempt)
}

/// A pause as it is handed to the host: itself where it fits in `u64`, else
/// `u64::MAX`.
pub open spec fn capped(millis: nat) -> u64 {
    if millis <= u64::MAX {
        millis as u64
    } else {
        u64::MAX
    }
}

/// Pauses grow from attempt to attempt.
pub proof fn lemma_backoff_increases(earlier: nat, later: nat)
    requires
        earlier < later,
    ensures
        backoff(earlier) < backoff(later),
{
    lemma_pow2_strictly_increases(earlier, later);
}

/// The first pauses are 5, 10 and 20 milliseconds.
pub proof fn lemma_backoff_starts()
    ensures
        backoff(0) == 5,
        backoff(1) == 10,
        backoff(2) == 20,
{
    lemma2_to64();
}

/// The pause after the failed attempt with index `attempt`.
pub fn backoff_millis(attempt: usize) -> (millis: u64)
    ensures
        millis == capped(backoff(attempt as nat)),
{
    let mut millis: u64 = 5;
    let mut done: usize = 0;
    proof {
        lemma2_to64();
    }
    while done < attempt
        invariant
            done <= attempt,
            millis == backoff(done as nat),
        decreases attempt - done,
    {
        if millis > u64::MAX / 2 {
            proof {
                lemma_pow2_unfold((done + 1) as nat);
                if done + 1 < attempt {
                    lemma_backoff_increases((done + 1) as nat, attempt as nat);
                }
            }
            return u64::MAX;
        }
        proof {
            lemma_pow2_unfold((done + 1) as nat);
        }
        millis = millis * 2;
        done += 1;
    }
    millis
}

/// What the host needs for one launch attempt.
#[derive(Clone, Copy, Debug, PartialEq, Eq, Structural)]
pub struct LaunchPlan {
    /// The language whose adapter starts the server.
    pub language: Language,
    /// Longest wait for the initialization handshake, in milliseconds.
    pub init_timeout: u64,
}

/// A creation in progress: an attempt is due, and `failed` attempts have
/// failed before it.
#[derive(Clone, Copy, Debug, PartialEq, Eq, Structural)]
pub struct CreationAttempts {
    /// What every attempt is made with.
    pub plan: LaunchPlan,
    /// Number of attempts before the creation is given up.
    pub max_retries: usize,
    /// Number of attempts that have failed.
    pub failed: usize,
}

/// What follows a failed attempt.
#[derive(Clone, Debug, PartialEq, Eq)]
pub enum RetryDecision {
    /// Pause for `backoff_millis`, then make the next attempt.
    RetryAfter { backoff_millis: u64, next: CreationAttempts },
    /// No attempt is left: the creation failed with this error.
    GiveUp(PoolError),
}

impl CreationAttempts {
    /// An attempt is due: fewer attempts have failed than are allowed.
    pub open spec fn wf(&self) -> bool {
        self.failed < self.max_retries
    }

    /// The creation after one more failed attempt; meaningful while another
    /// attempt is left.
    pub open spec fn after_failure(self) -> CreationAttempts {
        CreationAttempts { failed: (self.failed + 1) as usize, ..self }
    }

    /// Whether the attempt that is due is the last one.
    pub open spec fn on_last_attempt(self) -> bool {
        self.failed + 1 >= self.max_retries
    }

    /// What follows when the attempt that is due fails with `failure`: on
    /// the last attempt the creation is given up with the failure; before
    /// that the next attempt follows after the pause of the attempt that
    /// failed.
    pub open spec fn decision_on(self, failure: AttemptFailure) -> RetryDecision {
        if self.on_last_attempt() {
            RetryDecision::GiveUp(PoolError::ClientCreationFailed(Some(failure)))
        } else {
            RetryDecision::RetryAfter {
                backoff_millis: capped(backoff(self.failed as nat)),
                next: self.after_failure(),
            }
        }
    }

    /// Records that the attempt that was due failed with `failure`, and
    /// says what follows.
    pub fn attempt_failed(self, failure: AttemptFailure) -> (decision: RetryDecision)
        ensures
            decision == self.decision_on(failure),
            decision is RetryAfter ==> self.after_failure().wf(),
    {
        if self.max_retries == 0 || self.failed >= self.max_retries - 1 {
            RetryDecision::GiveUp(PoolError::ClientCreationFailed(Some(failure)))
        } else {
            RetryDecision::RetryAfter {
                backoff_millis: backoff_millis(self.failed),
                next: CreationAttempts {
                    plan: self.plan,
                    max_retries: self.max_retries,
                    failed: self.failed + 1,
                },
            }
        }
    }
}

impl LspClientPool {
    /// Resolves the adapter of `language_id` and fixes what one launch
    /// attempt is made with.
    pub fn create_client_internal(&self, language_id: &str) -> (plan: Result<LaunchPlan, PoolError>)
        ensures
            match Language::with_id(language_id@) {
                Some(language) => plan == Ok::<LaunchPlan, PoolError>(
                    LaunchPlan { language, init_timeout: self@.config.init_timeout },
                ),
                None => plan == Err::<LaunchPlan, PoolError>(PoolError::UnsupportedLanguage),
            },
    {
        match Language::from_language_id(language_id) {
            Some(language) => Ok(LaunchPlan { language, init_timeout: self.config().init_timeout }),
            None => Err(PoolError::UnsupportedLanguage),
        }
    }

    /// Begins the creation of a client for `language_id`.
    ///
    /// An unsupported language is reported at once. With `max_retries` of
    /// zero no attempt is made and the creation fails without a failure to
    /// report. Otherwise the first attempt is due.
    pub fn create_client_with_retry(&self, language_id: &str) -> (creation: Result<CreationAttempts, PoolError>)
        ensures
            match Language::with_id(language_id@) {
                Some(language) => if self@.config.max_retries == 0 {
                    creation == Err::<CreationAttempts, PoolError>(
                        PoolError::ClientCreationFailed(None),
                    )
                } else {
                    creation == Ok::<CreationAttempts, PoolError>(
                        CreationAttempts {
                            plan: LaunchPlan { language, init_timeout: self@.config.init_timeout },
                            max_retries: self@.config.max_retries,
                            failed: 0,
                        },
                    )
                },
                None => creation == Err::<CreationAttempts, PoolError>(
                    PoolError::UnsupportedLanguage,
                ),
            },
            creation matches Ok(attempts) ==> attempts.wf(),
    {
        let plan = match self.create_client_internal(language_id) {
            Ok(plan) => plan,
            Err(error) => {
                return Err(error);
            },
        };
        let max_retries = self.config().max_retries;
        if max_retries == 0 {
            return Err(PoolError::ClientCreationFailed(None));
        }
        Ok(CreationAttempts { plan, max_retries, failed: 0 })
    }
}

/// A creation in which every attempt fails makes exactly `max_retries`
/// attempts: the failure of the attempt with index `failures` is followed
/// by a pause of `5 * 2^failures` milliseconds and another attempt, unless
/// it is the attempt with index `max_retries - 1`, whose failure ends the
/// creation. Each pause is longer than the one before.
pub proof fn lemma_failing_creation(start: CreationAttempts, failures: nat, failure: AttemptFailure)
    requires
        start.failed == 0,
        failures < start.max_retries,
    ensures
        failing(start, failures).wf(),
        failing(start, failures).failed == failures,
        failing(start, failures).max_retries == start.max_retries,
        failing(start, failures).decision_on(failure) == if failures + 1 == start.max_retries {
            RetryDecision::GiveUp(PoolError::ClientCreationFailed(Some(failure)))
        } else {
            RetryDecision::RetryAfter {
                backoff_millis: capped(backoff(failures)),
                next: failing(start, failures + 1),
            }
        },
        failures > 0 ==> backoff((failures - 1) as nat) < backoff(failures),
    decreases failures,
{
    if failures > 0 {
        lemma_failing_creation(start, (failures - 1) as nat, failure);
        lemma_backoff_increases((failures - 1) as nat, failures);
    }
    assert(failing(start, failures + 1) == failing(start, failures).after_failure());
}

/// The creation after `failures` failed attempts in a row.
pub open spec fn failing(start: CreationAttempts, failures: nat) -> CreationAttempts
    decreases failures,
{
    if failures == 0 {
        start
    } else {
        failing(start, (failures - 1) as nat).after_failure()
    }
}

} // verus!

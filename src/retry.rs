//! Running a unit of work in an exclusive transaction, again and again while
//! the store reports it locked, up to a bounded number of attempts with a
//! randomized exponential backoff between them.
use vstd::prelude::*;

verus! {

/// How one attempt of a transaction ended without success.
#[derive(Debug)]
pub enum TxError<E> {
    /// The store was locked by another writer; the attempt may be repeated.
    Locked,
    /// Any other failure; it is not retried.
    Failed(E),
}

/// Why a retried transaction gave up.
#[derive(Debug)]
pub enum RetryError<E> {
    /// Every attempt found the store locked.
    Contention,
    /// An attempt failed for another reason.
    Failed(E),
}

/// How often, and how long apart, a locked transaction is tried again.
#[derive(Clone, Copy, Debug, PartialEq, Eq, Structural)]
pub struct RetryPolicy {
    /// Attempts in all; zero counts as one.
    pub max_attempts: u32,
    /// The backoff window after the first attempt, in milliseconds.
    pub base_delay_ms: u64,
    /// The largest backoff window, in milliseconds.
    pub max_delay_ms: u64,
}

/// The backoff window after attempt `n` (from zero): `base * 2^n`, capped.
pub open spec fn backoff_window(base: nat, cap: nat, n: nat) -> nat
    decreases n,
{
    if n == 0 {
        if base < cap {
            base
        } else {
            cap
        }
    } else {
        let d = 2 * backoff_window(base, cap, (n - 1) as nat);
        if d < cap {
            d
        } else {
            cap
        }
    }
}

/// The pause after attempt `n`: at least half the window, at most all of it,
/// the rest chosen by `jitter`.
pub open spec fn pause_for(base: nat, cap: nat, n: nat, jitter: nat) -> nat {
    let w = backoff_window(base, cap, n);
    w / 2 + jitter % ((w - w / 2) as nat + 1)
}

proof fn lemma_window_le_cap(base: nat, cap: nat, n: nat)
    ensures
        backoff_window(base, cap, n) <= cap,
    decreases n,
{
    if n > 0 {
        lemma_window_le_cap(base, cap, (n - 1) as nat);
    }
}

proof fn lemma_window_stays_at_cap(base: nat, cap: nat, n: nat, m: nat)
    requires
        n <= m,
        backoff_window(base, cap, n) == cap,
    ensures
        backoff_window(base, cap, m) == cap,
    decreases m - n,
{
    if n < m {
        lemma_window_stays_at_cap(base, cap, n, (m - 1) as nat);
    }
}

impl RetryPolicy {
    /// The number of attempts this policy allows.
    pub open spec fn attempts(&self) -> nat {
        if self.max_attempts == 0 {
            1
        } else {
            self.max_attempts as nat
        }
    }

    /// The backoff window after attempt `attempt` (from zero).
    pub fn backoff(&self, attempt: u32) -> (r: u64)
        ensures
            r == backoff_window(self.base_delay_ms as nat, self.max_delay_ms as nat, attempt as nat),
    {
        let cap = self.max_delay_ms;
        let mut d: u64 = if self.base_delay_ms < cap {
            self.base_delay_ms
        } else {
            cap
        };
        let mut k: u32 = 0;
        while k < attempt
            invariant
                k <= attempt,
                cap == self.max_delay_ms,
                d == backoff_window(self.base_delay_ms as nat, cap as nat, k as nat),
            decreases attempt - k,
        {
            proof {
                lemma_window_le_cap(self.base_delay_ms as nat, cap as nat, k as nat);
            }
            if d == cap {
                proof {
                    lemma_window_stays_at_cap(
                        self.base_delay_ms as nat,
                        cap as nat,
                        k as nat,
                        attempt as nat,
                    );
                }
                return d;
            }
            d = if d > cap - d {
                cap
            } else {
                d + d
            };
            k = k + 1;
        }
        d
    }

    /// The pause after attempt `attempt`, with `jitter` drawn at random by
    /// the caller.
    pub fn pause(&self, attempt: u32, jitter: u64) -> (r: u64)
        ensures
            r == pause_for(
                self.base_delay_ms as nat,
                self.max_delay_ms as nat,
                attempt as nat,
                jitter as nat,
            ),
            r <= self.max_delay_ms,
    {
        let w = self.backoff(attempt);
        proof {
            lemma_window_le_cap(self.base_delay_ms as nat, self.max_delay_ms as nat, attempt as nat);
        }
        let half = w / 2;
        let spread = w - half;
        if spread == u64::MAX {
            half + jitter
        } else {
            half + jitter % (spread + 1)
        }
    }
}

/// Attempts `0..n` of `work` all found the store locked.
pub open spec fn locked_through<A, E, F: Fn(u32) -> Result<A, TxError<E>>>(work: F, n: nat) -> bool {
    forall|j: u32| j < n ==> #[trigger] work.ensures((j,), Err::<A, TxError<E>>(TxError::Locked))
}

/// After attempt `j`, `wait` was given the pause that `policy` sets for that
/// attempt, drawn with what `jitter` returned for it.
pub open spec fn paused_at<W: Fn(u32, u64), J: Fn(u32) -> u64>(
    policy: RetryPolicy,
    wait: W,
    jitter: J,
    j: u32,
) -> bool {
    exists|x: u64|
        #[trigger] jitter.ensures((j,), x) && wait.ensures(
            (
                j,
                pause_for(
                    policy.base_delay_ms as nat,
                    policy.max_delay_ms as nat,
                    j as nat,
                    x as nat,
                ) as u64,
            ),
            (),
        )
}

/// A pause followed each of attempts `0..n`.
pub open spec fn paused_through<W: Fn(u32, u64), J: Fn(u32) -> u64>(
    policy: RetryPolicy,
    wait: W,
    jitter: J,
    n: nat,
) -> bool {
    forall|j: u32| j < n ==> #[trigger] paused_at(policy, wait, jitter, j)
}

/// Some attempt `i` within the policy's cap ended with `res`, after attempts
/// `0..i` had all found the store locked and each been followed by its pause.
pub open spec fn ended_with<A, E, F, W, J>(
    policy: RetryPolicy,
    work: F,
    wait: W,
    jitter: J,
    res: Result<A, TxError<E>>,
) -> bool where F: Fn(u32) -> Result<A, TxError<E>>, W: Fn(u32, u64), J: Fn(u32) -> u64 {
    exists|i: u32|
        i < policy.attempts() && #[trigger] work.ensures((i,), res) && locked_through(
            work,
            i as nat,
        ) && paused_through(policy, wait, jitter, i as nat)
}

/// Runs `work` until it succeeds, fails for a reason other than a lock, or
/// has found the store locked on every attempt that `policy` allows. Each
/// call gets the number of the attempt, from zero. Between two attempts it
/// draws `jitter` and hands `wait` the pause to take.
pub fn transaction_retry<A, E, F, W, J>(policy: &RetryPolicy, work: F, wait: W, jitter: J) -> (r:
    Result<A, RetryError<E>>)
    where
        F: Fn(u32) -> Result<A, TxError<E>>,
        W: Fn(u32, u64),
        J: Fn(u32) -> u64,
    requires
        forall|i: u32| work.requires((i,)),
        forall|i: u32, d: u64| wait.requires((i, d)),
        forall|i: u32| jitter.requires((i,)),
    ensures
        r matches Ok(a) ==> ended_with(*policy, work, wait, jitter, Ok::<A, TxError<E>>(a)),
        r matches Err(RetryError::Failed(e)) ==> ended_with(
            *policy,
            work,
            wait,
            jitter,
            Err::<A, TxError<E>>(TxError::Failed(e)),
        ),
        r matches Err(RetryError::Contention) ==> locked_through(work, policy.attempts())
            && paused_through(*policy, wait, jitter, (policy.attempts() - 1) as nat),
{
    let limit: u32 = if policy.max_attempts == 0 {
        1
    } else {
        policy.max_attempts
    };
    let mut attempt: u32 = 0;
    loop
        invariant
            attempt < limit,
            limit as nat == policy.attempts(),
            forall|i: u32| work.requires((i,)),
            forall|i: u32, d: u64| wait.requires((i, d)),
            forall|i: u32| jitter.requires((i,)),
            locked_through(work, attempt as nat),
            paused_through(*policy, wait, jitter, attempt as nat),
        decreases limit - attempt,
    {
        let res = work(attempt);
        let ghost got = res;
        match res {
            Ok(a) => {
                assert(got == Ok::<A, TxError<E>>(a));
                assert(work.ensures((attempt,), Ok::<A, TxError<E>>(a)));
                assert(ended_with(*policy, work, wait, jitter, Ok::<A, TxError<E>>(a)));
                return Ok(a);
            },
            Err(TxError::Failed(e)) => {
                assert(got == Err::<A, TxError<E>>(TxError::Failed(e)));
                assert(work.ensures((attempt,), Err::<A, TxError<E>>(TxError::Failed(e))));
                assert(attempt < policy.attempts() && locked_through(work, attempt as nat)
                    && paused_through(*policy, wait, jitter, attempt as nat));
                assert(ended_with(*policy, work, wait, jitter, Err::<A, TxError<E>>(TxError::Failed(e))));
                return Err(RetryError::Failed(e));
            },
            Err(TxError::Locked) => {
                assert(work.ensures((attempt,), got));
                if attempt + 1 >= limit {
                    assert(locked_through(work, (attempt + 1) as nat)) by {
                        assert forall|j: u32| j < attempt + 1 implies #[trigger] work.ensures(
                            (j,),
                            Err::<A, TxError<E>>(TxError::Locked),
                        ) by {
                            if j < attempt {
                                assert(locked_through(work, attempt as nat));
                            }
                        }
                    }
                    return Err(RetryError::Contention);
                }
                let x = jitter(attempt);
                let d = policy.pause(attempt, x);
                wait(attempt, d);
                assert(locked_through(work, (attempt + 1) as nat)) by {
                    assert forall|j: u32| j < attempt + 1 implies #[trigger] work.ensures(
                        (j,),
                        Err::<A, TxError<E>>(TxError::Locked),
                    ) by {
                        if j < attempt {
                            assert(locked_through(work, attempt as nat));
                        }
                    }
                }
                assert(paused_at(*policy, wait, jitter, attempt)) by {
                    assert(jitter.ensures((attempt,), x));
                }
                assert(paused_through(*policy, wait, jitter, (attempt + 1) as nat)) by {
                    assert forall|j: u32| j < attempt + 1 implies #[trigger] paused_at(
                        *policy,
                        wait,
                        jitter,
                        j,
                    ) by {
                        if j < attempt {
                            assert(paused_through(*policy, wait, jitter, attempt as nat));
                        }
                    }
                }
                attempt = attempt + 1;
            },
        }
    }
}

} // verus!

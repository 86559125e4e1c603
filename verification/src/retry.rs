//! The retry policy: how often a failed document is tried again, and how
//! long the job waits before each new attempt.

use vstd::prelude::*;

verus! {

/// The delay before the retry that follows the failed attempt number
/// `failures + 1`: it starts at `base` and doubles with every failure.
pub open spec fn backoff(base: nat, failures: nat) -> nat
    decreases failures,
{
    if failures == 0 {
        base
    } else {
        2 * backoff(base, (failures - 1) as nat)
    }
}

/// Delays never shrink from one failure to the next.
pub proof fn lemma_backoff_grows(base: nat, earlier: nat, later: nat)
    requires
        earlier <= later,
    ensures
        backoff(base, earlier) <= backoff(base, later),
    decreases later,
{
    if earlier < later {
        lemma_backoff_grows(base, earlier, (later - 1) as nat);
    }
}

/// The delays start at the base delay, and each is twice the one before it.
pub proof fn law_backoff_doubles(base: nat, failures: nat)
    ensures
        backoff(base, 0) == base,
        backoff(base, failures + 1) == 2 * backoff(base, failures),
{
}

/// With a base delay of zero every delay is zero.
proof fn lemma_backoff_zero(failures: nat)
    ensures
        backoff(0, failures) == 0,
    decreases failures,
{
    if failures > 0 {
        lemma_backoff_zero((failures - 1) as nat);
    }
}

/// The mathematical value of a [`RetryPolicy`].
pub struct PolicyView {
    /// How many attempts may follow the first one.
    pub max_retries: nat,
    /// The delay before the first retry, in seconds.
    pub base_delay: nat,
}

/// How often a document is tried again and how long to wait in between.
/// Every delay that the policy can ask for fits in a `u64`.
#[derive(Clone, Copy, Debug, PartialEq, Eq)]
pub struct RetryPolicy {
    max_retries: u32,
    base_delay: u64,
}

impl View for RetryPolicy {
    type V = PolicyView;

    closed spec fn view(&self) -> PolicyView {
        PolicyView { max_retries: self.max_retries as nat, base_delay: self.base_delay as nat }
    }
}

impl RetryPolicy {
    #[verifier::type_invariant]
    spec fn fits(self) -> bool {
        backoff(self.base_delay as nat, self.max_retries as nat) <= u64::MAX
    }

    /// The policy with the given number of retries and first delay, in
    /// seconds. `None` where the last delay would not fit in a `u64`.
    pub fn new(max_retries: u32, base_delay: u64) -> (r: Option<RetryPolicy>)
        ensures
            match r {
                Some(policy) => {
                    &&& policy@ == (PolicyView {
                        max_retries: max_retries as nat,
                        base_delay: base_delay as nat,
                    })
                    &&& backoff(base_delay as nat, max_retries as nat) <= u64::MAX
                },
                None => backoff(base_delay as nat, max_retries as nat) > u64::MAX,
            },
    {
        if base_delay == 0 {
            proof {
                lemma_backoff_zero(max_retries as nat);
            }
            return Some(RetryPolicy { max_retries, base_delay });
        }
        let mut delay = base_delay;
        let mut doubled: u32 = 0;
        while doubled < max_retries
            invariant
                doubled <= max_retries,
                delay == backoff(base_delay as nat, doubled as nat),
            decreases max_retries - doubled,
        {
            if delay > u64::MAX / 2 {
                proof {
                    lemma_backoff_grows(
                        base_delay as nat,
                        (doubled + 1) as nat,
                        max_retries as nat,
                    );
                }
                return None;
            }
            delay = delay * 2;
            doubled = doubled + 1;
        }
        Some(RetryPolicy { max_retries, base_delay })
    }

    /// The usual policy: five retries, the first after one second.
    pub fn standard() -> (policy: RetryPolicy)
        ensures
            policy@ == (PolicyView { max_retries: 5, base_delay: 1 }),
    {
        proof {
            reveal_with_fuel(backoff, 6);
        }
        RetryPolicy { max_retries: 5, base_delay: 1 }
    }

    /// How many attempts may follow the first one.
    pub fn max_retries(&self) -> (n: u32)
        ensures
            n == self@.max_retries,
    {
        self.max_retries
    }

    /// The delay before the first retry, in seconds.
    pub fn base_delay(&self) -> (seconds: u64)
        ensures
            seconds == self@.base_delay,
    {
        self.base_delay
    }

    /// Doubles a delay of this policy, for the retry after the next failure.
    pub(crate) fn next_delay(&self, delay: u64, failures: u32) -> (doubled: u64)
        requires
            failures < self@.max_retries,
            delay == backoff(self@.base_delay, failures as nat),
        ensures
            doubled == backoff(self@.base_delay, (failures + 1) as nat),
    {
        proof {
            use_type_invariant(self);
            lemma_backoff_grows(
                self.base_delay as nat,
                (failures + 1) as nat,
                self.max_retries as nat,
            );
        }
        delay * 2
    }
}

} // verus!

use vstd::prelude::*;

verus! {

/// Delay after which a reconnect is first attempted, in seconds.
pub const MIN_DELAY_SECS: u64 = 1;

/// Ceiling of the reconnect delay, in seconds.
pub const MAX_DELAY_SECS: u64 = 60;

/// The delay that follows `d` after one more failed poll.
pub open spec fn next_delay(d: nat) -> nat {
    if 2 * d < MAX_DELAY_SECS {
        2 * d
    } else {
        MAX_DELAY_SECS as nat
    }
}

/// The delay held after `n` consecutive failed polls from a reset state.
pub open spec fn delay_after(n: nat) -> nat
    decreases n,
{
    if n == 0 {
        MIN_DELAY_SECS as nat
    } else {
        next_delay(delay_after((n - 1) as nat))
    }
}

/// Exponential reconnect backoff: the delay doubles on each failure, is capped
/// at `MAX_DELAY_SECS`, and drops back to `MIN_DELAY_SECS` on success.
pub struct Backoff {
    delay: u64,
}

impl Backoff {
    pub closed spec fn delay_spec(&self) -> nat {
        self.delay as nat
    }

    pub closed spec fn wf(&self) -> bool {
        MIN_DELAY_SECS <= self.delay <= MAX_DELAY_SECS
    }

    pub fn new() -> (r: Backoff)
        ensures
            r.wf(),
            r.delay_spec() == MIN_DELAY_SECS,
    {
        Backoff { delay: MIN_DELAY_SECS }
    }

    /// The delay to wait before the next reconnect attempt, in seconds.
    pub fn delay(&self) -> (r: u64)
        ensures
            r == self.delay_spec(),
    {
        self.delay
    }

    /// A poll succeeded: the delay returns to its floor.
    pub fn on_success(&mut self)
        ensures
            final(self).wf(),
            final(self).delay_spec() == MIN_DELAY_SECS,
    {
        self.delay = MIN_DELAY_SECS;
    }

    /// A poll failed: returns the delay to sleep now, and doubles the stored
    /// delay up to the ceiling.
    pub fn on_failure(&mut self) -> (sleep: u64)
        requires
            old(self).wf(),
        ensures
            final(self).wf(),
            MIN_DELAY_SECS <= sleep <= MAX_DELAY_SECS,
            sleep == old(self).delay_spec(),
            MIN_DELAY_SECS <= final(self).delay_spec() <= MAX_DELAY_SECS,
            final(self).delay_spec() == next_delay(old(self).delay_spec()),
    {
        let sleep = self.delay;
        if self.delay < MAX_DELAY_SECS / 2 {
            self.delay = self.delay * 2;
        } else {
            self.delay = MAX_DELAY_SECS;
        }
        sleep
    }
}

/// Repeated failures from a reset state give the delays 1, 2, 4, 8, 16, 32 and
/// then 60 for every further failure.
pub proof fn lemma_delay_sequence(n: nat)
    ensures
        n < 6 ==> delay_after(n) == vstd::arithmetic::power2::pow2(n),
        n >= 6 ==> delay_after(n) == MAX_DELAY_SECS,
    decreases n,
{
    vstd::arithmetic::power2::lemma2_to64();
    if n > 0 {
        lemma_delay_sequence((n - 1) as nat);
        if n < 6 {
            vstd::arithmetic::power2::lemma_pow2_unfold(n);
        }
    }
}

/// A run of failed polls after a reset: when `delays[i]` is the delay held
/// before the failure numbered `i` (from zero), the run starts at the floor and
/// each failure sets the next delay, the sleeps are 1, 2, 4, 8, 16, 32 and
/// then 60 for every further failure.
pub proof fn lemma_failure_run(delays: Seq<nat>)
    requires
        delays.len() > 0,
        delays[0] == MIN_DELAY_SECS,
        forall|i: int| 0 <= i < delays.len() - 1 ==> #[trigger] delays[i + 1] == next_delay(delays[i]),
    ensures
        forall|i: int| 0 <= i < delays.len() ==> #[trigger] delays[i] == delay_after(i as nat),
        forall|i: int| 0 <= i < delays.len() && i < 6 ==> #[trigger] delays[i]
            == vstd::arithmetic::power2::pow2(i as nat),
        forall|i: int| 6 <= i < delays.len() ==> #[trigger] delays[i] == MAX_DELAY_SECS,
{
    assert forall|i: int| 0 <= i < delays.len() implies #[trigger] delays[i] == delay_after(i as nat) by {
        lemma_run_prefix(delays, i);
    }
    assert forall|i: int| 0 <= i < delays.len() implies (i < 6 ==> #[trigger] delays[i]
        == vstd::arithmetic::power2::pow2(i as nat)) && (i >= 6 ==> delays[i] == MAX_DELAY_SECS) by {
        lemma_run_prefix(delays, i);
        lemma_delay_sequence(i as nat);
    }
}

proof fn lemma_run_prefix(delays: Seq<nat>, i: int)
    requires
        0 <= i < delays.len(),
        delays[0] == MIN_DELAY_SECS,
        forall|j: int| 0 <= j < delays.len() - 1 ==> #[trigger] delays[j + 1] == next_delay(delays[j]),
    ensures
        delays[i] == delay_after(i as nat),
    decreases i,
{
    if i > 0 {
        lemma_run_prefix(delays, i - 1);
        assert(delays[(i - 1) + 1] == next_delay(delays[i - 1]));
    }
}

} // verus!

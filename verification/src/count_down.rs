//! The decisions of a count-down clock: a countdown that fires once when its wait has
//! elapsed, can be restarted while it runs, and can be cancelled for good. The runtime
//! sleeps, and reports back to the clock when a wait has elapsed.
use rand::Rng;
use vstd::prelude::*;

verus! {

/// The shortest wait, in milliseconds, that a random countdown draws.
pub const MIN_RANDOM_WAIT_MS: u64 = 30;

/// Draws a wait in `[low, high]` milliseconds through
/// `rand::thread_rng().gen_range(low..=high)`.
///
/// rand documents that the value lies in the range, and that an empty range panics, which
/// `requires` rules out. Which value comes out is random.
#[verifier::external_body]
fn random_wait_ms(low: u64, high: u64) -> (r: u64)
    requires
        low <= high,
    ensures
        low <= r <= high,
{
    rand::thread_rng().gen_range(low..=high)
}

/// How a running countdown picks its wait.
#[derive(Clone, Copy, PartialEq, Eq, Structural, Debug)]
pub enum CountDownMode {
    /// A fresh random wait between `MIN_RANDOM_WAIT_MS` and this many milliseconds.
    Random(u64),
    /// Exactly this many milliseconds.
    Fixed(u64),
}

/// A wait in milliseconds that `mode` may pick.
pub open spec fn wait_fits(mode: CountDownMode, wait: u64) -> bool {
    match mode {
        CountDownMode::Random(max_ms) => MIN_RANDOM_WAIT_MS <= wait <= max_ms,
        CountDownMode::Fixed(ms) => wait == ms,
    }
}

/// A count-down clock. At most one countdown runs at a time; a start while one runs
/// changes nothing. Once cancelled, the clock never runs again.
pub struct CountDownClock {
    /// The wait policy of the running countdown; `None` while none runs.
    running: Option<CountDownMode>,
    cancelled: bool,
}

/// The abstract state of a count-down clock.
pub struct CountDownView {
    pub running: Option<CountDownMode>,
    pub cancelled: bool,
}

impl View for CountDownClock {
    type V = CountDownView;

    closed spec fn view(&self) -> CountDownView {
        CountDownView { running: self.running, cancelled: self.cancelled }
    }
}

impl CountDownClock {
    /// A random countdown draws from a range that is not empty, and a cancelled clock
    /// runs nothing.
    #[verifier::type_invariant]
    spec fn inv(&self) -> bool {
        &&& self.running matches Some(CountDownMode::Random(max_ms)) ==> max_ms > MIN_RANDOM_WAIT_MS
        &&& self.cancelled ==> self.running is None
    }

    /// A clock with no countdown running.
    pub fn new() -> (r: Self)
        ensures
            r@ == (CountDownView { running: None, cancelled: false }),
    {
        CountDownClock { running: None, cancelled: false }
    }

    /// True while a countdown runs.
    pub fn is_running(&self) -> (r: bool)
        ensures
            r == self@.running is Some,
    {
        self.running.is_some()
    }

    /// Starts a countdown of `mode`, whose first wait is `wait`; no-op if one runs or the
    /// clock was cancelled. Returns the wait to sleep, if a countdown started.
    fn start_with(&mut self, mode: CountDownMode, wait: u64) -> (r: Option<u64>)
        requires
            wait_fits(mode, wait),
            mode matches CountDownMode::Random(max_ms) ==> max_ms > MIN_RANDOM_WAIT_MS,
        ensures
            if old(self)@.running is Some || old(self)@.cancelled {
                r is None && final(self)@ == old(self)@
            } else {
                r == Some(wait) && final(self)@ == (CountDownView { running: Some(mode), ..old(self)@ })
            },
    {
        if self.running.is_some() || self.cancelled {
            return None;
        }
        self.running = Some(mode);
        Some(wait)
    }

    /// Starts a countdown that waits a random time between `MIN_RANDOM_WAIT_MS` and
    /// `max_ms` milliseconds, drawn anew at each restart. No-op if a countdown runs or the
    /// clock was cancelled. Returns the first wait to sleep, if a countdown started.
    pub fn start_random(&mut self, max_ms: u64) -> (r: Option<u64>)
        requires
            max_ms > MIN_RANDOM_WAIT_MS,
        ensures
            if old(self)@.running is Some || old(self)@.cancelled {
                r is None && final(self)@ == old(self)@
            } else {
                &&& r matches Some(wait) && wait_fits(CountDownMode::Random(max_ms), wait)
                &&& final(self)@ == (CountDownView { running: Some(CountDownMode::Random(max_ms)), ..old(self)@ })
            },
    {
        if self.running.is_some() || self.cancelled {
            return None;
        }
        let wait = random_wait_ms(MIN_RANDOM_WAIT_MS, max_ms);
        self.start_with(CountDownMode::Random(max_ms), wait)
    }

    /// Starts a countdown that waits exactly `ms` milliseconds. No-op if a countdown runs
    /// or the clock was cancelled. Returns the wait to sleep, if a countdown started.
    pub fn start_fixed(&mut self, ms: u64) -> (r: Option<u64>)
        ensures
            if old(self)@.running is Some || old(self)@.cancelled {
                r is None && final(self)@ == old(self)@
            } else {
                r == Some(ms) && final(self)@ == (CountDownView { running: Some(CountDownMode::Fixed(ms)), ..old(self)@ })
            },
    {
        self.start_with(CountDownMode::Fixed(ms), ms)
    }

    /// Restarts the running countdown: returns the new wait to sleep, drawn as the
    /// countdown's mode says. With no countdown running there is nothing to restart.
    pub fn reset(&self) -> (r: Option<u64>)
        ensures
            match self@.running {
                Some(mode) => r matches Some(wait) && wait_fits(mode, wait),
                None => r is None,
            },
    {
        proof {
            use_type_invariant(self);
        }
        match self.running {
            Some(CountDownMode::Random(max_ms)) => Some(random_wait_ms(MIN_RANDOM_WAIT_MS, max_ms)),
            Some(CountDownMode::Fixed(ms)) => Some(ms),
            None => None,
        }
    }

    /// Stops the running countdown for good: the clock never runs again.
    pub fn cancel(&mut self)
        ensures
            final(self)@ == (CountDownView { running: None, cancelled: true }),
    {
        self.running = None;
        self.cancelled = true;
    }

    /// The wait of the running countdown has elapsed: the countdown ends, and the result
    /// says whether the expiry callback fires (it does exactly when a countdown ran).
    pub fn expire(&mut self) -> (fire: bool)
        ensures
            fire == old(self)@.running is Some,
            final(self)@ == (CountDownView { running: None, ..old(self)@ }),
    {
        let fire = self.running.is_some();
        self.running = None;
        fire
    }
}

} // verus!

//! The decisions of a device's life: how often initial registration is
//! tried, how a keepalive round retries, and when to register again.
use vstd::prelude::*;

verus! {

/// Initial REGISTER attempts before the device gives up.
pub const INITIAL_REGISTER_ATTEMPTS: u32 = 5;

/// Keepalive attempts in one round.
pub const HEARTBEAT_ATTEMPTS: u32 = 3;

/// What follows an initial REGISTER attempt.
#[derive(Debug, Clone, Copy, PartialEq, Eq)]
pub enum StartupStep {
    /// Wait five seconds and try again.
    Retry,
    /// Registered: start the main loop.
    Registered,
    /// Every attempt failed: the device stops.
    GiveUp,
}

/// What follows attempt number `attempt` (counting from 0) of the initial
/// registration, given whether it succeeded.
pub open spec fn startup_step_spec(attempt: u32, ok: bool) -> StartupStep {
    if ok {
        StartupStep::Registered
    } else if attempt + 1 < INITIAL_REGISTER_ATTEMPTS {
        StartupStep::Retry
    } else {
        StartupStep::GiveUp
    }
}

/// What follows attempt number `attempt` (counting from 0) of the initial
/// registration, given whether it succeeded.
pub fn initial_register_step(attempt: u32, ok: bool) -> (r: StartupStep)
    requires
        attempt < INITIAL_REGISTER_ATTEMPTS,
    ensures
        r == startup_step_spec(attempt, ok),
{
    if ok {
        StartupStep::Registered
    } else if attempt + 1 < INITIAL_REGISTER_ATTEMPTS {
        StartupStep::Retry
    } else {
        StartupStep::GiveUp
    }
}

/// What follows one keepalive attempt of a round.
#[derive(Debug, Clone, Copy, PartialEq, Eq)]
pub enum HeartbeatNext {
    /// Wait a second and send the keepalive again.
    PauseThenRetry,
    /// The round is over; whether a keepalive got through.
    Finished(bool),
}

/// The attempts left and what follows, after an attempt with `retries_left`
/// attempts allowed.
pub open spec fn heartbeat_step(retries_left: u32, ok: bool) -> (u32, HeartbeatNext) {
    if ok {
        (retries_left, HeartbeatNext::Finished(true))
    } else if retries_left > 1 {
        ((retries_left - 1) as u32, HeartbeatNext::PauseThenRetry)
    } else {
        ((retries_left - 1) as u32, HeartbeatNext::Finished(false))
    }
}

/// One round of keepalive attempts.
pub struct HeartbeatRound {
    /// Attempts still allowed.
    pub retries_left: u32,
}

impl HeartbeatRound {
    /// A round that may try three times.
    pub fn new() -> (r: HeartbeatRound)
        ensures
            r.retries_left == HEARTBEAT_ATTEMPTS,
    {
        HeartbeatRound { retries_left: HEARTBEAT_ATTEMPTS }
    }

    /// Records the outcome of an attempt: success ends the round; a failure
    /// uses up one attempt and retries while any is left.
    pub fn record(&mut self, ok: bool) -> (r: HeartbeatNext)
        requires
            old(self).retries_left > 0,
        ensures
            (final(self).retries_left, r) == heartbeat_step(old(self).retries_left, ok),
    {
        if ok {
            return HeartbeatNext::Finished(true);
        }
        self.retries_left = self.retries_left - 1;
        if self.retries_left > 0 {
            HeartbeatNext::PauseThenRetry
        } else {
            HeartbeatNext::Finished(false)
        }
    }
}

/// The registration lifetime the timing counts with: at least 60 seconds.
pub open spec fn counted_lifetime(registered_expires: u64) -> u64 {
    if registered_expires < 60 {
        60
    } else {
        registered_expires
    }
}

/// The seconds after a registration at which the device registers again:
/// when a quarter of the (counted) lifetime remains.
pub open spec fn reregister_interval_spec(registered_expires: u64) -> u64 {
    let e = counted_lifetime(registered_expires);
    (e - e / 4) as u64
}

/// The seconds after a registration at which the device registers again.
pub fn reregister_interval(registered_expires: u64) -> (r: u64)
    ensures
        r == reregister_interval_spec(registered_expires),
{
    let e = if registered_expires < 60 {
        60
    } else {
        registered_expires
    };
    e - e / 4
}

/// A duration of `secs` seconds and `nanos` nanoseconds exceeds `limit` seconds.
pub open spec fn exceeds(secs: u64, nanos: u32, limit: u64) -> bool {
    secs > limit || (secs == limit && nanos > 0)
}

/// Whether to register again after a keepalive round: more than the
/// re-registration interval has passed since the last registration.
pub fn reregister_due(registered_expires: u64, elapsed_secs: u64, elapsed_nanos: u32) -> (r: bool)
    ensures
        r == exceeds(elapsed_secs, elapsed_nanos, reregister_interval_spec(registered_expires)),
{
    let limit = reregister_interval(registered_expires);
    elapsed_secs > limit || (elapsed_secs == limit && elapsed_nanos > 0)
}

/// Re-registration comes before the registration expires: once three
/// quarters of the lifetime have passed, with at least a quarter (and at
/// least 15 seconds) of it left.
pub proof fn law_reregister_interval(registered_expires: u64)
    ensures
        reregister_interval_spec(registered_expires) >= 45,
        counted_lifetime(registered_expires) - reregister_interval_spec(registered_expires) >= 15,
        4 * (counted_lifetime(registered_expires) - reregister_interval_spec(registered_expires))
            <= counted_lifetime(registered_expires),
        registered_expires >= 60 ==> 3 * registered_expires <= 4 * reregister_interval_spec(
            registered_expires,
        ) && reregister_interval_spec(registered_expires) < registered_expires,
{
}

/// Re-registration does not depend on how many keepalives failed: it is due
/// at every moment after the interval, and the interval ends before the
/// registration's lifetime does.
pub proof fn law_reregistration_before_expiry(registered_expires: u64)
    ensures
        reregister_interval_spec(registered_expires) < counted_lifetime(registered_expires),
        forall|secs: u64, nanos: u32|
            secs > reregister_interval_spec(registered_expires) ==> #[trigger] exceeds(
                secs,
                nanos,
                reregister_interval_spec(registered_expires),
            ),
{
}

/// Initial registration is tried five times: every failure before the fifth
/// leads to another try, the fifth failure gives up, any success registers.
pub proof fn law_initial_registration(attempt: u32)
    requires
        attempt < INITIAL_REGISTER_ATTEMPTS,
    ensures
        attempt + 1 < INITIAL_REGISTER_ATTEMPTS ==> startup_step_spec(attempt, false)
            == StartupStep::Retry,
        attempt + 1 == INITIAL_REGISTER_ATTEMPTS ==> startup_step_spec(attempt, false)
            == StartupStep::GiveUp,
        startup_step_spec(attempt, true) == StartupStep::Registered,
{
}

/// A keepalive round gives up after its third failed attempt, and not before.
pub proof fn law_heartbeat_round_attempts()
    ensures
        heartbeat_step(HEARTBEAT_ATTEMPTS, false) == (2u32, HeartbeatNext::PauseThenRetry),
        heartbeat_step(2, false) == (1u32, HeartbeatNext::PauseThenRetry),
        heartbeat_step(1, false) == (0u32, HeartbeatNext::Finished(false)),
        forall|n: u32| n > 0 ==> #[trigger] heartbeat_step(n, true) == (n, HeartbeatNext::Finished(true)),
{
}

} // verus!

//! Readiness probing: the decisions of a loop that tries to connect to the
//! server until it answers or a deadline has passed.
//!
//! The caller reads the clock, connects and sleeps; it reports what it saw
//! and does what `decide` returns. An attempt is started only while the time
//! that has passed is below the timeout, and every failed attempt, whatever
//! its cause, is followed by one pause.

use vstd::prelude::*;

verus! {

/// How long to probe and how long to pause between attempts, in
/// milliseconds.
#[derive(Debug, Clone, Copy, PartialEq, Eq)]
pub struct ProbeConfig {
    pub timeout_ms: u64,
    pub retry_interval_ms: u64,
}

impl ProbeConfig {
    /// Both durations are positive.
    pub open spec fn valid(&self) -> bool {
        self.timeout_ms > 0 && self.retry_interval_ms > 0
    }

    /// A configuration with the given durations; none where one of them is
    /// zero.
    pub fn new(timeout_ms: u64, retry_interval_ms: u64) -> (c: Option<ProbeConfig>)
        ensures
            c is Some <==> timeout_ms > 0 && retry_interval_ms > 0,
            c matches Some(config) ==> config.timeout_ms == timeout_ms && config.retry_interval_ms
                == retry_interval_ms && config.valid(),
    {
        if timeout_ms > 0 && retry_interval_ms > 0 {
            Some(ProbeConfig { timeout_ms, retry_interval_ms })
        } else {
            None
        }
    }
}

/// What the caller saw.
#[derive(Debug, Clone, Copy, PartialEq, Eq)]
pub enum Observation {
    /// The clock was read: so many milliseconds have passed since the start.
    Clock(u64),
    /// An attempt to connect succeeded.
    Connected,
    /// An attempt to connect failed, refused or otherwise.
    NotConnected,
    /// A pause is over.
    Paused,
}

/// What the caller has to do next.
#[derive(Debug, Clone, Copy, PartialEq, Eq)]
pub enum ProbeAction {
    /// Read the clock and report `Clock`.
    ReadClock,
    /// Try to connect, drop the connection at once, and report `Connected`
    /// or `NotConnected`.
    Connect,
    /// Pause for so many milliseconds and report `Paused`.
    Pause(u64),
    /// The server is ready.
    Ready,
    /// The deadline has passed: the server did not become ready.
    GiveUp,
}

/// What is to be done after `seen`: an attempt while the time that has
/// passed is below the timeout, and giving up from then on; a pause after a
/// failed attempt; a look at the clock after a pause.
pub open spec fn decide_spec(config: ProbeConfig, seen: Observation) -> ProbeAction {
    match seen {
        Observation::Clock(elapsed_ms) => if elapsed_ms < config.timeout_ms {
            ProbeAction::Connect
        } else {
            ProbeAction::GiveUp
        },
        Observation::Connected => ProbeAction::Ready,
        Observation::NotConnected => ProbeAction::Pause(config.retry_interval_ms),
        Observation::Paused => ProbeAction::ReadClock,
    }
}

/// The first thing to do: read the clock.
pub fn first_action() -> (action: ProbeAction)
    ensures
        action == ProbeAction::ReadClock,
{
    ProbeAction::ReadClock
}

/// What to do after `seen`.
pub fn decide(config: &ProbeConfig, seen: Observation) -> (action: ProbeAction)
    ensures
        action == decide_spec(*config, seen),
{
    match seen {
        Observation::Clock(elapsed_ms) => {
            if elapsed_ms < config.timeout_ms {
                ProbeAction::Connect
            } else {
                ProbeAction::GiveUp
            }
        },
        Observation::Connected => ProbeAction::Ready,
        Observation::NotConnected => ProbeAction::Pause(config.retry_interval_ms),
        Observation::Paused => ProbeAction::ReadClock,
    }
}

/// The time that is left up to the timeout at the reading `now`.
pub open spec fn left(config: ProbeConfig, now: nat) -> nat {
    if now < config.timeout_ms {
        (config.timeout_ms - now) as nat
    } else {
        0
    }
}

/// Whether an attempt is made when the clock reads `now`.
pub open spec fn attempts_at(config: ProbeConfig, now: nat) -> bool {
    now <= u64::MAX && decide_spec(config, Observation::Clock(now as u64)) is Connect
}

/// The pause that follows a failed attempt.
pub open spec fn pause_after_failure(config: ProbeConfig) -> nat {
    match decide_spec(config, Observation::NotConnected) {
        ProbeAction::Pause(ms) => ms as nat,
        _ => 0,
    }
}

/// The clock reading at which probing gives up, from the reading `now` on,
/// when no attempt succeeds, an attempt takes no time and a pause lasts as
/// long as it was asked for.
pub open spec fn gives_up_at(config: ProbeConfig, now: nat) -> nat
    decreases left(config, now),
{
    if pause_after_failure(config) > 0 && attempts_at(config, now) {
        gives_up_at(config, now + pause_after_failure(config))
    } else {
        now
    }
}

/// The number of attempts made from the reading `now` on, under the same
/// conditions.
pub open spec fn attempts_from(config: ProbeConfig, now: nat) -> nat
    decreases left(config, now),
{
    if pause_after_failure(config) > 0 && attempts_at(config, now) {
        1 + attempts_from(config, now + pause_after_failure(config))
    } else {
        0
    }
}

/// Against a port that stays closed, probing gives up no earlier than the
/// timeout and less than one pause after it.
pub proof fn lemma_gives_up_within_one_interval(config: ProbeConfig, now: nat)
    requires
        config.valid(),
    ensures
        now < config.timeout_ms ==> config.timeout_ms <= gives_up_at(config, now)
            < config.timeout_ms + config.retry_interval_ms,
        now >= config.timeout_ms ==> gives_up_at(config, now) == now,
    decreases left(config, now),
{
    if now < config.timeout_ms {
        lemma_gives_up_within_one_interval(config, (now + config.retry_interval_ms) as nat);
    }
}

/// The reading at which probing gives up is the reading now and one pause
/// for each attempt.
pub proof fn lemma_attempts(config: ProbeConfig, now: nat)
    requires
        config.valid(),
    ensures
        gives_up_at(config, now) == now + attempts_from(config, now) * config.retry_interval_ms,
    decreases left(config, now),
{
    let step = config.retry_interval_ms as int;
    if now < config.timeout_ms {
        let next = (now + config.retry_interval_ms) as nat;
        lemma_attempts(config, next);
        let later = attempts_from(config, next) as int;
        assert(attempts_from(config, now) == 1 + later);
        assert((1 + later) * step == step + later * step) by (nonlinear_arith);
    } else {
        assert(attempts_from(config, now) == 0);
        assert(0 * step == 0);
    }
}

/// Probing against a port that stays closed ends at a clock reading
/// between the timeout and the timeout plus one pause, after at least one
/// attempt, the clock being what the pauses add up to. Where the timeout is
/// no longer than the pause, a single attempt is made.
pub proof fn lemma_closed_port_deadline(config: ProbeConfig)
    requires
        config.valid(),
    ensures
        config.timeout_ms <= gives_up_at(config, 0) < config.timeout_ms + config.retry_interval_ms,
        gives_up_at(config, 0) == attempts_from(config, 0) * config.retry_interval_ms,
        attempts_from(config, 0) >= 1,
        config.timeout_ms <= config.retry_interval_ms ==> attempts_from(config, 0) == 1,
{
    lemma_gives_up_within_one_interval(config, 0);
    lemma_attempts(config, 0);
    if config.timeout_ms <= config.retry_interval_ms {
        assert(attempts_from(config, config.retry_interval_ms as nat) == 0);
    }
}

/// A server that accepts connections from the clock reading `ready_at` on
/// is found ready at the first attempt at or after that reading, which is
/// less than one pause later, provided that an attempt is still made then.
pub open spec fn found_ready_at(config: ProbeConfig, now: nat, ready_at: nat) -> Option<nat>
    decreases left(config, now),
{
    if pause_after_failure(config) > 0 && attempts_at(config, now) {
        if now >= ready_at {
            Some(now)
        } else {
            found_ready_at(config, now + pause_after_failure(config), ready_at)
        }
    } else {
        None
    }
}

/// A server that becomes ready before the timeout is found ready less than
/// one pause after it became ready, or at the start if it was ready then.
pub proof fn lemma_found_ready(config: ProbeConfig, now: nat, ready_at: nat)
    requires
        config.valid(),
        now < ready_at + config.retry_interval_ms,
        ready_at + config.retry_interval_ms <= config.timeout_ms || (now >= ready_at && now
            < config.timeout_ms),
    ensures
        found_ready_at(config, now, ready_at) is Some,
        now <= found_ready_at(config, now, ready_at)->0,
        ready_at <= found_ready_at(config, now, ready_at)->0 < ready_at
            + config.retry_interval_ms,
    decreases left(config, now),
{
    if now < ready_at {
        lemma_found_ready(config, (now + config.retry_interval_ms) as nat, ready_at);
    }
}

} // verus!

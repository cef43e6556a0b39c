use sidecar_bridge::prober::{decide, first_action, Observation, ProbeAction, ProbeConfig};

/// Runs the probing loop on a clock that only pauses advance, against a
/// server that accepts connections from `ready_at` on. Returns whether the
/// server was found ready, the reading at the end and the number of attempts.
fn simulate(config: &ProbeConfig, ready_at: Option<u64>) -> (bool, u64, u32) {
    let mut now: u64 = 0;
    let mut attempts: u32 = 0;
    let mut action = first_action();
    loop {
        let seen = match action {
            ProbeAction::ReadClock => Observation::Clock(now),
            ProbeAction::Connect => {
                attempts += 1;
                match ready_at {
                    Some(t) if now >= t => Observation::Connected,
                    _ => Observation::NotConnected,
                }
            }
            ProbeAction::Pause(ms) => {
                now += ms;
                Observation::Paused
            }
            ProbeAction::Ready => return (true, now, attempts),
            ProbeAction::GiveUp => return (false, now, attempts),
        };
        action = decide(config, seen);
    }
}

#[test]
fn config_needs_positive_durations() {
    assert_eq!(
        ProbeConfig::new(30_000, 200),
        Some(ProbeConfig { timeout_ms: 30_000, retry_interval_ms: 200 })
    );
    assert_eq!(ProbeConfig::new(0, 200), None);
    assert_eq!(ProbeConfig::new(30_000, 0), None);
    assert_eq!(ProbeConfig::new(0, 0), None);
}

#[test]
fn decisions() {
    let c = ProbeConfig::new(1000, 200).unwrap();
    assert_eq!(first_action(), ProbeAction::ReadClock);
    assert_eq!(decide(&c, Observation::Clock(0)), ProbeAction::Connect);
    assert_eq!(decide(&c, Observation::Clock(999)), ProbeAction::Connect);
    assert_eq!(decide(&c, Observation::Clock(1000)), ProbeAction::GiveUp);
    assert_eq!(decide(&c, Observation::Clock(u64::MAX)), ProbeAction::GiveUp);
    assert_eq!(decide(&c, Observation::Connected), ProbeAction::Ready);
    assert_eq!(decide(&c, Observation::NotConnected), ProbeAction::Pause(200));
    assert_eq!(decide(&c, Observation::Paused), ProbeAction::ReadClock);
}

#[test]
fn closed_port_gives_up_within_one_interval_of_the_timeout() {
    for (timeout, interval) in [(1000u64, 200u64), (1000, 300), (5000, 200), (1, 1), (7, 3), (30_000, 200)] {
        let c = ProbeConfig::new(timeout, interval).unwrap();
        let (ready, at, attempts) = simulate(&c, None);
        assert!(!ready);
        assert!(at >= timeout && at < timeout + interval, "{} {}", timeout, interval);
        assert_eq!(at, attempts as u64 * interval);
    }
    let (_, at, attempts) = simulate(&ProbeConfig::new(1000, 300).unwrap(), None);
    assert_eq!((at, attempts), (1200, 4));
}

#[test]
fn timeout_below_interval_is_a_single_attempt() {
    let c = ProbeConfig::new(100, 500).unwrap();
    assert_eq!(simulate(&c, None), (false, 500, 1));
    let c = ProbeConfig::new(500, 500).unwrap();
    assert_eq!(simulate(&c, None), (false, 500, 1));
}

#[test]
fn scenario_server_ready_after_two_seconds() {
    let c = ProbeConfig::new(5000, 200).unwrap();
    let (ready, at, attempts) = simulate(&c, Some(2000));
    assert!(ready);
    assert_eq!(at, 2000);
    assert!(at <= 2200);
    assert_eq!(attempts, 11);
    let (ready, at, _) = simulate(&c, Some(1901));
    assert!(ready);
    assert_eq!(at, 2000);
}

#[test]
fn server_ready_at_once() {
    let c = ProbeConfig::new(5000, 200).unwrap();
    assert_eq!(simulate(&c, Some(0)), (true, 0, 1));
}

#[test]
fn server_ready_too_late() {
    let c = ProbeConfig::new(1000, 200).unwrap();
    assert_eq!(simulate(&c, Some(1000)), (false, 1000, 5));
}

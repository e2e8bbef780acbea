use gbhub_stress::sip::keepalive::{
    initial_register_step, reregister_due, reregister_interval, HeartbeatNext, HeartbeatRound,
    StartupStep,
};

#[test]
fn initial_registration_gives_up_after_five() {
    assert_eq!(initial_register_step(0, true), StartupStep::Registered);
    assert_eq!(initial_register_step(0, false), StartupStep::Retry);
    assert_eq!(initial_register_step(3, false), StartupStep::Retry);
    assert_eq!(initial_register_step(4, false), StartupStep::GiveUp);
    assert_eq!(initial_register_step(4, true), StartupStep::Registered);
}

#[test]
fn heartbeat_round_three_attempts() {
    let mut r = HeartbeatRound::new();
    assert_eq!(r.record(false), HeartbeatNext::PauseThenRetry);
    assert_eq!(r.record(false), HeartbeatNext::PauseThenRetry);
    assert_eq!(r.record(false), HeartbeatNext::Finished(false));
    assert_eq!(r.retries_left, 0);
    let mut r = HeartbeatRound::new();
    assert_eq!(r.record(false), HeartbeatNext::PauseThenRetry);
    assert_eq!(r.record(true), HeartbeatNext::Finished(true));
}

#[test]
fn reregistration_timing() {
    assert_eq!(reregister_interval(3600), 2700);
    assert_eq!(reregister_interval(30), 45);
    assert_eq!(reregister_interval(61), 46);
    assert_eq!(reregister_interval(u64::MAX), u64::MAX - u64::MAX / 4);
    assert!(reregister_due(3600, 2701, 0));
    assert!(reregister_due(3600, 2700, 1));
    assert!(!reregister_due(3600, 2700, 0));
    assert!(!reregister_due(3600, 900, 0));
    assert!(reregister_due(30, 46, 0));
}

use peer_network::handshake::{
    HandshakeAction, HandshakeDriver, HandshakeError, HandshakeEvent, HandshakePhase,
    HANDSHAKE_TIMEOUT_NANOS, HANDSHAKE_TIMEOUT_SECS,
};

fn stalled() -> HandshakeEvent {
    HandshakeEvent::Advanced { num_read: 0, num_written: 0 }
}

#[test]
fn the_timeout_is_twenty_seconds() {
    assert_eq!(HANDSHAKE_TIMEOUT_SECS, 20);
    assert_eq!(HANDSHAKE_TIMEOUT_NANOS, 20 * 1_000_000_000);
}

#[test]
fn the_time_left_runs_out_at_the_deadline() {
    let driver = HandshakeDriver::new(true, 5_000);
    assert_eq!(driver.time_left(5_000), 20_000_000_000);
    assert_eq!(driver.time_left(6_000), 19_999_999_000);
    assert_eq!(driver.time_left(20_000_004_999), 1);
    assert_eq!(driver.time_left(20_000_005_000), 0);
    assert_eq!(driver.time_left(u64::MAX), 0);
    assert_eq!(driver.time_left(0), 20_000_005_000);
}

#[test]
fn a_deadline_beyond_the_clock_is_the_end_of_the_clock() {
    let driver = HandshakeDriver::new(true, u64::MAX - 7);
    assert_eq!(driver.time_left(u64::MAX - 7), 7);
    assert_eq!(driver.time_left(u64::MAX), 0);
    let driver = HandshakeDriver::new(true, u64::MAX - 20_000_000_000);
    assert_eq!(driver.time_left(u64::MAX - 20_000_000_000), 20_000_000_000);
}

#[test]
fn a_driver_starts_negotiating() {
    let driver = HandshakeDriver::new(true, 0);
    assert_eq!(driver.phase(), HandshakePhase::Negotiating);
    assert!(driver.is_initiator());
    assert!(!HandshakeDriver::new(false, 0).is_initiator());
}

#[test]
fn a_smooth_handshake() {
    let mut driver = HandshakeDriver::new(true, 0);
    assert_eq!(
        driver.on_event(HandshakeEvent::Advanced { num_read: 0, num_written: 24 }),
        HandshakeAction::RunAgain
    );
    assert_eq!(driver.on_event(stalled()), HandshakeAction::Wait);
    assert_eq!(driver.phase(), HandshakePhase::Waiting);
    assert_eq!(driver.on_event(HandshakeEvent::SocketReady), HandshakeAction::RunAgain);
    assert_eq!(driver.phase(), HandshakePhase::Negotiating);
    assert_eq!(
        driver.on_event(HandshakeEvent::Advanced { num_read: 80, num_written: 0 }),
        HandshakeAction::RunAgain
    );
    assert_eq!(
        driver.on_event(HandshakeEvent::NoiseKeyRequired),
        HandshakeAction::ResumeWithNoiseKey
    );
    assert_eq!(driver.phase(), HandshakePhase::Negotiating);
    assert_eq!(driver.on_event(HandshakeEvent::Finished), HandshakeAction::Succeed);
    assert_eq!(driver.phase(), HandshakePhase::Succeeded);
    assert!(driver.is_initiator());
}

#[test]
fn a_stalled_handshake_times_out() {
    let mut driver = HandshakeDriver::new(false, 0);
    assert_eq!(driver.on_event(stalled()), HandshakeAction::Wait);
    assert_eq!(
        driver.on_event(HandshakeEvent::TimedOut),
        HandshakeAction::Fail(HandshakeError::Timeout)
    );
    assert_eq!(driver.phase(), HandshakePhase::Failed(HandshakeError::Timeout));
}

#[test]
fn the_timeout_counts_only_while_waiting() {
    let mut driver = HandshakeDriver::new(false, 0);
    assert_eq!(driver.on_event(HandshakeEvent::TimedOut), HandshakeAction::RunAgain);
    assert_eq!(driver.phase(), HandshakePhase::Negotiating);
}

#[test]
fn each_failure_has_its_error() {
    let cases = [
        (HandshakeEvent::SocketFailed, HandshakeError::Io),
        (HandshakeEvent::ReadClosed, HandshakeError::UnexpectedEof),
        (HandshakeEvent::Rejected, HandshakeError::Protocol),
    ];
    for (event, error) in cases {
        let mut driver = HandshakeDriver::new(true, 0);
        assert_eq!(driver.on_event(event), HandshakeAction::Fail(error));
        assert_eq!(driver.phase(), HandshakePhase::Failed(error));
        let mut waiting = HandshakeDriver::new(true, 0);
        waiting.on_event(stalled());
        assert_eq!(waiting.on_event(event), HandshakeAction::Fail(error));
    }
}

#[test]
fn the_end_is_final() {
    let events = [
        HandshakeEvent::Finished,
        HandshakeEvent::NoiseKeyRequired,
        HandshakeEvent::SocketFailed,
        HandshakeEvent::ReadClosed,
        HandshakeEvent::Rejected,
        HandshakeEvent::Advanced { num_read: 1, num_written: 1 },
        stalled(),
        HandshakeEvent::SocketReady,
        HandshakeEvent::TimedOut,
    ];
    let mut failed = HandshakeDriver::new(true, 0);
    failed.on_event(HandshakeEvent::ReadClosed);
    let mut succeeded = HandshakeDriver::new(true, 0);
    succeeded.on_event(HandshakeEvent::Finished);
    for event in events {
        assert_eq!(failed.on_event(event), HandshakeAction::Fail(HandshakeError::UnexpectedEof));
        assert_eq!(failed.phase(), HandshakePhase::Failed(HandshakeError::UnexpectedEof));
        assert_eq!(succeeded.on_event(event), HandshakeAction::Succeed);
        assert_eq!(succeeded.phase(), HandshakePhase::Succeeded);
    }
}

#[test]
fn progress_in_one_direction_is_progress() {
    let mut driver = HandshakeDriver::new(true, 0);
    assert_eq!(
        driver.on_event(HandshakeEvent::Advanced { num_read: 1, num_written: 0 }),
        HandshakeAction::RunAgain
    );
    assert_eq!(
        driver.on_event(HandshakeEvent::Advanced { num_read: 0, num_written: 1 }),
        HandshakeAction::RunAgain
    );
    assert_eq!(driver.phase(), HandshakePhase::Negotiating);
}

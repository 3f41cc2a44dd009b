use espcam::session::SessionAction;
use espcam::session::SessionEvent;
use espcam::session::SessionMachine;
use espcam::session::SessionState;
use espcam::session::ThroughputMeter;

#[test]
fn happy_path_walks_all_states() {
    let mut m = SessionMachine::new();
    assert_eq!(m.state, SessionState::Idle);
    assert_eq!(m.step(SessionEvent::StreamRequest), SessionAction::SendHeader);
    assert_eq!(m.state, SessionState::HeaderSent);
    assert_eq!(m.step(SessionEvent::WriteOk), SessionAction::BeginBurst);
    assert_eq!(m.state, SessionState::Streaming);
    assert_eq!(m.step(SessionEvent::WriteOk), SessionAction::ContinueStreaming);
    assert_eq!(m.step(SessionEvent::BurstEnded), SessionAction::BeginBurst);
    assert_eq!(m.step(SessionEvent::PeerDisconnect), SessionAction::ReleaseHandle);
    assert_eq!(m.state, SessionState::Closing);
    assert_eq!(m.step(SessionEvent::HandleReturned), SessionAction::Ignore);
    assert_eq!(m.state, SessionState::Idle);
}

#[test]
fn write_failure_closes_and_releases_exactly_once() {
    // a failed write during a frame body closes the session; the release
    // action is seen exactly once, and no further transmission happens
    let mut m = SessionMachine::new();
    m.step(SessionEvent::StreamRequest);
    m.step(SessionEvent::WriteOk);
    let mut releases = 0;
    let a = m.step(SessionEvent::WriteFailed);
    if a == SessionAction::ReleaseHandle {
        releases += 1;
    }
    assert_eq!(m.state, SessionState::Closing);
    // whatever arrives while closing, nothing is sent and nothing is
    // released again
    for e in [
        SessionEvent::WriteOk,
        SessionEvent::WriteFailed,
        SessionEvent::BurstEnded,
        SessionEvent::StreamRequest,
    ] {
        let a = m.step(e);
        assert_eq!(m.state, SessionState::Closing);
        assert_eq!(a, SessionAction::Ignore);
        if a == SessionAction::ReleaseHandle {
            releases += 1;
        }
    }
    assert_eq!(releases, 1);
    assert_eq!(m.step(SessionEvent::HandleReturned), SessionAction::Ignore);
    assert_eq!(m.state, SessionState::Idle);
}

#[test]
fn capture_error_closes_too() {
    let mut m = SessionMachine::new();
    m.step(SessionEvent::StreamRequest);
    m.step(SessionEvent::WriteOk);
    assert_eq!(m.step(SessionEvent::CaptureError), SessionAction::ReleaseHandle);
    assert_eq!(m.state, SessionState::Closing);
}

#[test]
fn header_send_failure_skips_streaming() {
    let mut m = SessionMachine::new();
    m.step(SessionEvent::StreamRequest);
    assert_eq!(m.step(SessionEvent::WriteFailed), SessionAction::ReleaseHandle);
    assert_eq!(m.state, SessionState::Closing);
}

#[test]
fn slow_consumer_is_not_fatal() {
    let mut m = SessionMachine::new();
    m.step(SessionEvent::StreamRequest);
    m.step(SessionEvent::WriteOk);
    assert_eq!(m.step(SessionEvent::SlowConsumer), SessionAction::LogSlowConsumer);
    assert_eq!(m.state, SessionState::Streaming);
}

#[test]
fn throughput_of_thirty_frames_in_one_second() {
    let mut meter = ThroughputMeter::new(0, 0);
    assert_eq!(meter.on_burst_complete(1000, 30), Some(30));
    // the window was reset: the next second is measured on its own
    assert_eq!(meter.on_burst_complete(1400, 40), None);
    assert_eq!(meter.on_burst_complete(2000, 60), Some(30));
}

#[test]
fn throughput_window_shorter_than_a_second_reports_nothing() {
    let mut meter = ThroughputMeter::new(500, 10);
    assert_eq!(meter.on_burst_complete(1499, 40), None);
    assert_eq!(meter.window_start_ms, 500);
    assert_eq!(meter.frames_at_start, 10);
}

#[test]
fn throughput_rounds_down_over_longer_windows() {
    let mut meter = ThroughputMeter::new(0, 0);
    // 45 frames over 1500 ms is 30 per second
    assert_eq!(meter.on_burst_complete(1500, 45), Some(30));
}

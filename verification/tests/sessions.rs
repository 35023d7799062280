use std::time::Duration;

use macos_webrtc_h264::h264::make_access_unit;
use macos_webrtc_h264::pipeline::PipelineHealth;
use macos_webrtc_h264::web::{server_addr_text, HealthResponse, SessionAnswer, SessionOffer};
use macos_webrtc_h264::webrtc_sender::{
    drain_step, DrainStep, ForwarderAction, ForwarderEvent, TryRecvOutcome, VideoForwarder,
};

#[test]
fn health_report_copies_the_pipeline() {
    let health = PipelineHealth {
        source: "file",
        pipeline_ready: true,
        raw_frames: 1,
        encode_attempts: 2,
        encoded_frames: 3,
        dropped_frames: 4,
        last_raw_frame_at_ms: 5,
        last_encode_attempt_at_ms: 6,
        last_encoded_at_ms: 7,
        last_error: Some("boom".to_string()),
    };
    let r = HealthResponse::from_health(health);
    assert_eq!(r.status, "ok");
    assert_eq!(r.source, "file");
    assert!(r.pipeline_ready);
    assert_eq!(
        (r.raw_frames, r.encode_attempts, r.encoded_frames, r.dropped_frames),
        (1, 2, 3, 4)
    );
    assert_eq!((r.last_raw_frame_at_ms, r.last_encode_attempt_at_ms, r.last_encoded_at_ms), (5, 6, 7));
    assert_eq!(r.last_error.as_deref(), Some("boom"));
}

#[test]
fn server_address_defaults() {
    assert_eq!(server_addr_text(None), "0.0.0.0:4060");
    assert_eq!(server_addr_text(Some("127.0.0.1:9000".to_string())), "127.0.0.1:9000");
}

#[test]
fn session_values_carry_sdp() {
    let offer = SessionOffer { sdp: "v=0".to_string() };
    let answer = SessionAnswer { sdp: offer.sdp.clone() };
    assert_eq!(answer.sdp, "v=0");
}

#[test]
fn forwarder_resends_the_newest_unit() {
    let d = Duration::from_millis(66);
    let mut f = VideoForwarder::new(None);
    assert!(matches!(f.step(ForwarderEvent::Tick), ForwarderAction::Wait));
    let first = make_access_unit(&[vec![0x65, 1]], d);
    let second = make_access_unit(&[vec![0x41, 2]], d);
    match f.step(ForwarderEvent::Received(first.clone())) {
        ForwarderAction::Write(u) => assert_eq!(u.data, first.data),
        _ => panic!("expected a write"),
    }
    match f.step(ForwarderEvent::Received(second.clone())) {
        ForwarderAction::Write(u) => assert_eq!(u.data, second.data),
        _ => panic!("expected a write"),
    }
    match f.step(ForwarderEvent::Tick) {
        ForwarderAction::Write(u) => {
            assert_eq!(u.data, second.data);
            assert_eq!(u.duration, d);
        }
        _ => panic!("expected a resend"),
    }
    assert!(matches!(f.step(ForwarderEvent::Lagged), ForwarderAction::Wait));
    match f.step(ForwarderEvent::Tick) {
        ForwarderAction::Write(u) => assert_eq!(u.data, second.data),
        _ => panic!("a lag keeps the session and its latest unit"),
    }
    assert!(matches!(f.step(ForwarderEvent::WriteFailed), ForwarderAction::Stop));
    assert!(matches!(f.step(ForwarderEvent::ChannelClosed), ForwarderAction::Stop));
    assert_eq!(f.latest_access_unit.unwrap().data, second.data);
}

#[test]
fn forwarder_starts_from_the_snapshot() {
    let snapshot = make_access_unit(&[vec![0x65, 9]], Duration::from_millis(1));
    let mut f = VideoForwarder::new(Some(snapshot.clone()));
    match f.step(ForwarderEvent::Tick) {
        ForwarderAction::Write(u) => assert_eq!(u.data, snapshot.data),
        _ => panic!("expected a resend"),
    }
}

#[test]
fn draining_keeps_only_the_newest() {
    let d = Duration::from_millis(1);
    let a = make_access_unit(&[vec![1]], d);
    let b = make_access_unit(&[vec![2]], d);
    let c = make_access_unit(&[vec![3]], d);
    let outcomes = vec![
        TryRecvOutcome::Received(b.clone()),
        TryRecvOutcome::Lagged,
        TryRecvOutcome::Received(c.clone()),
        TryRecvOutcome::Empty,
        TryRecvOutcome::Received(a.clone()),
    ];
    let mut newest = a.clone();
    for outcome in outcomes {
        match drain_step(newest, outcome) {
            DrainStep::Continue(u) => newest = u,
            DrainStep::Done(u) => {
                newest = u;
                break;
            }
        }
    }
    assert_eq!(newest.data, c.data);
    assert!(matches!(drain_step(a.clone(), TryRecvOutcome::Closed), DrainStep::Done(u) if u.data == a.data));
    assert!(matches!(drain_step(a.clone(), TryRecvOutcome::Lagged), DrainStep::Continue(u) if u.data == a.data));
}

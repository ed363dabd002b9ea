use rollingpanda::bridge::{
    Bridge, BridgeAction, BridgeEvent, BridgeFailure, CloseStep, LateStatus, OutboundRelay, Phase,
};
use rollingpanda::shell::Platform;
use rollingpanda::window::pty_size;

fn ending(code: u32) -> Vec<CloseStep> {
    vec![
        CloseStep::StopReader,
        CloseStep::CloseInput,
        CloseStep::JoinReader,
        CloseStep::JoinWriter,
        CloseStep::DiscardOutput,
        CloseStep::ReportExit(code),
        CloseStep::SendEof,
        CloseStep::SendClose,
    ]
}

#[test]
fn data_is_relayed_both_ways() {
    let mut b = Bridge::new();
    assert!(matches!(b.step(BridgeEvent::ClientData(vec![1, 2])), BridgeAction::FeedPty(d) if d == [1, 2]));
    assert!(matches!(b.step(BridgeEvent::PtyOutput(vec![3])), BridgeAction::SendClient(d) if d == [3]));
    assert!(matches!(
        b.step(BridgeEvent::Resized(pty_size(9, 8))),
        BridgeAction::ResizePty(s) if s == pty_size(9, 8)
    ));
    assert!(matches!(b.step(BridgeEvent::ClientOther), BridgeAction::Wait));
    assert!(matches!(b.step(BridgeEvent::ResizeClosed), BridgeAction::Wait));
    assert_eq!(b.phase, Phase::Relaying);
}

#[test]
fn exit_of_the_program_closes_at_once() {
    let mut b = Bridge::new();
    assert!(matches!(b.step(BridgeEvent::ChildExited(3)), BridgeAction::Close));
    assert_eq!(b.closing_steps(), ending(3));
}

#[test]
fn client_that_leaves_ends_the_relay() {
    for event in [BridgeEvent::ClientEof, BridgeEvent::ClientClose, BridgeEvent::ClientGone] {
        let mut b = Bridge::new();
        assert!(matches!(b.step(event), BridgeAction::CheckChild));
        assert!(matches!(b.step(BridgeEvent::PtyOutput(vec![1])), BridgeAction::Wait));
        assert!(matches!(b.step(BridgeEvent::ClientData(vec![1])), BridgeAction::Wait));
        assert!(matches!(b.step(BridgeEvent::ChildChecked(LateStatus::Running)), BridgeAction::Close));
        let mut steps = vec![CloseStep::AbortChild];
        steps.extend(ending(0));
        assert_eq!(b.closing_steps(), steps);
        assert!(matches!(b.step(BridgeEvent::PtyOutput(vec![1])), BridgeAction::Wait));
    }
}

#[test]
fn late_exit_code_is_reported() {
    for event in [BridgeEvent::PtyClosed, BridgeEvent::FeedFailed, BridgeEvent::SendFailed] {
        let mut b = Bridge::new();
        assert!(matches!(b.step(event), BridgeAction::CheckChild));
        b.step(BridgeEvent::ChildChecked(LateStatus::Exited(7)));
        assert_eq!(b.closing_steps(), ending(7));
    }
    let mut b = Bridge::new();
    b.step(BridgeEvent::PtyClosed);
    b.step(BridgeEvent::ChildChecked(LateStatus::Unknown));
    assert_eq!(b.closing_steps(), ending(0));
}

#[test]
fn failures_end_with_an_error() {
    let mut b = Bridge::new();
    assert!(matches!(b.step(BridgeEvent::ChildJoinFailed), BridgeAction::Fail(BridgeFailure::JoinFailed)));
    assert_eq!(b.phase, Phase::Failed);
    let mut b = Bridge::new();
    assert!(matches!(b.step(BridgeEvent::ChildWaitFailed), BridgeAction::Fail(BridgeFailure::WaitFailed)));
    assert!(matches!(b.step(BridgeEvent::ChildExited(1)), BridgeAction::Wait));
    assert_eq!(b.exit_code, 0);
}

#[test]
fn windows_output_is_filtered_across_reads() {
    let mut r = OutboundRelay::new(Platform::Windows);
    assert!(r.before_read(true));
    assert_eq!(r.after_read(Some(b"a\x1b[?2")), Some(b"a".to_vec()));
    assert_eq!(r.after_read(Some(b"5h")), None);
    assert!(!r.done);
    assert_eq!(r.after_read(Some(b"b")), Some(b"b".to_vec()));
}

#[test]
fn unix_output_is_untouched() {
    let mut r = OutboundRelay::new(Platform::Unix);
    assert_eq!(r.after_read(Some(b"\x1b[?25h")), Some(b"\x1b[?25h".to_vec()));
    r.after_send(true);
    assert!(r.before_read(true));
}

#[test]
fn reader_stops() {
    let mut r = OutboundRelay::new(Platform::Unix);
    assert!(!r.before_read(false));
    assert!(!r.before_read(true));
    let mut r = OutboundRelay::new(Platform::Unix);
    assert_eq!(r.after_read(Some(b"")), None);
    assert!(r.done);
    let mut r = OutboundRelay::new(Platform::Windows);
    assert_eq!(r.after_read(None), None);
    assert!(r.done);
    let mut r = OutboundRelay::new(Platform::Windows);
    r.after_send(false);
    assert!(!r.before_read(true));
}

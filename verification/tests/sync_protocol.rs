use wgpu_prefix_sum::error::ScanError;
use wgpu_prefix_sum::sync::{step, SyncAction, SyncEvent, SyncState};

fn run(events: &[SyncEvent]) -> (SyncState, Vec<SyncAction>) {
    let mut state = SyncState::Empty;
    let mut actions = Vec::new();
    for &event in events {
        let (next, action) = step(state, event);
        state = next;
        actions.push(action);
    }
    (state, actions)
}

#[test]
fn readback_without_upload_fails_explicitly() {
    assert_eq!(
        step(SyncState::Empty, SyncEvent::ReadbackRequested),
        (SyncState::Empty, SyncAction::Fail(ScanError::MappingFailure))
    );
}

#[test]
fn scan_without_upload_runs_on_the_fresh_buffer() {
    assert_eq!(
        step(SyncState::Empty, SyncEvent::ScanRequested),
        (SyncState::Ready, SyncAction::SubmitScan)
    );
    assert_eq!(
        step(SyncState::Ready, SyncEvent::ReadbackRequested),
        (SyncState::Copying, SyncAction::SubmitCopy)
    );
}

#[test]
fn answers_without_a_request_leave_an_empty_context_empty() {
    for event in [
        SyncEvent::CopySubmitted,
        SyncEvent::MapRequestIssued,
        SyncEvent::PollFinished { ok: true },
        SyncEvent::Notification { delivered: true, ok: true },
        SyncEvent::RangeRead,
        SyncEvent::Unmapped,
    ] {
        assert_eq!(
            step(SyncState::Empty, event),
            (SyncState::Empty, SyncAction::Fail(ScanError::ConfigurationError))
        );
    }
}

#[test]
fn full_round_trip_walks_the_handshake() {
    let (state, actions) = run(&[
        SyncEvent::UploadRequested,
        SyncEvent::ScanRequested,
        SyncEvent::ReadbackRequested,
        SyncEvent::CopySubmitted,
        SyncEvent::MapRequestIssued,
        SyncEvent::PollFinished { ok: true },
        SyncEvent::Notification { delivered: true, ok: true },
        SyncEvent::RangeRead,
        SyncEvent::Unmapped,
    ]);
    assert_eq!(state, SyncState::Ready);
    assert_eq!(
        actions,
        vec![
            SyncAction::WriteBuffer,
            SyncAction::SubmitScan,
            SyncAction::SubmitCopy,
            SyncAction::RequestMap,
            SyncAction::Poll,
            SyncAction::Receive,
            SyncAction::ReadMapped,
            SyncAction::Unmap,
            SyncAction::Done,
        ]
    );
}

#[test]
fn readback_can_be_repeated() {
    let round = [
        SyncEvent::ReadbackRequested,
        SyncEvent::CopySubmitted,
        SyncEvent::MapRequestIssued,
        SyncEvent::PollFinished { ok: true },
        SyncEvent::Notification { delivered: true, ok: true },
        SyncEvent::RangeRead,
        SyncEvent::Unmapped,
    ];
    let mut events = vec![SyncEvent::UploadRequested];
    events.extend_from_slice(&round);
    events.extend_from_slice(&round);
    let (state, actions) = run(&events);
    assert_eq!(state, SyncState::Ready);
    assert_eq!(actions[7], SyncAction::Done);
    assert_eq!(actions[8], SyncAction::SubmitCopy);
    assert_eq!(actions[14], SyncAction::Done);
}

#[test]
fn failed_poll_is_device_error() {
    let (state, actions) = run(&[
        SyncEvent::UploadRequested,
        SyncEvent::ReadbackRequested,
        SyncEvent::CopySubmitted,
        SyncEvent::MapRequestIssued,
        SyncEvent::PollFinished { ok: false },
    ]);
    assert_eq!(state, SyncState::Failed);
    assert_eq!(actions[4], SyncAction::Fail(ScanError::DeviceError));
}

#[test]
fn failed_mapping_is_mapping_failure() {
    let (state, actions) = run(&[
        SyncEvent::UploadRequested,
        SyncEvent::ReadbackRequested,
        SyncEvent::CopySubmitted,
        SyncEvent::MapRequestIssued,
        SyncEvent::PollFinished { ok: true },
        SyncEvent::Notification { delivered: true, ok: false },
    ]);
    assert_eq!(state, SyncState::Failed);
    assert_eq!(actions[5], SyncAction::Fail(ScanError::MappingFailure));
}

#[test]
fn closed_channel_is_device_error() {
    let (state, actions) = run(&[
        SyncEvent::UploadRequested,
        SyncEvent::ReadbackRequested,
        SyncEvent::CopySubmitted,
        SyncEvent::MapRequestIssued,
        SyncEvent::PollFinished { ok: true },
        SyncEvent::Notification { delivered: false, ok: false },
    ]);
    assert_eq!(state, SyncState::Failed);
    assert_eq!(actions[5], SyncAction::Fail(ScanError::DeviceError));
    assert_eq!(
        step(SyncState::Receiving, SyncEvent::Notification { delivered: false, ok: true }),
        (SyncState::Failed, SyncAction::Fail(ScanError::DeviceError))
    );
}

#[test]
fn failure_is_final() {
    let events = [
        SyncEvent::UploadRequested,
        SyncEvent::ScanRequested,
        SyncEvent::ReadbackRequested,
        SyncEvent::CopySubmitted,
        SyncEvent::MapRequestIssued,
        SyncEvent::PollFinished { ok: true },
        SyncEvent::Notification { delivered: true, ok: true },
        SyncEvent::RangeRead,
        SyncEvent::Unmapped,
    ];
    for event in events {
        assert_eq!(
            step(SyncState::Failed, event),
            (SyncState::Failed, SyncAction::Fail(ScanError::DeviceError))
        );
    }
}

#[test]
fn device_work_waits_for_readback() {
    let in_flight = [
        SyncState::Copying,
        SyncState::MapRequested,
        SyncState::Polling,
        SyncState::Receiving,
        SyncState::Mapped,
        SyncState::Unmapping,
    ];
    for state in in_flight {
        for event in
            [SyncEvent::UploadRequested, SyncEvent::ScanRequested, SyncEvent::ReadbackRequested]
        {
            assert_eq!(
                step(state, event),
                (state, SyncAction::Fail(ScanError::ConfigurationError))
            );
        }
    }
}

#[test]
fn answers_out_of_turn_are_rejected() {
    assert_eq!(
        step(SyncState::Ready, SyncEvent::PollFinished { ok: true }),
        (SyncState::Ready, SyncAction::Fail(ScanError::ConfigurationError))
    );
    assert_eq!(
        step(SyncState::Polling, SyncEvent::Notification { delivered: true, ok: true }),
        (SyncState::Polling, SyncAction::Fail(ScanError::ConfigurationError))
    );
    assert_eq!(
        step(SyncState::Mapped, SyncEvent::Unmapped),
        (SyncState::Mapped, SyncAction::Fail(ScanError::ConfigurationError))
    );
}

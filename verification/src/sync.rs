//! Host/device synchronization: which device operation the host issues next,
//! given what it has asked for and what the device has answered.
//!
//! The caller performs the action that a transition returns and reports its
//! outcome as the next event. A readback copies the result to the staging
//! buffer, requests a mapping, polls the device, receives the one-shot
//! notification, reads the mapped range and releases it, in that order.

use vstd::prelude::*;
use crate::error::ScanError;

verus! {

/// Where a context stands in the protocol.
#[derive(Clone, Copy, Debug, PartialEq, Eq, Structural)]
pub enum SyncState {
    /// Nothing was uploaded or submitted yet: the data buffer holds nothing
    /// that the caller put there.
    Empty,
    /// Input was uploaded or a scan was submitted, and no readback is in
    /// flight.
    Ready,
    /// A readback was asked for; the copy to the staging buffer is to be
    /// submitted.
    Copying,
    /// The copy was submitted; the mapping is to be requested.
    MapRequested,
    /// The mapping was requested; the device is to be polled.
    Polling,
    /// The poll returned; the notification is to be received.
    Receiving,
    /// The staging buffer is mapped and may be read.
    Mapped,
    /// The mapped range was read; the staging buffer is to be released.
    Unmapping,
    /// The device failed; the context must be rebuilt.
    Failed,
}

/// What the caller asks for, or what the device answered to the last action.
#[derive(Clone, Copy, Debug, PartialEq, Eq, Structural)]
pub enum SyncEvent {
    /// The caller wants to write input into the data buffer.
    UploadRequested,
    /// The caller wants to submit the passes of a scan.
    ScanRequested,
    /// The caller wants to read the result.
    ReadbackRequested,
    /// The copy to the staging buffer was submitted.
    CopySubmitted,
    /// The mapping of the staging buffer was requested.
    MapRequestIssued,
    /// The poll returned, successfully or not.
    PollFinished { ok: bool },
    /// The notification channel answered: `delivered` is false when the
    /// channel was closed without a message, `ok` is the mapping's outcome.
    Notification { delivered: bool, ok: bool },
    /// The mapped range was copied out.
    RangeRead,
    /// The staging buffer was released.
    Unmapped,
}

/// What the caller does next.
#[derive(Clone, Copy, Debug, PartialEq, Eq, Structural)]
pub enum SyncAction {
    /// Write the input bytes into the data buffer.
    WriteBuffer,
    /// Record and submit the passes of the scan.
    SubmitScan,
    /// Record and submit the copy of the result to the staging buffer.
    SubmitCopy,
    /// Request the mapping of the staging buffer for reading.
    RequestMap,
    /// Poll the device until its work is done.
    Poll,
    /// Receive the notification of the mapping.
    Receive,
    /// Read the mapped range.
    ReadMapped,
    /// Release the mapped range and the mapping.
    Unmap,
    /// The readback is complete.
    Done,
    /// Give up with this error.
    Fail(ScanError),
}

/// A readback is in flight: device work on the data buffer must wait.
pub open spec fn readback_in_flight(state: SyncState) -> bool {
    state == SyncState::Copying || state == SyncState::MapRequested || state == SyncState::Polling
        || state == SyncState::Receiving || state == SyncState::Mapped || state
        == SyncState::Unmapping
}

/// The transition relation, as a table.
pub open spec fn next(state: SyncState, event: SyncEvent) -> (SyncState, SyncAction) {
    match (state, event) {
        (SyncState::Failed, _) => (SyncState::Failed, SyncAction::Fail(ScanError::DeviceError)),
        (SyncState::Empty, SyncEvent::UploadRequested) => (
            SyncState::Ready,
            SyncAction::WriteBuffer,
        ),
        (SyncState::Empty, SyncEvent::ScanRequested) => (SyncState::Ready, SyncAction::SubmitScan),
        (SyncState::Empty, SyncEvent::ReadbackRequested) => (
            SyncState::Empty,
            SyncAction::Fail(ScanError::MappingFailure),
        ),
        (SyncState::Ready, SyncEvent::UploadRequested) => (
            SyncState::Ready,
            SyncAction::WriteBuffer,
        ),
        (SyncState::Ready, SyncEvent::ScanRequested) => (SyncState::Ready, SyncAction::SubmitScan),
        (SyncState::Ready, SyncEvent::ReadbackRequested) => (
            SyncState::Copying,
            SyncAction::SubmitCopy,
        ),
        (SyncState::Copying, SyncEvent::CopySubmitted) => (
            SyncState::MapRequested,
            SyncAction::RequestMap,
        ),
        (SyncState::MapRequested, SyncEvent::MapRequestIssued) => (
            SyncState::Polling,
            SyncAction::Poll,
        ),
        (SyncState::Polling, SyncEvent::PollFinished { ok }) => if ok {
            (SyncState::Receiving, SyncAction::Receive)
        } else {
            (SyncState::Failed, SyncAction::Fail(ScanError::DeviceError))
        },
        (SyncState::Receiving, SyncEvent::Notification { delivered, ok }) => if delivered && ok {
            (SyncState::Mapped, SyncAction::ReadMapped)
        } else if delivered {
            (SyncState::Failed, SyncAction::Fail(ScanError::MappingFailure))
        } else {
            (SyncState::Failed, SyncAction::Fail(ScanError::DeviceError))
        },
        (SyncState::Mapped, SyncEvent::RangeRead) => (SyncState::Unmapping, SyncAction::Unmap),
        (SyncState::Unmapping, SyncEvent::Unmapped) => (SyncState::Ready, SyncAction::Done),
        (_, _) => (state, SyncAction::Fail(ScanError::ConfigurationError)),
    }
}

/// The answer to an event that the current state does not expect: the state
/// stays, and the caller is told that it misused the protocol.
fn reject(state: SyncState) -> (r: (SyncState, SyncAction))
    ensures
        r == (state, SyncAction::Fail(ScanError::ConfigurationError)),
{
    (state, SyncAction::Fail(ScanError::ConfigurationError))
}

/// The answer to a failure of the device: the context is lost.
fn fail(error: ScanError) -> (r: (SyncState, SyncAction))
    ensures
        r == (SyncState::Failed, SyncAction::Fail(error)),
{
    (SyncState::Failed, SyncAction::Fail(error))
}

/// Advances the protocol by one event: the new state and the action to
/// perform.
pub fn step(state: SyncState, event: SyncEvent) -> (r: (SyncState, SyncAction))
    ensures
        r == next(state, event),
{
    match state {
        SyncState::Failed => fail(ScanError::DeviceError),
        SyncState::Empty => match event {
            SyncEvent::UploadRequested => (SyncState::Ready, SyncAction::WriteBuffer),
            SyncEvent::ScanRequested => (SyncState::Ready, SyncAction::SubmitScan),
            SyncEvent::ReadbackRequested => (
                SyncState::Empty,
                SyncAction::Fail(ScanError::MappingFailure),
            ),
            _ => reject(state),
        },
        SyncState::Ready => match event {
            SyncEvent::UploadRequested => (SyncState::Ready, SyncAction::WriteBuffer),
            SyncEvent::ScanRequested => (SyncState::Ready, SyncAction::SubmitScan),
            SyncEvent::ReadbackRequested => (SyncState::Copying, SyncAction::SubmitCopy),
            _ => reject(state),
        },
        SyncState::Copying => match event {
            SyncEvent::CopySubmitted => (SyncState::MapRequested, SyncAction::RequestMap),
            _ => reject(state),
        },
        SyncState::MapRequested => match event {
            SyncEvent::MapRequestIssued => (SyncState::Polling, SyncAction::Poll),
            _ => reject(state),
        },
        SyncState::Polling => match event {
            SyncEvent::PollFinished { ok: true } => (SyncState::Receiving, SyncAction::Receive),
            SyncEvent::PollFinished { ok: false } => fail(ScanError::DeviceError),
            _ => reject(state),
        },
        SyncState::Receiving => match event {
            SyncEvent::Notification { delivered: true, ok: true } => (
                SyncState::Mapped,
                SyncAction::ReadMapped,
            ),
            SyncEvent::Notification { delivered: true, ok: false } => fail(
                ScanError::MappingFailure,
            ),
            SyncEvent::Notification { delivered: false, ok: _ } => fail(ScanError::DeviceError),
            _ => reject(state),
        },
        SyncState::Mapped => match event {
            SyncEvent::RangeRead => (SyncState::Unmapping, SyncAction::Unmap),
            _ => reject(state),
        },
        SyncState::Unmapping => match event {
            SyncEvent::Unmapped => (SyncState::Ready, SyncAction::Done),
            _ => reject(state),
        },
    }
}

/// The state of a fresh context after a sequence of events.
pub open spec fn state_after(events: Seq<SyncEvent>) -> SyncState
    decreases events.len(),
{
    if events.len() == 0 {
        SyncState::Empty
    } else {
        next(state_after(events.drop_last()), events.last()).0
    }
}

/// The action that the last event of a non-empty sequence calls for.
pub open spec fn last_action(events: Seq<SyncEvent>) -> SyncAction
    recommends
        events.len() > 0,
{
    next(state_after(events.drop_last()), events.last()).1
}

/// The event put something into the data buffer: an upload or a scan.
pub open spec fn provides_data(event: SyncEvent) -> bool {
    event == SyncEvent::UploadRequested || event == SyncEvent::ScanRequested
}

/// A context leaves the empty state only by an upload or a submitted scan.
pub proof fn lemma_data_needs_source(events: Seq<SyncEvent>)
    requires
        state_after(events) != SyncState::Empty,
    ensures
        exists|i: int| 0 <= i < events.len() && provides_data(#[trigger] events[i]),
    decreases events.len(),
{
    if events.len() > 0 {
        let before = events.drop_last();
        if state_after(before) == SyncState::Empty {
            assert(provides_data(events[events.len() - 1]));
        } else {
            lemma_data_needs_source(before);
            let i = choose|i: int| 0 <= i < before.len() && provides_data(#[trigger] before[i]);
            assert(provides_data(events[i]));
        }
    }
}

/// No readback returns data that the caller never put there: whenever the
/// host is told to copy, map or read the result, an upload or a scan
/// occurred before; and a readback asked of a context without data fails
/// with a mapping failure and leaves the context as it was.
pub proof fn lemma_no_stale_read(events: Seq<SyncEvent>)
    requires
        events.len() > 0,
    ensures
        (last_action(events) == SyncAction::SubmitCopy || last_action(events)
            == SyncAction::RequestMap || last_action(events) == SyncAction::ReadMapped) ==> exists|
            i: int,
        |
            0 <= i < events.len() - 1 && provides_data(#[trigger] events[i]),
        state_after(events.drop_last()) == SyncState::Empty && events.last()
            == SyncEvent::ReadbackRequested ==> last_action(events) == SyncAction::Fail(
            ScanError::MappingFailure,
        ) && state_after(events) == SyncState::Empty,
{
    let before = events.drop_last();
    if last_action(events) == SyncAction::SubmitCopy || last_action(events)
        == SyncAction::RequestMap || last_action(events) == SyncAction::ReadMapped {
        assert(state_after(before) != SyncState::Empty);
        lemma_data_needs_source(before);
        let i = choose|i: int| 0 <= i < before.len() && provides_data(#[trigger] before[i]);
        assert(provides_data(events[i]));
    }
}

/// The host waits for the notification only after a poll succeeded.
pub proof fn lemma_receiving_needs_poll(events: Seq<SyncEvent>)
    requires
        state_after(events) == SyncState::Receiving,
    ensures
        exists|i: int| 0 <= i < events.len() && events[i] == (SyncEvent::PollFinished { ok: true }),
    decreases events.len(),
{
    if events.len() > 0 {
        let before = events.drop_last();
        if state_after(before) == SyncState::Receiving {
            lemma_receiving_needs_poll(before);
            let i = choose|i: int|
                0 <= i < before.len() && before[i] == (SyncEvent::PollFinished { ok: true });
            assert(events[i] == (SyncEvent::PollFinished { ok: true }));
        } else {
            assert(events[events.len() - 1] == (SyncEvent::PollFinished { ok: true }));
        }
    }
}

/// The mapped range is read only when the notification reports success,
/// and only after a poll succeeded.
pub proof fn lemma_read_after_handshake(events: Seq<SyncEvent>)
    requires
        events.len() > 0,
        last_action(events) == SyncAction::ReadMapped,
    ensures
        events[events.len() - 1] == (SyncEvent::Notification { delivered: true, ok: true }),
        exists|i: int|
            0 <= i < events.len() - 1 && events[i] == (SyncEvent::PollFinished { ok: true }),
{
    let before = events.drop_last();
    assert(state_after(before) == SyncState::Receiving);
    lemma_receiving_needs_poll(before);
    let i = choose|i: int|
        0 <= i < before.len() && before[i] == (SyncEvent::PollFinished { ok: true });
    assert(events[i] == (SyncEvent::PollFinished { ok: true }));
}

/// While a readback is in flight the host is never told to write to the
/// data buffer or to submit a scan.
pub proof fn lemma_no_write_during_readback(state: SyncState, event: SyncEvent)
    requires
        readback_in_flight(state),
    ensures
        next(state, event).1 != SyncAction::WriteBuffer,
        next(state, event).1 != SyncAction::SubmitScan,
{
}

/// A failed context stays failed.
pub proof fn lemma_failure_is_final(event: SyncEvent)
    ensures
        next(SyncState::Failed, event) == (
            SyncState::Failed,
            SyncAction::Fail(ScanError::DeviceError),
        ),
{
}

} // verus!

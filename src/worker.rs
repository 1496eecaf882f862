//! What a stream worker does after each thing that happens on its connection.
use vstd::prelude::*;

use crate::error::{BncError, BncResult};

verus! {

/// Something a worker met while reading its stream.
#[derive(Debug)]
pub enum WorkerEvent {
    /// A keep-alive or other control frame, with no payload.
    ControlFrame,
    /// A payload frame that did not decode into an update.
    Undecodable,
    /// An update was decoded and handed to the shared balancer, with this outcome.
    Sent(BncResult<()>),
    /// The connection failed or ended.
    ConnectionLost,
}

/// Whether the worker keeps reading.
#[derive(Debug, Clone, Copy, PartialEq, Eq, Structural)]
pub enum WorkerAction {
    Continue,
    Stop,
}

/// A worker stops when its connection is lost or its consumer is gone; it
/// skips control frames, undecodable payloads and rejected updates.
pub open spec fn stops_on(event: WorkerEvent) -> bool {
    match event {
        WorkerEvent::ConnectionLost => true,
        WorkerEvent::Sent(Err(BncError::DataTransmitError)) => true,
        _ => false,
    }
}

/// The worker's decision after `event`.
pub fn next_action(event: &WorkerEvent) -> (r: WorkerAction)
    ensures
        r == (if stops_on(*event) {
            WorkerAction::Stop
        } else {
            WorkerAction::Continue
        }),
{
    match event {
        WorkerEvent::ConnectionLost => WorkerAction::Stop,
        WorkerEvent::Sent(Err(BncError::DataTransmitError)) => WorkerAction::Stop,
        _ => WorkerAction::Continue,
    }
}

} // verus!

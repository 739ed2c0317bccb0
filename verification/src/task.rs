//! Decision logic of the task-serialization loop.
//!
//! A bounded channel of capacity one carries structures from independent
//! callers to the single background loop that owns the session.  The loop
//! takes one event at a time — the next queued structure, or the channel's
//! closure — and this module decides what goes onto the wire for each.
//! Because the loop only takes a new event while the driver machine is in
//! `ClientReady`, and [`crate::ipi::lemma_compute_turns_serialized`] shows
//! that phase cannot be re-entered before the in-flight turn's `ForceReady`
//! arrives, at most one structure is ever in flight.

use vstd::prelude::*;

use crate::ipi::{spec_driver_next, DriverEventV, DriverMachine, DriverPhase};
use crate::{DriverMessage, Structure};

verus! {

/// One event taken from the task channel.
#[derive(Debug, Clone, PartialEq)]
pub enum TaskEvent {
    /// A caller submitted this structure for computation.
    Job(Structure),
    /// The channel is closed: no caller will ever submit again.
    Closed,
}

/// What the serve loop does for one task event.
#[derive(Debug, Clone, PartialEq)]
pub enum ServeStep {
    /// Send both messages, in order, then await the `HaveData` status
    /// reply: a compute turn has begun.
    BeginCompute(DriverMessage, DriverMessage),
    /// Send the exit message, best-effort, and stop the loop.
    Finish(DriverMessage),
}

/// Decide the serve loop's reaction to one task event.  A queued structure
/// opens a compute turn; closure of the queue shuts the session down.
pub fn serve_next(m: &mut DriverMachine, ev: TaskEvent) -> (r: ServeStep)
    requires
        old(m).phase == DriverPhase::ClientReady,
        ev matches TaskEvent::Job(s) ==> s@.wf(),
    ensures
        match ev {
            TaskEvent::Job(s) => r == ServeStep::BeginCompute(
                DriverMessage::PosData(s),
                DriverMessage::Status,
            ) && final(m).phase == spec_driver_next(old(m).phase, DriverEventV::StartCompute)
                && final(m).phase == DriverPhase::AwaitingHaveData,
            TaskEvent::Closed => r == ServeStep::Finish(DriverMessage::Exit) && final(m).phase
                == DriverPhase::Terminated,
        },
{
    match ev {
        TaskEvent::Job(s) => {
            let (pos, status) = m.start_compute(s);
            ServeStep::BeginCompute(pos, status)
        },
        TaskEvent::Closed => ServeStep::Finish(m.shutdown()),
    }
}

} // verus!

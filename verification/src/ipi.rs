//! Driver-side protocol state machine and session turn primitives.
//!
//! The driver's communication is strictly turn-based: each turn sends one
//! message and, where a reply is due, awaits exactly one.  The machine here
//! holds the decision logic of those turns — which message to send next,
//! which replies are legal, and when a compute turn is complete.  The
//! surrounding process performs the sends and receives and feeds every
//! reply back into the machine.

use vstd::prelude::*;

use crate::{
    ClientMessage, ClientMessageV, ClientStatus, Computed, DriverMessage, InitData, IpiError,
    Structure,
};

verus! {

/// Classify a reply that is expected to be a status report.  Any other
/// message kind is a protocol violation.
pub fn expect_status_reply(m: ClientMessage) -> (r: Result<ClientStatus, IpiError>)
    ensures
        match m {
            ClientMessage::Status(s) => r == Ok::<ClientStatus, IpiError>(s),
            ClientMessage::ForceReady(_) => r == Err::<ClientStatus, IpiError>(
                IpiError::UnexpectedClientState,
            ),
        },
{
    match m {
        ClientMessage::Status(s) => Ok(s),
        ClientMessage::ForceReady(_) => Err(IpiError::UnexpectedClientState),
    }
}

/// Classify a reply that is expected to carry computed results.  Any other
/// message kind is a protocol violation.
pub fn expect_force_ready(m: ClientMessage) -> (r: Result<Computed, IpiError>)
    ensures
        match m {
            ClientMessage::ForceReady(c) => r == Ok::<Computed, IpiError>(c),
            ClientMessage::Status(_) => r == Err::<Computed, IpiError>(
                IpiError::UnexpectedClientState,
            ),
        },
{
    match m {
        ClientMessage::ForceReady(c) => Ok(c),
        ClientMessage::Status(_) => Err(IpiError::UnexpectedClientState),
    }
}

/// The initialization message the driver answers `NeedInit` with: bead 0
/// and an empty initialization payload.
pub fn init_message() -> (m: DriverMessage)
    ensures
        m matches DriverMessage::Init(d) && d@.wf() && d.ibead == 0 && d.nbytes == 0
            && d.init@ =~= Seq::<u8>::empty(),
        m@.wf(),
{
    DriverMessage::Init(InitData::new(0, Vec::new()))
}

/// The phase of one driver-side session.
#[derive(Debug, Clone, Copy, PartialEq, Eq, Structural)]
pub enum DriverPhase {
    /// Status handshake in progress: the driver queries status until the
    /// client reports `Ready`.
    AwaitingClientReady,
    /// Handshake done, no compute turn in flight: the client can accept one
    /// structure.
    ClientReady,
    /// A structure and a status query are on the wire; awaiting `HaveData`.
    AwaitingHaveData,
    /// `GetForce` is on the wire; awaiting `ForceReady`.
    AwaitingForceReady,
    /// `Exit` was sent; the session is over.
    Terminated,
    /// A protocol violation ended the session.
    Failed,
}

/// The events the driver machine reacts to: replies read from the client,
/// and the caller's own commands.
pub ghost enum DriverEventV {
    HandshakeReply(ClientStatus),
    StartCompute,
    HaveDataReply(ClientStatus),
    ForceReply(ClientMessageV),
    Shutdown,
}

/// The transition function of the driver machine.  An event arriving in a
/// phase that does not expect it leaves the phase unchanged; the
/// executable methods rule such events out by precondition.
pub open spec fn spec_driver_next(p: DriverPhase, ev: DriverEventV) -> DriverPhase {
    match ev {
        DriverEventV::HandshakeReply(s) => if p == DriverPhase::AwaitingClientReady {
            if s == ClientStatus::NeedInit {
                DriverPhase::AwaitingClientReady
            } else if s == ClientStatus::Ready {
                DriverPhase::ClientReady
            } else {
                DriverPhase::Failed
            }
        } else {
            p
        },
        DriverEventV::StartCompute => if p == DriverPhase::ClientReady {
            DriverPhase::AwaitingHaveData
        } else {
            p
        },
        DriverEventV::HaveDataReply(s) => if p == DriverPhase::AwaitingHaveData {
            if s == ClientStatus::HaveData {
                DriverPhase::AwaitingForceReady
            } else {
                DriverPhase::Failed
            }
        } else {
            p
        },
        DriverEventV::ForceReply(m) => if p == DriverPhase::AwaitingForceReady {
            match m {
                ClientMessageV::ForceReady(_) => DriverPhase::ClientReady,
                ClientMessageV::Status(_) => DriverPhase::Failed,
            }
        } else {
            p
        },
        DriverEventV::Shutdown => DriverPhase::Terminated,
    }
}

/// What the driver does next after a handshake status reply.
#[derive(Debug, Clone, Copy, PartialEq, Eq, Structural)]
pub enum HandshakeStep {
    /// Send `Init`, then query status again.
    SendInit,
    /// The client is ready; the handshake is over.
    Done,
}

/// The driver-side state machine of one session.
#[derive(Debug, Clone, Copy, PartialEq, Eq, Structural)]
pub struct DriverMachine {
    pub phase: DriverPhase,
}

impl DriverMachine {
    /// A fresh session: the status handshake is still ahead.
    pub fn new() -> (m: DriverMachine)
        ensures
            m.phase == DriverPhase::AwaitingClientReady,
    {
        DriverMachine { phase: DriverPhase::AwaitingClientReady }
    }

    /// The message that opens, or continues, the status handshake.
    pub fn status_query(&self) -> (m: DriverMessage)
        requires
            self.phase == DriverPhase::AwaitingClientReady,
        ensures
            m == DriverMessage::Status,
            m@.wf(),
    {
        DriverMessage::Status
    }

    /// Consume the client's status reply during the handshake.
    ///
    /// `NeedInit` asks the driver to send [`init_message`] and query status
    /// again; `Ready` completes the handshake; any other reply is a fatal
    /// protocol violation.
    pub fn on_handshake_reply(&mut self, s: ClientStatus) -> (r: Result<HandshakeStep, IpiError>)
        requires
            old(self).phase == DriverPhase::AwaitingClientReady,
        ensures
            final(self).phase == spec_driver_next(
                old(self).phase,
                DriverEventV::HandshakeReply(s),
            ),
            s == ClientStatus::NeedInit ==> r == Ok::<HandshakeStep, IpiError>(
                HandshakeStep::SendInit,
            ),
            s == ClientStatus::Ready ==> r == Ok::<HandshakeStep, IpiError>(HandshakeStep::Done),
            s != ClientStatus::NeedInit && s != ClientStatus::Ready ==> r == Err::<
                HandshakeStep,
                IpiError,
            >(IpiError::UnexpectedClientState),
    {
        match s {
            ClientStatus::NeedInit => Ok(HandshakeStep::SendInit),
            ClientStatus::Ready => {
                self.phase = DriverPhase::ClientReady;
                Ok(HandshakeStep::Done)
            },
            _ => {
                self.phase = DriverPhase::Failed;
                Err(IpiError::UnexpectedClientState)
            },
        }
    }

    /// Begin one compute turn: hand the structure to the client and query
    /// its status.  Returns the two messages to send, in order.
    pub fn start_compute(&mut self, s: Structure) -> (r: (DriverMessage, DriverMessage))
        requires
            old(self).phase == DriverPhase::ClientReady,
            s@.wf(),
        ensures
            final(self).phase == spec_driver_next(old(self).phase, DriverEventV::StartCompute),
            r.0 == DriverMessage::PosData(s),
            r.1 == DriverMessage::Status,
            r.0@.wf(),
            r.1@.wf(),
    {
        self.phase = DriverPhase::AwaitingHaveData;
        (DriverMessage::PosData(s), DriverMessage::Status)
    }

    /// Consume the status reply of a compute turn.  Only `HaveData` is
    /// legal; it is answered by sending the returned `GetForce` message.
    pub fn on_havedata_reply(&mut self, s: ClientStatus) -> (r: Result<DriverMessage, IpiError>)
        requires
            old(self).phase == DriverPhase::AwaitingHaveData,
        ensures
            final(self).phase == spec_driver_next(
                old(self).phase,
                DriverEventV::HaveDataReply(s),
            ),
            s == ClientStatus::HaveData ==> r == Ok::<DriverMessage, IpiError>(
                DriverMessage::GetForce,
            ),
            s != ClientStatus::HaveData ==> r == Err::<DriverMessage, IpiError>(
                IpiError::UnexpectedClientState,
            ),
    {
        match s {
            ClientStatus::HaveData => {
                self.phase = DriverPhase::AwaitingForceReady;
                Ok(DriverMessage::GetForce)
            },
            _ => {
                self.phase = DriverPhase::Failed;
                Err(IpiError::UnexpectedClientState)
            },
        }
    }

    /// Consume the reply to `GetForce`.  A `ForceReady` message completes
    /// the turn and yields the computed result; a status reply here is a
    /// fatal protocol violation.
    pub fn on_force_reply(&mut self, m: ClientMessage) -> (r: Result<Computed, IpiError>)
        requires
            old(self).phase == DriverPhase::AwaitingForceReady,
        ensures
            final(self).phase == spec_driver_next(old(self).phase, DriverEventV::ForceReply(m@)),
            m matches ClientMessage::ForceReady(c) ==> r == Ok::<Computed, IpiError>(c),
            m matches ClientMessage::Status(_) ==> r == Err::<Computed, IpiError>(
                IpiError::UnexpectedClientState,
            ),
    {
        match m {
            ClientMessage::ForceReady(c) => {
                self.phase = DriverPhase::ClientReady;
                Ok(c)
            },
            ClientMessage::Status(_) => {
                self.phase = DriverPhase::Failed;
                Err(IpiError::UnexpectedClientState)
            },
        }
    }

    /// Best-effort shutdown: the returned `Exit` message is sent without
    /// awaiting a reply.  Callable in every phase and any number of times;
    /// the session is terminated afterwards either way.
    pub fn shutdown(&mut self) -> (m: DriverMessage)
        ensures
            final(self).phase == spec_driver_next(old(self).phase, DriverEventV::Shutdown),
            final(self).phase == DriverPhase::Terminated,
            m == DriverMessage::Exit,
            m@.wf(),
    {
        self.phase = DriverPhase::Terminated;
        DriverMessage::Exit
    }
}

/// Replay the status handshake from a fresh session over a sequence of
/// status replies, stopping at the first phase that is no longer
/// negotiating.
pub open spec fn spec_handshake_run(replies: Seq<ClientStatus>) -> DriverPhase
    decreases replies.len(),
{
    if replies.len() == 0 {
        DriverPhase::AwaitingClientReady
    } else {
        let p = spec_handshake_run(replies.drop_last());
        if p == DriverPhase::AwaitingClientReady {
            spec_driver_next(p, DriverEventV::HandshakeReply(replies.last()))
        } else {
            p
        }
    }
}

/// Handshake liveness: a client that answers `NeedInit` to the first status
/// query — whereupon the driver sends `Init` — and `Ready` to the second
/// brings the driver to `ClientReady` in exactly two status round trips;
/// after the first reply alone it is still negotiating.
pub proof fn lemma_handshake_two_rounds()
    ensures
        spec_handshake_run(seq![ClientStatus::NeedInit]) == DriverPhase::AwaitingClientReady,
        spec_handshake_run(seq![ClientStatus::NeedInit, ClientStatus::Ready])
            == DriverPhase::ClientReady,
{
    let r1 = seq![ClientStatus::NeedInit];
    let r2 = seq![ClientStatus::NeedInit, ClientStatus::Ready];
    assert(r1.drop_last() =~= Seq::<ClientStatus>::empty());
    assert(r2.drop_last() =~= r1);
    assert(spec_handshake_run(Seq::<ClientStatus>::empty()) == DriverPhase::AwaitingClientReady);
}

/// Handshake liveness, generally: however many times the client reports
/// `NeedInit`, the driver keeps negotiating, and the first `Ready` reply
/// completes the handshake.
pub proof fn lemma_handshake_completes(k: nat)
    ensures
        spec_handshake_run(Seq::new(k, |i: int| ClientStatus::NeedInit))
            == DriverPhase::AwaitingClientReady,
        spec_handshake_run(Seq::new(k, |i: int| ClientStatus::NeedInit).push(ClientStatus::Ready))
            == DriverPhase::ClientReady,
    decreases k,
{
    let needs = Seq::new(k, |i: int| ClientStatus::NeedInit);
    if k == 0 {
        assert(needs =~= Seq::<ClientStatus>::empty());
    } else {
        assert(needs.drop_last() =~= Seq::new((k - 1) as nat, |i: int| ClientStatus::NeedInit));
        lemma_handshake_completes((k - 1) as nat);
    }
    assert(needs.push(ClientStatus::Ready).drop_last() =~= needs);
}

/// Whether a compute turn is in flight: a structure has been handed to the
/// client and its result has not yet arrived.
pub open spec fn compute_in_flight(p: DriverPhase) -> bool {
    p == DriverPhase::AwaitingHaveData || p == DriverPhase::AwaitingForceReady
}

/// Mutual exclusion of compute turns.  While one structure's exchange is in
/// flight, `StartCompute` is disabled, and the only event that returns the
/// machine to `ClientReady` — the sole phase where a compute turn may begin
/// — is the completing `ForceReady` reply.  A second submission's wire
/// exchange therefore starts only after the first's result was delivered.
pub proof fn lemma_compute_turns_serialized(p: DriverPhase, ev: DriverEventV)
    requires
        compute_in_flight(p),
    ensures
        spec_driver_next(p, DriverEventV::StartCompute) == p,
        spec_driver_next(p, ev) == DriverPhase::ClientReady ==> ({
            &&& p == DriverPhase::AwaitingForceReady
            &&& ev matches DriverEventV::ForceReply(m)
            &&& m is ForceReady
        }),
{
}

/// Whether an event completes the in-flight compute turn: the `ForceReady`
/// reply carrying the result.
pub open spec fn is_completing(ev: DriverEventV) -> bool {
    ev matches DriverEventV::ForceReply(m) && m is ForceReady
}

/// A compute turn is in flight, or the session has ended for good.
pub open spec fn in_flight_or_ended(p: DriverPhase) -> bool {
    compute_in_flight(p) || p == DriverPhase::Failed || p == DriverPhase::Terminated
}

/// Run the driver machine over a whole sequence of events.
pub open spec fn spec_driver_run(p: DriverPhase, evs: Seq<DriverEventV>) -> DriverPhase
    decreases evs.len(),
{
    if evs.len() == 0 {
        p
    } else {
        spec_driver_next(spec_driver_run(p, evs.drop_last()), evs.last())
    }
}

/// Mutual exclusion over whole traces: from the moment a compute turn is in
/// flight, no sequence of events that lacks the completing `ForceReady`
/// reply can bring the machine back to `ClientReady`.  Since `ClientReady`
/// is the only phase in which a compute turn may begin, the second
/// submission's wire exchange starts only after the first's result has been
/// delivered, never interleaved with it.
pub proof fn lemma_trace_serializes_computes(p: DriverPhase, evs: Seq<DriverEventV>)
    requires
        in_flight_or_ended(p),
        forall|k: int| 0 <= k < evs.len() ==> !is_completing(#[trigger] evs[k]),
    ensures
        in_flight_or_ended(spec_driver_run(p, evs)),
        spec_driver_run(p, evs) != DriverPhase::ClientReady,
    decreases evs.len(),
{
    if evs.len() > 0 {
        lemma_trace_serializes_computes(p, evs.drop_last());
    }
}

} // verus!

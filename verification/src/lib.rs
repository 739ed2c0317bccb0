//! Protocol engine for the i-PI inter-process communication protocol.
//!
//! A "driver" (the side holding atomic structures to evaluate) delegates
//! potential-energy and force computations to an external "client" program
//! over a stream-oriented connection.  This crate holds the verified core of
//! that protocol: the binary message codec, the status-negotiation state
//! machines of both roles, and the decision logic of the task-serialization
//! layer.  The surrounding process (sockets, the async event loop, the
//! compute engine itself) lives outside the library and drives these parts.
//!
//! All physical quantities cross the wire as fixed-width IEEE-754 doubles.
//! Inside the library each such number is carried as its 64-bit bit pattern
//! (`u64`), which keeps the codec bit-exact; the boundary code converts with
//! `f64::to_bits` / `f64::from_bits`.

use vstd::prelude::*;

pub mod client;
pub mod codec;
pub mod ipi;
pub mod socket;
pub mod task;

verus! {

/// Largest count or byte length a wire `int32` field can carry.
pub const MAX_COUNT: usize = 0x7fff_ffff;

/// The status of the client, as reported in reply to a `Status` request.
#[derive(Debug, Clone, Copy, PartialEq, Eq, Structural)]
pub enum ClientStatus {
    /// The client is ready to receive forcefield parameters.
    NeedInit,
    /// The client is ready to receive position and cell data.
    Ready,
    /// The client is ready to send force data.
    HaveData,
    /// The client is running.
    Up,
    /// The client has disconnected.
    Disconnected,
    /// The connection has timed out.
    TimeOut,
}

impl ClientStatus {
    /// Whether this status has a wire representation.  `Up`, `Disconnected`
    /// and `TimeOut` are liveness states reserved for transport-level failure
    /// reporting; the protocol never puts them on the wire.
    pub open spec fn is_wire(self) -> bool {
        self == ClientStatus::NeedInit || self == ClientStatus::Ready
            || self == ClientStatus::HaveData
    }
}

/// Errors of the protocol core.
#[derive(Debug, Clone, Copy, PartialEq, Eq, Structural)]
pub enum IpiError {
    /// The codec could not decode a complete, well-formed message.
    MalformedFrame,
    /// A reply arrived out of the turn order the state machine requires.
    UnexpectedClientState,
    /// The client received `GetForce` with no structure pending.
    NoStructurePending,
    /// A delegated structure's atom count differs from the session's
    /// reference structure.
    AtomCountMismatch { expected: usize, got: usize },
    /// The delegated compute call failed.
    ComputeEngineError,
    /// Transport connect failure.
    ConnectError,
    /// Transport bind failure.
    BindError,
}

/// Per-axis freeze flags of one atom.
#[derive(Debug, Clone, Copy, PartialEq, Eq, Structural)]
pub struct FreezeFlags {
    pub x: bool,
    pub y: bool,
    pub z: bool,
}

/// One atom of a structure: chemical symbol, position, optional freeze flags.
/// Positions are IEEE-754 bit patterns.
#[derive(Debug, Clone, PartialEq)]
pub struct Atom {
    pub symbol: Vec<u8>,
    pub px: u64,
    pub py: u64,
    pub pz: u64,
    pub frozen: Option<FreezeFlags>,
}

/// Mathematical model of an [`Atom`].
#[verifier::ext_equal]
pub ghost struct AtomV {
    pub symbol: Seq<u8>,
    pub px: u64,
    pub py: u64,
    pub pz: u64,
    pub frozen: Option<FreezeFlags>,
}

impl View for Atom {
    type V = AtomV;

    open spec fn view(&self) -> AtomV {
        AtomV {
            symbol: self.symbol@,
            px: self.px,
            py: self.py,
            pz: self.pz,
            frozen: self.frozen,
        }
    }
}

/// A 3×3 lattice: nine cell-vector components (row-major) and the nine
/// components of the inverse cell, each an IEEE-754 bit pattern.
#[derive(Debug, Clone, PartialEq)]
pub struct Lattice {
    pub vectors: Vec<u64>,
    pub inverse: Vec<u64>,
}

/// Mathematical model of a [`Lattice`].
#[verifier::ext_equal]
pub ghost struct LatticeV {
    pub vectors: Seq<u64>,
    pub inverse: Seq<u64>,
}

impl View for Lattice {
    type V = LatticeV;

    open spec fn view(&self) -> LatticeV {
        LatticeV { vectors: self.vectors@, inverse: self.inverse@ }
    }
}

impl LatticeV {
    pub open spec fn wf(self) -> bool {
        self.vectors.len() == 9 && self.inverse.len() == 9
    }
}

/// An atomic configuration: an ordered sequence of atoms and an optional
/// lattice.  A structure without a lattice goes onto the wire with
/// zero-filled cell vectors.
#[derive(Debug, Clone, PartialEq)]
pub struct Structure {
    pub atoms: Vec<Atom>,
    pub lattice: Option<Lattice>,
}

/// Mathematical model of a [`Structure`].
#[verifier::ext_equal]
pub ghost struct StructureV {
    pub atoms: Seq<AtomV>,
    pub lattice: Option<LatticeV>,
}

impl View for Structure {
    type V = StructureV;

    open spec fn view(&self) -> StructureV {
        StructureV {
            atoms: Seq::new(self.atoms@.len(), |i: int| self.atoms@[i]@),
            lattice: match self.lattice {
                Some(l) => Some(l@),
                None => None,
            },
        }
    }
}

impl StructureV {
    pub open spec fn wf(self) -> bool {
        &&& self.atoms.len() <= MAX_COUNT
        &&& match self.lattice {
            Some(l) => l.wf(),
            None => true,
        }
    }

    /// The shape a structure has after decoding from the wire: the `POSDATA`
    /// payload carries positions and cell only, so symbols come back empty,
    /// freeze flags absent, and a lattice is always present.
    pub open spec fn wire_canonical(self) -> bool {
        &&& self.lattice is Some
        &&& forall|i: int|
            0 <= i < self.atoms.len() ==> (#[trigger] self.atoms[i]).symbol =~= Seq::<u8>::empty()
                && self.atoms[i].frozen is None
    }
}

impl Structure {
    /// The number of atoms.
    pub fn natoms(&self) -> (n: usize)
        ensures
            n == self@.atoms.len(),
    {
        self.atoms.len()
    }
}

/// Initialization data sent with the `Init` message: bead index, byte length
/// of the initialization payload, and the payload itself.
#[derive(Debug, Clone, PartialEq)]
pub struct InitData {
    pub ibead: usize,
    pub nbytes: usize,
    pub init: Vec<u8>,
}

/// Mathematical model of an [`InitData`].
#[verifier::ext_equal]
pub ghost struct InitDataV {
    pub ibead: int,
    pub nbytes: int,
    pub init: Seq<u8>,
}

impl View for InitData {
    type V = InitDataV;

    open spec fn view(&self) -> InitDataV {
        InitDataV { ibead: self.ibead as int, nbytes: self.nbytes as int, init: self.init@ }
    }
}

impl InitDataV {
    pub open spec fn wf(self) -> bool {
        &&& 0 <= self.ibead <= MAX_COUNT
        &&& self.nbytes == self.init.len()
        &&& self.init.len() <= MAX_COUNT
    }
}

impl InitData {
    /// Build initialization data; `nbytes` records the payload's byte length.
    pub fn new(ibead: usize, init: Vec<u8>) -> (d: InitData)
        requires
            ibead <= MAX_COUNT,
            init@.len() <= MAX_COUNT,
        ensures
            d@.wf(),
            d.ibead == ibead,
            d.init@ == init@,
            d.nbytes == init@.len(),
    {
        let nbytes = init.len();
        InitData { ibead, nbytes, init }
    }
}

/// Result of one evaluation: potential energy, one 3-vector of force per
/// atom (flattened, row-major), a 3×3 virial tensor (flattened to nine
/// components, zero-filled when the engine reports no stress), and an opaque
/// "extra" payload.  All scalars are IEEE-754 bit patterns.
#[derive(Debug, Clone, PartialEq)]
pub struct Computed {
    pub energy: u64,
    pub forces: Vec<u64>,
    pub virial: Vec<u64>,
    pub extra: Vec<u8>,
}

/// Mathematical model of a [`Computed`].
#[verifier::ext_equal]
pub ghost struct ComputedV {
    pub energy: u64,
    pub forces: Seq<u64>,
    pub virial: Seq<u64>,
    pub extra: Seq<u8>,
}

impl View for Computed {
    type V = ComputedV;

    open spec fn view(&self) -> ComputedV {
        ComputedV {
            energy: self.energy,
            forces: self.forces@,
            virial: self.virial@,
            extra: self.extra@,
        }
    }
}

impl ComputedV {
    pub open spec fn natoms(self) -> int {
        self.forces.len() as int / 3
    }

    pub open spec fn wf(self) -> bool {
        &&& self.forces.len() % 3 == 0
        &&& self.natoms() <= MAX_COUNT
        &&& self.virial.len() == 9
        &&& self.extra.len() <= MAX_COUNT
    }
}

/// A message sent by the driver (the i-PI server side).
#[derive(Debug, Clone, PartialEq)]
pub enum DriverMessage {
    /// Request the status of the client code.
    Status,
    /// Send the client code the initialization data.
    Init(InitData),
    /// Send the client code the cell and cartesian positions.
    PosData(Structure),
    /// Ask for the potential and forces computed by the client code.
    GetForce,
    /// Request to exit.
    Exit,
}

/// Mathematical model of a [`DriverMessage`].
#[verifier::ext_equal]
pub ghost enum DriverMessageV {
    Status,
    Init(InitDataV),
    PosData(StructureV),
    GetForce,
    Exit,
}

impl View for DriverMessage {
    type V = DriverMessageV;

    open spec fn view(&self) -> DriverMessageV {
        match self {
            DriverMessage::Status => DriverMessageV::Status,
            DriverMessage::Init(d) => DriverMessageV::Init(d@),
            DriverMessage::PosData(s) => DriverMessageV::PosData(s@),
            DriverMessage::GetForce => DriverMessageV::GetForce,
            DriverMessage::Exit => DriverMessageV::Exit,
        }
    }
}

impl DriverMessageV {
    pub open spec fn wf(self) -> bool {
        match self {
            DriverMessageV::Init(d) => d.wf(),
            DriverMessageV::PosData(s) => s.wf(),
            _ => true,
        }
    }
}

/// A message sent by the client code (the computation engine's side).
#[derive(Debug, Clone, PartialEq)]
pub enum ClientMessage {
    /// The computed potential energy, forces and virial.
    ForceReady(Computed),
    /// The client's self-reported status.
    Status(ClientStatus),
}

/// Mathematical model of a [`ClientMessage`].
#[verifier::ext_equal]
pub ghost enum ClientMessageV {
    ForceReady(ComputedV),
    Status(ClientStatus),
}

impl View for ClientMessage {
    type V = ClientMessageV;

    open spec fn view(&self) -> ClientMessageV {
        match self {
            ClientMessage::ForceReady(c) => ClientMessageV::ForceReady(c@),
            ClientMessage::Status(s) => ClientMessageV::Status(*s),
        }
    }
}

impl ClientMessageV {
    /// Well-formed client messages carry a wire-representable status: the
    /// liveness statuses never appear on the wire.
    pub open spec fn wf(self) -> bool {
        match self {
            ClientMessageV::ForceReady(c) => c.wf(),
            ClientMessageV::Status(s) => s.is_wire(),
        }
    }
}

} // verus!

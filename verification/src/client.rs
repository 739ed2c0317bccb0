//! Client-side protocol state machine.
//!
//! The client wraps a compute engine and answers the driver's requests.  Its
//! local state is a boolean "initialized" flag and an optional pending
//! structure, both starting empty, plus the session's reference structure,
//! whose atom count every delegated structure must match.  The machine here
//! decides the reply to each driver message; the surrounding process reads
//! the messages, runs the engine, and sends the replies.

use vstd::prelude::*;
use vstd::assert_seqs_equal;

use crate::{
    Atom, AtomV, ClientMessage, ClientStatus, Computed, DriverMessage, IpiError, Lattice, Structure,
    StructureV, MAX_COUNT,
};

verus! {

/// What the client does in reaction to one driver message.
#[derive(Debug, Clone, PartialEq)]
pub enum ClientAction {
    /// Send this reply to the driver.
    Reply(ClientMessage),
    /// The message was consumed; nothing goes back onto the wire.
    NoReply,
    /// Run the compute engine on this structure, then reply `ForceReady`
    /// with the result.
    Compute(Structure),
    /// The driver asked to exit; stop the read loop normally.
    Shutdown,
}

/// The structure the engine is given: positions and cell from the pending
/// (wire-delivered) structure, symbols and freeze flags re-stamped from the
/// reference structure, since the wire does not transmit composition.
pub open spec fn spec_restamp(pending: StructureV, reference: StructureV) -> StructureV
    recommends
        pending.atoms.len() == reference.atoms.len(),
{
    StructureV {
        atoms: Seq::new(
            pending.atoms.len(),
            |i: int| AtomV {
                symbol: reference.atoms[i].symbol,
                px: pending.atoms[i].px,
                py: pending.atoms[i].py,
                pz: pending.atoms[i].pz,
                frozen: reference.atoms[i].frozen,
            },
        ),
        lattice: pending.lattice,
    }
}

/// Copy a byte vector.
fn copy_bytes(v: &Vec<u8>) -> (r: Vec<u8>)
    ensures
        r@ == v@,
{
    let n = v.len();
    let mut r: Vec<u8> = Vec::new();
    let mut i: usize = 0;
    while i < n
        invariant
            n == v@.len(),
            i <= n,
            r@ == v@.subrange(0, i as int),
        decreases n - i,
    {
        r.push(v[i]);
        proof {
            assert(r@ =~= v@.subrange(0, i as int + 1));
        }
        i = i + 1;
    }
    proof {
        assert(r@ =~= v@);
    }
    r
}

/// Build the structure handed to the engine; see [`spec_restamp`].
fn restamp(pending: &Structure, reference: &Structure) -> (r: Structure)
    requires
        pending@.atoms.len() == reference@.atoms.len(),
    ensures
        r@ == spec_restamp(pending@, reference@),
{
    let n = pending.atoms.len();
    let mut atoms: Vec<Atom> = Vec::new();
    let mut i: usize = 0;
    while i < n
        invariant
            n == pending@.atoms.len(),
            n == reference@.atoms.len(),
            i <= n,
            atoms@.len() == i,
            forall|j: int|
                0 <= j < i ==> #[trigger] atoms@[j]@ == spec_restamp(
                    pending@,
                    reference@,
                ).atoms[j],
        decreases n - i,
    {
        let p = &pending.atoms[i];
        let rf = &reference.atoms[i];
        let a = Atom {
            symbol: copy_bytes(&rf.symbol),
            px: p.px,
            py: p.py,
            pz: p.pz,
            frozen: rf.frozen,
        };
        proof {
            assert(a@ =~= spec_restamp(pending@, reference@).atoms[i as int]);
        }
        atoms.push(a);
        i = i + 1;
    }
    let r = Structure {
        atoms,
        lattice: match &pending.lattice {
            Some(l) => Some(
                Lattice {
                    vectors: vstd::slice::slice_to_vec(l.vectors.as_slice()),
                    inverse: vstd::slice::slice_to_vec(l.inverse.as_slice()),
                },
            ),
            None => None,
        },
    };
    proof {
        assert_seqs_equal!(r@.atoms == spec_restamp(pending@, reference@).atoms);
        assert(r@ =~= spec_restamp(pending@, reference@));
    }
    r
}

/// The client-side state machine of one session.
#[derive(Debug, Clone, PartialEq)]
pub struct ClientMachine {
    /// The session's own structure; delegated structures must match its
    /// atom count, and their atoms take its symbols.
    pub reference: Structure,
    /// Whether initialization data has arrived.
    pub initialized: bool,
    /// The structure delegated for computation, if one is outstanding.
    pub pending: Option<Structure>,
}

impl ClientMachine {
    pub open spec fn wf(self) -> bool {
        &&& self.reference@.wf()
        &&& match self.pending {
            Some(p) => p@.wf(),
            None => true,
        }
    }

    /// The status this client would report right now: `NeedInit` before
    /// initialization, `HaveData` while a structure is pending, `Ready`
    /// otherwise.
    pub open spec fn spec_status(self) -> ClientStatus {
        if !self.initialized {
            ClientStatus::NeedInit
        } else if self.pending is Some {
            ClientStatus::HaveData
        } else {
            ClientStatus::Ready
        }
    }

    /// A fresh client session around `reference`.
    pub fn new(reference: Structure) -> (m: ClientMachine)
        requires
            reference@.wf(),
        ensures
            m.wf(),
            m.reference == reference,
            m.initialized == false,
            m.pending is None,
    {
        ClientMachine { reference, initialized: false, pending: None }
    }

    /// The status report; see [`Self::spec_status`].
    pub fn status(&self) -> (s: ClientStatus)
        ensures
            s == self.spec_status(),
            s.is_wire(),
    {
        if !self.initialized {
            ClientStatus::NeedInit
        } else if self.pending.is_some() {
            ClientStatus::HaveData
        } else {
            ClientStatus::Ready
        }
    }

    /// React to one driver message.
    ///
    /// * `Status` is answered with the current status report.
    /// * `Init` records initialization; its payload is carried to the
    ///   engine's domain and not interpreted here.
    /// * `PosData` stores the structure as pending, overwriting any earlier
    ///   one: only one may be outstanding.
    /// * `GetForce` requires a pending structure (`NoStructurePending`
    ///   otherwise) whose atom count equals the reference's
    ///   (`AtomCountMismatch` otherwise); it clears the pending slot and
    ///   hands the re-stamped structure out for computation.
    /// * `Exit` ends the session normally.
    pub fn on_driver_message(&mut self, m: DriverMessage) -> (r: Result<ClientAction, IpiError>)
        requires
            old(self).wf(),
            m@.wf(),
        ensures
            final(self).wf(),
            final(self).reference == old(self).reference,
            match m {
                DriverMessage::Status => r == Ok::<ClientAction, IpiError>(
                    ClientAction::Reply(ClientMessage::Status(old(self).spec_status())),
                ) && *final(self) == *old(self),
                DriverMessage::Init(_) => r == Ok::<ClientAction, IpiError>(ClientAction::NoReply)
                    && final(self).initialized == true && final(self).pending == old(
                    self,
                ).pending,
                DriverMessage::PosData(s) => r == Ok::<ClientAction, IpiError>(
                    ClientAction::NoReply,
                ) && final(self).pending == Some(s) && final(self).initialized == old(
                    self,
                ).initialized,
                DriverMessage::GetForce => match old(self).pending {
                    None => r == Err::<ClientAction, IpiError>(IpiError::NoStructurePending)
                        && *final(self) == *old(self),
                    Some(p) => if p@.atoms.len() != old(self).reference@.atoms.len() {
                        r == Err::<ClientAction, IpiError>(
                            IpiError::AtomCountMismatch {
                                expected: old(self).reference.atoms.len(),
                                got: p.atoms.len(),
                            },
                        ) && *final(self) == *old(self)
                    } else {
                        (r matches Ok(a) && a matches ClientAction::Compute(c) && c@
                            == spec_restamp(p@, old(self).reference@)) && final(self).pending
                            is None && final(self).initialized == old(self).initialized
                    },
                },
                DriverMessage::Exit => r == Ok::<ClientAction, IpiError>(ClientAction::Shutdown)
                    && *final(self) == *old(self),
            },
    {
        match m {
            DriverMessage::Status => Ok(ClientAction::Reply(ClientMessage::Status(self.status()))),
            DriverMessage::Init(_) => {
                self.initialized = true;
                Ok(ClientAction::NoReply)
            },
            DriverMessage::PosData(s) => {
                self.pending = Some(s);
                Ok(ClientAction::NoReply)
            },
            DriverMessage::GetForce => {
                match &self.pending {
                    None => Err(IpiError::NoStructurePending),
                    Some(p) => {
                        let expected = self.reference.atoms.len();
                        let got = p.atoms.len();
                        if got != expected {
                            Err(IpiError::AtomCountMismatch { expected, got })
                        } else {
                            let c = restamp(p, &self.reference);
                            self.pending = None;
                            Ok(ClientAction::Compute(c))
                        }
                    },
                }
            },
            DriverMessage::Exit => Ok(ClientAction::Shutdown),
        }
    }
}

/// Map a compute engine's result into a wire-ready [`Computed`]: the virial
/// is taken as given when the engine reports stress and zero-filled when it
/// does not.
pub fn computed_from_engine(
    energy: u64,
    forces: Vec<u64>,
    virial: Option<Vec<u64>>,
    extra: Vec<u8>,
) -> (c: Computed)
    requires
        forces@.len() % 3 == 0,
        forces@.len() / 3 <= MAX_COUNT,
        virial matches Some(v) ==> v@.len() == 9,
        extra@.len() <= MAX_COUNT,
    ensures
        c@.wf(),
        c.energy == energy,
        c.forces@ == forces@,
        c.extra@ == extra@,
        virial matches Some(v) ==> c.virial@ == v@,
        virial is None ==> c.virial@ =~= Seq::new(9, |i: int| 0u64),
{
    let virial = match virial {
        Some(v) => v,
        None => {
            let mut z: Vec<u64> = Vec::new();
            let mut i: usize = 0;
            while i < 9
                invariant
                    i <= 9,
                    z@.len() == i,
                    forall|j: int| 0 <= j < i ==> z@[j] == 0u64,
                decreases 9 - i,
            {
                z.push(0u64);
                i = i + 1;
            }
            z
        },
    };
    Computed { energy, forces, virial, extra }
}

} // verus!

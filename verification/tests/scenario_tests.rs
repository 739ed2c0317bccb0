//! End-to-end protocol scenario: a driver with a three-atom reference
//! structure and a client around a stubbed compute engine, talking through
//! real encoded bytes in both directions.

use ipi::client::{computed_from_engine, ClientAction, ClientMachine};
use ipi::codec::{decode_client, decode_driver, encode_client, encode_driver};
use ipi::ipi::{init_message, DriverMachine, DriverPhase, HandshakeStep};
use ipi::{Atom, ClientMessage, ClientStatus, Computed, DriverMessage, Lattice, Structure};

/// One in-memory direction of the connection.
struct Wire {
    bytes: Vec<u8>,
}

impl Wire {
    fn new() -> Wire {
        Wire { bytes: Vec::new() }
    }

    fn send_driver(&mut self, m: &DriverMessage) {
        self.bytes.extend_from_slice(&encode_driver(m));
    }

    fn send_client(&mut self, m: &ClientMessage) {
        self.bytes.extend_from_slice(&encode_client(m));
    }

    fn recv_driver(&mut self) -> Option<DriverMessage> {
        match decode_driver(&self.bytes).expect("well-formed stream") {
            Some((m, used)) => {
                self.bytes.drain(..used);
                Some(m)
            }
            None => None,
        }
    }

    fn recv_client(&mut self) -> Option<ClientMessage> {
        match decode_client(&self.bytes).expect("well-formed stream") {
            Some((m, used)) => {
                self.bytes.drain(..used);
                Some(m)
            }
            None => None,
        }
    }
}

fn three_atom_reference() -> Structure {
    let atoms = vec![
        Atom { symbol: b"O".to_vec(), px: 0.0f64.to_bits(), py: 0.0f64.to_bits(),
            pz: 0.0f64.to_bits(), frozen: None },
        Atom { symbol: b"H".to_vec(), px: 0.96f64.to_bits(), py: 0.0f64.to_bits(),
            pz: 0.0f64.to_bits(), frozen: None },
        Atom { symbol: b"H".to_vec(), px: (-0.24f64).to_bits(), py: 0.93f64.to_bits(),
            pz: 0.0f64.to_bits(), frozen: None },
    ];
    Structure { atoms, lattice: None }
}

fn delegated_structure() -> Structure {
    let atoms = (0..3)
        .map(|i| Atom {
            symbol: Vec::new(),
            px: (i as f64).to_bits(),
            py: (0.5 * i as f64).to_bits(),
            pz: 0.0f64.to_bits(),
            frozen: None,
        })
        .collect();
    let id = vec![
        1.0f64, 0.0, 0.0,
        0.0, 1.0, 0.0,
        0.0, 0.0, 1.0,
    ];
    let bits: Vec<u64> = id.iter().map(|v| v.to_bits()).collect();
    Structure { atoms, lattice: Some(Lattice { vectors: bits.clone(), inverse: bits }) }
}

/// The stubbed compute engine: energy −1.234, zero forces, no stress.
fn engine(s: &Structure) -> Computed {
    assert_eq!(s.atoms[0].symbol, b"O".to_vec());
    let forces = vec![0u64; 3 * s.atoms.len()];
    computed_from_engine((-1.234f64).to_bits(), forces, None, Vec::new())
}

/// Feed every driver frame on the wire to the client machine and send the
/// replies back, running the engine when asked.
fn client_pump(client: &mut ClientMachine, to_client: &mut Wire, to_driver: &mut Wire) {
    while let Some(msg) = to_client.recv_driver() {
        match client.on_driver_message(msg).expect("no protocol violation in this scenario") {
            ClientAction::Reply(r) => to_driver.send_client(&r),
            ClientAction::NoReply => {}
            ClientAction::Compute(s) => {
                let computed = engine(&s);
                to_driver.send_client(&ClientMessage::ForceReady(computed));
            }
            ClientAction::Shutdown => return,
        }
    }
}

#[test]
fn driver_and_client_complete_one_computation() {
    let mut to_client = Wire::new();
    let mut to_driver = Wire::new();

    let mut driver = DriverMachine::new();
    let mut client = ClientMachine::new(three_atom_reference());

    // Handshake, round 1: Status -> NeedInit -> Init.
    to_client.send_driver(&driver.status_query());
    client_pump(&mut client, &mut to_client, &mut to_driver);
    let reply = to_driver.recv_client().expect("status reply due");
    let status = match reply {
        ClientMessage::Status(s) => s,
        other => panic!("expected a status reply, got {other:?}"),
    };
    assert_eq!(status, ClientStatus::NeedInit);
    assert_eq!(driver.on_handshake_reply(status), Ok(HandshakeStep::SendInit));
    to_client.send_driver(&init_message());

    // Handshake, round 2: Status -> Ready.
    to_client.send_driver(&driver.status_query());
    client_pump(&mut client, &mut to_client, &mut to_driver);
    let status = match to_driver.recv_client().expect("status reply due") {
        ClientMessage::Status(s) => s,
        other => panic!("expected a status reply, got {other:?}"),
    };
    assert_eq!(status, ClientStatus::Ready);
    assert_eq!(driver.on_handshake_reply(status), Ok(HandshakeStep::Done));
    assert_eq!(driver.phase, DriverPhase::ClientReady);

    // One compute turn: PosData + Status -> HaveData -> GetForce -> ForceReady.
    let (pos, ask) = driver.start_compute(delegated_structure());
    to_client.send_driver(&pos);
    to_client.send_driver(&ask);
    client_pump(&mut client, &mut to_client, &mut to_driver);
    let status = match to_driver.recv_client().expect("status reply due") {
        ClientMessage::Status(s) => s,
        other => panic!("expected a status reply, got {other:?}"),
    };
    assert_eq!(status, ClientStatus::HaveData);
    let get_force = driver.on_havedata_reply(status).unwrap();
    to_client.send_driver(&get_force);
    client_pump(&mut client, &mut to_client, &mut to_driver);
    let reply = to_driver.recv_client().expect("force reply due");
    let computed = driver.on_force_reply(reply).unwrap();

    assert_eq!(f64::from_bits(computed.energy), -1.234);
    assert_eq!(computed.forces.len(), 9);
    assert!(computed.forces.iter().all(|f| f64::from_bits(*f) == 0.0));
    assert_eq!(computed.virial, vec![0u64; 9]);
    assert_eq!(driver.phase, DriverPhase::ClientReady);

    // Shutdown: best-effort Exit, no reply expected.
    let exit = driver.shutdown();
    to_client.send_driver(&exit);
    client_pump(&mut client, &mut to_client, &mut to_driver);
    assert!(to_driver.recv_client().is_none());
    assert_eq!(driver.phase, DriverPhase::Terminated);
}

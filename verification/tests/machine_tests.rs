use ipi::client::{computed_from_engine, ClientAction, ClientMachine};
use ipi::ipi::{expect_force_ready, expect_status_reply, init_message, DriverMachine,
    DriverPhase, HandshakeStep};
use ipi::socket::{guess_unix_socket_file, Socket, SocketAddress};
use ipi::task::{serve_next, ServeStep, TaskEvent};
use ipi::{Atom, ClientMessage, ClientStatus, Computed, DriverMessage, InitData, IpiError,
    Lattice, Structure};

fn atom(sym: &str, x: f64, y: f64, z: f64) -> Atom {
    Atom {
        symbol: sym.as_bytes().to_vec(),
        px: x.to_bits(),
        py: y.to_bits(),
        pz: z.to_bits(),
        frozen: None,
    }
}

fn reference(n: usize) -> Structure {
    let syms = ["H", "O", "C", "N", "Si"];
    let atoms = (0..n).map(|i| atom(syms[i % syms.len()], i as f64, 0.0, 0.0)).collect();
    Structure { atoms, lattice: None }
}

fn wire_structure(n: usize) -> Structure {
    let atoms = (0..n).map(|i| atom("", 0.5 * i as f64, 1.0, 2.0)).collect();
    let cell = vec![1.0f64.to_bits(); 9];
    let inv = vec![1.0f64.to_bits(); 9];
    Structure { atoms, lattice: Some(Lattice { vectors: cell, inverse: inv }) }
}

fn sample_computed() -> Computed {
    Computed {
        energy: (-1.5f64).to_bits(),
        forces: vec![0u64; 9],
        virial: vec![0u64; 9],
        extra: Vec::new(),
    }
}

#[test]
fn handshake_reaches_ready_in_two_rounds() {
    let mut m = DriverMachine::new();
    assert_eq!(m.phase, DriverPhase::AwaitingClientReady);
    assert_eq!(m.status_query(), DriverMessage::Status);

    // Round 1: the client is uninitialized, the driver must send Init.
    let step = m.on_handshake_reply(ClientStatus::NeedInit).unwrap();
    assert_eq!(step, HandshakeStep::SendInit);
    assert_eq!(m.phase, DriverPhase::AwaitingClientReady);

    // Round 2: after Init the client reports Ready.
    let step = m.on_handshake_reply(ClientStatus::Ready).unwrap();
    assert_eq!(step, HandshakeStep::Done);
    assert_eq!(m.phase, DriverPhase::ClientReady);
}

#[test]
fn handshake_rejects_out_of_order_reply() {
    let mut m = DriverMachine::new();
    let r = m.on_handshake_reply(ClientStatus::HaveData);
    assert_eq!(r, Err(IpiError::UnexpectedClientState));
    assert_eq!(m.phase, DriverPhase::Failed);
}

#[test]
fn compute_turn_message_order() {
    let mut m = DriverMachine::new();
    m.on_handshake_reply(ClientStatus::Ready).unwrap();

    let s = wire_structure(2);
    let (first, second) = m.start_compute(s.clone());
    assert_eq!(first, DriverMessage::PosData(s));
    assert_eq!(second, DriverMessage::Status);
    assert_eq!(m.phase, DriverPhase::AwaitingHaveData);

    let ask = m.on_havedata_reply(ClientStatus::HaveData).unwrap();
    assert_eq!(ask, DriverMessage::GetForce);
    assert_eq!(m.phase, DriverPhase::AwaitingForceReady);

    let c = sample_computed();
    let got = m.on_force_reply(ClientMessage::ForceReady(c.clone())).unwrap();
    assert_eq!(got, c);
    assert_eq!(m.phase, DriverPhase::ClientReady);
}

#[test]
fn compute_turn_rejects_wrong_status() {
    let mut m = DriverMachine::new();
    m.on_handshake_reply(ClientStatus::Ready).unwrap();
    m.start_compute(wire_structure(1));
    let r = m.on_havedata_reply(ClientStatus::Ready);
    assert_eq!(r, Err(IpiError::UnexpectedClientState));
    assert_eq!(m.phase, DriverPhase::Failed);
}

#[test]
fn force_reply_rejects_status_message() {
    let mut m = DriverMachine::new();
    m.on_handshake_reply(ClientStatus::Ready).unwrap();
    m.start_compute(wire_structure(1));
    m.on_havedata_reply(ClientStatus::HaveData).unwrap();
    let r = m.on_force_reply(ClientMessage::Status(ClientStatus::HaveData));
    assert_eq!(r, Err(IpiError::UnexpectedClientState));
    assert_eq!(m.phase, DriverPhase::Failed);
}

#[test]
fn shutdown_twice_is_harmless() {
    let mut m = DriverMachine::new();
    assert_eq!(m.shutdown(), DriverMessage::Exit);
    assert_eq!(m.phase, DriverPhase::Terminated);
    // A second best-effort shutdown neither panics nor changes anything.
    assert_eq!(m.shutdown(), DriverMessage::Exit);
    assert_eq!(m.phase, DriverPhase::Terminated);
}

#[test]
fn expect_status_reply_classifies() {
    assert_eq!(
        expect_status_reply(ClientMessage::Status(ClientStatus::Ready)),
        Ok(ClientStatus::Ready)
    );
    assert_eq!(
        expect_status_reply(ClientMessage::ForceReady(sample_computed())),
        Err(IpiError::UnexpectedClientState)
    );
}

#[test]
fn expect_force_ready_classifies() {
    let c = sample_computed();
    assert_eq!(expect_force_ready(ClientMessage::ForceReady(c.clone())), Ok(c));
    assert_eq!(
        expect_force_ready(ClientMessage::Status(ClientStatus::Ready)),
        Err(IpiError::UnexpectedClientState)
    );
}

#[test]
fn init_message_is_bead_zero_empty_payload() {
    match init_message() {
        DriverMessage::Init(d) => {
            assert_eq!(d.ibead, 0);
            assert_eq!(d.nbytes, 0);
            assert!(d.init.is_empty());
        }
        other => panic!("expected Init, got {other:?}"),
    }
}

#[test]
fn init_data_records_byte_length() {
    let d = InitData::new(2, b"abcde".to_vec());
    assert_eq!(d.ibead, 2);
    assert_eq!(d.nbytes, 5);
    assert_eq!(d.init, b"abcde".to_vec());
}

#[test]
fn client_status_progression() {
    let mut c = ClientMachine::new(reference(2));
    assert_eq!(c.status(), ClientStatus::NeedInit);

    let a = c.on_driver_message(DriverMessage::Status).unwrap();
    assert_eq!(a, ClientAction::Reply(ClientMessage::Status(ClientStatus::NeedInit)));

    let a = c.on_driver_message(init_message()).unwrap();
    assert_eq!(a, ClientAction::NoReply);
    assert_eq!(c.status(), ClientStatus::Ready);

    let a = c.on_driver_message(DriverMessage::PosData(wire_structure(2))).unwrap();
    assert_eq!(a, ClientAction::NoReply);
    assert_eq!(c.status(), ClientStatus::HaveData);

    let a = c.on_driver_message(DriverMessage::GetForce).unwrap();
    match a {
        ClientAction::Compute(s) => {
            // Symbols come from the reference; positions from the wire.
            assert_eq!(s.atoms[0].symbol, b"H".to_vec());
            assert_eq!(s.atoms[1].symbol, b"O".to_vec());
            assert_eq!(f64::from_bits(s.atoms[1].px), 0.5);
            assert!(s.lattice.is_some());
        }
        other => panic!("expected Compute, got {other:?}"),
    }
    // The pending slot is cleared by the turn.
    assert_eq!(c.status(), ClientStatus::Ready);

    let a = c.on_driver_message(DriverMessage::Exit).unwrap();
    assert_eq!(a, ClientAction::Shutdown);
}

#[test]
fn get_force_without_structure_fails() {
    let mut c = ClientMachine::new(reference(1));
    c.on_driver_message(init_message()).unwrap();
    let r = c.on_driver_message(DriverMessage::GetForce);
    assert_eq!(r, Err(IpiError::NoStructurePending));
}

#[test]
fn atom_count_mismatch_is_a_validation_error() {
    let mut c = ClientMachine::new(reference(3));
    c.on_driver_message(init_message()).unwrap();
    c.on_driver_message(DriverMessage::PosData(wire_structure(2))).unwrap();
    let r = c.on_driver_message(DriverMessage::GetForce);
    assert_eq!(r, Err(IpiError::AtomCountMismatch { expected: 3, got: 2 }));
}

#[test]
fn second_posdata_overwrites_pending() {
    let mut c = ClientMachine::new(reference(1));
    c.on_driver_message(init_message()).unwrap();
    c.on_driver_message(DriverMessage::PosData(wire_structure(1))).unwrap();
    let mut other = wire_structure(1);
    other.atoms[0].px = 9.0f64.to_bits();
    c.on_driver_message(DriverMessage::PosData(other)).unwrap();
    match c.on_driver_message(DriverMessage::GetForce).unwrap() {
        ClientAction::Compute(s) => assert_eq!(f64::from_bits(s.atoms[0].px), 9.0),
        other => panic!("expected Compute, got {other:?}"),
    }
}

#[test]
fn engine_result_without_stress_gets_zero_virial() {
    let c = computed_from_engine((-2.0f64).to_bits(), vec![0u64; 6], None, Vec::new());
    assert_eq!(c.virial, vec![0u64; 9]);
    assert_eq!(f64::from_bits(c.energy), -2.0);
    let v: Vec<u64> = (1..10).map(|i| (i as f64).to_bits()).collect();
    let c = computed_from_engine(0u64, vec![0u64; 6], Some(v.clone()), b"x".to_vec());
    assert_eq!(c.virial, v);
    assert_eq!(c.extra, b"x".to_vec());
}

#[test]
fn serve_loop_job_and_closure() {
    let mut m = DriverMachine::new();
    m.on_handshake_reply(ClientStatus::Ready).unwrap();
    let s = wire_structure(1);
    match serve_next(&mut m, TaskEvent::Job(s.clone())) {
        ServeStep::BeginCompute(first, second) => {
            assert_eq!(first, DriverMessage::PosData(s));
            assert_eq!(second, DriverMessage::Status);
        }
        other => panic!("expected BeginCompute, got {other:?}"),
    }
    assert_eq!(m.phase, DriverPhase::AwaitingHaveData);

    let mut m = DriverMachine::new();
    m.on_handshake_reply(ClientStatus::Ready).unwrap();
    match serve_next(&mut m, TaskEvent::Closed) {
        ServeStep::Finish(msg) => assert_eq!(msg, DriverMessage::Exit),
        other => panic!("expected Finish, got {other:?}"),
    }
    assert_eq!(m.phase, DriverPhase::Terminated);
}

#[test]
fn socket_address_resolution() {
    assert_eq!(guess_unix_socket_file("h2"), "/tmp/ipi_h2");
    match Socket::resolve("node7", 0, true) {
        SocketAddress::Unix { path } => assert_eq!(path, "/tmp/ipi_node7"),
        other => panic!("expected Unix, got {other:?}"),
    }
    match Socket::resolve("localhost", 12345, false) {
        SocketAddress::Tcp { host, port } => {
            assert_eq!(host, "localhost");
            assert_eq!(port, 12345);
        }
        other => panic!("expected Tcp, got {other:?}"),
    }
}

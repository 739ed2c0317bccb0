use ipi::codec::{decode_client, decode_client_eof, decode_driver, decode_driver_eof,
    encode_client, encode_driver};
use ipi::{Atom, ClientMessage, ClientStatus, Computed, DriverMessage, InitData, IpiError,
    Lattice, Structure};

fn atom(sym: &str, x: f64, y: f64, z: f64) -> Atom {
    Atom {
        symbol: sym.as_bytes().to_vec(),
        px: x.to_bits(),
        py: y.to_bits(),
        pz: z.to_bits(),
        frozen: None,
    }
}

/// A structure in the shape decode produces: blank symbols, no freeze
/// flags, lattice present.
fn wire_structure(n: usize) -> Structure {
    let mut atoms = Vec::new();
    for i in 0..n {
        let f = i as f64;
        atoms.push(atom("", 0.1 * f, 0.2 * f + 1.0, -0.3 * f));
    }
    let cell: Vec<u64> = (0..9).map(|i| (i as f64 * 2.5).to_bits()).collect();
    let inv: Vec<u64> = (0..9).map(|i| (i as f64 * -0.5 + 1.0).to_bits()).collect();
    Structure {
        atoms,
        lattice: Some(Lattice { vectors: cell, inverse: inv }),
    }
}

fn computed(n: usize) -> Computed {
    Computed {
        energy: (-1.234f64).to_bits(),
        forces: (0..3 * n).map(|i| (i as f64 * 0.25).to_bits()).collect(),
        virial: vec![0u64; 9],
        extra: b"{}".to_vec(),
    }
}

fn round_trip_driver(m: DriverMessage) {
    let bytes = encode_driver(&m);
    let decoded = decode_driver(&bytes).expect("frame must decode");
    let (m2, used) = decoded.expect("frame must be complete");
    assert_eq!(used, bytes.len());
    assert_eq!(m2, m);
}

fn round_trip_client(m: ClientMessage) {
    let bytes = encode_client(&m);
    let decoded = decode_client(&bytes).expect("frame must decode");
    let (m2, used) = decoded.expect("frame must be complete");
    assert_eq!(used, bytes.len());
    assert_eq!(m2, m);
}

#[test]
fn round_trip_bare_driver_commands() {
    round_trip_driver(DriverMessage::Status);
    round_trip_driver(DriverMessage::GetForce);
    round_trip_driver(DriverMessage::Exit);
}

#[test]
fn round_trip_init() {
    round_trip_driver(DriverMessage::Init(InitData::new(0, Vec::new())));
    round_trip_driver(DriverMessage::Init(InitData::new(3, b"pimd settings".to_vec())));
}

#[test]
fn round_trip_posdata_atom_counts() {
    for n in [0usize, 1, 100] {
        round_trip_driver(DriverMessage::PosData(wire_structure(n)));
    }
}

#[test]
fn round_trip_client_statuses() {
    round_trip_client(ClientMessage::Status(ClientStatus::NeedInit));
    round_trip_client(ClientMessage::Status(ClientStatus::Ready));
    round_trip_client(ClientMessage::Status(ClientStatus::HaveData));
}

#[test]
fn round_trip_forceready_atom_counts() {
    for n in [0usize, 1, 100] {
        round_trip_client(ClientMessage::ForceReady(computed(n)));
    }
}

#[test]
fn command_tags_are_twelve_padded_ascii_bytes() {
    assert_eq!(&encode_driver(&DriverMessage::Status)[..], b"STATUS      ");
    assert_eq!(&encode_driver(&DriverMessage::GetForce)[..], b"GETFORCE    ");
    assert_eq!(&encode_driver(&DriverMessage::Exit)[..], b"EXIT        ");
    assert_eq!(
        &encode_client(&ClientMessage::Status(ClientStatus::NeedInit))[..],
        b"NEEDINIT    "
    );
    assert_eq!(
        &encode_client(&ClientMessage::Status(ClientStatus::Ready))[..],
        b"READY       "
    );
    assert_eq!(
        &encode_client(&ClientMessage::Status(ClientStatus::HaveData))[..],
        b"HAVEDATA    "
    );
    let fr = encode_client(&ClientMessage::ForceReady(computed(0)));
    assert_eq!(&fr[..12], b"FORCEREADY  ");
    let pos = encode_driver(&DriverMessage::PosData(wire_structure(0)));
    assert_eq!(&pos[..12], b"POSDATA     ");
    let init = encode_driver(&DriverMessage::Init(InitData::new(0, Vec::new())));
    assert_eq!(&init[..12], b"INIT        ");
}

#[test]
fn posdata_count_field_matches_atom_count() {
    for n in [0usize, 1, 100] {
        let bytes = encode_driver(&DriverMessage::PosData(wire_structure(n)));
        // 12 tag + 72 cell + 72 inverse cell, then the int32 atom count.
        let count = i32::from_le_bytes(bytes[156..160].try_into().unwrap());
        assert_eq!(count as usize, n);
        // Three float64 positions per atom follow the count.
        assert_eq!(bytes.len(), 160 + 24 * n);
    }
}

#[test]
fn init_payload_layout() {
    let bytes = encode_driver(&DriverMessage::Init(InitData::new(7, b"abc".to_vec())));
    assert_eq!(i32::from_le_bytes(bytes[12..16].try_into().unwrap()), 7);
    assert_eq!(i32::from_le_bytes(bytes[16..20].try_into().unwrap()), 3);
    assert_eq!(&bytes[20..], b"abc");
}

#[test]
fn forceready_payload_layout() {
    let c = computed(2);
    let bytes = encode_client(&ClientMessage::ForceReady(c));
    assert_eq!(f64::from_bits(u64::from_le_bytes(bytes[12..20].try_into().unwrap())), -1.234);
    assert_eq!(i32::from_le_bytes(bytes[20..24].try_into().unwrap()), 2);
    // energy 8 + count 4 + forces 48 + virial 72 + extra length 4 + extra 2
    assert_eq!(bytes.len(), 12 + 8 + 4 + 48 + 72 + 4 + 2);
    assert_eq!(&bytes[bytes.len() - 2..], b"{}");
}

#[test]
fn truncated_posdata_fails_with_malformed_frame() {
    let bytes = encode_driver(&DriverMessage::PosData(wire_structure(3)));
    let cut = &bytes[..bytes.len() - 1];
    // Mid-stream the codec just waits for the missing byte...
    assert_eq!(decode_driver(cut), Ok(None));
    // ...but at end of stream the incomplete frame is malformed.
    assert_eq!(decode_driver_eof(cut), Err(IpiError::MalformedFrame));
}

#[test]
fn truncated_forceready_fails_with_malformed_frame() {
    let bytes = encode_client(&ClientMessage::ForceReady(computed(1)));
    let cut = &bytes[..bytes.len() - 1];
    assert_eq!(decode_client(cut), Ok(None));
    assert_eq!(decode_client_eof(cut), Err(IpiError::MalformedFrame));
}

#[test]
fn empty_buffer_is_no_message() {
    assert_eq!(decode_driver(&[]), Ok(None));
    assert_eq!(decode_client(&[]), Ok(None));
    assert_eq!(decode_driver_eof(&[]), Ok(None));
    assert_eq!(decode_client_eof(&[]), Ok(None));
}

#[test]
fn partial_tag_is_no_message() {
    assert_eq!(decode_driver(b"STATUS"), Ok(None));
    assert_eq!(decode_client(b"FORCer"), Ok(None));
}

#[test]
fn unknown_tag_is_malformed() {
    assert_eq!(decode_driver(b"BOGUSTAG    "), Err(IpiError::MalformedFrame));
    assert_eq!(decode_client(b"BOGUSTAG    "), Err(IpiError::MalformedFrame));
    // Lower case does not match: tags are case-sensitive.
    assert_eq!(decode_driver(b"status      "), Err(IpiError::MalformedFrame));
}

#[test]
fn client_tag_on_driver_stream_is_malformed() {
    assert_eq!(decode_driver(b"NEEDINIT    "), Err(IpiError::MalformedFrame));
    assert_eq!(decode_client(b"GETFORCE    "), Err(IpiError::MalformedFrame));
}

#[test]
fn negative_count_is_malformed() {
    let mut bytes = encode_driver(&DriverMessage::PosData(wire_structure(1)));
    bytes[156..160].copy_from_slice(&(-1i32).to_le_bytes());
    assert_eq!(decode_driver(&bytes), Err(IpiError::MalformedFrame));

    let mut bytes = encode_client(&ClientMessage::ForceReady(computed(1)));
    bytes[20..24].copy_from_slice(&(-5i32).to_le_bytes());
    assert_eq!(decode_client(&bytes), Err(IpiError::MalformedFrame));

    let mut bytes = encode_driver(&DriverMessage::Init(InitData::new(0, b"x".to_vec())));
    bytes[16..20].copy_from_slice(&(-2i32).to_le_bytes());
    assert_eq!(decode_driver(&bytes), Err(IpiError::MalformedFrame));
}

#[test]
fn decode_reports_frame_length_with_trailing_bytes() {
    let mut bytes = encode_driver(&DriverMessage::Status);
    let frame_len = bytes.len();
    bytes.extend_from_slice(b"GETFORCE    ");
    let (m, used) = decode_driver(&bytes).unwrap().unwrap();
    assert_eq!(m, DriverMessage::Status);
    assert_eq!(used, frame_len);
    let (m2, used2) = decode_driver(&bytes[used..]).unwrap().unwrap();
    assert_eq!(m2, DriverMessage::GetForce);
    assert_eq!(used2, 12);
}

#[test]
fn posdata_without_lattice_encodes_zero_cell() {
    let s = Structure { atoms: vec![atom("C", 1.0, 2.0, 3.0)], lattice: None };
    let bytes = encode_driver(&DriverMessage::PosData(s));
    for k in 0..18 {
        let v = u64::from_le_bytes(bytes[12 + 8 * k..20 + 8 * k].try_into().unwrap());
        assert_eq!(f64::from_bits(v), 0.0);
    }
    // Decoding yields the zero lattice explicitly and blank symbols.
    let (m, _) = decode_driver(&bytes).unwrap().unwrap();
    match m {
        DriverMessage::PosData(s2) => {
            let lat = s2.lattice.expect("decoded structure always has a lattice");
            assert!(lat.vectors.iter().all(|v| f64::from_bits(*v) == 0.0));
            assert_eq!(s2.atoms.len(), 1);
            assert!(s2.atoms[0].symbol.is_empty());
            assert_eq!(f64::from_bits(s2.atoms[0].px), 1.0);
            assert_eq!(f64::from_bits(s2.atoms[0].pz), 3.0);
        }
        other => panic!("expected PosData, got {other:?}"),
    }
}

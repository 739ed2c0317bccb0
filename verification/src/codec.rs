//! Binary message codec for the i-PI wire protocol.
//!
//! Every message is a frame: a 12-byte ASCII command tag, right-padded with
//! spaces, followed by a command-specific binary payload.  Numeric payload
//! fields are fixed-width little-endian: 4-byte signed integers for counts
//! and indices, 8-byte IEEE-754 doubles (carried here as `u64` bit
//! patterns) for physical quantities.
//!
//! Encoding and decoding are specified by pure functions over byte
//! sequences ([`spec_encode_driver`], [`spec_decode_driver`] and their
//! client-side mirrors); the executable functions are proved to implement
//! them, and the round-trip lemmas relate the two.

use vstd::prelude::*;
use vstd::bytes::*;
use vstd::slice::*;
use vstd::assert_seqs_equal;

use crate::{
    Atom, AtomV, ClientMessage, ClientMessageV, ClientStatus, Computed, ComputedV, DriverMessage,
    DriverMessageV, InitData, InitDataV, IpiError, Lattice, LatticeV, Structure, StructureV,
    MAX_COUNT,
};

verus! {

/// Byte length of the command tag that opens every frame.
pub const HEADER_LEN: usize = 12;

/// The nine command tags of the protocol.
#[derive(Debug, Clone, Copy, PartialEq, Eq, Structural)]
pub enum Tag {
    Status,
    Init,
    PosData,
    GetForce,
    Exit,
    NeedInit,
    Ready,
    HaveData,
    ForceReady,
}

/// The 12 bytes of a command tag: the ASCII command word, right-padded with
/// spaces.
pub open spec fn spec_tag_bytes(t: Tag) -> Seq<u8> {
    match t {
        Tag::Status => seq![
            83, 84, 65, 84, 85, 83, 32, 32, 32, 32, 32, 32,
        ],
        Tag::Init => seq![
            73, 78, 73, 84, 32, 32, 32, 32, 32, 32, 32, 32,
        ],
        Tag::PosData => seq![
            80, 79, 83, 68, 65, 84, 65, 32, 32, 32, 32, 32,
        ],
        Tag::GetForce => seq![
            71, 69, 84, 70, 79, 82, 67, 69, 32, 32, 32, 32,
        ],
        Tag::Exit => seq![
            69, 88, 73, 84, 32, 32, 32, 32, 32, 32, 32, 32,
        ],
        Tag::NeedInit => seq![
            78, 69, 69, 68, 73, 78, 73, 84, 32, 32, 32, 32,
        ],
        Tag::Ready => seq![
            82, 69, 65, 68, 89, 32, 32, 32, 32, 32, 32, 32,
        ],
        Tag::HaveData => seq![
            72, 65, 86, 69, 68, 65, 84, 65, 32, 32, 32, 32,
        ],
        Tag::ForceReady => seq![
            70, 79, 82, 67, 69, 82, 69, 65, 68, 89, 32, 32,
        ],
    }
}

/// Distinct tags have distinct byte strings (their first bytes already
/// differ).
pub proof fn lemma_tags_distinct(t1: Tag, t2: Tag)
    requires
        t1 != t2,
    ensures
        spec_tag_bytes(t1) != spec_tag_bytes(t2),
{
    assert(spec_tag_bytes(t1)[0] != spec_tag_bytes(t2)[0]);
}

/// Append twelve bytes to `out`.
fn push12(
    out: &mut Vec<u8>,
    b0: u8, b1: u8, b2: u8, b3: u8, b4: u8, b5: u8,
    b6: u8, b7: u8, b8: u8, b9: u8, b10: u8, b11: u8,
)
    ensures
        final(out)@ == old(out)@ + seq![b0, b1, b2, b3, b4, b5, b6, b7, b8, b9, b10, b11],
{
    out.push(b0);
    out.push(b1);
    out.push(b2);
    out.push(b3);
    out.push(b4);
    out.push(b5);
    out.push(b6);
    out.push(b7);
    out.push(b8);
    out.push(b9);
    out.push(b10);
    out.push(b11);
    proof {
        assert_seqs_equal!(
            out@ == old(out)@ + seq![b0, b1, b2, b3, b4, b5, b6, b7, b8, b9, b10, b11]
        );
    }
}

/// Append the 12-byte form of `t` to `out`.
fn push_tag(out: &mut Vec<u8>, t: Tag)
    ensures
        final(out)@ == old(out)@ + spec_tag_bytes(t),
{
    match t {
        Tag::Status => push12(out, 83, 84, 65, 84, 85, 83, 32, 32, 32, 32, 32, 32),
        Tag::Init => push12(out, 73, 78, 73, 84, 32, 32, 32, 32, 32, 32, 32, 32),
        Tag::PosData => push12(out, 80, 79, 83, 68, 65, 84, 65, 32, 32, 32, 32, 32),
        Tag::GetForce => push12(out, 71, 69, 84, 70, 79, 82, 67, 69, 32, 32, 32, 32),
        Tag::Exit => push12(out, 69, 88, 73, 84, 32, 32, 32, 32, 32, 32, 32, 32),
        Tag::NeedInit => push12(out, 78, 69, 69, 68, 73, 78, 73, 84, 32, 32, 32, 32),
        Tag::Ready => push12(out, 82, 69, 65, 68, 89, 32, 32, 32, 32, 32, 32, 32),
        Tag::HaveData => push12(out, 72, 65, 86, 69, 68, 65, 84, 65, 32, 32, 32, 32),
        Tag::ForceReady => push12(out, 70, 79, 82, 67, 69, 82, 69, 65, 68, 89, 32, 32),
    }
}

/// Compare the first 12 bytes of `buf` with twelve given bytes.
fn eq12(
    buf: &[u8],
    b0: u8, b1: u8, b2: u8, b3: u8, b4: u8, b5: u8,
    b6: u8, b7: u8, b8: u8, b9: u8, b10: u8, b11: u8,
) -> (r: bool)
    requires
        buf@.len() >= 12,
    ensures
        r <==> buf@.subrange(0, 12) == seq![b0, b1, b2, b3, b4, b5, b6, b7, b8, b9, b10, b11],
{
    let ghost s = seq![b0, b1, b2, b3, b4, b5, b6, b7, b8, b9, b10, b11];
    let ghost pre = buf@.subrange(0, 12);
    proof {
        assert(forall|k: int| 0 <= k < 12 ==> pre[k] == buf@[k]);
    }
    let r = buf[0] == b0 && buf[1] == b1 && buf[2] == b2 && buf[3] == b3 && buf[4] == b4
        && buf[5] == b5 && buf[6] == b6 && buf[7] == b7 && buf[8] == b8 && buf[9] == b9
        && buf[10] == b10 && buf[11] == b11;
    proof {
        if r {
            assert_seqs_equal!(pre == s);
        } else {
            assert(exists|k: int| 0 <= k < 12 && pre[k] != s[k]);
        }
    }
    r
}

/// Find which tag, if any, opens `buf`.
fn match_tag(buf: &[u8]) -> (r: Option<Tag>)
    requires
        buf@.len() >= 12,
    ensures
        match r {
            Some(t) => buf@.subrange(0, 12) == spec_tag_bytes(t),
            None => forall|t: Tag| buf@.subrange(0, 12) != spec_tag_bytes(t),
        },
{
    if eq12(buf, 83, 84, 65, 84, 85, 83, 32, 32, 32, 32, 32, 32) {
        Some(Tag::Status)
    } else if eq12(buf, 73, 78, 73, 84, 32, 32, 32, 32, 32, 32, 32, 32) {
        Some(Tag::Init)
    } else if eq12(buf, 80, 79, 83, 68, 65, 84, 65, 32, 32, 32, 32, 32) {
        Some(Tag::PosData)
    } else if eq12(buf, 71, 69, 84, 70, 79, 82, 67, 69, 32, 32, 32, 32) {
        Some(Tag::GetForce)
    } else if eq12(buf, 69, 88, 73, 84, 32, 32, 32, 32, 32, 32, 32, 32) {
        Some(Tag::Exit)
    } else if eq12(buf, 78, 69, 69, 68, 73, 78, 73, 84, 32, 32, 32, 32) {
        Some(Tag::NeedInit)
    } else if eq12(buf, 82, 69, 65, 68, 89, 32, 32, 32, 32, 32, 32, 32) {
        Some(Tag::Ready)
    } else if eq12(buf, 72, 65, 86, 69, 68, 65, 84, 65, 32, 32, 32, 32) {
        Some(Tag::HaveData)
    } else if eq12(buf, 70, 79, 82, 67, 69, 82, 69, 65, 68, 89, 32, 32) {
        Some(Tag::ForceReady)
    } else {
        proof {
            assert forall|t: Tag| buf@.subrange(0, 12) != spec_tag_bytes(t) by {
                match t {
                    Tag::Status => {},
                    Tag::Init => {},
                    Tag::PosData => {},
                    Tag::GetForce => {},
                    Tag::Exit => {},
                    Tag::NeedInit => {},
                    Tag::Ready => {},
                    Tag::HaveData => {},
                    Tag::ForceReady => {},
                }
            }
        }
        None
    }
}

/// The little-endian bytes of a sequence of 64-bit scalars, concatenated.
pub open spec fn spec_le8_concat(s: Seq<u64>) -> Seq<u8>
    decreases s.len(),
{
    if s.len() == 0 {
        Seq::empty()
    } else {
        spec_u64_to_le_bytes(s[0]) + spec_le8_concat(s.drop_first())
    }
}

/// The 64-bit scalars read from a byte sequence, 8 bytes apiece,
/// little-endian.  Trailing bytes that do not fill a scalar are ignored.
pub open spec fn spec_u64s_of(s: Seq<u8>) -> Seq<u64>
    decreases s.len(),
{
    if s.len() < 8 {
        Seq::empty()
    } else {
        seq![spec_u64_from_le_bytes(s.subrange(0, 8))] + spec_u64s_of(s.skip(8))
    }
}

pub proof fn lemma_le8_concat_len(s: Seq<u64>)
    ensures
        spec_le8_concat(s).len() == 8 * s.len(),
    decreases s.len(),
{
    lemma_auto_spec_u64_to_from_le_bytes();
    if s.len() > 0 {
        lemma_le8_concat_len(s.drop_first());
    }
}

/// Reading scalars back from their concatenated bytes gives the original
/// sequence.
pub proof fn lemma_u64s_of_le8_concat(s: Seq<u64>)
    ensures
        spec_u64s_of(spec_le8_concat(s)) == s,
    decreases s.len(),
{
    lemma_auto_spec_u64_to_from_le_bytes();
    if s.len() == 0 {
        assert(spec_le8_concat(s).len() == 0);
        assert_seqs_equal!(spec_u64s_of(spec_le8_concat(s)) == s);
    } else {
        let head = spec_u64_to_le_bytes(s[0]);
        let rest = spec_le8_concat(s.drop_first());
        let whole = spec_le8_concat(s);
        lemma_le8_concat_len(s.drop_first());
        assert(whole == head + rest);
        assert_seqs_equal!(whole.subrange(0, 8) == head);
        assert_seqs_equal!(whole.skip(8) == rest);
        lemma_u64s_of_le8_concat(s.drop_first());
        assert_seqs_equal!(spec_u64s_of(whole) == s);
    }
}

/// Append the little-endian bytes of each scalar of `v` to `out`.
fn push_scalars(out: &mut Vec<u8>, v: &[u64])
    ensures
        final(out)@ == old(out)@ + spec_le8_concat(v@),
{
    let n = v.len();
    let mut i: usize = 0;
    while i < n
        invariant
            n == v@.len(),
            i <= n,
            out@ == old(out)@ + spec_le8_concat(v@.subrange(0, i as int)),
        decreases n - i,
    {
        let mut b = u64_to_le_bytes(v[i]);
        out.append(&mut b);
        proof {
            let pre = v@.subrange(0, i as int);
            let now = v@.subrange(0, i as int + 1);
            lemma_le8_concat_snoc(pre, v@[i as int]);
            assert_seqs_equal!(now == pre.push(v@[i as int]));
        }
        i = i + 1;
    }
    proof {
        assert_seqs_equal!(v@.subrange(0, v@.len() as int) == v@);
    }
}

/// Concatenation distributes over [`spec_le8_concat`].
pub proof fn lemma_le8_concat_append(s1: Seq<u64>, s2: Seq<u64>)
    ensures
        spec_le8_concat(s1 + s2) == spec_le8_concat(s1) + spec_le8_concat(s2),
    decreases s1.len(),
{
    if s1.len() == 0 {
        assert_seqs_equal!(s1 + s2 == s2);
        assert_seqs_equal!(
            spec_le8_concat(s1 + s2) == spec_le8_concat(s1) + spec_le8_concat(s2)
        );
    } else {
        assert((s1 + s2)[0] == s1[0]);
        assert_seqs_equal!((s1 + s2).drop_first() == s1.drop_first() + s2);
        lemma_le8_concat_append(s1.drop_first(), s2);
        assert_seqs_equal!(
            spec_le8_concat(s1 + s2) == spec_le8_concat(s1) + spec_le8_concat(s2)
        );
    }
}

/// Appending one scalar appends its eight bytes.
proof fn lemma_le8_concat_snoc(s: Seq<u64>, x: u64)
    ensures
        spec_le8_concat(s.push(x)) == spec_le8_concat(s) + spec_u64_to_le_bytes(x),
    decreases s.len(),
{
    lemma_auto_spec_u64_to_from_le_bytes();
    if s.len() == 0 {
        assert(s.push(x)[0] == x);
        assert_seqs_equal!(s.push(x).drop_first() == s);
        assert_seqs_equal!(
            spec_le8_concat(s.push(x)) == spec_le8_concat(s) + spec_u64_to_le_bytes(x)
        );
    } else {
        assert(s.push(x)[0] == s[0]);
        assert_seqs_equal!(s.push(x).drop_first() == s.drop_first().push(x));
        lemma_le8_concat_snoc(s.drop_first(), x);
        assert_seqs_equal!(
            spec_le8_concat(s.push(x)) == spec_le8_concat(s) + spec_u64_to_le_bytes(x)
        );
    }
}

/// Nine zero scalars: the cell written for a structure without a lattice.
pub open spec fn zero9() -> Seq<u64> {
    Seq::new(9, |i: int| 0u64)
}

/// The 144 cell bytes of a `POSDATA` payload: nine cell-vector components
/// followed by nine inverse-cell components, zero-filled when the structure
/// has no lattice.
pub open spec fn spec_lattice_bytes(l: Option<LatticeV>) -> Seq<u8> {
    match l {
        Some(lt) => spec_le8_concat(lt.vectors) + spec_le8_concat(lt.inverse),
        None => spec_le8_concat(zero9()) + spec_le8_concat(zero9()),
    }
}

/// The positions of a sequence of atoms, flattened row-major: three scalars
/// per atom.
pub open spec fn spec_positions(atoms: Seq<AtomV>) -> Seq<u64>
    decreases atoms.len(),
{
    if atoms.len() == 0 {
        Seq::empty()
    } else {
        seq![atoms[0].px, atoms[0].py, atoms[0].pz] + spec_positions(atoms.drop_first())
    }
}

pub proof fn lemma_spec_positions_len(atoms: Seq<AtomV>)
    ensures
        spec_positions(atoms).len() == 3 * atoms.len(),
    decreases atoms.len(),
{
    if atoms.len() > 0 {
        lemma_spec_positions_len(atoms.drop_first());
    }
}

/// Appending one atom appends its three position scalars.
proof fn lemma_spec_positions_snoc(atoms: Seq<AtomV>, a: AtomV)
    ensures
        spec_positions(atoms.push(a)) == spec_positions(atoms) + seq![a.px, a.py, a.pz],
    decreases atoms.len(),
{
    if atoms.len() == 0 {
        assert(atoms.push(a)[0] == a);
        assert_seqs_equal!(atoms.push(a).drop_first() == atoms);
        assert_seqs_equal!(
            spec_positions(atoms.push(a)) == spec_positions(atoms) + seq![a.px, a.py, a.pz]
        );
    } else {
        assert(atoms.push(a)[0] == atoms[0]);
        assert_seqs_equal!(atoms.push(a).drop_first() == atoms.drop_first().push(a));
        lemma_spec_positions_snoc(atoms.drop_first(), a);
        assert_seqs_equal!(
            spec_positions(atoms.push(a)) == spec_positions(atoms) + seq![a.px, a.py, a.pz]
        );
    }
}

/// The position scalars of atom `i` stand at indices `3 * i` to `3 * i + 2`.
pub proof fn lemma_spec_positions_index(atoms: Seq<AtomV>, i: int)
    requires
        0 <= i < atoms.len(),
    ensures
        spec_positions(atoms).len() == 3 * atoms.len(),
        spec_positions(atoms)[3 * i] == atoms[i].px,
        spec_positions(atoms)[3 * i + 1] == atoms[i].py,
        spec_positions(atoms)[3 * i + 2] == atoms[i].pz,
    decreases atoms.len(),
{
    lemma_spec_positions_len(atoms);
    if i > 0 {
        lemma_spec_positions_index(atoms.drop_first(), i - 1);
    } else {
        lemma_spec_positions_len(atoms.drop_first());
    }
}

/// The encoding of a driver message.
pub open spec fn spec_encode_driver(m: DriverMessageV) -> Seq<u8> {
    match m {
        DriverMessageV::Status => spec_tag_bytes(Tag::Status),
        DriverMessageV::GetForce => spec_tag_bytes(Tag::GetForce),
        DriverMessageV::Exit => spec_tag_bytes(Tag::Exit),
        DriverMessageV::Init(d) => spec_tag_bytes(Tag::Init) + spec_u32_to_le_bytes(
            d.ibead as u32,
        ) + spec_u32_to_le_bytes(d.nbytes as u32) + d.init,
        DriverMessageV::PosData(s) => spec_tag_bytes(Tag::PosData) + spec_lattice_bytes(s.lattice)
            + spec_u32_to_le_bytes(s.atoms.len() as u32) + spec_le8_concat(
            spec_positions(s.atoms),
        ),
    }
}

/// The tag a client status goes out under.  Only wire statuses have one.
pub open spec fn spec_status_tag(s: ClientStatus) -> Seq<u8>
    recommends
        s.is_wire(),
{
    match s {
        ClientStatus::NeedInit => spec_tag_bytes(Tag::NeedInit),
        ClientStatus::Ready => spec_tag_bytes(Tag::Ready),
        ClientStatus::HaveData => spec_tag_bytes(Tag::HaveData),
        _ => Seq::empty(),
    }
}

/// The encoding of a client message.
pub open spec fn spec_encode_client(m: ClientMessageV) -> Seq<u8>
    recommends
        m.wf(),
{
    match m {
        ClientMessageV::Status(s) => spec_status_tag(s),
        ClientMessageV::ForceReady(c) => spec_tag_bytes(Tag::ForceReady) + spec_u64_to_le_bytes(
            c.energy,
        ) + spec_u32_to_le_bytes((c.forces.len() / 3) as u32) + spec_le8_concat(c.forces)
            + spec_le8_concat(c.virial) + spec_u32_to_le_bytes(c.extra.len() as u32) + c.extra,
    }
}

/// Append the bytes of `v` to `out`.
fn push_bytes(out: &mut Vec<u8>, v: &[u8])
    ensures
        final(out)@ == old(out)@ + v@,
{
    let n = v.len();
    let mut i: usize = 0;
    while i < n
        invariant
            n == v@.len(),
            i <= n,
            out@ == old(out)@ + v@.subrange(0, i as int),
        decreases n - i,
    {
        out.push(v[i]);
        proof {
            assert_seqs_equal!(
                v@.subrange(0, i as int + 1) == v@.subrange(0, i as int).push(v@[i as int])
            );
        }
        i = i + 1;
    }
    proof {
        assert_seqs_equal!(v@.subrange(0, v@.len() as int) == v@);
    }
}

/// Append the 144 cell bytes of `l` to `out`.
fn push_lattice(out: &mut Vec<u8>, l: &Option<Lattice>)
    ensures
        final(out)@ == old(out)@ + spec_lattice_bytes(
            match l {
                Some(lt) => Some(lt@),
                None => None,
            },
        ),
{
    match l {
        Some(lt) => {
            push_scalars(out, lt.vectors.as_slice());
            push_scalars(out, lt.inverse.as_slice());
        },
        None => {
            let mut z: Vec<u64> = Vec::new();
            let mut i: usize = 0;
            while i < 9
                invariant
                    i <= 9,
                    z@ == zero9().subrange(0, i as int),
                decreases 9 - i,
            {
                z.push(0u64);
                proof {
                    assert_seqs_equal!(
                        zero9().subrange(0, i as int + 1)
                            == zero9().subrange(0, i as int).push(0u64)
                    );
                }
                i = i + 1;
            }
            proof {
                assert_seqs_equal!(z@ == zero9());
            }
            push_scalars(out, z.as_slice());
            push_scalars(out, z.as_slice());
        },
    }
}

/// Append the flattened positions of `atoms` to `out`.
fn push_positions(out: &mut Vec<u8>, atoms: &[Atom])
    ensures
        final(out)@ == old(out)@ + spec_le8_concat(
            spec_positions(Seq::new(atoms@.len(), |i: int| atoms@[i]@)),
        ),
{
    let ghost av = Seq::new(atoms@.len(), |i: int| atoms@[i]@);
    let n = atoms.len();
    let mut i: usize = 0;
    while i < n
        invariant
            n == atoms@.len(),
            av == Seq::new(atoms@.len(), |j: int| atoms@[j]@),
            i <= n,
            out@ == old(out)@ + spec_le8_concat(spec_positions(av.subrange(0, i as int))),
        decreases n - i,
    {
        let a = &atoms[i];
        let mut trio: Vec<u64> = Vec::new();
        trio.push(a.px);
        trio.push(a.py);
        trio.push(a.pz);
        proof {
            assert_seqs_equal!(trio@ == seq![av[i as int].px, av[i as int].py, av[i as int].pz]);
        }
        push_scalars(out, trio.as_slice());
        proof {
            let pre = av.subrange(0, i as int);
            lemma_spec_positions_snoc(pre, av[i as int]);
            assert_seqs_equal!(av.subrange(0, i as int + 1) == pre.push(av[i as int]));
            lemma_le8_concat_append(spec_positions(pre), trio@);
            assert_seqs_equal!(
                out@ == old(out)@ + spec_le8_concat(spec_positions(av.subrange(0, i as int + 1)))
            );
        }
        i = i + 1;
    }
    proof {
        assert_seqs_equal!(av.subrange(0, av.len() as int) == av);
    }
}

/// Encode a driver message into one wire frame.
pub fn encode_driver(m: &DriverMessage) -> (r: Vec<u8>)
    requires
        m@.wf(),
    ensures
        r@ == spec_encode_driver(m@),
{
    let mut out: Vec<u8> = Vec::new();
    match m {
        DriverMessage::Status => {
            push_tag(&mut out, Tag::Status);
        },
        DriverMessage::GetForce => {
            push_tag(&mut out, Tag::GetForce);
        },
        DriverMessage::Exit => {
            push_tag(&mut out, Tag::Exit);
        },
        DriverMessage::Init(d) => {
            push_tag(&mut out, Tag::Init);
            let mut b = u32_to_le_bytes(d.ibead as u32);
            out.append(&mut b);
            let mut b = u32_to_le_bytes(d.nbytes as u32);
            out.append(&mut b);
            push_bytes(&mut out, d.init.as_slice());
        },
        DriverMessage::PosData(s) => {
            push_tag(&mut out, Tag::PosData);
            push_lattice(&mut out, &s.lattice);
            let mut b = u32_to_le_bytes(s.atoms.len() as u32);
            out.append(&mut b);
            push_positions(&mut out, s.atoms.as_slice());
        },
    }
    out
}

/// Encode a client message into one wire frame.
pub fn encode_client(m: &ClientMessage) -> (r: Vec<u8>)
    requires
        m@.wf(),
    ensures
        r@ == spec_encode_client(m@),
{
    let mut out: Vec<u8> = Vec::new();
    match m {
        ClientMessage::Status(s) => {
            match s {
                ClientStatus::NeedInit => push_tag(&mut out, Tag::NeedInit),
                ClientStatus::Ready => push_tag(&mut out, Tag::Ready),
                ClientStatus::HaveData => push_tag(&mut out, Tag::HaveData),
                _ => {
                    proof {
                        assert(false);
                    }
                },
            }
        },
        ClientMessage::ForceReady(c) => {
            push_tag(&mut out, Tag::ForceReady);
            let mut b = u64_to_le_bytes(c.energy);
            out.append(&mut b);
            let mut b = u32_to_le_bytes((c.forces.len() / 3) as u32);
            out.append(&mut b);
            push_scalars(&mut out, c.forces.as_slice());
            push_scalars(&mut out, c.virial.as_slice());
            let mut b = u32_to_le_bytes(c.extra.len() as u32);
            out.append(&mut b);
            push_bytes(&mut out, c.extra.as_slice());
        },
    }
    out
}

/// Outcome of one decode attempt on a byte buffer.
///
/// `NeedMore` means the buffer is shorter than one complete frame; the
/// reader must wait for more bytes.  `Frame(m, n)` carries the decoded
/// message and the frame's byte length `n`.
#[verifier::ext_equal]
#[verifier::reject_recursive_types(M)]
pub ghost enum DecodeStep<M> {
    NeedMore,
    Malformed,
    Frame(M, int),
}

/// Decode one driver frame from the front of `s`.
pub open spec fn spec_decode_driver(s: Seq<u8>) -> DecodeStep<DriverMessageV> {
    if s.len() < 12 {
        DecodeStep::NeedMore
    } else {
        let tag = s.subrange(0, 12);
        if tag == spec_tag_bytes(Tag::Status) {
            DecodeStep::Frame(DriverMessageV::Status, 12)
        } else if tag == spec_tag_bytes(Tag::GetForce) {
            DecodeStep::Frame(DriverMessageV::GetForce, 12)
        } else if tag == spec_tag_bytes(Tag::Exit) {
            DecodeStep::Frame(DriverMessageV::Exit, 12)
        } else if tag == spec_tag_bytes(Tag::Init) {
            spec_decode_init(s)
        } else if tag == spec_tag_bytes(Tag::PosData) {
            spec_decode_posdata(s)
        } else {
            DecodeStep::Malformed
        }
    }
}

/// Decode the payload of an `INIT` frame: bead index, byte length, and the
/// initialization bytes.  A length with the `int32` sign bit set is
/// malformed.
pub open spec fn spec_decode_init(s: Seq<u8>) -> DecodeStep<DriverMessageV> {
    if s.len() < 20 {
        DecodeStep::NeedMore
    } else {
        let ibead = spec_u32_from_le_bytes(s.subrange(12, 16));
        let nb = spec_u32_from_le_bytes(s.subrange(16, 20));
        if ibead > MAX_COUNT as u32 || nb > MAX_COUNT as u32 {
            DecodeStep::Malformed
        } else if s.len() < 20 + nb {
            DecodeStep::NeedMore
        } else {
            DecodeStep::Frame(
                DriverMessageV::Init(
                    InitDataV {
                        ibead: ibead as int,
                        nbytes: nb as int,
                        init: s.subrange(20, 20 + nb),
                    },
                ),
                20 + nb,
            )
        }
    }
}

/// Decode the payload of a `POSDATA` frame: nine cell scalars, nine inverse
/// cell scalars, the atom count, and three position scalars per atom.  The
/// decoded structure carries empty symbols and no freeze flags: the wire
/// does not transmit composition.
pub open spec fn spec_decode_posdata(s: Seq<u8>) -> DecodeStep<DriverMessageV> {
    if s.len() < 160 {
        DecodeStep::NeedMore
    } else {
        let n = spec_u32_from_le_bytes(s.subrange(156, 160));
        if n > MAX_COUNT as u32 {
            DecodeStep::Malformed
        } else if s.len() < 160 + 24 * n {
            DecodeStep::NeedMore
        } else {
            let cell = spec_u64s_of(s.subrange(12, 84));
            let inv = spec_u64s_of(s.subrange(84, 156));
            let pos = spec_u64s_of(s.subrange(160, 160 + 24 * n));
            DecodeStep::Frame(
                DriverMessageV::PosData(
                    StructureV {
                        atoms: Seq::new(
                            n as nat,
                            |i: int| AtomV {
                                symbol: Seq::empty(),
                                px: pos[3 * i],
                                py: pos[3 * i + 1],
                                pz: pos[3 * i + 2],
                                frozen: None,
                            },
                        ),
                        lattice: Some(LatticeV { vectors: cell, inverse: inv }),
                    },
                ),
                160 + 24 * n,
            )
        }
    }
}

/// Decode one client frame from the front of `s`.
pub open spec fn spec_decode_client(s: Seq<u8>) -> DecodeStep<ClientMessageV> {
    if s.len() < 12 {
        DecodeStep::NeedMore
    } else {
        let tag = s.subrange(0, 12);
        if tag == spec_tag_bytes(Tag::NeedInit) {
            DecodeStep::Frame(ClientMessageV::Status(ClientStatus::NeedInit), 12)
        } else if tag == spec_tag_bytes(Tag::Ready) {
            DecodeStep::Frame(ClientMessageV::Status(ClientStatus::Ready), 12)
        } else if tag == spec_tag_bytes(Tag::HaveData) {
            DecodeStep::Frame(ClientMessageV::Status(ClientStatus::HaveData), 12)
        } else if tag == spec_tag_bytes(Tag::ForceReady) {
            spec_decode_forceready(s)
        } else {
            DecodeStep::Malformed
        }
    }
}

/// Decode the payload of a `FORCEREADY` frame: energy, atom count, three
/// force scalars per atom, nine virial scalars, and the length-prefixed
/// "extra" bytes.
pub open spec fn spec_decode_forceready(s: Seq<u8>) -> DecodeStep<ClientMessageV> {
    if s.len() < 24 {
        DecodeStep::NeedMore
    } else {
        let e = spec_u64_from_le_bytes(s.subrange(12, 20));
        let n = spec_u32_from_le_bytes(s.subrange(20, 24));
        if n > MAX_COUNT as u32 {
            DecodeStep::Malformed
        } else if s.len() < 100 + 24 * n {
            DecodeStep::NeedMore
        } else {
            let forces = spec_u64s_of(s.subrange(24, 24 + 24 * n));
            let virial = spec_u64s_of(s.subrange(24 + 24 * n, 96 + 24 * n));
            let xl = spec_u32_from_le_bytes(s.subrange(96 + 24 * n, 100 + 24 * n));
            if xl > MAX_COUNT as u32 {
                DecodeStep::Malformed
            } else if s.len() < 100 + 24 * n + xl {
                DecodeStep::NeedMore
            } else {
                DecodeStep::Frame(
                    ClientMessageV::ForceReady(
                        ComputedV {
                            energy: e,
                            forces: forces,
                            virial: virial,
                            extra: s.subrange(100 + 24 * n, 100 + 24 * n + xl),
                        },
                    ),
                    100 + 24 * n + xl,
                )
            }
        }
    }
}

/// A byte sequence of length `8 * k` reads back as `k` scalars.
pub proof fn lemma_u64s_of_len8(s: Seq<u8>, k: nat)
    requires
        s.len() == 8 * k,
    ensures
        spec_u64s_of(s).len() == k,
    decreases k,
{
    if k > 0 {
        lemma_u64s_of_len8(s.skip(8), (k - 1) as nat);
    }
}

/// The `i`-th scalar read from `s` comes from bytes `8 * i` to `8 * i + 8`.
pub proof fn lemma_u64s_of_index(s: Seq<u8>, i: int)
    requires
        0 <= i,
        8 * i + 8 <= s.len(),
    ensures
        i < spec_u64s_of(s).len(),
        spec_u64s_of(s)[i] == spec_u64_from_le_bytes(s.subrange(8 * i, 8 * i + 8)),
    decreases i,
{
    if i > 0 {
        lemma_u64s_of_index(s.skip(8), i - 1);
        assert_seqs_equal!(s.skip(8).subrange(8 * (i - 1), 8 * (i - 1) + 8)
            == s.subrange(8 * i, 8 * i + 8));
    }
}

/// Read `cnt` scalars from `buf` starting at `off`.
fn read_scalars(buf: &[u8], off: usize, cnt: usize) -> (r: Vec<u64>)
    requires
        off + 8 * cnt <= buf@.len(),
    ensures
        r@ == spec_u64s_of(buf@.subrange(off as int, off as int + 8 * cnt)),
        r@.len() == cnt,
{
    let ghost target = buf@.subrange(off as int, off as int + 8 * cnt);
    let blen = buf.len();
    let mut r: Vec<u64> = Vec::new();
    let mut i: usize = 0;
    while i < cnt
        invariant
            blen == buf@.len(),
            off + 8 * cnt <= buf@.len(),
            target == buf@.subrange(off as int, off as int + 8 * cnt),
            i <= cnt,
            r@.len() == i,
            forall|j: int|
                0 <= j < i ==> r@[j] == spec_u64_from_le_bytes(
                    target.subrange(8 * j, 8 * j + 8),
                ),
        decreases cnt - i,
    {
        let x = u64_from_le_bytes(slice_subrange(buf, off + 8 * i, off + 8 * i + 8));
        proof {
            assert_seqs_equal!(
                buf@.subrange(off as int + 8 * (i as int), off as int + 8 * (i as int) + 8)
                    == target.subrange(8 * (i as int), 8 * (i as int) + 8)
            );
        }
        r.push(x);
        i = i + 1;
    }
    proof {
        lemma_u64s_of_len8(target, cnt as nat);
        assert forall|j: int| 0 <= j < cnt implies spec_u64s_of(target)[j] == r@[j] by {
            lemma_u64s_of_index(target, j);
        }
        assert_seqs_equal!(r@ == spec_u64s_of(target));
    }
    r
}

/// Decode one driver frame from the front of `buf`.
///
/// Returns `Ok(None)` when the buffer does not yet hold a complete frame,
/// `Ok(Some((message, length)))` when it does, and `MalformedFrame` when the
/// bytes cannot open a well-formed driver frame.
pub fn decode_driver(buf: &[u8]) -> (r: Result<Option<(DriverMessage, usize)>, IpiError>)
    ensures
        match spec_decode_driver(buf@) {
            DecodeStep::NeedMore => r matches Ok(o) && o is None,
            DecodeStep::Malformed => r matches Err(e) && e == IpiError::MalformedFrame,
            DecodeStep::Frame(v, n) => r matches Ok(o) && o matches Some((m, used)) && m@ == v
                && used == n && m@.wf(),
        },
{
    if buf.len() < HEADER_LEN {
        return Ok(None);
    }
    let tag = match match_tag(buf) {
        Some(t) => t,
        None => {
            return Err(IpiError::MalformedFrame);
        },
    };
    match tag {
        Tag::Status => Ok(Some((DriverMessage::Status, HEADER_LEN))),
        Tag::GetForce => {
            proof {
                lemma_tags_distinct(Tag::GetForce, Tag::Status);
            }
            Ok(Some((DriverMessage::GetForce, HEADER_LEN)))
        },
        Tag::Exit => {
            proof {
                lemma_tags_distinct(Tag::Exit, Tag::Status);
                lemma_tags_distinct(Tag::Exit, Tag::GetForce);
            }
            Ok(Some((DriverMessage::Exit, HEADER_LEN)))
        },
        Tag::Init => {
            proof {
                lemma_tags_distinct(Tag::Init, Tag::Status);
                lemma_tags_distinct(Tag::Init, Tag::GetForce);
                lemma_tags_distinct(Tag::Init, Tag::Exit);
            }
            decode_init(buf)
        },
        Tag::PosData => {
            proof {
                lemma_tags_distinct(Tag::PosData, Tag::Status);
                lemma_tags_distinct(Tag::PosData, Tag::GetForce);
                lemma_tags_distinct(Tag::PosData, Tag::Exit);
                lemma_tags_distinct(Tag::PosData, Tag::Init);
            }
            decode_posdata(buf)
        },
        _ => {
            proof {
                lemma_tags_distinct(tag, Tag::Status);
                lemma_tags_distinct(tag, Tag::GetForce);
                lemma_tags_distinct(tag, Tag::Exit);
                lemma_tags_distinct(tag, Tag::Init);
                lemma_tags_distinct(tag, Tag::PosData);
            }
            Err(IpiError::MalformedFrame)
        },
    }
}

/// Decode the payload of an `INIT` frame.
fn decode_init(buf: &[u8]) -> (r: Result<Option<(DriverMessage, usize)>, IpiError>)
    requires
        buf@.len() >= 12,
        buf@.subrange(0, 12) == spec_tag_bytes(Tag::Init),
    ensures
        match spec_decode_init(buf@) {
            DecodeStep::NeedMore => r matches Ok(o) && o is None,
            DecodeStep::Malformed => r matches Err(e) && e == IpiError::MalformedFrame,
            DecodeStep::Frame(v, n) => r matches Ok(o) && o matches Some((m, used)) && m@ == v
                && used == n && m@.wf(),
        },
{
    if buf.len() < 20 {
        return Ok(None);
    }
    let ibead_w = u32_from_le_bytes(slice_subrange(buf, 12, 16));
    let nb_w = u32_from_le_bytes(slice_subrange(buf, 16, 20));
    if ibead_w > MAX_COUNT as u32 || nb_w > MAX_COUNT as u32 {
        return Err(IpiError::MalformedFrame);
    }
    let nb = nb_w as usize;
    if buf.len() - 20 < nb {
        return Ok(None);
    }
    let total = 20 + nb;
    let init = slice_to_vec(slice_subrange(buf, 20, total));
    let d = InitData { ibead: ibead_w as usize, nbytes: nb, init };
    proof {
        let step = spec_decode_init(buf@);
        assert(step matches DecodeStep::Frame(v, n) && d@ =~= v->Init_0 && n == total);
    }
    Ok(Some((DriverMessage::Init(d), total)))
}

/// `n > (len - base) / 24` says exactly that `len` is short of a frame of
/// `base` bytes plus 24 bytes per atom, and otherwise `base + 24 * n` fits.
proof fn lemma_count_fits(len: int, base: int, n: int)
    requires
        0 <= n,
        0 <= base <= len,
    ensures
        n > (len - base) / 24 <==> len < base + 24 * n,
{
    let rem = len - base;
    vstd::arithmetic::div_mod::lemma_fundamental_div_mod(rem, 24);
    vstd::arithmetic::div_mod::lemma_mod_bound(rem, 24);
    let q = rem / 24;
    assert(rem == 24 * q + rem % 24);
    if n > q {
        assert(24 * n >= 24 * (q + 1)) by (nonlinear_arith)
            requires n >= q + 1;
        assert(len < base + 24 * n);
    } else {
        assert(24 * n <= 24 * q) by (nonlinear_arith)
            requires n <= q;
        assert(len >= base + 24 * n);
    }
}

/// Decode the payload of a `POSDATA` frame.
fn decode_posdata(buf: &[u8]) -> (r: Result<Option<(DriverMessage, usize)>, IpiError>)
    requires
        buf@.len() >= 12,
        buf@.subrange(0, 12) == spec_tag_bytes(Tag::PosData),
    ensures
        match spec_decode_posdata(buf@) {
            DecodeStep::NeedMore => r matches Ok(o) && o is None,
            DecodeStep::Malformed => r matches Err(e) && e == IpiError::MalformedFrame,
            DecodeStep::Frame(v, n) => r matches Ok(o) && o matches Some((m, used)) && m@ == v
                && used == n && m@.wf(),
        },
{
    if buf.len() < 160 {
        return Ok(None);
    }
    let n_w = u32_from_le_bytes(slice_subrange(buf, 156, 160));
    if n_w > MAX_COUNT as u32 {
        return Err(IpiError::MalformedFrame);
    }
    let n = n_w as usize;
    proof {
        lemma_count_fits(buf@.len() as int, 160, n as int);
    }
    if n > (buf.len() - 160) / 24 {
        return Ok(None);
    }
    assert(24 * n <= buf@.len() - 160) by {
        lemma_count_fits(buf@.len() as int, 160, n as int);
    }
    let blen = buf.len();
    let total = 160 + 24 * n;
    let cellv = read_scalars(buf, 12, 9);
    let invv = read_scalars(buf, 84, 9);
    let ghost pos = spec_u64s_of(buf@.subrange(160, 160 + 24 * (n as int)));
    let mut atoms: Vec<Atom> = Vec::new();
    let mut i: usize = 0;
    while i < n
        invariant
            blen == buf@.len(),
            buf@.len() >= 160 + 24 * n,
            n <= MAX_COUNT,
            pos == spec_u64s_of(buf@.subrange(160, 160 + 24 * (n as int))),
            i <= n,
            atoms@.len() == i,
            forall|j: int|
                0 <= j < i ==> #[trigger] atoms@[j]@ == (AtomV {
                    symbol: Seq::empty(),
                    px: pos[3 * j],
                    py: pos[3 * j + 1],
                    pz: pos[3 * j + 2],
                    frozen: None,
                }),
        decreases n - i,
    {
        let base = 160 + 24 * i;
        let px = u64_from_le_bytes(slice_subrange(buf, base, base + 8));
        let py = u64_from_le_bytes(slice_subrange(buf, base + 8, base + 16));
        let pz = u64_from_le_bytes(slice_subrange(buf, base + 16, base + 24));
        let a = Atom { symbol: Vec::new(), px, py, pz, frozen: None };
        proof {
            let t = buf@.subrange(160, 160 + 24 * (n as int));
            let j = i as int;
            lemma_u64s_of_index(t, 3 * j);
            lemma_u64s_of_index(t, 3 * j + 1);
            lemma_u64s_of_index(t, 3 * j + 2);
            assert_seqs_equal!(t.subrange(8 * (3 * j), 8 * (3 * j) + 8)
                == buf@.subrange(160 + 24 * j, 160 + 24 * j + 8));
            assert_seqs_equal!(t.subrange(8 * (3 * j + 1), 8 * (3 * j + 1) + 8)
                == buf@.subrange(160 + 24 * j + 8, 160 + 24 * j + 16));
            assert_seqs_equal!(t.subrange(8 * (3 * j + 2), 8 * (3 * j + 2) + 8)
                == buf@.subrange(160 + 24 * j + 16, 160 + 24 * j + 24));
        }
        atoms.push(a);
        i = i + 1;
    }
    let s = Structure {
        atoms,
        lattice: Some(Lattice { vectors: cellv, inverse: invv }),
    };
    proof {
        let step = spec_decode_posdata(buf@);
        assert(step matches DecodeStep::Frame(v, n2) && n2 == total);
        let sv = step->Frame_0->PosData_0;
        assert_seqs_equal!(s@.atoms == sv.atoms);
        assert(s@ =~= sv);
    }
    Ok(Some((DriverMessage::PosData(s), total)))
}

/// Decode one client frame from the front of `buf`.
///
/// Returns `Ok(None)` when the buffer does not yet hold a complete frame,
/// `Ok(Some((message, length)))` when it does, and `MalformedFrame` when the
/// bytes cannot open a well-formed client frame.
pub fn decode_client(buf: &[u8]) -> (r: Result<Option<(ClientMessage, usize)>, IpiError>)
    ensures
        match spec_decode_client(buf@) {
            DecodeStep::NeedMore => r matches Ok(o) && o is None,
            DecodeStep::Malformed => r matches Err(e) && e == IpiError::MalformedFrame,
            DecodeStep::Frame(v, n) => r matches Ok(o) && o matches Some((m, used)) && m@ == v
                && used == n && m@.wf(),
        },
{
    if buf.len() < HEADER_LEN {
        return Ok(None);
    }
    let tag = match match_tag(buf) {
        Some(t) => t,
        None => {
            return Err(IpiError::MalformedFrame);
        },
    };
    match tag {
        Tag::NeedInit => Ok(Some((ClientMessage::Status(ClientStatus::NeedInit), HEADER_LEN))),
        Tag::Ready => {
            proof {
                lemma_tags_distinct(Tag::Ready, Tag::NeedInit);
            }
            Ok(Some((ClientMessage::Status(ClientStatus::Ready), HEADER_LEN)))
        },
        Tag::HaveData => {
            proof {
                lemma_tags_distinct(Tag::HaveData, Tag::NeedInit);
                lemma_tags_distinct(Tag::HaveData, Tag::Ready);
            }
            Ok(Some((ClientMessage::Status(ClientStatus::HaveData), HEADER_LEN)))
        },
        Tag::ForceReady => {
            proof {
                lemma_tags_distinct(Tag::ForceReady, Tag::NeedInit);
                lemma_tags_distinct(Tag::ForceReady, Tag::Ready);
                lemma_tags_distinct(Tag::ForceReady, Tag::HaveData);
            }
            decode_forceready(buf)
        },
        _ => {
            proof {
                lemma_tags_distinct(tag, Tag::NeedInit);
                lemma_tags_distinct(tag, Tag::Ready);
                lemma_tags_distinct(tag, Tag::HaveData);
                lemma_tags_distinct(tag, Tag::ForceReady);
            }
            Err(IpiError::MalformedFrame)
        },
    }
}

/// Decode the payload of a `FORCEREADY` frame.
fn decode_forceready(buf: &[u8]) -> (r: Result<Option<(ClientMessage, usize)>, IpiError>)
    requires
        buf@.len() >= 12,
        buf@.subrange(0, 12) == spec_tag_bytes(Tag::ForceReady),
    ensures
        match spec_decode_forceready(buf@) {
            DecodeStep::NeedMore => r matches Ok(o) && o is None,
            DecodeStep::Malformed => r matches Err(e) && e == IpiError::MalformedFrame,
            DecodeStep::Frame(v, n) => r matches Ok(o) && o matches Some((m, used)) && m@ == v
                && used == n && m@.wf(),
        },
{
    if buf.len() < 24 {
        return Ok(None);
    }
    let energy = u64_from_le_bytes(slice_subrange(buf, 12, 20));
    let n_w = u32_from_le_bytes(slice_subrange(buf, 20, 24));
    if n_w > MAX_COUNT as u32 {
        return Err(IpiError::MalformedFrame);
    }
    let n = n_w as usize;
    if buf.len() < 100 {
        return Ok(None);
    }
    proof {
        lemma_count_fits(buf@.len() as int, 100, n as int);
    }
    if n > (buf.len() - 100) / 24 {
        return Ok(None);
    }
    assert(24 * n <= buf@.len() - 100) by {
        lemma_count_fits(buf@.len() as int, 100, n as int);
    }
    let forces = read_scalars(buf, 24, 3 * n);
    proof {
        assert(8 * (3 * (n as int)) == 24 * (n as int));
        assert_seqs_equal!(buf@.subrange(24, 24 + 8 * (3 * (n as int)))
            == buf@.subrange(24, 24 + 24 * (n as int)));
    }
    let virial = read_scalars(buf, 24 + 24 * n, 9);
    let xl_w = u32_from_le_bytes(slice_subrange(buf, 96 + 24 * n, 100 + 24 * n));
    if xl_w > MAX_COUNT as u32 {
        return Err(IpiError::MalformedFrame);
    }
    let xl = xl_w as usize;
    if buf.len() - (100 + 24 * n) < xl {
        return Ok(None);
    }
    let total = 100 + 24 * n + xl;
    let extra = slice_to_vec(slice_subrange(buf, 100 + 24 * n, total));
    let c = Computed { energy, forces, virial, extra };
    proof {
        let step = spec_decode_forceready(buf@);
        assert(step matches DecodeStep::Frame(v, n2) && n2 == total);
        let cv = step->Frame_0->ForceReady_0;
        assert(c@.forces =~= cv.forces);
        assert(c@.virial =~= cv.virial);
        assert(c@.extra =~= cv.extra);
        assert(c@ =~= cv);
        assert(c@.forces.len() == 3 * (n as int));
        assert(c@.forces.len() % 3 == 0);
        assert(c@.forces.len() / 3 == n as int);
    }
    Ok(Some((ClientMessage::ForceReady(c), total)))
}

/// Decode one driver frame at end of stream: an empty buffer means no
/// further message; a nonempty buffer that holds no complete frame is
/// malformed, since no more bytes will ever arrive.
pub fn decode_driver_eof(buf: &[u8]) -> (r: Result<Option<(DriverMessage, usize)>, IpiError>)
    ensures
        buf@.len() == 0 ==> (r matches Ok(o) && o is None),
        buf@.len() > 0 ==> match spec_decode_driver(buf@) {
            DecodeStep::NeedMore => r matches Err(e) && e == IpiError::MalformedFrame,
            DecodeStep::Malformed => r matches Err(e) && e == IpiError::MalformedFrame,
            DecodeStep::Frame(v, n) => r matches Ok(o) && o matches Some((m, used)) && m@ == v
                && used == n && m@.wf(),
        },
{
    if buf.len() == 0 {
        return Ok(None);
    }
    match decode_driver(buf) {
        Ok(None) => Err(IpiError::MalformedFrame),
        Ok(Some(x)) => Ok(Some(x)),
        Err(e) => Err(e),
    }
}

/// Decode one client frame at end of stream; see [`decode_driver_eof`].
pub fn decode_client_eof(buf: &[u8]) -> (r: Result<Option<(ClientMessage, usize)>, IpiError>)
    ensures
        buf@.len() == 0 ==> (r matches Ok(o) && o is None),
        buf@.len() > 0 ==> match spec_decode_client(buf@) {
            DecodeStep::NeedMore => r matches Err(e) && e == IpiError::MalformedFrame,
            DecodeStep::Malformed => r matches Err(e) && e == IpiError::MalformedFrame,
            DecodeStep::Frame(v, n) => r matches Ok(o) && o matches Some((m, used)) && m@ == v
                && used == n && m@.wf(),
        },
{
    if buf.len() == 0 {
        return Ok(None);
    }
    match decode_client(buf) {
        Ok(None) => Err(IpiError::MalformedFrame),
        Ok(Some(x)) => Ok(Some(x)),
        Err(e) => Err(e),
    }
}

/// Round trip, driver side: decoding an encoded driver message yields the
/// message back, consuming exactly its frame.  A `PosData` message must be
/// in wire-canonical shape, since the wire does not transmit symbols or
/// freeze flags and always carries a cell.
pub proof fn lemma_round_trip_driver(m: DriverMessageV)
    requires
        m.wf(),
        m matches DriverMessageV::PosData(st) ==> st.wire_canonical(),
    ensures
        spec_decode_driver(spec_encode_driver(m)) == DecodeStep::Frame(
            m,
            spec_encode_driver(m).len() as int,
        ),
{
    lemma_auto_spec_u32_to_from_le_bytes();
    lemma_auto_spec_u64_to_from_le_bytes();
    let e = spec_encode_driver(m);
    match m {
        DriverMessageV::Status => {
            assert_seqs_equal!(e.subrange(0, 12) == spec_tag_bytes(Tag::Status));
        },
        DriverMessageV::GetForce => {
            assert_seqs_equal!(e.subrange(0, 12) == spec_tag_bytes(Tag::GetForce));
            lemma_tags_distinct(Tag::GetForce, Tag::Status);
        },
        DriverMessageV::Exit => {
            assert_seqs_equal!(e.subrange(0, 12) == spec_tag_bytes(Tag::Exit));
            lemma_tags_distinct(Tag::Exit, Tag::Status);
            lemma_tags_distinct(Tag::Exit, Tag::GetForce);
        },
        DriverMessageV::Init(d) => {
            assert(e.len() == 20 + d.init.len());
            assert_seqs_equal!(e.subrange(0, 12) == spec_tag_bytes(Tag::Init));
            lemma_tags_distinct(Tag::Init, Tag::Status);
            lemma_tags_distinct(Tag::Init, Tag::GetForce);
            lemma_tags_distinct(Tag::Init, Tag::Exit);
            assert_seqs_equal!(e.subrange(12, 16) == spec_u32_to_le_bytes(d.ibead as u32));
            assert_seqs_equal!(e.subrange(16, 20) == spec_u32_to_le_bytes(d.nbytes as u32));
            let ibead_w = spec_u32_from_le_bytes(e.subrange(12, 16));
            let nb_w = spec_u32_from_le_bytes(e.subrange(16, 20));
            assert(ibead_w == d.ibead as u32);
            assert(nb_w == d.nbytes as u32);
            assert(ibead_w as int == d.ibead);
            assert(nb_w as int == d.nbytes);
            assert_seqs_equal!(e.subrange(20, 20 + nb_w) == d.init);
            let step = spec_decode_driver(e);
            assert(step matches DecodeStep::Frame(v, n) && n == e.len());
            assert(step->Frame_0->Init_0 =~= d);
        },
        DriverMessageV::PosData(st) => {
            let lat = st.lattice->0;
            let n = st.atoms.len() as int;
            lemma_le8_concat_len(lat.vectors);
            lemma_le8_concat_len(lat.inverse);
            lemma_spec_positions_len(st.atoms);
            lemma_le8_concat_len(spec_positions(st.atoms));
            assert(e.len() == 160 + 24 * n);
            assert_seqs_equal!(e.subrange(0, 12) == spec_tag_bytes(Tag::PosData));
            lemma_tags_distinct(Tag::PosData, Tag::Status);
            lemma_tags_distinct(Tag::PosData, Tag::GetForce);
            lemma_tags_distinct(Tag::PosData, Tag::Exit);
            lemma_tags_distinct(Tag::PosData, Tag::Init);
            assert_seqs_equal!(
                e.subrange(156, 160) == spec_u32_to_le_bytes(st.atoms.len() as u32)
            );
            let n_w = spec_u32_from_le_bytes(e.subrange(156, 160));
            assert(n_w == st.atoms.len() as u32);
            assert(n_w as int == n);
            assert_seqs_equal!(e.subrange(12, 84) == spec_le8_concat(lat.vectors));
            assert_seqs_equal!(e.subrange(84, 156) == spec_le8_concat(lat.inverse));
            lemma_u64s_of_le8_concat(lat.vectors);
            lemma_u64s_of_le8_concat(lat.inverse);
            assert_seqs_equal!(
                e.subrange(160, 160 + 24 * n) == spec_le8_concat(spec_positions(st.atoms))
            );
            lemma_u64s_of_le8_concat(spec_positions(st.atoms));
            let pos = spec_u64s_of(e.subrange(160, 160 + 24 * n));
            assert(pos == spec_positions(st.atoms));
            let atoms2 = Seq::new(
                n as nat,
                |i: int| AtomV {
                    symbol: Seq::empty(),
                    px: pos[3 * i],
                    py: pos[3 * i + 1],
                    pz: pos[3 * i + 2],
                    frozen: None,
                },
            );
            assert forall|i: int| 0 <= i < n implies atoms2[i] == st.atoms[i] by {
                lemma_spec_positions_index(st.atoms, i);
                assert(st.atoms[i].symbol =~= Seq::<u8>::empty());
                assert(atoms2[i] =~= st.atoms[i]);
            }
            assert_seqs_equal!(atoms2 == st.atoms);
            let step = spec_decode_driver(e);
            assert(step matches DecodeStep::Frame(v, n2) && n2 == e.len());
            assert(step->Frame_0->PosData_0 =~= st);
        },
    }
}

/// Round trip, client side: decoding an encoded client message yields the
/// message back, consuming exactly its frame.
pub proof fn lemma_round_trip_client(m: ClientMessageV)
    requires
        m.wf(),
    ensures
        spec_decode_client(spec_encode_client(m)) == DecodeStep::Frame(
            m,
            spec_encode_client(m).len() as int,
        ),
{
    lemma_auto_spec_u32_to_from_le_bytes();
    lemma_auto_spec_u64_to_from_le_bytes();
    let e = spec_encode_client(m);
    match m {
        ClientMessageV::Status(s) => {
            match s {
                ClientStatus::NeedInit => {
                    assert_seqs_equal!(e.subrange(0, 12) == spec_tag_bytes(Tag::NeedInit));
                },
                ClientStatus::Ready => {
                    assert_seqs_equal!(e.subrange(0, 12) == spec_tag_bytes(Tag::Ready));
                    lemma_tags_distinct(Tag::Ready, Tag::NeedInit);
                },
                ClientStatus::HaveData => {
                    assert_seqs_equal!(e.subrange(0, 12) == spec_tag_bytes(Tag::HaveData));
                    lemma_tags_distinct(Tag::HaveData, Tag::NeedInit);
                    lemma_tags_distinct(Tag::HaveData, Tag::Ready);
                },
                _ => {
                    assert(false);
                },
            }
        },
        ClientMessageV::ForceReady(c) => {
            let n = c.forces.len() as int / 3;
            assert(3 * n == c.forces.len()) by {
                vstd::arithmetic::div_mod::lemma_fundamental_div_mod(c.forces.len() as int, 3);
            }
            lemma_le8_concat_len(c.forces);
            lemma_le8_concat_len(c.virial);
            assert(e.len() == 100 + 24 * n + c.extra.len());
            assert_seqs_equal!(e.subrange(0, 12) == spec_tag_bytes(Tag::ForceReady));
            lemma_tags_distinct(Tag::ForceReady, Tag::NeedInit);
            lemma_tags_distinct(Tag::ForceReady, Tag::Ready);
            lemma_tags_distinct(Tag::ForceReady, Tag::HaveData);
            assert_seqs_equal!(e.subrange(12, 20) == spec_u64_to_le_bytes(c.energy));
            assert_seqs_equal!(e.subrange(20, 24) == spec_u32_to_le_bytes(n as u32));
            let n_w = spec_u32_from_le_bytes(e.subrange(20, 24));
            assert(n_w == n as u32);
            assert(n_w as int == n);
            assert_seqs_equal!(e.subrange(24, 24 + 24 * n) == spec_le8_concat(c.forces));
            lemma_u64s_of_le8_concat(c.forces);
            assert_seqs_equal!(
                e.subrange(24 + 24 * n, 96 + 24 * n) == spec_le8_concat(c.virial)
            );
            lemma_u64s_of_le8_concat(c.virial);
            assert_seqs_equal!(
                e.subrange(96 + 24 * n, 100 + 24 * n)
                    == spec_u32_to_le_bytes(c.extra.len() as u32)
            );
            let xl_w = spec_u32_from_le_bytes(e.subrange(96 + 24 * n, 100 + 24 * n));
            assert(xl_w == c.extra.len() as u32);
            assert(xl_w as int == c.extra.len() as int);
            assert_seqs_equal!(e.subrange(100 + 24 * n, 100 + 24 * n + xl_w) == c.extra);
            let step = spec_decode_client(e);
            assert(step matches DecodeStep::Frame(v, n2) && n2 == e.len());
            assert(step->Frame_0->ForceReady_0 =~= c);
        },
    }
}

/// The `int32` atom-count field of a `POSDATA` frame equals the number of
/// atoms of the structure, and the payload carries exactly three position
/// scalars (24 bytes) per atom.
pub proof fn lemma_posdata_atom_count(st: StructureV)
    requires
        st.wf(),
    ensures
        ({
            let e = spec_encode_driver(DriverMessageV::PosData(st));
            &&& spec_u32_from_le_bytes(e.subrange(156, 160)) == st.atoms.len() as u32
            &&& spec_positions(st.atoms).len() == 3 * st.atoms.len()
            &&& e.len() == 160 + 24 * st.atoms.len()
        }),
{
    lemma_auto_spec_u32_to_from_le_bytes();
    lemma_auto_spec_u64_to_from_le_bytes();
    let e = spec_encode_driver(DriverMessageV::PosData(st));
    match st.lattice {
        Some(lat) => {
            lemma_le8_concat_len(lat.vectors);
            lemma_le8_concat_len(lat.inverse);
        },
        None => {
            lemma_le8_concat_len(zero9());
        },
    }
    lemma_spec_positions_len(st.atoms);
    lemma_le8_concat_len(spec_positions(st.atoms));
    assert_seqs_equal!(e.subrange(156, 160) == spec_u32_to_le_bytes(st.atoms.len() as u32));
}

/// A `POSDATA` frame truncated by one byte does not decode: the codec
/// reports an incomplete frame, and at end of stream that incomplete frame
/// is a malformed one.
pub proof fn lemma_truncated_posdata(st: StructureV)
    requires
        st.wf(),
    ensures
        ({
            let e = spec_encode_driver(DriverMessageV::PosData(st));
            spec_decode_driver(e.subrange(0, e.len() - 1)) == DecodeStep::<
                DriverMessageV,
            >::NeedMore
        }),
{
    lemma_auto_spec_u32_to_from_le_bytes();
    lemma_auto_spec_u64_to_from_le_bytes();
    let e = spec_encode_driver(DriverMessageV::PosData(st));
    lemma_posdata_atom_count(st);
    let n = st.atoms.len() as int;
    let cut = e.subrange(0, e.len() - 1);
    assert(cut.len() == 159 + 24 * n);
    assert_seqs_equal!(cut.subrange(0, 12) == e.subrange(0, 12));
    assert_seqs_equal!(e.subrange(0, 12) == spec_tag_bytes(Tag::PosData));
    lemma_tags_distinct(Tag::PosData, Tag::Status);
    lemma_tags_distinct(Tag::PosData, Tag::GetForce);
    lemma_tags_distinct(Tag::PosData, Tag::Exit);
    lemma_tags_distinct(Tag::PosData, Tag::Init);
    if n == 0 {
        assert(cut.len() < 160);
    } else {
        assert(cut.len() >= 160);
        assert_seqs_equal!(cut.subrange(156, 160) == e.subrange(156, 160));
        let n_w = spec_u32_from_le_bytes(cut.subrange(156, 160));
        assert(n_w == st.atoms.len() as u32);
        assert(n_w as int == n);
        assert(cut.len() < 160 + 24 * n_w);
    }
}

} // verus!

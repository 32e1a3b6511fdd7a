//! The byte framing of a package container.
//!
//! A container is one file: a fixed eight-byte magic token naming the format
//! and its version, then a little-endian length and that many bytes of
//! UTF-8 JSON manifest, then a little-endian length and that many bytes of
//! compressed payload. Everything here works on plain byte vectors; the
//! lemma at the end shows that framing and unframing are inverses.

use vstd::bytes::{
    lemma_auto_spec_u32_to_from_le_bytes, spec_u32_from_le_bytes, spec_u32_to_le_bytes,
    u32_from_le_bytes, u32_to_le_bytes,
};
use vstd::prelude::*;
use vstd::slice::{slice_subrange, slice_to_vec};

use crate::seqs::lemma_concat_extract;

verus! {

/// The magic token: the ASCII bytes of `EtoPack1`.
pub open spec fn magic() -> Seq<u8> {
    seq![0x45u8, 0x74u8, 0x6fu8, 0x50u8, 0x61u8, 0x63u8, 0x6bu8, 0x31u8]
}

/// The container holding the given manifest and payload blocks.
pub open spec fn container_bytes(mb: Seq<u8>, payload: Seq<u8>) -> Seq<u8> {
    magic() + spec_u32_to_le_bytes(mb.len() as u32) + mb + spec_u32_to_le_bytes(
        payload.len() as u32,
    ) + payload
}

/// Whether the data opens with the magic token.
pub open spec fn container_magic_ok(d: Seq<u8>) -> bool {
    d.len() >= 8 && d.subrange(0, 8) == magic()
}

/// The manifest block of a container, when the magic token matches and the
/// block lies fully inside the data.
pub open spec fn spec_manifest_block(d: Seq<u8>) -> Option<Seq<u8>> {
    if !container_magic_ok(d) || d.len() < 12 {
        None
    } else {
        let l1 = spec_u32_from_le_bytes(d.subrange(8, 12)) as int;
        if 12 + l1 > d.len() {
            None
        } else {
            Some(d.subrange(12, 12 + l1))
        }
    }
}

/// The payload block of a container, when its length prefix and the block
/// itself lie fully inside the data. Bytes after the payload are ignored.
pub open spec fn spec_payload_block(d: Seq<u8>) -> Option<Seq<u8>> {
    match spec_manifest_block(d) {
        None => None,
        Some(mb) => {
            let off = 12 + mb.len() as int;
            if off + 4 > d.len() {
                None
            } else {
                let l2 = spec_u32_from_le_bytes(d.subrange(off, off + 4)) as int;
                if off + 4 + l2 > d.len() {
                    None
                } else {
                    Some(d.subrange(off + 4, off + 4 + l2))
                }
            }
        },
    }
}

/// The magic token as bytes.
pub fn magic_bytes() -> (r: Vec<u8>)
    ensures
        r@ == magic(),
{
    let mut v: Vec<u8> = Vec::new();
    v.push(0x45);
    v.push(0x74);
    v.push(0x6f);
    v.push(0x50);
    v.push(0x61);
    v.push(0x63);
    v.push(0x6b);
    v.push(0x31);
    proof {
        assert(v@ =~= magic());
    }
    v
}

/// Frames a manifest block and a payload block into one container. Fails
/// exactly when either block is too long for its 32-bit length prefix.
pub fn encode_container(mb: &Vec<u8>, payload: &Vec<u8>) -> (r: Option<Vec<u8>>)
    ensures
        match r {
            Some(v) => mb@.len() <= u32::MAX && payload@.len() <= u32::MAX && v@
                == container_bytes(mb@, payload@),
            None => mb@.len() > u32::MAX || payload@.len() > u32::MAX,
        },
{
    if mb.len() > u32::MAX as usize {
        return None;
    }
    if payload.len() > u32::MAX as usize {
        return None;
    }
    let mut out = magic_bytes();
    let mut l1 = u32_to_le_bytes(mb.len() as u32);
    out.append(&mut l1);
    let mut mbc = mb.clone();
    out.append(&mut mbc);
    let mut l2 = u32_to_le_bytes(payload.len() as u32);
    out.append(&mut l2);
    let mut pc = payload.clone();
    out.append(&mut pc);
    proof {
        assert(out@ =~= container_bytes(mb@, payload@));
    }
    Some(out)
}

/// Whether the data opens with the magic token.
pub fn check_magic(d: &Vec<u8>) -> (r: bool)
    ensures
        r == container_magic_ok(d@),
{
    if d.len() < 8 {
        return false;
    }
    let m = magic_bytes();
    let mut i: usize = 0;
    while i < 8
        invariant
            i <= 8,
            d@.len() >= 8,
            m@ == magic(),
            forall|j: int| 0 <= j < i ==> d@[j] == magic()[j],
        decreases 8 - i,
    {
        if !(d[i] == m[i]) {
            proof {
                assert(d@.subrange(0, 8)[i as int] != magic()[i as int]);
            }
            return false;
        }
        i = i + 1;
    }
    proof {
        assert(d@.subrange(0, 8) =~= magic());
    }
    true
}

/// Reads the manifest block, mirroring `spec_manifest_block`.
pub fn manifest_block(d: &Vec<u8>) -> (r: Option<Vec<u8>>)
    ensures
        match r {
            Some(v) => spec_manifest_block(d@) == Some(v@),
            None => spec_manifest_block(d@) is None,
        },
{
    if !check_magic(d) {
        return None;
    }
    if d.len() < 12 {
        return None;
    }
    let l1 = u32_from_le_bytes(slice_subrange(d.as_slice(), 8, 12));
    let l1u = l1 as usize;
    if d.len() - 12 < l1u {
        return None;
    }
    Some(slice_to_vec(slice_subrange(d.as_slice(), 12, 12 + l1u)))
}

/// Reads the payload block, mirroring `spec_payload_block`.
pub fn payload_block(d: &Vec<u8>) -> (r: Option<Vec<u8>>)
    ensures
        match r {
            Some(v) => spec_payload_block(d@) == Some(v@),
            None => spec_payload_block(d@) is None,
        },
{
    if !check_magic(d) {
        return None;
    }
    if d.len() < 12 {
        return None;
    }
    let l1 = u32_from_le_bytes(slice_subrange(d.as_slice(), 8, 12));
    let l1u = l1 as usize;
    if d.len() - 12 < l1u {
        return None;
    }
    let off: usize = 12 + l1u;
    if d.len() - off < 4 {
        return None;
    }
    let l2 = u32_from_le_bytes(slice_subrange(d.as_slice(), off, off + 4));
    let l2u = l2 as usize;
    if d.len() - off - 4 < l2u {
        return None;
    }
    Some(slice_to_vec(slice_subrange(d.as_slice(), off + 4, off + 4 + l2u)))
}

/// Unframing a framed container yields the original blocks.
pub proof fn lemma_container_round(mb: Seq<u8>, payload: Seq<u8>)
    requires
        mb.len() <= u32::MAX,
        payload.len() <= u32::MAX,
    ensures
        container_magic_ok(container_bytes(mb, payload)),
        spec_manifest_block(container_bytes(mb, payload)) == Some(mb),
        spec_payload_block(container_bytes(mb, payload)) == Some(payload),
{
    lemma_auto_spec_u32_to_from_le_bytes();
    let d = container_bytes(mb, payload);
    let c1 = magic();
    let c2 = spec_u32_to_le_bytes(mb.len() as u32);
    let c3 = mb;
    let c4 = spec_u32_to_le_bytes(payload.len() as u32);
    let c5 = payload;
    let u1 = c1;
    let u2 = u1 + c2;
    let u3 = u2 + c3;
    let u4 = u3 + c4;
    let u5 = u4 + c5;
    assert(d == u5);
    lemma_concat_extract(u1, c2);
    lemma_concat_extract(u2, c3);
    lemma_concat_extract(u3, c4);
    lemma_concat_extract(u4, c5);
    assert(u1.subrange(0, 8) =~= c1);
    assert(d.subrange(0, 8) == c1);
    assert(d.subrange(8, 12) == c2);
    assert(d.subrange(12, 12 + mb.len() as int) == c3);
    assert(d.subrange(12 + mb.len() as int, 16 + mb.len() as int) == c4);
    assert(d.subrange(16 + mb.len() as int, 16 + mb.len() as int + payload.len() as int) == c5);
}

} // verus!

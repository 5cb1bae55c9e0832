//! The byte-addressable call frame: little-endian loads and stores of the
//! four value widths, bounds-checked against the frame's extent.
//!
//! The frame base sits at the *end* of the region, so all valid direct
//! offsets are negative or zero, matching native stack conventions.

use vstd::bytes::*;
use vstd::pervasive::VecAdditionalExecFns;
use vstd::prelude::*;
use vstd::slice::slice_subrange;

use crate::instruction::Size;

verus! {

/// Whether a read or write of width `sz` at byte position `loc` lies inside
/// the frame.
pub open spec fn can_access(frame: Seq<u8>, loc: int, sz: Size) -> bool {
    0 <= loc && loc + sz.spec_bytes() <= frame.len()
}

/// The value of width `sz` stored little-endian at byte position `loc`,
/// zero-extended to 8 bytes.
pub open spec fn load_at(frame: Seq<u8>, loc: int, sz: Size) -> u64
    recommends
        can_access(frame, loc, sz),
{
    let n = frame.len();
    match sz {
        Size::B => frame[loc] as u64,
        Size::H => spec_u16_from_le_bytes(frame.subrange(loc, loc + 2)) as u64,
        Size::D => spec_u32_from_le_bytes(frame.subrange(loc, loc + 4)) as u64,
        Size::Q => spec_u64_from_le_bytes(frame.subrange(loc, loc + 8)),
    }
}

/// `s` with the bytes at `at .. at + bytes.len()` replaced by `bytes`.
pub open spec fn splice(s: Seq<u8>, at: int, bytes: Seq<u8>) -> Seq<u8>
    recommends
        0 <= at,
        at + bytes.len() <= s.len(),
{
    s.take(at) + bytes + s.skip(at + bytes.len())
}

/// The frame after storing the low `sz` bytes of `v` little-endian at byte
/// position `loc`.
pub open spec fn store_at(frame: Seq<u8>, loc: int, sz: Size, v: u64) -> Seq<u8>
    recommends
        can_access(frame, loc, sz),
{
    match sz {
        Size::B => frame.update(loc, v as u8),
        Size::H => splice(frame, loc, spec_u16_to_le_bytes(#[verifier::truncate] (v as u16))),
        Size::D => splice(frame, loc, spec_u32_to_le_bytes(#[verifier::truncate] (v as u32))),
        Size::Q => splice(frame, loc, spec_u64_to_le_bytes(v)),
    }
}

/// Storing never changes the frame's length.
pub proof fn lemma_store_at_len(frame: Seq<u8>, loc: int, sz: Size, v: u64)
    requires
        can_access(frame, loc, sz),
    ensures
        store_at(frame, loc, sz, v).len() == frame.len(),
{
    lemma_auto_spec_u16_to_from_le_bytes();
    lemma_auto_spec_u32_to_from_le_bytes();
    lemma_auto_spec_u64_to_from_le_bytes();
}

/// Reads the value of width `sz` at `loc`, zero-extended to a `u64`.
pub fn load_frame(frame: &Vec<u8>, loc: usize, sz: Size) -> (v: u64)
    requires
        can_access(frame@, loc as int, sz),
    ensures
        v == load_at(frame@, loc as int, sz),
{
    let n = frame.len();
    match sz {
        Size::B => frame[loc] as u64,
        Size::H => u16_from_le_bytes(slice_subrange(frame.as_slice(), loc, loc + 2)) as u64,
        Size::D => u32_from_le_bytes(slice_subrange(frame.as_slice(), loc, loc + 4)) as u64,
        Size::Q => u64_from_le_bytes(slice_subrange(frame.as_slice(), loc, loc + 8)),
    }
}

/// Stores the low `sz` bytes of `v` at `loc`, little-endian.
pub fn store_frame(frame: &mut Vec<u8>, loc: usize, sz: Size, v: u64)
    requires
        can_access(old(frame)@, loc as int, sz),
    ensures
        final(frame)@ == store_at(old(frame)@, loc as int, sz, v),
{
    let n = frame.len();
    proof {
        lemma_auto_spec_u16_to_from_le_bytes();
        lemma_auto_spec_u32_to_from_le_bytes();
        lemma_auto_spec_u64_to_from_le_bytes();
    }
    match sz {
        Size::B => {
            frame.set(loc, #[verifier::truncate] (v as u8));
        }
        Size::H => {
            let bs = u16_to_le_bytes(#[verifier::truncate] (v as u16));
            frame.set(loc, bs[0]);
            frame.set(loc + 1, bs[1]);
            proof {
                assert(frame@ =~= splice(old(frame)@, loc as int, spec_u16_to_le_bytes(#[verifier::truncate] (v as u16))));
            }
        }
        Size::D => {
            let bs = u32_to_le_bytes(#[verifier::truncate] (v as u32));
            frame.set(loc, bs[0]);
            frame.set(loc + 1, bs[1]);
            frame.set(loc + 2, bs[2]);
            frame.set(loc + 3, bs[3]);
            proof {
                assert(frame@ =~= splice(old(frame)@, loc as int, spec_u32_to_le_bytes(#[verifier::truncate] (v as u32))));
            }
        }
        Size::Q => {
            let bs = u64_to_le_bytes(v);
            frame.set(loc, bs[0]);
            frame.set(loc + 1, bs[1]);
            frame.set(loc + 2, bs[2]);
            frame.set(loc + 3, bs[3]);
            frame.set(loc + 4, bs[4]);
            frame.set(loc + 5, bs[5]);
            frame.set(loc + 6, bs[6]);
            frame.set(loc + 7, bs[7]);
            proof {
                assert(frame@ =~= splice(old(frame)@, loc as int, spec_u64_to_le_bytes(v)));
            }
        }
    }
}

} // verus!

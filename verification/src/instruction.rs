//! The intermediate representation: value widths, operands, labels and
//! instructions, together with their small well-formedness predicates.

use vstd::prelude::*;

verus! {

/// Width in bytes of a value loaded from or stored to a frame.  All
/// arithmetic is performed on 8-byte values; narrower widths are
/// zero-extended on load and truncated on store.
#[derive(Clone, Copy, Debug, PartialEq, Eq, Structural)]
pub enum Size {
    B,
    H,
    D,
    Q,
}

impl Size {
    /// The number of bytes this width occupies in memory.
    pub open spec fn spec_bytes(self) -> nat {
        match self {
            Size::B => 1,
            Size::H => 2,
            Size::D => 4,
            Size::Q => 8,
        }
    }

    /// The number of bytes this width occupies in memory.
    pub fn bytes(self) -> (n: usize)
        ensures
            n == self.spec_bytes(),
    {
        match self {
            Size::B => 1,
            Size::H => 2,
            Size::D => 4,
            Size::Q => 8,
        }
    }
}

/// A repeat count attached to a copy instruction.  `Count(1)` is a single
/// scalar copy; any other count is a bulk copy whose source and destination
/// widths must match.
#[derive(Clone, Copy, Debug)]
pub struct Count(pub u64);

/// An opaque jump-target identifier, unique within one program.
#[derive(Clone, Copy, Debug, Hash, Eq, PartialEq, PartialOrd, Ord, Structural)]
pub struct Label(pub u64);

/// A readable operand.
#[derive(Clone, Copy, Debug)]
pub enum Src {
    /// No value available; must never be read for its bits.  The evaluator
    /// yields a fixed sentinel pattern, and the generator schedules no load.
    Uninitialized,
    /// A compile-time constant.
    Imm(u64),
    /// A pointer-sized value is read from the frame at the first offset; the
    /// operand's value is then read at the second offset past that pointer,
    /// with the given width.
    Ptr(i32, i32, Size),
    /// A value stored directly in the frame at a signed byte offset from the
    /// frame base.
    Here(i32, Size),
}

/// A writable operand: the readable modes minus immediates, plus `Nowhere`,
/// which swallows the value without touching the frame.
#[derive(Clone, Copy, Debug)]
pub enum Dest {
    /// The write has no effect; used when an instruction produces a value
    /// nobody wants.
    Nowhere,
    /// Write through a pointer stored in the frame, as in [`Src::Ptr`].
    Ptr(i32, i32, Size),
    /// Write directly into the frame, as in [`Src::Here`].
    Here(i32, Size),
}

/// One operation of the closed instruction set.
#[derive(Clone, Copy, Debug)]
pub enum Instruction {
    /// Marks the start of the procedure: how many bytes of local frame
    /// storage are needed, and where each of the six incoming call arguments
    /// is stored (or discarded).
    Begin(u64, [Dest; 6]),
    /// Ends execution, yielding the operand's value as the result.
    Ret(Src),
    /// Moves `Count` consecutive values from source to destination.
    /// Too-small sources are zero-extended to a u64; too-small destinations
    /// take the low bits of the u64.
    Copy(Dest, Src, Count),
    /// If the operand's value is non-zero, control transfers to the label;
    /// otherwise it falls through.
    JIf(Src, Label),
    /// Defines a label at this program point; no other effect.
    Label(Label),
    /// Invokes a foreign function at a raw address, taking six 8-byte
    /// arguments and returning one 8-byte value stored to the destination.
    FFICall(Dest, [Src; 6], u64),
}

impl Src {
    /// The element stride of the offset transform for this operand: its
    /// width in bytes for a frame operand.  An operand without a far offset
    /// is unaffected by the transform; its stride is one.
    pub open spec fn spec_stride(self) -> nat {
        match self {
            Src::Uninitialized => 1,
            Src::Imm(_) => 1,
            Src::Ptr(_, _, sz) => sz.spec_bytes(),
            Src::Here(_, sz) => sz.spec_bytes(),
        }
    }

    /// The element stride of the offset transform for this operand.
    pub fn stride(self) -> (r: u64)
        ensures
            r == self.spec_stride(),
    {
        match self {
            Src::Uninitialized => 1,
            Src::Imm(_) => 1,
            Src::Ptr(_, _, sz) => sz.bytes() as u64,
            Src::Here(_, sz) => sz.bytes() as u64,
        }
    }

    /// Whether the generator schedules a load for this operand.
    pub open spec fn spec_needs_load(self) -> bool {
        !(self is Uninitialized)
    }

    /// Whether the generator schedules a load for this operand.
    pub fn needs_load(&self) -> (r: bool)
        ensures
            r == self.spec_needs_load(),
    {
        match self {
            Src::Uninitialized => false,
            _ => true,
        }
    }

    /// Whether shifting the far offset by `amt` stays representable.
    pub open spec fn offset_in_range(self, amt: int) -> bool {
        match self {
            Src::Uninitialized => true,
            Src::Imm(_) => true,
            Src::Ptr(_, far, _) => i32::MIN <= far + amt <= i32::MAX,
            Src::Here(off, _) => i32::MIN <= off + amt <= i32::MAX,
        }
    }

    /// The operand with its far offset (the direct frame offset, or the
    /// field offset past the pointer) shifted by `amt`.  The pointer-fetch
    /// offset of `Ptr` is untouched.
    pub open spec fn spec_offset(self, amt: int) -> Src
        recommends
            self.offset_in_range(amt),
    {
        match self {
            Src::Uninitialized => Src::Uninitialized,
            Src::Imm(x) => Src::Imm(x),
            Src::Ptr(near, far, sz) => Src::Ptr(near, (far + amt) as i32, sz),
            Src::Here(off, sz) => Src::Here((off + amt) as i32, sz),
        }
    }

    /// Shifts the far offset by `amt`, leaving the pointer-fetch offset of
    /// `Ptr` untouched.
    pub fn offset(self, amt: i32) -> (r: Src)
        requires
            self.offset_in_range(amt as int),
        ensures
            r == self.spec_offset(amt as int),
    {
        match self {
            Src::Uninitialized => Src::Uninitialized,
            Src::Imm(x) => Src::Imm(x),
            Src::Ptr(near, far, sz) => Src::Ptr(near, far + amt, sz),
            Src::Here(off, sz) => Src::Here(off + amt, sz),
        }
    }
}

impl Dest {
    /// The element stride of the offset transform for this operand: its
    /// width in bytes for a frame operand.  `Nowhere` has no far offset;
    /// its stride is one.
    pub open spec fn spec_stride(self) -> nat {
        match self {
            Dest::Nowhere => 1,
            Dest::Ptr(_, _, sz) => sz.spec_bytes(),
            Dest::Here(_, sz) => sz.spec_bytes(),
        }
    }

    /// The element stride of the offset transform for this operand.
    pub fn stride(self) -> (r: u64)
        ensures
            r == self.spec_stride(),
    {
        match self {
            Dest::Nowhere => 1,
            Dest::Ptr(_, _, sz) => sz.bytes() as u64,
            Dest::Here(_, sz) => sz.bytes() as u64,
        }
    }

    /// Whether the generator schedules a store for this operand.
    pub open spec fn spec_needs_store(self) -> bool {
        !(self is Nowhere)
    }

    /// Whether the generator schedules a store for this operand.
    pub fn needs_store(&self) -> (r: bool)
        ensures
            r == self.spec_needs_store(),
    {
        match self {
            Dest::Nowhere => false,
            _ => true,
        }
    }

    /// Whether shifting the far offset by `amt` stays representable.
    pub open spec fn offset_in_range(self, amt: int) -> bool {
        match self {
            Dest::Nowhere => true,
            Dest::Ptr(_, far, _) => i32::MIN <= far + amt <= i32::MAX,
            Dest::Here(off, _) => i32::MIN <= off + amt <= i32::MAX,
        }
    }

    /// The operand with its far offset shifted by `amt`, as in
    /// [`Src::spec_offset`].
    pub open spec fn spec_offset(self, amt: int) -> Dest
        recommends
            self.offset_in_range(amt),
    {
        match self {
            Dest::Nowhere => Dest::Nowhere,
            Dest::Ptr(near, far, sz) => Dest::Ptr(near, (far + amt) as i32, sz),
            Dest::Here(off, sz) => Dest::Here((off + amt) as i32, sz),
        }
    }

    /// Shifts the far offset by `amt`, leaving the pointer-fetch offset of
    /// `Ptr` untouched.
    pub fn offset(self, amt: i32) -> (r: Dest)
        requires
            self.offset_in_range(amt as int),
        ensures
            r == self.spec_offset(amt as int),
    {
        match self {
            Dest::Nowhere => Dest::Nowhere,
            Dest::Ptr(near, far, sz) => Dest::Ptr(near, far + amt, sz),
            Dest::Here(off, sz) => Dest::Here(off + amt, sz),
        }
    }
}

/// Whether a copy between these operands moves values of one width.
/// Immediates, uninitialized sources and discarded destinations are
/// compatible with any width.
pub open spec fn spec_same_size(dest: Dest, src: Src) -> bool {
    match (dest, src) {
        (Dest::Nowhere, _) => true,
        (_, Src::Uninitialized) => true,
        (_, Src::Imm(_)) => true,
        (Dest::Ptr(_, _, sz1), Src::Ptr(_, _, sz2)) => sz1 == sz2,
        (Dest::Ptr(_, _, sz1), Src::Here(_, sz2)) => sz1 == sz2,
        (Dest::Here(_, sz1), Src::Ptr(_, _, sz2)) => sz1 == sz2,
        (Dest::Here(_, sz1), Src::Here(_, sz2)) => sz1 == sz2,
    }
}

/// Whether a copy between these operands moves values of one width.
pub fn same_size(dest: Dest, src: Src) -> (r: bool)
    ensures
        r == spec_same_size(dest, src),
{
    match (dest, src) {
        (Dest::Nowhere, _) => true,
        (_, Src::Uninitialized) => true,
        (_, Src::Imm(_)) => true,
        (Dest::Ptr(_, _, sz1), Src::Ptr(_, _, sz2)) => sz1 == sz2,
        (Dest::Ptr(_, _, sz1), Src::Here(_, sz2)) => sz1 == sz2,
        (Dest::Here(_, sz1), Src::Ptr(_, _, sz2)) => sz1 == sz2,
        (Dest::Here(_, sz1), Src::Here(_, sz2)) => sz1 == sz2,
    }
}

} // verus!

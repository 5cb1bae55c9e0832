//! The native code generator: lowers a program into x86-64 machine code with
//! two-pass label relocation.
//!
//! All values are routed through one accumulator (`rax`); stores go through
//! `rcx`.  Frame operands are addressed relative to `rbp`.  Branch targets
//! are emitted as 4-byte placeholders and patched in a second pass once
//! every label's byte offset is known, so forward references cost nothing.
//! The requested load address never enters the emitted bytes: every
//! relocation is relative.

use vstd::bytes::*;
use vstd::pervasive::VecAdditionalExecFns;
use vstd::prelude::*;
use vstd::seq_lib::lemma_concat_associative;

use crate::frame::splice;
use crate::instruction::{same_size, spec_same_size, Dest, Instruction, Label, Size, Src};
use crate::ProgramError;

verus! {

/// The little-endian bytes of a 32-bit immediate.
pub open spec fn enc_u32(x: u32) -> Seq<u8> {
    spec_u32_to_le_bytes(x)
}

/// The little-endian bytes of a signed 32-bit displacement.
pub open spec fn enc_i32(x: i32) -> Seq<u8> {
    spec_u32_to_le_bytes(x as u32)
}

/// The little-endian bytes of a 64-bit immediate.
pub open spec fn enc_u64(x: u64) -> Seq<u8> {
    spec_u64_to_le_bytes(x)
}

/// A width-`sz` load into `rax` from `[rax + offset]`, zero-extending.
pub open spec fn enc_load_disp(offset: i32, sz: Size) -> Seq<u8> {
    (match sz {
        Size::B => seq![0x0fu8, 0xb6, 0x80],
        Size::H => seq![0x0fu8, 0xb7, 0x80],
        Size::D => seq![0x8bu8, 0x80],
        Size::Q => seq![0x48u8, 0x8b, 0x80],
    }) + enc_i32(offset)
}

/// A width-`sz` store of the accumulator's low bytes to `[rcx + offset]`.
pub open spec fn enc_store_disp(offset: i32, sz: Size) -> Seq<u8> {
    (match sz {
        Size::B => seq![0x88u8, 0x81],
        Size::H => seq![0x66u8, 0x89, 0x81],
        Size::D => seq![0x89u8, 0x81],
        Size::Q => seq![0x48u8, 0x89, 0x81],
    }) + enc_i32(offset)
}

/// The code that loads one readable operand into `rax`:
/// nothing for `Uninitialized`, an immediate move (`xor eax, eax` for zero),
/// or `rbp`-relative loads — two of them, pointer then field, for `Ptr`.
pub open spec fn enc_load_rax(src: Src) -> Seq<u8> {
    match src {
        Src::Uninitialized => Seq::empty(),
        Src::Imm(x) => if x == 0 {
            seq![0x31u8, 0xc0]
        } else {
            seq![0x48u8, 0xb8] + enc_u64(x)
        },
        Src::Ptr(near, far, sz) => seq![0x48u8, 0x89, 0xe8] + enc_load_disp(near, Size::Q)
            + enc_load_disp(far, sz),
        Src::Here(off, sz) => seq![0x48u8, 0x89, 0xe8] + enc_load_disp(off, sz),
    }
}

/// A Q-wide pointer fetch into `rcx` from `[rcx + offset]`.
pub open spec fn enc_load_rcx_ptr(offset: i32) -> Seq<u8> {
    seq![0x48u8, 0x8b, 0x89] + enc_i32(offset)
}

/// The code that stores `rax` to one writable operand: nothing for
/// `Nowhere`, else address the frame through `rcx` — for `Ptr`, the stored
/// pointer is fetched through `rcx` alone, so the value waiting in the
/// accumulator is preserved — and store with the operand's width.
pub open spec fn enc_store_rax(dest: Dest) -> Seq<u8> {
    match dest {
        Dest::Nowhere => Seq::empty(),
        Dest::Ptr(near, far, sz) => seq![0x48u8, 0x89, 0xe9] + enc_load_rcx_ptr(near)
            + enc_store_disp(far, sz),
        Dest::Here(off, sz) => seq![0x48u8, 0x89, 0xe9] + enc_store_disp(off, sz),
    }
}

/// `mov rax, <k-th argument register>` for the order rdi, rsi, rdx, rcx,
/// r8, r9.
pub open spec fn enc_mov_rax_arg(k: int) -> Seq<u8> {
    if k == 0 {
        seq![0x48u8, 0x89, 0xf8]
    } else if k == 1 {
        seq![0x48u8, 0x89, 0xf0]
    } else if k == 2 {
        seq![0x48u8, 0x89, 0xd0]
    } else if k == 3 {
        seq![0x48u8, 0x89, 0xc8]
    } else if k == 4 {
        seq![0x4cu8, 0x89, 0xc0]
    } else {
        seq![0x4cu8, 0x89, 0xc8]
    }
}

/// The stores of the first `n` incoming argument registers to their declared
/// destinations; a `Nowhere` slot emits no instruction at all.
pub open spec fn enc_begin_stores(dests: Seq<Dest>, n: int) -> Seq<u8>
    decreases n,
{
    if n <= 0 {
        Seq::empty()
    } else {
        enc_begin_stores(dests, n - 1) + if dests[n - 1].spec_needs_store() {
            enc_mov_rax_arg(n - 1) + enc_store_rax(dests[n - 1])
        } else {
            Seq::empty()
        }
    }
}

/// The prologue: save and establish the frame pointer, reserve the frame
/// bytes (omitted when zero), then store the argument registers.
pub open spec fn enc_begin(n_bytes: u64, dests: Seq<Dest>) -> Seq<u8> {
    seq![0x55u8, 0x48, 0x89, 0xe5] + (if n_bytes > 0 {
        seq![0x48u8, 0x81, 0xec] + enc_u32(n_bytes as u32)
    } else {
        Seq::empty()
    }) + enc_begin_stores(dests, 6)
}

/// The epilogue: load the result into `rax`, restore the caller's frame
/// pointer and return.
pub open spec fn enc_ret(src: Src) -> Seq<u8> {
    enc_load_rax(src) + seq![0x48u8, 0x89, 0xec, 0x5d, 0xc3]
}

/// The first `n` load/store pairs of an unrolled copy, the `i`-th pair with
/// both far offsets advanced by `i` elements — `i` times the operand's own
/// width — stepping through consecutive values.
pub open spec fn enc_copy_pairs(dest: Dest, src: Src, n: int) -> Seq<u8>
    decreases n,
{
    if n <= 0 {
        Seq::empty()
    } else {
        enc_copy_pairs(dest, src, n - 1) + enc_load_rax(
            src.spec_offset((n - 1) * src.spec_stride()),
        ) + enc_store_rax(dest.spec_offset((n - 1) * dest.spec_stride()))
    }
}

/// A copy to `Nowhere` emits nothing; otherwise `count` unrolled pairs.
pub open spec fn enc_copy(dest: Dest, src: Src, count: u64) -> Seq<u8> {
    if dest.spec_needs_store() {
        enc_copy_pairs(dest, src, count as int)
    } else {
        Seq::empty()
    }
}

/// `push <k-th argument register>; mov <k-th argument register>, rax`: park
/// the caller-owned register, then marshal the loaded value into it.
pub open spec fn enc_marshal_arg(k: int) -> Seq<u8> {
    if k == 0 {
        seq![0x57u8, 0x48, 0x89, 0xc7]
    } else if k == 1 {
        seq![0x56u8, 0x48, 0x89, 0xc6]
    } else if k == 2 {
        seq![0x52u8, 0x48, 0x89, 0xc2]
    } else if k == 3 {
        seq![0x51u8, 0x48, 0x89, 0xc1]
    } else if k == 4 {
        seq![0x41u8, 0x50, 0x49, 0x89, 0xc0]
    } else {
        seq![0x41u8, 0x51, 0x49, 0x89, 0xc1]
    }
}

/// `pop <k-th argument register>`.
pub open spec fn enc_cleanup_arg(k: int) -> Seq<u8> {
    if k == 0 {
        seq![0x5fu8]
    } else if k == 1 {
        seq![0x5eu8]
    } else if k == 2 {
        seq![0x5au8]
    } else if k == 3 {
        seq![0x59u8]
    } else if k == 4 {
        seq![0x41u8, 0x58]
    } else {
        seq![0x41u8, 0x59]
    }
}

/// The marshaling of the first `n` foreign-call operands, in order; an
/// operand needing no load contributes nothing.
pub open spec fn enc_ffi_marshal(srcs: Seq<Src>, n: int) -> Seq<u8>
    decreases n,
{
    if n <= 0 {
        Seq::empty()
    } else {
        enc_ffi_marshal(srcs, n - 1) + if srcs[n - 1].spec_needs_load() {
            enc_load_rax(srcs[n - 1]) + enc_marshal_arg(n - 1)
        } else {
            Seq::empty()
        }
    }
}

/// The first `n` register restores after a foreign call, walking the
/// argument slots in reverse (slot 5 first).
pub open spec fn enc_ffi_cleanup(srcs: Seq<Src>, n: int) -> Seq<u8>
    decreases n,
{
    if n <= 0 {
        Seq::empty()
    } else {
        enc_ffi_cleanup(srcs, n - 1) + if srcs[6 - n].spec_needs_load() {
            enc_cleanup_arg(6 - n)
        } else {
            Seq::empty()
        }
    }
}

/// A foreign call: marshal the operands, load the raw address into `rax`,
/// `call rax`, store the result (unless discarded), restore the parked
/// registers in reverse order.
pub open spec fn enc_fficall(dest: Dest, srcs: Seq<Src>, target: u64) -> Seq<u8> {
    enc_ffi_marshal(srcs, 6) + seq![0x48u8, 0xb8] + enc_u64(target) + seq![0xffu8, 0xd0] + (
    if dest.spec_needs_store() {
        enc_store_rax(dest)
    } else {
        Seq::empty()
    }) + enc_ffi_cleanup(srcs, 6)
}

/// The bytes one instruction contributes to the procedure body.  Branches on
/// a constant condition are folded: a never-taken branch emits nothing, an
/// always-taken branch an unconditional `jmp`; a runtime condition is
/// loaded, tested, and conditionally jumped on.  Jump placeholders are four
/// zero bytes until relocation patches them.
pub open spec fn enc_instruction(instr: Instruction) -> Seq<u8> {
    match instr {
        Instruction::Begin(n_bytes, dests) => enc_begin(n_bytes, dests@),
        Instruction::Ret(src) => enc_ret(src),
        Instruction::Copy(dest, src, count) => enc_copy(dest, src, count.0),
        Instruction::JIf(src, _) => match src {
            Src::Imm(x) => if x == 0 {
                Seq::empty()
            } else {
                seq![0xe9u8, 0, 0, 0, 0]
            },
            _ => enc_load_rax(src) + seq![0x48u8, 0x85, 0xc0, 0x0f, 0x85, 0, 0, 0, 0],
        },
        Instruction::Label(_) => Seq::empty(),
        Instruction::FFICall(dest, srcs, target) => enc_fficall(dest, srcs@, target),
    }
}

/// A deferred fix-up: once every label's byte offset is known, the four
/// placeholder bytes at `at` receive the little-endian signed difference
/// between the label's offset and `relative_to` (the instruction-pointer
/// value the jump is relative to).
#[derive(Clone, Copy, Debug)]
pub struct LabelReference {
    /// Byte position of the 4-byte placeholder in the emitted code.
    pub at: usize,
    /// The label whose resolved offset the patch points at.
    pub label: Label,
    /// The byte offset the patched displacement is relative to.
    pub relative_to: usize,
}

/// The label table as a map from label to its recorded byte offset.
pub open spec fn assoc_map(s: Seq<(Label, usize)>) -> Map<Label, int>
    decreases s.len(),
{
    if s.len() == 0 {
        Map::empty()
    } else {
        assoc_map(s.drop_last()).insert(s.last().0, s.last().1 as int)
    }
}

/// Whether every entry's label appears only once.
pub open spec fn assoc_unique(s: Seq<(Label, usize)>) -> bool {
    forall|k1: int, k2: int|
        #![trigger s[k1], s[k2]]
        0 <= k1 < s.len() && 0 <= k2 < s.len() && s[k1].0 == s[k2].0 ==> k1 == k2
}

/// An entry of a duplicate-free table is the map's answer for its label.
pub proof fn lemma_assoc_map_index(s: Seq<(Label, usize)>, l: Label, k: int)
    requires
        assoc_unique(s),
        0 <= k < s.len(),
        s[k].0 == l,
    ensures
        assoc_map(s).dom().contains(l),
        assoc_map(s)[l] == s[k].1 as int,
    decreases s.len(),
{
    if k == s.len() - 1 {
    } else {
        assert(s.drop_last()[k] == s[k]);
        assert(assoc_unique(s.drop_last())) by {
            assert forall|k1: int, k2: int|
                #![trigger s.drop_last()[k1], s.drop_last()[k2]]
                0 <= k1 < s.drop_last().len() && 0 <= k2 < s.drop_last().len()
                    && s.drop_last()[k1].0 == s.drop_last()[k2].0 implies k1 == k2 by {
                assert(s.drop_last()[k1] == s[k1]);
                assert(s.drop_last()[k2] == s[k2]);
            };
        };
        lemma_assoc_map_index(s.drop_last(), l, k);
        assert(s.last() == s[s.len() - 1]);
        assert(s[s.len() - 1].0 != l);
    }
}

/// A label with no table entry is not in the map.
pub proof fn lemma_assoc_map_absent(s: Seq<(Label, usize)>, l: Label)
    requires
        forall|k: int| #![trigger s[k]] 0 <= k < s.len() ==> s[k].0 != l,
    ensures
        !assoc_map(s).dom().contains(l),
    decreases s.len(),
{
    if s.len() > 0 {
        assert forall|k: int| #![trigger s.drop_last()[k]] 0 <= k < s.drop_last().len()
            implies s.drop_last()[k].0 != l by {
            assert(s.drop_last()[k] == s[k]);
        };
        lemma_assoc_map_absent(s.drop_last(), l);
        assert(s.last() == s[s.len() - 1]);
    }
}

/// The whole emission state the generator carries between instructions: the
/// bytes so far, the pending relocations, and the labels resolved so far.
#[verifier::ext_equal]
pub struct EmitState {
    /// The bytes emitted so far.
    pub code: Seq<u8>,
    /// The pending relocation records.
    pub relocs: Seq<LabelReference>,
    /// Each defined label's byte offset.
    pub labels: Map<Label, int>,
}

/// What one instruction does to the emission state; mirrored exactly by
/// [`Codegen::write`].  A duplicate label definition and a mismatched-width
/// bulk copy are the two faults detectable during emission.
pub open spec fn emit_one(st: EmitState, instr: Instruction) -> Result<EmitState, ProgramError> {
    match instr {
        Instruction::Label(l) => if st.labels.dom().contains(l) {
            Err(ProgramError::DuplicateLabelDefinition)
        } else {
            Ok(EmitState { labels: st.labels.insert(l, st.code.len() as int), ..st })
        },
        Instruction::Copy(dest, src, count) => if count.0 != 1 && !spec_same_size(dest, src) {
            Err(ProgramError::OperandWidthMismatch)
        } else {
            Ok(EmitState { code: st.code + enc_instruction(instr), ..st })
        },
        Instruction::JIf(src, l) => Ok(
            match src {
                Src::Imm(x) => if x == 0 {
                    st
                } else {
                    EmitState {
                        code: st.code + enc_instruction(instr),
                        relocs: st.relocs.push(
                            LabelReference {
                                at: (st.code.len() + 1) as usize,
                                label: l,
                                relative_to: (st.code.len() + 5) as usize,
                            },
                        ),
                        ..st
                    }
                },
                _ => EmitState {
                    code: st.code + enc_instruction(instr),
                    relocs: st.relocs.push(
                        LabelReference {
                            at: (st.code.len() + enc_load_rax(src).len() + 5) as usize,
                            label: l,
                            relative_to: (st.code.len() + enc_instruction(instr).len()) as usize,
                        },
                    ),
                    ..st
                },
            },
        ),
        _ => Ok(EmitState { code: st.code + enc_instruction(instr), ..st }),
    }
}

/// Whether every pending relocation's label has been defined.
pub open spec fn all_relocs_defined(relocs: Seq<LabelReference>, labels: Map<Label, int>) -> bool {
    forall|k: int|
        #![trigger relocs[k]]
        0 <= k < relocs.len() ==> labels.dom().contains(relocs[k].label)
}

/// The little-endian 4-byte signed displacement from `from` to `target`.
pub open spec fn rel32_bytes(target: int, from: int) -> Seq<u8>
    recommends
        i32::MIN <= target - from <= i32::MAX,
{
    enc_i32((target - from) as i32)
}

/// One relocation applied: the 4 placeholder bytes at `rl.at` replaced by
/// the displacement of the label's offset relative to `rl.relative_to`.
pub open spec fn patch_one(code: Seq<u8>, rl: LabelReference, labels: Map<Label, int>) -> Seq<
    u8,
> {
    splice(code, rl.at as int, rel32_bytes(labels[rl.label], rl.relative_to as int))
}

/// The relocations from index `k` on, applied in order.
pub open spec fn patch_from(
    code: Seq<u8>,
    relocs: Seq<LabelReference>,
    labels: Map<Label, int>,
    k: int,
) -> Seq<u8>
    decreases relocs.len() - k when 0 <= k <= relocs.len()
{
    if k >= relocs.len() {
        code
    } else {
        patch_from(patch_one(code, relocs[k], labels), relocs, labels, k + 1)
    }
}

/// Patching from `k` on never changes a byte outside the remaining
/// placeholders.
proof fn lemma_patch_from_untouched(
    code: Seq<u8>,
    relocs: Seq<LabelReference>,
    labels: Map<Label, int>,
    k: int,
    pos: int,
)
    requires
        0 <= k <= relocs.len(),
        forall|j: int| #![trigger relocs[j]] 0 <= j < relocs.len() ==> relocs[j].at + 4 <= code.len(),
        0 <= pos < code.len(),
        forall|j: int|
            #![trigger relocs[j]]
            k <= j < relocs.len() ==> !(relocs[j].at <= pos < relocs[j].at + 4),
    ensures
        patch_from(code, relocs, labels, k).len() == code.len(),
        patch_from(code, relocs, labels, k)[pos] == code[pos],
    decreases relocs.len() - k,
{
    lemma_auto_spec_u32_to_from_le_bytes();
    if k < relocs.len() {
        let c2 = patch_one(code, relocs[k], labels);
        assert(c2.len() == code.len());
        assert(c2[pos] == code[pos]);
        lemma_patch_from_untouched(c2, relocs, labels, k + 1, pos);
    }
}

/// After patching from `k`, the placeholder of relocation `j >= k` holds
/// exactly its label's displacement bytes: the regions are disjoint, so no
/// later patch can overwrite an earlier one.
proof fn lemma_patch_from_patched(
    code: Seq<u8>,
    relocs: Seq<LabelReference>,
    labels: Map<Label, int>,
    k: int,
    j: int,
)
    requires
        0 <= k <= j < relocs.len(),
        forall|j2: int|
            #![trigger relocs[j2]]
            0 <= j2 < relocs.len() ==> relocs[j2].at + 4 <= code.len(),
        relocs_disjoint(relocs),
    ensures
        patch_from(code, relocs, labels, k).len() == code.len(),
        patch_from(code, relocs, labels, k).subrange(relocs[j].at as int, relocs[j].at + 4)
            == rel32_bytes(labels[relocs[j].label], relocs[j].relative_to as int),
    decreases j - k,
{
    lemma_auto_spec_u32_to_from_le_bytes();
    lemma_patch_from_len(code, relocs, labels, k);
    let c2 = patch_one(code, relocs[k], labels);
    assert(c2.len() == code.len());
    if j == k {
        let at = relocs[k].at as int;
        let payload = rel32_bytes(labels[relocs[k].label], relocs[k].relative_to as int);
        assert(c2.subrange(at, at + 4) =~= payload);
        assert forall|j2: int|
            #![trigger relocs[j2]]
            k + 1 <= j2 < relocs.len() implies relocs[k].at + 4 <= relocs[j2].at by {};
        lemma_patch_from_untouched(c2, relocs, labels, k + 1, at);
        lemma_patch_from_untouched(c2, relocs, labels, k + 1, at + 1);
        lemma_patch_from_untouched(c2, relocs, labels, k + 1, at + 2);
        lemma_patch_from_untouched(c2, relocs, labels, k + 1, at + 3);
        assert(patch_from(code, relocs, labels, k).subrange(at, at + 4) =~= payload);
    } else {
        lemma_patch_from_patched(c2, relocs, labels, k + 1, j);
    }
}

/// Patching never changes the code's length.
pub proof fn lemma_patch_from_len(
    code: Seq<u8>,
    relocs: Seq<LabelReference>,
    labels: Map<Label, int>,
    k: int,
)
    requires
        0 <= k <= relocs.len(),
        forall|j: int| #![trigger relocs[j]] 0 <= j < relocs.len() ==> relocs[j].at + 4 <= code.len(),
    ensures
        patch_from(code, relocs, labels, k).len() == code.len(),
    decreases relocs.len() - k,
{
    vstd::bytes::lemma_auto_spec_u32_to_from_le_bytes();
    if k < relocs.len() {
        let c2 = patch_one(code, relocs[k], labels);
        assert(c2.len() == code.len());
        lemma_patch_from_len(c2, relocs, labels, k + 1);
    }
}

/// Whether the relocations' placeholder regions are pairwise disjoint and
/// in emission order — each placeholder was carved out of fresh bytes, so
/// later patches can never overwrite an earlier one.
pub open spec fn relocs_disjoint(relocs: Seq<LabelReference>) -> bool {
    forall|k1: int, k2: int|
        #![trigger relocs[k1], relocs[k2]]
        0 <= k1 < k2 < relocs.len() ==> relocs[k1].at + 4 <= relocs[k2].at
}

/// A code generator in progress for one procedure.
///
/// `base_address` is the address the caller intends to load the body at; it
/// never enters the emitted bytes, because every relocation is relative, so
/// the same program produces the same bytes at every address.
pub struct Codegen {
    base_address: u64,
    code: Vec<u8>,
    label_references: Vec<LabelReference>,
    label_locations: Vec<(Label, usize)>,
}

impl Codegen {
    /// The emission state: bytes, pending relocations, resolved labels.
    pub closed spec fn state(self) -> EmitState {
        EmitState {
            code: self.code@,
            relocs: self.label_references@,
            labels: assoc_map(self.label_locations@),
        }
    }

    /// The load address the generator was created with.
    pub closed spec fn base(self) -> u64 {
        self.base_address
    }

    /// The generator's internal invariant: the body fits a signed 32-bit
    /// displacement, every relocation and label offset lies inside the
    /// emitted bytes, and no label is recorded twice.
    pub closed spec fn wf(self) -> bool {
        &&& self.code@.len() <= 0x7fff_ffff
        &&& forall|k: int|
            #![trigger self.label_references@[k]]
            0 <= k < self.label_references@.len() ==> self.label_references@[k].at + 4
                <= self.code@.len() && self.label_references@[k].relative_to <= self.code@.len()
        &&& relocs_disjoint(self.label_references@)
        &&& assoc_unique(self.label_locations@)
        &&& forall|k: int|
            #![trigger self.label_locations@[k]]
            0 <= k < self.label_locations@.len() ==> self.label_locations@[k].1 <= self.code@.len()
    }

    /// A fresh generator aimed at the given load address.
    pub fn new(base_address: u64) -> (r: Codegen)
        ensures
            r.wf(),
            r.base() == base_address,
            r.state().code == Seq::<u8>::empty(),
            r.state().relocs == Seq::<LabelReference>::empty(),
            r.state().labels == Map::<Label, int>::empty(),
    {
        let r = Codegen {
            base_address,
            code: Vec::new(),
            label_references: Vec::new(),
            label_locations: Vec::new(),
        };
        proof {
            assert(r.code@ =~= Seq::<u8>::empty());
            assert(r.label_references@ =~= Seq::<LabelReference>::empty());
        }
        r
    }

    /// Appends the little-endian bytes of a 32-bit immediate.
    fn emit_u32(&mut self, x: u32)
        ensures
            final(self).code@ == old(self).code@ + enc_u32(x),
            final(self).label_references@ == old(self).label_references@,
            final(self).label_locations@ == old(self).label_locations@,
            final(self).base_address == old(self).base_address,
    {
        let mut bs = u32_to_le_bytes(x);
        self.code.append(&mut bs);
    }

    /// Appends the little-endian bytes of a signed 32-bit displacement.
    fn emit_i32(&mut self, x: i32)
        ensures
            final(self).code@ == old(self).code@ + enc_i32(x),
            final(self).label_references@ == old(self).label_references@,
            final(self).label_locations@ == old(self).label_locations@,
            final(self).base_address == old(self).base_address,
    {
        self.emit_u32(#[verifier::truncate] (x as u32));
    }

    /// Appends the little-endian bytes of a 64-bit immediate.
    fn emit_u64(&mut self, x: u64)
        ensures
            final(self).code@ == old(self).code@ + enc_u64(x),
            final(self).label_references@ == old(self).label_references@,
            final(self).label_locations@ == old(self).label_locations@,
            final(self).base_address == old(self).base_address,
    {
        let mut bs = u64_to_le_bytes(x);
        self.code.append(&mut bs);
    }

    /// Emits a width-`sz` zero-extending load into `rax` from `[rax +
    /// offset]`.
    fn load_relative_to_rax(&mut self, offset: i32, sz: Size)
        ensures
            final(self).code@ == old(self).code@ + enc_load_disp(offset, sz),
            final(self).label_references@ == old(self).label_references@,
            final(self).label_locations@ == old(self).label_locations@,
            final(self).base_address == old(self).base_address,
    {
        match sz {
            Size::B => {
                self.code.push(0x0f);
                self.code.push(0xb6);
                self.code.push(0x80);
            },
            Size::H => {
                self.code.push(0x0f);
                self.code.push(0xb7);
                self.code.push(0x80);
            },
            Size::D => {
                self.code.push(0x8b);
                self.code.push(0x80);
            },
            Size::Q => {
                self.code.push(0x48);
                self.code.push(0x8b);
                self.code.push(0x80);
            },
        }
        self.emit_i32(offset);
        proof {
            assert(self.code@ =~= old(self).code@ + enc_load_disp(offset, sz));
        }
    }

    /// Emits a width-`sz` store of the accumulator's low bytes to `[rcx +
    /// offset]`.
    fn store_relative_to_rcx(&mut self, offset: i32, sz: Size)
        ensures
            final(self).code@ == old(self).code@ + enc_store_disp(offset, sz),
            final(self).label_references@ == old(self).label_references@,
            final(self).label_locations@ == old(self).label_locations@,
            final(self).base_address == old(self).base_address,
    {
        match sz {
            Size::B => {
                self.code.push(0x88);
                self.code.push(0x81);
            },
            Size::H => {
                self.code.push(0x66);
                self.code.push(0x89);
                self.code.push(0x81);
            },
            Size::D => {
                self.code.push(0x89);
                self.code.push(0x81);
            },
            Size::Q => {
                self.code.push(0x48);
                self.code.push(0x89);
                self.code.push(0x81);
            },
        }
        self.emit_i32(offset);
        proof {
            assert(self.code@ =~= old(self).code@ + enc_store_disp(offset, sz));
        }
    }

    /// Emits the load of one readable operand into `rax`.
    fn load_rax(&mut self, src: Src)
        ensures
            final(self).code@ == old(self).code@ + enc_load_rax(src),
            final(self).label_references@ == old(self).label_references@,
            final(self).label_locations@ == old(self).label_locations@,
            final(self).base_address == old(self).base_address,
    {
        match src {
            Src::Uninitialized => {
                proof {
                    assert(self.code@ =~= old(self).code@ + enc_load_rax(src));
                }
            },
            Src::Imm(x) => {
                if x == 0 {
                    // xor eax, eax also clears the top 32 bits
                    self.code.push(0x31);
                    self.code.push(0xc0);
                } else {
                    // mov rax, <imm64>
                    self.code.push(0x48);
                    self.code.push(0xb8);
                    self.emit_u64(x);
                }
                proof {
                    assert(self.code@ =~= old(self).code@ + enc_load_rax(src));
                }
            },
            Src::Ptr(near, far, sz) => {
                // mov rax, rbp
                self.code.push(0x48);
                self.code.push(0x89);
                self.code.push(0xe8);
                self.load_relative_to_rax(near, Size::Q);
                // now the pointer is in rax
                self.load_relative_to_rax(far, sz);
                proof {
                    assert(self.code@ =~= old(self).code@ + enc_load_rax(src));
                }
            },
            Src::Here(off, sz) => {
                // mov rax, rbp
                self.code.push(0x48);
                self.code.push(0x89);
                self.code.push(0xe8);
                self.load_relative_to_rax(off, sz);
                proof {
                    assert(self.code@ =~= old(self).code@ + enc_load_rax(src));
                }
            },
        }
    }

    /// Emits the Q-wide pointer fetch `mov rcx, [rcx + offset]`, leaving
    /// the accumulator untouched.
    fn load_ptr_to_rcx(&mut self, offset: i32)
        ensures
            final(self).code@ == old(self).code@ + enc_load_rcx_ptr(offset),
            final(self).label_references@ == old(self).label_references@,
            final(self).label_locations@ == old(self).label_locations@,
            final(self).base_address == old(self).base_address,
    {
        self.code.push(0x48);
        self.code.push(0x8b);
        self.code.push(0x89);
        self.emit_i32(offset);
        proof {
            assert(self.code@ =~= old(self).code@ + enc_load_rcx_ptr(offset));
        }
    }

    /// Emits the store of `rax` to one writable operand.
    fn store_rax(&mut self, dest: Dest)
        ensures
            final(self).code@ == old(self).code@ + enc_store_rax(dest),
            final(self).label_references@ == old(self).label_references@,
            final(self).label_locations@ == old(self).label_locations@,
            final(self).base_address == old(self).base_address,
    {
        match dest {
            Dest::Nowhere => {
                proof {
                    assert(self.code@ =~= old(self).code@ + enc_store_rax(dest));
                }
            },
            Dest::Ptr(near, far, sz) => {
                // mov rcx, rbp — the accumulator still holds the value
                self.code.push(0x48);
                self.code.push(0x89);
                self.code.push(0xe9);
                self.load_ptr_to_rcx(near);
                // now the pointer is in rcx
                self.store_relative_to_rcx(far, sz);
                proof {
                    assert(self.code@ =~= old(self).code@ + enc_store_rax(dest));
                }
            },
            Dest::Here(off, sz) => {
                // mov rcx, rbp
                self.code.push(0x48);
                self.code.push(0x89);
                self.code.push(0xe9);
                self.store_relative_to_rcx(off, sz);
                proof {
                    assert(self.code@ =~= old(self).code@ + enc_store_rax(dest));
                }
            },
        }
    }
}

/// `off + amt` exactly, when it stays representable as a far offset.
fn add_off(off: i32, amt: u64) -> (r: i32)
    requires
        i32::MIN <= off + amt <= i32::MAX,
    ensures
        r == off + amt,
{
    let sum: i64 = off as i64 + amt as i64;
    sum as i32
}

/// The source with its far offset shifted by `amt`, for shifts beyond the
/// 32-bit range of a single [`Src::offset`] argument.
fn offset_src_by(src: Src, amt: u64) -> (r: Src)
    requires
        src.offset_in_range(amt as int),
    ensures
        r == src.spec_offset(amt as int),
{
    match src {
        Src::Uninitialized => Src::Uninitialized,
        Src::Imm(x) => Src::Imm(x),
        Src::Ptr(near, far, sz) => Src::Ptr(near, add_off(far, amt), sz),
        Src::Here(off, sz) => Src::Here(add_off(off, amt), sz),
    }
}

/// The destination with its far offset shifted by `amt`.
fn offset_dest_by(dest: Dest, amt: u64) -> (r: Dest)
    requires
        dest.offset_in_range(amt as int),
    ensures
        r == dest.spec_offset(amt as int),
{
    match dest {
        Dest::Nowhere => Dest::Nowhere,
        Dest::Ptr(near, far, sz) => Dest::Ptr(near, add_off(far, amt), sz),
        Dest::Here(off, sz) => Dest::Here(add_off(off, amt), sz),
    }
}

/// Looks a label up in the recorded locations by linear scan.
fn find_label(table: &Vec<(Label, usize)>, l: Label) -> (r: Option<usize>)
    ensures
        r matches Some(loc) ==> exists|k: int|
            #![trigger table@[k]]
            0 <= k < table@.len() && table@[k] == (l, loc),
        r is None ==> forall|k: int| #![trigger table@[k]] 0 <= k < table@.len() ==> table@[k].0
            != l,
{
    let n = table.len();
    let mut i: usize = 0;
    while i < n
        invariant
            n == table@.len(),
            i <= n,
            forall|k: int| #![trigger table@[k]] 0 <= k < i ==> table@[k].0 != l,
        decreases n - i,
    {
        let entry = table[i];
        if entry.0 == l {
            return Some(entry.1);
        }
        i = i + 1;
    }
    None
}

/// Whether the `i`-th pair of an unrolled copy keeps both shifted far
/// offsets representable.
pub open spec fn copy_pair_in_range(dest: Dest, src: Src, i: int) -> bool {
    src.offset_in_range(i * src.spec_stride()) && dest.offset_in_range(i * dest.spec_stride())
}

/// Appending a relocation whose placeholder lies past every byte emitted so
/// far keeps the relocation regions disjoint.
proof fn lemma_disjoint_after_push(
    old_relocs: Seq<LabelReference>,
    relocs: Seq<LabelReference>,
    old_code_len: int,
)
    requires
        relocs_disjoint(old_relocs),
        relocs.len() == old_relocs.len() + 1,
        forall|k: int| #![trigger relocs[k]] 0 <= k < old_relocs.len() ==> relocs[k] == old_relocs[k],
        forall|k: int|
            #![trigger old_relocs[k]]
            0 <= k < old_relocs.len() ==> old_relocs[k].at + 4 <= old_code_len,
        relocs[relocs.len() - 1].at >= old_code_len,
    ensures
        relocs_disjoint(relocs),
{
    assert forall|k1: int, k2: int|
        #![trigger relocs[k1], relocs[k2]]
        0 <= k1 < k2 < relocs.len() implies relocs[k1].at + 4 <= relocs[k2].at by {
        if k2 < old_relocs.len() {
            assert(relocs[k1] == old_relocs[k1]);
            assert(relocs[k2] == old_relocs[k2]);
        } else {
            assert(relocs[k1] == old_relocs[k1]);
            assert(old_relocs[k1].at + 4 <= old_code_len);
        }
    };
}

/// What `write` asks of each instruction: the body it produces must still
/// fit a signed 32-bit displacement (so relocations can be patched), a
/// frame reservation must fit the 32-bit immediate that encodes it, and an
/// unrolled copy's shifted offsets must stay representable.  These are
/// machine limits of the instruction format, not semantic restrictions.
pub open spec fn instr_fits(instr: Instruction, st: EmitState) -> bool {
    &&& (emit_one(st, instr) matches Ok(st2) ==> st2.code.len() <= 0x7fff_ffff)
    &&& (instr matches Instruction::Begin(n_bytes, _) ==> n_bytes <= u32::MAX)
    &&& (instr matches Instruction::Copy(dest, src, count) ==> ((count.0 == 1 || spec_same_size(
        dest,
        src,
    )) && dest.spec_needs_store() ==> forall|i: int|
        0 <= i < count.0 ==> #[trigger] copy_pair_in_range(dest, src, i)))
}

impl Codegen {
    /// Marshals one foreign-call operand: loads it (unless no load is
    /// scheduled), parks the `k`-th argument register, and moves the value
    /// in.
    fn marshal_arg_slot(&mut self, k: usize, src: Src)
        requires
            k < 6,
        ensures
            final(self).code@ == old(self).code@ + (if src.spec_needs_load() {
                enc_load_rax(src) + enc_marshal_arg(k as int)
            } else {
                Seq::<u8>::empty()
            }),
            final(self).label_references@ == old(self).label_references@,
            final(self).label_locations@ == old(self).label_locations@,
            final(self).base_address == old(self).base_address,
    {
        if src.needs_load() {
            self.load_rax(src);
            if k == 0 {
                self.code.push(0x57);
                self.code.push(0x48);
                self.code.push(0x89);
                self.code.push(0xc7);
            } else if k == 1 {
                self.code.push(0x56);
                self.code.push(0x48);
                self.code.push(0x89);
                self.code.push(0xc6);
            } else if k == 2 {
                self.code.push(0x52);
                self.code.push(0x48);
                self.code.push(0x89);
                self.code.push(0xc2);
            } else if k == 3 {
                self.code.push(0x51);
                self.code.push(0x48);
                self.code.push(0x89);
                self.code.push(0xc1);
            } else if k == 4 {
                self.code.push(0x41);
                self.code.push(0x50);
                self.code.push(0x49);
                self.code.push(0x89);
                self.code.push(0xc0);
            } else {
                self.code.push(0x41);
                self.code.push(0x51);
                self.code.push(0x49);
                self.code.push(0x89);
                self.code.push(0xc1);
            }
            proof {
                assert(self.code@ =~= old(self).code@ + (enc_load_rax(src) + enc_marshal_arg(
                    k as int,
                )));
            }
        } else {
            proof {
                assert(self.code@ =~= old(self).code@ + Seq::<u8>::empty());
            }
        }
    }

    /// Restores the `k`-th argument register after a foreign call, if its
    /// operand was marshaled.
    fn cleanup_arg_slot(&mut self, k: usize, src: Src)
        requires
            k < 6,
        ensures
            final(self).code@ == old(self).code@ + (if src.spec_needs_load() {
                enc_cleanup_arg(k as int)
            } else {
                Seq::<u8>::empty()
            }),
            final(self).label_references@ == old(self).label_references@,
            final(self).label_locations@ == old(self).label_locations@,
            final(self).base_address == old(self).base_address,
    {
        if src.needs_load() {
            if k == 0 {
                self.code.push(0x5f);
            } else if k == 1 {
                self.code.push(0x5e);
            } else if k == 2 {
                self.code.push(0x5a);
            } else if k == 3 {
                self.code.push(0x59);
            } else if k == 4 {
                self.code.push(0x41);
                self.code.push(0x58);
            } else {
                self.code.push(0x41);
                self.code.push(0x59);
            }
            proof {
                assert(self.code@ =~= old(self).code@ + enc_cleanup_arg(k as int));
            }
        } else {
            proof {
                assert(self.code@ =~= old(self).code@ + Seq::<u8>::empty());
            }
        }
    }

    /// Stores the `k`-th incoming argument register to its declared
    /// destination; a discarded slot emits nothing at all.
    fn begin_store_slot(&mut self, k: usize, dest: Dest)
        requires
            k < 6,
        ensures
            final(self).code@ == old(self).code@ + (if dest.spec_needs_store() {
                enc_mov_rax_arg(k as int) + enc_store_rax(dest)
            } else {
                Seq::<u8>::empty()
            }),
            final(self).label_references@ == old(self).label_references@,
            final(self).label_locations@ == old(self).label_locations@,
            final(self).base_address == old(self).base_address,
    {
        if dest.needs_store() {
            if k == 0 {
                self.code.push(0x48);
                self.code.push(0x89);
                self.code.push(0xf8);
            } else if k == 1 {
                self.code.push(0x48);
                self.code.push(0x89);
                self.code.push(0xf0);
            } else if k == 2 {
                self.code.push(0x48);
                self.code.push(0x89);
                self.code.push(0xd0);
            } else if k == 3 {
                self.code.push(0x48);
                self.code.push(0x89);
                self.code.push(0xc8);
            } else if k == 4 {
                self.code.push(0x4c);
                self.code.push(0x89);
                self.code.push(0xc0);
            } else {
                self.code.push(0x4c);
                self.code.push(0x89);
                self.code.push(0xc8);
            }
            self.store_rax(dest);
            proof {
                assert(self.code@ =~= old(self).code@ + (enc_mov_rax_arg(k as int) + enc_store_rax(
                    dest,
                )));
            }
        } else {
            proof {
                assert(self.code@ =~= old(self).code@ + Seq::<u8>::empty());
            }
        }
    }

    /// Marshals all six foreign-call operands into the argument registers.
    fn ffi_marshal_all(&mut self, args: [Src; 6])
        ensures
            final(self).code@ == old(self).code@ + enc_ffi_marshal(args@, 6),
            final(self).label_references@ == old(self).label_references@,
            final(self).label_locations@ == old(self).label_locations@,
            final(self).base_address == old(self).base_address,
    {
        let ghost c0 = self.code@;
        let ghost av = args@;
        proof {
            assert(enc_ffi_marshal(av, 0) == Seq::<u8>::empty());
        }
        self.marshal_arg_slot(0, args[0]);
        proof {
            lemma_concat_associative(
                c0,
                enc_ffi_marshal(av, 0),
                if av[0].spec_needs_load() {
                    enc_load_rax(av[0]) + enc_marshal_arg(0)
                } else {
                    Seq::<u8>::empty()
                },
            );
            assert(self.code@ == c0 + enc_ffi_marshal(av, 1));
        }
        self.marshal_arg_slot(1, args[1]);
        proof {
            lemma_concat_associative(
                c0,
                enc_ffi_marshal(av, 1),
                if av[1].spec_needs_load() {
                    enc_load_rax(av[1]) + enc_marshal_arg(1)
                } else {
                    Seq::<u8>::empty()
                },
            );
            assert(self.code@ == c0 + enc_ffi_marshal(av, 2));
        }
        self.marshal_arg_slot(2, args[2]);
        proof {
            lemma_concat_associative(
                c0,
                enc_ffi_marshal(av, 2),
                if av[2].spec_needs_load() {
                    enc_load_rax(av[2]) + enc_marshal_arg(2)
                } else {
                    Seq::<u8>::empty()
                },
            );
            assert(self.code@ == c0 + enc_ffi_marshal(av, 3));
        }
        self.marshal_arg_slot(3, args[3]);
        proof {
            lemma_concat_associative(
                c0,
                enc_ffi_marshal(av, 3),
                if av[3].spec_needs_load() {
                    enc_load_rax(av[3]) + enc_marshal_arg(3)
                } else {
                    Seq::<u8>::empty()
                },
            );
            assert(self.code@ == c0 + enc_ffi_marshal(av, 4));
        }
        self.marshal_arg_slot(4, args[4]);
        proof {
            lemma_concat_associative(
                c0,
                enc_ffi_marshal(av, 4),
                if av[4].spec_needs_load() {
                    enc_load_rax(av[4]) + enc_marshal_arg(4)
                } else {
                    Seq::<u8>::empty()
                },
            );
            assert(self.code@ == c0 + enc_ffi_marshal(av, 5));
        }
        self.marshal_arg_slot(5, args[5]);
        proof {
            lemma_concat_associative(
                c0,
                enc_ffi_marshal(av, 5),
                if av[5].spec_needs_load() {
                    enc_load_rax(av[5]) + enc_marshal_arg(5)
                } else {
                    Seq::<u8>::empty()
                },
            );
            assert(self.code@ == c0 + enc_ffi_marshal(av, 6));
        }
    }

    /// Restores all parked argument registers, in reverse order.
    fn ffi_cleanup_all(&mut self, args: [Src; 6])
        ensures
            final(self).code@ == old(self).code@ + enc_ffi_cleanup(args@, 6),
            final(self).label_references@ == old(self).label_references@,
            final(self).label_locations@ == old(self).label_locations@,
            final(self).base_address == old(self).base_address,
    {
        let ghost c0 = self.code@;
        let ghost av = args@;
        proof {
            assert(enc_ffi_cleanup(av, 0) == Seq::<u8>::empty());
        }
        self.cleanup_arg_slot(5, args[5]);
        proof {
            lemma_concat_associative(
                c0,
                enc_ffi_cleanup(av, 0),
                if av[5].spec_needs_load() {
                    enc_cleanup_arg(5)
                } else {
                    Seq::<u8>::empty()
                },
            );
            assert(self.code@ == c0 + enc_ffi_cleanup(av, 1));
        }
        self.cleanup_arg_slot(4, args[4]);
        proof {
            lemma_concat_associative(
                c0,
                enc_ffi_cleanup(av, 1),
                if av[4].spec_needs_load() {
                    enc_cleanup_arg(4)
                } else {
                    Seq::<u8>::empty()
                },
            );
            assert(self.code@ == c0 + enc_ffi_cleanup(av, 2));
        }
        self.cleanup_arg_slot(3, args[3]);
        proof {
            lemma_concat_associative(
                c0,
                enc_ffi_cleanup(av, 2),
                if av[3].spec_needs_load() {
                    enc_cleanup_arg(3)
                } else {
                    Seq::<u8>::empty()
                },
            );
            assert(self.code@ == c0 + enc_ffi_cleanup(av, 3));
        }
        self.cleanup_arg_slot(2, args[2]);
        proof {
            lemma_concat_associative(
                c0,
                enc_ffi_cleanup(av, 3),
                if av[2].spec_needs_load() {
                    enc_cleanup_arg(2)
                } else {
                    Seq::<u8>::empty()
                },
            );
            assert(self.code@ == c0 + enc_ffi_cleanup(av, 4));
        }
        self.cleanup_arg_slot(1, args[1]);
        proof {
            lemma_concat_associative(
                c0,
                enc_ffi_cleanup(av, 4),
                if av[1].spec_needs_load() {
                    enc_cleanup_arg(1)
                } else {
                    Seq::<u8>::empty()
                },
            );
            assert(self.code@ == c0 + enc_ffi_cleanup(av, 5));
        }
        self.cleanup_arg_slot(0, args[0]);
        proof {
            lemma_concat_associative(
                c0,
                enc_ffi_cleanup(av, 5),
                if av[0].spec_needs_load() {
                    enc_cleanup_arg(0)
                } else {
                    Seq::<u8>::empty()
                },
            );
            assert(self.code@ == c0 + enc_ffi_cleanup(av, 6));
        }
    }

    /// Emits the marshaling, call and cleanup of one foreign call.
    fn write_fficall(&mut self, dest: Dest, args: [Src; 6], function: u64)
        ensures
            final(self).code@ == old(self).code@ + enc_fficall(dest, args@, function),
            final(self).label_references@ == old(self).label_references@,
            final(self).label_locations@ == old(self).label_locations@,
            final(self).base_address == old(self).base_address,
    {
        let ghost c0 = self.code@;
        let ghost av = args@;
        self.ffi_marshal_all(args);
        let ghost c1 = self.code@;
        // mov rax, <address of function>; call rax
        self.code.push(0x48);
        self.code.push(0xb8);
        self.emit_u64(function);
        self.code.push(0xff);
        self.code.push(0xd0);
        // mov dest, rax
        if dest.needs_store() {
            self.store_rax(dest);
        }
        let ghost c2 = self.code@;
        proof {
            assert(c2 =~= c1 + seq![0x48u8, 0xb8] + enc_u64(function) + seq![0xffu8, 0xd0] + (
            if dest.spec_needs_store() {
                enc_store_rax(dest)
            } else {
                Seq::<u8>::empty()
            }));
        }
        self.ffi_cleanup_all(args);
        proof {
            let m = enc_ffi_marshal(av, 6);
            let s1 = seq![0x48u8, 0xb8];
            let uu = enc_u64(function);
            let s2 = seq![0xffu8, 0xd0];
            let stb = if dest.spec_needs_store() {
                enc_store_rax(dest)
            } else {
                Seq::<u8>::empty()
            };
            let cl = enc_ffi_cleanup(av, 6);
            lemma_concat_associative(c0, m, s1);
            lemma_concat_associative(c0, m + s1, uu);
            lemma_concat_associative(c0, m + s1 + uu, s2);
            lemma_concat_associative(c0, m + s1 + uu + s2, stb);
            assert(c2 == c0 + (m + s1 + uu + s2 + stb));
            lemma_concat_associative(c0, m + s1 + uu + s2 + stb, cl);
            assert(self.code@ == c0 + enc_fficall(dest, av, function));
        }
    }

    /// Emits the prologue and the stores of the argument registers.
    fn write_begin(&mut self, n_bytes: u64, args: [Dest; 6])
        requires
            n_bytes <= u32::MAX,
        ensures
            final(self).code@ == old(self).code@ + enc_begin(n_bytes, args@),
            final(self).label_references@ == old(self).label_references@,
            final(self).label_locations@ == old(self).label_locations@,
            final(self).base_address == old(self).base_address,
    {
        let ghost c0 = self.code@;
        // prologue: push rbp; mov rbp, rsp
        self.code.push(0x55);
        self.code.push(0x48);
        self.code.push(0x89);
        self.code.push(0xe5);
        // reserve the frame bytes: sub rsp, <n_bytes>
        if n_bytes > 0 {
            self.code.push(0x48);
            self.code.push(0x81);
            self.code.push(0xec);
            self.emit_u32(n_bytes as u32);
        }
        let ghost pre = seq![0x55u8, 0x48, 0x89, 0xe5] + (if n_bytes > 0 {
            seq![0x48u8, 0x81, 0xec] + enc_u32(n_bytes as u32)
        } else {
            Seq::<u8>::empty()
        });
        proof {
            assert(self.code@ =~= c0 + pre);
            assert(enc_begin_stores(args@, 0) == Seq::<u8>::empty());
        }
        self.begin_store_slot(0, args[0]);
        proof {
            lemma_concat_associative(
                c0 + pre,
                enc_begin_stores(args@, 0),
                if args@[0].spec_needs_store() {
                    enc_mov_rax_arg(0) + enc_store_rax(args@[0])
                } else {
                    Seq::<u8>::empty()
                },
            );
            assert(self.code@ == c0 + pre + enc_begin_stores(args@, 1));
        }
        self.begin_store_slot(1, args[1]);
        proof {
            lemma_concat_associative(
                c0 + pre,
                enc_begin_stores(args@, 1),
                if args@[1].spec_needs_store() {
                    enc_mov_rax_arg(1) + enc_store_rax(args@[1])
                } else {
                    Seq::<u8>::empty()
                },
            );
            assert(self.code@ == c0 + pre + enc_begin_stores(args@, 2));
        }
        self.begin_store_slot(2, args[2]);
        proof {
            lemma_concat_associative(
                c0 + pre,
                enc_begin_stores(args@, 2),
                if args@[2].spec_needs_store() {
                    enc_mov_rax_arg(2) + enc_store_rax(args@[2])
                } else {
                    Seq::<u8>::empty()
                },
            );
            assert(self.code@ == c0 + pre + enc_begin_stores(args@, 3));
        }
        self.begin_store_slot(3, args[3]);
        proof {
            lemma_concat_associative(
                c0 + pre,
                enc_begin_stores(args@, 3),
                if args@[3].spec_needs_store() {
                    enc_mov_rax_arg(3) + enc_store_rax(args@[3])
                } else {
                    Seq::<u8>::empty()
                },
            );
            assert(self.code@ == c0 + pre + enc_begin_stores(args@, 4));
        }
        self.begin_store_slot(4, args[4]);
        proof {
            lemma_concat_associative(
                c0 + pre,
                enc_begin_stores(args@, 4),
                if args@[4].spec_needs_store() {
                    enc_mov_rax_arg(4) + enc_store_rax(args@[4])
                } else {
                    Seq::<u8>::empty()
                },
            );
            assert(self.code@ == c0 + pre + enc_begin_stores(args@, 5));
        }
        self.begin_store_slot(5, args[5]);
        proof {
            lemma_concat_associative(
                c0 + pre,
                enc_begin_stores(args@, 5),
                if args@[5].spec_needs_store() {
                    enc_mov_rax_arg(5) + enc_store_rax(args@[5])
                } else {
                    Seq::<u8>::empty()
                },
            );
            assert(self.code@ == c0 + pre + enc_begin_stores(args@, 6));
        }
        proof {
            lemma_concat_associative(c0, pre, enc_begin_stores(args@, 6));
            assert(self.code@ == c0 + enc_begin(n_bytes, args@));
        }
    }

    /// Emits the unrolled load/store pairs of a copy that actually stores.
    fn write_copy_pairs(&mut self, dest: Dest, src: Src, n: u64)
        requires
            dest.spec_needs_store(),
            forall|j: int| 0 <= j < n ==> #[trigger] copy_pair_in_range(dest, src, j),
        ensures
            final(self).code@ == old(self).code@ + enc_copy_pairs(dest, src, n as int),
            final(self).label_references@ == old(self).label_references@,
            final(self).label_locations@ == old(self).label_locations@,
            final(self).base_address == old(self).base_address,
    {
        let ghost c0 = self.code@;
        proof {
            assert(enc_copy_pairs(dest, src, 0) == Seq::<u8>::empty());
        }
        let ss = src.stride();
        let ds = dest.stride();
        let mut i: u64 = 0;
        while i < n
            invariant
                i <= n,
                c0 == old(self).code@,
                ss == src.spec_stride(),
                ds == dest.spec_stride(),
                1 <= ss <= 8,
                1 <= ds <= 8,
                dest.spec_needs_store(),
                self.code@ == c0 + enc_copy_pairs(dest, src, i as int),
                self.label_references@ == old(self).label_references@,
                self.label_locations@ == old(self).label_locations@,
                self.base_address == old(self).base_address,
                forall|j: int| 0 <= j < n ==> #[trigger] copy_pair_in_range(dest, src, j),
            decreases n - i,
        {
            proof {
                assert(copy_pair_in_range(dest, src, i as int));
                assert(dest.offset_in_range((i as int) * dest.spec_stride()));
                // the destination's far offset bounds how far the pairs
                // can advance, which bounds the index and both products
                assert((i as int) * (ds as int) <= 0xffff_ffff);
                assert(i <= 0xffff_ffff) by (nonlinear_arith)
                    requires
                        (i as int) * (ds as int) <= 0xffff_ffff,
                        ds >= 1,
                        i >= 0,
                ;
                assert((i as int) * (ss as int) < 0x10_0000_0000) by (nonlinear_arith)
                    requires
                        i <= 0xffff_ffff,
                        0 <= ss <= 8,
                ;
                assert((i as int) * (ds as int) < 0x10_0000_0000);
            }
            let sdisp: u64 = i * ss;
            let ddisp: u64 = i * ds;
            let s2 = offset_src_by(src, sdisp);
            let d2 = offset_dest_by(dest, ddisp);
            self.load_rax(s2);
            self.store_rax(d2);
            proof {
                lemma_concat_associative(
                    c0,
                    enc_copy_pairs(dest, src, i as int),
                    enc_load_rax(src.spec_offset((i as int) * src.spec_stride())),
                );
                lemma_concat_associative(
                    c0,
                    enc_copy_pairs(dest, src, i as int) + enc_load_rax(
                        src.spec_offset((i as int) * src.spec_stride()),
                    ),
                    enc_store_rax(dest.spec_offset((i as int) * dest.spec_stride())),
                );
                assert(self.code@ == c0 + enc_copy_pairs(dest, src, i + 1));
            }
            i = i + 1;
        }
    }

    /// Emits one instruction, exactly as [`emit_one`] describes: bytes are
    /// appended, a branch leaves a placeholder and a relocation record, a
    /// label definition is recorded.  A duplicate label definition and a
    /// mismatched-width bulk copy are rejected, leaving the state untouched.
    #[verifier::rlimit(100)]
    #[verifier::spinoff_prover]
    pub fn write(&mut self, instruction: Instruction) -> (r: Result<(), ProgramError>)
        requires
            old(self).wf(),
            instr_fits(instruction, old(self).state()),
        ensures
            final(self).wf(),
            final(self).base() == old(self).base(),
            match emit_one(old(self).state(), instruction) {
                Ok(st) => r == Ok::<(), ProgramError>(()) && final(self).state() == st,
                Err(e) => r == Err::<(), ProgramError>(e) && final(self).state() == old(
                    self,
                ).state(),
            },
    {
        let ghost st0 = self.state();
        match instruction {
            Instruction::Begin(n_bytes, args) => {
                self.write_begin(n_bytes, args);
                proof {
                    assert(self.state() =~~= emit_one(st0, instruction)->Ok_0);
                }
                Ok(())
            },
            Instruction::Ret(src) => {
                // return value is a u64
                self.load_rax(src);
                // epilogue: mov rsp, rbp; pop rbp; ret
                self.code.push(0x48);
                self.code.push(0x89);
                self.code.push(0xec);
                self.code.push(0x5d);
                self.code.push(0xc3);
                proof {
                    assert(self.code@ =~= st0.code + enc_instruction(instruction));
                    assert(self.state() =~~= emit_one(st0, instruction)->Ok_0);
                }
                Ok(())
            },
            Instruction::Copy(dest, src, count) => {
                if count.0 != 1 && !same_size(dest, src) {
                    return Err(ProgramError::OperandWidthMismatch);
                }
                if dest.needs_store() {
                    self.write_copy_pairs(dest, src, count.0);
                }
                proof {
                    assert(self.code@ == st0.code + enc_instruction(instruction));
                    assert(self.state() =~~= emit_one(st0, instruction)->Ok_0);
                }
                Ok(())
            },
            Instruction::JIf(src, label) => {
                match src {
                    Src::Imm(x) => {
                        if x == 0 {
                            // the branch can never fire: emit nothing and
                            // drop the label reference
                            proof {
                                assert(self.state() =~~= emit_one(st0, instruction)->Ok_0);
                            }
                            Ok(())
                        } else {
                            // the branch always fires: unconditional jmp
                            self.code.push(0xe9);
                            let at = self.code.len();
                            self.code.push(0x00);
                            self.code.push(0x00);
                            self.code.push(0x00);
                            self.code.push(0x00);
                            let relative_to = self.code.len();
                            self.label_references.push(
                                LabelReference { at, label, relative_to },
                            );
                            proof {
                                assert(self.code@ =~= st0.code + enc_instruction(instruction));
                                assert(self.state() =~~= emit_one(st0, instruction)->Ok_0);
                                lemma_disjoint_after_push(st0.relocs, self.label_references@, st0.code.len() as int);
                            }
                            Ok(())
                        }
                    },
                    _ => {
                        self.load_rax(src);
                        // test rax, rax
                        self.code.push(0x48);
                        self.code.push(0x85);
                        self.code.push(0xc0);
                        // jnz <rel32>
                        self.code.push(0x0f);
                        self.code.push(0x85);
                        let at = self.code.len();
                        self.code.push(0x00);
                        self.code.push(0x00);
                        self.code.push(0x00);
                        self.code.push(0x00);
                        let relative_to = self.code.len();
                        self.label_references.push(LabelReference { at, label, relative_to });
                        proof {
                            assert(self.code@ =~= st0.code + enc_instruction(instruction));
                            assert(self.state() =~~= emit_one(st0, instruction)->Ok_0);
                            lemma_disjoint_after_push(st0.relocs, self.label_references@, st0.code.len() as int);
                        }
                        Ok(())
                    },
                }
            },
            Instruction::Label(l) => {
                match find_label(&self.label_locations, l) {
                    Some(_) => {
                        proof {
                            let k = choose|k: int|
                                #![trigger self.label_locations@[k]]
                                0 <= k < self.label_locations@.len() && self.label_locations@[k].0
                                    == l;
                            lemma_assoc_map_index(self.label_locations@, l, k);
                        }
                        Err(ProgramError::DuplicateLabelDefinition)
                    },
                    None => {
                        proof {
                            lemma_assoc_map_absent(self.label_locations@, l);
                        }
                        let ghost tab0 = self.label_locations@;
                        let loc = self.code.len();
                        self.label_locations.push((l, loc));
                        proof {
                            assert(self.label_locations@.drop_last() =~= tab0);
                            assert(self.label_locations@.last() == (l, loc));
                            assert(assoc_map(self.label_locations@) == assoc_map(tab0).insert(
                                l,
                                loc as int,
                            ));
                            assert forall|k1: int, k2: int|
                                #![trigger self.label_locations@[k1], self.label_locations@[k2]]
                                0 <= k1 < self.label_locations@.len() && 0 <= k2
                                    < self.label_locations@.len()
                                    && self.label_locations@[k1].0
                                    == self.label_locations@[k2].0 implies k1 == k2 by {
                                if k1 < tab0.len() && k2 < tab0.len() {
                                    assert(self.label_locations@[k1] == tab0[k1]);
                                    assert(self.label_locations@[k2] == tab0[k2]);
                                } else if k1 < tab0.len() {
                                    assert(self.label_locations@[k1] == tab0[k1]);
                                    assert(tab0[k1].0 != l);
                                } else if k2 < tab0.len() {
                                    assert(self.label_locations@[k2] == tab0[k2]);
                                    assert(tab0[k2].0 != l);
                                }
                            };
                            assert(self.state() =~~= emit_one(st0, instruction)->Ok_0);
                        }
                        Ok(())
                    },
                }
            },
            Instruction::FFICall(dest, args, function) => {
                self.write_fficall(dest, args, function);
                proof {
                    assert(self.code@ =~= st0.code + enc_instruction(instruction));
                    assert(self.state() =~~= emit_one(st0, instruction)->Ok_0);
                }
                Ok(())
            },
        }
    }

    /// Walks the pending relocation list and patches each placeholder with
    /// the little-endian signed difference between its label's resolved
    /// offset and its reference point.  A reference to a label that was
    /// never defined surfaces here — so out-of-order (forward-referencing)
    /// programs are fully supported.  The patched body has exactly the
    /// length the emission passes produced.
    pub fn finalize(self) -> (r: Result<Vec<u8>, ProgramError>)
        requires
            self.wf(),
        ensures
            ({
                let st = self.state();
                if all_relocs_defined(st.relocs, st.labels) {
                    r matches Ok(bytes) && bytes@ == patch_from(st.code, st.relocs, st.labels, 0)
                        && bytes@.len() == st.code.len()
                } else {
                    r == Err::<Vec<u8>, ProgramError>(ProgramError::UndefinedLabel)
                }
            }),
            // every patched jump lands exactly where its label was
            // recorded: the placeholder of each relocation holds the
            // little-endian signed difference between the label's byte
            // offset and the relocation's reference point
            ({
                let st = self.state();
                r matches Ok(bytes) ==> forall|k: int|
                    #![trigger st.relocs[k]]
                    0 <= k < st.relocs.len() ==> bytes@.subrange(
                        st.relocs[k].at as int,
                        st.relocs[k].at + 4,
                    ) == rel32_bytes(
                        st.labels[st.relocs[k].label],
                        st.relocs[k].relative_to as int,
                    )
            }),
    {
        let ghost st = self.state();
        let mut out: Vec<u8> = Vec::new();
        let mut j: usize = 0;
        let code_len = self.code.len();
        while j < code_len
            invariant
                j <= code_len,
                code_len == self.code@.len(),
                out@ =~= self.code@.take(j as int),
            decreases code_len - j,
        {
            out.push(self.code[j]);
            j = j + 1;
        }
        proof {
            assert(out@ =~= self.code@);
        }
        let n = self.label_references.len();
        let mut k: usize = 0;
        while k < n
            invariant
                k <= n,
                n == self.label_references@.len(),
                self.wf(),
                st == self.state(),
                out@.len() == st.code.len(),
                patch_from(st.code, st.relocs, st.labels, 0) == patch_from(
                    out@,
                    st.relocs,
                    st.labels,
                    k as int,
                ),
                forall|j2: int|
                    #![trigger st.relocs[j2]]
                    0 <= j2 < k ==> st.labels.dom().contains(st.relocs[j2].label),
            decreases n - k,
        {
            let rl = self.label_references[k];
            match find_label(&self.label_locations, rl.label) {
                None => {
                    proof {
                        lemma_assoc_map_absent(self.label_locations@, rl.label);
                        assert(!all_relocs_defined(st.relocs, st.labels));
                    }
                    return Err(ProgramError::UndefinedLabel);
                },
                Some(location) => {
                    proof {
                        let ke = choose|ke: int|
                            #![trigger self.label_locations@[ke]]
                            0 <= ke < self.label_locations@.len() && self.label_locations@[ke] == (
                            rl.label,
                            location,
                            );
                        lemma_assoc_map_index(self.label_locations@, rl.label, ke);
                    }
                    let ghost pre = out@;
                    let offset: i32 = ((location as i64) - (rl.relative_to as i64)) as i32;
                    let bs = u32_to_le_bytes(#[verifier::truncate] (offset as u32));
                    proof {
                        lemma_auto_spec_u32_to_from_le_bytes();
                    }
                    out.set(rl.at, bs[0]);
                    out.set(rl.at + 1, bs[1]);
                    out.set(rl.at + 2, bs[2]);
                    out.set(rl.at + 3, bs[3]);
                    proof {
                        assert(out@ =~= splice(
                            pre,
                            rl.at as int,
                            rel32_bytes(st.labels[rl.label], rl.relative_to as int),
                        ));
                        assert(patch_from(pre, st.relocs, st.labels, k as int) == patch_from(
                            out@,
                            st.relocs,
                            st.labels,
                            k + 1,
                        ));
                    }
                },
            }
            k = k + 1;
        }
        proof {
            assert forall|k2: int|
                #![trigger st.relocs[k2]]
                0 <= k2 < st.relocs.len() implies out@.subrange(
                st.relocs[k2].at as int,
                st.relocs[k2].at + 4,
            ) == rel32_bytes(
                st.labels[st.relocs[k2].label],
                st.relocs[k2].relative_to as int,
            ) by {
                lemma_patch_from_patched(st.code, st.relocs, st.labels, 0, k2);
            };
        }
        Ok(out)
    }
}

} // verus!

//! The reference evaluator: walks a program directly against a simulated
//! call frame, giving every instruction the literal semantics of
//! [`crate::semantics::step`], with no branch folding and no shortcuts.

use vstd::prelude::*;

use crate::frame::{load_frame, store_frame};
use crate::instruction::{same_size, Dest, Instruction, Label, Size, Src};
use crate::semantics::{
    all_refs_defined, can_read_src, can_write_dest, copy_values, defines_label, label_defined,
    label_index, labels_unique, lemma_copy_values_len, lemma_copy_values_none,
    lemma_read_args_none, lemma_write_args_len, lemma_write_args_none, lemma_write_dest_len,
    read_args, read_src, references_label, run_spec, step, write_args, write_dest, RunState, Step,
    UNINIT_SENTINEL,
};
use crate::ProgramError;

verus! {

/// An evaluator for one program: the instruction sequence, the frame size,
/// and the label table resolved once, before execution starts.
/// It always takes six `u64` arguments and returns one `u64`.
pub struct InterpreterFn {
    code: Vec<Instruction>,
    stack_size: usize,
    label_locations: Vec<(Label, usize)>,
}

impl InterpreterFn {
    /// The program this evaluator walks.
    pub closed spec fn prog(self) -> Seq<Instruction> {
        self.code@
    }

    /// The size in bytes of the simulated frame each run gets.
    pub closed spec fn frame_size(self) -> nat {
        self.stack_size as nat
    }

    /// The evaluator's internal invariant: the program's labels are unique
    /// and all referenced, the frame size is bounded, and the label table is
    /// exactly the program's label definitions.
    pub closed spec fn inv(self) -> bool {
        &&& labels_unique(self.code@)
        &&& all_refs_defined(self.code@)
        &&& self.stack_size <= 0x7fff_ffff
        &&& forall|k: int|
            #![trigger self.label_locations@[k]]
            0 <= k < self.label_locations@.len() ==> defines_label(
                self.code@,
                self.label_locations@[k].0,
                self.label_locations@[k].1 as int,
            )
        &&& forall|l: Label, j: int|
            defines_label(self.code@, l, j) ==> exists|k: int|
                #![trigger self.label_locations@[k]]
                0 <= k < self.label_locations@.len() && self.label_locations@[k].0 == l
    }

    /// Builds an evaluator, resolving labels to instruction indices.
    /// Succeeds exactly when no label is defined twice and every referenced
    /// label is defined; reports the duplicate first.
    pub fn new(code: Vec<Instruction>, stack_size: usize) -> (r: Result<
        InterpreterFn,
        ProgramError,
    >)
        requires
            stack_size <= 0x7fff_ffff,
        ensures
            r is Ok <==> labels_unique(code@) && all_refs_defined(code@),
            r matches Ok(f) ==> f.prog() == code@ && f.frame_size() == stack_size && f.inv(),
            !labels_unique(code@) ==> r == Err::<InterpreterFn, ProgramError>(
                ProgramError::DuplicateLabelDefinition,
            ),
            labels_unique(code@) && !all_refs_defined(code@) ==> r == Err::<
                InterpreterFn,
                ProgramError,
            >(ProgramError::UndefinedLabel),
    {
        let mut label_locations: Vec<(Label, usize)> = Vec::new();
        let n = code.len();
        let mut i: usize = 0;
        while i < n
            invariant
                n == code@.len(),
                i <= n,
                forall|k: int|
                    #![trigger label_locations@[k]]
                    0 <= k < label_locations@.len() ==> defines_label(
                        code@,
                        label_locations@[k].0,
                        label_locations@[k].1 as int,
                    ) && label_locations@[k].1 < i,
                forall|l: Label, j: int|
                    0 <= j < i && defines_label(code@, l, j) ==> exists|k: int|
                        #![trigger label_locations@[k]]
                        0 <= k < label_locations@.len() && label_locations@[k].0 == l,
                forall|l: Label, j1: int, j2: int|
                    0 <= j1 < i && 0 <= j2 < i && defines_label(code@, l, j1) && defines_label(
                        code@,
                        l,
                        j2,
                    ) ==> j1 == j2,
            decreases n - i,
        {
            let ghost old_tab = label_locations@;
            match code[i] {
                Instruction::Label(l) => {
                    match lookup_label(&label_locations, l) {
                        Some(prev) => {
                            proof {
                                let k = choose|k: int|
                                    0 <= k < label_locations@.len() && label_locations@[k] == (
                                    l,
                                    prev,
                                    );
                                assert(label_locations@[k].0 == l);
                                let j1 = label_locations@[k].1 as int;
                                assert(defines_label(code@, l, j1));
                                assert(defines_label(code@, l, i as int));
                                assert(j1 != i as int);
                                assert(!labels_unique(code@));
                            }
                            return Err(ProgramError::DuplicateLabelDefinition);
                        },
                        None => {
                            label_locations.push((l, i));
                            proof {
                                let klen = old_tab.len() as int;
                                assert(label_locations@[klen] == (l, i));
                                assert(defines_label(code@, l, i as int));
                                assert forall|k: int|
                                    #![trigger label_locations@[k]]
                                    0 <= k < label_locations@.len() implies defines_label(
                                    code@,
                                    label_locations@[k].0,
                                    label_locations@[k].1 as int,
                                ) && label_locations@[k].1 < i + 1 by {
                                    if k < klen {
                                        assert(label_locations@[k] == old_tab[k]);
                                    } else {
                                        assert(label_locations@[k] == (l, i));
                                    }
                                };
                                assert forall|l2: Label, j: int|
                                    0 <= j < i + 1 && defines_label(
                                        code@,
                                        l2,
                                        j,
                                    ) implies exists|k: int|
                                    #![trigger label_locations@[k]]
                                    0 <= k < label_locations@.len() && label_locations@[k].0
                                        == l2 by {
                                    if j == i as int {
                                        assert(code@[j] == Instruction::Label(l2));
                                        assert(label_locations@[klen].0 == l2);
                                    } else {
                                        let k = choose|k: int|
                                            0 <= k < old_tab.len() && old_tab[k].0 == l2;
                                        assert(label_locations@[k].0 == l2);
                                    }
                                };
                            }
                        },
                    }
                },
                _ => {
                    proof {
                        assert forall|k: int|
                            #![trigger label_locations@[k]]
                            0 <= k < label_locations@.len() implies defines_label(
                            code@,
                            label_locations@[k].0,
                            label_locations@[k].1 as int,
                        ) && label_locations@[k].1 < i + 1 by {};
                        assert forall|l2: Label, j: int|
                            0 <= j < i + 1 && defines_label(code@, l2, j) implies exists|k: int|
                            #![trigger label_locations@[k]]
                            0 <= k < label_locations@.len() && label_locations@[k].0 == l2 by {
                            if j == i as int {
                                assert(code@[j] == Instruction::Label(l2));
                                assert(false);
                            }
                        };
                    }
                },
            }
            i = i + 1;
        }
        let mut i: usize = 0;
        while i < n
            invariant
                n == code@.len(),
                i <= n,
                labels_unique(code@),
                forall|k: int|
                    #![trigger label_locations@[k]]
                    0 <= k < label_locations@.len() ==> defines_label(
                        code@,
                        label_locations@[k].0,
                        label_locations@[k].1 as int,
                    ),
                forall|l: Label, j: int|
                    0 <= j < n && defines_label(code@, l, j) ==> exists|k: int|
                        #![trigger label_locations@[k]]
                        0 <= k < label_locations@.len() && label_locations@[k].0 == l,
                forall|l: Label, j: int|
                    0 <= j < i && crate::semantics::references_label(code@, l, j)
                        ==> label_defined(code@, l),
            decreases n - i,
        {
            if let Instruction::JIf(_, l) = code[i] {
                match lookup_label(&label_locations, l) {
                    None => {
                        proof {
                            assert(crate::semantics::references_label(code@, l, i as int));
                            if label_defined(code@, l) {
                                let j = choose|j: int| defines_label(code@, l, j);
                                assert(defines_label(code@, l, j));
                                assert(false);
                            }
                        }
                        return Err(ProgramError::UndefinedLabel);
                    },
                    Some(ix) => {
                        proof {
                            let k = choose|k: int|
                                0 <= k < label_locations@.len() && label_locations@[k] == (l, ix);
                            assert(label_locations@[k].0 == l);
                            assert(defines_label(
                                code@,
                                l,
                                label_locations@[k].1 as int,
                            ));
                            assert(label_defined(code@, l));
                        }
                    },
                }
            }
            proof {
                assert forall|l2: Label|
                    crate::semantics::references_label(
                        code@,
                        l2,
                        i as int,
                    ) implies label_defined(code@, l2) by {
                    if let Instruction::JIf(_, l0) = code@[i as int] {
                        assert(l2 == l0);
                    }
                };
            }
            i = i + 1;
        }
        let ghost tabv = label_locations@;
        let ghost codev = code@;
        proof {
            assert forall|l: Label, j: int| defines_label(codev, l, j) implies exists|k: int|
                #![trigger tabv[k]]
                0 <= k < tabv.len() && tabv[k].0 == l by {
            };
        }
        let result = InterpreterFn { code, stack_size, label_locations };
        proof {
            assert(result.label_locations@ == tabv);
            assert(result.code@ == codev);
            assert forall|l: Label, j: int| defines_label(result.code@, l, j) implies exists|
                k: int,
            |
                #![trigger result.label_locations@[k]]
                0 <= k < result.label_locations@.len() && result.label_locations@[k].0 == l by {
                assert(defines_label(codev, l, j));
                let k0 = choose|k: int| #![trigger tabv[k]] 0 <= k < tabv.len() && tabv[k].0 == l;
                assert(result.label_locations@[k0].0 == l);
            };
            assert(result.inv());
        }
        Ok(result)
    }
}

/// Looks a label up in the resolved table by linear scan.
fn lookup_label(table: &Vec<(Label, usize)>, l: Label) -> (r: Option<usize>)
    ensures
        r matches Some(ix) ==> exists|k: int|
            #![trigger table@[k]]
            0 <= k < table@.len() && table@[k] == (l, ix),
        r is None ==> forall|k: int| #![trigger table@[k]] 0 <= k < table@.len() ==> table@[k].0 != l,
{
    let n = table.len();
    let mut i: usize = 0;
    while i < n
        invariant
            n == table@.len(),
            i <= n,
            forall|k: int| #![trigger table@[k]] 0 <= k < i ==> table@[k].0 != l,
        decreases n - i,
    {
        let entry = table[i];
        if entry.0 == l {
            return Some(entry.1);
        }
        i = i + 1;
    }
    None
}

/// The frame position `frame_len + off + disp`, if the shifted offset stays
/// representable and an access of width `sz` there stays inside the frame.
fn here_loc(frame_len: usize, off: i32, disp: u64, sz: Size) -> (r: Option<usize>)
    requires
        frame_len <= 0x7fff_ffff,
    ensures
        r is Some <==> {
            &&& off + disp <= i32::MAX
            &&& 0 <= frame_len + off + disp
            &&& frame_len + off + disp + sz.spec_bytes() <= frame_len
        },
        r matches Some(loc) ==> loc == frame_len + off + disp,
{
    if disp > 0xffff_ffff {
        // off + disp then exceeds any representable far offset
        return None;
    }
    let shifted: i64 = off as i64 + disp as i64;
    if shifted > 0x7fff_ffff {
        return None;
    }
    let loc: i64 = frame_len as i64 + shifted;
    if loc < 0 {
        return None;
    }
    let bytes = sz.bytes();
    if loc as u64 > (frame_len as u64) || (frame_len as u64) - (loc as u64) < bytes as u64 {
        return None;
    }
    Some(loc as usize)
}

/// The frame position `ptr + far + disp`, if the shifted field offset stays
/// representable and an access of width `sz` there stays inside the frame.
fn far_loc(frame_len: usize, ptr: u64, far: i32, disp: u64, sz: Size) -> (r: Option<usize>)
    requires
        frame_len <= 0x7fff_ffff,
    ensures
        r is Some <==> {
            &&& far + disp <= i32::MAX
            &&& 0 <= ptr + far + disp
            &&& ptr + far + disp + sz.spec_bytes() <= frame_len
        },
        r matches Some(loc) ==> loc == ptr + far + disp,
{
    if disp > 0xffff_ffff {
        return None;
    }
    let shifted: i64 = far as i64 + disp as i64;
    if shifted > 0x7fff_ffff {
        return None;
    }
    let loc: i128 = ptr as i128 + shifted as i128;
    if loc < 0 {
        return None;
    }
    let bytes = sz.bytes();
    if loc > frame_len as i128 || (frame_len as i128) - loc < bytes as i128 {
        return None;
    }
    Some(loc as usize)
}

/// Reads one operand against the frame, with its far offset shifted by
/// `disp`: exactly [`read_src`] when the access is in bounds, an error
/// otherwise.
fn read_operand(frame: &Vec<u8>, src: Src, disp: u64) -> (r: Result<u64, ProgramError>)
    requires
        frame@.len() <= 0x7fff_ffff,
    ensures
        can_read_src(frame@, src, disp as int) ==> r == Ok::<u64, ProgramError>(
            read_src(frame@, src, disp as int),
        ),
        !can_read_src(frame@, src, disp as int) ==> r == Err::<u64, ProgramError>(
            ProgramError::FrameAccessOutOfBounds,
        ),
{
    match src {
        Src::Uninitialized => Ok(UNINIT_SENTINEL),
        Src::Imm(x) => Ok(x),
        Src::Here(off, sz) => match here_loc(frame.len(), off, disp, sz) {
            Some(loc) => Ok(load_frame(frame, loc, sz)),
            None => Err(ProgramError::FrameAccessOutOfBounds),
        },
        Src::Ptr(near, far, sz) => match here_loc(frame.len(), near, 0, Size::Q) {
            Some(ploc) => {
                let ptr = load_frame(frame, ploc, Size::Q);
                match far_loc(frame.len(), ptr, far, disp, sz) {
                    Some(loc) => Ok(load_frame(frame, loc, sz)),
                    None => Err(ProgramError::FrameAccessOutOfBounds),
                }
            },
            None => Err(ProgramError::FrameAccessOutOfBounds),
        },
    }
}

/// Writes one operand against the frame, with its far offset shifted by
/// `disp`: exactly [`write_dest`] when the access is in bounds, an error
/// otherwise (leaving the frame unchanged).
fn write_operand(frame: &mut Vec<u8>, dest: Dest, disp: u64, v: u64) -> (r: Result<
    (),
    ProgramError,
>)
    requires
        old(frame)@.len() <= 0x7fff_ffff,
    ensures
        can_write_dest(old(frame)@, dest, disp as int) ==> r == Ok::<(), ProgramError>(())
            && final(frame)@ == write_dest(old(frame)@, dest, disp as int, v),
        !can_write_dest(old(frame)@, dest, disp as int) ==> r == Err::<(), ProgramError>(
            ProgramError::FrameAccessOutOfBounds,
        ) && final(frame)@ == old(frame)@,
{
    match dest {
        Dest::Nowhere => Ok(()),
        Dest::Here(off, sz) => match here_loc(frame.len(), off, disp, sz) {
            Some(loc) => {
                store_frame(frame, loc, sz, v);
                Ok(())
            },
            None => Err(ProgramError::FrameAccessOutOfBounds),
        },
        Dest::Ptr(near, far, sz) => match here_loc(frame.len(), near, 0, Size::Q) {
            Some(ploc) => {
                let ptr = load_frame(frame, ploc, Size::Q);
                match far_loc(frame.len(), ptr, far, disp, sz) {
                    Some(loc) => {
                        store_frame(frame, loc, sz, v);
                        Ok(())
                    },
                    None => Err(ProgramError::FrameAccessOutOfBounds),
                }
            },
            None => Err(ProgramError::FrameAccessOutOfBounds),
        },
    }
}

/// One in-flight activation of a program: the six incoming arguments, the
/// simulated frame, the instruction cursor, and — while a foreign call is
/// paused — the destination awaiting the call's result.
pub struct Execution {
    args: [u64; 6],
    frame: Vec<u8>,
    ip: usize,
    pending: Option<Dest>,
}

impl Execution {
    /// The six incoming call arguments.
    pub closed spec fn args_seq(self) -> Seq<u64> {
        self.args@
    }

    /// The bytes of the simulated frame.
    pub closed spec fn frame_bytes(self) -> Seq<u8> {
        self.frame@
    }

    /// The index of the next instruction to execute.
    pub closed spec fn cursor(self) -> int {
        self.ip as int
    }

    /// The destination awaiting a foreign call's result, if one is paused.
    pub closed spec fn awaiting(self) -> Option<Dest> {
        self.pending
    }
}

/// Stores the six incoming arguments to their declared destinations, in
/// order: the frame effect of one `Begin`.
fn exec_begin(frame: &mut Vec<u8>, dests: &[Dest; 6], args: &[u64; 6]) -> (r: Result<
    (),
    ProgramError,
>)
    requires
        old(frame)@.len() <= 0x7fff_ffff,
    ensures
        match write_args(old(frame)@, dests@, args@, 6) {
            Some(f2) => r == Ok::<(), ProgramError>(()) && final(frame)@ == f2,
            None => r == Err::<(), ProgramError>(ProgramError::FrameAccessOutOfBounds),
        },
        final(frame)@.len() == old(frame)@.len(),
{
    let ghost f0 = frame@;
    let ghost dv = dests@;
    let ghost av = args@;
    let mut k: usize = 0;
    while k < 6
        invariant
            k <= 6,
            f0 == old(frame)@,
            f0.len() <= 0x7fff_ffff,
            dv == dests@,
            av == args@,
            write_args(f0, dv, av, k as int) == Some(frame@),
            frame@.len() == f0.len(),
        decreases 6 - k,
    {
        let ghost fpre = frame@;
        match write_operand(frame, dests[k], 0, args[k]) {
            Ok(_) => {
                proof {
                    lemma_write_dest_len(fpre, dv[k as int], 0, av[k as int]);
                    assert(write_args(f0, dv, av, k + 1) == Some(frame@));
                }
            },
            Err(_) => {
                proof {
                    assert(write_args(f0, dv, av, k + 1) is None);
                    lemma_write_args_none(f0, dv, av, k + 1, 6);
                }
                return Err(ProgramError::FrameAccessOutOfBounds);
            },
        }
        k = k + 1;
    }
    Ok(())
}

/// Performs the `count` load/store pairs of one `Copy`, the `i`-th pair
/// with both far offsets advanced by `i` elements (`i` times the operand's
/// own width), stepping through consecutive values.
fn exec_copy(frame: &mut Vec<u8>, dest: Dest, src: Src, count: u64) -> (r: Result<
    (),
    ProgramError,
>)
    requires
        old(frame)@.len() <= 0x7fff_ffff,
    ensures
        match copy_values(old(frame)@, dest, src, count as int) {
            Some(f2) => r == Ok::<(), ProgramError>(()) && final(frame)@ == f2,
            None => r == Err::<(), ProgramError>(ProgramError::FrameAccessOutOfBounds),
        },
        final(frame)@.len() == old(frame)@.len(),
{
    let ghost f0 = frame@;
    let src_framed = matches!(src, Src::Here(_, _) | Src::Ptr(_, _, _));
    let dest_framed = dest.needs_store();
    if !src_framed && !dest_framed {
        // neither side touches the frame: every pair is a no-op
        proof {
            crate::semantics::lemma_copy_values_noop(f0, dest, src, count as int);
        }
        return Ok(());
    }
    let ss = src.stride();
    let ds = dest.stride();
    let mut i: u64 = 0;
    while i < count
        invariant
            i <= count,
            f0 == old(frame)@,
            f0.len() <= 0x7fff_ffff,
            ss == src.spec_stride(),
            ds == dest.spec_stride(),
            1 <= ss <= 8,
            1 <= ds <= 8,
            (src is Here || src is Ptr) || dest.spec_needs_store(),
            copy_values(f0, dest, src, i as int) == Some(frame@),
            frame@.len() == f0.len(),
        decreases count - i,
    {
        let ghost fpre = frame@;
        if i >= 0x1_0000_0000 {
            // a framed operand's far offset, advanced this many elements,
            // exceeds any representable offset: the next pair must fail
            proof {
                if src is Here || src is Ptr {
                    assert((i as int) * (ss as int) >= 0x1_0000_0000) by (nonlinear_arith)
                        requires
                            i >= 0x1_0000_0000,
                            ss >= 1,
                    ;
                    assert(!can_read_src(fpre, src, (i as int) * src.spec_stride()));
                } else {
                    assert((i as int) * (ds as int) >= 0x1_0000_0000) by (nonlinear_arith)
                        requires
                            i >= 0x1_0000_0000,
                            ds >= 1,
                    ;
                    assert(!can_write_dest(fpre, dest, (i as int) * dest.spec_stride()));
                }
                assert(copy_values(f0, dest, src, i + 1) is None);
                lemma_copy_values_none(f0, dest, src, i + 1, count as int);
            }
            return Err(ProgramError::FrameAccessOutOfBounds);
        }
        proof {
            assert((i as int) * (ss as int) < 0x10_0000_0000) by (nonlinear_arith)
                requires
                    i < 0x1_0000_0000,
                    0 <= ss <= 8,
            ;
            assert((i as int) * (ds as int) < 0x10_0000_0000) by (nonlinear_arith)
                requires
                    i < 0x1_0000_0000,
                    0 <= ds <= 8,
            ;
        }
        let sdisp: u64 = i * ss;
        let ddisp: u64 = i * ds;
        let v = match read_operand(frame, src, sdisp) {
            Ok(v) => v,
            Err(_) => {
                proof {
                    assert(copy_values(f0, dest, src, i + 1) is None);
                    lemma_copy_values_none(f0, dest, src, i + 1, count as int);
                }
                return Err(ProgramError::FrameAccessOutOfBounds);
            },
        };
        match write_operand(frame, dest, ddisp, v) {
            Ok(_) => {
                proof {
                    lemma_write_dest_len(fpre, dest, ddisp as int, v);
                    assert(copy_values(f0, dest, src, i + 1) == Some(frame@));
                }
            },
            Err(_) => {
                proof {
                    assert(copy_values(f0, dest, src, i + 1) is None);
                    lemma_copy_values_none(f0, dest, src, i + 1, count as int);
                }
                return Err(ProgramError::FrameAccessOutOfBounds);
            },
        }
        i = i + 1;
    }
    Ok(())
}

/// Reads the six argument operands of a foreign call against one frame.
fn read_call_args(frame: &Vec<u8>, srcs: &[Src; 6]) -> (r: Result<[u64; 6], ProgramError>)
    requires
        frame@.len() <= 0x7fff_ffff,
    ensures
        match read_args(frame@, srcs@, 6) {
            Some(vals) => r matches Ok(a) && a@ == vals,
            None => r == Err::<[u64; 6], ProgramError>(ProgramError::FrameAccessOutOfBounds),
        },
{
    let ghost sv = srcs@;
    let mut vals: [u64; 6] = [0, 0, 0, 0, 0, 0];
    let mut k: usize = 0;
    while k < 6
        invariant
            k <= 6,
            frame@.len() <= 0x7fff_ffff,
            sv == srcs@,
            ({
                match read_args(frame@, sv, k as int) {
                    Some(pre) => pre.len() == k && forall|j: int|
                        0 <= j < k ==> pre[j] == vals@[j],
                    None => false,
                }
            }),
        decreases 6 - k,
    {
        let v = match read_operand(frame, srcs[k], 0) {
            Ok(v) => v,
            Err(_) => {
                proof {
                    assert(read_args(frame@, sv, k + 1) is None);
                    lemma_read_args_none(frame@, sv, k + 1, 6);
                }
                return Err(ProgramError::FrameAccessOutOfBounds);
            },
        };
        vals[k] = v;
        proof {
            let pre = read_args(frame@, sv, k as int)->Some_0;
            assert(read_args(frame@, sv, k + 1) == Some(pre.push(v)));
        }
        k = k + 1;
    }
    proof {
        let full = read_args(frame@, sv, 6)->Some_0;
        assert(full =~= vals@);
    }
    Ok(vals)
}

/// What a bounded run of the evaluator came back with.
#[derive(Clone, Copy, Debug)]
pub enum Outcome {
    /// The procedure returned this value.
    Done(u64),
    /// Execution paused at a foreign call: the raw function address and the
    /// six argument values.  Perform the call, then hand its result back
    /// through [`InterpreterFn::resume`].
    NeedsCall(u64, [u64; 6]),
    /// The step budget ran out with execution still in flight; run again to
    /// continue.
    Running,
}

impl InterpreterFn {
    /// Allocates a zeroed frame and places the cursor at the first
    /// instruction, ready to run with the given six arguments.
    pub fn start(&self, arg0: u64, arg1: u64, arg2: u64, arg3: u64, arg4: u64, arg5: u64) -> (e:
        Execution)
        ensures
            e.args_seq() == seq![arg0, arg1, arg2, arg3, arg4, arg5],
            e.frame_bytes().len() == self.frame_size(),
            forall|i: int| 0 <= i < e.frame_bytes().len() ==> e.frame_bytes()[i] == 0,
            e.cursor() == 0,
            e.awaiting() is None,
    {
        let args = [arg0, arg1, arg2, arg3, arg4, arg5];
        let frame = vec![0u8; self.stack_size];
        proof {
            assert(args@ =~= seq![arg0, arg1, arg2, arg3, arg4, arg5]);
        }
        Execution { args, frame, ip: 0, pending: None }
    }

    /// Runs for at most `fuel` instruction steps from wherever `exec`
    /// stands, with the literal semantics of [`run_spec`]: it returns the
    /// procedure's value, pauses at a foreign call, reports the
    /// program-validity fault it ran into, or stops with the budget spent.
    pub fn run(&self, exec: &mut Execution, fuel: u64) -> (r: Result<Outcome, ProgramError>)
        requires
            self.inv(),
            old(exec).frame_bytes().len() == self.frame_size(),
            old(exec).awaiting() is None,
        ensures
            final(exec).args_seq() == old(exec).args_seq(),
            final(exec).frame_bytes().len() == self.frame_size(),
            ({
                let rs = run_spec(
                    self.prog(),
                    old(exec).args_seq(),
                    old(exec).frame_bytes(),
                    old(exec).cursor(),
                    fuel as nat,
                );
                match rs {
                    RunState::Done { value } => r == Ok::<Outcome, ProgramError>(
                        Outcome::Done(value),
                    ) && final(exec).awaiting() is None,
                    RunState::Call { target, values, dest, ip, frame } => {
                        &&& r matches Ok(Outcome::NeedsCall(t, vals)) && t == target && vals@
                            == values
                        &&& final(exec).frame_bytes() == frame
                        &&& final(exec).cursor() == ip
                        &&& final(exec).awaiting() == Some(dest)
                    },
                    RunState::Running { frame, ip } => {
                        &&& r == Ok::<Outcome, ProgramError>(Outcome::Running)
                        &&& final(exec).frame_bytes() == frame
                        &&& final(exec).cursor() == ip
                        &&& final(exec).awaiting() is None
                    },
                    RunState::Fail { error } => r == Err::<Outcome, ProgramError>(error),
                }
            }),
    {
        let ghost codev = self.prog();
        let ghost argsv = old(exec).args_seq();
        let ghost frame0 = old(exec).frame_bytes();
        let ghost ip0 = old(exec).cursor();
        let mut remaining: u64 = fuel;
        while remaining > 0
            invariant
                self.inv(),
                codev == self.prog(),
                argsv == old(exec).args_seq(),
                frame0 == old(exec).frame_bytes(),
                ip0 == old(exec).cursor(),
                exec.args_seq() == argsv,
                exec.frame_bytes().len() == self.frame_size(),
                exec.awaiting() is None,
                remaining <= fuel,
                run_spec(codev, argsv, frame0, ip0, fuel as nat) == run_spec(
                    codev,
                    argsv,
                    exec.frame_bytes(),
                    exec.cursor(),
                    remaining as nat,
                ),
            decreases remaining,
        {
            let ghost fpre = exec.frame_bytes();
            let ghost ippre = exec.cursor();
            let ip = exec.ip;
            if ip >= self.code.len() {
                proof {
                    assert(step(codev, argsv, fpre, ippre) == Step::Fail {
                        error: ProgramError::ProgramCounterEscaped,
                    });
                }
                return Err(ProgramError::ProgramCounterEscaped);
            }
            let instr = self.code[ip];
            match instr {
                Instruction::Begin(_n_bytes, dests) => {
                    let args = exec.args;
                    match exec_begin(&mut exec.frame, &dests, &args) {
                        Ok(_) => {
                            exec.ip = ip + 1;
                            proof {
                                lemma_write_args_len(fpre, dests@, argsv, 6);
                                assert(step(codev, argsv, fpre, ippre) == Step::Next {
                                    frame: exec.frame_bytes(),
                                    ip: exec.cursor(),
                                });
                            }
                        },
                        Err(e) => {
                            proof {
                                assert(step(codev, argsv, fpre, ippre) == Step::Fail { error: e });
                            }
                            return Err(e);
                        },
                    }
                },
                Instruction::Ret(src) => {
                    match read_operand(&exec.frame, src, 0) {
                        Ok(v) => {
                            proof {
                                assert(step(codev, argsv, fpre, ippre) == Step::Done { value: v });
                            }
                            return Ok(Outcome::Done(v));
                        },
                        Err(e) => {
                            proof {
                                assert(step(codev, argsv, fpre, ippre) == Step::Fail { error: e });
                            }
                            return Err(e);
                        },
                    }
                },
                Instruction::Copy(dest, src, count) => {
                    if count.0 != 1 && !same_size(dest, src) {
                        proof {
                            assert(step(codev, argsv, fpre, ippre) == Step::Fail {
                                error: ProgramError::OperandWidthMismatch,
                            });
                        }
                        return Err(ProgramError::OperandWidthMismatch);
                    }
                    match exec_copy(&mut exec.frame, dest, src, count.0) {
                        Ok(_) => {
                            exec.ip = ip + 1;
                            proof {
                                lemma_copy_values_len(fpre, dest, src, count.0 as int);
                                assert(step(codev, argsv, fpre, ippre) == Step::Next {
                                    frame: exec.frame_bytes(),
                                    ip: exec.cursor(),
                                });
                            }
                        },
                        Err(e) => {
                            proof {
                                assert(step(codev, argsv, fpre, ippre) == Step::Fail { error: e });
                            }
                            return Err(e);
                        },
                    }
                },
                Instruction::JIf(src, l) => {
                    match read_operand(&exec.frame, src, 0) {
                        Ok(v) => {
                            if v != 0 {
                                match lookup_label(&self.label_locations, l) {
                                    Some(ix) => {
                                        proof {
                                            let k = choose|k: int|
                                                #![trigger self.label_locations@[k]]
                                                0 <= k < self.label_locations@.len()
                                                    && self.label_locations@[k] == (l, ix);
                                            assert(defines_label(codev, l, ix as int));
                                            assert(label_defined(codev, l));
                                            let j = label_index(codev, l);
                                            assert(defines_label(codev, l, j));
                                            assert(j == ix as int);
                                        }
                                        exec.ip = ix;
                                        proof {
                                            assert(step(codev, argsv, fpre, ippre) == Step::Next {
                                                frame: exec.frame_bytes(),
                                                ip: exec.cursor(),
                                            });
                                        }
                                    },
                                    None => {
                                        proof {
                                            assert(references_label(codev, l, ippre));
                                            assert(label_defined(codev, l));
                                            let j = choose|j: int| defines_label(codev, l, j);
                                            assert(defines_label(codev, l, j));
                                            assert(false);
                                        }
                                        return Err(ProgramError::UndefinedLabel);
                                    },
                                }
                            } else {
                                exec.ip = ip + 1;
                                proof {
                                    assert(step(codev, argsv, fpre, ippre) == Step::Next {
                                        frame: exec.frame_bytes(),
                                        ip: exec.cursor(),
                                    });
                                }
                            }
                        },
                        Err(e) => {
                            proof {
                                assert(step(codev, argsv, fpre, ippre) == Step::Fail { error: e });
                            }
                            return Err(e);
                        },
                    }
                },
                Instruction::Label(_) => {
                    exec.ip = ip + 1;
                    proof {
                        assert(step(codev, argsv, fpre, ippre) == Step::Next {
                            frame: exec.frame_bytes(),
                            ip: exec.cursor(),
                        });
                    }
                },
                Instruction::FFICall(dest, srcs, target) => {
                    match read_call_args(&exec.frame, &srcs) {
                        Ok(vals) => {
                            exec.ip = ip + 1;
                            exec.pending = Some(dest);
                            proof {
                                assert(step(codev, argsv, fpre, ippre) == Step::Call {
                                    target,
                                    values: vals@,
                                    dest,
                                    ip: exec.cursor(),
                                    frame: exec.frame_bytes(),
                                });
                            }
                            return Ok(Outcome::NeedsCall(target, vals));
                        },
                        Err(e) => {
                            proof {
                                assert(step(codev, argsv, fpre, ippre) == Step::Fail { error: e });
                            }
                            return Err(e);
                        },
                    }
                },
            }
            remaining = remaining - 1;
        }
        Ok(Outcome::Running)
    }

    /// Completes a paused foreign call: stores `value` — the call's result —
    /// to the destination that was awaiting it.
    pub fn resume(&self, exec: &mut Execution, value: u64) -> (r: Result<(), ProgramError>)
        requires
            self.inv(),
            old(exec).frame_bytes().len() == self.frame_size(),
            old(exec).awaiting() is Some,
        ensures
            final(exec).args_seq() == old(exec).args_seq(),
            final(exec).cursor() == old(exec).cursor(),
            final(exec).frame_bytes().len() == self.frame_size(),
            ({
                let dest = old(exec).awaiting()->Some_0;
                if can_write_dest(old(exec).frame_bytes(), dest, 0) {
                    &&& r == Ok::<(), ProgramError>(())
                    &&& final(exec).frame_bytes() == write_dest(
                        old(exec).frame_bytes(),
                        dest,
                        0,
                        value,
                    )
                    &&& final(exec).awaiting() is None
                } else {
                    r == Err::<(), ProgramError>(ProgramError::FrameAccessOutOfBounds)
                }
            }),
    {
        let dest = match exec.pending {
            Some(d) => d,
            None => {
                proof {
                    assert(false);
                }
                return Err(ProgramError::FrameAccessOutOfBounds);
            },
        };
        let ghost fpre = exec.frame_bytes();
        match write_operand(&mut exec.frame, dest, 0, value) {
            Ok(_) => {
                proof {
                    lemma_write_dest_len(fpre, dest, 0, value);
                }
                exec.pending = None;
                Ok(())
            },
            Err(e) => Err(e),
        }
    }
}

} // verus!

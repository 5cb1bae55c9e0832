//! The shared operational semantics of the instruction set.
//!
//! Both backends answer to this one description: the reference evaluator is
//! proved to implement [`step`] literally, and the code generator's contracts
//! are stated over the byte encodings whose effect mirrors it.  The frame
//! base sits at the end of the frame region, so direct offsets are negative
//! or zero; a pointer fetched from the frame is an absolute byte position
//! within the same frame.

use vstd::prelude::*;

use crate::frame::{can_access, load_at, store_at};
use crate::instruction::{Dest, Instruction, Label, Size, Src, spec_same_size};
use crate::ProgramError;

verus! {

/// The bit pattern an `Uninitialized` operand yields when it is read anyway.
pub const UNINIT_SENTINEL: u64 = 0x123456789abcdef0;

/// Whether reading `src`, with its far offset shifted by `disp`, stays
/// inside the frame (and the shifted offset stays representable).
pub open spec fn can_read_src(frame: Seq<u8>, src: Src, disp: int) -> bool
    recommends
        disp >= 0,
{
    match src {
        Src::Uninitialized => true,
        Src::Imm(_) => true,
        Src::Here(off, sz) => off + disp <= i32::MAX && can_access(
            frame,
            frame.len() + off + disp,
            sz,
        ),
        Src::Ptr(near, far, sz) => {
            &&& can_access(frame, frame.len() + near, Size::Q)
            &&& far + disp <= i32::MAX
            &&& can_access(frame, load_at(frame, frame.len() + near, Size::Q) + far + disp, sz)
        },
    }
}

/// The value read for `src` with its far offset shifted by `disp`:
/// immediates yield themselves, `Uninitialized` yields the sentinel,
/// frame operands load from the frame, zero-extended to 8 bytes.
pub open spec fn read_src(frame: Seq<u8>, src: Src, disp: int) -> u64
    recommends
        can_read_src(frame, src, disp),
{
    match src {
        Src::Uninitialized => UNINIT_SENTINEL,
        Src::Imm(x) => x,
        Src::Here(off, sz) => load_at(frame, frame.len() + off + disp, sz),
        Src::Ptr(near, far, sz) => load_at(
            frame,
            load_at(frame, frame.len() + near, Size::Q) + far + disp,
            sz,
        ),
    }
}

/// Whether writing `dest`, with its far offset shifted by `disp`, stays
/// inside the frame.  `Nowhere` can always be "written".
pub open spec fn can_write_dest(frame: Seq<u8>, dest: Dest, disp: int) -> bool
    recommends
        disp >= 0,
{
    match dest {
        Dest::Nowhere => true,
        Dest::Here(off, sz) => off + disp <= i32::MAX && can_access(
            frame,
            frame.len() + off + disp,
            sz,
        ),
        Dest::Ptr(near, far, sz) => {
            &&& can_access(frame, frame.len() + near, Size::Q)
            &&& far + disp <= i32::MAX
            &&& can_access(frame, load_at(frame, frame.len() + near, Size::Q) + far + disp, sz)
        },
    }
}

/// The frame after writing the low bytes of `v` to `dest` with its far
/// offset shifted by `disp`.  `Nowhere` leaves the frame untouched.
pub open spec fn write_dest(frame: Seq<u8>, dest: Dest, disp: int, v: u64) -> Seq<u8>
    recommends
        can_write_dest(frame, dest, disp),
{
    match dest {
        Dest::Nowhere => frame,
        Dest::Here(off, sz) => store_at(frame, frame.len() + off + disp, sz, v),
        Dest::Ptr(near, far, sz) => store_at(
            frame,
            load_at(frame, frame.len() + near, Size::Q) + far + disp,
            sz,
            v,
        ),
    }
}

/// The frame after the first `n` of the six incoming argument values have
/// been stored to their declared destinations, in order; `None` as soon as
/// one store falls outside the frame.
pub open spec fn write_args(frame: Seq<u8>, dests: Seq<Dest>, vals: Seq<u64>, n: int) -> Option<
    Seq<u8>,
>
    recommends
        0 <= n <= dests.len(),
        vals.len() == dests.len(),
    decreases n,
{
    if n <= 0 {
        Some(frame)
    } else {
        match write_args(frame, dests, vals, n - 1) {
            None => None,
            Some(f2) => if can_write_dest(f2, dests[n - 1], 0) {
                Some(write_dest(f2, dests[n - 1], 0, vals[n - 1]))
            } else {
                None
            },
        }
    }
}

/// The values of the first `n` argument operands of a foreign call, all read
/// against one frame; `None` as soon as one read falls outside it.
pub open spec fn read_args(frame: Seq<u8>, srcs: Seq<Src>, n: int) -> Option<Seq<u64>>
    recommends
        0 <= n <= srcs.len(),
    decreases n,
{
    if n <= 0 {
        Some(Seq::empty())
    } else {
        match read_args(frame, srcs, n - 1) {
            None => None,
            Some(pre) => if can_read_src(frame, srcs[n - 1], 0) {
                Some(pre.push(read_src(frame, srcs[n - 1], 0)))
            } else {
                None
            },
        }
    }
}

/// The frame after the first `n` load/store pairs of a copy: the `i`-th
/// pair reads the source and writes the destination with both far offsets
/// advanced by `i` elements — `i` times the operand's own width — so the
/// pairs step through consecutive values.  Each pair sees the stores of the
/// pairs before it; `None` as soon as one access falls outside the frame.
pub open spec fn copy_values(frame: Seq<u8>, dest: Dest, src: Src, n: int) -> Option<Seq<u8>>
    recommends
        n >= 0,
    decreases n,
{
    if n <= 0 {
        Some(frame)
    } else {
        match copy_values(frame, dest, src, n - 1) {
            None => None,
            Some(f2) => {
                let rd = (n - 1) * src.spec_stride();
                let wd = (n - 1) * dest.spec_stride();
                if can_read_src(f2, src, rd) && can_write_dest(f2, dest, wd) {
                    Some(write_dest(f2, dest, wd, read_src(f2, src, rd)))
                } else {
                    None
                }
            },
        }
    }
}

/// Whether program position `i` defines label `l`.
pub open spec fn defines_label(code: Seq<Instruction>, l: Label, i: int) -> bool {
    0 <= i < code.len() && code[i] == Instruction::Label(l)
}

/// Whether some instruction of the program defines label `l`.
pub open spec fn label_defined(code: Seq<Instruction>, l: Label) -> bool {
    exists|i: int| defines_label(code, l, i)
}

/// The program position of the (unique) instruction defining label `l`.
pub open spec fn label_index(code: Seq<Instruction>, l: Label) -> int {
    choose|i: int| defines_label(code, l, i)
}

/// Whether no label is defined twice.
pub open spec fn labels_unique(code: Seq<Instruction>) -> bool {
    forall|l: Label, i: int, j: int|
        defines_label(code, l, i) && defines_label(code, l, j) ==> i == j
}

/// Whether program position `i` references label `l` (only branches
/// reference labels).
pub open spec fn references_label(code: Seq<Instruction>, l: Label, i: int) -> bool {
    &&& 0 <= i < code.len()
    &&& code[i] matches Instruction::JIf(_, ll) && ll == l
}

/// Whether every referenced label is defined somewhere in the program.
pub open spec fn all_refs_defined(code: Seq<Instruction>) -> bool {
    forall|l: Label, i: int| references_label(code, l, i) ==> label_defined(code, l)
}

/// What one instruction does to the machine.
pub enum Step {
    /// Execution continues at `ip` with the given frame.
    Next { frame: Seq<u8>, ip: int },
    /// The procedure returned this value.
    Done { value: u64 },
    /// A foreign function at address `target` must be invoked with the six
    /// argument `values`; its result is to be stored to `dest`, after which
    /// execution continues at `ip` with the unchanged `frame`.
    Call { target: u64, values: Seq<u64>, dest: Dest, ip: int, frame: Seq<u8> },
    /// A program-validity fault was detected.
    Fail { error: ProgramError },
}

/// The effect of the instruction at `ip` on a machine whose frame holds the
/// given bytes.  `args` are the six incoming call arguments (used by
/// `Begin` whenever it executes).
pub open spec fn step(code: Seq<Instruction>, args: Seq<u64>, frame: Seq<u8>, ip: int) -> Step
    recommends
        args.len() == 6,
{
    if !(0 <= ip < code.len()) {
        Step::Fail { error: ProgramError::ProgramCounterEscaped }
    } else {
        match code[ip] {
            Instruction::Begin(_n_bytes, dests) => match write_args(frame, dests@, args, 6) {
                Some(f2) => Step::Next { frame: f2, ip: ip + 1 },
                None => Step::Fail { error: ProgramError::FrameAccessOutOfBounds },
            },
            Instruction::Ret(src) => if can_read_src(frame, src, 0) {
                Step::Done { value: read_src(frame, src, 0) }
            } else {
                Step::Fail { error: ProgramError::FrameAccessOutOfBounds }
            },
            Instruction::Copy(dest, src, count) => if count.0 != 1 && !spec_same_size(dest, src) {
                Step::Fail { error: ProgramError::OperandWidthMismatch }
            } else {
                match copy_values(frame, dest, src, count.0 as int) {
                    Some(f2) => Step::Next { frame: f2, ip: ip + 1 },
                    None => Step::Fail { error: ProgramError::FrameAccessOutOfBounds },
                }
            },
            Instruction::JIf(src, l) => if !can_read_src(frame, src, 0) {
                Step::Fail { error: ProgramError::FrameAccessOutOfBounds }
            } else if read_src(frame, src, 0) != 0 {
                if label_defined(code, l) {
                    Step::Next { frame, ip: label_index(code, l) }
                } else {
                    Step::Fail { error: ProgramError::UndefinedLabel }
                }
            } else {
                Step::Next { frame, ip: ip + 1 }
            },
            Instruction::Label(_) => Step::Next { frame, ip: ip + 1 },
            Instruction::FFICall(dest, srcs, target) => match read_args(frame, srcs@, 6) {
                Some(vals) => Step::Call { target, values: vals, dest, ip: ip + 1, frame },
                None => Step::Fail { error: ProgramError::FrameAccessOutOfBounds },
            },
        }
    }
}

/// Writing a destination never changes the frame's length.
pub proof fn lemma_write_dest_len(frame: Seq<u8>, dest: Dest, disp: int, v: u64)
    requires
        can_write_dest(frame, dest, disp),
    ensures
        write_dest(frame, dest, disp, v).len() == frame.len(),
{
    match dest {
        Dest::Nowhere => {},
        Dest::Here(off, sz) => {
            crate::frame::lemma_store_at_len(frame, frame.len() + off + disp, sz, v);
        },
        Dest::Ptr(near, far, sz) => {
            crate::frame::lemma_store_at_len(
                frame,
                load_at(frame, frame.len() + near, Size::Q) + far + disp,
                sz,
                v,
            );
        },
    }
}

/// Storing arguments never changes the frame's length.
pub proof fn lemma_write_args_len(frame: Seq<u8>, dests: Seq<Dest>, vals: Seq<u64>, n: int)
    requires
        write_args(frame, dests, vals, n) is Some,
    ensures
        write_args(frame, dests, vals, n)->Some_0.len() == frame.len(),
    decreases n,
{
    if n > 0 {
        lemma_write_args_len(frame, dests, vals, n - 1);
        let f2 = write_args(frame, dests, vals, n - 1)->Some_0;
        lemma_write_dest_len(f2, dests[n - 1], 0, vals[n - 1]);
    }
}

/// A copy never changes the frame's length.
pub proof fn lemma_copy_values_len(frame: Seq<u8>, dest: Dest, src: Src, n: int)
    requires
        copy_values(frame, dest, src, n) is Some,
    ensures
        copy_values(frame, dest, src, n)->Some_0.len() == frame.len(),
    decreases n,
{
    if n > 0 {
        lemma_copy_values_len(frame, dest, src, n - 1);
        let f2 = copy_values(frame, dest, src, n - 1)->Some_0;
        lemma_write_dest_len(
            f2,
            dest,
            (n - 1) * dest.spec_stride(),
            read_src(f2, src, (n - 1) * src.spec_stride()),
        );
    }
}

/// A copy whose source carries no frame access and whose destination is
/// discarded leaves the frame untouched, whatever the count.
pub proof fn lemma_copy_values_noop(frame: Seq<u8>, dest: Dest, src: Src, n: int)
    requires
        n >= 0,
        src is Imm || src is Uninitialized,
        dest is Nowhere,
    ensures
        copy_values(frame, dest, src, n) == Some(frame),
    decreases n,
{
    if n > 0 {
        lemma_copy_values_noop(frame, dest, src, n - 1);
    }
}

/// Once an argument store has fallen outside the frame, storing more
/// arguments cannot recover.
pub proof fn lemma_write_args_none(
    frame: Seq<u8>,
    dests: Seq<Dest>,
    vals: Seq<u64>,
    n: int,
    m: int,
)
    requires
        0 <= n <= m,
        write_args(frame, dests, vals, n) is None,
    ensures
        write_args(frame, dests, vals, m) is None,
    decreases m - n,
{
    if m > n {
        lemma_write_args_none(frame, dests, vals, n, m - 1);
    }
}

/// Once an argument read has fallen outside the frame, reading more
/// arguments cannot recover.
pub proof fn lemma_read_args_none(frame: Seq<u8>, srcs: Seq<Src>, n: int, m: int)
    requires
        0 <= n <= m,
        read_args(frame, srcs, n) is None,
    ensures
        read_args(frame, srcs, m) is None,
    decreases m - n,
{
    if m > n {
        lemma_read_args_none(frame, srcs, n, m - 1);
    }
}

/// Once one load/store pair of a copy has fallen outside the frame, the
/// remaining pairs cannot recover.
pub proof fn lemma_copy_values_none(frame: Seq<u8>, dest: Dest, src: Src, n: int, m: int)
    requires
        0 <= n <= m,
        copy_values(frame, dest, src, n) is None,
    ensures
        copy_values(frame, dest, src, m) is None,
    decreases m - n,
{
    if m > n {
        lemma_copy_values_none(frame, dest, src, n, m - 1);
    }
}

/// Where a run stands after a bounded number of steps.
pub enum RunState {
    /// The step budget ran out with execution still in flight.
    Running { frame: Seq<u8>, ip: int },
    /// The procedure returned this value.
    Done { value: u64 },
    /// Execution paused at a foreign call, as in [`Step::Call`].
    Call { target: u64, values: Seq<u64>, dest: Dest, ip: int, frame: Seq<u8> },
    /// A program-validity fault was detected.
    Fail { error: ProgramError },
}

/// Runs the machine from `(frame, ip)` for at most `fuel` steps: the
/// ground-truth, literal semantics of a program between foreign calls.
pub open spec fn run_spec(
    code: Seq<Instruction>,
    args: Seq<u64>,
    frame: Seq<u8>,
    ip: int,
    fuel: nat,
) -> RunState
    recommends
        args.len() == 6,
    decreases fuel,
{
    if fuel == 0 {
        RunState::Running { frame, ip }
    } else {
        match step(code, args, frame, ip) {
            Step::Next { frame: f2, ip: ip2 } => run_spec(code, args, f2, ip2, (fuel - 1) as nat),
            Step::Done { value } => RunState::Done { value },
            Step::Call { target, values, dest, ip: ip2, frame: f2 } => RunState::Call {
                target,
                values,
                dest,
                ip: ip2,
                frame: f2,
            },
            Step::Fail { error } => RunState::Fail { error },
        }
    }
}

} // verus!

//! A tiny compiler backend for a register/stack-machine intermediate
//! representation describing a single callable procedure.
//!
//! The same program can be lowered to x86-64 machine code
//! ([`codegen::Codegen`], [`object::Object`]) or evaluated directly against a
//! simulated call frame ([`interpreter_fn::InterpreterFn`]); both are specified
//! against one shared operational semantics in [`semantics`].

use vstd::prelude::*;

pub mod codegen;
pub mod frame;
pub mod instruction;
pub mod interpreter_fn;
pub mod laws;
pub mod object;
pub mod semantics;

verus! {

/// A program-validity fault: a deterministic, input-derived error that both
/// backends report as a recoverable result instead of miscompiling or
/// aborting.
#[derive(Clone, Copy, Debug, PartialEq, Eq, Structural)]
pub enum ProgramError {
    /// A branch references a label that no instruction ever defines.
    UndefinedLabel,
    /// Two label-defining instructions share one label.
    DuplicateLabelDefinition,
    /// A bulk copy (count other than one) has differing source and
    /// destination widths.
    OperandWidthMismatch,
    /// The evaluator's instruction cursor left the bounds of the program.
    ProgramCounterEscaped,
    /// The evaluator was asked to read or write outside its simulated frame.
    FrameAccessOutOfBounds,
}

} // verus!

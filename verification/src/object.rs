//! A whole procedure as an ordered instruction sequence, and its lowering to
//! a relocatable body of machine code.

use vstd::prelude::*;

use crate::codegen::{
    all_relocs_defined, emit_one, instr_fits, patch_from, Codegen, EmitState,
};
use crate::instruction::Instruction;
use crate::ProgramError;

verus! {

/// The emission state after the first `n` instructions of a program, or the
/// first fault encountered, in program order.
pub open spec fn emit_prog(prog: Seq<Instruction>, n: int) -> Result<EmitState, ProgramError>
    decreases n,
{
    if n <= 0 {
        Ok(
            EmitState {
                code: Seq::empty(),
                relocs: Seq::empty(),
                labels: Map::empty(),
            },
        )
    } else {
        match emit_prog(prog, n - 1) {
            Err(e) => Err(e),
            Ok(st) => emit_one(st, prog[n - 1]),
        }
    }
}

/// Once emission has faulted, it stays faulted with the same error.
pub proof fn lemma_emit_prog_err(prog: Seq<Instruction>, n: int, m: int)
    requires
        0 <= n <= m,
        emit_prog(prog, n) is Err,
    ensures
        emit_prog(prog, m) == emit_prog(prog, n),
    decreases m - n,
{
    if m > n {
        lemma_emit_prog_err(prog, n, m - 1);
    }
}

/// The result of generating code for a whole program: emit every
/// instruction, then patch every pending relocation.  Note it takes no load
/// address: the body is identical at every address.
pub open spec fn generate_spec(prog: Seq<Instruction>) -> Result<Seq<u8>, ProgramError> {
    match emit_prog(prog, prog.len() as int) {
        Err(e) => Err(e),
        Ok(st) => if all_relocs_defined(st.relocs, st.labels) {
            Ok(patch_from(st.code, st.relocs, st.labels, 0))
        } else {
            Err(ProgramError::UndefinedLabel)
        },
    }
}

/// The machine limits a program must respect so its body can be emitted:
/// each instruction's [`instr_fits`], at the state it is emitted in.
pub open spec fn prog_fits(prog: Seq<Instruction>) -> bool {
    forall|n: int|
        0 <= n < prog.len() && (#[trigger] emit_prog(prog, n)) is Ok ==> instr_fits(
            prog[n],
            emit_prog(prog, n)->Ok_0,
        )
}

/// An immutable, ordered instruction sequence describing one procedure.
#[derive(Debug)]
pub struct Object {
    /// The instructions, in program order.
    pub instructions: Vec<Instruction>,
}

impl Object {
    /// Lowers the program into a self-contained, relocatable procedure body
    /// for the given load address: exactly [`generate_spec`].  Since every
    /// relocation is relative, the bytes do not depend on `base_address`.
    pub fn codegen(&self, base_address: u64) -> (r: Result<Vec<u8>, ProgramError>)
        requires
            prog_fits(self.instructions@),
        ensures
            match generate_spec(self.instructions@) {
                Ok(bytes) => r matches Ok(v) && v@ == bytes,
                Err(e) => r == Err::<Vec<u8>, ProgramError>(e),
            },
    {
        let ghost prog = self.instructions@;
        let mut codegen = Codegen::new(base_address);
        proof {
            assert(emit_prog(prog, 0) == Ok::<EmitState, ProgramError>(codegen.state()))
                by {
                assert(codegen.state() =~~= emit_prog(prog, 0)->Ok_0);
            };
        }
        let n = self.instructions.len();
        let mut i: usize = 0;
        while i < n
            invariant
                n == self.instructions@.len(),
                prog == self.instructions@,
                i <= n,
                codegen.wf(),
                prog_fits(prog),
                emit_prog(prog, i as int) == Ok::<EmitState, ProgramError>(codegen.state()),
            decreases n - i,
        {
            match codegen.write(self.instructions[i]) {
                Ok(_) => {
                    proof {
                        assert(emit_prog(prog, i + 1) == Ok::<EmitState, ProgramError>(
                            codegen.state(),
                        ));
                    }
                },
                Err(e) => {
                    proof {
                        assert(emit_prog(prog, i + 1) == Err::<EmitState, ProgramError>(e));
                        lemma_emit_prog_err(prog, i + 1, prog.len() as int);
                    }
                    return Err(e);
                },
            }
            i = i + 1;
        }
        codegen.finalize()
    }
}

} // verus!

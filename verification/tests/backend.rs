use minijit::codegen::Codegen;
use minijit::instruction::{Count, Dest, Instruction, Label, Size, Src};
use minijit::interpreter_fn::{InterpreterFn, Outcome};
use minijit::object::Object;
use minijit::ProgramError;

const NOWHERE6: [Dest; 6] = [
    Dest::Nowhere,
    Dest::Nowhere,
    Dest::Nowhere,
    Dest::Nowhere,
    Dest::Nowhere,
    Dest::Nowhere,
];

const IMM0X6: [Src; 6] = [
    Src::Imm(0),
    Src::Imm(0),
    Src::Imm(0),
    Src::Imm(0),
    Src::Imm(0),
    Src::Imm(0),
];

/// Runs a call-free program in the evaluator and returns its result.
fn evaluate(code: Vec<Instruction>, stack_size: usize, args: [u64; 6]) -> Result<u64, ProgramError> {
    let f = InterpreterFn::new(code, stack_size)?;
    let mut exec = f.start(args[0], args[1], args[2], args[3], args[4], args[5]);
    match f.run(&mut exec, 100_000)? {
        Outcome::Done(v) => Ok(v),
        Outcome::NeedsCall(_, _) => panic!("unexpected foreign call"),
        Outcome::Running => panic!("step budget exhausted"),
    }
}

#[test]
fn overlapping_stores_read_back_combined() {
    // store a 4-byte value, overwrite its top half with a 2-byte value,
    // read the 4 bytes back: little-endian overlap
    let code = vec![
        Instruction::Begin(16, NOWHERE6),
        Instruction::Copy(Dest::Here(-4, Size::D), Src::Imm(0x1234db47), Count(1)),
        Instruction::Copy(Dest::Here(-2, Size::H), Src::Imm(0x0dea), Count(1)),
        Instruction::Ret(Src::Here(-4, Size::D)),
    ];
    assert_eq!(evaluate(code, 1024, [0; 6]), Ok(0x0deadb47));
}

#[test]
fn branch_on_constant_nonzero_always_jumps() {
    let code = vec![
        Instruction::Begin(0, NOWHERE6),
        Instruction::JIf(Src::Imm(1), Label(7)),
        Instruction::Ret(Src::Imm(1)),
        Instruction::Label(Label(7)),
        Instruction::Ret(Src::Imm(2)),
    ];
    assert_eq!(evaluate(code, 64, [0; 6]), Ok(2));
}

#[test]
fn branch_on_constant_zero_falls_through() {
    let code = vec![
        Instruction::Begin(0, NOWHERE6),
        Instruction::JIf(Src::Imm(0), Label(7)),
        Instruction::Ret(Src::Imm(1)),
        Instruction::Label(Label(7)),
        Instruction::Ret(Src::Imm(2)),
    ];
    assert_eq!(evaluate(code, 64, [0; 6]), Ok(1));
}

#[test]
fn forward_reference_resolves_in_both_backends() {
    let code = vec![
        Instruction::JIf(Src::Imm(1), Label(3)),
        Instruction::Ret(Src::Imm(1)),
        Instruction::Label(Label(3)),
        Instruction::Ret(Src::Imm(2)),
    ];
    assert_eq!(evaluate(code.clone(), 64, [0; 6]), Ok(2));
    let obj = Object { instructions: code };
    assert!(obj.codegen(0).is_ok());
}

#[test]
fn duplicate_label_rejected_before_bytes() {
    let code = vec![
        Instruction::Label(Label(1)),
        Instruction::Label(Label(1)),
        Instruction::Ret(Src::Imm(0)),
    ];
    let obj = Object { instructions: code.clone() };
    assert_eq!(obj.codegen(0), Err(ProgramError::DuplicateLabelDefinition));
    assert!(matches!(
        InterpreterFn::new(code, 64),
        Err(ProgramError::DuplicateLabelDefinition)
    ));
}

#[test]
fn undefined_label_rejected() {
    let code = vec![
        Instruction::JIf(Src::Imm(1), Label(2)),
        Instruction::Ret(Src::Imm(0)),
    ];
    let obj = Object { instructions: code.clone() };
    assert_eq!(obj.codegen(0), Err(ProgramError::UndefinedLabel));
    assert!(matches!(
        InterpreterFn::new(code, 64),
        Err(ProgramError::UndefinedLabel)
    ));
}

#[test]
fn folded_branch_drops_its_label_reference() {
    // the generator drops the reference of a never-taken branch, so an
    // undefined target passes; the evaluator keeps every reference
    let code = vec![
        Instruction::JIf(Src::Imm(0), Label(9)),
        Instruction::Ret(Src::Imm(4)),
    ];
    let obj = Object { instructions: code.clone() };
    assert!(obj.codegen(0).is_ok());
    assert!(matches!(
        InterpreterFn::new(code, 64),
        Err(ProgramError::UndefinedLabel)
    ));
}

#[test]
fn foreign_call_doubling_yields_42() {
    let code = vec![
        Instruction::Begin(16, NOWHERE6),
        Instruction::FFICall(
            Dest::Here(-8, Size::Q),
            [
                Src::Imm(21),
                Src::Imm(0),
                Src::Imm(0),
                Src::Imm(0),
                Src::Imm(0),
                Src::Imm(0),
            ],
            0x1000,
        ),
        Instruction::Ret(Src::Here(-8, Size::Q)),
    ];
    let f = InterpreterFn::new(code, 1024).unwrap();
    let mut exec = f.start(0, 0, 0, 0, 0, 0);
    let (target, values) = match f.run(&mut exec, 1000).unwrap() {
        Outcome::NeedsCall(target, values) => (target, values),
        _ => panic!("expected a paused foreign call"),
    };
    assert_eq!(target, 0x1000);
    assert_eq!(values, [21, 0, 0, 0, 0, 0]);
    // the foreign function doubles its first argument
    let result = values[0] * 2;
    f.resume(&mut exec, result).unwrap();
    match f.run(&mut exec, 1000).unwrap() {
        Outcome::Done(v) => assert_eq!(v, 42),
        _ => panic!("expected completion"),
    }
}

#[test]
fn discard_destination_is_inert() {
    let with_discard = vec![
        Instruction::Begin(16, NOWHERE6),
        Instruction::Copy(Dest::Nowhere, Src::Imm(7), Count(1)),
        Instruction::Ret(Src::Imm(5)),
    ];
    let without = vec![
        Instruction::Begin(16, NOWHERE6),
        Instruction::Ret(Src::Imm(5)),
    ];
    assert_eq!(evaluate(with_discard.clone(), 64, [9; 6]), Ok(5));
    // the discarded copy emits no instruction: identical machine code
    let a = Object { instructions: with_discard }.codegen(0).unwrap();
    let b = Object { instructions: without }.codegen(0).unwrap();
    assert_eq!(a, b);
}

#[test]
fn bulk_copy_width_mismatch_rejected() {
    let code = vec![
        Instruction::Begin(32, NOWHERE6),
        Instruction::Copy(Dest::Here(-4, Size::D), Src::Here(-16, Size::Q), Count(2)),
        Instruction::Ret(Src::Imm(0)),
    ];
    let obj = Object { instructions: code.clone() };
    assert_eq!(obj.codegen(0), Err(ProgramError::OperandWidthMismatch));
    assert_eq!(evaluate(code, 64, [0; 6]), Err(ProgramError::OperandWidthMismatch));
}

#[test]
fn single_copy_converts_between_widths() {
    // a single copy truncates on store and zero-extends on load
    let code = vec![
        Instruction::Begin(16, NOWHERE6),
        Instruction::Copy(Dest::Here(-2, Size::H), Src::Imm(0xaabbccdd), Count(1)),
        Instruction::Ret(Src::Here(-2, Size::H)),
    ];
    assert_eq!(evaluate(code, 64, [0; 6]), Ok(0xccdd));
}

#[test]
fn bulk_copy_moves_consecutive_bytes() {
    let code = vec![
        Instruction::Begin(32, NOWHERE6),
        Instruction::Copy(Dest::Here(-16, Size::D), Src::Imm(0x04030201), Count(1)),
        Instruction::Copy(Dest::Here(-8, Size::B), Src::Here(-16, Size::B), Count(4)),
        Instruction::Ret(Src::Here(-8, Size::D)),
    ];
    assert_eq!(evaluate(code, 64, [0; 6]), Ok(0x04030201));
}

#[test]
fn indirect_addressing_goes_through_stored_pointer() {
    // store the frame position 56 (offset -8 in a 64-byte frame) as a
    // pointer, write through it with a field offset, read back directly
    let code = vec![
        Instruction::Begin(32, NOWHERE6),
        Instruction::Copy(Dest::Here(-16, Size::Q), Src::Imm(56), Count(1)),
        Instruction::Copy(Dest::Ptr(-16, 0, Size::D), Src::Imm(0x00dec0de), Count(1)),
        Instruction::Copy(Dest::Ptr(-16, 4, Size::D), Src::Imm(0x0abcde00), Count(1)),
        Instruction::Ret(Src::Here(-4, Size::D)),
    ];
    assert_eq!(evaluate(code, 64, [0; 6]), Ok(0x0abcde00));
    let code2 = vec![
        Instruction::Begin(32, NOWHERE6),
        Instruction::Copy(Dest::Here(-16, Size::Q), Src::Imm(56), Count(1)),
        Instruction::Copy(Dest::Here(-8, Size::D), Src::Imm(0x00dec0de), Count(1)),
        Instruction::Ret(Src::Ptr(-16, 0, Size::D)),
    ];
    assert_eq!(evaluate(code2, 64, [0; 6]), Ok(0x00dec0de));
}

#[test]
fn generation_is_identical_at_different_load_addresses() {
    let code = vec![
        Instruction::Begin(16, NOWHERE6),
        Instruction::JIf(Src::Imm(1), Label(3)),
        Instruction::Ret(Src::Imm(1)),
        Instruction::Label(Label(3)),
        Instruction::Copy(Dest::Here(-8, Size::Q), Src::Imm(0x99), Count(1)),
        Instruction::Ret(Src::Here(-8, Size::Q)),
    ];
    let obj = Object { instructions: code };
    let a = obj.codegen(0).unwrap();
    let b = obj.codegen(0x7fff_0000).unwrap();
    assert_eq!(a.len(), b.len());
    assert_eq!(a, b);
}

#[test]
fn exact_bytes_of_a_trivial_return() {
    // xor eax, eax; mov rsp, rbp; pop rbp; ret
    let obj = Object {
        instructions: vec![Instruction::Ret(Src::Imm(0))],
    };
    assert_eq!(obj.codegen(0).unwrap(), vec![0x31, 0xc0, 0x48, 0x89, 0xec, 0x5d, 0xc3]);
}

#[test]
fn exact_bytes_of_an_empty_prologue() {
    // push rbp; mov rbp, rsp — no frame reservation for zero bytes
    let obj = Object {
        instructions: vec![Instruction::Begin(0, NOWHERE6)],
    };
    assert_eq!(obj.codegen(0).unwrap(), vec![0x55, 0x48, 0x89, 0xe5]);
}

#[test]
fn exact_bytes_of_a_patched_forward_jump() {
    // jmp rel32 with the displacement patched to zero (target right after)
    let obj = Object {
        instructions: vec![
            Instruction::JIf(Src::Imm(1), Label(1)),
            Instruction::Label(Label(1)),
            Instruction::Ret(Src::Imm(0)),
        ],
    };
    assert_eq!(
        obj.codegen(0).unwrap(),
        vec![0xe9, 0x00, 0x00, 0x00, 0x00, 0x31, 0xc0, 0x48, 0x89, 0xec, 0x5d, 0xc3]
    );
}

#[test]
fn backward_jump_patched_negative() {
    // label first, then an unconditional jump back to it: rel32 of -5
    let obj = Object {
        instructions: vec![
            Instruction::Label(Label(1)),
            Instruction::JIf(Src::Imm(1), Label(1)),
        ],
    };
    assert_eq!(obj.codegen(0).unwrap(), vec![0xe9, 0xfb, 0xff, 0xff, 0xff]);
}

#[test]
fn arguments_land_in_declared_destinations() {
    let code = vec![
        Instruction::Begin(
            16,
            [
                Dest::Here(-8, Size::Q),
                Dest::Nowhere,
                Dest::Nowhere,
                Dest::Nowhere,
                Dest::Nowhere,
                Dest::Here(-16, Size::Q),
            ],
        ),
        Instruction::Ret(Src::Here(-8, Size::Q)),
    ];
    assert_eq!(evaluate(code.clone(), 64, [77, 0, 0, 0, 0, 5]), Ok(77));
    let code2 = vec![
        Instruction::Begin(
            16,
            [
                Dest::Here(-8, Size::Q),
                Dest::Nowhere,
                Dest::Nowhere,
                Dest::Nowhere,
                Dest::Nowhere,
                Dest::Here(-16, Size::Q),
            ],
        ),
        Instruction::Ret(Src::Here(-16, Size::Q)),
    ];
    assert_eq!(evaluate(code2, 64, [77, 0, 0, 0, 0, 5]), Ok(5));
}

#[test]
fn uninitialized_reads_the_sentinel() {
    let code = vec![Instruction::Ret(Src::Uninitialized)];
    assert_eq!(evaluate(code, 16, [0; 6]), Ok(0x123456789abcdef0));
}

#[test]
fn cursor_escape_reported() {
    let code = vec![Instruction::Copy(Dest::Nowhere, Src::Imm(1), Count(1))];
    assert_eq!(evaluate(code, 16, [0; 6]), Err(ProgramError::ProgramCounterEscaped));
}

#[test]
fn frame_escape_reported() {
    let code = vec![Instruction::Ret(Src::Here(-4096, Size::D))];
    assert_eq!(evaluate(code, 16, [0; 6]), Err(ProgramError::FrameAccessOutOfBounds));
}

#[test]
fn infinite_loop_stops_at_the_step_budget() {
    let code = vec![
        Instruction::Label(Label(1)),
        Instruction::JIf(Src::Imm(1), Label(1)),
    ];
    let f = InterpreterFn::new(code, 16).unwrap();
    let mut exec = f.start(0, 0, 0, 0, 0, 0);
    assert!(matches!(f.run(&mut exec, 10), Ok(Outcome::Running)));
    // and it can pick up where it stopped
    assert!(matches!(f.run(&mut exec, 10), Ok(Outcome::Running)));
}

#[test]
fn codegen_streams_instructions_one_at_a_time() {
    let mut cg = Codegen::new(0);
    assert!(cg.write(Instruction::Label(Label(5))).is_ok());
    assert_eq!(
        cg.write(Instruction::Label(Label(5))),
        Err(ProgramError::DuplicateLabelDefinition)
    );
    assert!(cg.write(Instruction::Ret(Src::Imm(0))).is_ok());
    let bytes = cg.finalize().unwrap();
    assert_eq!(bytes, vec![0x31, 0xc0, 0x48, 0x89, 0xec, 0x5d, 0xc3]);
}

#[test]
fn foreign_call_discarding_its_result() {
    let code = vec![
        Instruction::Begin(16, NOWHERE6),
        Instruction::FFICall(Dest::Nowhere, IMM0X6, 0x2000),
        Instruction::Ret(Src::Imm(11)),
    ];
    let f = InterpreterFn::new(code, 64).unwrap();
    let mut exec = f.start(0, 0, 0, 0, 0, 0);
    assert!(matches!(f.run(&mut exec, 100), Ok(Outcome::NeedsCall(0x2000, _))));
    f.resume(&mut exec, 999).unwrap();
    match f.run(&mut exec, 100).unwrap() {
        Outcome::Done(v) => assert_eq!(v, 11),
        _ => panic!("expected completion"),
    }
}

#[test]
fn branch_on_runtime_condition_follows_the_value() {
    let code = vec![
        Instruction::Begin(
            16,
            [
                Dest::Here(-8, Size::Q),
                Dest::Nowhere,
                Dest::Nowhere,
                Dest::Nowhere,
                Dest::Nowhere,
                Dest::Nowhere,
            ],
        ),
        Instruction::JIf(Src::Here(-8, Size::Q), Label(1)),
        Instruction::Ret(Src::Imm(1)),
        Instruction::Label(Label(1)),
        Instruction::Ret(Src::Imm(2)),
    ];
    assert_eq!(evaluate(code.clone(), 64, [0, 0, 0, 0, 0, 0]), Ok(1));
    assert_eq!(evaluate(code, 64, [5, 0, 0, 0, 0, 0]), Ok(2));
}

#[test]
fn exact_bytes_of_a_runtime_branch() {
    // mov rax, rbp; mov rax, [rax - 8]; test rax, rax; jnz rel32 (patched
    // to zero: the target is right after); xor eax, eax; epilogue
    let obj = Object {
        instructions: vec![
            Instruction::JIf(Src::Here(-8, Size::Q), Label(1)),
            Instruction::Label(Label(1)),
            Instruction::Ret(Src::Imm(0)),
        ],
    };
    assert_eq!(
        obj.codegen(0).unwrap(),
        vec![
            0x48, 0x89, 0xe8, 0x48, 0x8b, 0x80, 0xf8, 0xff, 0xff, 0xff, 0x48, 0x85, 0xc0, 0x0f,
            0x85, 0x00, 0x00, 0x00, 0x00, 0x31, 0xc0, 0x48, 0x89, 0xec, 0x5d, 0xc3,
        ]
    );
}

#[test]
fn exact_bytes_of_a_foreign_call() {
    // prologue with a 16-byte frame; load 21, park and fill rdi; load the
    // raw address; call rax; store the result to the frame; restore rdi;
    // load the result back and return it.  Slots needing no load get no
    // marshaling and no cleanup.
    let obj = Object {
        instructions: vec![
            Instruction::Begin(16, NOWHERE6),
            Instruction::FFICall(
                Dest::Here(-8, Size::Q),
                [
                    Src::Imm(21),
                    Src::Uninitialized,
                    Src::Uninitialized,
                    Src::Uninitialized,
                    Src::Uninitialized,
                    Src::Uninitialized,
                ],
                0x1000,
            ),
            Instruction::Ret(Src::Here(-8, Size::Q)),
        ],
    };
    assert_eq!(
        obj.codegen(0).unwrap(),
        vec![
            // push rbp; mov rbp, rsp; sub rsp, 16
            0x55, 0x48, 0x89, 0xe5, 0x48, 0x81, 0xec, 0x10, 0x00, 0x00, 0x00,
            // mov rax, 21; push rdi; mov rdi, rax
            0x48, 0xb8, 0x15, 0x00, 0x00, 0x00, 0x00, 0x00, 0x00, 0x00, 0x57, 0x48, 0x89, 0xc7,
            // mov rax, 0x1000; call rax
            0x48, 0xb8, 0x00, 0x10, 0x00, 0x00, 0x00, 0x00, 0x00, 0x00, 0xff, 0xd0,
            // mov rcx, rbp; mov [rcx - 8], rax
            0x48, 0x89, 0xe9, 0x48, 0x89, 0x81, 0xf8, 0xff, 0xff, 0xff,
            // pop rdi
            0x5f,
            // mov rax, rbp; mov rax, [rax - 8]; epilogue
            0x48, 0x89, 0xe8, 0x48, 0x8b, 0x80, 0xf8, 0xff, 0xff, 0xff, 0x48, 0x89, 0xec, 0x5d,
            0xc3,
        ]
    );
}

#[test]
fn offset_transform_shifts_only_the_far_offset() {
    // the direct frame offset shifts; the pointer-fetch offset of an
    // indirect operand stays put
    assert!(matches!(
        Src::Here(-8, Size::D).offset(4),
        Src::Here(-4, Size::D)
    ));
    assert!(matches!(
        Src::Ptr(-16, 8, Size::B).offset(4),
        Src::Ptr(-16, 12, Size::B)
    ));
    assert!(matches!(Src::Imm(7).offset(100), Src::Imm(7)));
    assert!(matches!(
        Dest::Here(-8, Size::H).offset(2),
        Dest::Here(-6, Size::H)
    ));
    assert!(matches!(
        Dest::Ptr(-16, 0, Size::Q).offset(8),
        Dest::Ptr(-16, 8, Size::Q)
    ));
}

#[test]
fn fuel_exhaustion_resumes_transparently() {
    let code = vec![
        Instruction::Begin(16, NOWHERE6),
        Instruction::Copy(Dest::Here(-4, Size::D), Src::Imm(0x1234db47), Count(1)),
        Instruction::Copy(Dest::Here(-2, Size::H), Src::Imm(0x0dea), Count(1)),
        Instruction::Ret(Src::Here(-4, Size::D)),
    ];
    let f = InterpreterFn::new(code, 256).unwrap();
    let mut exec = f.start(0, 0, 0, 0, 0, 0);
    // one instruction step at a time
    loop {
        match f.run(&mut exec, 1).unwrap() {
            Outcome::Running => continue,
            Outcome::Done(v) => {
                assert_eq!(v, 0x0deadb47);
                break;
            }
            Outcome::NeedsCall(_, _) => panic!("unexpected foreign call"),
        }
    }
}

#[test]
fn bulk_copy_advances_by_whole_elements() {
    // two H-wide pairs: the second pair must step a full element (2 bytes),
    // reading 0x0403 from -14 into -6, not re-read overlapping bytes
    let code = vec![
        Instruction::Begin(32, NOWHERE6),
        Instruction::Copy(Dest::Here(-16, Size::D), Src::Imm(0x04030201), Count(1)),
        Instruction::Copy(Dest::Here(-8, Size::H), Src::Here(-16, Size::H), Count(2)),
        Instruction::Ret(Src::Here(-8, Size::D)),
    ];
    assert_eq!(evaluate(code, 64, [0; 6]), Ok(0x04030201));
}

#[test]
fn exact_bytes_of_a_pointer_store() {
    // mov rax, 1; then the store through the pointer must preserve the
    // accumulator: mov rcx, rbp; mov rcx, [rcx - 16]; mov [rcx + 4], eax
    let obj = Object {
        instructions: vec![Instruction::Copy(
            Dest::Ptr(-16, 4, Size::D),
            Src::Imm(1),
            Count(1),
        )],
    };
    assert_eq!(
        obj.codegen(0).unwrap(),
        vec![
            0x48, 0xb8, 0x01, 0x00, 0x00, 0x00, 0x00, 0x00, 0x00, 0x00, 0x48, 0x89, 0xe9, 0x48,
            0x8b, 0x89, 0xf0, 0xff, 0xff, 0xff, 0x89, 0x81, 0x04, 0x00, 0x00, 0x00,
        ]
    );
}

#[test]
fn exact_bytes_of_a_bulk_copy_stride() {
    // two H-wide pairs: displacements advance by one element (2 bytes):
    // pair 0 loads at -16 and stores at -8, pair 1 at -14 and -6
    let obj = Object {
        instructions: vec![Instruction::Copy(
            Dest::Here(-8, Size::H),
            Src::Here(-16, Size::H),
            Count(2),
        )],
    };
    assert_eq!(
        obj.codegen(0).unwrap(),
        vec![
            // mov rax, rbp; movzx eax, WORD [rax - 16]
            0x48, 0x89, 0xe8, 0x0f, 0xb7, 0x80, 0xf0, 0xff, 0xff, 0xff,
            // mov rcx, rbp; mov WORD [rcx - 8], ax
            0x48, 0x89, 0xe9, 0x66, 0x89, 0x81, 0xf8, 0xff, 0xff, 0xff,
            // mov rax, rbp; movzx eax, WORD [rax - 14]
            0x48, 0x89, 0xe8, 0x0f, 0xb7, 0x80, 0xf2, 0xff, 0xff, 0xff,
            // mov rcx, rbp; mov WORD [rcx - 6], ax
            0x48, 0x89, 0xe9, 0x66, 0x89, 0x81, 0xfa, 0xff, 0xff, 0xff,
        ]
    );
}

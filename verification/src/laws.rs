//! The properties the two backends are held to, stated and proved over the
//! shared semantics and the encoding model.

use vstd::prelude::*;

use crate::codegen::{
    emit_one, enc_begin_stores, enc_copy, enc_instruction, enc_store_rax, EmitState,
};
use crate::frame::{load_at, store_at};
use crate::instruction::{spec_same_size, Count, Dest, Instruction, Label, Size, Src};
use crate::codegen::all_relocs_defined;
use crate::object::{emit_prog, generate_spec};
use crate::semantics::{
    can_read_src, can_write_dest, defines_label, label_defined, label_index, labels_unique,
    read_src, step, write_dest, Step,
};
use crate::ProgramError;

verus! {

/// A branch on a constant condition decides the same way in every frame, so
/// the generator's folding — no code for a never-taken branch, an
/// unconditional jump for an always-taken one — can never be observed.  The
/// evaluator, which takes branches literally, falls through on zero and
/// jumps to the label's program position otherwise.
pub proof fn lemma_constant_branch_is_static(
    code: Seq<Instruction>,
    args: Seq<u64>,
    frame: Seq<u8>,
    ip: int,
    x: u64,
    l: Label,
)
    requires
        0 <= ip < code.len(),
        code[ip] == Instruction::JIf(Src::Imm(x), l),
    ensures
        x == 0 ==> step(code, args, frame, ip) == (Step::Next { frame, ip: ip + 1 }),
        x != 0 && label_defined(code, l) ==> step(code, args, frame, ip) == (Step::Next {
            frame,
            ip: label_index(code, l),
        }),
        x != 0 && !label_defined(code, l) ==> step(code, args, frame, ip) == (Step::Fail {
            error: ProgramError::UndefinedLabel,
        }),
{
}

/// A branch whose condition is the constant zero emits no code and records
/// no relocation: the generator drops it entirely.
pub proof fn lemma_folded_branch_emits_nothing(st: EmitState, l: Label)
    ensures
        enc_instruction(Instruction::JIf(Src::Imm(0), l)) == Seq::<u8>::empty(),
        emit_one(st, Instruction::JIf(Src::Imm(0), l)) == Ok::<EmitState, ProgramError>(st),
{
}

/// A destination set to `Nowhere` is inert: writing it never changes a byte
/// of the frame, and the generator emits no instruction for it — not for a
/// copy, not for an argument slot of the prologue.
pub proof fn lemma_discard_inert(frame: Seq<u8>, disp: int, v: u64, dests: Seq<Dest>, n: int)
    requires
        0 < n <= dests.len(),
        dests[n - 1] is Nowhere,
    ensures
        can_write_dest(frame, Dest::Nowhere, disp),
        write_dest(frame, Dest::Nowhere, disp, v) == frame,
        enc_store_rax(Dest::Nowhere) == Seq::<u8>::empty(),
        forall|src: Src, c: u64| enc_copy(Dest::Nowhere, src, c) == Seq::<u8>::empty(),
        enc_begin_stores(dests, n) == enc_begin_stores(dests, n - 1),
{
    assert forall|src: Src, c: u64| enc_copy(Dest::Nowhere, src, c) == Seq::<u8>::empty() by {
        assert(!Dest::Nowhere.spec_needs_store());
    };
    assert(enc_begin_stores(dests, n) =~= enc_begin_stores(dests, n - 1));
}

/// Indirect addressing reads and writes at the address stored at the frame
/// offset `p`, plus the field offset `f` (plus any bulk-copy shift), with
/// width `w` — independent of direct (`Here`) addressing.
pub proof fn lemma_indirect_addressing(
    frame: Seq<u8>,
    p: i32,
    f: i32,
    w: Size,
    disp: int,
    v: u64,
)
    ensures
        can_read_src(frame, Src::Ptr(p, f, w), disp) ==> read_src(frame, Src::Ptr(p, f, w), disp)
            == load_at(frame, load_at(frame, frame.len() + p, Size::Q) + f + disp, w),
        can_write_dest(frame, Dest::Ptr(p, f, w), disp) ==> write_dest(
            frame,
            Dest::Ptr(p, f, w),
            disp,
            v,
        ) == store_at(frame, load_at(frame, frame.len() + p, Size::Q) + f + disp, w, v),
{
}

/// A bulk copy (count other than one) is rejected during emission exactly
/// when the operand widths differ; a single-value copy accepts differing
/// widths, performing the zero-extend/truncate conversion instead.  The
/// evaluator rejects by the same rule.
pub proof fn lemma_bulk_copy_width_rule(
    st: EmitState,
    code: Seq<Instruction>,
    args: Seq<u64>,
    frame: Seq<u8>,
    ip: int,
    dest: Dest,
    src: Src,
    count: u64,
)
    requires
        0 <= ip < code.len(),
        code[ip] == Instruction::Copy(dest, src, Count(count)),
    ensures
        emit_one(st, Instruction::Copy(dest, src, Count(count))) is Err <==> count != 1
            && !spec_same_size(dest, src),
        emit_one(st, Instruction::Copy(dest, src, Count(count))) is Err ==> emit_one(
            st,
            Instruction::Copy(dest, src, Count(count)),
        ) == Err::<EmitState, ProgramError>(ProgramError::OperandWidthMismatch),
        count != 1 && !spec_same_size(dest, src) ==> step(code, args, frame, ip) == (Step::Fail {
            error: ProgramError::OperandWidthMismatch,
        }),
{
}

/// Generating code for one program is independent of the requested load
/// address: the pipeline's result is a function of the instructions alone,
/// so the bytes — and in particular their length — are identical at any two
/// addresses.
pub proof fn lemma_generation_address_independent(prog: Seq<Instruction>, r1: Seq<u8>, r2: Seq<u8>)
    requires
        generate_spec(prog) == Ok::<Seq<u8>, ProgramError>(r1),
        generate_spec(prog) == Ok::<Seq<u8>, ProgramError>(r2),
    ensures
        r1 == r2,
        r1.len() == r2.len(),
{
}

/// A taken branch lands on the defining instruction of its label: with
/// unique labels, the resolved program position is the one `Mark` that
/// defines the label, wherever it stands relative to the branch.
pub proof fn lemma_taken_branch_lands_on_the_mark(code: Seq<Instruction>, l: Label)
    requires
        labels_unique(code),
        label_defined(code, l),
    ensures
        defines_label(code, l, label_index(code, l)),
        forall|i: int| defines_label(code, l, i) ==> i == label_index(code, l),
{
    let i0 = choose|i: int| defines_label(code, l, i);
    assert(defines_label(code, l, i0));
}

/// Whether every copy in the program respects the repeat-count width rule.
pub open spec fn copies_well_formed(prog: Seq<Instruction>) -> bool {
    forall|i: int|
        0 <= i < prog.len() ==> ((#[trigger] prog[i]) matches Instruction::Copy(d, s, c) ==> c.0
            == 1 || spec_same_size(d, s))
}

/// A label reference that survives emission: a branch whose condition is not
/// the constant zero (a never-taken branch drops its reference).
pub open spec fn live_references_label(code: Seq<Instruction>, l: Label, i: int) -> bool {
    &&& 0 <= i < code.len()
    &&& code[i] is JIf
    &&& code[i]->JIf_1 == l
    &&& !(code[i]->JIf_0 == Src::Imm(0))
}

/// Whether every label referenced by a surviving branch is defined.
pub open spec fn live_refs_defined(code: Seq<Instruction>) -> bool {
    forall|l: Label, i: int| live_references_label(code, l, i) ==> label_defined(code, l)
}

/// Label uniqueness among the first `n` instructions.
pub open spec fn prefix_labels_unique(prog: Seq<Instruction>, n: int) -> bool {
    forall|l: Label, i: int, j: int|
        0 <= i < n && 0 <= j < n && defines_label(prog, l, i) && defines_label(prog, l, j) ==> i
            == j
}

/// The copy width rule among the first `n` instructions.
pub open spec fn prefix_copies_wf(prog: Seq<Instruction>, n: int) -> bool {
    forall|i: int|
        0 <= i < n ==> ((#[trigger] prog[i]) matches Instruction::Copy(d, s, c) ==> c.0 == 1
            || spec_same_size(d, s))
}

/// The label table's domain is exactly the labels the first `n` instructions
/// define.
pub open spec fn table_matches_prefix(prog: Seq<Instruction>, n: int, labels: Map<Label, int>) -> bool {
    forall|l: Label|
        #[trigger] labels.dom().contains(l) <==> exists|i: int|
            0 <= i < n && defines_label(prog, l, i)
}

/// The set of labels the pending relocations point at.
pub open spec fn reloc_label_set(relocs: Seq<crate::codegen::LabelReference>) -> Set<Label>
    decreases relocs.len(),
{
    if relocs.len() == 0 {
        Set::empty()
    } else {
        reloc_label_set(relocs.drop_last()).insert(relocs.last().label)
    }
}

/// The set of labels that surviving branches among the first `n`
/// instructions reference.
pub open spec fn live_ref_set(prog: Seq<Instruction>, n: int) -> Set<Label>
    decreases n,
{
    if n <= 0 {
        Set::empty()
    } else if prog[n - 1] is JIf && !(prog[n - 1]->JIf_0 == Src::Imm(0)) {
        live_ref_set(prog, n - 1).insert(prog[n - 1]->JIf_1)
    } else {
        live_ref_set(prog, n - 1)
    }
}

/// Each recorded relocation's label is in the set.
proof fn lemma_reloc_set_contains(relocs: Seq<crate::codegen::LabelReference>, k: int)
    requires
        0 <= k < relocs.len(),
    ensures
        reloc_label_set(relocs).contains(relocs[k].label),
    decreases relocs.len(),
{
    if k == relocs.len() - 1 {
        assert(relocs.last() == relocs[k]);
    } else {
        lemma_reloc_set_contains(relocs.drop_last(), k);
        assert(relocs.drop_last()[k] == relocs[k]);
    }
}

/// A label in the set is some recorded relocation's label.
proof fn lemma_reloc_set_member(relocs: Seq<crate::codegen::LabelReference>, l: Label)
    requires
        reloc_label_set(relocs).contains(l),
    ensures
        exists|k: int| #![trigger relocs[k]] 0 <= k < relocs.len() && relocs[k].label == l,
    decreases relocs.len(),
{
    if relocs.last().label == l {
        assert(relocs[relocs.len() - 1].label == l);
    } else {
        lemma_reloc_set_member(relocs.drop_last(), l);
        let k = choose|k: int|
            #![trigger relocs.drop_last()[k]]
            0 <= k < relocs.drop_last().len() && relocs.drop_last()[k].label == l;
        assert(relocs.drop_last()[k] == relocs[k]);
        assert(relocs[k].label == l);
    }
}

/// Every relocation's label is defined exactly when the set of relocation
/// labels lies inside the label table's domain.
pub proof fn lemma_all_relocs_defined_iff(
    relocs: Seq<crate::codegen::LabelReference>,
    labels: Map<Label, int>,
)
    ensures
        all_relocs_defined(relocs, labels) <==> reloc_label_set(relocs).subset_of(labels.dom()),
{
    if all_relocs_defined(relocs, labels) {
        assert forall|l: Label| reloc_label_set(relocs).contains(l) implies labels.dom().contains(
            l,
        ) by {
            lemma_reloc_set_member(relocs, l);
            let k = choose|k: int|
                #![trigger relocs[k]]
                0 <= k < relocs.len() && relocs[k].label == l;
            assert(labels.dom().contains(relocs[k].label));
        };
    }
    if reloc_label_set(relocs).subset_of(labels.dom()) {
        assert forall|k: int| #![trigger relocs[k]] 0 <= k < relocs.len() implies labels.dom()
            .contains(relocs[k].label) by {
            lemma_reloc_set_contains(relocs, k);
            assert(reloc_label_set(relocs).contains(relocs[k].label));
        };
    }
}

/// A label is in the live-reference set exactly when some surviving branch
/// among the first `n` instructions references it.
pub proof fn lemma_live_ref_set_member(prog: Seq<Instruction>, n: int, l: Label)
    requires
        0 <= n <= prog.len(),
    ensures
        live_ref_set(prog, n).contains(l) <==> exists|i: int|
            0 <= i < n && live_references_label(prog, l, i),
    decreases n,
{
    if n > 0 {
        lemma_live_ref_set_member(prog, n - 1, l);
        if live_ref_set(prog, n).contains(l) {
            if prog[n - 1] is JIf && !(prog[n - 1]->JIf_0 == Src::Imm(0)) && prog[n - 1]->JIf_1
                == l {
                assert(live_references_label(prog, l, n - 1));
                assert(0 <= n - 1 < n && live_references_label(prog, l, n - 1));
            } else {
                assert(live_ref_set(prog, n - 1).contains(l));
                let i0 = choose|i: int| 0 <= i < n - 1 && live_references_label(prog, l, i);
                assert(0 <= i0 < n && live_references_label(prog, l, i0));
            }
        }
        if exists|i: int| 0 <= i < n && live_references_label(prog, l, i) {
            let i0 = choose|i: int| 0 <= i < n && live_references_label(prog, l, i);
            if i0 == n - 1 {
                assert(live_ref_set(prog, n).contains(l));
            } else {
                assert(0 <= i0 < n - 1 && live_references_label(prog, l, i0));
                assert(live_ref_set(prog, n - 1).contains(l));
            }
        }
    }
}

/// What emission of a prefix establishes: it succeeds exactly when the
/// prefix has unique labels and well-formed copies, the label table's domain
/// is exactly the labels the prefix defines, and the pending relocations are
/// exactly the labels its surviving branches reference.
pub proof fn lemma_emit_prog_characterized(prog: Seq<Instruction>, n: int)
    requires
        0 <= n <= prog.len(),
    ensures
        emit_prog(prog, n) is Ok <==> prefix_labels_unique(prog, n) && prefix_copies_wf(prog, n),
        emit_prog(prog, n) matches Ok(st) ==> table_matches_prefix(prog, n, st.labels),
        emit_prog(prog, n) matches Ok(st) ==> reloc_label_set(st.relocs) == live_ref_set(prog, n),
    decreases n,
{
    if n == 0 {
        assert(emit_prog(prog, 0) is Ok);
        let st = emit_prog(prog, 0)->Ok_0;
        assert forall|l: Label| #[trigger]
            st.labels.dom().contains(l) <==> exists|i: int|
                0 <= i < 0 && defines_label(prog, l, i) by {
            assert(!st.labels.dom().contains(l));
        };
    } else {
        lemma_emit_prog_characterized(prog, n - 1);
        if emit_prog(prog, n - 1) is Err {
            assert(!(prefix_labels_unique(prog, n - 1) && prefix_copies_wf(prog, n - 1)));
            assert(prefix_labels_unique(prog, n) ==> prefix_labels_unique(prog, n - 1));
            assert(prefix_copies_wf(prog, n) ==> prefix_copies_wf(prog, n - 1));
        } else {
            let st = emit_prog(prog, n - 1)->Ok_0;
            assert(table_matches_prefix(prog, n - 1, st.labels));
            match prog[n - 1] {
                Instruction::Label(l) => {
                    if st.labels.dom().contains(l) {
                        let i0 = choose|i: int| 0 <= i < n - 1 && defines_label(prog, l, i);
                        assert(defines_label(prog, l, i0));
                        assert(defines_label(prog, l, n - 1));
                        assert(!prefix_labels_unique(prog, n));
                    } else {
                        let st2 = emit_one(st, prog[n - 1])->Ok_0;
                        assert(st2.relocs == st.relocs);
                        assert(prefix_labels_unique(prog, n)) by {
                            assert forall|l2: Label, i: int, j: int|
                                0 <= i < n && 0 <= j < n && defines_label(prog, l2, i)
                                    && defines_label(prog, l2, j) implies i == j by {
                                if i == n - 1 && j < n - 1 {
                                    assert(l2 == l);
                                    assert(st.labels.dom().contains(l));
                                } else if j == n - 1 && i < n - 1 {
                                    assert(l2 == l);
                                    assert(st.labels.dom().contains(l));
                                }
                            };
                        };
                        assert(table_matches_prefix(prog, n, st2.labels)) by {
                            assert forall|l2: Label| #[trigger]
                                st2.labels.dom().contains(l2) <==> exists|i: int|
                                    0 <= i < n && defines_label(prog, l2, i) by {
                                if st2.labels.dom().contains(l2) {
                                    if l2 == l {
                                        assert(defines_label(prog, l, n - 1));
                                    } else {
                                        assert(st.labels.dom().contains(l2));
                                        let i0 = choose|i: int|
                                            0 <= i < n - 1 && defines_label(prog, l2, i);
                                        assert(0 <= i0 < n && defines_label(prog, l2, i0));
                                    }
                                }
                                if exists|i: int| 0 <= i < n && defines_label(prog, l2, i) {
                                    let i0 = choose|i: int|
                                        0 <= i < n && defines_label(prog, l2, i);
                                    if i0 == n - 1 {
                                        assert(l2 == l);
                                        assert(st2.labels.dom().contains(l2));
                                    } else {
                                        assert(0 <= i0 < n - 1 && defines_label(prog, l2, i0));
                                        assert(st.labels.dom().contains(l2));
                                    }
                                }
                            };
                        };
                        assert(live_ref_set(prog, n) == live_ref_set(prog, n - 1));
                    }
                },
                Instruction::Copy(d, s, c) => {
                    if c.0 != 1 && !spec_same_size(d, s) {
                        assert(prog[n - 1] matches Instruction::Copy(d2, s2, c2) && c2.0 != 1
                            && !spec_same_size(d2, s2));
                        assert(!prefix_copies_wf(prog, n));
                    } else {
                        let st2 = emit_one(st, prog[n - 1])->Ok_0;
                        assert(st2.labels == st.labels);
                        assert(st2.relocs == st.relocs);
                        assert(prefix_copies_wf(prog, n)) by {
                            assert forall|i: int|
                                0 <= i < n implies ((#[trigger] prog[i])
                                matches Instruction::Copy(d2, s2, c2) ==> c2.0 == 1
                                || spec_same_size(d2, s2)) by {
                                if i == n - 1 {
                                    assert(prog[i] == Instruction::Copy(d, s, c));
                                }
                            };
                        };
                        lemma_prefix_unique_step_no_label(prog, n);
                        lemma_table_step_no_label(prog, n, st.labels);
                        assert(live_ref_set(prog, n) == live_ref_set(prog, n - 1));
                    }
                },
                Instruction::JIf(src, l) => {
                    let st2 = emit_one(st, prog[n - 1])->Ok_0;
                    assert(st2.labels == st.labels);
                    lemma_prefix_unique_step_no_label(prog, n);
                    assert(prefix_copies_wf(prog, n));
                    lemma_table_step_no_label(prog, n, st.labels);
                    if src == Src::Imm(0) {
                        assert(st2.relocs == st.relocs);
                        assert(prog[n - 1]->JIf_0 == Src::Imm(0));
                        assert(live_ref_set(prog, n) == live_ref_set(prog, n - 1));
                    } else {
                        assert(st2.relocs.len() == st.relocs.len() + 1);
                        assert(st2.relocs.last().label == l);
                        assert(st2.relocs.drop_last() =~= st.relocs);
                        assert(reloc_label_set(st2.relocs) == reloc_label_set(st.relocs).insert(
                            l,
                        ));
                        assert(prog[n - 1] is JIf && !(prog[n - 1]->JIf_0 == Src::Imm(0)));
                        assert(prog[n - 1]->JIf_1 == l);
                        assert(live_ref_set(prog, n) == live_ref_set(prog, n - 1).insert(l));
                    }
                },
                _ => {
                    let st2 = emit_one(st, prog[n - 1])->Ok_0;
                    assert(st2.labels == st.labels);
                    assert(st2.relocs == st.relocs);
                    lemma_prefix_unique_step_no_label(prog, n);
                    assert(prefix_copies_wf(prog, n));
                    lemma_table_step_no_label(prog, n, st.labels);
                    assert(live_ref_set(prog, n) == live_ref_set(prog, n - 1));
                },
            }
        }
    }
}

/// When the `n`-th instruction defines no label, prefix uniqueness carries
/// from `n - 1` to `n`.
proof fn lemma_prefix_unique_step_no_label(prog: Seq<Instruction>, n: int)
    requires
        0 < n <= prog.len(),
        prefix_labels_unique(prog, n - 1),
        !(prog[n - 1] matches Instruction::Label(lx)),
    ensures
        prefix_labels_unique(prog, n),
{
    assert forall|l2: Label, i: int, j: int|
        0 <= i < n && 0 <= j < n && defines_label(prog, l2, i) && defines_label(
            prog,
            l2,
            j,
        ) implies i == j by {
        if i == n - 1 || j == n - 1 {
            assert(!(prog[n - 1] matches Instruction::Label(lx)));
        }
    };
}

/// When the `n`-th instruction defines no label, the table facts carry from
/// `n - 1` to `n`.
proof fn lemma_table_step_no_label(prog: Seq<Instruction>, n: int, labels: Map<Label, int>)
    requires
        0 < n <= prog.len(),
        table_matches_prefix(prog, n - 1, labels),
        !(prog[n - 1] matches Instruction::Label(lx)),
    ensures
        table_matches_prefix(prog, n, labels),
{
    assert forall|l: Label| #[trigger]
        labels.dom().contains(l) <==> exists|i: int| 0 <= i < n && defines_label(prog, l, i) by {
        if labels.dom().contains(l) {
            let i0 = choose|i: int| 0 <= i < n - 1 && defines_label(prog, l, i);
            assert(0 <= i0 < n && defines_label(prog, l, i0));
        }
        if exists|i: int| 0 <= i < n && defines_label(prog, l, i) {
            let i0 = choose|i: int| 0 <= i < n && defines_label(prog, l, i);
            assert(i0 != n - 1);
            assert(0 <= i0 < n - 1 && defines_label(prog, l, i0));
        }
    };
}

/// Label resolution: code generation succeeds exactly when no label is
/// defined twice, every copy respects the width rule, and every label that a
/// surviving branch references is defined — wherever its definition stands,
/// before or after the reference, so forward references resolve.  (The
/// reference of a branch on the constant zero is dropped with the branch;
/// the evaluator, which keeps every reference, checks those too.)
pub proof fn lemma_generation_succeeds_iff(prog: Seq<Instruction>)
    ensures
        generate_spec(prog) is Ok <==> labels_unique(prog) && copies_well_formed(prog)
            && live_refs_defined(prog),
{
    let n = prog.len() as int;
    lemma_emit_prog_characterized(prog, n);
    assert(prefix_labels_unique(prog, n) <==> labels_unique(prog));
    assert(prefix_copies_wf(prog, n) <==> copies_well_formed(prog));
    if emit_prog(prog, n) is Ok {
        let st = emit_prog(prog, n)->Ok_0;
        lemma_all_relocs_defined_iff(st.relocs, st.labels);
        assert(reloc_label_set(st.relocs) == live_ref_set(prog, n));
        if all_relocs_defined(st.relocs, st.labels) {
            assert forall|l: Label, i: int|
                live_references_label(prog, l, i) implies label_defined(prog, l) by {
                lemma_live_ref_set_member(prog, n, l);
                assert(0 <= i < n && live_references_label(prog, l, i));
                assert(live_ref_set(prog, n).contains(l));
                assert(reloc_label_set(st.relocs).contains(l));
                assert(st.labels.dom().contains(l));
                let i0 = choose|i2: int| 0 <= i2 < n && defines_label(prog, l, i2);
                assert(defines_label(prog, l, i0));
            };
            assert(live_refs_defined(prog));
        }
        if live_refs_defined(prog) {
            assert forall|l: Label|
                reloc_label_set(st.relocs).contains(l) implies st.labels.dom().contains(l) by {
                assert(live_ref_set(prog, n).contains(l));
                lemma_live_ref_set_member(prog, n, l);
                let i0 = choose|i: int| 0 <= i < n && live_references_label(prog, l, i);
                assert(live_references_label(prog, l, i0));
                assert(label_defined(prog, l));
                let i1 = choose|i: int| defines_label(prog, l, i);
                assert(0 <= i1 < n && defines_label(prog, l, i1));
            };
            assert(reloc_label_set(st.relocs).subset_of(st.labels.dom()));
            assert(all_relocs_defined(st.relocs, st.labels));
        }
    }
}

} // verus!

//! Laws of validated modules: what every instruction of one can be relied on for.

use vstd::prelude::*;
use crate::atom::Atom;
use crate::module::ResolvedImport;
use super::decode::compact::OperandView;
use super::decode::instruction::{encodes, BifOp, Instruction, InstructionView};
use super::validate::{
    entered_arity, instruction_flaw, law_defined_labels_have_places,
    law_validation_names_the_first, operand_flaw, operands_flaw, operands_of, places, validation,
    CodeView,
};

verus! {

/// Whether some instruction defines a label.
pub open spec fn defines(code: CodeView, label: u32) -> bool {
    exists|i: int|
        0 <= i < code.instructions.len() && #[trigger] code.instructions[i]
            == (InstructionView::Label { label })
}

/// Whether an operand holds only what there is: one of 1024 X registers, one of 16 float
/// registers, a label that is defined or zero for none, an atom of the module; a list holds
/// only such operands.
pub open spec fn is_sound(code: CodeView, operand: OperandView) -> bool
    decreases operand,
{
    match operand {
        OperandView::X(index) => index < 1024,
        OperandView::FloatRegister(index) => index < 16,
        OperandView::Label(label) => label == 0 || defines(code, label),
        OperandView::Atom(Some(atom)) => code.atoms.contains(atom),
        OperandView::List(items) => forall|i: int|
            0 <= i < items.len() ==> is_sound(code, #[trigger] items[i]),
        OperandView::TypedRegister { register, .. } => is_sound(code, *register),
        _ => true,
    }
}

proof fn lemma_sound(code: CodeView, operand: OperandView)
    ensures
        operand_flaw(code, operand) is None <==> is_sound(code, operand),
    decreases operand, 0nat,
{
    match operand {
        OperandView::Label(label) => {
            law_defined_labels_have_places(code, label);
        },
        OperandView::List(items) => {
            lemma_all_sound(code, items, items.len());
        },
        OperandView::TypedRegister { register, .. } => {
            lemma_sound(code, *register);
        },
        _ => {},
    }
}

proof fn lemma_all_sound(code: CodeView, operands: Seq<OperandView>, n: nat)
    requires
        n <= operands.len(),
    ensures
        operands_flaw(code, operands, n) is None <==> forall|i: int|
            0 <= i < n ==> is_sound(code, #[trigger] operands[i]),
    decreases operands, n,
{
    if n > 0 {
        lemma_all_sound(code, operands, (n - 1) as nat);
        assert(decreases_to!(operands => operands[n - 1]));
        lemma_sound(code, operands[n - 1]);
        if operands_flaw(code, operands, n) is None {
            assert forall|i: int| 0 <= i < n implies is_sound(code, #[trigger] operands[i]) by {
                if i == n - 1 {
                    assert(is_sound(code, operands[n - 1]));
                }
            }
        }
        if forall|i: int| 0 <= i < n ==> is_sound(code, #[trigger] operands[i]) {
            assert(is_sound(code, operands[n - 1]));
        }
    }
}

/// The operands of an instruction of a validated module all hold only what there is.
pub proof fn law_validated_operands_are_there(
    code: CodeView,
    resolved: Seq<Option<ResolvedImport>>,
    i: int,
    j: int,
)
    requires
        validation(code, resolved) is Ok,
        0 <= i < code.instructions.len(),
        0 <= j < operands_of(code.instructions[i]).len(),
    ensures
        is_sound(code, operands_of(code.instructions[i])[j]),
{
    law_validation_names_the_first(code, resolved);
    assert(instruction_flaw(code, resolved, code.instructions[i]) is None);
    let operands = operands_of(code.instructions[i]);
    lemma_all_sound(code, operands, operands.len());
}

/// The operands that are held against the module are those that the instruction was decoded
/// with.
#[verifier::rlimit(60)]
#[verifier::spinoff_prover]
pub proof fn law_validated_operands_are_those_decoded(
    instruction: Instruction,
    opcode: u8,
    operands: Seq<OperandView>,
)
    requires
        encodes(instruction, opcode, operands),
        !(instruction is Label),
        !(instruction is TypeTest),
        operands_of(instruction.view()).len() > 0,
    ensures
        operands_of(instruction.view()) == operands,
{
    assert(operands_of(instruction.view()) =~= operands);
}

/// The operands of an instruction on floats are held against the module, too.
pub proof fn law_float_operands_are_held(
    fail: OperandView,
    left: OperandView,
    right: OperandView,
    dest: OperandView,
)
    ensures
        operands_of(InstructionView::Fmove { source: left, dest }) == seq![left, dest],
        operands_of(InstructionView::Fconv { source: left, dest }) == seq![left, dest],
        operands_of(InstructionView::Fadd { fail, left, right, dest }) == seq![
            fail,
            left,
            right,
            dest,
        ],
        operands_of(InstructionView::Fsub { fail, left, right, dest }) == seq![
            fail,
            left,
            right,
            dest,
        ],
        operands_of(InstructionView::Fmul { fail, left, right, dest }) == seq![
            fail,
            left,
            right,
            dest,
        ],
        operands_of(InstructionView::Fdiv { fail, left, right, dest }) == seq![
            fail,
            left,
            right,
            dest,
        ],
        operands_of(InstructionView::Fnegate { fail, source: left, dest }) == seq![
            fail,
            left,
            dest,
        ],
{
}

/// The label that an instruction has to go to, if it has to go to one.
pub open spec fn goes_to(instruction: InstructionView) -> Option<OperandView> {
    match instruction {
        InstructionView::Jump { target } => Some(target),
        InstructionView::Catch { label, .. } => Some(label),
        InstructionView::Try { label, .. } => Some(label),
        InstructionView::LoopRec { fail, .. } => Some(fail),
        InstructionView::LoopRecEnd { fail } => Some(fail),
        InstructionView::Wait { fail } => Some(fail),
        InstructionView::WaitTimeout { fail, .. } => Some(fail),
        InstructionView::Call { label, .. } => Some(label),
        InstructionView::CallOnly { label, .. } => Some(label),
        InstructionView::CallLast { label, .. } => Some(label),
        _ => None,
    }
}

/// Where a validated module goes to a label, some instruction defines that label.
pub proof fn law_validated_code_goes_to_labels(
    code: CodeView,
    resolved: Seq<Option<ResolvedImport>>,
    i: int,
)
    requires
        validation(code, resolved) is Ok,
        0 <= i < code.instructions.len(),
        goes_to(code.instructions[i]) is Some,
    ensures
        goes_to(code.instructions[i]) matches Some(OperandView::Label(label)) && defines(
            code,
            label,
        ),
{
    law_validation_names_the_first(code, resolved);
    assert(instruction_flaw(code, resolved, code.instructions[i]) is None);
    let target = goes_to(code.instructions[i])->Some_0;
    if let OperandView::Label(label) = target {
        law_defined_labels_have_places(code, label);
    }
}

/// Whether a number is an arity, and which.
pub open spec fn says_arity(operand: OperandView, arity: int) -> bool {
    0 <= arity <= 255 && (operand matches OperandView::Unsigned(value) && value == arity || (operand
        matches OperandView::Integer(value) && value == arity))
}

/// A local call of a validated module has the arity of the function that it enters: where the
/// last definition of its label follows the header of a function, both say the same.
pub proof fn law_validated_calls_agree_with_their_functions(
    code: CodeView,
    resolved: Seq<Option<ResolvedImport>>,
    i: int,
    arity: OperandView,
    label: u32,
    at: int,
)
    requires
        validation(code, resolved) is Ok,
        0 <= i < code.instructions.len() <= usize::MAX,
        code.instructions[i] == (InstructionView::Call { arity, label: OperandView::Label(label) })
            || code.instructions[i] == (InstructionView::CallOnly {
            arity,
            label: OperandView::Label(label),
        }) || (code.instructions[i] matches InstructionView::CallLast { arity: a, label: l, .. } && a
            == arity && l == OperandView::Label(label)),
        0 < at < code.instructions.len(),
        code.instructions[at] == (InstructionView::Label { label }),
        forall|j: int|
            at < j < code.instructions.len() ==> #[trigger] code.instructions[j] != (
            InstructionView::Label { label }),
        code.instructions[at - 1] is FuncInfo,
    ensures
        exists|n: int|
            says_arity(arity, n) && #[trigger] says_arity(
                code.instructions[at - 1]->FuncInfo_arity,
                n,
            ),
{
    law_validation_names_the_first(code, resolved);
    assert(instruction_flaw(code, resolved, code.instructions[i]) is None);
    lemma_last_place(code.instructions, code.instructions.len(), label, at);
    let declared = code.instructions[at - 1]->FuncInfo_arity;
    assert(entered_arity(code, label) == Some(declared));
    let n = super::validate::number_of(arity)->Some_0;
    assert(says_arity(arity, n));
    assert(says_arity(declared, n));
}

proof fn lemma_last_place(code: Seq<InstructionView>, n: nat, label: u32, at: int)
    requires
        n <= code.len() <= usize::MAX,
        0 <= at < n,
        code[at] == (InstructionView::Label { label }),
        forall|j: int| at < j < n ==> #[trigger] code[j] != (InstructionView::Label { label }),
    ensures
        places(code, n).dom().contains(label),
        places(code, n)[label] == at,
    decreases n,
{
    if at < n - 1 {
        lemma_last_place(code, (n - 1) as nat, label, at);
    }
}

/// An external call of a validated module names one of its imports, and has the arity of it.
pub proof fn law_validated_external_calls_agree_with_their_imports(
    code: CodeView,
    resolved: Seq<Option<ResolvedImport>>,
    i: int,
    arity: OperandView,
    import: u64,
)
    requires
        validation(code, resolved) is Ok,
        0 <= i < code.instructions.len(),
        code.instructions[i] == (InstructionView::CallExt {
            arity,
            import: OperandView::Unsigned(import),
        }) || code.instructions[i] == (InstructionView::CallExtOnly {
            arity,
            import: OperandView::Unsigned(import),
        }) || (code.instructions[i] matches InstructionView::CallExtLast {
            arity: a,
            import: found,
            ..
        } && a == arity && found == OperandView::Unsigned(import)),
    ensures
        import < code.imports.len(),
        import < resolved.len(),
        says_arity(
            arity,
            match resolved[import as int] {
                Some(bound) => bound.arity as int,
                None => code.imports[import as int].arity as int,
            },
        ),
{
    law_validation_names_the_first(code, resolved);
    assert(instruction_flaw(code, resolved, code.instructions[i]) is None);
}

/// A call of a built-in function in a validated module names an import of as many arguments as
/// the call has. The import stands first in a call without arguments, behind the label in one
/// that does not collect garbage, and behind the label and the live registers in one that
/// does.
pub proof fn law_validated_bifs_agree_with_their_imports(
    code: CodeView,
    resolved: Seq<Option<ResolvedImport>>,
    i: int,
    op: BifOp,
    operands: Seq<OperandView>,
    import: u64,
)
    requires
        validation(code, resolved) is Ok,
        0 <= i < code.instructions.len(),
        code.instructions[i] == (InstructionView::Bif { op, operands }),
        operands.len() > 2,
        operands[match op {
            BifOp::Bif0 => 0int,
            BifOp::Bif1 | BifOp::Bif2 => 1int,
            BifOp::GcBif1 | BifOp::GcBif2 | BifOp::GcBif3 => 2int,
        }] == OperandView::Unsigned(import),
    ensures
        import < code.imports.len(),
        import < resolved.len(),
        match op {
            BifOp::Bif0 => 0int,
            BifOp::Bif1 | BifOp::GcBif1 => 1int,
            BifOp::Bif2 | BifOp::GcBif2 => 2int,
            BifOp::GcBif3 => 3int,
        } == match resolved[import as int] {
            Some(bound) => bound.arity as int,
            None => code.imports[import as int].arity as int,
        },
{
    law_validation_names_the_first(code, resolved);
    assert(instruction_flaw(code, resolved, code.instructions[i]) is None);
}

/// The header of a function of a validated module names atoms of the module and an arity, and
/// so does every call of a function value.
pub proof fn law_validated_headers_name_functions(
    code: CodeView,
    resolved: Seq<Option<ResolvedImport>>,
    i: int,
)
    requires
        validation(code, resolved) is Ok,
        0 <= i < code.instructions.len(),
    ensures
        match code.instructions[i] {
            InstructionView::FuncInfo { module, function, arity } => {
                &&& module matches OperandView::Atom(Some(atom)) && code.atoms.contains(atom)
                &&& function matches OperandView::Atom(Some(atom)) && code.atoms.contains(atom)
                &&& exists|n: int| says_arity(arity, n)
            },
            InstructionView::CallFun { arity } => exists|n: int| says_arity(arity, n),
            InstructionView::CallFun2 { arity, .. } => exists|n: int| says_arity(arity, n),
            InstructionView::Apply { arity } => exists|n: int| says_arity(arity, n),
            InstructionView::ApplyLast { arity, .. } => exists|n: int| says_arity(arity, n),
            _ => true,
        },
{
    law_validation_names_the_first(code, resolved);
    let instruction = code.instructions[i];
    assert(instruction_flaw(code, resolved, instruction) is None);
    match instruction {
        InstructionView::FuncInfo { module, function, arity } => {
            law_validated_operands_are_there(code, resolved, i, 0);
            law_validated_operands_are_there(code, resolved, i, 1);
            assert(says_arity(arity, super::validate::number_of(arity)->Some_0));
        },
        InstructionView::CallFun { arity } => {
            assert(says_arity(arity, super::validate::number_of(arity)->Some_0));
        },
        InstructionView::CallFun2 { arity, .. } => {
            assert(says_arity(arity, super::validate::number_of(arity)->Some_0));
        },
        InstructionView::Apply { arity } => {
            assert(says_arity(arity, super::validate::number_of(arity)->Some_0));
        },
        InstructionView::ApplyLast { arity, .. } => {
            assert(says_arity(arity, super::validate::number_of(arity)->Some_0));
        },
        _ => {},
    }
}

} // verus!

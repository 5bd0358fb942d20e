//! Instruction operand validation.
//!
//! After decoding, the operands of the instructions are held against what the
//! module has: registers are in range, labels are in the code, arities are those of
//! the functions that are called, and atoms are in the module's table. The error
//! names the first instruction that fails, and the operand.

use std::collections::{HashMap, HashSet};

use vstd::prelude::*;
use vstd::string::*;
use crate::atom::Atom;
use crate::error::{decode_fault, outcome, LoadError, LoadFault};
use crate::jit::float_registers::FLOAT_REGISTER_COUNT;
use crate::jit::register::X_REGISTER_COUNT;
use crate::module::ResolvedImport;
use crate::text::{decimal_u64, nat_text};
use super::decode::chunks::ImportEntry;
use super::decode::code::{all_encode, Item};
use super::decode::compact::{
    lemma_operand_list_view, operand_text, operand_views, Operand, OperandView,
};
use super::decode::instruction::{
    encodes, instruction_views, BifOp, Instruction, InstructionView,
};
use super::decode::names::{instruction_text, opcode_name};
use super::load::ParsedModule;

verus! {

/// What the operands of a module's instructions are held against.
#[verifier::ext_equal]
pub struct CodeView {
    pub instructions: Seq<InstructionView>,
    pub atoms: Seq<Atom>,
    pub imports: Seq<ImportEntry>,
}

impl View for ParsedModule {
    type V = CodeView;

    open spec fn view(&self) -> CodeView {
        CodeView {
            instructions: instruction_views(self.instructions@),
            atoms: self.atoms@,
            imports: self.imports@,
        }
    }
}

/// An operand that fails, and why.
#[verifier::ext_equal]
pub struct Flaw {
    pub operand: Seq<char>,
    pub reason: Seq<char>,
}

/// The flaw of an operand.
pub open spec fn flaw(operand: OperandView, reason: Seq<char>) -> Option<Flaw> {
    Some(Flaw { operand: operand_text(operand), reason })
}

/// Where the last definition of each label among the first `n` instructions is.
pub open spec fn places(code: Seq<InstructionView>, n: nat) -> Map<u32, usize>
    decreases n,
{
    if n == 0 {
        Map::empty()
    } else {
        let before = places(code, (n - 1) as nat);
        match code[n - 1] {
            InstructionView::Label { label } => before.insert(label, (n - 1) as usize),
            _ => before,
        }
    }
}

/// Where the labels of a module are.
pub open spec fn label_places(code: CodeView) -> Map<u32, usize> {
    places(code.instructions, code.instructions.len())
}

/// A label is in the code if and only if an instruction defines it.
pub proof fn law_defined_labels_have_places(code: CodeView, label: u32)
    ensures
        label_places(code).dom().contains(label) <==> exists|i: int|
            0 <= i < code.instructions.len() && #[trigger] code.instructions[i]
                == (InstructionView::Label { label }),
{
    lemma_places(code.instructions, code.instructions.len(), label);
}

proof fn lemma_places(code: Seq<InstructionView>, n: nat, label: u32)
    requires
        n <= code.len(),
    ensures
        places(code, n).dom().contains(label) <==> exists|i: int|
            0 <= i < n && #[trigger] code[i] == (InstructionView::Label { label }),
    decreases n,
{
    if n > 0 {
        lemma_places(code, (n - 1) as nat, label);
        if places(code, n).dom().contains(label) {
            if code[n - 1] != (InstructionView::Label { label }) {
                let i = choose|i: int|
                    0 <= i < n - 1 && #[trigger] code[i] == (InstructionView::Label { label });
                assert(code[i] == (InstructionView::Label { label }));
            }
        }
    }
}

/// Why an operand is not well-formed, wherever it stands: a register out of range,
/// a label that the code does not define, or an atom that the module does not have.
/// Label zero stands for no label. A frame may have any number of Y registers.
pub open spec fn operand_flaw(code: CodeView, operand: OperandView) -> Option<Flaw>
    decreases operand, 0nat,
{
    match operand {
        OperandView::X(index) => if index < X_REGISTER_COUNT {
            None
        } else {
            flaw(operand, "register is out of range"@)
        },
        OperandView::FloatRegister(index) => if index < FLOAT_REGISTER_COUNT {
            None
        } else {
            flaw(operand, "register is out of range"@)
        },
        OperandView::Label(label) => if label == 0 || label_places(code).dom().contains(label) {
            None
        } else {
            flaw(operand, "label is not in the code"@)
        },
        OperandView::Atom(Some(atom)) => if code.atoms.contains(atom) {
            None
        } else {
            flaw(operand, "atom is not in the atom table"@)
        },
        OperandView::List(items) => operands_flaw(code, items, items.len()),
        OperandView::TypedRegister { register, .. } => operand_flaw(code, *register),
        _ => None,
    }
}

/// Why the first of `n` operands that is not well-formed is not.
pub open spec fn operands_flaw(code: CodeView, operands: Seq<OperandView>, n: nat) -> Option<Flaw>
    decreases operands, n,
{
    if n == 0 || n > operands.len() {
        None
    } else {
        match operands_flaw(code, operands, (n - 1) as nat) {
            Some(flaw) => Some(flaw),
            None => operand_flaw(code, operands[n - 1]),
        }
    }
}

/// The operands of an instruction.
pub open spec fn operands_of(instruction: InstructionView) -> Seq<OperandView> {
    match instruction {
        InstructionView::FuncInfo { module, function, arity } => seq![module, function, arity],
        InstructionView::Move { source, destination } => seq![source, destination],
        InstructionView::Call { arity, label } => seq![arity, label],
        InstructionView::CallOnly { arity, label } => seq![arity, label],
        InstructionView::CallExt { arity, import } => seq![arity, import],
        InstructionView::CallExtOnly { arity, import } => seq![arity, import],
        InstructionView::Fmove { source, dest } => seq![source, dest],
        InstructionView::Fconv { source, dest } => seq![source, dest],
        InstructionView::Fadd { fail, left, right, dest } => seq![fail, left, right, dest],
        InstructionView::Fsub { fail, left, right, dest } => seq![fail, left, right, dest],
        InstructionView::Fmul { fail, left, right, dest } => seq![fail, left, right, dest],
        InstructionView::Fdiv { fail, left, right, dest } => seq![fail, left, right, dest],
        InstructionView::Fnegate { fail, source, dest } => seq![fail, source, dest],
        InstructionView::CallLast { arity, label, deallocate } => seq![arity, label, deallocate],
        InstructionView::CallExtLast { arity, import, deallocate } => seq![arity, import, deallocate],
        InstructionView::Allocate { stack_need, live } => seq![stack_need, live],
        InstructionView::AllocateHeap { stack_need, heap_need, live } => seq![stack_need, heap_need, live],
        InstructionView::AllocateZero { stack_need, live } => seq![stack_need, live],
        InstructionView::Deallocate { words } => seq![words],
        InstructionView::TestHeap { heap_need, live } => seq![heap_need, live],
        InstructionView::PutList { head, tail, destination } => seq![head, tail, destination],
        InstructionView::PutTuple2 { destination, elements } => seq![destination, elements],
        InstructionView::GetTupleElement { source, index, destination } => seq![source, index, destination],
        InstructionView::GetList { source, head, tail } => seq![source, head, tail],
        InstructionView::GetHd { source, destination } => seq![source, destination],
        InstructionView::GetTl { source, destination } => seq![source, destination],
        InstructionView::TypeTest { fail, value, .. } => seq![fail, value],
        InstructionView::Comparison { fail, left, right, .. } => seq![fail, left, right],
        InstructionView::TestArity { fail, tuple, arity } => seq![fail, tuple, arity],
        InstructionView::IsTaggedTuple { fail, value, arity, tag } => seq![fail, value, arity, tag],
        InstructionView::SelectVal { value, fail, list } => seq![value, fail, list],
        InstructionView::SelectTupleArity { value, fail, list } => seq![value, fail, list],
        InstructionView::Jump { target } => seq![target],
        InstructionView::Bif { operands, .. } => operands,
        InstructionView::LoopRec { fail, destination } => seq![fail, destination],
        InstructionView::LoopRecEnd { fail } => seq![fail],
        InstructionView::Wait { fail } => seq![fail],
        InstructionView::WaitTimeout { fail, timeout } => seq![fail, timeout],
        InstructionView::Catch { destination, label } => seq![destination, label],
        InstructionView::CatchEnd { source } => seq![source],
        InstructionView::Try { destination, label } => seq![destination, label],
        InstructionView::TryEnd { source } => seq![source],
        InstructionView::TryCase { source } => seq![source],
        InstructionView::TryCaseEnd { source } => seq![source],
        InstructionView::BinaryOp { operands, .. } => operands,
        InstructionView::MapOp { operands, .. } => operands,
        InstructionView::MakeFun { operands, .. } => operands,
        InstructionView::CallFun { arity } => seq![arity],
        InstructionView::CallFun2 { function, arity, destination } => seq![function, arity, destination],
        InstructionView::Apply { arity } => seq![arity],
        InstructionView::ApplyLast { arity, deallocate } => seq![arity, deallocate],
        InstructionView::Badmatch { value } => seq![value],
        InstructionView::Badrecord { value } => seq![value],
        InstructionView::CaseEnd { value } => seq![value],
        InstructionView::Raise { stacktrace, reason } => seq![stacktrace, reason],
        InstructionView::Line { index } => seq![index],
        InstructionView::Trim { words, remaining } => seq![words, remaining],
        InstructionView::Swap { left, right } => seq![left, right],
        InstructionView::InitYregs { registers } => seq![registers],
        InstructionView::UpdateRecord { operands, .. } => operands,
        InstructionView::RecvMarkerReserve { dest } => seq![dest],
        InstructionView::RecvMarkerBind { marker, label } => seq![marker, label],
        InstructionView::RecvMarkerClear { marker } => seq![marker],
        InstructionView::RecvMarkerUse { marker } => seq![marker],
        InstructionView::Generic { operands, .. } => operands,
        _ => Seq::empty(),
    }
}

/// The number that an operand holds.
pub open spec fn number_of(operand: OperandView) -> Option<int> {
    match operand {
        OperandView::Unsigned(value) => Some(value as int),
        OperandView::Integer(value) => Some(value as int),
        _ => None,
    }
}

/// The arity that an operand holds.
pub open spec fn arity_of(operand: OperandView) -> Option<u8> {
    match number_of(operand) {
        Some(value) => if 0 <= value <= 255 {
            Some(value as u8)
        } else {
            None
        },
        None => None,
    }
}

/// Why an operand cannot be an arity.
pub open spec fn arity_flaw(arity: OperandView) -> Option<Flaw> {
    if arity_of(arity) is Some {
        None
    } else {
        flaw(arity, "arity is out of range"@)
    }
}

/// Why an operand is no label to go to.
pub open spec fn target_flaw(code: CodeView, target: OperandView) -> Option<Flaw> {
    match target {
        OperandView::Label(label) => if label_places(code).dom().contains(label) {
            None
        } else {
            flaw(target, "label is not in the code"@)
        },
        _ => flaw(target, "operand is no label"@),
    }
}

/// The arity of the function that a label enters: the label follows the header of
/// the function.
pub open spec fn entered_arity(code: CodeView, label: u32) -> Option<OperandView> {
    if label_places(code).dom().contains(label) {
        let at = label_places(code)[label] as int;
        if at > 0 {
            match code.instructions[at - 1] {
                InstructionView::FuncInfo { arity, .. } => Some(arity),
                _ => None,
            }
        } else {
            None
        }
    } else {
        None
    }
}

/// Why a local call is not well-formed: it has no target, no arity, or not the arity
/// of the function that it enters.
pub open spec fn call_flaw(code: CodeView, arity: OperandView, label: OperandView) -> Option<Flaw> {
    match target_flaw(code, label) {
        Some(flaw) => Some(flaw),
        None => match arity_of(arity) {
            None => flaw(arity, "arity is out of range"@),
            Some(given) => match entered_arity(code, label->Label_0) {
                Some(declared) => if arity_of(declared) == Some(given) {
                    None
                } else {
                    flaw(arity, "arity is not that of the function"@)
                },
                None => None,
            },
        },
    }
}

/// The arity of an import: that of what it was bound to, if it was bound.
pub open spec fn import_arity(
    code: CodeView,
    resolved: Seq<Option<ResolvedImport>>,
    index: int,
) -> u8 {
    match resolved[index] {
        Some(import) => import.arity,
        None => code.imports[index].arity,
    }
}

/// Why an operand does not name an import of an arity.
pub open spec fn import_flaw(
    code: CodeView,
    resolved: Seq<Option<ResolvedImport>>,
    import: OperandView,
    given: u8,
    blamed: OperandView,
) -> Option<Flaw> {
    match number_of(import) {
        Some(index) => if 0 <= index < code.imports.len() && index < resolved.len() {
            if import_arity(code, resolved, index) == given {
                None
            } else {
                flaw(blamed, "arity is not that of the function"@)
            }
        } else {
            flaw(import, "import is out of range"@)
        },
        None => flaw(import, "import is out of range"@),
    }
}

/// Why an external call is not well-formed.
pub open spec fn external_flaw(
    code: CodeView,
    resolved: Seq<Option<ResolvedImport>>,
    arity: OperandView,
    import: OperandView,
) -> Option<Flaw> {
    match arity_of(arity) {
        None => flaw(arity, "arity is out of range"@),
        Some(given) => import_flaw(code, resolved, import, given, arity),
    }
}

/// Where the import of a built-in call stands among its operands, and how many
/// arguments the call has.
pub open spec fn bif_shape(op: BifOp) -> (int, u8) {
    match op {
        BifOp::Bif0 => (0, 0),
        BifOp::Bif1 => (1, 1),
        BifOp::Bif2 => (1, 2),
        BifOp::GcBif1 => (2, 1),
        BifOp::GcBif2 => (2, 2),
        BifOp::GcBif3 => (2, 3),
    }
}

/// Why a built-in call is not well-formed.
pub open spec fn bif_flaw(
    code: CodeView,
    resolved: Seq<Option<ResolvedImport>>,
    op: BifOp,
    operands: Seq<OperandView>,
) -> Option<Flaw> {
    let (at, given) = bif_shape(op);
    if at < operands.len() {
        import_flaw(code, resolved, operands[at], given, operands[at])
    } else {
        Some(Flaw { operand: "import"@, reason: "operand is missing"@ })
    }
}

/// Why the header of a function is not well-formed: it names no module, no function
/// or no arity.
pub open spec fn header_flaw(
    module: OperandView,
    function: OperandView,
    arity: OperandView,
) -> Option<Flaw> {
    if !(module matches OperandView::Atom(Some(_))) {
        flaw(module, "operand is no atom"@)
    } else if !(function matches OperandView::Atom(Some(_))) {
        flaw(function, "operand is no atom"@)
    } else {
        arity_flaw(arity)
    }
}

/// Why an instruction is not well-formed, though its operands are by themselves.
pub open spec fn form_flaw(
    code: CodeView,
    resolved: Seq<Option<ResolvedImport>>,
    instruction: InstructionView,
) -> Option<Flaw> {
    match instruction {
        InstructionView::FuncInfo { module, function, arity } => header_flaw(
            module,
            function,
            arity,
        ),
        InstructionView::Jump { target } => target_flaw(code, target),
        InstructionView::Catch { label, .. } => target_flaw(code, label),
        InstructionView::Try { label, .. } => target_flaw(code, label),
        InstructionView::LoopRec { fail, .. } => target_flaw(code, fail),
        InstructionView::LoopRecEnd { fail } => target_flaw(code, fail),
        InstructionView::Wait { fail } => target_flaw(code, fail),
        InstructionView::WaitTimeout { fail, .. } => target_flaw(code, fail),
        InstructionView::Call { arity, label } => call_flaw(code, arity, label),
        InstructionView::CallOnly { arity, label } => call_flaw(code, arity, label),
        InstructionView::CallLast { arity, label, .. } => call_flaw(code, arity, label),
        InstructionView::CallExt { arity, import } => external_flaw(code, resolved, arity, import),
        InstructionView::CallExtOnly { arity, import } => external_flaw(
            code,
            resolved,
            arity,
            import,
        ),
        InstructionView::CallExtLast { arity, import, .. } => external_flaw(
            code,
            resolved,
            arity,
            import,
        ),
        InstructionView::Bif { op, operands } => bif_flaw(code, resolved, op, operands),
        InstructionView::CallFun { arity } => arity_flaw(arity),
        InstructionView::CallFun2 { arity, .. } => arity_flaw(arity),
        InstructionView::Apply { arity } => arity_flaw(arity),
        InstructionView::ApplyLast { arity, .. } => arity_flaw(arity),
        _ => None,
    }
}

/// Why an instruction is not well-formed.
pub open spec fn instruction_flaw(
    code: CodeView,
    resolved: Seq<Option<ResolvedImport>>,
    instruction: InstructionView,
) -> Option<Flaw> {
    let operands = operands_of(instruction);
    match operands_flaw(code, operands, operands.len()) {
        Some(flaw) => Some(flaw),
        None => form_flaw(code, resolved, instruction),
    }
}

/// The fault of an instruction: its position, its text, the operand that fails, and
/// why.
pub open spec fn instruction_fault(
    index: int,
    instruction: InstructionView,
    flaw: Flaw,
) -> LoadFault {
    decode_fault(
        "instruction "@ + nat_text(index as nat) + ": "@ + instruction_text(instruction)
            + ": operand "@ + flaw.operand + ": "@ + flaw.reason,
    )
}

/// The fault of the first of `n` instructions that is not well-formed.
pub open spec fn first_fault(
    code: CodeView,
    resolved: Seq<Option<ResolvedImport>>,
    n: nat,
) -> Option<LoadFault>
    decreases n,
{
    if n == 0 {
        None
    } else {
        match first_fault(code, resolved, (n - 1) as nat) {
            Some(fault) => Some(fault),
            None => match instruction_flaw(code, resolved, code.instructions[n - 1]) {
                Some(flaw) => Some(instruction_fault(n - 1, code.instructions[n - 1], flaw)),
                None => None,
            },
        }
    }
}

/// What validating a module answers.
pub open spec fn validation(code: CodeView, resolved: Seq<Option<ResolvedImport>>) -> Result<
    (),
    LoadFault,
> {
    match first_fault(code, resolved, code.instructions.len()) {
        Some(fault) => Err(fault),
        None => Ok(()),
    }
}

/// Whether the operands of every instruction are well-formed.
pub open spec fn operands_are_valid(
    code: CodeView,
    resolved: Seq<Option<ResolvedImport>>,
) -> bool {
    forall|i: int|
        0 <= i < code.instructions.len() ==> instruction_flaw(
            code,
            resolved,
            #[trigger] code.instructions[i],
        ) is None
}

proof fn lemma_first_fault(code: CodeView, resolved: Seq<Option<ResolvedImport>>, n: nat)
    requires
        n <= code.instructions.len(),
    ensures
        match first_fault(code, resolved, n) {
            None => forall|i: int|
                0 <= i < n ==> instruction_flaw(
                    code,
                    resolved,
                    #[trigger] code.instructions[i],
                ) is None,
            Some(fault) => exists|i: int|
                0 <= i < n && (instruction_flaw(code, resolved, #[trigger] code.instructions[i])
                    matches Some(flaw) && fault == instruction_fault(i, code.instructions[i], flaw))
                    && forall|j: int|
                    0 <= j < i ==> instruction_flaw(
                        code,
                        resolved,
                        #[trigger] code.instructions[j],
                    ) is None,
        },
    decreases n,
{
    if n > 0 {
        lemma_first_fault(code, resolved, (n - 1) as nat);
    }
}

/// Validation fails if and only if some instruction is not well-formed, and its
/// fault is that of the first one.
pub proof fn law_validation_names_the_first(
    code: CodeView,
    resolved: Seq<Option<ResolvedImport>>,
)
    ensures
        validation(code, resolved) is Ok <==> operands_are_valid(code, resolved),
        validation(code, resolved) matches Err(fault) ==> exists|i: int|
            0 <= i < code.instructions.len() && (instruction_flaw(
                code,
                resolved,
                #[trigger] code.instructions[i],
            ) matches Some(flaw) && fault == instruction_fault(i, code.instructions[i], flaw))
                && forall|j: int|
                0 <= j < i ==> instruction_flaw(
                    code,
                    resolved,
                    #[trigger] code.instructions[j],
                ) is None,
{
    lemma_first_fault(code, resolved, code.instructions.len());
}

proof fn lemma_fault_stays(
    code: CodeView,
    resolved: Seq<Option<ResolvedImport>>,
    n: nat,
    m: nat,
)
    requires
        n <= m,
        first_fault(code, resolved, n) is Some,
    ensures
        first_fault(code, resolved, m) == first_fault(code, resolved, n),
    decreases m,
{
    if n < m {
        lemma_fault_stays(code, resolved, n, (m - 1) as nat);
    }
}

/// Code that jumps to a label that it does not define is refused.
pub proof fn law_undefined_targets_are_refused(
    code: CodeView,
    resolved: Seq<Option<ResolvedImport>>,
    i: int,
    label: u32,
)
    requires
        0 <= i < code.instructions.len(),
        code.instructions[i] == (InstructionView::Jump { target: OperandView::Label(label) }),
        forall|j: int|
            0 <= j < code.instructions.len() ==> #[trigger] code.instructions[j] != (
            InstructionView::Label { label }),
    ensures
        validation(code, resolved) is Err,
{
    law_defined_labels_have_places(code, label);
    law_validation_names_the_first(code, resolved);
    let operands = operands_of(code.instructions[i]);
    assert(instruction_flaw(code, resolved, code.instructions[i]) is Some);
}

/// Whether the imports that were bound kept their arities.
pub open spec fn keeps_arities(
    imports: Seq<ImportEntry>,
    resolved: Seq<Option<ResolvedImport>>,
) -> bool {
    &&& resolved.len() == imports.len()
    &&& forall|i: int|
        0 <= i < imports.len() ==> (#[trigger] resolved[i] matches Some(import) ==> import.arity
            == imports[i].arity)
}

/// Imports of which none is bound.
pub open spec fn none_bound(imports: Seq<ImportEntry>) -> Seq<Option<ResolvedImport>> {
    Seq::new(imports.len(), |i: int| None::<ResolvedImport>)
}

proof fn lemma_same_faults(code: CodeView, resolved: Seq<Option<ResolvedImport>>, n: nat)
    requires
        keeps_arities(code.imports, resolved),
    ensures
        first_fault(code, resolved, n) == first_fault(code, none_bound(code.imports), n),
    decreases n,
{
    if n > 0 {
        lemma_same_faults(code, resolved, (n - 1) as nat);
        assert forall|index: int| 0 <= index < code.imports.len() implies #[trigger] import_arity(
            code,
            resolved,
            index,
        ) == import_arity(code, none_bound(code.imports), index) by {
            assert(resolved[index] is Some || resolved[index] is None);
        }
    }
}

/// What imports are bound to makes no difference to validation, as long as it has
/// their arities.
pub proof fn law_validation_does_not_depend_on_bindings(
    code: CodeView,
    resolved: Seq<Option<ResolvedImport>>,
)
    requires
        keeps_arities(code.imports, resolved),
    ensures
        validation(code, resolved) == validation(code, none_bound(code.imports)),
{
    lemma_same_faults(code, resolved, code.instructions.len());
}

#[verifier::rlimit(60)]
proof fn lemma_encoding_is_unambiguous(
    a: Instruction,
    b: Instruction,
    opcode: u8,
    operands: Seq<OperandView>,
)
    requires
        encodes(a, opcode, operands),
        encodes(b, opcode, operands),
    ensures
        a.view() == b.view(),
{
}

/// The instructions that opcodes with their operands stand for.
pub open spec fn code_of(items: Seq<Item>) -> Seq<InstructionView> {
    instruction_views(choose|code: Seq<Instruction>| #[trigger] all_encode(code, items))
}

/// Opcodes with their operands stand for one sequence of instructions only.
pub proof fn law_code_is_unambiguous(code: Seq<Instruction>, items: Seq<Item>)
    requires
        all_encode(code, items),
    ensures
        instruction_views(code) == code_of(items),
{
    let other = choose|code: Seq<Instruction>| #[trigger] all_encode(code, items);
    assert forall|i: int| 0 <= i < items.len() implies #[trigger] code[i].view()
        == other[i].view() by {
        assert(encodes(other[i], items[i].opcode, items[i].operands));
        lemma_encoding_is_unambiguous(code[i], other[i], items[i].opcode, items[i].operands);
    }
    assert(instruction_views(code) =~= instruction_views(other));
}

/// The views of operands that are referred to.
spec fn referred(operands: Seq<&Operand>) -> Seq<OperandView> {
    Seq::new(operands.len(), |i: int| operands[i].view())
}

fn all_of(operands: &Vec<Operand>) -> (r: Vec<&Operand>)
    ensures
        referred(r@) == operand_views(operands@),
{
    let mut all: Vec<&Operand> = Vec::new();
    let mut i: usize = 0;
    while i < operands.len()
        invariant
            i <= operands@.len(),
            referred(all@) == operand_views(operands@).take(i as int),
        decreases operands@.len() - i,
    {
        let ghost before = all@;
        let operand: &Operand = &operands[i];
        assert(*operand == operands@[i as int]);
        all.push(operand);
        assert(all@ == before.push(operand));
        assert(referred(before).len() == i);
        assert(referred(all@)[i as int] == operand.view());
        i += 1;
        proof {
            let views = operand_views(operands@);
            assert forall|j: int| 0 <= j < i implies referred(all@)[j] == views[j] by {
                if j < i - 1 {
                    assert(referred(before)[j] == views.take(i - 1)[j]);
                }
            }
            assert(referred(all@) =~= views.take(i as int));
        }
    }
    assert(operand_views(operands@).take(operands@.len() as int) =~= operand_views(operands@));
    all
}

#[verifier::rlimit(40)]
fn operands_in(instruction: &Instruction) -> (r: Vec<&Operand>)
    ensures
        referred(r@) == operands_of(instruction.view()),
{
    match instruction {
        Instruction::FuncInfo { module, function, arity } => {
            let r: Vec<&Operand> = vec![module, function, arity];
            assert(referred(r@) =~= operands_of(instruction.view()));
            r
        },
        Instruction::Move { source, destination } => {
            let r: Vec<&Operand> = vec![source, destination];
            assert(referred(r@) =~= operands_of(instruction.view()));
            r
        },
        Instruction::Call { arity, label } => {
            let r: Vec<&Operand> = vec![arity, label];
            assert(referred(r@) =~= operands_of(instruction.view()));
            r
        },
        Instruction::CallOnly { arity, label } => {
            let r: Vec<&Operand> = vec![arity, label];
            assert(referred(r@) =~= operands_of(instruction.view()));
            r
        },
        Instruction::CallExt { arity, import } => {
            let r: Vec<&Operand> = vec![arity, import];
            assert(referred(r@) =~= operands_of(instruction.view()));
            r
        },
        Instruction::CallExtOnly { arity, import } => {
            let r: Vec<&Operand> = vec![arity, import];
            assert(referred(r@) =~= operands_of(instruction.view()));
            r
        },
        Instruction::Fmove { source, dest } => {
            let r: Vec<&Operand> = vec![source, dest];
            assert(referred(r@) =~= operands_of(instruction.view()));
            r
        },
        Instruction::Fconv { source, dest } => {
            let r: Vec<&Operand> = vec![source, dest];
            assert(referred(r@) =~= operands_of(instruction.view()));
            r
        },
        Instruction::Fadd { fail, left, right, dest } => {
            let r: Vec<&Operand> = vec![fail, left, right, dest];
            assert(referred(r@) =~= operands_of(instruction.view()));
            r
        },
        Instruction::Fsub { fail, left, right, dest } => {
            let r: Vec<&Operand> = vec![fail, left, right, dest];
            assert(referred(r@) =~= operands_of(instruction.view()));
            r
        },
        Instruction::Fmul { fail, left, right, dest } => {
            let r: Vec<&Operand> = vec![fail, left, right, dest];
            assert(referred(r@) =~= operands_of(instruction.view()));
            r
        },
        Instruction::Fdiv { fail, left, right, dest } => {
            let r: Vec<&Operand> = vec![fail, left, right, dest];
            assert(referred(r@) =~= operands_of(instruction.view()));
            r
        },
        Instruction::Fnegate { fail, source, dest } => {
            let r: Vec<&Operand> = vec![fail, source, dest];
            assert(referred(r@) =~= operands_of(instruction.view()));
            r
        },
        Instruction::CallLast { arity, label, deallocate } => {
            let r: Vec<&Operand> = vec![arity, label, deallocate];
            assert(referred(r@) =~= operands_of(instruction.view()));
            r
        },
        Instruction::CallExtLast { arity, import, deallocate } => {
            let r: Vec<&Operand> = vec![arity, import, deallocate];
            assert(referred(r@) =~= operands_of(instruction.view()));
            r
        },
        Instruction::Allocate { stack_need, live } => {
            let r: Vec<&Operand> = vec![stack_need, live];
            assert(referred(r@) =~= operands_of(instruction.view()));
            r
        },
        Instruction::AllocateHeap { stack_need, heap_need, live } => {
            let r: Vec<&Operand> = vec![stack_need, heap_need, live];
            assert(referred(r@) =~= operands_of(instruction.view()));
            r
        },
        Instruction::AllocateZero { stack_need, live } => {
            let r: Vec<&Operand> = vec![stack_need, live];
            assert(referred(r@) =~= operands_of(instruction.view()));
            r
        },
        Instruction::Deallocate { words } => {
            let r: Vec<&Operand> = vec![words];
            assert(referred(r@) =~= operands_of(instruction.view()));
            r
        },
        Instruction::TestHeap { heap_need, live } => {
            let r: Vec<&Operand> = vec![heap_need, live];
            assert(referred(r@) =~= operands_of(instruction.view()));
            r
        },
        Instruction::PutList { head, tail, destination } => {
            let r: Vec<&Operand> = vec![head, tail, destination];
            assert(referred(r@) =~= operands_of(instruction.view()));
            r
        },
        Instruction::PutTuple2 { destination, elements } => {
            let r: Vec<&Operand> = vec![destination, elements];
            assert(referred(r@) =~= operands_of(instruction.view()));
            r
        },
        Instruction::GetTupleElement { source, index, destination } => {
            let r: Vec<&Operand> = vec![source, index, destination];
            assert(referred(r@) =~= operands_of(instruction.view()));
            r
        },
        Instruction::GetList { source, head, tail } => {
            let r: Vec<&Operand> = vec![source, head, tail];
            assert(referred(r@) =~= operands_of(instruction.view()));
            r
        },
        Instruction::GetHd { source, destination } => {
            let r: Vec<&Operand> = vec![source, destination];
            assert(referred(r@) =~= operands_of(instruction.view()));
            r
        },
        Instruction::GetTl { source, destination } => {
            let r: Vec<&Operand> = vec![source, destination];
            assert(referred(r@) =~= operands_of(instruction.view()));
            r
        },
        Instruction::TypeTest { fail, value, .. } => {
            let r: Vec<&Operand> = vec![fail, value];
            assert(referred(r@) =~= operands_of(instruction.view()));
            r
        },
        Instruction::Comparison { fail, left, right, .. } => {
            let r: Vec<&Operand> = vec![fail, left, right];
            assert(referred(r@) =~= operands_of(instruction.view()));
            r
        },
        Instruction::TestArity { fail, tuple, arity } => {
            let r: Vec<&Operand> = vec![fail, tuple, arity];
            assert(referred(r@) =~= operands_of(instruction.view()));
            r
        },
        Instruction::IsTaggedTuple { fail, value, arity, tag } => {
            let r: Vec<&Operand> = vec![fail, value, arity, tag];
            assert(referred(r@) =~= operands_of(instruction.view()));
            r
        },
        Instruction::SelectVal { value, fail, list } => {
            let r: Vec<&Operand> = vec![value, fail, list];
            assert(referred(r@) =~= operands_of(instruction.view()));
            r
        },
        Instruction::SelectTupleArity { value, fail, list } => {
            let r: Vec<&Operand> = vec![value, fail, list];
            assert(referred(r@) =~= operands_of(instruction.view()));
            r
        },
        Instruction::Jump { target } => {
            let r: Vec<&Operand> = vec![target];
            assert(referred(r@) =~= operands_of(instruction.view()));
            r
        },
        Instruction::Bif { operands, .. } => all_of(operands),
        Instruction::LoopRec { fail, destination } => {
            let r: Vec<&Operand> = vec![fail, destination];
            assert(referred(r@) =~= operands_of(instruction.view()));
            r
        },
        Instruction::LoopRecEnd { fail } => {
            let r: Vec<&Operand> = vec![fail];
            assert(referred(r@) =~= operands_of(instruction.view()));
            r
        },
        Instruction::Wait { fail } => {
            let r: Vec<&Operand> = vec![fail];
            assert(referred(r@) =~= operands_of(instruction.view()));
            r
        },
        Instruction::WaitTimeout { fail, timeout } => {
            let r: Vec<&Operand> = vec![fail, timeout];
            assert(referred(r@) =~= operands_of(instruction.view()));
            r
        },
        Instruction::Catch { destination, label } => {
            let r: Vec<&Operand> = vec![destination, label];
            assert(referred(r@) =~= operands_of(instruction.view()));
            r
        },
        Instruction::CatchEnd { source } => {
            let r: Vec<&Operand> = vec![source];
            assert(referred(r@) =~= operands_of(instruction.view()));
            r
        },
        Instruction::Try { destination, label } => {
            let r: Vec<&Operand> = vec![destination, label];
            assert(referred(r@) =~= operands_of(instruction.view()));
            r
        },
        Instruction::TryEnd { source } => {
            let r: Vec<&Operand> = vec![source];
            assert(referred(r@) =~= operands_of(instruction.view()));
            r
        },
        Instruction::TryCase { source } => {
            let r: Vec<&Operand> = vec![source];
            assert(referred(r@) =~= operands_of(instruction.view()));
            r
        },
        Instruction::TryCaseEnd { source } => {
            let r: Vec<&Operand> = vec![source];
            assert(referred(r@) =~= operands_of(instruction.view()));
            r
        },
        Instruction::BinaryOp { operands, .. } => all_of(operands),
        Instruction::MapOp { operands, .. } => all_of(operands),
        Instruction::MakeFun { operands, .. } => all_of(operands),
        Instruction::CallFun { arity } => {
            let r: Vec<&Operand> = vec![arity];
            assert(referred(r@) =~= operands_of(instruction.view()));
            r
        },
        Instruction::CallFun2 { function, arity, destination } => {
            let r: Vec<&Operand> = vec![function, arity, destination];
            assert(referred(r@) =~= operands_of(instruction.view()));
            r
        },
        Instruction::Apply { arity } => {
            let r: Vec<&Operand> = vec![arity];
            assert(referred(r@) =~= operands_of(instruction.view()));
            r
        },
        Instruction::ApplyLast { arity, deallocate } => {
            let r: Vec<&Operand> = vec![arity, deallocate];
            assert(referred(r@) =~= operands_of(instruction.view()));
            r
        },
        Instruction::Badmatch { value } => {
            let r: Vec<&Operand> = vec![value];
            assert(referred(r@) =~= operands_of(instruction.view()));
            r
        },
        Instruction::Badrecord { value } => {
            let r: Vec<&Operand> = vec![value];
            assert(referred(r@) =~= operands_of(instruction.view()));
            r
        },
        Instruction::CaseEnd { value } => {
            let r: Vec<&Operand> = vec![value];
            assert(referred(r@) =~= operands_of(instruction.view()));
            r
        },
        Instruction::Raise { stacktrace, reason } => {
            let r: Vec<&Operand> = vec![stacktrace, reason];
            assert(referred(r@) =~= operands_of(instruction.view()));
            r
        },
        Instruction::Line { index } => {
            let r: Vec<&Operand> = vec![index];
            assert(referred(r@) =~= operands_of(instruction.view()));
            r
        },
        Instruction::Trim { words, remaining } => {
            let r: Vec<&Operand> = vec![words, remaining];
            assert(referred(r@) =~= operands_of(instruction.view()));
            r
        },
        Instruction::Swap { left, right } => {
            let r: Vec<&Operand> = vec![left, right];
            assert(referred(r@) =~= operands_of(instruction.view()));
            r
        },
        Instruction::InitYregs { registers } => {
            let r: Vec<&Operand> = vec![registers];
            assert(referred(r@) =~= operands_of(instruction.view()));
            r
        },
        Instruction::UpdateRecord { operands, .. } => all_of(operands),
        Instruction::RecvMarkerReserve { dest } => {
            let r: Vec<&Operand> = vec![dest];
            assert(referred(r@) =~= operands_of(instruction.view()));
            r
        },
        Instruction::RecvMarkerBind { marker, label } => {
            let r: Vec<&Operand> = vec![marker, label];
            assert(referred(r@) =~= operands_of(instruction.view()));
            r
        },
        Instruction::RecvMarkerClear { marker } => {
            let r: Vec<&Operand> = vec![marker];
            assert(referred(r@) =~= operands_of(instruction.view()));
            r
        },
        Instruction::RecvMarkerUse { marker } => {
            let r: Vec<&Operand> = vec![marker];
            assert(referred(r@) =~= operands_of(instruction.view()));
            r
        },
        Instruction::Generic { operands, .. } => all_of(operands),
        _ => {
            let r: Vec<&Operand> = Vec::new();
            assert(referred(r@) =~= operands_of(instruction.view()));
            r
        },
    }
}

/// An operand that fails, and why.
struct Complaint {
    operand: String,
    reason: &'static str,
}

spec fn complaint_view(complaint: Option<Complaint>) -> Option<Flaw> {
    match complaint {
        Some(complaint) => Some(
            Flaw { operand: complaint.operand@, reason: complaint.reason@ },
        ),
        None => None,
    }
}

fn complain(operand: &Operand, reason: &'static str) -> (r: Option<Complaint>)
    ensures
        complaint_view(r) == flaw(operand.view(), reason@),
{
    Some(Complaint { operand: operand.debug_string(), reason })
}

/// The labels and the atoms of a module, to be looked up.
struct Tables {
    labels: HashMap<u32, usize>,
    atoms: HashSet<u32>,
}

impl Tables {
    spec fn are_of(&self, code: CodeView) -> bool {
        &&& self.labels@ == label_places(code)
        &&& forall|atom: Atom| self.atoms@.contains(atom.0) <==> #[trigger] code.atoms.contains(atom)
    }
}

fn tables_of(parsed: &ParsedModule) -> (r: Tables)
    ensures
        r.are_of(parsed@),
{
    broadcast use vstd::std_specs::hash::group_hash_axioms;

    let ghost code = parsed@;
    let mut labels: HashMap<u32, usize> = HashMap::new();
    let mut i: usize = 0;
    while i < parsed.instructions.len()
        invariant
            code == parsed@,
            i <= parsed.instructions@.len(),
            labels@ == places(code.instructions, i as nat),
        decreases parsed.instructions@.len() - i,
    {
        assert(code.instructions[i as int] == parsed.instructions@[i as int].view());
        match &parsed.instructions[i] {
            Instruction::Label { label } => {
                labels.insert(*label, i);
            },
            _ => {},
        }
        i += 1;
    }
    let mut atoms: HashSet<u32> = HashSet::new();
    let mut k: usize = 0;
    while k < parsed.atoms.len()
        invariant
            k <= parsed.atoms@.len(),
            forall|atom: Atom|
                atoms@.contains(atom.0) <==> #[trigger] parsed.atoms@.take(k as int).contains(atom),
        decreases parsed.atoms@.len() - k,
    {
        let ghost before = parsed.atoms@.take(k as int);
        let ghost held = atoms@;
        atoms.insert(parsed.atoms[k].0);
        proof {
            let after = parsed.atoms@.take(k + 1);
            assert(after =~= before.push(parsed.atoms@[k as int]));
            assert forall|atom: Atom| atoms@.contains(atom.0) <==> #[trigger] after.contains(
                atom,
            ) by {
                assert(before.contains(atom) <==> held.contains(atom.0));
                if before.contains(atom) {
                    let j = choose|j: int| 0 <= j < before.len() && before[j] == atom;
                    assert(after[j] == atom);
                }
                if after.contains(atom) {
                    let j = choose|j: int| 0 <= j < after.len() && after[j] == atom;
                    if j < before.len() {
                        assert(before[j] == atom);
                    }
                }
                if atom.0 == parsed.atoms@[k as int].0 {
                    assert(after[k as int] == atom);
                }
            }
        }
        k += 1;
    }
    assert(parsed.atoms@.take(parsed.atoms@.len() as int) =~= parsed.atoms@);
    Tables { labels, atoms }
}

fn check_operand(tables: &Tables, Ghost(code): Ghost<CodeView>, operand: &Operand) -> (r: Option<
    Complaint,
>)
    requires
        tables.are_of(code),
    ensures
        complaint_view(r) == operand_flaw(code, operand.view()),
    decreases operand,
{
    broadcast use vstd::std_specs::hash::group_hash_axioms;

    match operand {
        Operand::X(index) => if *index < X_REGISTER_COUNT {
            None
        } else {
            complain(operand, "register is out of range")
        },
        Operand::FloatRegister(index) => if *index < FLOAT_REGISTER_COUNT {
            None
        } else {
            complain(operand, "register is out of range")
        },
        Operand::Label(label) => if *label == 0 || tables.labels.contains_key(label) {
            None
        } else {
            complain(operand, "label is not in the code")
        },
        Operand::Atom(Some(atom)) => {
            assert(tables.atoms@.contains(atom.0) <==> code.atoms.contains(*atom));
            if tables.atoms.contains(&atom.0) {
                None
            } else {
                complain(operand, "atom is not in the atom table")
            }
        },
        Operand::List(items) => {
            proof {
                lemma_operand_list_view(*items);
            }
            check_list(tables, Ghost(code), items)
        },
        Operand::TypedRegister { register, .. } => check_operand(tables, Ghost(code), register),
        _ => None,
    }
}

proof fn lemma_flaw_stays(code: CodeView, operands: Seq<OperandView>, n: nat, m: nat)
    requires
        n <= m <= operands.len(),
        operands_flaw(code, operands, n) is Some,
    ensures
        operands_flaw(code, operands, m) == operands_flaw(code, operands, n),
    decreases m,
{
    if n < m {
        lemma_flaw_stays(code, operands, n, (m - 1) as nat);
    }
}

fn check_list(tables: &Tables, Ghost(code): Ghost<CodeView>, items: &Vec<Operand>) -> (r: Option<
    Complaint,
>)
    requires
        tables.are_of(code),
    ensures
        complaint_view(r) == operands_flaw(code, operand_views(items@), items@.len()),
    decreases items,
{
    let ghost views = operand_views(items@);
    let mut i: usize = 0;
    while i < items.len()
        invariant
            tables.are_of(code),
            views == operand_views(items@),
            i <= items@.len(),
            operands_flaw(code, views, i as nat) is None,
        decreases items@.len() - i,
    {
        proof {
            assert(decreases_to!(items => items@[i as int]));
        }
        let complaint = check_operand(tables, Ghost(code), &items[i]);
        if complaint.is_some() {
            proof {
                assert(operands_flaw(code, views, (i + 1) as nat) == complaint_view(complaint));
                lemma_flaw_stays(code, views, (i + 1) as nat, views.len());
            }
            return complaint;
        }
        i += 1;
    }
    None
}

fn check_operands(
    tables: &Tables,
    Ghost(code): Ghost<CodeView>,
    instruction: &Instruction,
) -> (r: Option<Complaint>)
    requires
        tables.are_of(code),
    ensures
        ({
            let operands = operands_of(instruction.view());
            complaint_view(r) == operands_flaw(code, operands, operands.len())
        }),
{
    let operands = operands_in(instruction);
    let ghost views = operands_of(instruction.view());
    let mut i: usize = 0;
    while i < operands.len()
        invariant
            tables.are_of(code),
            views == referred(operands@),
            views == operands_of(instruction.view()),
            i <= operands@.len(),
            operands_flaw(code, views, i as nat) is None,
        decreases operands@.len() - i,
    {
        let complaint = check_operand(tables, Ghost(code), operands[i]);
        if complaint.is_some() {
            proof {
                assert(operands_flaw(code, views, (i + 1) as nat) == complaint_view(complaint));
                lemma_flaw_stays(code, views, (i + 1) as nat, views.len());
            }
            return complaint;
        }
        i += 1;
    }
    None
}

fn read_arity(operand: &Operand) -> (r: Option<u8>)
    ensures
        r == arity_of(operand.view()),
{
    match operand {
        Operand::Unsigned(value) => if *value <= 255 {
            Some(*value as u8)
        } else {
            None
        },
        Operand::Integer(value) => if 0 <= *value && *value <= 255 {
            Some(*value as u8)
        } else {
            None
        },
        _ => None,
    }
}

fn check_arity(arity: &Operand) -> (r: Option<Complaint>)
    ensures
        complaint_view(r) == arity_flaw(arity.view()),
{
    match read_arity(arity) {
        Some(_) => None,
        None => complain(arity, "arity is out of range"),
    }
}

fn check_target(tables: &Tables, Ghost(code): Ghost<CodeView>, target: &Operand) -> (r: Option<
    Complaint,
>)
    requires
        tables.are_of(code),
    ensures
        complaint_view(r) == target_flaw(code, target.view()),
{
    broadcast use vstd::std_specs::hash::group_hash_axioms;

    match target {
        Operand::Label(label) => if tables.labels.contains_key(label) {
            None
        } else {
            complain(target, "label is not in the code")
        },
        _ => complain(target, "operand is no label"),
    }
}

proof fn lemma_places_in_code(code: Seq<InstructionView>, n: nat, label: u32)
    requires
        places(code, n).dom().contains(label),
        n <= usize::MAX,
    ensures
        places(code, n)[label] < n,
    decreases n,
{
    if n > 0 && code[n - 1] != (InstructionView::Label { label }) {
        lemma_places_in_code(code, (n - 1) as nat, label);
    }
}

fn check_call(tables: &Tables, parsed: &ParsedModule, arity: &Operand, label: &Operand) -> (r:
    Option<Complaint>)
    requires
        tables.are_of(parsed@),
    ensures
        complaint_view(r) == call_flaw(parsed@, arity.view(), label.view()),
{
    broadcast use vstd::std_specs::hash::group_hash_axioms;

    let complaint = check_target(tables, Ghost(parsed@), label);
    if complaint.is_some() {
        return complaint;
    }
    let given: u8 = match read_arity(arity) {
        Some(given) => given,
        None => {
            return complain(arity, "arity is out of range");
        },
    };
    let number: u32 = match label {
        Operand::Label(number) => *number,
        _ => {
            return None;
        },
    };
    match tables.labels.get(&number) {
        Some(at) => {
            let at: usize = *at;
            let count: usize = parsed.instructions.len();
            proof {
                lemma_places_in_code(
                    parsed@.instructions,
                    count as nat,
                    number,
                );
            }
            if at > 0 {
                assert(parsed@.instructions[at - 1] == parsed.instructions@[at - 1].view());
                match &parsed.instructions[at - 1] {
                    Instruction::FuncInfo { arity: declared, .. } => {
                        match read_arity(declared) {
                            Some(declared) => if declared == given {
                                None
                            } else {
                                complain(arity, "arity is not that of the function")
                            },
                            None => complain(arity, "arity is not that of the function"),
                        }
                    },
                    _ => None,
                }
            } else {
                None
            }
        },
        None => None,
    }
}

fn read_index(operand: &Operand) -> (r: Option<u64>)
    ensures
        match r {
            Some(index) => number_of(operand.view()) == Some(index as int),
            None => number_of(operand.view()) is None || number_of(operand.view())->Some_0 < 0,
        },
{
    match operand {
        Operand::Unsigned(value) => Some(*value),
        Operand::Integer(value) => if 0 <= *value {
            Some(*value as u64)
        } else {
            None
        },
        _ => None,
    }
}

fn check_import(
    parsed: &ParsedModule,
    resolved: &Vec<Option<ResolvedImport>>,
    import: &Operand,
    given: u8,
    blamed: &Operand,
) -> (r: Option<Complaint>)
    ensures
        complaint_view(r) == import_flaw(
            parsed@,
            resolved@,
            import.view(),
            given,
            blamed.view(),
        ),
{
    match read_index(import) {
        Some(index) => if index < parsed.imports.len() as u64 && index < resolved.len() as u64 {
            let index: usize = index as usize;
            let declared: u8 = match resolved[index] {
                Some(import) => import.arity,
                None => parsed.imports[index].arity,
            };
            if declared == given {
                None
            } else {
                complain(blamed, "arity is not that of the function")
            }
        } else {
            complain(import, "import is out of range")
        },
        None => complain(import, "import is out of range"),
    }
}

fn check_external(
    parsed: &ParsedModule,
    resolved: &Vec<Option<ResolvedImport>>,
    arity: &Operand,
    import: &Operand,
) -> (r: Option<Complaint>)
    ensures
        complaint_view(r) == external_flaw(parsed@, resolved@, arity.view(), import.view()),
{
    match read_arity(arity) {
        Some(given) => check_import(parsed, resolved, import, given, arity),
        None => complain(arity, "arity is out of range"),
    }
}

fn check_bif(
    parsed: &ParsedModule,
    resolved: &Vec<Option<ResolvedImport>>,
    op: BifOp,
    operands: &Vec<Operand>,
) -> (r: Option<Complaint>)
    ensures
        complaint_view(r) == bif_flaw(parsed@, resolved@, op, operand_views(operands@)),
{
    let (at, given): (usize, u8) = match op {
        BifOp::Bif0 => (0, 0),
        BifOp::Bif1 => (1, 1),
        BifOp::Bif2 => (1, 2),
        BifOp::GcBif1 => (2, 1),
        BifOp::GcBif2 => (2, 2),
        BifOp::GcBif3 => (2, 3),
    };
    if at < operands.len() {
        check_import(parsed, resolved, &operands[at], given, &operands[at])
    } else {
        Some(Complaint { operand: "import".to_owned(), reason: "operand is missing" })
    }
}

fn check_header(module: &Operand, function: &Operand, arity: &Operand) -> (r: Option<Complaint>)
    ensures
        complaint_view(r) == header_flaw(module.view(), function.view(), arity.view()),
{
    match module {
        Operand::Atom(Some(_)) => match function {
            Operand::Atom(Some(_)) => check_arity(arity),
            _ => complain(function, "operand is no atom"),
        },
        _ => complain(module, "operand is no atom"),
    }
}

fn check_form(
    tables: &Tables,
    parsed: &ParsedModule,
    resolved: &Vec<Option<ResolvedImport>>,
    instruction: &Instruction,
) -> (r: Option<Complaint>)
    requires
        tables.are_of(parsed@),
    ensures
        complaint_view(r) == form_flaw(parsed@, resolved@, instruction.view()),
{
    match instruction {
        Instruction::FuncInfo { module, function, arity } => check_header(module, function, arity),
        Instruction::Jump { target } => check_target(tables, Ghost(parsed@), target),
        Instruction::Catch { label, .. } => check_target(tables, Ghost(parsed@), label),
        Instruction::Try { label, .. } => check_target(tables, Ghost(parsed@), label),
        Instruction::LoopRec { fail, .. } => check_target(tables, Ghost(parsed@), fail),
        Instruction::LoopRecEnd { fail } => check_target(tables, Ghost(parsed@), fail),
        Instruction::Wait { fail } => check_target(tables, Ghost(parsed@), fail),
        Instruction::WaitTimeout { fail, .. } => check_target(tables, Ghost(parsed@), fail),
        Instruction::Call { arity, label } => check_call(tables, parsed, arity, label),
        Instruction::CallOnly { arity, label } => check_call(tables, parsed, arity, label),
        Instruction::CallLast { arity, label, .. } => check_call(tables, parsed, arity, label),
        Instruction::CallExt { arity, import } => check_external(parsed, resolved, arity, import),
        Instruction::CallExtOnly { arity, import } => check_external(
            parsed,
            resolved,
            arity,
            import,
        ),
        Instruction::CallExtLast { arity, import, .. } => check_external(
            parsed,
            resolved,
            arity,
            import,
        ),
        Instruction::Bif { op, operands } => check_bif(parsed, resolved, *op, operands),
        Instruction::CallFun { arity } => check_arity(arity),
        Instruction::CallFun2 { arity, .. } => check_arity(arity),
        Instruction::Apply { arity } => check_arity(arity),
        Instruction::ApplyLast { arity, .. } => check_arity(arity),
        _ => None,
    }
}

fn instruction_error(index: usize, instruction: &Instruction, complaint: &Complaint) -> (r:
    LoadError)
    ensures
        r@ == instruction_fault(
            index as int,
            instruction.view(),
            Flaw { operand: complaint.operand@, reason: complaint.reason@ },
        ),
{
    let mut text = "instruction ".to_owned();
    text.append(decimal_u64(index as u64).as_str());
    text.append(": ");
    text.append(opcode_name(instruction).as_str());
    text.append(": operand ");
    text.append(complaint.operand.as_str());
    text.append(": ");
    text.append(complaint.reason);
    LoadError::DecodeError(text)
}

/// Validates the operands of a module's instructions. The error names the first
/// instruction that fails, the operand, and why.
pub fn validate_module(parsed: &ParsedModule, resolved: &Vec<Option<ResolvedImport>>) -> (r:
    Result<(), LoadError>)
    ensures
        r is Ok <==> operands_are_valid(parsed@, resolved@),
        outcome(r) == validation(parsed@, resolved@),
{
    let tables = tables_of(parsed);
    proof {
        law_validation_names_the_first(parsed@, resolved@);
    }
    let mut i: usize = 0;
    while i < parsed.instructions.len()
        invariant
            tables.are_of(parsed@),
            validation(parsed@, resolved@) is Ok <==> operands_are_valid(parsed@, resolved@),
            i <= parsed.instructions@.len(),
            first_fault(parsed@, resolved@, i as nat) is None,
        decreases parsed.instructions@.len() - i,
    {
        let instruction = &parsed.instructions[i];
        assert(parsed@.instructions[i as int] == instruction.view());
        let complaint = match check_operands(&tables, Ghost(parsed@), instruction) {
            Some(complaint) => Some(complaint),
            None => check_form(&tables, parsed, resolved, instruction),
        };
        match complaint {
            Some(complaint) => {
                proof {
                    lemma_fault_stays(
                        parsed@,
                        resolved@,
                        (i + 1) as nat,
                        parsed@.instructions.len(),
                    );
                }
                return Err(instruction_error(i, instruction, &complaint));
            },
            None => {},
        }
        i += 1;
    }
    Ok(())
}

} // verus!

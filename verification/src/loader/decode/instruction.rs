//! Decoded instructions.

use vstd::prelude::*;
use crate::error::LoadFault;
use super::compact::{copy_operands, label_number, operand_views, Operand, OperandView};

verus! {

/// A decoded instruction.
#[derive(Debug, PartialEq, Eq)]
#[allow(inconsistent_fields)]
pub enum Instruction {
    Label { label: u32 },
    FuncInfo { module: Operand, function: Operand, arity: Operand },
    Move { source: Operand, destination: Operand },
    Call { arity: Operand, label: Operand },
    CallOnly { arity: Operand, label: Operand },
    CallExt { arity: Operand, import: Operand },
    CallExtOnly { arity: Operand, import: Operand },
    Fmove { source: Operand, dest: Operand },
    Fconv { source: Operand, dest: Operand },
    Fadd { fail: Operand, left: Operand, right: Operand, dest: Operand },
    Fsub { fail: Operand, left: Operand, right: Operand, dest: Operand },
    Fmul { fail: Operand, left: Operand, right: Operand, dest: Operand },
    Fdiv { fail: Operand, left: Operand, right: Operand, dest: Operand },
    Fnegate { fail: Operand, source: Operand, dest: Operand },
    CallLast { arity: Operand, label: Operand, deallocate: Operand },
    CallExtLast { arity: Operand, import: Operand, deallocate: Operand },
    Return,
    Allocate { stack_need: Operand, live: Operand },
    AllocateHeap { stack_need: Operand, heap_need: Operand, live: Operand },
    AllocateZero { stack_need: Operand, live: Operand },
    Deallocate { words: Operand },
    TestHeap { heap_need: Operand, live: Operand },
    PutList { head: Operand, tail: Operand, destination: Operand },
    PutTuple2 { destination: Operand, elements: Operand },
    GetTupleElement { source: Operand, index: Operand, destination: Operand },
    GetList { source: Operand, head: Operand, tail: Operand },
    GetHd { source: Operand, destination: Operand },
    GetTl { source: Operand, destination: Operand },
    TypeTest { op: TypeTestOp, fail: Operand, value: Operand },
    Comparison { op: ComparisonOp, fail: Operand, left: Operand, right: Operand },
    TestArity { fail: Operand, tuple: Operand, arity: Operand },
    IsTaggedTuple { fail: Operand, value: Operand, arity: Operand, tag: Operand },
    SelectVal { value: Operand, fail: Operand, list: Operand },
    SelectTupleArity { value: Operand, fail: Operand, list: Operand },
    Jump { target: Operand },
    Bif { op: BifOp, operands: Vec<Operand> },
    Send,
    RemoveMessage,
    Timeout,
    LoopRec { fail: Operand, destination: Operand },
    LoopRecEnd { fail: Operand },
    Wait { fail: Operand },
    WaitTimeout { fail: Operand, timeout: Operand },
    Catch { destination: Operand, label: Operand },
    CatchEnd { source: Operand },
    Try { destination: Operand, label: Operand },
    TryEnd { source: Operand },
    TryCase { source: Operand },
    TryCaseEnd { source: Operand },
    BinaryOp { op: BinaryOp, operands: Vec<Operand> },
    MapOp { op: MapOp, operands: Vec<Operand> },
    MakeFun { operands: Vec<Operand> },
    CallFun { arity: Operand },
    CallFun2 { function: Operand, arity: Operand, destination: Operand },
    Apply { arity: Operand },
    ApplyLast { arity: Operand, deallocate: Operand },
    Badmatch { value: Operand },
    Badrecord { value: Operand },
    CaseEnd { value: Operand },
    IfEnd,
    Raise { stacktrace: Operand, reason: Operand },
    RawRaise,
    Line { index: Operand },
    Trim { words: Operand, remaining: Operand },
    OnLoad,
    BuildStacktrace,
    Swap { left: Operand, right: Operand },
    InitYregs { registers: Operand },
    NifStart,
    UpdateRecord { operands: Vec<Operand> },
    RecvMarkerReserve { dest: Operand },
    RecvMarkerBind { marker: Operand, label: Operand },
    RecvMarkerClear { marker: Operand },
    RecvMarkerUse { marker: Operand },
    Generic { opcode: u8, name: &'static str, operands: Vec<Operand> },
}

/// Which type a type test asks for.
#[derive(Debug, Clone, Copy, PartialEq, Eq, Structural)]
pub enum TypeTestOp {
    IsInteger,
    IsFloat,
    IsNumber,
    IsAtom,
    IsPid,
    IsReference,
    IsPort,
    IsNil,
    IsBinary,
    IsList,
    IsNonemptyList,
    IsTuple,
    IsFunction,
    IsBoolean,
    IsFunction2,
    IsBitstr,
    IsMap,
}

/// Which comparison an instruction makes.
#[derive(Debug, Clone, Copy, PartialEq, Eq, Structural)]
pub enum ComparisonOp {
    Lt,
    Ge,
    Eq,
    Ne,
    EqExact,
    NeExact,
}

/// Which form of built-in call an instruction is.
#[derive(Debug, Clone, Copy, PartialEq, Eq, Structural)]
pub enum BifOp {
    Bif0,
    Bif1,
    Bif2,
    GcBif1,
    GcBif2,
    GcBif3,
}

/// Which binary operation an instruction is.
#[derive(Debug, Clone, Copy, PartialEq, Eq, Structural)]
pub enum BinaryOp {
    BsGetInteger2,
    BsGetFloat2,
    BsGetBinary2,
    BsSkipBits2,
    BsTestTail2,
    BsTestUnit,
    BsMatchString,
    BsInitWritable,
    BsGetUtf8,
    BsSkipUtf8,
    BsGetUtf16,
    BsSkipUtf16,
    BsGetUtf32,
    BsSkipUtf32,
    BsGetTail,
    BsStartMatch3,
    BsGetPosition,
    BsSetPosition,
    BsStartMatch4,
    BsCreateBin,
    BsMatch,
}

/// Which map operation an instruction is.
#[derive(Debug, Clone, Copy, PartialEq, Eq, Structural)]
pub enum MapOp {
    PutMapAssoc,
    PutMapExact,
    HasMapFields,
    GetMapElements,
}

/// The opcode of each [`TypeTestOp`].
pub open spec fn type_test_code(op: TypeTestOp) -> u8 {
    match op {
        TypeTestOp::IsInteger => 45,
        TypeTestOp::IsFloat => 46,
        TypeTestOp::IsNumber => 47,
        TypeTestOp::IsAtom => 48,
        TypeTestOp::IsPid => 49,
        TypeTestOp::IsReference => 50,
        TypeTestOp::IsPort => 51,
        TypeTestOp::IsNil => 52,
        TypeTestOp::IsBinary => 53,
        TypeTestOp::IsList => 55,
        TypeTestOp::IsNonemptyList => 56,
        TypeTestOp::IsTuple => 57,
        TypeTestOp::IsFunction => 77,
        TypeTestOp::IsBoolean => 114,
        TypeTestOp::IsFunction2 => 115,
        TypeTestOp::IsBitstr => 129,
        TypeTestOp::IsMap => 156,
    }
}

/// The opcode of each [`ComparisonOp`].
pub open spec fn comparison_code(op: ComparisonOp) -> u8 {
    match op {
        ComparisonOp::Lt => 39,
        ComparisonOp::Ge => 40,
        ComparisonOp::Eq => 41,
        ComparisonOp::Ne => 42,
        ComparisonOp::EqExact => 43,
        ComparisonOp::NeExact => 44,
    }
}

/// The opcode of each [`BifOp`].
pub open spec fn bif_code(op: BifOp) -> u8 {
    match op {
        BifOp::Bif0 => 9,
        BifOp::Bif1 => 10,
        BifOp::Bif2 => 11,
        BifOp::GcBif1 => 124,
        BifOp::GcBif2 => 125,
        BifOp::GcBif3 => 152,
    }
}

/// The opcode of each [`BinaryOp`].
pub open spec fn binary_code(op: BinaryOp) -> u8 {
    match op {
        BinaryOp::BsGetInteger2 => 117,
        BinaryOp::BsGetFloat2 => 118,
        BinaryOp::BsGetBinary2 => 119,
        BinaryOp::BsSkipBits2 => 120,
        BinaryOp::BsTestTail2 => 121,
        BinaryOp::BsTestUnit => 131,
        BinaryOp::BsMatchString => 132,
        BinaryOp::BsInitWritable => 133,
        BinaryOp::BsGetUtf8 => 138,
        BinaryOp::BsSkipUtf8 => 139,
        BinaryOp::BsGetUtf16 => 140,
        BinaryOp::BsSkipUtf16 => 141,
        BinaryOp::BsGetUtf32 => 142,
        BinaryOp::BsSkipUtf32 => 143,
        BinaryOp::BsGetTail => 165,
        BinaryOp::BsStartMatch3 => 166,
        BinaryOp::BsGetPosition => 167,
        BinaryOp::BsSetPosition => 168,
        BinaryOp::BsStartMatch4 => 170,
        BinaryOp::BsCreateBin => 177,
        BinaryOp::BsMatch => 182,
    }
}

/// The opcode of each [`MapOp`].
pub open spec fn map_code(op: MapOp) -> u8 {
    match op {
        MapOp::PutMapAssoc => 154,
        MapOp::PutMapExact => 155,
        MapOp::HasMapFields => 157,
        MapOp::GetMapElements => 158,
    }
}

/// The name of an instruction that is kept in general form.
pub open spec fn generic_name(opcode: u8) -> Option<Seq<char>> {
    if opcode == 67 {
        Some("set_tuple_element"@)
    } else if opcode == 96 {
        Some("fmove"@)
    } else if opcode == 97 {
        Some("fconv"@)
    } else if opcode == 98 {
        Some("fadd"@)
    } else if opcode == 99 {
        Some("fsub"@)
    } else if opcode == 100 {
        Some("fmul"@)
    } else if opcode == 101 {
        Some("fdiv"@)
    } else if opcode == 102 {
        Some("fnegate"@)
    } else if opcode == 183 {
        Some("executable_line"@)
    } else if opcode == 184 {
        Some("debug_line"@)
    } else {
        None
    }
}

/// Whether `operands` are the one operand given.
pub open spec fn are1(operands: Seq<OperandView>, a: Operand) -> bool {
    operands.len() == 1 && operands[0] == a.view()
}

/// Whether `operands` are the two operands given, in order.
pub open spec fn are2(operands: Seq<OperandView>, a: Operand, b: Operand) -> bool {
    operands.len() == 2 && operands[0] == a.view() && operands[1] == b.view()
}

/// Whether `operands` are the three operands given, in order.
pub open spec fn are3(operands: Seq<OperandView>, a: Operand, b: Operand, c: Operand) -> bool {
    &&& operands.len() == 3
    &&& operands[0] == a.view()
    &&& operands[1] == b.view()
    &&& operands[2] == c.view()
}

/// Whether `operands` are the four operands given, in order.
pub open spec fn are4(
    operands: Seq<OperandView>,
    a: Operand,
    b: Operand,
    c: Operand,
    d: Operand,
) -> bool {
    &&& operands.len() == 4
    &&& operands[0] == a.view()
    &&& operands[1] == b.view()
    &&& operands[2] == c.view()
    &&& operands[3] == d.view()
}

/// Whether `instruction` is what `opcode` with the given operands stands for.
///
/// A label instruction holds the number that its operand stands for. The other
/// instructions hold their operands in order; a type test holds the first two.
pub open spec fn encodes(instruction: Instruction, opcode: u8, operands: Seq<OperandView>) -> bool {
    match instruction {
        Instruction::Label { label } => opcode == 1 && label_number(operands[0]) == Ok::<u32, LoadFault>(label),
        Instruction::FuncInfo { module, function, arity } => opcode == 2 && are3(operands, module, function, arity),
        Instruction::Move { source, destination } => opcode == 64 && are2(operands, source, destination),
        Instruction::Call { arity, label } => opcode == 4 && are2(operands, arity, label),
        Instruction::CallOnly { arity, label } => opcode == 6 && are2(operands, arity, label),
        Instruction::CallExt { arity, import } => opcode == 7 && are2(operands, arity, import),
        Instruction::CallExtOnly { arity, import } => opcode == 78 && are2(operands, arity, import),
        Instruction::Fmove { .. } => false,
        Instruction::Fconv { .. } => false,
        Instruction::Fadd { .. } => false,
        Instruction::Fsub { .. } => false,
        Instruction::Fmul { .. } => false,
        Instruction::Fdiv { .. } => false,
        Instruction::Fnegate { .. } => false,
        Instruction::CallLast { arity, label, deallocate } => opcode == 5 && are3(operands, arity, label, deallocate),
        Instruction::CallExtLast { arity, import, deallocate } => opcode == 8 && are3(operands, arity, import, deallocate),
        Instruction::Return => opcode == 19,
        Instruction::Allocate { stack_need, live } => opcode == 12 && are2(operands, stack_need, live),
        Instruction::AllocateHeap { stack_need, heap_need, live } => opcode == 13 && are3(operands, stack_need, heap_need, live),
        Instruction::AllocateZero { stack_need, live } => opcode == 14 && are2(operands, stack_need, live),
        Instruction::Deallocate { words } => opcode == 18 && are1(operands, words),
        Instruction::TestHeap { heap_need, live } => opcode == 16 && are2(operands, heap_need, live),
        Instruction::PutList { head, tail, destination } => opcode == 69 && are3(operands, head, tail, destination),
        Instruction::PutTuple2 { destination, elements } => opcode == 164 && are2(operands, destination, elements),
        Instruction::GetTupleElement { source, index, destination } => opcode == 66 && are3(operands, source, index, destination),
        Instruction::GetList { source, head, tail } => opcode == 65 && are3(operands, source, head, tail),
        Instruction::GetHd { source, destination } => opcode == 162 && are2(operands, source, destination),
        Instruction::GetTl { source, destination } => opcode == 163 && are2(operands, source, destination),
        Instruction::TypeTest { op, fail, value } => opcode == type_test_code(op) && fail.view() == operands[0] && value.view() == operands[1],
        Instruction::Comparison { op, fail, left, right } => opcode == comparison_code(op) && are3(operands, fail, left, right),
        Instruction::TestArity { fail, tuple, arity } => opcode == 58 && are3(operands, fail, tuple, arity),
        Instruction::IsTaggedTuple { fail, value, arity, tag } => opcode == 159 && are4(operands, fail, value, arity, tag),
        Instruction::SelectVal { value, fail, list } => opcode == 59 && are3(operands, value, fail, list),
        Instruction::SelectTupleArity { value, fail, list } => opcode == 60 && are3(operands, value, fail, list),
        Instruction::Jump { target } => opcode == 61 && are1(operands, target),
        Instruction::Bif { op, operands: held } => opcode == bif_code(op) && operands == operand_views(held@),
        Instruction::Send => opcode == 20,
        Instruction::RemoveMessage => opcode == 21,
        Instruction::Timeout => opcode == 22,
        Instruction::LoopRec { fail, destination } => opcode == 23 && are2(operands, fail, destination),
        Instruction::LoopRecEnd { fail } => opcode == 24 && are1(operands, fail),
        Instruction::Wait { fail } => opcode == 25 && are1(operands, fail),
        Instruction::WaitTimeout { fail, timeout } => opcode == 26 && are2(operands, fail, timeout),
        Instruction::Catch { destination, label } => opcode == 62 && are2(operands, destination, label),
        Instruction::CatchEnd { source } => opcode == 63 && are1(operands, source),
        Instruction::Try { destination, label } => opcode == 104 && are2(operands, destination, label),
        Instruction::TryEnd { source } => opcode == 105 && are1(operands, source),
        Instruction::TryCase { source } => opcode == 106 && are1(operands, source),
        Instruction::TryCaseEnd { source } => opcode == 107 && are1(operands, source),
        Instruction::BinaryOp { op, operands: held } => opcode == binary_code(op) && operands == operand_views(held@),
        Instruction::MapOp { op, operands: held } => opcode == map_code(op) && operands == operand_views(held@),
        Instruction::MakeFun { operands: held } => (opcode == 103 || opcode == 171) && operands == operand_views(held@),
        Instruction::CallFun { arity } => opcode == 75 && are1(operands, arity),
        Instruction::CallFun2 { function, arity, destination } => opcode == 178 && are3(operands, function, arity, destination),
        Instruction::Apply { arity } => opcode == 112 && are1(operands, arity),
        Instruction::ApplyLast { arity, deallocate } => opcode == 113 && are2(operands, arity, deallocate),
        Instruction::Badmatch { value } => opcode == 72 && are1(operands, value),
        Instruction::Badrecord { value } => opcode == 180 && are1(operands, value),
        Instruction::CaseEnd { value } => opcode == 74 && are1(operands, value),
        Instruction::IfEnd => opcode == 73,
        Instruction::Raise { stacktrace, reason } => opcode == 108 && are2(operands, stacktrace, reason),
        Instruction::RawRaise => opcode == 161,
        Instruction::Line { index } => opcode == 153 && are1(operands, index),
        Instruction::Trim { words, remaining } => opcode == 136 && are2(operands, words, remaining),
        Instruction::OnLoad => opcode == 149,
        Instruction::BuildStacktrace => opcode == 160,
        Instruction::Swap { left, right } => opcode == 169 && are2(operands, left, right),
        Instruction::InitYregs { registers } => opcode == 172 && are1(operands, registers),
        Instruction::NifStart => opcode == 179,
        Instruction::UpdateRecord { operands: held } => opcode == 181 && operands == operand_views(held@),
        Instruction::RecvMarkerReserve { dest } => opcode == 173 && are1(operands, dest),
        Instruction::RecvMarkerBind { marker, label } => opcode == 174 && are2(operands, marker, label),
        Instruction::RecvMarkerClear { marker } => opcode == 175 && are1(operands, marker),
        Instruction::RecvMarkerUse { marker } => opcode == 176 && are1(operands, marker),
        Instruction::Generic { opcode: code, name, operands: held } => opcode == code && generic_name(opcode) == Some(name@) && operands == operand_views(held@),
    }
}

/// The opcode that is held against a module's declared maximum: that of the
/// instructions listed here, and of no other.
pub open spec fn checked_opcode(instruction: Instruction) -> Option<u8> {
    match instruction {
        Instruction::Label { .. } => Some(1u8),
        Instruction::FuncInfo { .. } => Some(2u8),
        Instruction::Call { .. } => Some(4u8),
        Instruction::CallLast { .. } => Some(5u8),
        Instruction::CallOnly { .. } => Some(6u8),
        Instruction::CallExt { .. } => Some(7u8),
        Instruction::CallExtLast { .. } => Some(8u8),
        Instruction::CallExtOnly { .. } => Some(78u8),
        Instruction::Fmove { .. } => Some(96u8),
        Instruction::Fconv { .. } => Some(97u8),
        Instruction::Fadd { .. } => Some(98u8),
        Instruction::Fsub { .. } => Some(99u8),
        Instruction::Fmul { .. } => Some(100u8),
        Instruction::Fdiv { .. } => Some(101u8),
        Instruction::Fnegate { .. } => Some(102u8),
        Instruction::IsTaggedTuple { .. } => Some(159u8),
        Instruction::RecvMarkerReserve { .. } => Some(173u8),
        Instruction::RecvMarkerBind { .. } => Some(174u8),
        Instruction::RecvMarkerClear { .. } => Some(175u8),
        Instruction::RecvMarkerUse { .. } => Some(176u8),
        Instruction::Generic { opcode, .. } => Some(opcode),
        _ => None,
    }
}

/// The opcodes that are held against a module's declared maximum.
pub open spec fn is_checked(opcode: u8) -> bool {
    opcode == 1 || opcode == 2 || (4 <= opcode <= 8) || opcode == 78 || opcode == 159 || (173
        <= opcode <= 176) || generic_name(opcode) is Some
}

/// Which opcodes are checked does not depend on the operands.
pub proof fn lemma_checked_opcode(
    instruction: Instruction,
    opcode: u8,
    operands: Seq<OperandView>,
)
    requires
        encodes(instruction, opcode, operands),
    ensures
        checked_opcode(instruction) == if is_checked(opcode) {
            Some(opcode)
        } else {
            None
        },
{
}

/// The opcode that is held against a module's declared maximum, if any.
pub fn instruction_opcode(instruction: &Instruction) -> (r: Option<u8>)
    ensures
        r == checked_opcode(*instruction),
{
    match instruction {
        Instruction::Label { .. } => Some(1),
        Instruction::FuncInfo { .. } => Some(2),
        Instruction::Call { .. } => Some(4),
        Instruction::CallLast { .. } => Some(5),
        Instruction::CallOnly { .. } => Some(6),
        Instruction::CallExt { .. } => Some(7),
        Instruction::CallExtLast { .. } => Some(8),
        Instruction::CallExtOnly { .. } => Some(78),
        Instruction::Fmove { .. } => Some(96),
        Instruction::Fconv { .. } => Some(97),
        Instruction::Fadd { .. } => Some(98),
        Instruction::Fsub { .. } => Some(99),
        Instruction::Fmul { .. } => Some(100),
        Instruction::Fdiv { .. } => Some(101),
        Instruction::Fnegate { .. } => Some(102),
        Instruction::IsTaggedTuple { .. } => Some(159),
        Instruction::RecvMarkerReserve { .. } => Some(173),
        Instruction::RecvMarkerBind { .. } => Some(174),
        Instruction::RecvMarkerClear { .. } => Some(175),
        Instruction::RecvMarkerUse { .. } => Some(176),
        Instruction::Generic { opcode, .. } => Some(*opcode),
        _ => None,
    }
}

/// An [`Instruction`] with views in place of operands.
#[verifier::ext_equal]
#[allow(inconsistent_fields)]
pub enum InstructionView {
    Label { label: u32 },
    FuncInfo { module: OperandView, function: OperandView, arity: OperandView },
    Move { source: OperandView, destination: OperandView },
    Call { arity: OperandView, label: OperandView },
    CallOnly { arity: OperandView, label: OperandView },
    CallExt { arity: OperandView, import: OperandView },
    CallExtOnly { arity: OperandView, import: OperandView },
    Fmove { source: OperandView, dest: OperandView },
    Fconv { source: OperandView, dest: OperandView },
    Fadd { fail: OperandView, left: OperandView, right: OperandView, dest: OperandView },
    Fsub { fail: OperandView, left: OperandView, right: OperandView, dest: OperandView },
    Fmul { fail: OperandView, left: OperandView, right: OperandView, dest: OperandView },
    Fdiv { fail: OperandView, left: OperandView, right: OperandView, dest: OperandView },
    Fnegate { fail: OperandView, source: OperandView, dest: OperandView },
    CallLast { arity: OperandView, label: OperandView, deallocate: OperandView },
    CallExtLast { arity: OperandView, import: OperandView, deallocate: OperandView },
    Return,
    Allocate { stack_need: OperandView, live: OperandView },
    AllocateHeap { stack_need: OperandView, heap_need: OperandView, live: OperandView },
    AllocateZero { stack_need: OperandView, live: OperandView },
    Deallocate { words: OperandView },
    TestHeap { heap_need: OperandView, live: OperandView },
    PutList { head: OperandView, tail: OperandView, destination: OperandView },
    PutTuple2 { destination: OperandView, elements: OperandView },
    GetTupleElement { source: OperandView, index: OperandView, destination: OperandView },
    GetList { source: OperandView, head: OperandView, tail: OperandView },
    GetHd { source: OperandView, destination: OperandView },
    GetTl { source: OperandView, destination: OperandView },
    TypeTest { op: TypeTestOp, fail: OperandView, value: OperandView },
    Comparison { op: ComparisonOp, fail: OperandView, left: OperandView, right: OperandView },
    TestArity { fail: OperandView, tuple: OperandView, arity: OperandView },
    IsTaggedTuple { fail: OperandView, value: OperandView, arity: OperandView, tag: OperandView },
    SelectVal { value: OperandView, fail: OperandView, list: OperandView },
    SelectTupleArity { value: OperandView, fail: OperandView, list: OperandView },
    Jump { target: OperandView },
    Bif { op: BifOp, operands: Seq<OperandView> },
    Send,
    RemoveMessage,
    Timeout,
    LoopRec { fail: OperandView, destination: OperandView },
    LoopRecEnd { fail: OperandView },
    Wait { fail: OperandView },
    WaitTimeout { fail: OperandView, timeout: OperandView },
    Catch { destination: OperandView, label: OperandView },
    CatchEnd { source: OperandView },
    Try { destination: OperandView, label: OperandView },
    TryEnd { source: OperandView },
    TryCase { source: OperandView },
    TryCaseEnd { source: OperandView },
    BinaryOp { op: BinaryOp, operands: Seq<OperandView> },
    MapOp { op: MapOp, operands: Seq<OperandView> },
    MakeFun { operands: Seq<OperandView> },
    CallFun { arity: OperandView },
    CallFun2 { function: OperandView, arity: OperandView, destination: OperandView },
    Apply { arity: OperandView },
    ApplyLast { arity: OperandView, deallocate: OperandView },
    Badmatch { value: OperandView },
    Badrecord { value: OperandView },
    CaseEnd { value: OperandView },
    IfEnd,
    Raise { stacktrace: OperandView, reason: OperandView },
    RawRaise,
    Line { index: OperandView },
    Trim { words: OperandView, remaining: OperandView },
    OnLoad,
    BuildStacktrace,
    Swap { left: OperandView, right: OperandView },
    InitYregs { registers: OperandView },
    NifStart,
    UpdateRecord { operands: Seq<OperandView> },
    RecvMarkerReserve { dest: OperandView },
    RecvMarkerBind { marker: OperandView, label: OperandView },
    RecvMarkerClear { marker: OperandView },
    RecvMarkerUse { marker: OperandView },
    Generic { opcode: u8, name: Seq<char>, operands: Seq<OperandView> },
}

impl Instruction {
    pub open spec fn view(&self) -> InstructionView {
        match self {
            Instruction::Label { label } => InstructionView::Label { label: *label },
            Instruction::FuncInfo { module, function, arity } => InstructionView::FuncInfo { module: module.view(), function: function.view(), arity: arity.view() },
            Instruction::Move { source, destination } => InstructionView::Move { source: source.view(), destination: destination.view() },
            Instruction::Call { arity, label } => InstructionView::Call { arity: arity.view(), label: label.view() },
            Instruction::CallOnly { arity, label } => InstructionView::CallOnly { arity: arity.view(), label: label.view() },
            Instruction::CallExt { arity, import } => InstructionView::CallExt { arity: arity.view(), import: import.view() },
            Instruction::CallExtOnly { arity, import } => InstructionView::CallExtOnly { arity: arity.view(), import: import.view() },
            Instruction::Fmove { source, dest } => InstructionView::Fmove { source: source.view(), dest: dest.view() },
            Instruction::Fconv { source, dest } => InstructionView::Fconv { source: source.view(), dest: dest.view() },
            Instruction::Fadd { fail, left, right, dest } => InstructionView::Fadd { fail: fail.view(), left: left.view(), right: right.view(), dest: dest.view() },
            Instruction::Fsub { fail, left, right, dest } => InstructionView::Fsub { fail: fail.view(), left: left.view(), right: right.view(), dest: dest.view() },
            Instruction::Fmul { fail, left, right, dest } => InstructionView::Fmul { fail: fail.view(), left: left.view(), right: right.view(), dest: dest.view() },
            Instruction::Fdiv { fail, left, right, dest } => InstructionView::Fdiv { fail: fail.view(), left: left.view(), right: right.view(), dest: dest.view() },
            Instruction::Fnegate { fail, source, dest } => InstructionView::Fnegate { fail: fail.view(), source: source.view(), dest: dest.view() },
            Instruction::CallLast { arity, label, deallocate } => InstructionView::CallLast { arity: arity.view(), label: label.view(), deallocate: deallocate.view() },
            Instruction::CallExtLast { arity, import, deallocate } => InstructionView::CallExtLast { arity: arity.view(), import: import.view(), deallocate: deallocate.view() },
            Instruction::Return => InstructionView::Return,
            Instruction::Allocate { stack_need, live } => InstructionView::Allocate { stack_need: stack_need.view(), live: live.view() },
            Instruction::AllocateHeap { stack_need, heap_need, live } => InstructionView::AllocateHeap { stack_need: stack_need.view(), heap_need: heap_need.view(), live: live.view() },
            Instruction::AllocateZero { stack_need, live } => InstructionView::AllocateZero { stack_need: stack_need.view(), live: live.view() },
            Instruction::Deallocate { words } => InstructionView::Deallocate { words: words.view() },
            Instruction::TestHeap { heap_need, live } => InstructionView::TestHeap { heap_need: heap_need.view(), live: live.view() },
            Instruction::PutList { head, tail, destination } => InstructionView::PutList { head: head.view(), tail: tail.view(), destination: destination.view() },
            Instruction::PutTuple2 { destination, elements } => InstructionView::PutTuple2 { destination: destination.view(), elements: elements.view() },
            Instruction::GetTupleElement { source, index, destination } => InstructionView::GetTupleElement { source: source.view(), index: index.view(), destination: destination.view() },
            Instruction::GetList { source, head, tail } => InstructionView::GetList { source: source.view(), head: head.view(), tail: tail.view() },
            Instruction::GetHd { source, destination } => InstructionView::GetHd { source: source.view(), destination: destination.view() },
            Instruction::GetTl { source, destination } => InstructionView::GetTl { source: source.view(), destination: destination.view() },
            Instruction::TypeTest { op, fail, value } => InstructionView::TypeTest { op: *op, fail: fail.view(), value: value.view() },
            Instruction::Comparison { op, fail, left, right } => InstructionView::Comparison { op: *op, fail: fail.view(), left: left.view(), right: right.view() },
            Instruction::TestArity { fail, tuple, arity } => InstructionView::TestArity { fail: fail.view(), tuple: tuple.view(), arity: arity.view() },
            Instruction::IsTaggedTuple { fail, value, arity, tag } => InstructionView::IsTaggedTuple { fail: fail.view(), value: value.view(), arity: arity.view(), tag: tag.view() },
            Instruction::SelectVal { value, fail, list } => InstructionView::SelectVal { value: value.view(), fail: fail.view(), list: list.view() },
            Instruction::SelectTupleArity { value, fail, list } => InstructionView::SelectTupleArity { value: value.view(), fail: fail.view(), list: list.view() },
            Instruction::Jump { target } => InstructionView::Jump { target: target.view() },
            Instruction::Bif { op, operands } => InstructionView::Bif { op: *op, operands: operand_views(operands@) },
            Instruction::Send => InstructionView::Send,
            Instruction::RemoveMessage => InstructionView::RemoveMessage,
            Instruction::Timeout => InstructionView::Timeout,
            Instruction::LoopRec { fail, destination } => InstructionView::LoopRec { fail: fail.view(), destination: destination.view() },
            Instruction::LoopRecEnd { fail } => InstructionView::LoopRecEnd { fail: fail.view() },
            Instruction::Wait { fail } => InstructionView::Wait { fail: fail.view() },
            Instruction::WaitTimeout { fail, timeout } => InstructionView::WaitTimeout { fail: fail.view(), timeout: timeout.view() },
            Instruction::Catch { destination, label } => InstructionView::Catch { destination: destination.view(), label: label.view() },
            Instruction::CatchEnd { source } => InstructionView::CatchEnd { source: source.view() },
            Instruction::Try { destination, label } => InstructionView::Try { destination: destination.view(), label: label.view() },
            Instruction::TryEnd { source } => InstructionView::TryEnd { source: source.view() },
            Instruction::TryCase { source } => InstructionView::TryCase { source: source.view() },
            Instruction::TryCaseEnd { source } => InstructionView::TryCaseEnd { source: source.view() },
            Instruction::BinaryOp { op, operands } => InstructionView::BinaryOp { op: *op, operands: operand_views(operands@) },
            Instruction::MapOp { op, operands } => InstructionView::MapOp { op: *op, operands: operand_views(operands@) },
            Instruction::MakeFun { operands } => InstructionView::MakeFun { operands: operand_views(operands@) },
            Instruction::CallFun { arity } => InstructionView::CallFun { arity: arity.view() },
            Instruction::CallFun2 { function, arity, destination } => InstructionView::CallFun2 { function: function.view(), arity: arity.view(), destination: destination.view() },
            Instruction::Apply { arity } => InstructionView::Apply { arity: arity.view() },
            Instruction::ApplyLast { arity, deallocate } => InstructionView::ApplyLast { arity: arity.view(), deallocate: deallocate.view() },
            Instruction::Badmatch { value } => InstructionView::Badmatch { value: value.view() },
            Instruction::Badrecord { value } => InstructionView::Badrecord { value: value.view() },
            Instruction::CaseEnd { value } => InstructionView::CaseEnd { value: value.view() },
            Instruction::IfEnd => InstructionView::IfEnd,
            Instruction::Raise { stacktrace, reason } => InstructionView::Raise { stacktrace: stacktrace.view(), reason: reason.view() },
            Instruction::RawRaise => InstructionView::RawRaise,
            Instruction::Line { index } => InstructionView::Line { index: index.view() },
            Instruction::Trim { words, remaining } => InstructionView::Trim { words: words.view(), remaining: remaining.view() },
            Instruction::OnLoad => InstructionView::OnLoad,
            Instruction::BuildStacktrace => InstructionView::BuildStacktrace,
            Instruction::Swap { left, right } => InstructionView::Swap { left: left.view(), right: right.view() },
            Instruction::InitYregs { registers } => InstructionView::InitYregs { registers: registers.view() },
            Instruction::NifStart => InstructionView::NifStart,
            Instruction::UpdateRecord { operands } => InstructionView::UpdateRecord { operands: operand_views(operands@) },
            Instruction::RecvMarkerReserve { dest } => InstructionView::RecvMarkerReserve { dest: dest.view() },
            Instruction::RecvMarkerBind { marker, label } => InstructionView::RecvMarkerBind { marker: marker.view(), label: label.view() },
            Instruction::RecvMarkerClear { marker } => InstructionView::RecvMarkerClear { marker: marker.view() },
            Instruction::RecvMarkerUse { marker } => InstructionView::RecvMarkerUse { marker: marker.view() },
            Instruction::Generic { opcode, name, operands } => InstructionView::Generic { opcode: *opcode, name: name@, operands: operand_views(operands@) },
        }
    }
}

impl Clone for Instruction {
    fn clone(&self) -> (r: Self)
        ensures
            r.view() == self.view(),
    {
        match self {
            Instruction::Label { label } => Instruction::Label { label: *label },
            Instruction::FuncInfo { module, function, arity } => Instruction::FuncInfo { module: module.clone(), function: function.clone(), arity: arity.clone() },
            Instruction::Move { source, destination } => Instruction::Move { source: source.clone(), destination: destination.clone() },
            Instruction::Call { arity, label } => Instruction::Call { arity: arity.clone(), label: label.clone() },
            Instruction::CallOnly { arity, label } => Instruction::CallOnly { arity: arity.clone(), label: label.clone() },
            Instruction::CallExt { arity, import } => Instruction::CallExt { arity: arity.clone(), import: import.clone() },
            Instruction::CallExtOnly { arity, import } => Instruction::CallExtOnly { arity: arity.clone(), import: import.clone() },
            Instruction::Fmove { source, dest } => Instruction::Fmove { source: source.clone(), dest: dest.clone() },
            Instruction::Fconv { source, dest } => Instruction::Fconv { source: source.clone(), dest: dest.clone() },
            Instruction::Fadd { fail, left, right, dest } => Instruction::Fadd { fail: fail.clone(), left: left.clone(), right: right.clone(), dest: dest.clone() },
            Instruction::Fsub { fail, left, right, dest } => Instruction::Fsub { fail: fail.clone(), left: left.clone(), right: right.clone(), dest: dest.clone() },
            Instruction::Fmul { fail, left, right, dest } => Instruction::Fmul { fail: fail.clone(), left: left.clone(), right: right.clone(), dest: dest.clone() },
            Instruction::Fdiv { fail, left, right, dest } => Instruction::Fdiv { fail: fail.clone(), left: left.clone(), right: right.clone(), dest: dest.clone() },
            Instruction::Fnegate { fail, source, dest } => Instruction::Fnegate { fail: fail.clone(), source: source.clone(), dest: dest.clone() },
            Instruction::CallLast { arity, label, deallocate } => Instruction::CallLast { arity: arity.clone(), label: label.clone(), deallocate: deallocate.clone() },
            Instruction::CallExtLast { arity, import, deallocate } => Instruction::CallExtLast { arity: arity.clone(), import: import.clone(), deallocate: deallocate.clone() },
            Instruction::Return => Instruction::Return,
            Instruction::Allocate { stack_need, live } => Instruction::Allocate { stack_need: stack_need.clone(), live: live.clone() },
            Instruction::AllocateHeap { stack_need, heap_need, live } => Instruction::AllocateHeap { stack_need: stack_need.clone(), heap_need: heap_need.clone(), live: live.clone() },
            Instruction::AllocateZero { stack_need, live } => Instruction::AllocateZero { stack_need: stack_need.clone(), live: live.clone() },
            Instruction::Deallocate { words } => Instruction::Deallocate { words: words.clone() },
            Instruction::TestHeap { heap_need, live } => Instruction::TestHeap { heap_need: heap_need.clone(), live: live.clone() },
            Instruction::PutList { head, tail, destination } => Instruction::PutList { head: head.clone(), tail: tail.clone(), destination: destination.clone() },
            Instruction::PutTuple2 { destination, elements } => Instruction::PutTuple2 { destination: destination.clone(), elements: elements.clone() },
            Instruction::GetTupleElement { source, index, destination } => Instruction::GetTupleElement { source: source.clone(), index: index.clone(), destination: destination.clone() },
            Instruction::GetList { source, head, tail } => Instruction::GetList { source: source.clone(), head: head.clone(), tail: tail.clone() },
            Instruction::GetHd { source, destination } => Instruction::GetHd { source: source.clone(), destination: destination.clone() },
            Instruction::GetTl { source, destination } => Instruction::GetTl { source: source.clone(), destination: destination.clone() },
            Instruction::TypeTest { op, fail, value } => Instruction::TypeTest { op: *op, fail: fail.clone(), value: value.clone() },
            Instruction::Comparison { op, fail, left, right } => Instruction::Comparison { op: *op, fail: fail.clone(), left: left.clone(), right: right.clone() },
            Instruction::TestArity { fail, tuple, arity } => Instruction::TestArity { fail: fail.clone(), tuple: tuple.clone(), arity: arity.clone() },
            Instruction::IsTaggedTuple { fail, value, arity, tag } => Instruction::IsTaggedTuple { fail: fail.clone(), value: value.clone(), arity: arity.clone(), tag: tag.clone() },
            Instruction::SelectVal { value, fail, list } => Instruction::SelectVal { value: value.clone(), fail: fail.clone(), list: list.clone() },
            Instruction::SelectTupleArity { value, fail, list } => Instruction::SelectTupleArity { value: value.clone(), fail: fail.clone(), list: list.clone() },
            Instruction::Jump { target } => Instruction::Jump { target: target.clone() },
            Instruction::Bif { op, operands } => Instruction::Bif { op: *op, operands: copy_operands(operands) },
            Instruction::Send => Instruction::Send,
            Instruction::RemoveMessage => Instruction::RemoveMessage,
            Instruction::Timeout => Instruction::Timeout,
            Instruction::LoopRec { fail, destination } => Instruction::LoopRec { fail: fail.clone(), destination: destination.clone() },
            Instruction::LoopRecEnd { fail } => Instruction::LoopRecEnd { fail: fail.clone() },
            Instruction::Wait { fail } => Instruction::Wait { fail: fail.clone() },
            Instruction::WaitTimeout { fail, timeout } => Instruction::WaitTimeout { fail: fail.clone(), timeout: timeout.clone() },
            Instruction::Catch { destination, label } => Instruction::Catch { destination: destination.clone(), label: label.clone() },
            Instruction::CatchEnd { source } => Instruction::CatchEnd { source: source.clone() },
            Instruction::Try { destination, label } => Instruction::Try { destination: destination.clone(), label: label.clone() },
            Instruction::TryEnd { source } => Instruction::TryEnd { source: source.clone() },
            Instruction::TryCase { source } => Instruction::TryCase { source: source.clone() },
            Instruction::TryCaseEnd { source } => Instruction::TryCaseEnd { source: source.clone() },
            Instruction::BinaryOp { op, operands } => Instruction::BinaryOp { op: *op, operands: copy_operands(operands) },
            Instruction::MapOp { op, operands } => Instruction::MapOp { op: *op, operands: copy_operands(operands) },
            Instruction::MakeFun { operands } => Instruction::MakeFun { operands: copy_operands(operands) },
            Instruction::CallFun { arity } => Instruction::CallFun { arity: arity.clone() },
            Instruction::CallFun2 { function, arity, destination } => Instruction::CallFun2 { function: function.clone(), arity: arity.clone(), destination: destination.clone() },
            Instruction::Apply { arity } => Instruction::Apply { arity: arity.clone() },
            Instruction::ApplyLast { arity, deallocate } => Instruction::ApplyLast { arity: arity.clone(), deallocate: deallocate.clone() },
            Instruction::Badmatch { value } => Instruction::Badmatch { value: value.clone() },
            Instruction::Badrecord { value } => Instruction::Badrecord { value: value.clone() },
            Instruction::CaseEnd { value } => Instruction::CaseEnd { value: value.clone() },
            Instruction::IfEnd => Instruction::IfEnd,
            Instruction::Raise { stacktrace, reason } => Instruction::Raise { stacktrace: stacktrace.clone(), reason: reason.clone() },
            Instruction::RawRaise => Instruction::RawRaise,
            Instruction::Line { index } => Instruction::Line { index: index.clone() },
            Instruction::Trim { words, remaining } => Instruction::Trim { words: words.clone(), remaining: remaining.clone() },
            Instruction::OnLoad => Instruction::OnLoad,
            Instruction::BuildStacktrace => Instruction::BuildStacktrace,
            Instruction::Swap { left, right } => Instruction::Swap { left: left.clone(), right: right.clone() },
            Instruction::InitYregs { registers } => Instruction::InitYregs { registers: registers.clone() },
            Instruction::NifStart => Instruction::NifStart,
            Instruction::UpdateRecord { operands } => Instruction::UpdateRecord { operands: copy_operands(operands) },
            Instruction::RecvMarkerReserve { dest } => Instruction::RecvMarkerReserve { dest: dest.clone() },
            Instruction::RecvMarkerBind { marker, label } => Instruction::RecvMarkerBind { marker: marker.clone(), label: label.clone() },
            Instruction::RecvMarkerClear { marker } => Instruction::RecvMarkerClear { marker: marker.clone() },
            Instruction::RecvMarkerUse { marker } => Instruction::RecvMarkerUse { marker: marker.clone() },
            Instruction::Generic { opcode, name, operands } => Instruction::Generic { opcode: *opcode, name: *name, operands: copy_operands(operands) },
        }
    }
}

/// The views of a sequence of instructions.
pub open spec fn instruction_views(instructions: Seq<Instruction>) -> Seq<InstructionView> {
    Seq::new(instructions.len(), |i: int| instructions[i].view())
}

/// Copies of the instructions in `code`.
pub fn copy_instructions(code: &Vec<Instruction>) -> (r: Vec<Instruction>)
    ensures
        instruction_views(r@) == instruction_views(code@),
{
    let mut copy: Vec<Instruction> = Vec::new();
    let mut i: usize = 0;
    while i < code.len()
        invariant
            i <= code@.len(),
            copy@.len() == i,
            forall|j: int| 0 <= j < i ==> (#[trigger] copy@[j]).view() == code@[j].view(),
        decreases code@.len() - i,
    {
        copy.push(code[i].clone());
        i += 1;
    }
    assert(instruction_views(copy@) =~= instruction_views(code@));
    copy
}

} // verus!

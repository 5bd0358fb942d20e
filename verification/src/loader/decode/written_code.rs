//! The opcodes of instructions, by number, and how operands are written; laws that
//! decoding gives back what was written.

use vstd::prelude::*;
use crate::atom::Atom;
use crate::error::LoadFault;
use crate::term::is_small;
use super::budget::MAX_TABLE_ENTRIES;
use super::code::{code_start, item_at, items_at, Item};
use super::compact::{
    allocation, allocations_at, label_number, moved, operand_at, operands_at, tagged_at,
    unsigned64_at, unsigned_at, Allocation, CompactState, OperandView, Payload,
};
use super::instruction::{
    encodes, BifOp, BinaryOp, ComparisonOp, Instruction, InstructionView, MapOp, TypeTestOp,
};
use super::numbers::{
    be_value, lemma_be_value_bound, lemma_pow256_grows, lemma_pow256_positive, lemma_pow256_values,
    lemma_twos_complement_range, lemma_twos_complement_sign, pow256, word_value,
};
use super::opcode::operand_count;
use super::written::{has_part, lemma_parts};

verus! {

/// The opcodes of calls, jumps, returns and exceptions: each stands for one instruction, which holds the
/// operands in the order in which they were written.
#[verifier::rlimit(60)]
#[verifier::spinoff_prover]
pub proof fn law_opcodes_of_calls_and_control(
    instruction: Instruction,
    opcode: u8,
    operands: Seq<OperandView>,
)
    requires
        encodes(instruction, opcode, operands),
        operand_count(opcode) == Some(operands.len()),
    ensures
        opcode == 2 ==> operands.len() == 3 && instruction.view() == (InstructionView::FuncInfo {
            module: operands[0],
            function: operands[1],
            arity: operands[2],
        }),
        opcode == 4 ==> operands.len() == 2 && instruction.view() == (InstructionView::Call {
            arity: operands[0],
            label: operands[1],
        }),
        opcode == 5 ==> operands.len() == 3 && instruction.view() == (InstructionView::CallLast {
            arity: operands[0],
            label: operands[1],
            deallocate: operands[2],
        }),
        opcode == 6 ==> operands.len() == 2 && instruction.view() == (InstructionView::CallOnly {
            arity: operands[0],
            label: operands[1],
        }),
        opcode == 7 ==> operands.len() == 2 && instruction.view() == (InstructionView::CallExt {
            arity: operands[0],
            import: operands[1],
        }),
        opcode == 8 ==> operands.len() == 3 && instruction.view() == (InstructionView::CallExtLast {
            arity: operands[0],
            import: operands[1],
            deallocate: operands[2],
        }),
        opcode == 19 ==> operands.len() == 0 && instruction.view() == (InstructionView::Return),
        opcode == 58 ==> operands.len() == 3 && instruction.view() == (InstructionView::TestArity {
            fail: operands[0],
            tuple: operands[1],
            arity: operands[2],
        }),
        opcode == 59 ==> operands.len() == 3 && instruction.view() == (InstructionView::SelectVal {
            value: operands[0],
            fail: operands[1],
            list: operands[2],
        }),
        opcode == 60 ==> operands.len() == 3 && instruction.view() == (InstructionView::SelectTupleArity {
            value: operands[0],
            fail: operands[1],
            list: operands[2],
        }),
        opcode == 61 ==> operands.len() == 1 && instruction.view() == (InstructionView::Jump {
            target: operands[0],
        }),
        opcode == 62 ==> operands.len() == 2 && instruction.view() == (InstructionView::Catch {
            destination: operands[0],
            label: operands[1],
        }),
        opcode == 63 ==> operands.len() == 1 && instruction.view() == (InstructionView::CatchEnd {
            source: operands[0],
        }),
        opcode == 72 ==> operands.len() == 1 && instruction.view() == (InstructionView::Badmatch {
            value: operands[0],
        }),
        opcode == 73 ==> operands.len() == 0 && instruction.view() == (InstructionView::IfEnd),
        opcode == 74 ==> operands.len() == 1 && instruction.view() == (InstructionView::CaseEnd {
            value: operands[0],
        }),
        opcode == 75 ==> operands.len() == 1 && instruction.view() == (InstructionView::CallFun {
            arity: operands[0],
        }),
        opcode == 78 ==> operands.len() == 2 && instruction.view() == (InstructionView::CallExtOnly {
            arity: operands[0],
            import: operands[1],
        }),
        opcode == 104 ==> operands.len() == 2 && instruction.view() == (InstructionView::Try {
            destination: operands[0],
            label: operands[1],
        }),
        opcode == 105 ==> operands.len() == 1 && instruction.view() == (InstructionView::TryEnd {
            source: operands[0],
        }),
        opcode == 106 ==> operands.len() == 1 && instruction.view() == (InstructionView::TryCase {
            source: operands[0],
        }),
        opcode == 107 ==> operands.len() == 1 && instruction.view() == (InstructionView::TryCaseEnd {
            source: operands[0],
        }),
        opcode == 108 ==> operands.len() == 2 && instruction.view() == (InstructionView::Raise {
            stacktrace: operands[0],
            reason: operands[1],
        }),
        opcode == 112 ==> operands.len() == 1 && instruction.view() == (InstructionView::Apply {
            arity: operands[0],
        }),
        opcode == 113 ==> operands.len() == 2 && instruction.view() == (InstructionView::ApplyLast {
            arity: operands[0],
            deallocate: operands[1],
        }),
        opcode == 160 ==> operands.len() == 0 && instruction.view() == (InstructionView::BuildStacktrace),
        opcode == 161 ==> operands.len() == 0 && instruction.view() == (InstructionView::RawRaise),
        opcode == 178 ==> operands.len() == 3 && instruction.view() == (InstructionView::CallFun2 {
            function: operands[0],
            arity: operands[1],
            destination: operands[2],
        }),
        opcode == 180 ==> operands.len() == 1 && instruction.view() == (InstructionView::Badrecord {
            value: operands[0],
        }),
{
}

/// The opcodes of comparisons and type tests: each stands for one instruction, which holds the
/// operands in the order in which they were written.
#[verifier::rlimit(60)]
#[verifier::spinoff_prover]
pub proof fn law_opcodes_of_tests(
    instruction: Instruction,
    opcode: u8,
    operands: Seq<OperandView>,
)
    requires
        encodes(instruction, opcode, operands),
        operand_count(opcode) == Some(operands.len()),
    ensures
        opcode == 39 ==> operands.len() == 3 && instruction.view() == (InstructionView::Comparison {
            op: ComparisonOp::Lt,
            fail: operands[0],
            left: operands[1],
            right: operands[2],
        }),
        opcode == 40 ==> operands.len() == 3 && instruction.view() == (InstructionView::Comparison {
            op: ComparisonOp::Ge,
            fail: operands[0],
            left: operands[1],
            right: operands[2],
        }),
        opcode == 41 ==> operands.len() == 3 && instruction.view() == (InstructionView::Comparison {
            op: ComparisonOp::Eq,
            fail: operands[0],
            left: operands[1],
            right: operands[2],
        }),
        opcode == 42 ==> operands.len() == 3 && instruction.view() == (InstructionView::Comparison {
            op: ComparisonOp::Ne,
            fail: operands[0],
            left: operands[1],
            right: operands[2],
        }),
        opcode == 43 ==> operands.len() == 3 && instruction.view() == (InstructionView::Comparison {
            op: ComparisonOp::EqExact,
            fail: operands[0],
            left: operands[1],
            right: operands[2],
        }),
        opcode == 44 ==> operands.len() == 3 && instruction.view() == (InstructionView::Comparison {
            op: ComparisonOp::NeExact,
            fail: operands[0],
            left: operands[1],
            right: operands[2],
        }),
        opcode == 45 ==> operands.len() == 2 && instruction.view() == (InstructionView::TypeTest {
            op: TypeTestOp::IsInteger,
            fail: operands[0],
            value: operands[1],
        }),
        opcode == 46 ==> operands.len() == 2 && instruction.view() == (InstructionView::TypeTest {
            op: TypeTestOp::IsFloat,
            fail: operands[0],
            value: operands[1],
        }),
        opcode == 47 ==> operands.len() == 2 && instruction.view() == (InstructionView::TypeTest {
            op: TypeTestOp::IsNumber,
            fail: operands[0],
            value: operands[1],
        }),
        opcode == 48 ==> operands.len() == 2 && instruction.view() == (InstructionView::TypeTest {
            op: TypeTestOp::IsAtom,
            fail: operands[0],
            value: operands[1],
        }),
        opcode == 49 ==> operands.len() == 2 && instruction.view() == (InstructionView::TypeTest {
            op: TypeTestOp::IsPid,
            fail: operands[0],
            value: operands[1],
        }),
        opcode == 50 ==> operands.len() == 2 && instruction.view() == (InstructionView::TypeTest {
            op: TypeTestOp::IsReference,
            fail: operands[0],
            value: operands[1],
        }),
        opcode == 51 ==> operands.len() == 2 && instruction.view() == (InstructionView::TypeTest {
            op: TypeTestOp::IsPort,
            fail: operands[0],
            value: operands[1],
        }),
        opcode == 52 ==> operands.len() == 2 && instruction.view() == (InstructionView::TypeTest {
            op: TypeTestOp::IsNil,
            fail: operands[0],
            value: operands[1],
        }),
        opcode == 53 ==> operands.len() == 2 && instruction.view() == (InstructionView::TypeTest {
            op: TypeTestOp::IsBinary,
            fail: operands[0],
            value: operands[1],
        }),
        opcode == 55 ==> operands.len() == 2 && instruction.view() == (InstructionView::TypeTest {
            op: TypeTestOp::IsList,
            fail: operands[0],
            value: operands[1],
        }),
        opcode == 56 ==> operands.len() == 2 && instruction.view() == (InstructionView::TypeTest {
            op: TypeTestOp::IsNonemptyList,
            fail: operands[0],
            value: operands[1],
        }),
        opcode == 57 ==> operands.len() == 2 && instruction.view() == (InstructionView::TypeTest {
            op: TypeTestOp::IsTuple,
            fail: operands[0],
            value: operands[1],
        }),
        opcode == 77 ==> operands.len() == 2 && instruction.view() == (InstructionView::TypeTest {
            op: TypeTestOp::IsFunction,
            fail: operands[0],
            value: operands[1],
        }),
        opcode == 114 ==> operands.len() == 2 && instruction.view() == (InstructionView::TypeTest {
            op: TypeTestOp::IsBoolean,
            fail: operands[0],
            value: operands[1],
        }),
        opcode == 115 ==> operands.len() == 3 && instruction.view() == (InstructionView::TypeTest {
            op: TypeTestOp::IsFunction2,
            fail: operands[0],
            value: operands[1],
        }),
        opcode == 129 ==> operands.len() == 2 && instruction.view() == (InstructionView::TypeTest {
            op: TypeTestOp::IsBitstr,
            fail: operands[0],
            value: operands[1],
        }),
        opcode == 156 ==> operands.len() == 2 && instruction.view() == (InstructionView::TypeTest {
            op: TypeTestOp::IsMap,
            fail: operands[0],
            value: operands[1],
        }),
        opcode == 159 ==> operands.len() == 4 && instruction.view() == (InstructionView::IsTaggedTuple {
            fail: operands[0],
            value: operands[1],
            arity: operands[2],
            tag: operands[3],
        }),
{
}

/// The opcodes of moves, built-in calls, lists, tuples and closures: each stands for one instruction, which holds the
/// operands in the order in which they were written.
#[verifier::rlimit(60)]
#[verifier::spinoff_prover]
pub proof fn law_opcodes_of_data(
    instruction: Instruction,
    opcode: u8,
    operands: Seq<OperandView>,
)
    requires
        encodes(instruction, opcode, operands),
        operand_count(opcode) == Some(operands.len()),
    ensures
        opcode == 9 ==> operands.len() == 2 && instruction.view() == (InstructionView::Bif { op: BifOp::Bif0, operands }),
        opcode == 10 ==> operands.len() == 4 && instruction.view() == (InstructionView::Bif { op: BifOp::Bif1, operands }),
        opcode == 11 ==> operands.len() == 5 && instruction.view() == (InstructionView::Bif { op: BifOp::Bif2, operands }),
        opcode == 64 ==> operands.len() == 2 && instruction.view() == (InstructionView::Move {
            source: operands[0],
            destination: operands[1],
        }),
        opcode == 65 ==> operands.len() == 3 && instruction.view() == (InstructionView::GetList {
            source: operands[0],
            head: operands[1],
            tail: operands[2],
        }),
        opcode == 66 ==> operands.len() == 3 && instruction.view() == (InstructionView::GetTupleElement {
            source: operands[0],
            index: operands[1],
            destination: operands[2],
        }),
        opcode == 69 ==> operands.len() == 3 && instruction.view() == (InstructionView::PutList {
            head: operands[0],
            tail: operands[1],
            destination: operands[2],
        }),
        opcode == 103 ==> operands.len() == 1 && instruction.view() == (InstructionView::MakeFun { operands }),
        opcode == 124 ==> operands.len() == 5 && instruction.view() == (InstructionView::Bif { op: BifOp::GcBif1, operands }),
        opcode == 125 ==> operands.len() == 6 && instruction.view() == (InstructionView::Bif { op: BifOp::GcBif2, operands }),
        opcode == 152 ==> operands.len() == 7 && instruction.view() == (InstructionView::Bif { op: BifOp::GcBif3, operands }),
        opcode == 162 ==> operands.len() == 2 && instruction.view() == (InstructionView::GetHd {
            source: operands[0],
            destination: operands[1],
        }),
        opcode == 163 ==> operands.len() == 2 && instruction.view() == (InstructionView::GetTl {
            source: operands[0],
            destination: operands[1],
        }),
        opcode == 164 ==> operands.len() == 2 && instruction.view() == (InstructionView::PutTuple2 {
            destination: operands[0],
            elements: operands[1],
        }),
        opcode == 169 ==> operands.len() == 2 && instruction.view() == (InstructionView::Swap {
            left: operands[0],
            right: operands[1],
        }),
        opcode == 171 ==> operands.len() == 3 && instruction.view() == (InstructionView::MakeFun { operands }),
        opcode == 181 ==> operands.len() == 5 && instruction.view() == (InstructionView::UpdateRecord { operands }),
{
}

/// The opcodes of frames, lines and messages: each stands for one instruction, which holds the
/// operands in the order in which they were written.
#[verifier::rlimit(60)]
#[verifier::spinoff_prover]
pub proof fn law_opcodes_of_frames_and_messages(
    instruction: Instruction,
    opcode: u8,
    operands: Seq<OperandView>,
)
    requires
        encodes(instruction, opcode, operands),
        operand_count(opcode) == Some(operands.len()),
    ensures
        opcode == 12 ==> operands.len() == 2 && instruction.view() == (InstructionView::Allocate {
            stack_need: operands[0],
            live: operands[1],
        }),
        opcode == 13 ==> operands.len() == 3 && instruction.view() == (InstructionView::AllocateHeap {
            stack_need: operands[0],
            heap_need: operands[1],
            live: operands[2],
        }),
        opcode == 14 ==> operands.len() == 2 && instruction.view() == (InstructionView::AllocateZero {
            stack_need: operands[0],
            live: operands[1],
        }),
        opcode == 16 ==> operands.len() == 2 && instruction.view() == (InstructionView::TestHeap {
            heap_need: operands[0],
            live: operands[1],
        }),
        opcode == 18 ==> operands.len() == 1 && instruction.view() == (InstructionView::Deallocate {
            words: operands[0],
        }),
        opcode == 20 ==> operands.len() == 0 && instruction.view() == (InstructionView::Send),
        opcode == 21 ==> operands.len() == 0 && instruction.view() == (InstructionView::RemoveMessage),
        opcode == 22 ==> operands.len() == 0 && instruction.view() == (InstructionView::Timeout),
        opcode == 23 ==> operands.len() == 2 && instruction.view() == (InstructionView::LoopRec {
            fail: operands[0],
            destination: operands[1],
        }),
        opcode == 24 ==> operands.len() == 1 && instruction.view() == (InstructionView::LoopRecEnd {
            fail: operands[0],
        }),
        opcode == 25 ==> operands.len() == 1 && instruction.view() == (InstructionView::Wait {
            fail: operands[0],
        }),
        opcode == 26 ==> operands.len() == 2 && instruction.view() == (InstructionView::WaitTimeout {
            fail: operands[0],
            timeout: operands[1],
        }),
        opcode == 136 ==> operands.len() == 2 && instruction.view() == (InstructionView::Trim {
            words: operands[0],
            remaining: operands[1],
        }),
        opcode == 149 ==> operands.len() == 0 && instruction.view() == (InstructionView::OnLoad),
        opcode == 153 ==> operands.len() == 1 && instruction.view() == (InstructionView::Line {
            index: operands[0],
        }),
        opcode == 172 ==> operands.len() == 1 && instruction.view() == (InstructionView::InitYregs {
            registers: operands[0],
        }),
        opcode == 173 ==> operands.len() == 1 && instruction.view() == (InstructionView::RecvMarkerReserve {
            dest: operands[0],
        }),
        opcode == 174 ==> operands.len() == 2 && instruction.view() == (InstructionView::RecvMarkerBind {
            marker: operands[0],
            label: operands[1],
        }),
        opcode == 175 ==> operands.len() == 1 && instruction.view() == (InstructionView::RecvMarkerClear {
            marker: operands[0],
        }),
        opcode == 176 ==> operands.len() == 1 && instruction.view() == (InstructionView::RecvMarkerUse {
            marker: operands[0],
        }),
        opcode == 179 ==> operands.len() == 0 && instruction.view() == (InstructionView::NifStart),
{
}

/// The opcodes of binaries and maps: each stands for one instruction, which holds the
/// operands in the order in which they were written.
#[verifier::rlimit(60)]
#[verifier::spinoff_prover]
pub proof fn law_opcodes_of_binaries_and_maps(
    instruction: Instruction,
    opcode: u8,
    operands: Seq<OperandView>,
)
    requires
        encodes(instruction, opcode, operands),
        operand_count(opcode) == Some(operands.len()),
    ensures
        opcode == 117 ==> operands.len() == 7 && instruction.view() == (InstructionView::BinaryOp { op: BinaryOp::BsGetInteger2, operands }),
        opcode == 118 ==> operands.len() == 7 && instruction.view() == (InstructionView::BinaryOp { op: BinaryOp::BsGetFloat2, operands }),
        opcode == 119 ==> operands.len() == 7 && instruction.view() == (InstructionView::BinaryOp { op: BinaryOp::BsGetBinary2, operands }),
        opcode == 120 ==> operands.len() == 5 && instruction.view() == (InstructionView::BinaryOp { op: BinaryOp::BsSkipBits2, operands }),
        opcode == 121 ==> operands.len() == 3 && instruction.view() == (InstructionView::BinaryOp { op: BinaryOp::BsTestTail2, operands }),
        opcode == 131 ==> operands.len() == 3 && instruction.view() == (InstructionView::BinaryOp { op: BinaryOp::BsTestUnit, operands }),
        opcode == 132 ==> operands.len() == 4 && instruction.view() == (InstructionView::BinaryOp { op: BinaryOp::BsMatchString, operands }),
        opcode == 133 ==> operands.len() == 0 && instruction.view() == (InstructionView::BinaryOp { op: BinaryOp::BsInitWritable, operands }),
        opcode == 138 ==> operands.len() == 5 && instruction.view() == (InstructionView::BinaryOp { op: BinaryOp::BsGetUtf8, operands }),
        opcode == 139 ==> operands.len() == 4 && instruction.view() == (InstructionView::BinaryOp { op: BinaryOp::BsSkipUtf8, operands }),
        opcode == 140 ==> operands.len() == 5 && instruction.view() == (InstructionView::BinaryOp { op: BinaryOp::BsGetUtf16, operands }),
        opcode == 141 ==> operands.len() == 4 && instruction.view() == (InstructionView::BinaryOp { op: BinaryOp::BsSkipUtf16, operands }),
        opcode == 142 ==> operands.len() == 5 && instruction.view() == (InstructionView::BinaryOp { op: BinaryOp::BsGetUtf32, operands }),
        opcode == 143 ==> operands.len() == 4 && instruction.view() == (InstructionView::BinaryOp { op: BinaryOp::BsSkipUtf32, operands }),
        opcode == 154 ==> operands.len() == 5 && instruction.view() == (InstructionView::MapOp { op: MapOp::PutMapAssoc, operands }),
        opcode == 155 ==> operands.len() == 5 && instruction.view() == (InstructionView::MapOp { op: MapOp::PutMapExact, operands }),
        opcode == 157 ==> operands.len() == 3 && instruction.view() == (InstructionView::MapOp { op: MapOp::HasMapFields, operands }),
        opcode == 158 ==> operands.len() == 3 && instruction.view() == (InstructionView::MapOp { op: MapOp::GetMapElements, operands }),
        opcode == 165 ==> operands.len() == 3 && instruction.view() == (InstructionView::BinaryOp { op: BinaryOp::BsGetTail, operands }),
        opcode == 166 ==> operands.len() == 4 && instruction.view() == (InstructionView::BinaryOp { op: BinaryOp::BsStartMatch3, operands }),
        opcode == 167 ==> operands.len() == 3 && instruction.view() == (InstructionView::BinaryOp { op: BinaryOp::BsGetPosition, operands }),
        opcode == 168 ==> operands.len() == 2 && instruction.view() == (InstructionView::BinaryOp { op: BinaryOp::BsSetPosition, operands }),
        opcode == 170 ==> operands.len() == 4 && instruction.view() == (InstructionView::BinaryOp { op: BinaryOp::BsStartMatch4, operands }),
        opcode == 177 ==> operands.len() == 6 && instruction.view() == (InstructionView::BinaryOp { op: BinaryOp::BsCreateBin, operands }),
        opcode == 182 ==> operands.len() == 3 && instruction.view() == (InstructionView::BinaryOp { op: BinaryOp::BsMatch, operands }),
{
}

/// The opcodes of instructions that are kept in general form: each stands for one instruction, which holds the
/// operands in the order in which they were written.
#[verifier::rlimit(60)]
#[verifier::spinoff_prover]
pub proof fn law_opcodes_of_floats_and_others(
    instruction: Instruction,
    opcode: u8,
    operands: Seq<OperandView>,
)
    requires
        encodes(instruction, opcode, operands),
        operand_count(opcode) == Some(operands.len()),
    ensures
        opcode == 67 ==> operands.len() == 3 && instruction.view() == (InstructionView::Generic { opcode: 67, name: "set_tuple_element"@, operands }),
        opcode == 96 ==> operands.len() == 2 && instruction.view() == (InstructionView::Generic { opcode: 96, name: "fmove"@, operands }),
        opcode == 97 ==> operands.len() == 2 && instruction.view() == (InstructionView::Generic { opcode: 97, name: "fconv"@, operands }),
        opcode == 98 ==> operands.len() == 4 && instruction.view() == (InstructionView::Generic { opcode: 98, name: "fadd"@, operands }),
        opcode == 99 ==> operands.len() == 4 && instruction.view() == (InstructionView::Generic { opcode: 99, name: "fsub"@, operands }),
        opcode == 100 ==> operands.len() == 4 && instruction.view() == (InstructionView::Generic { opcode: 100, name: "fmul"@, operands }),
        opcode == 101 ==> operands.len() == 4 && instruction.view() == (InstructionView::Generic { opcode: 101, name: "fdiv"@, operands }),
        opcode == 102 ==> operands.len() == 3 && instruction.view() == (InstructionView::Generic { opcode: 102, name: "fnegate"@, operands }),
        opcode == 183 ==> operands.len() == 2 && instruction.view() == (InstructionView::Generic { opcode: 183, name: "executable_line"@, operands }),
        opcode == 184 ==> operands.len() == 4 && instruction.view() == (InstructionView::Generic { opcode: 184, name: "debug_line"@, operands }),
{
}

/// The opcode of a label: the label has the number that its operand says.
pub proof fn law_opcode_of_labels(instruction: Instruction, operand: OperandView)
    requires
        encodes(instruction, 1, seq![operand]),
    ensures
        operand_count(1) == Some(1nat),
        operand matches OperandView::Unsigned(n) ==> instruction.view() == (
        InstructionView::Label { label: n as u32 }) && n <= 0xffff_ffff,
        operand matches OperandView::Integer(n) ==> instruction.view() == (
        InstructionView::Label { label: n as u32 }) && 0 <= n <= 0xffff_ffff,
        operand matches OperandView::Label(n) ==> instruction.view() == (
        InstructionView::Label { label: n }),
{
}

/// A number in as many bytes, most significant first.
pub open spec fn be_run(n: nat, width: nat) -> Seq<u8>
    decreases width,
{
    if width == 0 {
        Seq::empty()
    } else {
        be_run(n / 256, (width - 1) as nat).push((n % 256) as u8)
    }
}

proof fn lemma_be_run(n: nat, width: nat)
    requires
        n < pow256(width),
    ensures
        be_run(n, width).len() == width,
        be_value(be_run(n, width)) == n,
    decreases width,
{
    if width > 0 {
        lemma_be_run(n / 256, (width - 1) as nat);
        assert(be_run(n, width).drop_last() =~= be_run(n / 256, (width - 1) as nat));
    }
}

/// A compact number with its tag. Four bits of a number below 16 are in the first byte
/// (width zero), three of one below 2048 with eight in the next (width one); a wider one
/// follows in two to eight bytes.
pub open spec fn number_bytes(tag: u8, n: nat, width: nat) -> Seq<u8> {
    if width == 0 {
        seq![(16 * n + tag) as u8]
    } else if width == 1 {
        seq![(32 * (n / 256) + 8 + tag) as u8, (n % 256) as u8]
    } else {
        seq![(32 * (width - 2) + 24 + tag) as u8] + be_run(n, width)
    }
}

/// Whether a number can be written in a width. The first bit of a wide one is zero, as
/// it is of numbers that are not negative.
pub open spec fn fits_width(n: nat, width: nat) -> bool {
    if width == 0 {
        n < 16
    } else if width == 1 {
        n < 2048
    } else {
        width <= 8 && n < 128 * pow256((width - 1) as nat)
    }
}

/// A compact number is read back, whatever its width.
pub proof fn law_number_is_read_back(b: Seq<u8>, place: nat, tag: u8, n: nat, width: nat)
    requires
        tag < 8,
        fits_width(n, width),
        has_part(b, place, number_bytes(tag, n, width)),
    ensures
        tagged_at(b, place) == (
            Ok::<(u8, Payload), LoadFault>((tag, Payload::Small(n as i64))),
            place + number_bytes(tag, n, width).len(),
        ),
        n <= i64::MAX,
        number_bytes(tag, n, width).len() == width + 1,
{
    let part = number_bytes(tag, n, width);
    assert(b[place as int + 0] == part[0]);
    if width == 0 {
        let first = part[0];
        assert(first % 8 == tag && first / 16 == n && (first / 8) % 2 == 0);
    } else if width == 1 {
        assert(b[place as int + 1] == part[1]);
        let first = part[0];
        assert(first % 8 == tag && first / 32 == n / 256 && (first / 8) % 2 == 1 && (first / 16) % 2
            == 0);
    } else {
        let first = part[0];
        let run = be_run(n, width);
        lemma_pow256_values();
        lemma_pow256_positive((width - 1) as nat);
        lemma_pow256_grows((width - 1) as nat, 7);
        lemma_be_run(n, width);
        assert(first % 8 == tag && first / 32 == width - 2 && (first / 8) % 2 == 1 && (first / 16)
            % 2 == 1);
        let found = b.subrange(place as int + 1, (place + 1 + width) as int);
        assert forall|i: int| 0 <= i < run.len() implies found[i] == run[i] by {
            assert(b[place + (i + 1)] == part[i + 1]);
        }
        assert(found =~= run);
        lemma_twos_complement_range(run);
        lemma_first_bit(run);
    }
}

/// A run whose number is in the lower half starts with a zero bit.
proof fn lemma_first_bit(run: Seq<u8>)
    requires
        run.len() > 0,
        be_value(run) < 128 * pow256((run.len() - 1) as nat),
    ensures
        run[0] < 128,
        word_value(run, true) == be_value(run),
        word_value(run, false) == be_value(run),
{
    lemma_twos_complement_sign(run);
    lemma_twos_complement_range(run);
    lemma_be_value_bound(run);
}

/// The width in which a number is written: the least of those with a first byte alone,
/// with one more, or with eight.
pub open spec fn width_for(n: nat) -> nat {
    if n < 16 {
        0
    } else if n < 2048 {
        1
    } else {
        8
    }
}

/// An operand with a tag and a number.
pub open spec fn plain_bytes(tag: u8, n: nat) -> Seq<u8> {
    number_bytes(tag, n, width_for(n))
}

/// An integer as a number of 64 bits in two's complement.
pub open spec fn wrapped_word(n: i64) -> nat {
    if n < 0 {
        (n + 0x1_0000_0000_0000_0000) as nat
    } else {
        n as nat
    }
}

/// The bytes of an operand. Atoms are written by their places, from one on; zero is the
/// empty list.
pub open spec fn operand_bytes(operand: OperandView, atoms: Seq<Atom>) -> Seq<u8>
    decreases operand, 0nat,
{
    match operand {
        OperandView::Unsigned(n) => plain_bytes(0, n as nat),
        OperandView::Integer(n) => seq![0b1101_1001u8] + be_run(wrapped_word(n), 8),
        OperandView::Atom(None) => plain_bytes(2, 0),
        OperandView::Atom(Some(atom)) => plain_bytes(2, (atoms.index_of(atom) + 1) as nat),
        OperandView::X(n) => plain_bytes(3, n as nat),
        OperandView::Y(n) => plain_bytes(4, n as nat),
        OperandView::Label(n) => plain_bytes(5, n as nat),
        OperandView::Character(n) => plain_bytes(6, n as nat),
        OperandView::List(items) => seq![0x17u8] + plain_bytes(0, items.len()) + list_bytes(
            items,
            atoms,
            0,
        ),
        OperandView::FloatRegister(n) => seq![0x27u8] + plain_bytes(0, n as nat),
        OperandView::Allocation(entries) => seq![0x37u8] + plain_bytes(0, entries.len())
            + allocation_bytes(entries, 0),
        OperandView::Literal(n) => seq![0x47u8] + plain_bytes(0, n as nat),
        OperandView::TypedRegister { register, type_index } => seq![0x57u8] + operand_bytes(
            *register,
            atoms,
        ) + plain_bytes(0, type_index as nat),
    }
}

/// The bytes of the operands from one on.
pub open spec fn list_bytes(items: Seq<OperandView>, atoms: Seq<Atom>, i: nat) -> Seq<u8>
    decreases items, items.len() - i,
{
    if i >= items.len() {
        Seq::empty()
    } else {
        operand_bytes(items[i as int], atoms) + list_bytes(items, atoms, i + 1)
    }
}

/// What is reserved and how much of it: words, floats or closures.
pub open spec fn allocation_parts(entry: Allocation) -> (nat, nat) {
    match entry {
        Allocation::Words(n) => (0, n as nat),
        Allocation::Floats(n) => (1, n as nat),
        Allocation::Funs(n) => (2, n as nat),
        Allocation::Unknown { tag, value } => (tag as nat, value as nat),
    }
}

/// The bytes of the entries from one on.
pub open spec fn allocation_bytes(entries: Seq<Allocation>, i: nat) -> Seq<u8>
    decreases entries.len() - i,
{
    if i >= entries.len() {
        Seq::empty()
    } else {
        let (what, amount) = allocation_parts(entries[i as int]);
        plain_bytes(0, what) + plain_bytes(0, amount) + allocation_bytes(entries, i + 1)
    }
}

/// Whether an operand can be written: its numbers are below the largest integer, its
/// atoms and literals are there, and its integers fit in a term.
pub open spec fn operand_fits(operand: OperandView, atoms: Seq<Atom>, known: nat) -> bool
    decreases operand,
{
    match operand {
        OperandView::Unsigned(n) => n <= i64::MAX,
        OperandView::Integer(n) => is_small(n as int),
        OperandView::Atom(Some(atom)) => atoms.contains(atom) && atoms.len() <= 0xffff_ffff,
        OperandView::Character(n) => n <= i64::MAX,
        OperandView::List(items) => items.len() <= MAX_TABLE_ENTRIES && forall|i: int|
            0 <= i < items.len() ==> operand_fits(#[trigger] items[i], atoms, known),
        OperandView::Allocation(entries) => entries.len() <= MAX_TABLE_ENTRIES && forall|i: int|
            0 <= i < entries.len() ==> allocation_fits(#[trigger] entries[i]),
        OperandView::Literal(n) => n < known && n <= i64::MAX,
        OperandView::TypedRegister { register, type_index } => operand_fits(
            *register,
            atoms,
            known,
        ) && type_index <= i64::MAX,
        _ => true,
    }
}

/// Whether an entry of an allocation can be written.
pub open spec fn allocation_fits(entry: Allocation) -> bool {
    &&& allocation_parts(entry).0 <= i64::MAX
    &&& allocation_parts(entry).1 <= i64::MAX
    &&& entry matches Allocation::Unknown { tag, .. } ==> tag > 2
}

proof fn lemma_plain(b: Seq<u8>, place: nat, tag: u8, n: nat)
    requires
        tag < 8,
        n <= i64::MAX,
        has_part(b, place, plain_bytes(tag, n)),
    ensures
        tagged_at(b, place) == (
            Ok::<(u8, Payload), LoadFault>((tag, Payload::Small(n as i64))),
            place + plain_bytes(tag, n).len(),
        ),
        tag == 0 ==> unsigned64_at(b, place) == (
            Ok::<u64, LoadFault>(n as u64),
            place + plain_bytes(0, n).len(),
        ),
        tag == 0 && n <= 0xffff_ffff ==> unsigned_at(b, place) == (
            Ok::<u32, LoadFault>(n as u32),
            place + plain_bytes(0, n).len(),
        ),
        plain_bytes(tag, n).len() > 0,
{
    lemma_pow256_values();
    law_number_is_read_back(b, place, tag, n, width_for(n));
}

proof fn lemma_extended(b: Seq<u8>, place: nat, first: u8, subtag: nat, rest: Seq<u8>)
    requires
        has_part(b, place, seq![first] + rest),
        first == 16 * subtag + 7,
        subtag < 16,
    ensures
        tagged_at(b, place) == (
            Ok::<(u8, Payload), LoadFault>((7u8, Payload::Small(subtag as i64))),
            place + 1,
        ),
        has_part(b, place + 1, rest),
{
    lemma_parts(b, place, seq![first], rest);
    assert(number_bytes(7, subtag, 0) =~= seq![first]);
    law_number_is_read_back(b, place, 7, subtag, 0);
}

proof fn lemma_integer_operand(
    b: Seq<u8>,
    atoms: Seq<Atom>,
    known: nat,
    s: CompactState,
    n: i64,
)
    requires
        is_small(n as int),
        has_part(b, s.pos, seq![0b1101_1001u8] + be_run(wrapped_word(n), 8)),
    ensures
        operand_at(b, atoms, known, s) == (
            Ok::<OperandView, LoadFault>(OperandView::Integer(n)),
            moved(s, s.pos + 9),
        ),
        be_run(wrapped_word(n), 8).len() == 8,
{
    let run = be_run(wrapped_word(n), 8);
    lemma_pow256_values();
    lemma_be_run(wrapped_word(n), 8);
    let part = seq![0b1101_1001u8] + run;
    assert(b[s.pos as int + 0] == part[0]);
    let found = b.subrange(s.pos as int + 1, (s.pos + 9) as int);
    assert forall|i: int| 0 <= i < run.len() implies found[i] == run[i] by {
        assert(b[s.pos + (i + 1)] == part[i + 1]);
    }
    assert(found =~= run);
    lemma_half(run);
    assert(word_value(run, true) == n);
}

proof fn lemma_half(run: Seq<u8>)
    requires
        run.len() == 8,
    ensures
        run[0] >= 128 <==> be_value(run) >= 0x8000_0000_0000_0000,
{
    lemma_pow256_values();
    lemma_twos_complement_sign(run);
    lemma_twos_complement_range(run);
    lemma_be_value_bound(run);
}

proof fn lemma_allocations(b: Seq<u8>, place: nat, entries: Seq<Allocation>, i: nat)
    requires
        i <= entries.len(),
        forall|j: int| 0 <= j < entries.len() ==> allocation_fits(#[trigger] entries[j]),
        has_part(b, place, allocation_bytes(entries, i)),
    ensures
        allocations_at(b, place, (entries.len() - i) as nat, entries.take(i as int)) == (
            Ok::<Seq<Allocation>, LoadFault>(entries),
            place + allocation_bytes(entries, i).len(),
        ),
    decreases entries.len() - i,
{
    if i == entries.len() {
        assert(entries.take(i as int) =~= entries);
    } else {
        let entry = entries[i as int];
        let (what, amount) = allocation_parts(entry);
        let rest = allocation_bytes(entries, i + 1);
        lemma_parts(b, place, plain_bytes(0, what) + plain_bytes(0, amount), rest);
        lemma_parts(b, place, plain_bytes(0, what), plain_bytes(0, amount));
        lemma_plain(b, place, 0, what);
        lemma_plain(b, place + plain_bytes(0, what).len(), 0, amount);
        assert(allocation(what as u64, amount as u64) == entry);
        lemma_allocations(
            b,
            place + plain_bytes(0, what).len() + plain_bytes(0, amount).len(),
            entries,
            i + 1,
        );
        assert(entries.take(i as int).push(entry) =~= entries.take(i as int + 1));
    }
}

/// An operand that was written is read back, and all its bytes are read.
#[verifier::rlimit(60)]
#[verifier::spinoff_prover]
pub proof fn law_operand_is_read_back(
    operand: OperandView,
    b: Seq<u8>,
    atoms: Seq<Atom>,
    known: nat,
    s: CompactState,
)
    requires
        operand_fits(operand, atoms, known),
        has_part(b, s.pos, operand_bytes(operand, atoms)),
    ensures
        operand_at(b, atoms, known, s) == (
            Ok::<OperandView, LoadFault>(operand),
            moved(s, s.pos + operand_bytes(operand, atoms).len()),
        ),
        operand_bytes(operand, atoms).len() > 0,
    decreases operand, 0nat,
{
    match operand {
        OperandView::Unsigned(n) => lemma_plain(b, s.pos, 0, n as nat),
        OperandView::Integer(n) => lemma_integer_operand(b, atoms, known, s, n),
        OperandView::Atom(None) => lemma_plain(b, s.pos, 2, 0),
        OperandView::Atom(Some(atom)) => {
            let index = atoms.index_of(atom);
            assert(0 <= index < atoms.len() && atoms[index] == atom);
            lemma_plain(b, s.pos, 2, (index + 1) as nat);
        },
        OperandView::X(n) => lemma_plain(b, s.pos, 3, n as nat),
        OperandView::Y(n) => lemma_plain(b, s.pos, 4, n as nat),
        OperandView::Label(n) => lemma_plain(b, s.pos, 5, n as nat),
        OperandView::Character(n) => lemma_plain(b, s.pos, 6, n as nat),
        OperandView::List(items) => {
            let count = plain_bytes(0, items.len());
            let rest = list_bytes(items, atoms, 0);
            assert(operand_bytes(operand, atoms) =~= seq![0x17u8] + (count + rest));
            lemma_extended(b, s.pos, 0x17, 1, count + rest);
            lemma_parts(b, s.pos + 1, count, rest);
            lemma_plain(b, s.pos + 1, 0, items.len());
            let t = moved(s, s.pos + 1 + count.len());
            lemma_list_is_read_back(items, 0, b, atoms, known, t);
            assert(items.take(0) =~= Seq::empty());
        },
        OperandView::FloatRegister(n) => {
            lemma_extended(b, s.pos, 0x27, 2, plain_bytes(0, n as nat));
            lemma_plain(b, s.pos + 1, 0, n as nat);
        },
        OperandView::Allocation(entries) => {
            let count = plain_bytes(0, entries.len());
            let rest = allocation_bytes(entries, 0);
            assert(operand_bytes(operand, atoms) =~= seq![0x37u8] + (count + rest));
            lemma_extended(b, s.pos, 0x37, 3, count + rest);
            lemma_parts(b, s.pos + 1, count, rest);
            lemma_plain(b, s.pos + 1, 0, entries.len());
            lemma_allocations(b, s.pos + 1 + count.len(), entries, 0);
            assert(entries.take(0) =~= Seq::empty());
        },
        OperandView::Literal(n) => {
            lemma_extended(b, s.pos, 0x47, 4, plain_bytes(0, n as nat));
            lemma_plain(b, s.pos + 1, 0, n as nat);
        },
        OperandView::TypedRegister { register, type_index } => {
            let inner = operand_bytes(*register, atoms);
            let index = plain_bytes(0, type_index as nat);
            assert(operand_bytes(operand, atoms) =~= seq![0x57u8] + (inner + index));
            lemma_extended(b, s.pos, 0x57, 5, inner + index);
            lemma_parts(b, s.pos + 1, inner, index);
            law_operand_is_read_back(*register, b, atoms, known, moved(s, s.pos + 1));
            lemma_plain(b, s.pos + 1 + inner.len(), 0, type_index as nat);
        },
    }
}

proof fn lemma_list_is_read_back(
    items: Seq<OperandView>,
    i: nat,
    b: Seq<u8>,
    atoms: Seq<Atom>,
    known: nat,
    s: CompactState,
)
    requires
        i <= items.len(),
        forall|j: int| 0 <= j < items.len() ==> operand_fits(#[trigger] items[j], atoms, known),
        has_part(b, s.pos, list_bytes(items, atoms, i)),
    ensures
        operands_at(b, atoms, known, (items.len() - i) as nat, items.take(i as int), s) == (
            Ok::<Seq<OperandView>, LoadFault>(items),
            moved(s, s.pos + list_bytes(items, atoms, i).len()),
        ),
    decreases items, items.len() - i,
{
    if i == items.len() {
        assert(items.take(i as int) =~= items);
    } else {
        let operand = items[i as int];
        let bytes = operand_bytes(operand, atoms);
        assert(decreases_to!(items => items[i as int]));
        lemma_parts(b, s.pos, bytes, list_bytes(items, atoms, i + 1));
        law_operand_is_read_back(operand, b, atoms, known, s);
        lemma_list_is_read_back(items, i + 1, b, atoms, known, moved(s, s.pos + bytes.len()));
        assert(items.take(i as int).push(operand) =~= items.take(i as int + 1));
    }
}

/// The bytes of instructions: of each its opcode, and then its operands.
pub open spec fn code_bytes(items: Seq<Item>, atoms: Seq<Atom>, i: nat) -> Seq<u8>
    decreases items.len() - i,
{
    if i >= items.len() {
        Seq::empty()
    } else {
        seq![items[i as int].opcode] + list_bytes(items[i as int].operands, atoms, 0) + code_bytes(
            items,
            atoms,
            i + 1,
        )
    }
}

/// Whether an instruction can be written: it has as many operands as its opcode says, and
/// these can be written.
pub open spec fn item_fits(item: Item, atoms: Seq<Atom>, known: nat) -> bool {
    &&& item.opcode != 3
    &&& operand_count(item.opcode) == Some(item.operands.len())
    &&& item.opcode == 1 ==> label_number(item.operands[0]) is Ok
    &&& forall|i: int|
        0 <= i < item.operands.len() ==> operand_fits(#[trigger] item.operands[i], atoms, known)
}

proof fn lemma_code_is_read_back(
    items: Seq<Item>,
    i: nat,
    b: Seq<u8>,
    atoms: Seq<Atom>,
    known: nat,
    s: CompactState,
)
    requires
        i <= items.len(),
        forall|j: int| 0 <= j < items.len() ==> item_fits(#[trigger] items[j], atoms, known),
        has_part(b, s.pos, code_bytes(items, atoms, i)),
        b.len() == s.pos + code_bytes(items, atoms, i).len(),
    ensures
        items_at(b, atoms, known, items.take(i as int), s).0 == Ok::<Seq<Item>, LoadFault>(items),
    decreases items.len() - i,
{
    if i == items.len() {
        assert(items.take(i as int) =~= items);
    } else {
        let item = items[i as int];
        assert(item_fits(item, atoms, known));
        let operands = list_bytes(item.operands, atoms, 0);
        let rest = code_bytes(items, atoms, i + 1);
        lemma_parts(b, s.pos, seq![item.opcode] + operands, rest);
        lemma_parts(b, s.pos, seq![item.opcode], operands);
        assert(b[s.pos as int + 0] == seq![item.opcode][0]);
        let t = moved(s, s.pos + 1);
        lemma_list_is_read_back(item.operands, 0, b, atoms, known, t);
        assert(item.operands.take(0) =~= Seq::empty());
        let u = moved(t, t.pos + operands.len());
        assert(item_at(b, atoms, known, item.opcode, t) == (Ok::<Item, LoadFault>(item), u));
        lemma_code_is_read_back(items, i + 1, b, atoms, known, u);
        assert(items.take(i as int).push(item) =~= items.take(i as int + 1));
    }
}

/// Code that was written is read back: opcodes and operands, in their order.
pub proof fn law_code_is_read_back(items: Seq<Item>, atoms: Seq<Atom>, known: nat)
    requires
        forall|j: int| 0 <= j < items.len() ==> item_fits(#[trigger] items[j], atoms, known),
        code_bytes(items, atoms, 0).len() <= usize::MAX,
    ensures
        items_at(code_bytes(items, atoms, 0), atoms, known, Seq::empty(), code_start()).0 == Ok::<
            Seq<Item>,
            LoadFault,
        >(items),
{
    lemma_code_is_read_back(items, 0, code_bytes(items, atoms, 0), atoms, known, code_start());
    assert(items.take(0) =~= Seq::empty());
}

} // verus!

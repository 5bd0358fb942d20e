//! The texts by which messages name instructions.

use vstd::prelude::*;
use vstd::string::*;
use crate::text::{decimal_u64, nat_text};
use super::compact::{operand_text, operand_views, operands_string, operands_text, Operand};
use super::instruction::{
    BifOp, BinaryOp, ComparisonOp, Instruction, InstructionView, MapOp, TypeTestOp,
};

verus! {

/// The name of a type test.
pub open spec fn type_test_name_of(op: TypeTestOp) -> Seq<char> {
    match op {
        TypeTestOp::IsInteger => "IsInteger"@,
        TypeTestOp::IsFloat => "IsFloat"@,
        TypeTestOp::IsNumber => "IsNumber"@,
        TypeTestOp::IsAtom => "IsAtom"@,
        TypeTestOp::IsPid => "IsPid"@,
        TypeTestOp::IsReference => "IsReference"@,
        TypeTestOp::IsPort => "IsPort"@,
        TypeTestOp::IsNil => "IsNil"@,
        TypeTestOp::IsBinary => "IsBinary"@,
        TypeTestOp::IsList => "IsList"@,
        TypeTestOp::IsNonemptyList => "IsNonemptyList"@,
        TypeTestOp::IsTuple => "IsTuple"@,
        TypeTestOp::IsFunction => "IsFunction"@,
        TypeTestOp::IsBoolean => "IsBoolean"@,
        TypeTestOp::IsFunction2 => "IsFunction2"@,
        TypeTestOp::IsBitstr => "IsBitstr"@,
        TypeTestOp::IsMap => "IsMap"@,
    }
}

/// The name of a type test.
pub fn type_test_name(op: TypeTestOp) -> (r: &'static str)
    ensures
        r@ == type_test_name_of(op),
{
    match op {
        TypeTestOp::IsInteger => "IsInteger",
        TypeTestOp::IsFloat => "IsFloat",
        TypeTestOp::IsNumber => "IsNumber",
        TypeTestOp::IsAtom => "IsAtom",
        TypeTestOp::IsPid => "IsPid",
        TypeTestOp::IsReference => "IsReference",
        TypeTestOp::IsPort => "IsPort",
        TypeTestOp::IsNil => "IsNil",
        TypeTestOp::IsBinary => "IsBinary",
        TypeTestOp::IsList => "IsList",
        TypeTestOp::IsNonemptyList => "IsNonemptyList",
        TypeTestOp::IsTuple => "IsTuple",
        TypeTestOp::IsFunction => "IsFunction",
        TypeTestOp::IsBoolean => "IsBoolean",
        TypeTestOp::IsFunction2 => "IsFunction2",
        TypeTestOp::IsBitstr => "IsBitstr",
        TypeTestOp::IsMap => "IsMap",
    }
}

/// The name of a comparison.
pub open spec fn comparison_name_of(op: ComparisonOp) -> Seq<char> {
    match op {
        ComparisonOp::Lt => "Lt"@,
        ComparisonOp::Ge => "Ge"@,
        ComparisonOp::Eq => "Eq"@,
        ComparisonOp::Ne => "Ne"@,
        ComparisonOp::EqExact => "EqExact"@,
        ComparisonOp::NeExact => "NeExact"@,
    }
}

/// The name of a comparison.
pub fn comparison_name(op: ComparisonOp) -> (r: &'static str)
    ensures
        r@ == comparison_name_of(op),
{
    match op {
        ComparisonOp::Lt => "Lt",
        ComparisonOp::Ge => "Ge",
        ComparisonOp::Eq => "Eq",
        ComparisonOp::Ne => "Ne",
        ComparisonOp::EqExact => "EqExact",
        ComparisonOp::NeExact => "NeExact",
    }
}

/// The name of a form of built-in call.
pub open spec fn bif_name_of(op: BifOp) -> Seq<char> {
    match op {
        BifOp::Bif0 => "Bif0"@,
        BifOp::Bif1 => "Bif1"@,
        BifOp::Bif2 => "Bif2"@,
        BifOp::GcBif1 => "GcBif1"@,
        BifOp::GcBif2 => "GcBif2"@,
        BifOp::GcBif3 => "GcBif3"@,
    }
}

/// The name of a form of built-in call.
pub fn bif_name(op: BifOp) -> (r: &'static str)
    ensures
        r@ == bif_name_of(op),
{
    match op {
        BifOp::Bif0 => "Bif0",
        BifOp::Bif1 => "Bif1",
        BifOp::Bif2 => "Bif2",
        BifOp::GcBif1 => "GcBif1",
        BifOp::GcBif2 => "GcBif2",
        BifOp::GcBif3 => "GcBif3",
    }
}

/// The name of a binary operation.
pub open spec fn binary_op_name_of(op: BinaryOp) -> Seq<char> {
    match op {
        BinaryOp::BsGetInteger2 => "BsGetInteger2"@,
        BinaryOp::BsGetFloat2 => "BsGetFloat2"@,
        BinaryOp::BsGetBinary2 => "BsGetBinary2"@,
        BinaryOp::BsSkipBits2 => "BsSkipBits2"@,
        BinaryOp::BsTestTail2 => "BsTestTail2"@,
        BinaryOp::BsTestUnit => "BsTestUnit"@,
        BinaryOp::BsMatchString => "BsMatchString"@,
        BinaryOp::BsInitWritable => "BsInitWritable"@,
        BinaryOp::BsGetUtf8 => "BsGetUtf8"@,
        BinaryOp::BsSkipUtf8 => "BsSkipUtf8"@,
        BinaryOp::BsGetUtf16 => "BsGetUtf16"@,
        BinaryOp::BsSkipUtf16 => "BsSkipUtf16"@,
        BinaryOp::BsGetUtf32 => "BsGetUtf32"@,
        BinaryOp::BsSkipUtf32 => "BsSkipUtf32"@,
        BinaryOp::BsGetTail => "BsGetTail"@,
        BinaryOp::BsStartMatch3 => "BsStartMatch3"@,
        BinaryOp::BsGetPosition => "BsGetPosition"@,
        BinaryOp::BsSetPosition => "BsSetPosition"@,
        BinaryOp::BsStartMatch4 => "BsStartMatch4"@,
        BinaryOp::BsCreateBin => "BsCreateBin"@,
        BinaryOp::BsMatch => "BsMatch"@,
    }
}

/// The name of a binary operation.
pub fn binary_op_name(op: BinaryOp) -> (r: &'static str)
    ensures
        r@ == binary_op_name_of(op),
{
    match op {
        BinaryOp::BsGetInteger2 => "BsGetInteger2",
        BinaryOp::BsGetFloat2 => "BsGetFloat2",
        BinaryOp::BsGetBinary2 => "BsGetBinary2",
        BinaryOp::BsSkipBits2 => "BsSkipBits2",
        BinaryOp::BsTestTail2 => "BsTestTail2",
        BinaryOp::BsTestUnit => "BsTestUnit",
        BinaryOp::BsMatchString => "BsMatchString",
        BinaryOp::BsInitWritable => "BsInitWritable",
        BinaryOp::BsGetUtf8 => "BsGetUtf8",
        BinaryOp::BsSkipUtf8 => "BsSkipUtf8",
        BinaryOp::BsGetUtf16 => "BsGetUtf16",
        BinaryOp::BsSkipUtf16 => "BsSkipUtf16",
        BinaryOp::BsGetUtf32 => "BsGetUtf32",
        BinaryOp::BsSkipUtf32 => "BsSkipUtf32",
        BinaryOp::BsGetTail => "BsGetTail",
        BinaryOp::BsStartMatch3 => "BsStartMatch3",
        BinaryOp::BsGetPosition => "BsGetPosition",
        BinaryOp::BsSetPosition => "BsSetPosition",
        BinaryOp::BsStartMatch4 => "BsStartMatch4",
        BinaryOp::BsCreateBin => "BsCreateBin",
        BinaryOp::BsMatch => "BsMatch",
    }
}

/// The name of a map operation.
pub open spec fn map_op_name_of(op: MapOp) -> Seq<char> {
    match op {
        MapOp::PutMapAssoc => "PutMapAssoc"@,
        MapOp::PutMapExact => "PutMapExact"@,
        MapOp::HasMapFields => "HasMapFields"@,
        MapOp::GetMapElements => "GetMapElements"@,
    }
}

/// The name of a map operation.
pub fn map_op_name(op: MapOp) -> (r: &'static str)
    ensures
        r@ == map_op_name_of(op),
{
    match op {
        MapOp::PutMapAssoc => "PutMapAssoc",
        MapOp::PutMapExact => "PutMapExact",
        MapOp::HasMapFields => "HasMapFields",
        MapOp::GetMapElements => "GetMapElements",
    }
}

fn append_operand(text: String, label: &str, operand: &Operand) -> (r: String)
    ensures
        r@ == text@ + label@ + operand_text(operand.view()),
{
    let mut text = text;
    text.append(label);
    text.append(operand.debug_string().as_str());
    text
}

fn append_operands(text: String, label: &str, operands: &Vec<Operand>) -> (r: String)
    ensures
        r@ == text@ + label@ + operands_text(operand_views(operands@), operands@.len()) + "]"@,
{
    let mut text = text;
    text.append(label);
    text.append(operands_string(operands).as_str());
    text.append("]");
    text
}

fn append_text(text: String, more: &str) -> (r: String)
    ensures
        r@ == text@ + more@,
{
    let mut text = text;
    text.append(more);
    text
}

/// The text of an instruction: its name and operands, or, of one that has no
/// form of its own, its name and opcode.
pub open spec fn instruction_text(instruction: InstructionView) -> Seq<char> {
    match instruction {
        InstructionView::Label { label } => "Label { label: "@ + nat_text(label as nat) + " }"@,
        InstructionView::FuncInfo { module, function, arity } => "FuncInfo { module: "@ + operand_text(module) + ", function: "@ + operand_text(function) + ", arity: "@ + operand_text(arity) + " }"@,
        InstructionView::Move { source, destination } => "Move { source: "@ + operand_text(source) + ", destination: "@ + operand_text(destination) + " }"@,
        InstructionView::Call { arity, label } => "Call { arity: "@ + operand_text(arity) + ", label: "@ + operand_text(label) + " }"@,
        InstructionView::CallOnly { arity, label } => "CallOnly { arity: "@ + operand_text(arity) + ", label: "@ + operand_text(label) + " }"@,
        InstructionView::CallExt { arity, import } => "CallExt { arity: "@ + operand_text(arity) + ", import: "@ + operand_text(import) + " }"@,
        InstructionView::CallExtOnly { arity, import } => "CallExtOnly { arity: "@ + operand_text(arity) + ", import: "@ + operand_text(import) + " }"@,
        InstructionView::Fmove { source, dest } => "Fmove { source: "@ + operand_text(source) + ", dest: "@ + operand_text(dest) + " }"@,
        InstructionView::Fconv { source, dest } => "Fconv { source: "@ + operand_text(source) + ", dest: "@ + operand_text(dest) + " }"@,
        InstructionView::Fadd { fail, left, right, dest } => "Fadd { fail: "@ + operand_text(fail) + ", left: "@ + operand_text(left) + ", right: "@ + operand_text(right) + ", dest: "@ + operand_text(dest) + " }"@,
        InstructionView::Fsub { fail, left, right, dest } => "Fsub { fail: "@ + operand_text(fail) + ", left: "@ + operand_text(left) + ", right: "@ + operand_text(right) + ", dest: "@ + operand_text(dest) + " }"@,
        InstructionView::Fmul { fail, left, right, dest } => "Fmul { fail: "@ + operand_text(fail) + ", left: "@ + operand_text(left) + ", right: "@ + operand_text(right) + ", dest: "@ + operand_text(dest) + " }"@,
        InstructionView::Fdiv { fail, left, right, dest } => "Fdiv { fail: "@ + operand_text(fail) + ", left: "@ + operand_text(left) + ", right: "@ + operand_text(right) + ", dest: "@ + operand_text(dest) + " }"@,
        InstructionView::Fnegate { fail, source, dest } => "Fnegate { fail: "@ + operand_text(fail) + ", source: "@ + operand_text(source) + ", dest: "@ + operand_text(dest) + " }"@,
        InstructionView::CallLast { arity, label, deallocate } => "CallLast { arity: "@ + operand_text(arity) + ", label: "@ + operand_text(label) + ", deallocate: "@ + operand_text(deallocate) + " }"@,
        InstructionView::CallExtLast { arity, import, deallocate } => "CallExtLast { arity: "@ + operand_text(arity) + ", import: "@ + operand_text(import) + ", deallocate: "@ + operand_text(deallocate) + " }"@,
        InstructionView::Return => "Return"@,
        InstructionView::Allocate { stack_need, live } => "Allocate { stack_need: "@ + operand_text(stack_need) + ", live: "@ + operand_text(live) + " }"@,
        InstructionView::AllocateHeap { stack_need, heap_need, live } => "AllocateHeap { stack_need: "@ + operand_text(stack_need) + ", heap_need: "@ + operand_text(heap_need) + ", live: "@ + operand_text(live) + " }"@,
        InstructionView::AllocateZero { stack_need, live } => "AllocateZero { stack_need: "@ + operand_text(stack_need) + ", live: "@ + operand_text(live) + " }"@,
        InstructionView::Deallocate { words } => "Deallocate { words: "@ + operand_text(words) + " }"@,
        InstructionView::TestHeap { heap_need, live } => "TestHeap { heap_need: "@ + operand_text(heap_need) + ", live: "@ + operand_text(live) + " }"@,
        InstructionView::PutList { head, tail, destination } => "PutList { head: "@ + operand_text(head) + ", tail: "@ + operand_text(tail) + ", destination: "@ + operand_text(destination) + " }"@,
        InstructionView::PutTuple2 { destination, elements } => "PutTuple2 { destination: "@ + operand_text(destination) + ", elements: "@ + operand_text(elements) + " }"@,
        InstructionView::GetTupleElement { source, index, destination } => "GetTupleElement { source: "@ + operand_text(source) + ", index: "@ + operand_text(index) + ", destination: "@ + operand_text(destination) + " }"@,
        InstructionView::GetList { source, head, tail } => "GetList { source: "@ + operand_text(source) + ", head: "@ + operand_text(head) + ", tail: "@ + operand_text(tail) + " }"@,
        InstructionView::GetHd { source, destination } => "GetHd { source: "@ + operand_text(source) + ", destination: "@ + operand_text(destination) + " }"@,
        InstructionView::GetTl { source, destination } => "GetTl { source: "@ + operand_text(source) + ", destination: "@ + operand_text(destination) + " }"@,
        InstructionView::TypeTest { op, fail, value } => "TypeTest { op: "@ + type_test_name_of(op) + ", fail: "@ + operand_text(fail) + ", value: "@ + operand_text(value) + " }"@,
        InstructionView::Comparison { op, fail, left, right } => "Comparison { op: "@ + comparison_name_of(op) + ", fail: "@ + operand_text(fail) + ", left: "@ + operand_text(left) + ", right: "@ + operand_text(right) + " }"@,
        InstructionView::TestArity { fail, tuple, arity } => "TestArity { fail: "@ + operand_text(fail) + ", tuple: "@ + operand_text(tuple) + ", arity: "@ + operand_text(arity) + " }"@,
        InstructionView::IsTaggedTuple { fail, value, arity, tag } => "IsTaggedTuple { fail: "@ + operand_text(fail) + ", value: "@ + operand_text(value) + ", arity: "@ + operand_text(arity) + ", tag: "@ + operand_text(tag) + " }"@,
        InstructionView::SelectVal { value, fail, list } => "SelectVal { value: "@ + operand_text(value) + ", fail: "@ + operand_text(fail) + ", list: "@ + operand_text(list) + " }"@,
        InstructionView::SelectTupleArity { value, fail, list } => "SelectTupleArity { value: "@ + operand_text(value) + ", fail: "@ + operand_text(fail) + ", list: "@ + operand_text(list) + " }"@,
        InstructionView::Jump { target } => "Jump { target: "@ + operand_text(target) + " }"@,
        InstructionView::Bif { op, operands } => "Bif { op: "@ + bif_name_of(op) + ", operands: ["@ + operands_text(operands, operands.len()) + "]"@ + " }"@,
        InstructionView::Send => "Send"@,
        InstructionView::RemoveMessage => "RemoveMessage"@,
        InstructionView::Timeout => "Timeout"@,
        InstructionView::LoopRec { fail, destination } => "LoopRec { fail: "@ + operand_text(fail) + ", destination: "@ + operand_text(destination) + " }"@,
        InstructionView::LoopRecEnd { fail } => "LoopRecEnd { fail: "@ + operand_text(fail) + " }"@,
        InstructionView::Wait { fail } => "Wait { fail: "@ + operand_text(fail) + " }"@,
        InstructionView::WaitTimeout { fail, timeout } => "WaitTimeout { fail: "@ + operand_text(fail) + ", timeout: "@ + operand_text(timeout) + " }"@,
        InstructionView::Catch { destination, label } => "Catch { destination: "@ + operand_text(destination) + ", label: "@ + operand_text(label) + " }"@,
        InstructionView::CatchEnd { source } => "CatchEnd { source: "@ + operand_text(source) + " }"@,
        InstructionView::Try { destination, label } => "Try { destination: "@ + operand_text(destination) + ", label: "@ + operand_text(label) + " }"@,
        InstructionView::TryEnd { source } => "TryEnd { source: "@ + operand_text(source) + " }"@,
        InstructionView::TryCase { source } => "TryCase { source: "@ + operand_text(source) + " }"@,
        InstructionView::TryCaseEnd { source } => "TryCaseEnd { source: "@ + operand_text(source) + " }"@,
        InstructionView::BinaryOp { op, operands } => "BinaryOp { op: "@ + binary_op_name_of(op) + ", operands: ["@ + operands_text(operands, operands.len()) + "]"@ + " }"@,
        InstructionView::MapOp { op, operands } => "MapOp { op: "@ + map_op_name_of(op) + ", operands: ["@ + operands_text(operands, operands.len()) + "]"@ + " }"@,
        InstructionView::MakeFun { operands } => "MakeFun { operands: ["@ + operands_text(operands, operands.len()) + "]"@ + " }"@,
        InstructionView::CallFun { arity } => "CallFun { arity: "@ + operand_text(arity) + " }"@,
        InstructionView::CallFun2 { function, arity, destination } => "CallFun2 { function: "@ + operand_text(function) + ", arity: "@ + operand_text(arity) + ", destination: "@ + operand_text(destination) + " }"@,
        InstructionView::Apply { arity } => "Apply { arity: "@ + operand_text(arity) + " }"@,
        InstructionView::ApplyLast { arity, deallocate } => "ApplyLast { arity: "@ + operand_text(arity) + ", deallocate: "@ + operand_text(deallocate) + " }"@,
        InstructionView::Badmatch { value } => "Badmatch { value: "@ + operand_text(value) + " }"@,
        InstructionView::Badrecord { value } => "Badrecord { value: "@ + operand_text(value) + " }"@,
        InstructionView::CaseEnd { value } => "CaseEnd { value: "@ + operand_text(value) + " }"@,
        InstructionView::IfEnd => "IfEnd"@,
        InstructionView::Raise { stacktrace, reason } => "Raise { stacktrace: "@ + operand_text(stacktrace) + ", reason: "@ + operand_text(reason) + " }"@,
        InstructionView::RawRaise => "RawRaise"@,
        InstructionView::Line { index } => "Line { index: "@ + operand_text(index) + " }"@,
        InstructionView::Trim { words, remaining } => "Trim { words: "@ + operand_text(words) + ", remaining: "@ + operand_text(remaining) + " }"@,
        InstructionView::OnLoad => "OnLoad"@,
        InstructionView::BuildStacktrace => "BuildStacktrace"@,
        InstructionView::Swap { left, right } => "Swap { left: "@ + operand_text(left) + ", right: "@ + operand_text(right) + " }"@,
        InstructionView::InitYregs { registers } => "InitYregs { registers: "@ + operand_text(registers) + " }"@,
        InstructionView::NifStart => "NifStart"@,
        InstructionView::UpdateRecord { operands } => "UpdateRecord { operands: ["@ + operands_text(operands, operands.len()) + "]"@ + " }"@,
        InstructionView::RecvMarkerReserve { dest } => "RecvMarkerReserve { dest: "@ + operand_text(dest) + " }"@,
        InstructionView::RecvMarkerBind { marker, label } => "RecvMarkerBind { marker: "@ + operand_text(marker) + ", label: "@ + operand_text(label) + " }"@,
        InstructionView::RecvMarkerClear { marker } => "RecvMarkerClear { marker: "@ + operand_text(marker) + " }"@,
        InstructionView::RecvMarkerUse { marker } => "RecvMarkerUse { marker: "@ + operand_text(marker) + " }"@,
        InstructionView::Generic { opcode, name, .. } => name + " ("@ + nat_text(opcode as nat) + ")"@,
    }
}

/// The text of an instruction.
#[verifier::rlimit(40)]
pub fn opcode_name(instruction: &Instruction) -> (r: String)
    ensures
        r@ == instruction_text(instruction.view()),
{
    match instruction {
        Instruction::Label { label } => {
            let text = append_text("Label { label: ".to_owned(), decimal_u64(*label as u64).as_str());
            append_text(text, " }")
        },
        Instruction::FuncInfo { module, function, arity } => {
            let text = append_operand(String::new(), "FuncInfo { module: ", module);
            let text = append_operand(text, ", function: ", function);
            let text = append_operand(text, ", arity: ", arity);
            append_text(text, " }")
        },
        Instruction::Move { source, destination } => {
            let text = append_operand(String::new(), "Move { source: ", source);
            let text = append_operand(text, ", destination: ", destination);
            append_text(text, " }")
        },
        Instruction::Call { arity, label } => {
            let text = append_operand(String::new(), "Call { arity: ", arity);
            let text = append_operand(text, ", label: ", label);
            append_text(text, " }")
        },
        Instruction::CallOnly { arity, label } => {
            let text = append_operand(String::new(), "CallOnly { arity: ", arity);
            let text = append_operand(text, ", label: ", label);
            append_text(text, " }")
        },
        Instruction::CallExt { arity, import } => {
            let text = append_operand(String::new(), "CallExt { arity: ", arity);
            let text = append_operand(text, ", import: ", import);
            append_text(text, " }")
        },
        Instruction::CallExtOnly { arity, import } => {
            let text = append_operand(String::new(), "CallExtOnly { arity: ", arity);
            let text = append_operand(text, ", import: ", import);
            append_text(text, " }")
        },
        Instruction::Fmove { source, dest } => {
            let text = append_operand(String::new(), "Fmove { source: ", source);
            let text = append_operand(text, ", dest: ", dest);
            append_text(text, " }")
        },
        Instruction::Fconv { source, dest } => {
            let text = append_operand(String::new(), "Fconv { source: ", source);
            let text = append_operand(text, ", dest: ", dest);
            append_text(text, " }")
        },
        Instruction::Fadd { fail, left, right, dest } => {
            let text = append_operand(String::new(), "Fadd { fail: ", fail);
            let text = append_operand(text, ", left: ", left);
            let text = append_operand(text, ", right: ", right);
            let text = append_operand(text, ", dest: ", dest);
            append_text(text, " }")
        },
        Instruction::Fsub { fail, left, right, dest } => {
            let text = append_operand(String::new(), "Fsub { fail: ", fail);
            let text = append_operand(text, ", left: ", left);
            let text = append_operand(text, ", right: ", right);
            let text = append_operand(text, ", dest: ", dest);
            append_text(text, " }")
        },
        Instruction::Fmul { fail, left, right, dest } => {
            let text = append_operand(String::new(), "Fmul { fail: ", fail);
            let text = append_operand(text, ", left: ", left);
            let text = append_operand(text, ", right: ", right);
            let text = append_operand(text, ", dest: ", dest);
            append_text(text, " }")
        },
        Instruction::Fdiv { fail, left, right, dest } => {
            let text = append_operand(String::new(), "Fdiv { fail: ", fail);
            let text = append_operand(text, ", left: ", left);
            let text = append_operand(text, ", right: ", right);
            let text = append_operand(text, ", dest: ", dest);
            append_text(text, " }")
        },
        Instruction::Fnegate { fail, source, dest } => {
            let text = append_operand(String::new(), "Fnegate { fail: ", fail);
            let text = append_operand(text, ", source: ", source);
            let text = append_operand(text, ", dest: ", dest);
            append_text(text, " }")
        },
        Instruction::CallLast { arity, label, deallocate } => {
            let text = append_operand(String::new(), "CallLast { arity: ", arity);
            let text = append_operand(text, ", label: ", label);
            let text = append_operand(text, ", deallocate: ", deallocate);
            append_text(text, " }")
        },
        Instruction::CallExtLast { arity, import, deallocate } => {
            let text = append_operand(String::new(), "CallExtLast { arity: ", arity);
            let text = append_operand(text, ", import: ", import);
            let text = append_operand(text, ", deallocate: ", deallocate);
            append_text(text, " }")
        },
        Instruction::Return => "Return".to_owned(),
        Instruction::Allocate { stack_need, live } => {
            let text = append_operand(String::new(), "Allocate { stack_need: ", stack_need);
            let text = append_operand(text, ", live: ", live);
            append_text(text, " }")
        },
        Instruction::AllocateHeap { stack_need, heap_need, live } => {
            let text = append_operand(String::new(), "AllocateHeap { stack_need: ", stack_need);
            let text = append_operand(text, ", heap_need: ", heap_need);
            let text = append_operand(text, ", live: ", live);
            append_text(text, " }")
        },
        Instruction::AllocateZero { stack_need, live } => {
            let text = append_operand(String::new(), "AllocateZero { stack_need: ", stack_need);
            let text = append_operand(text, ", live: ", live);
            append_text(text, " }")
        },
        Instruction::Deallocate { words } => {
            let text = append_operand(String::new(), "Deallocate { words: ", words);
            append_text(text, " }")
        },
        Instruction::TestHeap { heap_need, live } => {
            let text = append_operand(String::new(), "TestHeap { heap_need: ", heap_need);
            let text = append_operand(text, ", live: ", live);
            append_text(text, " }")
        },
        Instruction::PutList { head, tail, destination } => {
            let text = append_operand(String::new(), "PutList { head: ", head);
            let text = append_operand(text, ", tail: ", tail);
            let text = append_operand(text, ", destination: ", destination);
            append_text(text, " }")
        },
        Instruction::PutTuple2 { destination, elements } => {
            let text = append_operand(String::new(), "PutTuple2 { destination: ", destination);
            let text = append_operand(text, ", elements: ", elements);
            append_text(text, " }")
        },
        Instruction::GetTupleElement { source, index, destination } => {
            let text = append_operand(String::new(), "GetTupleElement { source: ", source);
            let text = append_operand(text, ", index: ", index);
            let text = append_operand(text, ", destination: ", destination);
            append_text(text, " }")
        },
        Instruction::GetList { source, head, tail } => {
            let text = append_operand(String::new(), "GetList { source: ", source);
            let text = append_operand(text, ", head: ", head);
            let text = append_operand(text, ", tail: ", tail);
            append_text(text, " }")
        },
        Instruction::GetHd { source, destination } => {
            let text = append_operand(String::new(), "GetHd { source: ", source);
            let text = append_operand(text, ", destination: ", destination);
            append_text(text, " }")
        },
        Instruction::GetTl { source, destination } => {
            let text = append_operand(String::new(), "GetTl { source: ", source);
            let text = append_operand(text, ", destination: ", destination);
            append_text(text, " }")
        },
        Instruction::TypeTest { op, fail, value } => {
            let text = append_text("TypeTest { op: ".to_owned(), type_test_name(*op));
            let text = append_operand(text, ", fail: ", fail);
            let text = append_operand(text, ", value: ", value);
            append_text(text, " }")
        },
        Instruction::Comparison { op, fail, left, right } => {
            let text = append_text("Comparison { op: ".to_owned(), comparison_name(*op));
            let text = append_operand(text, ", fail: ", fail);
            let text = append_operand(text, ", left: ", left);
            let text = append_operand(text, ", right: ", right);
            append_text(text, " }")
        },
        Instruction::TestArity { fail, tuple, arity } => {
            let text = append_operand(String::new(), "TestArity { fail: ", fail);
            let text = append_operand(text, ", tuple: ", tuple);
            let text = append_operand(text, ", arity: ", arity);
            append_text(text, " }")
        },
        Instruction::IsTaggedTuple { fail, value, arity, tag } => {
            let text = append_operand(String::new(), "IsTaggedTuple { fail: ", fail);
            let text = append_operand(text, ", value: ", value);
            let text = append_operand(text, ", arity: ", arity);
            let text = append_operand(text, ", tag: ", tag);
            append_text(text, " }")
        },
        Instruction::SelectVal { value, fail, list } => {
            let text = append_operand(String::new(), "SelectVal { value: ", value);
            let text = append_operand(text, ", fail: ", fail);
            let text = append_operand(text, ", list: ", list);
            append_text(text, " }")
        },
        Instruction::SelectTupleArity { value, fail, list } => {
            let text = append_operand(String::new(), "SelectTupleArity { value: ", value);
            let text = append_operand(text, ", fail: ", fail);
            let text = append_operand(text, ", list: ", list);
            append_text(text, " }")
        },
        Instruction::Jump { target } => {
            let text = append_operand(String::new(), "Jump { target: ", target);
            append_text(text, " }")
        },
        Instruction::Bif { op, operands } => {
            let text = append_text("Bif { op: ".to_owned(), bif_name(*op));
            let text = append_operands(text, ", operands: [", operands);
            append_text(text, " }")
        },
        Instruction::Send => "Send".to_owned(),
        Instruction::RemoveMessage => "RemoveMessage".to_owned(),
        Instruction::Timeout => "Timeout".to_owned(),
        Instruction::LoopRec { fail, destination } => {
            let text = append_operand(String::new(), "LoopRec { fail: ", fail);
            let text = append_operand(text, ", destination: ", destination);
            append_text(text, " }")
        },
        Instruction::LoopRecEnd { fail } => {
            let text = append_operand(String::new(), "LoopRecEnd { fail: ", fail);
            append_text(text, " }")
        },
        Instruction::Wait { fail } => {
            let text = append_operand(String::new(), "Wait { fail: ", fail);
            append_text(text, " }")
        },
        Instruction::WaitTimeout { fail, timeout } => {
            let text = append_operand(String::new(), "WaitTimeout { fail: ", fail);
            let text = append_operand(text, ", timeout: ", timeout);
            append_text(text, " }")
        },
        Instruction::Catch { destination, label } => {
            let text = append_operand(String::new(), "Catch { destination: ", destination);
            let text = append_operand(text, ", label: ", label);
            append_text(text, " }")
        },
        Instruction::CatchEnd { source } => {
            let text = append_operand(String::new(), "CatchEnd { source: ", source);
            append_text(text, " }")
        },
        Instruction::Try { destination, label } => {
            let text = append_operand(String::new(), "Try { destination: ", destination);
            let text = append_operand(text, ", label: ", label);
            append_text(text, " }")
        },
        Instruction::TryEnd { source } => {
            let text = append_operand(String::new(), "TryEnd { source: ", source);
            append_text(text, " }")
        },
        Instruction::TryCase { source } => {
            let text = append_operand(String::new(), "TryCase { source: ", source);
            append_text(text, " }")
        },
        Instruction::TryCaseEnd { source } => {
            let text = append_operand(String::new(), "TryCaseEnd { source: ", source);
            append_text(text, " }")
        },
        Instruction::BinaryOp { op, operands } => {
            let text = append_text("BinaryOp { op: ".to_owned(), binary_op_name(*op));
            let text = append_operands(text, ", operands: [", operands);
            append_text(text, " }")
        },
        Instruction::MapOp { op, operands } => {
            let text = append_text("MapOp { op: ".to_owned(), map_op_name(*op));
            let text = append_operands(text, ", operands: [", operands);
            append_text(text, " }")
        },
        Instruction::MakeFun { operands } => {
            let text = append_operands(String::new(), "MakeFun { operands: [", operands);
            append_text(text, " }")
        },
        Instruction::CallFun { arity } => {
            let text = append_operand(String::new(), "CallFun { arity: ", arity);
            append_text(text, " }")
        },
        Instruction::CallFun2 { function, arity, destination } => {
            let text = append_operand(String::new(), "CallFun2 { function: ", function);
            let text = append_operand(text, ", arity: ", arity);
            let text = append_operand(text, ", destination: ", destination);
            append_text(text, " }")
        },
        Instruction::Apply { arity } => {
            let text = append_operand(String::new(), "Apply { arity: ", arity);
            append_text(text, " }")
        },
        Instruction::ApplyLast { arity, deallocate } => {
            let text = append_operand(String::new(), "ApplyLast { arity: ", arity);
            let text = append_operand(text, ", deallocate: ", deallocate);
            append_text(text, " }")
        },
        Instruction::Badmatch { value } => {
            let text = append_operand(String::new(), "Badmatch { value: ", value);
            append_text(text, " }")
        },
        Instruction::Badrecord { value } => {
            let text = append_operand(String::new(), "Badrecord { value: ", value);
            append_text(text, " }")
        },
        Instruction::CaseEnd { value } => {
            let text = append_operand(String::new(), "CaseEnd { value: ", value);
            append_text(text, " }")
        },
        Instruction::IfEnd => "IfEnd".to_owned(),
        Instruction::Raise { stacktrace, reason } => {
            let text = append_operand(String::new(), "Raise { stacktrace: ", stacktrace);
            let text = append_operand(text, ", reason: ", reason);
            append_text(text, " }")
        },
        Instruction::RawRaise => "RawRaise".to_owned(),
        Instruction::Line { index } => {
            let text = append_operand(String::new(), "Line { index: ", index);
            append_text(text, " }")
        },
        Instruction::Trim { words, remaining } => {
            let text = append_operand(String::new(), "Trim { words: ", words);
            let text = append_operand(text, ", remaining: ", remaining);
            append_text(text, " }")
        },
        Instruction::OnLoad => "OnLoad".to_owned(),
        Instruction::BuildStacktrace => "BuildStacktrace".to_owned(),
        Instruction::Swap { left, right } => {
            let text = append_operand(String::new(), "Swap { left: ", left);
            let text = append_operand(text, ", right: ", right);
            append_text(text, " }")
        },
        Instruction::InitYregs { registers } => {
            let text = append_operand(String::new(), "InitYregs { registers: ", registers);
            append_text(text, " }")
        },
        Instruction::NifStart => "NifStart".to_owned(),
        Instruction::UpdateRecord { operands } => {
            let text = append_operands(String::new(), "UpdateRecord { operands: [", operands);
            append_text(text, " }")
        },
        Instruction::RecvMarkerReserve { dest } => {
            let text = append_operand(String::new(), "RecvMarkerReserve { dest: ", dest);
            append_text(text, " }")
        },
        Instruction::RecvMarkerBind { marker, label } => {
            let text = append_operand(String::new(), "RecvMarkerBind { marker: ", marker);
            let text = append_operand(text, ", label: ", label);
            append_text(text, " }")
        },
        Instruction::RecvMarkerClear { marker } => {
            let text = append_operand(String::new(), "RecvMarkerClear { marker: ", marker);
            append_text(text, " }")
        },
        Instruction::RecvMarkerUse { marker } => {
            let text = append_operand(String::new(), "RecvMarkerUse { marker: ", marker);
            append_text(text, " }")
        },
        Instruction::Generic { opcode, name, .. } => {
            let mut text = (*name).to_owned();
            text.append(" (");
            text.append(decimal_u64(*opcode as u64).as_str());
            text.append(")");
            text
        },
    }
}

/// What messages call the operations of instructions.
pub proof fn law_operations_are_called_by_their_names()
    ensures
        type_test_name_of(TypeTestOp::IsInteger) == "IsInteger"@,
        type_test_name_of(TypeTestOp::IsFloat) == "IsFloat"@,
        type_test_name_of(TypeTestOp::IsNumber) == "IsNumber"@,
        type_test_name_of(TypeTestOp::IsAtom) == "IsAtom"@,
        type_test_name_of(TypeTestOp::IsPid) == "IsPid"@,
        type_test_name_of(TypeTestOp::IsReference) == "IsReference"@,
        type_test_name_of(TypeTestOp::IsPort) == "IsPort"@,
        type_test_name_of(TypeTestOp::IsNil) == "IsNil"@,
        type_test_name_of(TypeTestOp::IsBinary) == "IsBinary"@,
        type_test_name_of(TypeTestOp::IsList) == "IsList"@,
        type_test_name_of(TypeTestOp::IsNonemptyList) == "IsNonemptyList"@,
        type_test_name_of(TypeTestOp::IsTuple) == "IsTuple"@,
        type_test_name_of(TypeTestOp::IsFunction) == "IsFunction"@,
        type_test_name_of(TypeTestOp::IsBoolean) == "IsBoolean"@,
        type_test_name_of(TypeTestOp::IsFunction2) == "IsFunction2"@,
        type_test_name_of(TypeTestOp::IsBitstr) == "IsBitstr"@,
        type_test_name_of(TypeTestOp::IsMap) == "IsMap"@,
        comparison_name_of(ComparisonOp::Lt) == "Lt"@,
        comparison_name_of(ComparisonOp::Ge) == "Ge"@,
        comparison_name_of(ComparisonOp::Eq) == "Eq"@,
        comparison_name_of(ComparisonOp::Ne) == "Ne"@,
        comparison_name_of(ComparisonOp::EqExact) == "EqExact"@,
        comparison_name_of(ComparisonOp::NeExact) == "NeExact"@,
        bif_name_of(BifOp::Bif0) == "Bif0"@,
        bif_name_of(BifOp::Bif1) == "Bif1"@,
        bif_name_of(BifOp::Bif2) == "Bif2"@,
        bif_name_of(BifOp::GcBif1) == "GcBif1"@,
        bif_name_of(BifOp::GcBif2) == "GcBif2"@,
        bif_name_of(BifOp::GcBif3) == "GcBif3"@,
        binary_op_name_of(BinaryOp::BsGetInteger2) == "BsGetInteger2"@,
        binary_op_name_of(BinaryOp::BsGetFloat2) == "BsGetFloat2"@,
        binary_op_name_of(BinaryOp::BsGetBinary2) == "BsGetBinary2"@,
        binary_op_name_of(BinaryOp::BsSkipBits2) == "BsSkipBits2"@,
        binary_op_name_of(BinaryOp::BsTestTail2) == "BsTestTail2"@,
        binary_op_name_of(BinaryOp::BsTestUnit) == "BsTestUnit"@,
        binary_op_name_of(BinaryOp::BsMatchString) == "BsMatchString"@,
        binary_op_name_of(BinaryOp::BsInitWritable) == "BsInitWritable"@,
        binary_op_name_of(BinaryOp::BsGetUtf8) == "BsGetUtf8"@,
        binary_op_name_of(BinaryOp::BsSkipUtf8) == "BsSkipUtf8"@,
        binary_op_name_of(BinaryOp::BsGetUtf16) == "BsGetUtf16"@,
        binary_op_name_of(BinaryOp::BsSkipUtf16) == "BsSkipUtf16"@,
        binary_op_name_of(BinaryOp::BsGetUtf32) == "BsGetUtf32"@,
        binary_op_name_of(BinaryOp::BsSkipUtf32) == "BsSkipUtf32"@,
        binary_op_name_of(BinaryOp::BsGetTail) == "BsGetTail"@,
        binary_op_name_of(BinaryOp::BsStartMatch3) == "BsStartMatch3"@,
        binary_op_name_of(BinaryOp::BsGetPosition) == "BsGetPosition"@,
        binary_op_name_of(BinaryOp::BsSetPosition) == "BsSetPosition"@,
        binary_op_name_of(BinaryOp::BsStartMatch4) == "BsStartMatch4"@,
        binary_op_name_of(BinaryOp::BsCreateBin) == "BsCreateBin"@,
        binary_op_name_of(BinaryOp::BsMatch) == "BsMatch"@,
        map_op_name_of(MapOp::PutMapAssoc) == "PutMapAssoc"@,
        map_op_name_of(MapOp::PutMapExact) == "PutMapExact"@,
        map_op_name_of(MapOp::HasMapFields) == "HasMapFields"@,
        map_op_name_of(MapOp::GetMapElements) == "GetMapElements"@,
{
}

} // verus!

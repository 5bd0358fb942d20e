//! Which instructions can be lowered, and the blocks that they are lowered to.

use std::collections::{HashMap, HashSet};

use vstd::prelude::*;
use crate::loader::decode::compact::{operand_views, Operand, OperandView};
use crate::loader::decode::instruction::{instruction_views, BifOp, Instruction, InstructionView, TypeTestOp};
use crate::loader::decode::names::{instruction_text, opcode_name, type_test_name, type_test_name_of};
use super::allocation::{tuple_elements, tuple_elements_of};
use super::arithmetic::{arithmetic_import, arithmetic_import_of, parse_bif_of, ParsedBif};
use super::common::{
    label_operand, label_operand_of, validate_label_operand, validate_label_operand_of,
    validate_read_operand, validate_read_operand_of, validate_write_operand,
    validate_write_operand_of,
};
use super::error::{
    jit_outcome, opcode_error, opcode_fault, operand_error, operand_fault, operation_error,
    operation_fault, range_error, range_fault, signed_range_error, signed_range_fault, JitError,
    JitFault,
};
use super::guards::{
    immediate_raw_term, immediate_raw_term_of, immediate_usize, immediate_usize_of,
    parse_select_pairs, select_items_of, validate_tag_atom, validate_tag_atom_of, SelectPair,
};
use super::helper::IrType;
use super::ir::{Block, IrOp, Lowering, LoweringView, Value};

verus! {

/// What [`validate_import_operand`] answers.
pub open spec fn validate_import_operand_of(import: OperandView) -> Result<(), JitFault> {
    match import {
        OperandView::Unsigned(value) => {
            if value <= usize::MAX {
                Ok(())
            } else {
                Err(range_fault("import index"@, value))
            }
        },
        OperandView::Integer(value) => {
            if value >= 0 && value <= usize::MAX {
                Ok(())
            } else {
                Err(signed_range_fault("import index"@, value))
            }
        },
        _ => Err(operand_fault("external call import must be an index, got "@, import)),
    }
}

/// Whether an operand is the index of an import.
pub fn validate_import_operand(import: &Operand) -> (r: Result<(), JitError>)
    ensures
        jit_outcome(r) == validate_import_operand_of(import.view()),
{
    match import {
        Operand::Unsigned(value) => {
            if *value <= usize::MAX as u64 {
                Ok(())
            } else {
                Err(range_error("import index", *value))
            }
        },
        Operand::Integer(value) => {
            if *value >= 0 && *value as u64 <= usize::MAX as u64 {
                Ok(())
            } else {
                Err(signed_range_error("import index", *value))
            }
        },
        _ => Err(operand_error("external call import must be an index, got ", import)),
    }
}

/// What [`validate_supported_type_test`] answers.
pub open spec fn validate_supported_type_test_of(op: TypeTestOp) -> Result<(), JitFault> {
    match op {
        TypeTestOp::IsInteger => Ok(()),
        TypeTestOp::IsAtom => Ok(()),
        TypeTestOp::IsPid => Ok(()),
        TypeTestOp::IsBinary => Ok(()),
        TypeTestOp::IsList => Ok(()),
        TypeTestOp::IsTuple => Ok(()),
        _ => Err(operation_fault("TypeTest("@, type_test_name_of(op), ")"@)),
    }
}

/// Whether a type test is lowered.
pub fn validate_supported_type_test(op: TypeTestOp) -> (r: Result<(), JitError>)
    ensures
        jit_outcome(r) == validate_supported_type_test_of(op),
{
    match op {
        TypeTestOp::IsInteger => Ok(()),
        TypeTestOp::IsAtom => Ok(()),
        TypeTestOp::IsPid => Ok(()),
        TypeTestOp::IsBinary => Ok(()),
        TypeTestOp::IsList => Ok(()),
        TypeTestOp::IsTuple => Ok(()),
        _ => Err(operation_error("TypeTest(", type_test_name(op), ")")),
    }
}

/// Whether the first `n` operands can be read.
pub open spec fn validate_read_all_of(operands: Seq<OperandView>, n: nat) -> Result<(), JitFault>
    decreases n,
{
    if n == 0 {
        Ok(())
    } else {
        match validate_read_all_of(operands, (n - 1) as nat) {
            Err(e) => Err(e),
            Ok(_) => validate_read_operand_of(operands[n - 1]),
        }
    }
}

proof fn lemma_read_fails(operands: Seq<OperandView>, n: nat)
    requires
        n <= operands.len(),
    ensures
        validate_read_all_of(operands, n) matches Err(e) ==> validate_read_all_of(
            operands,
            operands.len(),
        ) == Err::<(), JitFault>(e),
    decreases operands.len() - n,
{
    if n < operands.len() {
        lemma_read_fails(operands, n + 1);
    }
}

fn validate_read_all(operands: &Vec<Operand>) -> (r: Result<(), JitError>)
    ensures
        jit_outcome(r) == validate_read_all_of(operand_views(operands@), operands@.len()),
{
    let ghost views = operand_views(operands@);
    let mut i: usize = 0;
    while i < operands.len()
        invariant
            i <= operands@.len(),
            views == operand_views(operands@),
            validate_read_all_of(views, i as nat) == Ok::<(), JitFault>(()),
        decreases operands@.len() - i,
    {
        proof {
            lemma_read_fails(views, (i + 1) as nat);
        }
        validate_read_operand(&operands[i])?;
        i += 1;
    }
    Ok(())
}

/// Whether the first `n` pairs of a selection are a term and a label.
pub open spec fn validate_pairs_of(items: Seq<OperandView>, n: nat) -> Result<(), JitFault>
    decreases n,
{
    if n == 0 {
        Ok(())
    } else {
        match validate_pairs_of(items, (n - 1) as nat) {
            Err(e) => Err(e),
            Ok(_) => match immediate_raw_term_of(items[2 * n - 2]) {
                Err(e) => Err(e),
                Ok(_) => validate_label_operand_of(items[2 * n - 1]),
            },
        }
    }
}

proof fn lemma_pairs_fail(items: Seq<OperandView>, n: nat)
    requires
        n <= items.len() / 2,
    ensures
        validate_pairs_of(items, n) matches Err(e) ==> validate_pairs_of(items, items.len() / 2)
            == Err::<(), JitFault>(e),
    decreases items.len() / 2 - n,
{
    if n < items.len() / 2 {
        lemma_pairs_fail(items, n + 1);
    }
}

/// Whether the pairs of a selection are each a term and a label.
pub open spec fn validate_select_of(list: OperandView) -> Result<(), JitFault> {
    match select_items_of(list) {
        Err(e) => Err(e),
        Ok(items) => validate_pairs_of(items, items.len() / 2),
    }
}

fn validate_select(list: &Operand) -> (r: Result<(), JitError>)
    ensures
        jit_outcome(r) == validate_select_of(list.view()),
{
    let items = parse_select_pairs(list)?;
    let ghost views = operand_views(items@);
    let mut i: usize = 0;
    while i < items.len() / 2
        invariant
            i <= items@.len() / 2,
            views == operand_views(items@),
            select_items_of(list.view()) == Ok::<Seq<OperandView>, JitFault>(views),
            validate_pairs_of(views, i as nat) == Ok::<(), JitFault>(()),
        decreases items@.len() / 2 - i,
    {
        proof {
            lemma_pairs_fail(views, (i + 1) as nat);
        }
        let _ = immediate_raw_term(&items[2 * i])?;
        validate_label_operand(&items[2 * i + 1])?;
        i += 1;
    }
    Ok(())
}

/// What [`validate_instruction`] answers.
pub open spec fn validate_instruction_of(instruction: InstructionView) -> Result<(), JitFault> {
    match instruction {
        InstructionView::Label { .. } => Ok(()),
        InstructionView::Return => Ok(()),
        InstructionView::Move { source, destination } => {
            match validate_read_operand_of(source) {
                Err(e) => Err(e),
                Ok(_) => validate_write_operand_of(destination),
            }
        },
        InstructionView::Swap { left, right } => {
            match validate_read_operand_of(left) {
                Err(e) => Err(e),
                Ok(_) => {
                    match validate_read_operand_of(right) {
                        Err(e) => Err(e),
                        Ok(_) => {
                            match validate_write_operand_of(left) {
                                Err(e) => Err(e),
                                Ok(_) => validate_write_operand_of(right),
                            }
                        },
                    }
                },
            }
        },
        InstructionView::TypeTest { op, fail, value } => {
            match validate_supported_type_test_of(op) {
                Err(e) => Err(e),
                Ok(_) => {
                    match validate_label_operand_of(fail) {
                        Err(e) => Err(e),
                        Ok(_) => validate_read_operand_of(value),
                    }
                },
            }
        },
        InstructionView::PutList { head, tail, destination } => {
            match validate_read_operand_of(head) {
                Err(e) => Err(e),
                Ok(_) => {
                    match validate_read_operand_of(tail) {
                        Err(e) => Err(e),
                        Ok(_) => validate_write_operand_of(destination),
                    }
                },
            }
        },
        InstructionView::GetList { source, head, tail } => {
            match validate_read_operand_of(source) {
                Err(e) => Err(e),
                Ok(_) => {
                    match validate_write_operand_of(head) {
                        Err(e) => Err(e),
                        Ok(_) => validate_write_operand_of(tail),
                    }
                },
            }
        },
        InstructionView::GetHd { source, destination } => {
            match validate_read_operand_of(source) {
                Err(e) => Err(e),
                Ok(_) => validate_write_operand_of(destination),
            }
        },
        InstructionView::GetTl { source, destination } => {
            match validate_read_operand_of(source) {
                Err(e) => Err(e),
                Ok(_) => validate_write_operand_of(destination),
            }
        },
        InstructionView::PutTuple2 { destination, elements } => {
            match validate_write_operand_of(destination) {
                Err(e) => Err(e),
                Ok(_) => {
                    match tuple_elements_of(elements) {
                        Err(e) => Err(e),
                        Ok(elements) => validate_read_all_of(elements, elements.len()),
                    }
                },
            }
        },
        InstructionView::GetTupleElement { source, index, destination } => {
            match validate_read_operand_of(source) {
                Err(e) => Err(e),
                Ok(_) => {
                    match immediate_usize_of(index, "get_tuple_element index"@) {
                        Err(e) => Err(e),
                        Ok(_) => validate_write_operand_of(destination),
                    }
                },
            }
        },
        InstructionView::Comparison { fail, left, right, .. } => {
            match validate_label_operand_of(fail) {
                Err(e) => Err(e),
                Ok(_) => {
                    match validate_read_operand_of(left) {
                        Err(e) => Err(e),
                        Ok(_) => validate_read_operand_of(right),
                    }
                },
            }
        },
        InstructionView::TestArity { fail, tuple, arity } => {
            match validate_label_operand_of(fail) {
                Err(e) => Err(e),
                Ok(_) => {
                    match validate_read_operand_of(tuple) {
                        Err(e) => Err(e),
                        Ok(_) => {
                            match immediate_usize_of(arity, "test_arity arity"@) {
                                Err(e) => Err(e),
                                Ok(_) => Ok(()),
                            }
                        },
                    }
                },
            }
        },
        InstructionView::IsTaggedTuple { fail, value, arity, tag } => {
            match validate_label_operand_of(fail) {
                Err(e) => Err(e),
                Ok(_) => {
                    match validate_read_operand_of(value) {
                        Err(e) => Err(e),
                        Ok(_) => {
                            match immediate_usize_of(arity, "is_tagged_tuple arity"@) {
                                Err(e) => Err(e),
                                Ok(_) => validate_tag_atom_of(tag),
                            }
                        },
                    }
                },
            }
        },
        InstructionView::SelectVal { value, fail, list } => {
            match validate_read_operand_of(value) {
                Err(e) => Err(e),
                Ok(_) => {
                    match validate_label_operand_of(fail) {
                        Err(e) => Err(e),
                        Ok(_) => validate_select_of(list),
                    }
                },
            }
        },
        InstructionView::Jump { target } => validate_label_operand_of(target),
        InstructionView::Try { destination, label } => {
            match validate_write_operand_of(destination) {
                Err(e) => Err(e),
                Ok(_) => validate_label_operand_of(label),
            }
        },
        InstructionView::TryEnd { source } => validate_write_operand_of(source),
        InstructionView::TryCase { source } => validate_write_operand_of(source),
        InstructionView::Call { label, .. } => validate_label_operand_of(label),
        InstructionView::CallOnly { label, .. } => validate_label_operand_of(label),
        InstructionView::CallExt { import, .. } => validate_import_operand_of(import),
        InstructionView::CallExtOnly { import, .. } => validate_import_operand_of(import),
        InstructionView::Bif { op, operands } => {
            match parse_bif_of(op, operands) {
                Err(e) => Err(e),
                Ok(parsed) => {
                    match arithmetic_import_of(parsed.import) {
                        Err(e) => Err(e),
                        Ok(_) => {
                            match validate_label_operand_of(parsed.fail) {
                                Err(e) => Err(e),
                                Ok(_) => {
                                    match validate_read_operand_of(parsed.left) {
                                        Err(e) => Err(e),
                                        Ok(_) => {
                                            match validate_read_operand_of(parsed.right) {
                                                Err(e) => Err(e),
                                                Ok(_) => validate_write_operand_of(parsed.destination),
                                            }
                                        },
                                    }
                                },
                            }
                        },
                    }
                },
            }
        },
        _ => Err(opcode_fault(instruction_text(instruction))),
    }
}

/// Whether an instruction can be lowered.
#[verifier::rlimit(60)]
pub fn validate_instruction(instruction: &Instruction) -> (r: Result<(), JitError>)
    ensures
        jit_outcome(r) == validate_instruction_of(instruction.view()),
{
    match instruction {
        Instruction::Label { .. } => Ok(()),
        Instruction::Return => Ok(()),
        Instruction::Move { source, destination } => {
            validate_read_operand(source)?;
            validate_write_operand(destination)
        },
        Instruction::Swap { left, right } => {
            validate_read_operand(left)?;
            validate_read_operand(right)?;
            validate_write_operand(left)?;
            validate_write_operand(right)
        },
        Instruction::TypeTest { op, fail, value } => {
            validate_supported_type_test(*op)?;
            validate_label_operand(fail)?;
            validate_read_operand(value)
        },
        Instruction::PutList { head, tail, destination } => {
            validate_read_operand(head)?;
            validate_read_operand(tail)?;
            validate_write_operand(destination)
        },
        Instruction::GetList { source, head, tail } => {
            validate_read_operand(source)?;
            validate_write_operand(head)?;
            validate_write_operand(tail)
        },
        Instruction::GetHd { source, destination } => {
            validate_read_operand(source)?;
            validate_write_operand(destination)
        },
        Instruction::GetTl { source, destination } => {
            validate_read_operand(source)?;
            validate_write_operand(destination)
        },
        Instruction::PutTuple2 { destination, elements } => {
            validate_write_operand(destination)?;
            let elements = tuple_elements(elements)?;
            validate_read_all(elements)
        },
        Instruction::GetTupleElement { source, index, destination } => {
            validate_read_operand(source)?;
            let _ = immediate_usize(index, "get_tuple_element index")?;
            validate_write_operand(destination)
        },
        Instruction::Comparison { fail, left, right, .. } => {
            validate_label_operand(fail)?;
            validate_read_operand(left)?;
            validate_read_operand(right)
        },
        Instruction::TestArity { fail, tuple, arity } => {
            validate_label_operand(fail)?;
            validate_read_operand(tuple)?;
            let _ = immediate_usize(arity, "test_arity arity")?;
            Ok(())
        },
        Instruction::IsTaggedTuple { fail, value, arity, tag } => {
            validate_label_operand(fail)?;
            validate_read_operand(value)?;
            let _ = immediate_usize(arity, "is_tagged_tuple arity")?;
            validate_tag_atom(tag)
        },
        Instruction::SelectVal { value, fail, list } => {
            validate_read_operand(value)?;
            validate_label_operand(fail)?;
            validate_select(list)
        },
        Instruction::Jump { target } => validate_label_operand(target),
        Instruction::Try { destination, label } => {
            validate_write_operand(destination)?;
            validate_label_operand(label)
        },
        Instruction::TryEnd { source } => validate_write_operand(source),
        Instruction::TryCase { source } => validate_write_operand(source),
        Instruction::Call { label, .. } => validate_label_operand(label),
        Instruction::CallOnly { label, .. } => validate_label_operand(label),
        Instruction::CallExt { import, .. } => validate_import_operand(import),
        Instruction::CallExtOnly { import, .. } => validate_import_operand(import),
        Instruction::Bif { op, operands } => {
            let parsed = ParsedBif::parse(*op, operands)?;
            let _ = arithmetic_import(parsed.import)?;
            validate_label_operand(parsed.fail)?;
            validate_read_operand(parsed.left)?;
            validate_read_operand(parsed.right)?;
            validate_write_operand(parsed.destination)
        },
        _ => Err(opcode_error(opcode_name(instruction).as_str())),
    }
}

/// What [`ends_block`] answers.
pub open spec fn ends_block_of(instruction: InstructionView) -> bool {
    match instruction {
        InstructionView::TypeTest { .. } => true,
        InstructionView::PutList { .. } => true,
        InstructionView::PutTuple2 { .. } => true,
        InstructionView::Comparison { .. } => true,
        InstructionView::TestArity { .. } => true,
        InstructionView::IsTaggedTuple { .. } => true,
        InstructionView::SelectVal { .. } => true,
        InstructionView::Jump { .. } => true,
        InstructionView::Try { .. } => true,
        InstructionView::TryEnd { .. } => true,
        InstructionView::TryCase { .. } => true,
        InstructionView::Call { .. } => true,
        InstructionView::CallOnly { .. } => true,
        InstructionView::CallExt { .. } => true,
        InstructionView::CallExtOnly { .. } => true,
        InstructionView::Bif { .. } => true,
        _ => false,
    }
}

/// Whether the instruction after this one starts a block.
pub fn ends_block(instruction: &Instruction) -> (r: bool)
    ensures
        r == ends_block_of(instruction.view()),
{
    match instruction {
        Instruction::TypeTest { .. } => true,
        Instruction::PutList { .. } => true,
        Instruction::PutTuple2 { .. } => true,
        Instruction::Comparison { .. } => true,
        Instruction::TestArity { .. } => true,
        Instruction::IsTaggedTuple { .. } => true,
        Instruction::SelectVal { .. } => true,
        Instruction::Jump { .. } => true,
        Instruction::Try { .. } => true,
        Instruction::TryEnd { .. } => true,
        Instruction::TryCase { .. } => true,
        Instruction::Call { .. } => true,
        Instruction::CallOnly { .. } => true,
        Instruction::CallExt { .. } => true,
        Instruction::CallExtOnly { .. } => true,
        Instruction::Bif { .. } => true,
        _ => false,
    }
}

/// Whether the label that an operand names is there.
pub open spec fn ensure_known_label_of(labels: Map<u32, usize>, operand: OperandView) -> Result<
    (),
    JitFault,
> {
    match label_operand_of(operand) {
        Err(e) => Err(e),
        Ok(label) => if labels.contains_key(label) {
            Ok(())
        } else {
            Err(JitFault::UnknownLabel { label })
        },
    }
}

fn ensure_known_label(labels: &HashMap<u32, usize>, operand: &Operand) -> (r: Result<(), JitError>)
    ensures
        jit_outcome(r) == ensure_known_label_of(labels@, operand.view()),
{
    broadcast use vstd::std_specs::hash::group_hash_axioms;

    let label: u32 = label_operand(operand)?;
    if labels.contains_key(&label) {
        Ok(())
    } else {
        Err(JitError::UnknownLabel { label })
    }
}

/// Whether the labels of the first `n` pairs of a selection are there.
pub open spec fn known_targets_of(labels: Map<u32, usize>, items: Seq<OperandView>, n: nat) -> Result<
    (),
    JitFault,
>
    decreases n,
{
    if n == 0 {
        Ok(())
    } else {
        match known_targets_of(labels, items, (n - 1) as nat) {
            Err(e) => Err(e),
            Ok(_) => ensure_known_label_of(labels, items[2 * n - 1]),
        }
    }
}

proof fn lemma_targets_fail(labels: Map<u32, usize>, items: Seq<OperandView>, n: nat)
    requires
        n <= items.len() / 2,
    ensures
        known_targets_of(labels, items, n) matches Err(e) ==> known_targets_of(
            labels,
            items,
            items.len() / 2,
        ) == Err::<(), JitFault>(e),
    decreases items.len() / 2 - n,
{
    if n < items.len() / 2 {
        lemma_targets_fail(labels, items, n + 1);
    }
}

/// Whether the labels of a selection are there.
pub open spec fn known_select_of(labels: Map<u32, usize>, fail: OperandView, list: OperandView) -> Result<
    (),
    JitFault,
> {
    match ensure_known_label_of(labels, fail) {
        Err(e) => Err(e),
        Ok(_) => match select_items_of(list) {
            Err(e) => Err(e),
            Ok(items) => known_targets_of(labels, items, items.len() / 2),
        },
    }
}

fn known_select(labels: &HashMap<u32, usize>, fail: &Operand, list: &Operand) -> (r: Result<
    (),
    JitError,
>)
    ensures
        jit_outcome(r) == known_select_of(labels@, fail.view(), list.view()),
{
    ensure_known_label(labels, fail)?;
    let items = parse_select_pairs(list)?;
    let ghost views = operand_views(items@);
    let mut i: usize = 0;
    while i < items.len() / 2
        invariant
            i <= items@.len() / 2,
            views == operand_views(items@),
            ensure_known_label_of(labels@, fail.view()) == Ok::<(), JitFault>(()),
            select_items_of(list.view()) == Ok::<Seq<OperandView>, JitFault>(views),
            known_targets_of(labels@, views, i as nat) == Ok::<(), JitFault>(()),
        decreases items@.len() / 2 - i,
    {
        proof {
            lemma_targets_fail(labels@, views, (i + 1) as nat);
        }
        ensure_known_label(labels, &items[2 * i + 1])?;
        i += 1;
    }
    Ok(())
}

/// Whether the labels that an instruction goes to are there.
pub open spec fn known_labels_of(labels: Map<u32, usize>, instruction: InstructionView) -> Result<
    (),
    JitFault,
> {
    match instruction {
        InstructionView::TypeTest { fail, .. } => ensure_known_label_of(labels, fail),
        InstructionView::Comparison { fail, .. } => ensure_known_label_of(labels, fail),
        InstructionView::TestArity { fail, .. } => ensure_known_label_of(labels, fail),
        InstructionView::IsTaggedTuple { fail, .. } => ensure_known_label_of(labels, fail),
        InstructionView::SelectVal { fail, list, .. } => known_select_of(labels, fail, list),
        InstructionView::Jump { target } => ensure_known_label_of(labels, target),
        InstructionView::Try { label, .. } => ensure_known_label_of(labels, label),
        InstructionView::Call { label, .. } => ensure_known_label_of(labels, label),
        InstructionView::CallOnly { label, .. } => ensure_known_label_of(labels, label),
        InstructionView::Bif { op, operands } => if op == BifOp::Bif2 || op == BifOp::GcBif2 {
            match parse_bif_of(op, operands) {
                Err(e) => Err(e),
                Ok(parsed) => ensure_known_label_of(labels, parsed.fail),
            }
        } else {
            Ok(())
        },
        _ => Ok(()),
    }
}

fn known_labels(labels: &HashMap<u32, usize>, instruction: &Instruction) -> (r: Result<(), JitError>)
    ensures
        jit_outcome(r) == known_labels_of(labels@, instruction.view()),
{
    match instruction {
        Instruction::TypeTest { fail, .. } => ensure_known_label(labels, fail),
        Instruction::Comparison { fail, .. } => ensure_known_label(labels, fail),
        Instruction::TestArity { fail, .. } => ensure_known_label(labels, fail),
        Instruction::IsTaggedTuple { fail, .. } => ensure_known_label(labels, fail),
        Instruction::SelectVal { fail, list, .. } => known_select(labels, fail, list),
        Instruction::Jump { target } => ensure_known_label(labels, target),
        Instruction::Try { label, .. } => ensure_known_label(labels, label),
        Instruction::Call { label, .. } => ensure_known_label(labels, label),
        Instruction::CallOnly { label, .. } => ensure_known_label(labels, label),
        Instruction::Bif { op, operands } => match op {
            BifOp::Bif2 | BifOp::GcBif2 => {
                let parsed = ParsedBif::parse(*op, operands)?;
                ensure_known_label(labels, parsed.fail)
            },
            _ => Ok(()),
        },
        _ => Ok(()),
    }
}

/// Where the blocks of a function start.
#[derive(Debug)]
pub struct TranslationPlan {
    /// The instruction that each label stands at.
    pub labels: HashMap<u32, usize>,
    /// The instructions that start a block, and the end.
    pub block_starts: HashSet<usize>,
}

/// A [`TranslationPlan`] with a map and a set.
#[verifier::ext_equal]
pub struct PlanView {
    pub labels: Map<u32, usize>,
    pub block_starts: Set<usize>,
}

impl View for TranslationPlan {
    type V = PlanView;

    open spec fn view(&self) -> PlanView {
        PlanView { labels: self.labels@, block_starts: self.block_starts@ }
    }
}

/// Whether the first `n` instructions can be lowered: the fault of the first
/// that cannot.
pub open spec fn validate_all_of(instructions: Seq<InstructionView>, n: nat) -> Result<
    (),
    JitFault,
>
    decreases n,
{
    if n == 0 {
        Ok(())
    } else {
        match validate_all_of(instructions, (n - 1) as nat) {
            Err(e) => Err(e),
            Ok(_) => validate_instruction_of(instructions[n - 1]),
        }
    }
}

/// Where the labels among the first `n` instructions are; of two of the same
/// number, the later counts.
pub open spec fn labels_of(instructions: Seq<InstructionView>, n: nat) -> Map<u32, usize>
    decreases n,
{
    if n == 0 {
        Map::empty()
    } else {
        let before = labels_of(instructions, (n - 1) as nat);
        match instructions[n - 1] {
            InstructionView::Label { label } => before.insert(label, (n - 1) as usize),
            _ => before,
        }
    }
}

/// Where blocks start: at the first instruction, at the labels among the first
/// `n` instructions, after those that end a block, and at the end.
pub open spec fn starts_of(instructions: Seq<InstructionView>, n: nat) -> Set<usize>
    decreases n,
{
    if n == 0 {
        set![0usize, instructions.len() as usize]
    } else {
        let before = starts_of(instructions, (n - 1) as nat);
        if instructions[n - 1] is Label {
            before.insert((n - 1) as usize)
        } else if ends_block_of(instructions[n - 1]) {
            before.insert(n as usize)
        } else {
            before
        }
    }
}

/// Whether the labels that the first `n` instructions go to are there.
pub open spec fn all_known_of(
    labels: Map<u32, usize>,
    instructions: Seq<InstructionView>,
    n: nat,
) -> Result<(), JitFault>
    decreases n,
{
    if n == 0 {
        Ok(())
    } else {
        match all_known_of(labels, instructions, (n - 1) as nat) {
            Err(e) => Err(e),
            Ok(_) => known_labels_of(labels, instructions[n - 1]),
        }
    }
}

/// The plan of a function, or why it cannot be lowered.
pub open spec fn plan_of(instructions: Seq<InstructionView>) -> Result<PlanView, JitFault> {
    let n = instructions.len();
    if n == 0 {
        Err(JitFault::EmptyFunction)
    } else {
        match validate_all_of(instructions, n) {
            Err(e) => Err(e),
            Ok(_) => match all_known_of(labels_of(instructions, n), instructions, n) {
                Err(e) => Err(e),
                Ok(_) => Ok(
                    PlanView {
                        labels: labels_of(instructions, n),
                        block_starts: starts_of(instructions, n),
                    },
                ),
            },
        }
    }
}

proof fn lemma_validate_fails(instructions: Seq<InstructionView>, n: nat)
    requires
        n <= instructions.len(),
    ensures
        validate_all_of(instructions, n) matches Err(e) ==> validate_all_of(
            instructions,
            instructions.len(),
        ) == Err::<(), JitFault>(e),
    decreases instructions.len() - n,
{
    if n < instructions.len() {
        lemma_validate_fails(instructions, n + 1);
    }
}

proof fn lemma_known_fails(labels: Map<u32, usize>, instructions: Seq<InstructionView>, n: nat)
    requires
        n <= instructions.len(),
    ensures
        all_known_of(labels, instructions, n) matches Err(e) ==> all_known_of(
            labels,
            instructions,
            instructions.len(),
        ) == Err::<(), JitFault>(e),
    decreases instructions.len() - n,
{
    if n < instructions.len() {
        lemma_known_fails(labels, instructions, n + 1);
    }
}

/// What planning a function answers.
pub open spec fn plan_outcome(r: Result<TranslationPlan, JitError>) -> Result<PlanView, JitFault> {
    match r {
        Ok(plan) => Ok(plan@),
        Err(e) => Err(e@),
    }
}

impl TranslationPlan {
    /// Plans the blocks of a function.
    pub fn new(instructions: &[Instruction]) -> (r: Result<TranslationPlan, JitError>)
        ensures
            plan_outcome(r) == plan_of(instruction_views(instructions@)),
    {
        broadcast use vstd::std_specs::hash::group_hash_axioms;

        let ghost views = instruction_views(instructions@);
        if instructions.len() == 0 {
            return Err(JitError::EmptyFunction);
        }
        let mut labels: HashMap<u32, usize> = HashMap::new();
        let mut block_starts: HashSet<usize> = HashSet::new();
        block_starts.insert(0);
        block_starts.insert(instructions.len());
        assert(labels@ =~= labels_of(views, 0));
        assert(block_starts@ =~= starts_of(views, 0));
        let mut i: usize = 0;
        while i < instructions.len()
            invariant
                i <= instructions@.len(),
                instructions@.len() > 0,
                views == instruction_views(instructions@),
                validate_all_of(views, i as nat) == Ok::<(), JitFault>(()),
                labels@ == labels_of(views, i as nat),
                block_starts@ == starts_of(views, i as nat),
            decreases instructions@.len() - i,
        {
            proof {
                lemma_validate_fails(views, (i + 1) as nat);
            }
            let instruction = &instructions[i];
            validate_instruction(instruction)?;
            match instruction {
                Instruction::Label { label } => {
                    labels.insert(*label, i);
                    block_starts.insert(i);
                },
                _ => {
                    if ends_block(instruction) {
                        block_starts.insert(i + 1);
                    }
                },
            }
            i += 1;
            assert(labels@ =~= labels_of(views, i as nat));
            assert(block_starts@ =~= starts_of(views, i as nat));
        }
        let mut i: usize = 0;
        while i < instructions.len()
            invariant
                i <= instructions@.len(),
                instructions@.len() > 0,
                views == instruction_views(instructions@),
                validate_all_of(views, views.len()) == Ok::<(), JitFault>(()),
                labels@ == labels_of(views, views.len()),
                all_known_of(labels@, views, i as nat) == Ok::<(), JitFault>(()),
            decreases instructions@.len() - i,
        {
            proof {
                lemma_known_fails(labels@, views, (i + 1) as nat);
            }
            known_labels(&labels, &instructions[i])?;
            i += 1;
        }
        Ok(TranslationPlan { labels, block_starts })
    }
}

/// The blocks of a function.
#[derive(Debug)]
pub struct BlockMap {
    /// The block of each instruction, and of the end.
    pub blocks_by_index: Vec<Block>,
    pub label_blocks: HashMap<u32, Block>,
    pub entry: Block,
    /// Where code goes to let the interpreter take over.
    pub deopt: Block,
    /// Where code goes to raise the exception of a bad argument.
    pub exception_block: Block,
    /// Where code goes to let its process yield.
    pub yield_block: Block,
}

/// A [`BlockMap`] with a sequence and a map.
#[verifier::ext_equal]
pub struct BlockMapView {
    pub blocks_by_index: Seq<Block>,
    pub label_blocks: Map<u32, Block>,
    pub entry: Block,
    pub deopt: Block,
    pub exception_block: Block,
    pub yield_block: Block,
}

impl BlockMapView {
    /// The block of an instruction.
    pub open spec fn block_for_instruction(self, index: usize) -> Block {
        self.blocks_by_index[index as int]
    }

    /// The block of the next instruction.
    pub open spec fn block_after(self, index: usize) -> Block {
        self.blocks_by_index[index + 1]
    }

    /// The block of the end.
    pub open spec fn exit_block(self) -> Block {
        self.blocks_by_index.last()
    }

    /// The block of a label.
    pub open spec fn label_block(self, label: u32) -> Result<Block, JitFault> {
        if self.label_blocks.contains_key(label) {
            Ok(self.label_blocks[label])
        } else {
            Err(JitFault::UnknownLabel { label })
        }
    }
}

/// The blocks of the first `n` instructions, and the lowering with them: a new
/// block where one starts, the one before otherwise.
pub open spec fn instruction_blocks_ir(b: LoweringView, starts: Set<usize>, n: nat) -> (
    Seq<Block>,
    LoweringView,
)
    decreases n,
{
    if n == 0 {
        (Seq::empty(), b)
    } else {
        let (before, b) = instruction_blocks_ir(b, starts, (n - 1) as nat);
        if n == 1 || starts.contains((n - 1) as usize) {
            let (block, b) = b.create_block();
            (before.push(block), b)
        } else {
            (before.push(before.last()), b)
        }
    }
}

/// The blocks of the labels among the first `n` instructions.
pub open spec fn label_blocks_of(
    instructions: Seq<InstructionView>,
    blocks: Seq<Block>,
    n: nat,
) -> Map<u32, Block>
    decreases n,
{
    if n == 0 {
        Map::empty()
    } else {
        let before = label_blocks_of(instructions, blocks, (n - 1) as nat);
        match instructions[n - 1] {
            InstructionView::Label { label } => before.insert(label, blocks[n - 1]),
            _ => before,
        }
    }
}

/// The values that compiled code is called with.
#[derive(Debug, Clone, Copy, PartialEq, Eq, Structural)]
pub struct EntryValues {
    pub register_file: Value,
    pub process: Value,
}

/// The blocks of a function and the values it is called with, and the lowering
/// with them.
pub open spec fn block_map_ir(
    b: LoweringView,
    instructions: Seq<InstructionView>,
    starts: Set<usize>,
) -> (BlockMapView, EntryValues, LoweringView) {
    let (entry, b) = b.create_block();
    let (register_file, b) = b.emit(IrOp::Param { block: entry, ty: IrType::I64 });
    let (process, b) = b.emit(IrOp::Param { block: entry, ty: IrType::I64 });
    let (blocks_by_index, b) = instruction_blocks_ir(b, starts, instructions.len() + 1);
    let (deopt, b) = b.create_block();
    let (exception_block, b) = b.create_block();
    let (yield_block, b) = b.create_block();
    (
        BlockMapView {
            blocks_by_index,
            label_blocks: label_blocks_of(instructions, blocks_by_index, instructions.len()),
            entry,
            deopt,
            exception_block,
            yield_block,
        },
        EntryValues { register_file, process },
        b,
    )
}

impl BlockMap {
    pub open spec fn view(&self) -> BlockMapView {
        BlockMapView {
            blocks_by_index: self.blocks_by_index@,
            label_blocks: self.label_blocks@,
            entry: self.entry,
            deopt: self.deopt,
            exception_block: self.exception_block,
            yield_block: self.yield_block,
        }
    }

    /// Makes the blocks of a function.
    pub fn new(b: &mut Lowering, instructions: &[Instruction], plan: &TranslationPlan) -> (r: (
        BlockMap,
        EntryValues,
    ))
        requires
            instructions@.len() < usize::MAX,
        ensures
            (r.0.view(), r.1, final(b)@) == block_map_ir(
                old(b)@,
                instruction_views(instructions@),
                plan@.block_starts,
            ),
            r.0.view().blocks_by_index.len() == instructions@.len() + 1,
    {
        broadcast use vstd::std_specs::hash::group_hash_axioms;

        let ghost views = instruction_views(instructions@);
        let entry = b.create_block();
        let register_file = b.emit(IrOp::Param { block: entry, ty: IrType::I64 });
        let process = b.emit(IrOp::Param { block: entry, ty: IrType::I64 });
        let ghost start = b@;
        let mut blocks_by_index: Vec<Block> = Vec::new();
        let mut current: Block = entry;
        let mut i: usize = 0;
        assert(blocks_by_index@ =~= Seq::empty());
        while i < instructions.len() + 1
            invariant
                i <= instructions@.len() + 1,
                instructions@.len() < usize::MAX,
                blocks_by_index@.len() == i,
                (blocks_by_index@, b@) == instruction_blocks_ir(
                    start,
                    plan@.block_starts,
                    i as nat,
                ),
                i > 0 ==> current == blocks_by_index@.last(),
            decreases instructions@.len() + 1 - i,
        {
            if i == 0 || plan.block_starts.contains(&i) {
                current = b.create_block();
            }
            blocks_by_index.push(current);
            i += 1;
        }
        let mut label_blocks: HashMap<u32, Block> = HashMap::new();
        let mut i: usize = 0;
        assert(label_blocks@ =~= Map::empty());
        while i < instructions.len()
            invariant
                i <= instructions@.len(),
                views == instruction_views(instructions@),
                blocks_by_index@.len() == instructions@.len() + 1,
                label_blocks@ == label_blocks_of(views, blocks_by_index@, i as nat),
            decreases instructions@.len() - i,
        {
            match &instructions[i] {
                Instruction::Label { label } => {
                    label_blocks.insert(*label, blocks_by_index[i]);
                },
                _ => {},
            }
            i += 1;
        }
        let deopt = b.create_block();
        let exception_block = b.create_block();
        let yield_block = b.create_block();
        (
            BlockMap { blocks_by_index, label_blocks, entry, deopt, exception_block, yield_block },
            EntryValues { register_file, process },
        )
    }

    /// The block of an instruction.
    pub fn block_for_instruction(&self, index: usize) -> (r: Block)
        requires
            index < self.view().blocks_by_index.len(),
        ensures
            r == self.view().block_for_instruction(index),
    {
        self.blocks_by_index[index]
    }

    /// The block of the next instruction.
    pub fn block_after(&self, index: usize) -> (r: Block)
        requires
            index + 1 < self.view().blocks_by_index.len(),
        ensures
            r == self.view().block_after(index),
    {
        let count: usize = self.blocks_by_index.len();
        assert(index + 1 < count);
        self.blocks_by_index[index + 1]
    }

    /// The block of the end.
    pub fn exit_block(&self) -> (r: Block)
        requires
            self.view().blocks_by_index.len() > 0,
        ensures
            r == self.view().exit_block(),
    {
        self.blocks_by_index[self.blocks_by_index.len() - 1]
    }

    /// The block of a label.
    pub fn label_block(&self, label: u32) -> (r: Result<Block, JitError>)
        ensures
            jit_outcome(r) == self.view().label_block(label),
    {
        broadcast use vstd::std_specs::hash::group_hash_axioms;

        match self.label_blocks.get(&label) {
            Some(block) => Ok(*block),
            None => Err(JitError::UnknownLabel { label }),
        }
    }
}

/// The block of the label that an operand names.
pub open spec fn operand_block_of(blocks: BlockMapView, operand: OperandView) -> Result<
    Block,
    JitFault,
> {
    match label_operand_of(operand) {
        Err(e) => Err(e),
        Ok(label) => blocks.label_block(label),
    }
}

/// The block of the label that an operand names.
pub fn operand_block(blocks: &BlockMap, operand: &Operand) -> (r: Result<Block, JitError>)
    ensures
        jit_outcome(r) == operand_block_of(blocks.view(), operand.view()),
{
    let label: u32 = label_operand(operand)?;
    blocks.label_block(label)
}

/// The first `n` pairs of a selection.
pub open spec fn select_pairs_of(blocks: BlockMapView, items: Seq<OperandView>, n: nat) -> Result<
    Seq<SelectPair>,
    JitFault,
>
    decreases n,
{
    if n == 0 {
        Ok(Seq::empty())
    } else {
        match select_pairs_of(blocks, items, (n - 1) as nat) {
            Err(e) => Err(e),
            Ok(before) => match immediate_raw_term_of(items[2 * n - 2]) {
                Err(e) => Err(e),
                Ok(candidate_raw) => match operand_block_of(blocks, items[2 * n - 1]) {
                    Err(e) => Err(e),
                    Ok(target) => Ok(before.push(SelectPair { candidate_raw, target })),
                },
            },
        }
    }
}

proof fn lemma_select_fails(blocks: BlockMapView, items: Seq<OperandView>, n: nat)
    requires
        n <= items.len() / 2,
    ensures
        select_pairs_of(blocks, items, n) matches Err(e) ==> select_pairs_of(
            blocks,
            items,
            items.len() / 2,
        ) == Err::<Seq<SelectPair>, JitFault>(e),
    decreases items.len() / 2 - n,
{
    if n < items.len() / 2 {
        lemma_select_fails(blocks, items, n + 1);
    }
}

/// The pairs of a selection.
pub open spec fn list_pairs_of(blocks: BlockMapView, list: OperandView) -> Result<
    Seq<SelectPair>,
    JitFault,
> {
    match select_items_of(list) {
        Err(e) => Err(e),
        Ok(items) => select_pairs_of(blocks, items, items.len() / 2),
    }
}

/// The pairs of a selection.
pub fn list_pairs(blocks: &BlockMap, list: &Operand) -> (r: Result<Vec<SelectPair>, JitError>)
    ensures
        match r {
            Ok(pairs) => list_pairs_of(blocks.view(), list.view()) == Ok::<
                Seq<SelectPair>,
                JitFault,
            >(pairs@),
            Err(e) => list_pairs_of(blocks.view(), list.view()) == Err::<
                Seq<SelectPair>,
                JitFault,
            >(e@),
        },
{
    let items = parse_select_pairs(list)?;
    let ghost views = operand_views(items@);
    let mut pairs: Vec<SelectPair> = Vec::new();
    let mut i: usize = 0;
    assert(pairs@ =~= Seq::empty());
    while i < items.len() / 2
        invariant
            i <= items@.len() / 2,
            views == operand_views(items@),
            select_items_of(list.view()) == Ok::<Seq<OperandView>, JitFault>(views),
            select_pairs_of(blocks.view(), views, i as nat) == Ok::<Seq<SelectPair>, JitFault>(
                pairs@,
            ),
        decreases items@.len() / 2 - i,
    {
        proof {
            lemma_select_fails(blocks.view(), views, (i + 1) as nat);
        }
        let candidate_raw: u64 = immediate_raw_term(&items[2 * i])?;
        let target = operand_block(blocks, &items[2 * i + 1])?;
        pairs.push(SelectPair { candidate_raw, target });
        i += 1;
    }
    Ok(pairs)
}

/// A planned function has a block for each label that it goes to.
pub proof fn law_planned_labels_have_blocks(
    instructions: Seq<InstructionView>,
    blocks: Seq<Block>,
    n: nat,
    label: u32,
)
    requires
        n <= instructions.len() <= usize::MAX,
        labels_of(instructions, n).contains_key(label),
    ensures
        label_blocks_of(instructions, blocks, n).contains_key(label),
        label_blocks_of(instructions, blocks, n)[label] == blocks[labels_of(
            instructions,
            n,
        )[label] as int],
        labels_of(instructions, n)[label] < n,
    decreases n,
{
    if n > 0 {
        match instructions[n - 1] {
            InstructionView::Label { label: l } => {
                if l != label {
                    law_planned_labels_have_blocks(instructions, blocks, (n - 1) as nat, label);
                }
            },
            _ => {
                law_planned_labels_have_blocks(instructions, blocks, (n - 1) as nat, label);
            },
        }
    }
}

/// Blocks start at the first instruction, at the end, at every label, and behind every
/// instruction that ends its block, and nowhere else.
pub proof fn law_blocks_start_at_labels_and_behind_ends(
    instructions: Seq<InstructionView>,
    n: nat,
    at: usize,
)
    requires
        n <= instructions.len() <= usize::MAX,
    ensures
        starts_of(instructions, n).contains(at) <==> at == 0 || at == instructions.len() || (at < n
            && instructions[at as int] is Label) || (0 < at <= n && ends_block_of(
            instructions[at - 1],
        )),
    decreases n,
{
    if n > 0 {
        law_blocks_start_at_labels_and_behind_ends(instructions, (n - 1) as nat, at);
    }
}

proof fn lemma_block_count(b: LoweringView, starts: Set<usize>, n: nat)
    requires
        b.ops.len() + n <= usize::MAX,
    ensures
        ({
            let (blocks, after) = instruction_blocks_ir(b, starts, n);
            &&& blocks.len() == n
            &&& b.ops.len() <= after.ops.len() <= b.ops.len() + n
            &&& forall|i: int|
                0 <= i < n ==> b.ops.len() <= #[trigger] blocks[i] < after.ops.len()
            &&& forall|i: int, j: int| 0 <= i <= j < n ==> blocks[i] <= blocks[j]
        }),
    decreases n,
{
    if n > 0 {
        lemma_block_count(b, starts, (n - 1) as nat);
    }
}

/// Two instructions that follow each other are in the same block unless one starts at the
/// second; blocks come in the order of the code.
pub proof fn law_instructions_share_blocks(b: LoweringView, starts: Set<usize>, n: nat, i: int)
    requires
        b.ops.len() + n <= usize::MAX,
        0 < i < n,
    ensures
        ({
            let blocks = instruction_blocks_ir(b, starts, n).0;
            &&& blocks.len() == n
            &&& starts.contains(i as usize) ==> blocks[i - 1] < blocks[i]
            &&& !starts.contains(i as usize) ==> blocks[i - 1] == blocks[i]
        }),
    decreases n,
{
    lemma_block_count(b, starts, n);
    lemma_block_count(b, starts, (n - 1) as nat);
    if i < n - 1 {
        law_instructions_share_blocks(b, starts, (n - 1) as nat, i);
    }
}

/// An instruction that goes to the next one by a branch, or goes elsewhere, ends its block, so that
/// the next one has a block of its own to go to.
pub proof fn law_branches_end_their_blocks(
    b: LoweringView,
    instructions: Seq<InstructionView>,
    i: int,
)
    requires
        b.ops.len() + instructions.len() + 100 <= usize::MAX,
        0 <= i < instructions.len(),
        instructions[i] is TypeTest || instructions[i] is Comparison || instructions[i] is TestArity
            || instructions[i] is IsTaggedTuple || instructions[i] is SelectVal || instructions[i]
            is Bif || instructions[i] is Jump || instructions[i] is Call || instructions[i]
            is CallOnly || instructions[i] is CallExt || instructions[i] is CallExtOnly,
    ensures
        ({
            let starts = starts_of(instructions, instructions.len());
            let blocks = block_map_ir(b, instructions, starts).0;
            &&& blocks.block_for_instruction(i as usize) < blocks.block_after(i as usize)
            &&& blocks.block_after(i as usize) < blocks.deopt
            &&& blocks.deopt < blocks.exception_block
            &&& blocks.exception_block < blocks.yield_block
        }),
{
    let n = instructions.len();
    let starts = starts_of(instructions, n);
    law_blocks_start_at_labels_and_behind_ends(instructions, n, (i + 1) as usize);
    let (entry, b1) = b.create_block();
    let (register_file, b2) = b1.emit(IrOp::Param { block: entry, ty: IrType::I64 });
    let (process, b3) = b2.emit(IrOp::Param { block: entry, ty: IrType::I64 });
    law_instructions_share_blocks(b3, starts, n + 1, i + 1);
    lemma_block_count(b3, starts, n + 1);
}

} // verus!

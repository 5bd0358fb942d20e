//! Lowering type tests, tuple tests and selections.

use vstd::prelude::*;
use crate::loader::decode::compact::{
    lemma_operand_list_view, operand_views, Operand, OperandView,
};
use crate::loader::decode::instruction::TypeTestOp;
use crate::loader::decode::names::{type_test_name, type_test_name_of};
use crate::term::{
    atom_term, atom_term_of, small_term, small_term_of, ATOM_TAG, BINARY_HEADER_TAG, BOXED_TAG,
    EXTERNAL_PID_HEADER_TAG, HEADER_SIZE_SHIFT, HEADER_TAG_MASK, LIST_TAG, NIL_TERM, PID_TAG,
    POINTER_MASK, PROC_BIN_HEADER_TAG, SMALL_INT_TAG, SUB_BINARY_HEADER_TAG, TERM_TAG_MASK,
    TUPLE_HEADER_TAG,
};
use super::common::{
    branch_to_fail_if, branch_to_fail_if_ir, read_operand_term, read_operand_term_ir,
};
use super::error::{
    form_error, form_fault, jit_outcome, number_error, number_fault, operand_error, operand_fault,
    operation_error, operation_fault, signed_error, signed_fault, JitError, JitFault,
};
use super::helper::IrType;
use super::ir::{lowered, BinaryCode, Block, ImmCode, IntCc, IrOp, Lowering, LoweringView, Value};

verus! {

/// What [`immediate_usize`] answers.
pub open spec fn immediate_usize_of(
    operand: OperandView,
    context: Seq<char>,
) -> Result<usize, JitFault> {
    match operand {
        OperandView::Unsigned(value) => {
            if value <= usize::MAX {
                Ok(value as usize)
            } else {
                Err(form_fault(context, " "@, operand))
            }
        },
        OperandView::Integer(value) => {
            if value >= 0 && value <= usize::MAX {
                Ok(value as usize)
            } else {
                Err(form_fault(context, " "@, operand))
            }
        },
        _ => Err(form_fault(context, " "@, operand)),
    }
}

/// The number in an operand.
pub fn immediate_usize(operand: &Operand, context: &str) -> (r: Result<usize, JitError>)
    ensures
        jit_outcome(r) == immediate_usize_of(operand.view(), context@),
{
    match operand {
        Operand::Unsigned(value) => {
            if *value <= usize::MAX as u64 {
                Ok(*value as usize)
            } else {
                Err(form_error(context, " ", operand))
            }
        },
        Operand::Integer(value) => {
            if *value >= 0 && *value as u64 <= usize::MAX as u64 {
                Ok(*value as usize)
            } else {
                Err(form_error(context, " ", operand))
            }
        },
        _ => Err(form_error(context, " ", operand)),
    }
}

/// What [`immediate_raw_term`] answers.
pub open spec fn immediate_raw_term_of(operand: OperandView) -> Result<u64, JitFault> {
    match operand {
        OperandView::Integer(value) => {
            match small_term_of(value) {
                Some(term) => Ok(term as u64),
                None => Err(signed_fault("small integer literal "@, value)),
            }
        },
        OperandView::Unsigned(value) => {
            if value > 0x7fff_ffff_ffff_ffff {
                Err(number_fault("unsigned literal "@, value))
            } else {
                match small_term_of(value as i64) {
                    Some(term) => Ok(term as u64),
                    None => Err(number_fault("unsigned literal "@, value)),
                }
            }
        },
        OperandView::Atom(Some(atom)) => Ok(atom_term_of(atom) as u64),
        OperandView::Atom(None) => Ok(NIL_TERM as u64),
        _ => Err(operand_fault("select_val candidate "@, operand)),
    }
}

/// The term of a constant that a selection compares with.
pub fn immediate_raw_term(operand: &Operand) -> (r: Result<u64, JitError>)
    ensures
        jit_outcome(r) == immediate_raw_term_of(operand.view()),
{
    match operand {
        Operand::Integer(value) => {
            match small_term(*value) {
                Some(term) => Ok(term as u64),
                None => Err(signed_error("small integer literal ", *value)),
            }
        },
        Operand::Unsigned(value) => {
            if *value > 0x7fff_ffff_ffff_ffff {
                Err(number_error("unsigned literal ", *value))
            } else {
                match small_term(*value as i64) {
                    Some(term) => Ok(term as u64),
                    None => Err(number_error("unsigned literal ", *value)),
                }
            }
        },
        Operand::Atom(Some(atom)) => Ok(atom_term(*atom) as u64),
        Operand::Atom(None) => Ok(NIL_TERM as u64),
        _ => Err(operand_error("select_val candidate ", operand)),
    }
}

/// What [`expected_atom`] answers.
pub open spec fn expected_atom_of(operand: OperandView) -> Result<i64, JitFault> {
    match operand {
        OperandView::Atom(Some(atom)) => Ok(atom_term_of(atom)),
        _ => Err(operand_fault("expected atom, got "@, operand)),
    }
}

/// The term of the atom that an operand is.
pub fn expected_atom(operand: &Operand) -> (r: Result<i64, JitError>)
    ensures
        jit_outcome(r) == expected_atom_of(operand.view()),
{
    match operand {
        Operand::Atom(Some(atom)) => Ok(atom_term(*atom)),
        _ => Err(operand_error("expected atom, got ", operand)),
    }
}

/// What [`validate_tag_atom`] answers.
pub open spec fn validate_tag_atom_of(operand: OperandView) -> Result<(), JitFault> {
    match expected_atom_of(operand) {
        Err(e) => Err(e),
        Ok(_) => Ok(()),
    }
}

/// Whether an operand is an atom.
pub fn validate_tag_atom(operand: &Operand) -> (r: Result<(), JitError>)
    ensures
        jit_outcome(r) == validate_tag_atom_of(operand.view()),
{
    let _ = expected_atom(operand)?;
    Ok(())
}

/// What [`primary_tag_matches`] makes of a lowering.
pub open spec fn primary_tag_matches_ir(
    b: LoweringView,
    value: Value,
    tag: i64,
) -> (Value, LoweringView) {
    let (term_tag, b) = b.emit(IrOp::BinaryImm { code: ImmCode::Band, left: value, imm: TERM_TAG_MASK });
    b.emit(IrOp::CompareImm { cc: IntCc::Equal, left: term_tag, imm: tag })
}

/// Whether the tag of a term is the given one.
fn primary_tag_matches(b: &mut Lowering, value: Value, tag: i64) -> (r: Value)
    ensures
        (r, final(b)@) == primary_tag_matches_ir(old(b)@, value, tag),
{
    let term_tag = b.emit(IrOp::BinaryImm { code: ImmCode::Band, left: value, imm: TERM_TAG_MASK });
    b.emit(IrOp::CompareImm { cc: IntCc::Equal, left: term_tag, imm: tag })
}

/// What [`primary_tag_mismatches`] makes of a lowering.
pub open spec fn primary_tag_mismatches_ir(
    b: LoweringView,
    value: Value,
    tag: i64,
) -> (Value, LoweringView) {
    let (term_tag, b) = b.emit(IrOp::BinaryImm { code: ImmCode::Band, left: value, imm: TERM_TAG_MASK });
    b.emit(IrOp::CompareImm { cc: IntCc::NotEqual, left: term_tag, imm: tag })
}

/// Whether the tag of a term is another than the given one.
fn primary_tag_mismatches(b: &mut Lowering, value: Value, tag: i64) -> (r: Value)
    ensures
        (r, final(b)@) == primary_tag_mismatches_ir(old(b)@, value, tag),
{
    let term_tag = b.emit(IrOp::BinaryImm { code: ImmCode::Band, left: value, imm: TERM_TAG_MASK });
    b.emit(IrOp::CompareImm { cc: IntCc::NotEqual, left: term_tag, imm: tag })
}

/// What [`untagged_ptr`] makes of a lowering.
pub open spec fn untagged_ptr_ir(b: LoweringView, value: Value) -> (Value, LoweringView) {
    b.emit(IrOp::BinaryImm { code: ImmCode::Band, left: value, imm: POINTER_MASK })
}

/// The address in a term.
pub fn untagged_ptr(b: &mut Lowering, value: Value) -> (r: Value)
    ensures
        (r, final(b)@) == untagged_ptr_ir(old(b)@, value),
{
    b.emit(IrOp::BinaryImm { code: ImmCode::Band, left: value, imm: POINTER_MASK })
}

/// What [`lower_boxed_header_type_test`] makes of a lowering.
pub open spec fn lower_boxed_header_type_test_ir(
    b: LoweringView,
    value: Value,
    first: i64,
    others: Option<(i64, i64)>,
    fail: Block,
    success: Block,
) -> LoweringView {
    let (not_boxed, b) = primary_tag_mismatches_ir(b, value, BOXED_TAG);
    let b = branch_to_fail_if_ir(b, not_boxed, fail);
    let (ptr, b) = untagged_ptr_ir(b, value);
    let (header, b) = b.emit(IrOp::Load { ty: IrType::I64, base: ptr, offset: 0 });
    let (header_tag, b) = b.emit(IrOp::BinaryImm { code: ImmCode::Band, left: header, imm: HEADER_TAG_MASK });
    let (matched, b) = b.emit(IrOp::CompareImm { cc: IntCc::Equal, left: header_tag, imm: first });
    let (matched, b) = match others {
        None => (matched, b),
        Some((second, third)) => {
            let (next, b) = b.emit(IrOp::CompareImm { cc: IntCc::Equal, left: header_tag, imm: second });
            let (either, b) = b.emit(IrOp::Binary { code: BinaryCode::Bor, left: matched, right: next });
            let (next, b) = b.emit(IrOp::CompareImm { cc: IntCc::Equal, left: header_tag, imm: third });
            b.emit(IrOp::Binary { code: BinaryCode::Bor, left: either, right: next })
        },
    };
    let b = b.emit(IrOp::Brif { condition: matched, then_block: success, else_block: fail }).1;
    b
}

/// Goes to `success` when the term is boxed and its header has the first tag or
/// one of the others, to `fail` otherwise.
fn lower_boxed_header_type_test(
    b: &mut Lowering,
    value: Value,
    first: i64,
    others: Option<(i64, i64)>,
    fail: Block,
    success: Block,
)
    ensures
        final(b)@ == lower_boxed_header_type_test_ir(old(b)@, value, first, others, fail, success),
{
    let not_boxed = primary_tag_mismatches(b, value, BOXED_TAG);
    branch_to_fail_if(b, not_boxed, fail);
    let ptr = untagged_ptr(b, value);
    let header = b.emit(IrOp::Load { ty: IrType::I64, base: ptr, offset: 0 });
    let header_tag = b.emit(IrOp::BinaryImm { code: ImmCode::Band, left: header, imm: HEADER_TAG_MASK });
    let matched = b.emit(IrOp::CompareImm { cc: IntCc::Equal, left: header_tag, imm: first });
    let matched = match others {
        None => matched,
        Some((second, third)) => {
            let next = b.emit(IrOp::CompareImm { cc: IntCc::Equal, left: header_tag, imm: second });
            let either = b.emit(IrOp::Binary { code: BinaryCode::Bor, left: matched, right: next });
            let next = b.emit(IrOp::CompareImm { cc: IntCc::Equal, left: header_tag, imm: third });
            b.emit(IrOp::Binary { code: BinaryCode::Bor, left: either, right: next })
        },
    };
    b.emit(IrOp::Brif { condition: matched, then_block: success, else_block: fail });
}

/// What [`lower_pid_type_test`] makes of a lowering.
pub open spec fn lower_pid_type_test_ir(
    b: LoweringView,
    value: Value,
    fail: Block,
    success: Block,
) -> LoweringView {
    let (local, b) = primary_tag_matches_ir(b, value, PID_TAG);
    let (boxed_check, b) = b.create_block();
    let b = b.emit(IrOp::Brif { condition: local, then_block: success, else_block: boxed_check }).1;
    let b = b.switch(boxed_check);
    let b = lower_boxed_header_type_test_ir(b, value, EXTERNAL_PID_HEADER_TAG, None, fail, success);
    b
}

/// Goes to `success` when the term is a process identifier, to `fail` otherwise.
fn lower_pid_type_test(b: &mut Lowering, value: Value, fail: Block, success: Block)
    ensures
        final(b)@ == lower_pid_type_test_ir(old(b)@, value, fail, success),
{
    let local = primary_tag_matches(b, value, PID_TAG);
    let boxed_check = b.create_block();
    b.emit(IrOp::Brif { condition: local, then_block: success, else_block: boxed_check });
    b.switch(boxed_check);
    lower_boxed_header_type_test(b, value, EXTERNAL_PID_HEADER_TAG, None, fail, success);
}

/// What [`lower_type_test`] makes of a lowering.
pub open spec fn lower_type_test_ir(
    b: LoweringView,
    register_file: Value,
    op: TypeTestOp,
    value: OperandView,
    fail: Block,
    success: Block,
) -> Result<LoweringView, JitFault> {
    match read_operand_term_ir(b, register_file, value) {
        Err(e) => Err(e),
        Ok((value, b)) => {
            match op {
                TypeTestOp::IsInteger => {
                    let (passed, b) = primary_tag_matches_ir(b, value, SMALL_INT_TAG);
                    let b = b.emit(IrOp::Brif { condition: passed, then_block: success, else_block: fail }).1;
                    Ok(b)
                },
                TypeTestOp::IsAtom => {
                    let (passed, b) = primary_tag_matches_ir(b, value, ATOM_TAG);
                    let b = b.emit(IrOp::Brif { condition: passed, then_block: success, else_block: fail }).1;
                    Ok(b)
                },
                TypeTestOp::IsList => {
                    let (cons, b) = primary_tag_matches_ir(b, value, LIST_TAG);
                    let (nil, b) = b.emit(IrOp::CompareImm { cc: IntCc::Equal, left: value, imm: NIL_TERM });
                    let (passed, b) = b.emit(IrOp::Binary { code: BinaryCode::Bor, left: cons, right: nil });
                    let b = b.emit(IrOp::Brif { condition: passed, then_block: success, else_block: fail }).1;
                    Ok(b)
                },
                TypeTestOp::IsPid => {
                    let b = lower_pid_type_test_ir(b, value, fail, success);
                    Ok(b)
                },
                TypeTestOp::IsBinary => {
                    let b = lower_boxed_header_type_test_ir(b, value, BINARY_HEADER_TAG, Some((PROC_BIN_HEADER_TAG, SUB_BINARY_HEADER_TAG)), fail, success);
                    Ok(b)
                },
                TypeTestOp::IsTuple => {
                    let b = lower_boxed_header_type_test_ir(b, value, TUPLE_HEADER_TAG, None, fail, success);
                    Ok(b)
                },
                _ => Err(operation_fault("TypeTest("@, type_test_name_of(op), ")"@)),
            }
        },
    }
}

/// Goes to `success` when the operand has the type, to `fail` otherwise.
pub fn lower_type_test(
    b: &mut Lowering,
    register_file: Value,
    op: TypeTestOp,
    value: &Operand,
    fail: Block,
    success: Block,
) -> (r: Result<(), JitError>)
    ensures
        lowered(r, final(b)@) == lower_type_test_ir(old(b)@, register_file, op, value.view(), fail, success),
{
    let value = read_operand_term(b, register_file, value)?;
    match op {
        TypeTestOp::IsInteger => {
            let passed = primary_tag_matches(b, value, SMALL_INT_TAG);
            b.emit(IrOp::Brif { condition: passed, then_block: success, else_block: fail });
            Ok(())
        },
        TypeTestOp::IsAtom => {
            let passed = primary_tag_matches(b, value, ATOM_TAG);
            b.emit(IrOp::Brif { condition: passed, then_block: success, else_block: fail });
            Ok(())
        },
        TypeTestOp::IsList => {
            let cons = primary_tag_matches(b, value, LIST_TAG);
            let nil = b.emit(IrOp::CompareImm { cc: IntCc::Equal, left: value, imm: NIL_TERM });
            let passed = b.emit(IrOp::Binary { code: BinaryCode::Bor, left: cons, right: nil });
            b.emit(IrOp::Brif { condition: passed, then_block: success, else_block: fail });
            Ok(())
        },
        TypeTestOp::IsPid => {
            lower_pid_type_test(b, value, fail, success);
            Ok(())
        },
        TypeTestOp::IsBinary => {
            lower_boxed_header_type_test(b, value, BINARY_HEADER_TAG, Some((PROC_BIN_HEADER_TAG, SUB_BINARY_HEADER_TAG)), fail, success);
            Ok(())
        },
        TypeTestOp::IsTuple => {
            lower_boxed_header_type_test(b, value, TUPLE_HEADER_TAG, None, fail, success);
            Ok(())
        },
        _ => Err(operation_error("TypeTest(", type_test_name(op), ")")),
    }
}

/// What [`checked_tuple_header`] makes of a lowering.
pub open spec fn checked_tuple_header_ir(
    b: LoweringView,
    value: Value,
    fail: Block,
) -> (Value, LoweringView) {
    let (not_boxed, b) = primary_tag_mismatches_ir(b, value, BOXED_TAG);
    let b = branch_to_fail_if_ir(b, not_boxed, fail);
    let (ptr, b) = untagged_ptr_ir(b, value);
    let (header, b) = b.emit(IrOp::Load { ty: IrType::I64, base: ptr, offset: 0 });
    let (header_tag, b) = b.emit(IrOp::BinaryImm { code: ImmCode::Band, left: header, imm: HEADER_TAG_MASK });
    let (not_tuple, b) = b.emit(IrOp::CompareImm { cc: IntCc::NotEqual, left: header_tag, imm: TUPLE_HEADER_TAG });
    let b = branch_to_fail_if_ir(b, not_tuple, fail);
    (header, b)
}

/// The header of a tuple; goes to `fail` when the term is no tuple.
fn checked_tuple_header(b: &mut Lowering, value: Value, fail: Block) -> (r: Value)
    ensures
        (r, final(b)@) == checked_tuple_header_ir(old(b)@, value, fail),
{
    let not_boxed = primary_tag_mismatches(b, value, BOXED_TAG);
    branch_to_fail_if(b, not_boxed, fail);
    let ptr = untagged_ptr(b, value);
    let header = b.emit(IrOp::Load { ty: IrType::I64, base: ptr, offset: 0 });
    let header_tag = b.emit(IrOp::BinaryImm { code: ImmCode::Band, left: header, imm: HEADER_TAG_MASK });
    let not_tuple = b.emit(IrOp::CompareImm { cc: IntCc::NotEqual, left: header_tag, imm: TUPLE_HEADER_TAG });
    branch_to_fail_if(b, not_tuple, fail);
    header
}

/// What [`lower_test_arity`] makes of a lowering.
pub open spec fn lower_test_arity_ir(
    b: LoweringView,
    register_file: Value,
    tuple: OperandView,
    arity: OperandView,
    fail: Block,
    success: Block,
) -> Result<LoweringView, JitFault> {
    match immediate_usize_of(arity, "test_arity arity"@) {
        Err(e) => Err(e),
        Ok(expected) => {
            match read_operand_term_ir(b, register_file, tuple) {
                Err(e) => Err(e),
                Ok((tuple, b)) => {
                    let (header, b) = checked_tuple_header_ir(b, tuple, fail);
                    let (actual, b) = b.emit(IrOp::BinaryImm { code: ImmCode::Ushr, left: header, imm: HEADER_SIZE_SHIFT });
                    let (passed, b) = b.emit(IrOp::CompareImm { cc: IntCc::Equal, left: actual, imm: expected as i64 });
                    let b = b.emit(IrOp::Brif { condition: passed, then_block: success, else_block: fail }).1;
                    Ok(b)
                },
            }
        },
    }
}

/// Goes to `success` when the operand is a tuple of the arity, to `fail`
/// otherwise.
pub fn lower_test_arity(
    b: &mut Lowering,
    register_file: Value,
    tuple: &Operand,
    arity: &Operand,
    fail: Block,
    success: Block,
) -> (r: Result<(), JitError>)
    ensures
        lowered(r, final(b)@) == lower_test_arity_ir(old(b)@, register_file, tuple.view(), arity.view(), fail, success),
{
    let expected: usize = immediate_usize(arity, "test_arity arity")?;
    let tuple = read_operand_term(b, register_file, tuple)?;
    let header = checked_tuple_header(b, tuple, fail);
    let actual = b.emit(IrOp::BinaryImm { code: ImmCode::Ushr, left: header, imm: HEADER_SIZE_SHIFT });
    let passed = b.emit(IrOp::CompareImm { cc: IntCc::Equal, left: actual, imm: expected as i64 });
    b.emit(IrOp::Brif { condition: passed, then_block: success, else_block: fail });
    Ok(())
}

/// What [`lower_is_tagged_tuple`] makes of a lowering.
pub open spec fn lower_is_tagged_tuple_ir(
    b: LoweringView,
    register_file: Value,
    value: OperandView,
    arity: OperandView,
    tag: OperandView,
    fail: Block,
    success: Block,
) -> Result<LoweringView, JitFault> {
    match immediate_usize_of(arity, "is_tagged_tuple arity"@) {
        Err(e) => Err(e),
        Ok(expected_arity) => {
            if expected_arity == 0 {
                let b = b.emit(IrOp::Jump { block: fail }).1;
                Ok(b)
            } else {
                match expected_atom_of(tag) {
                    Err(e) => Err(e),
                    Ok(expected_tag) => {
                        match read_operand_term_ir(b, register_file, value) {
                            Err(e) => Err(e),
                            Ok((value, b)) => {
                                let (header, b) = checked_tuple_header_ir(b, value, fail);
                                let (actual_arity, b) = b.emit(IrOp::BinaryImm { code: ImmCode::Ushr, left: header, imm: HEADER_SIZE_SHIFT });
                                let (arity_mismatch, b) = b.emit(IrOp::CompareImm { cc: IntCc::NotEqual, left: actual_arity, imm: expected_arity as i64 });
                                let b = branch_to_fail_if_ir(b, arity_mismatch, fail);
                                let (ptr, b) = untagged_ptr_ir(b, value);
                                let (first, b) = b.emit(IrOp::Load { ty: IrType::I64, base: ptr, offset: 8 });
                                let (passed, b) = b.emit(IrOp::CompareImm { cc: IntCc::Equal, left: first, imm: expected_tag });
                                let b = b.emit(IrOp::Brif { condition: passed, then_block: success, else_block: fail }).1;
                                Ok(b)
                            },
                        }
                    },
                }
            }
        },
    }
}

/// Goes to `success` when the operand is a tuple of the arity whose first
/// element is the atom, to `fail` otherwise.
pub fn lower_is_tagged_tuple(
    b: &mut Lowering,
    register_file: Value,
    value: &Operand,
    arity: &Operand,
    tag: &Operand,
    fail: Block,
    success: Block,
) -> (r: Result<(), JitError>)
    ensures
        lowered(r, final(b)@) == lower_is_tagged_tuple_ir(old(b)@, register_file, value.view(), arity.view(), tag.view(), fail, success),
{
    let expected_arity: usize = immediate_usize(arity, "is_tagged_tuple arity")?;
    if expected_arity == 0 {
        b.emit(IrOp::Jump { block: fail });
        return Ok(());
    }
    let expected_tag: i64 = expected_atom(tag)?;
    let value = read_operand_term(b, register_file, value)?;
    let header = checked_tuple_header(b, value, fail);
    let actual_arity = b.emit(IrOp::BinaryImm { code: ImmCode::Ushr, left: header, imm: HEADER_SIZE_SHIFT });
    let arity_mismatch = b.emit(IrOp::CompareImm { cc: IntCc::NotEqual, left: actual_arity, imm: expected_arity as i64 });
    branch_to_fail_if(b, arity_mismatch, fail);
    let ptr = untagged_ptr(b, value);
    let first = b.emit(IrOp::Load { ty: IrType::I64, base: ptr, offset: 8 });
    let passed = b.emit(IrOp::CompareImm { cc: IntCc::Equal, left: first, imm: expected_tag });
    b.emit(IrOp::Brif { condition: passed, then_block: success, else_block: fail });
    Ok(())
}

/// A term that a selection compares with, and where it goes when they are the
/// same.
#[derive(Debug, Clone, Copy, PartialEq, Eq, Structural)]
pub struct SelectPair {
    pub candidate_raw: u64,
    pub target: Block,
}

/// The operands of a selection, which come in pairs.
pub open spec fn select_items_of(list: OperandView) -> Result<Seq<OperandView>, JitFault> {
    match list {
        OperandView::List(items) => if items.len() % 2 != 0 {
            Err(operand_fault("select_val odd list "@, list))
        } else {
            Ok(items)
        },
        _ => Err(operand_fault("select_val list "@, list)),
    }
}

/// The operands of a selection, which come in pairs.
pub fn parse_select_pairs(list: &Operand) -> (r: Result<&Vec<Operand>, JitError>)
    ensures
        match r {
            Ok(items) => select_items_of(list.view()) == Ok::<Seq<OperandView>, JitFault>(
                operand_views(items@),
            ),
            Err(e) => select_items_of(list.view()) == Err::<Seq<OperandView>, JitFault>(e@),
        },
{
    match list {
        Operand::List(items) => {
            proof {
                lemma_operand_list_view(*items);
            }
            if items.len() % 2 != 0 {
                Err(operand_error("select_val odd list ", list))
            } else {
                Ok(items)
            }
        },
        _ => Err(operand_error("select_val list ", list)),
    }
}

/// The pairs with one more: after those that come before it or have the same
/// term.
pub open spec fn with_pair(sorted: Seq<SelectPair>, pair: SelectPair) -> Seq<SelectPair>
    decreases sorted.len(),
{
    if sorted.len() == 0 || sorted.last().candidate_raw <= pair.candidate_raw {
        sorted.push(pair)
    } else {
        with_pair(sorted.drop_last(), pair).push(sorted.last())
    }
}

/// The pairs in the order of their terms; pairs of the same term keep theirs.
pub open spec fn sorted_pairs(pairs: Seq<SelectPair>) -> Seq<SelectPair>
    decreases pairs.len(),
{
    if pairs.len() == 0 {
        Seq::empty()
    } else {
        with_pair(sorted_pairs(pairs.drop_last()), pairs.last())
    }
}

proof fn lemma_with_pair(sorted: Seq<SelectPair>, pair: SelectPair, at: int)
    requires
        0 <= at <= sorted.len(),
        at > 0 ==> sorted[at - 1].candidate_raw <= pair.candidate_raw,
        forall|i: int| at <= i < sorted.len() ==> sorted[i].candidate_raw > pair.candidate_raw,
    ensures
        with_pair(sorted, pair) == sorted.insert(at, pair),
    decreases sorted.len(),
{
    if at == sorted.len() {
        assert(sorted.insert(at, pair) =~= sorted.push(pair));
    } else {
        assert(sorted.last().candidate_raw > pair.candidate_raw);
        lemma_with_pair(sorted.drop_last(), pair, at);
        assert(sorted.drop_last().insert(at, pair).push(sorted.last()) =~= sorted.insert(
            at,
            pair,
        ));
    }
}

fn sort_pairs(pairs: &Vec<SelectPair>) -> (r: Vec<SelectPair>)
    ensures
        r@ == sorted_pairs(pairs@),
{
    let mut sorted: Vec<SelectPair> = Vec::new();
    let mut i: usize = 0;
    while i < pairs.len()
        invariant
            i <= pairs@.len(),
            sorted@ == sorted_pairs(pairs@.take(i as int)),
        decreases pairs@.len() - i,
    {
        let pair = pairs[i];
        proof {
            assert(pairs@.take(i + 1).drop_last() =~= pairs@.take(i as int));
        }
        let mut at: usize = sorted.len();
        while at > 0 && sorted[at - 1].candidate_raw > pair.candidate_raw
            invariant
                at <= sorted@.len(),
                forall|j: int|
                    at <= j < sorted@.len() ==> sorted@[j].candidate_raw > pair.candidate_raw,
            decreases at,
        {
            at -= 1;
        }
        proof {
            lemma_with_pair(sorted@, pair, at as int);
        }
        sorted.insert(at, pair);
        i += 1;
    }
    assert(pairs@.take(pairs@.len() as int) =~= pairs@);
    sorted
}

/// A search among pairs in order: the middle one is compared with first, then
/// those before it or those after it.
pub open spec fn select_search_ir(
    b: LoweringView,
    value: Value,
    fail: Block,
    pairs: Seq<SelectPair>,
) -> LoweringView
    decreases pairs.len(),
{
    if pairs.len() == 0 {
        b.emit(IrOp::Jump { block: fail }).1
    } else {
        let mid = pairs.len() / 2;
        let pivot = pairs[mid as int];
        let (matched, b) = b.emit(
            IrOp::CompareImm { cc: IntCc::Equal, left: value, imm: pivot.candidate_raw as i64 },
        );
        if pairs.len() == 1 {
            b.emit(
                IrOp::Brif { condition: matched, then_block: pivot.target, else_block: fail },
            ).1
        } else {
            let (compare_block, b) = b.create_block();
            let b = b.emit(
                IrOp::Brif {
                    condition: matched,
                    then_block: pivot.target,
                    else_block: compare_block,
                },
            ).1;
            let b = b.switch(compare_block);
            let (less, b) = b.emit(
                IrOp::CompareImm {
                    cc: IntCc::UnsignedLessThan,
                    left: value,
                    imm: pivot.candidate_raw as i64,
                },
            );
            let (left_block, b) = b.create_block();
            let (right_block, b) = b.create_block();
            let b = b.emit(
                IrOp::Brif { condition: less, then_block: left_block, else_block: right_block },
            ).1;
            let b = b.switch(left_block);
            let b = select_search_ir(b, value, fail, pairs.take(mid as int));
            let b = b.switch(right_block);
            select_search_ir(b, value, fail, pairs.skip((mid + 1) as int))
        }
    }
}

fn lower_select_binary_search(
    b: &mut Lowering,
    value: Value,
    fail: Block,
    pairs: &Vec<SelectPair>,
    from: usize,
    to: usize,
)
    requires
        from <= to <= pairs@.len(),
    ensures
        final(b)@ == select_search_ir(
            old(b)@,
            value,
            fail,
            pairs@.subrange(from as int, to as int),
        ),
    decreases to - from,
{
    let ghost part = pairs@.subrange(from as int, to as int);
    if from == to {
        b.emit(IrOp::Jump { block: fail });
        return;
    }
    let mid: usize = from + (to - from) / 2;
    let pivot = pairs[mid];
    assert(pivot == part[(part.len() / 2) as int]);
    let matched = b.emit(
        IrOp::CompareImm { cc: IntCc::Equal, left: value, imm: pivot.candidate_raw as i64 },
    );
    if to - from == 1 {
        b.emit(IrOp::Brif { condition: matched, then_block: pivot.target, else_block: fail });
        return;
    }
    let compare_block = b.create_block();
    b.emit(
        IrOp::Brif { condition: matched, then_block: pivot.target, else_block: compare_block },
    );
    b.switch(compare_block);
    let less = b.emit(
        IrOp::CompareImm { cc: IntCc::UnsignedLessThan, left: value, imm: pivot.candidate_raw as i64 },
    );
    let left_block = b.create_block();
    let right_block = b.create_block();
    b.emit(IrOp::Brif { condition: less, then_block: left_block, else_block: right_block });
    b.switch(left_block);
    proof {
        assert(pairs@.subrange(from as int, mid as int) =~= part.take((part.len() / 2) as int));
        assert(pairs@.subrange(mid + 1, to as int) =~= part.skip((part.len() / 2 + 1) as int));
    }
    lower_select_binary_search(b, value, fail, pairs, from, mid);
    b.switch(right_block);
    lower_select_binary_search(b, value, fail, pairs, mid + 1, to);
}

/// What [`lower_select_val`] makes of a lowering.
pub open spec fn lower_select_val_ir(
    b: LoweringView,
    register_file: Value,
    value: OperandView,
    fail: Block,
    pairs: Seq<SelectPair>,
) -> Result<LoweringView, JitFault> {
    match read_operand_term_ir(b, register_file, value) {
        Err(e) => Err(e),
        Ok((value, b)) => Ok(select_search_ir(b, value, fail, sorted_pairs(pairs))),
    }
}

/// Goes to the target of the pair whose term the operand is, or to `fail`.
pub fn lower_select_val(
    b: &mut Lowering,
    register_file: Value,
    value: &Operand,
    fail: Block,
    pairs: &Vec<SelectPair>,
) -> (r: Result<(), JitError>)
    ensures
        lowered(r, final(b)@) == lower_select_val_ir(
            old(b)@,
            register_file,
            value.view(),
            fail,
            pairs@,
        ),
{
    let value = read_operand_term(b, register_file, value)?;
    let sorted = sort_pairs(pairs);
    assert(sorted@.subrange(0, sorted@.len() as int) =~= sorted@);
    lower_select_binary_search(b, value, fail, &sorted, 0, sorted.len());
    Ok(())
}

} // verus!

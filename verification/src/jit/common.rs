//! Reading and writing operands, and branches, in lowered code.

use vstd::prelude::*;
use crate::loader::decode::compact::{Operand, OperandView};
use crate::term::{
    atom_term, atom_term_of, small_term, small_term_of, NIL_TERM, SMALL_INT_SHIFT, TERM_TAG_MASK,
};
use super::error::{
    jit_outcome, number_error, number_fault, operand_error, operand_fault, signed_error,
    signed_fault, JitError, JitFault,
};
use super::helper::IrType;
use super::ir::{
    lowered, lowered_with, Block, ImmCode, IntCc, IrOp, Lowering, LoweringView, Value,
};
use super::register::{
    register_offset, register_offset_of, register_operand, register_operand_of, Register,
};

verus! {

/// What a function returns when the interpreter has to take over.
pub const JIT_DEOPT_SENTINEL: i64 = -1;

/// What a function returns when its process has used up its reductions.
pub const JIT_YIELD_SENTINEL: i64 = -2;

/// What [`label_operand`] answers.
pub open spec fn label_operand_of(operand: OperandView) -> Result<u32, JitFault> {
    match operand {
        OperandView::Label(label) => Ok(label),
        _ => Err(operand_fault("label "@, operand)),
    }
}

/// The label that an operand names.
pub fn label_operand(operand: &Operand) -> (r: Result<u32, JitError>)
    ensures
        jit_outcome(r) == label_operand_of(operand.view()),
{
    match operand {
        Operand::Label(label) => Ok(*label),
        _ => Err(operand_error("label ", operand)),
    }
}

/// What [`constant_term`] answers.
pub open spec fn constant_term_of(operand: OperandView) -> Result<i64, JitFault> {
    match operand {
        OperandView::Integer(value) => {
            match small_term_of(value) {
                Some(term) => Ok(term),
                None => Err(signed_fault("small integer literal "@, value)),
            }
        },
        OperandView::Unsigned(value) => {
            if value > 0x7fff_ffff_ffff_ffff {
                Err(number_fault("unsigned literal "@, value))
            } else {
                match small_term_of(value as i64) {
                    Some(term) => Ok(term),
                    None => Err(number_fault("unsigned literal "@, value)),
                }
            }
        },
        OperandView::Atom(Some(atom)) => Ok(atom_term_of(atom)),
        OperandView::Atom(None) => Ok(NIL_TERM),
        _ => Err(operand_fault("read operand "@, operand)),
    }
}

/// The term of an operand that is a constant.
pub fn constant_term(operand: &Operand) -> (r: Result<i64, JitError>)
    ensures
        jit_outcome(r) == constant_term_of(operand.view()),
{
    match operand {
        Operand::Integer(value) => {
            match small_term(*value) {
                Some(term) => Ok(term),
                None => Err(signed_error("small integer literal ", *value)),
            }
        },
        Operand::Unsigned(value) => {
            if *value > 0x7fff_ffff_ffff_ffff {
                Err(number_error("unsigned literal ", *value))
            } else {
                match small_term(*value as i64) {
                    Some(term) => Ok(term),
                    None => Err(number_error("unsigned literal ", *value)),
                }
            }
        },
        Operand::Atom(Some(atom)) => Ok(atom_term(*atom)),
        Operand::Atom(None) => Ok(NIL_TERM),
        _ => Err(operand_error("read operand ", operand)),
    }
}

/// What [`is_register`] answers.
pub open spec fn is_register_of(operand: OperandView) -> bool {
    match operand {
        OperandView::X(_) => true,
        OperandView::Y(_) => true,
        OperandView::TypedRegister { .. } => true,
        _ => false,
    }
}

/// Whether an operand is a register.
pub fn is_register(operand: &Operand) -> (r: bool)
    ensures
        r == is_register_of(operand.view()),
{
    match operand {
        Operand::X(_) => true,
        Operand::Y(_) => true,
        Operand::TypedRegister { .. } => true,
        _ => false,
    }
}

/// What [`validate_read_operand`] answers.
pub open spec fn validate_read_operand_of(operand: OperandView) -> Result<(), JitFault> {
    if is_register_of(operand) {
        match register_operand_of(operand) {
            Err(e) => Err(e),
            Ok(_) => Ok(()),
        }
    } else {
        match constant_term_of(operand) {
            Err(e) => Err(e),
            Ok(_) => Ok(()),
        }
    }
}

/// Whether an operand can be read.
pub fn validate_read_operand(operand: &Operand) -> (r: Result<(), JitError>)
    ensures
        jit_outcome(r) == validate_read_operand_of(operand.view()),
{
    if is_register(operand) {
        let _ = register_operand(operand)?;
        Ok(())
    } else {
        let _ = constant_term(operand)?;
        Ok(())
    }
}

/// What [`validate_write_operand`] answers.
pub open spec fn validate_write_operand_of(operand: OperandView) -> Result<(), JitFault> {
    match register_operand_of(operand) {
        Err(e) => Err(e),
        Ok(_) => Ok(()),
    }
}

/// Whether an operand can be written.
pub fn validate_write_operand(operand: &Operand) -> (r: Result<(), JitError>)
    ensures
        jit_outcome(r) == validate_write_operand_of(operand.view()),
{
    let _ = register_operand(operand)?;
    Ok(())
}

/// What [`validate_label_operand`] answers.
pub open spec fn validate_label_operand_of(operand: OperandView) -> Result<(), JitFault> {
    match label_operand_of(operand) {
        Err(e) => Err(e),
        Ok(_) => Ok(()),
    }
}

/// Whether an operand names a label.
pub fn validate_label_operand(operand: &Operand) -> (r: Result<(), JitError>)
    ensures
        jit_outcome(r) == validate_label_operand_of(operand.view()),
{
    let _ = label_operand(operand)?;
    Ok(())
}

/// What [`read_register_term`] makes of a lowering.
pub open spec fn read_register_term_ir(
    b: LoweringView,
    register_file: Value,
    register: Register,
) -> (Value, LoweringView) {
    let offset = register_offset_of(register);
    b.emit(IrOp::Load { ty: IrType::I64, base: register_file, offset })
}

/// Loads a register.
pub fn read_register_term(
    b: &mut Lowering,
    register_file: Value,
    register: Register,
) -> (r: Value)
    ensures
        (r, final(b)@) == read_register_term_ir(old(b)@, register_file, register),
{
    let offset: i64 = register_offset(register);
    b.emit(IrOp::Load { ty: IrType::I64, base: register_file, offset })
}

/// What [`write_register_term`] makes of a lowering.
pub open spec fn write_register_term_ir(
    b: LoweringView,
    register_file: Value,
    register: Register,
    value: Value,
) -> LoweringView {
    let offset = register_offset_of(register);
    let b = b.emit(IrOp::Store { value, base: register_file, offset }).1;
    b
}

/// Stores to a register.
pub fn write_register_term(
    b: &mut Lowering,
    register_file: Value,
    register: Register,
    value: Value,
)
    ensures
        final(b)@ == write_register_term_ir(old(b)@, register_file, register, value),
{
    let offset: i64 = register_offset(register);
    b.emit(IrOp::Store { value, base: register_file, offset });
}

/// What [`read_operand_term`] makes of a lowering.
pub open spec fn read_operand_term_ir(
    b: LoweringView,
    register_file: Value,
    operand: OperandView,
) -> Result<(Value, LoweringView), JitFault> {
    if is_register_of(operand) {
        match register_operand_of(operand) {
            Err(e) => Err(e),
            Ok(register) => Ok(read_register_term_ir(b, register_file, register)),
        }
    } else {
        match constant_term_of(operand) {
            Err(e) => Err(e),
            Ok(value) => Ok(b.emit(IrOp::Iconst { ty: IrType::I64, value })),
        }
    }
}

/// Loads an operand: a register, or the term of a constant.
pub fn read_operand_term(
    b: &mut Lowering,
    register_file: Value,
    operand: &Operand,
) -> (r: Result<Value, JitError>)
    ensures
        lowered_with(r, final(b)@) == read_operand_term_ir(old(b)@, register_file, operand.view()),
{
    if is_register(operand) {
        let register = register_operand(operand)?;
        Ok(read_register_term(b, register_file, register))
    } else {
        let value: i64 = constant_term(operand)?;
        Ok(b.emit(IrOp::Iconst { ty: IrType::I64, value }))
    }
}

/// What [`write_operand_term`] makes of a lowering.
pub open spec fn write_operand_term_ir(
    b: LoweringView,
    register_file: Value,
    operand: OperandView,
    value: Value,
) -> Result<LoweringView, JitFault> {
    match register_operand_of(operand) {
        Err(e) => Err(e),
        Ok(register) => {
            let b = write_register_term_ir(b, register_file, register, value);
            Ok(b)
        },
    }
}

/// Stores to the register that an operand names.
pub fn write_operand_term(
    b: &mut Lowering,
    register_file: Value,
    operand: &Operand,
    value: Value,
) -> (r: Result<(), JitError>)
    ensures
        lowered(r, final(b)@) == write_operand_term_ir(old(b)@, register_file, operand.view(), value),
{
    let register = register_operand(operand)?;
    write_register_term(b, register_file, register, value);
    Ok(())
}

/// What [`branch_to_fail_if`] makes of a lowering.
pub open spec fn branch_to_fail_if_ir(
    b: LoweringView,
    condition: Value,
    fail: Block,
) -> LoweringView {
    let (continuation, b) = b.create_block();
    let b = b.emit(IrOp::Brif { condition, then_block: fail, else_block: continuation }).1;
    let b = b.switch(continuation);
    b
}

/// Goes to `fail` when the condition holds, and on in a new block otherwise.
pub fn branch_to_fail_if(b: &mut Lowering, condition: Value, fail: Block)
    ensures
        final(b)@ == branch_to_fail_if_ir(old(b)@, condition, fail),
{
    let continuation = b.create_block();
    b.emit(IrOp::Brif { condition, then_block: fail, else_block: continuation });
    b.switch(continuation);
}

/// What [`branch_to_fail_unless`] makes of a lowering.
pub open spec fn branch_to_fail_unless_ir(
    b: LoweringView,
    condition: Value,
    fail: Block,
) -> LoweringView {
    let (continuation, b) = b.create_block();
    let b = b.emit(IrOp::Brif { condition, then_block: continuation, else_block: fail }).1;
    let b = b.switch(continuation);
    b
}

/// Goes to `fail` unless the condition holds.
pub fn branch_to_fail_unless(b: &mut Lowering, condition: Value, fail: Block)
    ensures
        final(b)@ == branch_to_fail_unless_ir(old(b)@, condition, fail),
{
    let continuation = b.create_block();
    b.emit(IrOp::Brif { condition, then_block: continuation, else_block: fail });
    b.switch(continuation);
}

/// What [`branch_if_null`] makes of a lowering.
pub open spec fn branch_if_null_ir(b: LoweringView, value: Value, target: Block) -> LoweringView {
    let (is_null, b) = b.emit(IrOp::CompareImm { cc: IntCc::Equal, left: value, imm: 0 });
    let b = branch_to_fail_if_ir(b, is_null, target);
    b
}

/// Goes to `target` when the value is zero.
pub fn branch_if_null(b: &mut Lowering, value: Value, target: Block)
    ensures
        final(b)@ == branch_if_null_ir(old(b)@, value, target),
{
    let is_null = b.emit(IrOp::CompareImm { cc: IntCc::Equal, left: value, imm: 0 });
    branch_to_fail_if(b, is_null, target);
}

/// What [`checked_small_int_payload`] makes of a lowering.
pub open spec fn checked_small_int_payload_ir(
    b: LoweringView,
    term: Value,
    fail: Block,
) -> (Value, LoweringView) {
    let (tag, b) = b.emit(IrOp::BinaryImm { code: ImmCode::Band, left: term, imm: TERM_TAG_MASK });
    let (not_small, b) = b.emit(IrOp::CompareImm { cc: IntCc::NotEqual, left: tag, imm: 0 });
    let b = branch_to_fail_if_ir(b, not_small, fail);
    b.emit(IrOp::BinaryImm { code: ImmCode::Sshr, left: term, imm: SMALL_INT_SHIFT })
}

/// The integer of a term; goes to `fail` when the term holds none.
pub fn checked_small_int_payload(b: &mut Lowering, term: Value, fail: Block) -> (r: Value)
    ensures
        (r, final(b)@) == checked_small_int_payload_ir(old(b)@, term, fail),
{
    let tag = b.emit(IrOp::BinaryImm { code: ImmCode::Band, left: term, imm: TERM_TAG_MASK });
    let not_small = b.emit(IrOp::CompareImm { cc: IntCc::NotEqual, left: tag, imm: 0 });
    branch_to_fail_if(b, not_small, fail);
    b.emit(IrOp::BinaryImm { code: ImmCode::Sshr, left: term, imm: SMALL_INT_SHIFT })
}

} // verus!

//! Lowering arithmetic and comparisons.

use vstd::prelude::*;
use crate::loader::decode::compact::{operand_views, Operand, OperandView};
use crate::loader::decode::instruction::{BifOp, ComparisonOp};
use crate::loader::decode::names::{bif_name, bif_name_of};
use crate::term::{SMALL_INT_MAX, SMALL_INT_MIN, SMALL_INT_SHIFT};
use super::common::{
    branch_to_fail_if, branch_to_fail_if_ir, checked_small_int_payload,
    checked_small_int_payload_ir, read_operand_term, read_operand_term_ir, write_operand_term,
    write_operand_term_ir,
};
use super::error::{
    jit_outcome, operand_error, operand_fault, operands_error, operands_fault, operation_error,
    operation_fault, JitError, JitFault,
};
use super::ir::{
    lowered, BinaryCode, Block, ImmCode, IntCc, IrOp, Lowering, LoweringView, Value,
};

verus! {

/// The divisor by which the smallest integer cannot be divided.
pub const MINUS_ONE: i64 = -1;

/// What is computed of two integers.
#[derive(Debug, Clone, Copy, PartialEq, Eq, Structural)]
pub enum ArithmeticOp {
    Add,
    Subtract,
    Multiply,
    Div,
    Rem,
}

/// What [`arithmetic_import`] answers.
pub open spec fn arithmetic_import_of(import: OperandView) -> Result<ArithmeticOp, JitFault> {
    match import {
        OperandView::Unsigned(value) => {
            if value == 0 {
                Ok(ArithmeticOp::Add)
            } else if value == 1 {
                Ok(ArithmeticOp::Subtract)
            } else if value == 2 {
                Ok(ArithmeticOp::Multiply)
            } else if value == 3 {
                Ok(ArithmeticOp::Div)
            } else if value == 4 {
                Ok(ArithmeticOp::Rem)
            } else {
                Err(operand_fault("arithmetic import "@, import))
            }
        },
        _ => Err(operand_fault("arithmetic import "@, import)),
    }
}

/// The operation that an import stands for: the first five imports are the
/// arithmetic ones.
pub fn arithmetic_import(import: &Operand) -> (r: Result<ArithmeticOp, JitError>)
    ensures
        jit_outcome(r) == arithmetic_import_of(import.view()),
{
    match import {
        Operand::Unsigned(value) => {
            if *value == 0 {
                Ok(ArithmeticOp::Add)
            } else if *value == 1 {
                Ok(ArithmeticOp::Subtract)
            } else if *value == 2 {
                Ok(ArithmeticOp::Multiply)
            } else if *value == 3 {
                Ok(ArithmeticOp::Div)
            } else if *value == 4 {
                Ok(ArithmeticOp::Rem)
            } else {
                Err(operand_error("arithmetic import ", import))
            }
        },
        _ => Err(operand_error("arithmetic import ", import)),
    }
}

impl ArithmeticOp {
    /// The operation that an import stands for.
    pub fn from_import(import: &Operand) -> (r: Result<Self, JitError>)
        ensures
            jit_outcome(r) == arithmetic_import_of(import.view()),
    {
        arithmetic_import(import)
    }
}

/// Where an arithmetic instruction goes: to `fail` when its operands or its
/// result are no integers of a term, to `success` otherwise.
#[derive(Debug, Clone, Copy, PartialEq, Eq, Structural)]
pub struct ArithmeticTargets {
    pub fail: Block,
    pub success: Block,
}

/// The operands of a built-in call.
#[derive(Debug, Clone, Copy)]
pub struct ParsedBif<'a> {
    pub fail: &'a Operand,
    pub import: &'a Operand,
    pub left: &'a Operand,
    pub right: &'a Operand,
    pub destination: &'a Operand,
}

/// A [`ParsedBif`] with the views of its operands.
#[verifier::ext_equal]
pub struct BifView {
    pub fail: OperandView,
    pub import: OperandView,
    pub left: OperandView,
    pub right: OperandView,
    pub destination: OperandView,
}

impl<'a> View for ParsedBif<'a> {
    type V = BifView;

    open spec fn view(&self) -> BifView {
        BifView {
            fail: self.fail.view(),
            import: self.import.view(),
            left: self.left.view(),
            right: self.right.view(),
            destination: self.destination.view(),
        }
    }
}

/// The operands of a built-in call of two arguments. One that may collect
/// garbage can say how much it needs, which is not looked at.
pub open spec fn parse_bif_of(op: BifOp, operands: Seq<OperandView>) -> Result<BifView, JitFault> {
    match op {
        BifOp::Bif2 => if operands.len() == 5 {
            Ok(
                BifView {
                    fail: operands[0],
                    import: operands[1],
                    left: operands[2],
                    right: operands[3],
                    destination: operands[4],
                },
            )
        } else {
            Err(operands_fault("bif2 operands "@, operands))
        },
        BifOp::GcBif2 => if operands.len() == 5 {
            Ok(
                BifView {
                    fail: operands[0],
                    import: operands[1],
                    left: operands[2],
                    right: operands[3],
                    destination: operands[4],
                },
            )
        } else if operands.len() == 6 {
            Ok(
                BifView {
                    fail: operands[0],
                    import: operands[2],
                    left: operands[3],
                    right: operands[4],
                    destination: operands[5],
                },
            )
        } else {
            Err(operands_fault("gc_bif2 operands "@, operands))
        },
        _ => Err(operation_fault("Bif("@, bif_name_of(op), ")"@)),
    }
}

impl<'a> ParsedBif<'a> {
    /// The operands of a built-in call of two arguments.
    pub fn parse(op: BifOp, operands: &'a Vec<Operand>) -> (r: Result<ParsedBif<'a>, JitError>)
        ensures
            match r {
                Ok(parsed) => parse_bif_of(op, operand_views(operands@)) == Ok::<BifView, JitFault>(
                    parsed@,
                ),
                Err(e) => parse_bif_of(op, operand_views(operands@)) == Err::<BifView, JitFault>(
                    e@,
                ),
            },
    {
        match op {
            BifOp::Bif2 => if operands.len() == 5 {
                Ok(
                    ParsedBif {
                        fail: &operands[0],
                        import: &operands[1],
                        left: &operands[2],
                        right: &operands[3],
                        destination: &operands[4],
                    },
                )
            } else {
                Err(operands_error("bif2 operands ", operands))
            },
            BifOp::GcBif2 => if operands.len() == 5 {
                Ok(
                    ParsedBif {
                        fail: &operands[0],
                        import: &operands[1],
                        left: &operands[2],
                        right: &operands[3],
                        destination: &operands[4],
                    },
                )
            } else if operands.len() == 6 {
                Ok(
                    ParsedBif {
                        fail: &operands[0],
                        import: &operands[2],
                        left: &operands[3],
                        right: &operands[4],
                        destination: &operands[5],
                    },
                )
            } else {
                Err(operands_error("gc_bif2 operands ", operands))
            },
            _ => Err(operation_error("Bif(", bif_name(op), ")")),
        }
    }
}

/// What [`signed_add_overflow`] makes of a lowering.
pub open spec fn signed_add_overflow_ir(
    b: LoweringView,
    left: Value,
    right: Value,
    result: Value,
) -> (Value, LoweringView) {
    let (left_xor_result, b) = b.emit(IrOp::Binary { code: BinaryCode::Bxor, left, right: result });
    let (right_xor_result, b) = b.emit(IrOp::Binary { code: BinaryCode::Bxor, left: right, right: result });
    let (both_changed_sign, b) = b.emit(IrOp::Binary { code: BinaryCode::Band, left: left_xor_result, right: right_xor_result });
    b.emit(IrOp::CompareImm { cc: IntCc::SignedLessThan, left: both_changed_sign, imm: 0 })
}

/// Whether a sum has a sign that neither summand has.
pub fn signed_add_overflow(
    b: &mut Lowering,
    left: Value,
    right: Value,
    result: Value,
) -> (r: Value)
    ensures
        (r, final(b)@) == signed_add_overflow_ir(old(b)@, left, right, result),
{
    let left_xor_result = b.emit(IrOp::Binary { code: BinaryCode::Bxor, left, right: result });
    let right_xor_result = b.emit(IrOp::Binary { code: BinaryCode::Bxor, left: right, right: result });
    let both_changed_sign = b.emit(IrOp::Binary { code: BinaryCode::Band, left: left_xor_result, right: right_xor_result });
    b.emit(IrOp::CompareImm { cc: IntCc::SignedLessThan, left: both_changed_sign, imm: 0 })
}

/// What [`signed_sub_overflow`] makes of a lowering.
pub open spec fn signed_sub_overflow_ir(
    b: LoweringView,
    left: Value,
    right: Value,
    result: Value,
) -> (Value, LoweringView) {
    let (left_xor_right, b) = b.emit(IrOp::Binary { code: BinaryCode::Bxor, left, right });
    let (left_xor_result, b) = b.emit(IrOp::Binary { code: BinaryCode::Bxor, left, right: result });
    let (both_changed_sign, b) = b.emit(IrOp::Binary { code: BinaryCode::Band, left: left_xor_right, right: left_xor_result });
    b.emit(IrOp::CompareImm { cc: IntCc::SignedLessThan, left: both_changed_sign, imm: 0 })
}

/// Whether a difference has overflowed.
pub fn signed_sub_overflow(
    b: &mut Lowering,
    left: Value,
    right: Value,
    result: Value,
) -> (r: Value)
    ensures
        (r, final(b)@) == signed_sub_overflow_ir(old(b)@, left, right, result),
{
    let left_xor_right = b.emit(IrOp::Binary { code: BinaryCode::Bxor, left, right });
    let left_xor_result = b.emit(IrOp::Binary { code: BinaryCode::Bxor, left, right: result });
    let both_changed_sign = b.emit(IrOp::Binary { code: BinaryCode::Band, left: left_xor_right, right: left_xor_result });
    b.emit(IrOp::CompareImm { cc: IntCc::SignedLessThan, left: both_changed_sign, imm: 0 })
}

/// What [`lower_word_arithmetic`] makes of a lowering.
pub open spec fn lower_word_arithmetic_ir(
    b: LoweringView,
    op: ArithmeticOp,
    left: Value,
    right: Value,
    zero: Block,
    overflow: Block,
) -> (Value, LoweringView) {
    match op {
        ArithmeticOp::Add => {
            let (value, b) = b.emit(IrOp::Binary { code: BinaryCode::Iadd, left, right });
            let (overflowed, b) = signed_add_overflow_ir(b, left, right, value);
            let b = branch_to_fail_if_ir(b, overflowed, overflow);
            (value, b)
        },
        ArithmeticOp::Subtract => {
            let (value, b) = b.emit(IrOp::Binary { code: BinaryCode::Isub, left, right });
            let (overflowed, b) = signed_sub_overflow_ir(b, left, right, value);
            let b = branch_to_fail_if_ir(b, overflowed, overflow);
            (value, b)
        },
        ArithmeticOp::Multiply => {
            let (value, b) = b.emit(IrOp::SmulOverflow { left, right });
            let (overflowed, b) = b.emit(IrOp::Result { of: value, index: 1 });
            let b = branch_to_fail_if_ir(b, overflowed, overflow);
            (value, b)
        },
        _ => {
            let (is_zero, b) = b.emit(IrOp::CompareImm { cc: IntCc::Equal, left: right, imm: 0 });
            let b = branch_to_fail_if_ir(b, is_zero, zero);
            let (min_divisor, b) = b.emit(IrOp::CompareImm { cc: IntCc::Equal, left: right, imm: MINUS_ONE });
            let (min_dividend, b) = b.emit(IrOp::CompareImm { cc: IntCc::Equal, left, imm: i64::MIN });
            let (division_overflow, b) = b.emit(IrOp::Binary { code: BinaryCode::Band, left: min_dividend, right: min_divisor });
            let b = branch_to_fail_if_ir(b, division_overflow, overflow);
            let code = match op {
                ArithmeticOp::Div => BinaryCode::Sdiv,
                _ => BinaryCode::Srem,
            };
            b.emit(IrOp::Binary { code, left, right })
        },
    }
}

/// The sum, difference, product, quotient or remainder of two integers. When it
/// does not fit in a word, goes to `overflow`; when the divisor is zero, to
/// `zero`.
pub fn lower_word_arithmetic(
    b: &mut Lowering,
    op: ArithmeticOp,
    left: Value,
    right: Value,
    zero: Block,
    overflow: Block,
) -> (r: Value)
    ensures
        (r, final(b)@) == lower_word_arithmetic_ir(old(b)@, op, left, right, zero, overflow),
{
    match op {
        ArithmeticOp::Add => {
            let value = b.emit(IrOp::Binary { code: BinaryCode::Iadd, left, right });
            let overflowed = signed_add_overflow(b, left, right, value);
            branch_to_fail_if(b, overflowed, overflow);
            value
        },
        ArithmeticOp::Subtract => {
            let value = b.emit(IrOp::Binary { code: BinaryCode::Isub, left, right });
            let overflowed = signed_sub_overflow(b, left, right, value);
            branch_to_fail_if(b, overflowed, overflow);
            value
        },
        ArithmeticOp::Multiply => {
            let value = b.emit(IrOp::SmulOverflow { left, right });
            let overflowed = b.emit(IrOp::Result { of: value, index: 1 });
            branch_to_fail_if(b, overflowed, overflow);
            value
        },
        _ => {
            let is_zero = b.emit(IrOp::CompareImm { cc: IntCc::Equal, left: right, imm: 0 });
            branch_to_fail_if(b, is_zero, zero);
            let min_divisor = b.emit(IrOp::CompareImm { cc: IntCc::Equal, left: right, imm: MINUS_ONE });
            let min_dividend = b.emit(IrOp::CompareImm { cc: IntCc::Equal, left, imm: i64::MIN });
            let division_overflow = b.emit(IrOp::Binary { code: BinaryCode::Band, left: min_dividend, right: min_divisor });
            branch_to_fail_if(b, division_overflow, overflow);
            let code = match op {
                ArithmeticOp::Div => BinaryCode::Sdiv,
                _ => BinaryCode::Srem,
            };
            b.emit(IrOp::Binary { code, left, right })
        },
    }
}

/// What [`lower_arithmetic_bif`] makes of a lowering.
pub open spec fn lower_arithmetic_bif_ir(
    b: LoweringView,
    register_file: Value,
    op: ArithmeticOp,
    left: OperandView,
    right: OperandView,
    destination: OperandView,
    targets: ArithmeticTargets,
) -> Result<LoweringView, JitFault> {
    match read_operand_term_ir(b, register_file, left) {
        Err(e) => Err(e),
        Ok((left, b)) => {
            match read_operand_term_ir(b, register_file, right) {
                Err(e) => Err(e),
                Ok((right, b)) => {
                    let (left_payload, b) = checked_small_int_payload_ir(b, left, targets.fail);
                    let (right_payload, b) = checked_small_int_payload_ir(b, right, targets.fail);
                    let (result, b) = lower_word_arithmetic_ir(b, op, left_payload, right_payload, targets.fail, targets.fail);
                    let (min_check, b) = b.emit(IrOp::CompareImm { cc: IntCc::SignedLessThan, left: result, imm: SMALL_INT_MIN });
                    let (max_check, b) = b.emit(IrOp::CompareImm { cc: IntCc::SignedGreaterThan, left: result, imm: SMALL_INT_MAX });
                    let (out_of_range, b) = b.emit(IrOp::Binary { code: BinaryCode::Bor, left: min_check, right: max_check });
                    let b = branch_to_fail_if_ir(b, out_of_range, targets.fail);
                    let (tagged, b) = b.emit(IrOp::BinaryImm { code: ImmCode::Ishl, left: result, imm: SMALL_INT_SHIFT });
                    match write_operand_term_ir(b, register_file, destination, tagged) {
                        Err(e) => Err(e),
                        Ok(b) => {
                            let b = b.emit(IrOp::Jump { block: targets.success }).1;
                            Ok(b)
                        },
                    }
                },
            }
        },
    }
}

/// Computes of two integers in terms and goes to `success` with the result in
/// the destination. When an operand is no integer, the divisor is zero, or the
/// result does not fit in a term, goes to `fail` and leaves the destination.
pub fn lower_arithmetic_bif(
    b: &mut Lowering,
    register_file: Value,
    op: ArithmeticOp,
    left: &Operand,
    right: &Operand,
    destination: &Operand,
    targets: ArithmeticTargets,
) -> (r: Result<(), JitError>)
    ensures
        lowered(r, final(b)@) == lower_arithmetic_bif_ir(old(b)@, register_file, op, left.view(), right.view(), destination.view(), targets),
{
    let left = read_operand_term(b, register_file, left)?;
    let right = read_operand_term(b, register_file, right)?;
    let left_payload = checked_small_int_payload(b, left, targets.fail);
    let right_payload = checked_small_int_payload(b, right, targets.fail);
    let result = lower_word_arithmetic(b, op, left_payload, right_payload, targets.fail, targets.fail);
    let min_check = b.emit(IrOp::CompareImm { cc: IntCc::SignedLessThan, left: result, imm: SMALL_INT_MIN });
    let max_check = b.emit(IrOp::CompareImm { cc: IntCc::SignedGreaterThan, left: result, imm: SMALL_INT_MAX });
    let out_of_range = b.emit(IrOp::Binary { code: BinaryCode::Bor, left: min_check, right: max_check });
    branch_to_fail_if(b, out_of_range, targets.fail);
    let tagged = b.emit(IrOp::BinaryImm { code: ImmCode::Ishl, left: result, imm: SMALL_INT_SHIFT });
    write_operand_term(b, register_file, destination, tagged)?;
    b.emit(IrOp::Jump { block: targets.success });
    Ok(())
}

/// What [`lower_comparison`] makes of a lowering.
pub open spec fn lower_comparison_ir(
    b: LoweringView,
    register_file: Value,
    op: ComparisonOp,
    left: OperandView,
    right: OperandView,
    fail: Block,
    success: Block,
) -> Result<LoweringView, JitFault> {
    match read_operand_term_ir(b, register_file, left) {
        Err(e) => Err(e),
        Ok((left, b)) => {
            match read_operand_term_ir(b, register_file, right) {
                Err(e) => Err(e),
                Ok((right, b)) => {
                    let (passed, b) = match op {
                        ComparisonOp::Eq | ComparisonOp::EqExact => b.emit(IrOp::Compare { cc: IntCc::Equal, left, right }),
                        ComparisonOp::Ne | ComparisonOp::NeExact => b.emit(IrOp::Compare { cc: IntCc::NotEqual, left, right }),
                        ComparisonOp::Lt => {
                            let (left_payload, b) = checked_small_int_payload_ir(b, left, fail);
                            let (right_payload, b) = checked_small_int_payload_ir(b, right, fail);
                            b.emit(IrOp::Compare { cc: IntCc::SignedLessThan, left: left_payload, right: right_payload })
                        },
                        ComparisonOp::Ge => {
                            let (left_payload, b) = checked_small_int_payload_ir(b, left, fail);
                            let (right_payload, b) = checked_small_int_payload_ir(b, right, fail);
                            b.emit(IrOp::Compare { cc: IntCc::SignedGreaterThanOrEqual, left: left_payload, right: right_payload })
                        },
                    };
                    let b = b.emit(IrOp::Brif { condition: passed, then_block: success, else_block: fail }).1;
                    Ok(b)
                },
            }
        },
    }
}

/// Goes to `success` when the comparison holds, to `fail` otherwise. Only
/// integers are ordered.
pub fn lower_comparison(
    b: &mut Lowering,
    register_file: Value,
    op: ComparisonOp,
    left: &Operand,
    right: &Operand,
    fail: Block,
    success: Block,
) -> (r: Result<(), JitError>)
    ensures
        lowered(r, final(b)@) == lower_comparison_ir(old(b)@, register_file, op, left.view(), right.view(), fail, success),
{
    let left = read_operand_term(b, register_file, left)?;
    let right = read_operand_term(b, register_file, right)?;
    let passed = match op {
        ComparisonOp::Eq | ComparisonOp::EqExact => b.emit(IrOp::Compare { cc: IntCc::Equal, left, right }),
        ComparisonOp::Ne | ComparisonOp::NeExact => b.emit(IrOp::Compare { cc: IntCc::NotEqual, left, right }),
        ComparisonOp::Lt => {
            let left_payload = checked_small_int_payload(b, left, fail);
            let right_payload = checked_small_int_payload(b, right, fail);
            b.emit(IrOp::Compare { cc: IntCc::SignedLessThan, left: left_payload, right: right_payload })
        },
        ComparisonOp::Ge => {
            let left_payload = checked_small_int_payload(b, left, fail);
            let right_payload = checked_small_int_payload(b, right, fail);
            b.emit(IrOp::Compare { cc: IntCc::SignedGreaterThanOrEqual, left: left_payload, right: right_payload })
        },
    };
    b.emit(IrOp::Brif { condition: passed, then_block: success, else_block: fail });
    Ok(())
}

} // verus!

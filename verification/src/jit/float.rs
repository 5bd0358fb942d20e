//! Lowering float arithmetic.

use vstd::prelude::*;
use crate::loader::decode::compact::{operand_views, Operand, OperandView};
use crate::term::{BOXED_TAG, FLOAT_HEADER_TAG, HEADER_TAG_MASK, POINTER_MASK, SMALL_INT_SHIFT, TERM_TAG_MASK};
use super::common::{
    branch_if_null, branch_if_null_ir, branch_to_fail_if, branch_to_fail_if_ir, is_register,
    is_register_of, read_operand_term, read_operand_term_ir, validate_read_operand,
    validate_read_operand_of, validate_write_operand, validate_write_operand_of,
    write_operand_term, write_operand_term_ir,
};
use super::error::{
    form_error, form_fault, fr_error, fr_fault, jit_outcome, operand_error, operand_fault, pair_error, pair_fault,
    JitError, JitFault,
};
use super::float_registers::{float_register_index, float_register_index_of};
use super::helper::{Helper, IrType};
use super::ir::{
    lowered, Args, BinaryCode, Block, ImmCode, IntCc, IrOp, Lowering, LoweringView, Value,
};

verus! {

/// The bits of a float that hold its exponent.
pub const F64_EXPONENT_MASK: i64 = 0x7ff0_0000_0000_0000;

/// The bits of a float but for its sign.
pub const F64_MAGNITUDE_MASK: i64 = 0x7fff_ffff_ffff_ffff;

/// Where the float is in its box.
pub const BOXED_FLOAT_PAYLOAD_OFFSET: i64 = 8;

/// What is computed of two floats.
#[derive(Debug, Clone, Copy, PartialEq, Eq, Structural)]
pub enum FloatBinaryOp {
    Add,
    Subtract,
    Multiply,
    Divide,
}

/// The values that the lowering of float moves needs.
#[derive(Debug, Clone, Copy, PartialEq, Eq, Structural)]
pub struct FloatLoweringContext {
    pub register_file: Value,
    pub process: Value,
    pub deopt: Block,
}

/// The value of a float register.
pub open spec fn float_value_of(b: LoweringView, index: u32) -> Result<Value, JitFault> {
    match float_register_index_of(index) {
        Ok(index) => Ok(b.floats.value(index)),
        Err(e) => Err(e),
    }
}

fn float_value(b: &Lowering, index: u32) -> (r: Result<Value, JitError>)
    ensures
        jit_outcome(r) == float_value_of(b@, index),
{
    b.floats.get(index)
}

/// The lowering after a float register was set.
pub open spec fn set_float_ir(b: LoweringView, index: u32, value: Value) -> Result<
    LoweringView,
    JitFault,
> {
    match float_register_index_of(index) {
        Ok(index) => Ok(LoweringView { floats: b.floats.with(index, value), ..b }),
        Err(e) => Err(e),
    }
}

fn set_float(b: &mut Lowering, index: u32, value: Value) -> (r: Result<(), JitError>)
    ensures
        lowered(r, final(b)@) == set_float_ir(old(b)@, index, value),
{
    b.floats.set(index, value)
}

/// What [`float_register_operand`] answers.
pub open spec fn float_register_operand_of(operand: OperandView) -> Result<u32, JitFault> {
    match operand {
        OperandView::FloatRegister(index) => {
            match float_register_index_of(index) {
                Err(e) => Err(e),
                Ok(_) => Ok(index),
            }
        },
        _ => Err(operand_fault("expected float register, got "@, operand)),
    }
}

/// The float register that an operand is.
pub fn float_register_operand(operand: &Operand) -> (r: Result<u32, JitError>)
    ensures
        jit_outcome(r) == float_register_operand_of(operand.view()),
{
    match operand {
        Operand::FloatRegister(index) => {
            let _ = float_register_index(*index)?;
            Ok(*index)
        },
        _ => Err(operand_error("expected float register, got ", operand)),
    }
}

/// What [`translate_boxed_float_to_float`] makes of a lowering.
pub open spec fn translate_boxed_float_to_float_ir(
    b: LoweringView,
    term: Value,
    fail: Block,
) -> (Value, LoweringView) {
    let (tag, b) = b.emit(IrOp::BinaryImm { code: ImmCode::Band, left: term, imm: TERM_TAG_MASK });
    let (not_boxed, b) = b.emit(IrOp::CompareImm { cc: IntCc::NotEqual, left: tag, imm: BOXED_TAG });
    let b = branch_to_fail_if_ir(b, not_boxed, fail);
    let (heap, b) = b.emit(IrOp::BinaryImm { code: ImmCode::Band, left: term, imm: POINTER_MASK });
    let (header, b) = b.emit(IrOp::Load { ty: IrType::I64, base: heap, offset: 0 });
    let (header_tag, b) = b.emit(IrOp::BinaryImm { code: ImmCode::Band, left: header, imm: HEADER_TAG_MASK });
    let (not_float, b) = b.emit(IrOp::CompareImm { cc: IntCc::NotEqual, left: header_tag, imm: FLOAT_HEADER_TAG });
    let b = branch_to_fail_if_ir(b, not_float, fail);
    b.emit(IrOp::Load { ty: IrType::F64, base: heap, offset: BOXED_FLOAT_PAYLOAD_OFFSET })
}

/// The float in a box; goes to `fail` when the term is no such box.
fn translate_boxed_float_to_float(b: &mut Lowering, term: Value, fail: Block) -> (r: Value)
    ensures
        (r, final(b)@) == translate_boxed_float_to_float_ir(old(b)@, term, fail),
{
    let tag = b.emit(IrOp::BinaryImm { code: ImmCode::Band, left: term, imm: TERM_TAG_MASK });
    let not_boxed = b.emit(IrOp::CompareImm { cc: IntCc::NotEqual, left: tag, imm: BOXED_TAG });
    branch_to_fail_if(b, not_boxed, fail);
    let heap = b.emit(IrOp::BinaryImm { code: ImmCode::Band, left: term, imm: POINTER_MASK });
    let header = b.emit(IrOp::Load { ty: IrType::I64, base: heap, offset: 0 });
    let header_tag = b.emit(IrOp::BinaryImm { code: ImmCode::Band, left: header, imm: HEADER_TAG_MASK });
    let not_float = b.emit(IrOp::CompareImm { cc: IntCc::NotEqual, left: header_tag, imm: FLOAT_HEADER_TAG });
    branch_to_fail_if(b, not_float, fail);
    b.emit(IrOp::Load { ty: IrType::F64, base: heap, offset: BOXED_FLOAT_PAYLOAD_OFFSET })
}

/// What [`translate_term_to_float`] makes of a lowering.
pub open spec fn translate_term_to_float_ir(
    b: LoweringView,
    term: Value,
    fail: Block,
) -> (Value, LoweringView) {
    let (tag, b) = b.emit(IrOp::BinaryImm { code: ImmCode::Band, left: term, imm: TERM_TAG_MASK });
    let (is_small, b) = b.emit(IrOp::CompareImm { cc: IntCc::Equal, left: tag, imm: 0 });
    let (small_block, b) = b.create_block();
    let (boxed_block, b) = b.create_block();
    let (done, b) = b.create_block();
    let (result, b) = b.emit(IrOp::Param { block: done, ty: IrType::F64 });
    let b = b.emit(IrOp::Brif { condition: is_small, then_block: small_block, else_block: boxed_block }).1;
    let b = b.switch(small_block);
    let (payload, b) = b.emit(IrOp::BinaryImm { code: ImmCode::Sshr, left: term, imm: SMALL_INT_SHIFT });
    let (converted, b) = b.emit(IrOp::FcvtFromSint { value: payload });
    let b = b.emit(IrOp::JumpWith { block: done, value: converted }).1;
    let b = b.switch(boxed_block);
    let (unboxed, b) = translate_boxed_float_to_float_ir(b, term, fail);
    let b = b.emit(IrOp::JumpWith { block: done, value: unboxed }).1;
    let b = b.switch(done);
    (result, b)
}

/// The float that an integer or a box holds; goes to `fail` when the term is
/// neither.
fn translate_term_to_float(b: &mut Lowering, term: Value, fail: Block) -> (r: Value)
    ensures
        (r, final(b)@) == translate_term_to_float_ir(old(b)@, term, fail),
{
    let tag = b.emit(IrOp::BinaryImm { code: ImmCode::Band, left: term, imm: TERM_TAG_MASK });
    let is_small = b.emit(IrOp::CompareImm { cc: IntCc::Equal, left: tag, imm: 0 });
    let small_block = b.create_block();
    let boxed_block = b.create_block();
    let done = b.create_block();
    let result = b.emit(IrOp::Param { block: done, ty: IrType::F64 });
    b.emit(IrOp::Brif { condition: is_small, then_block: small_block, else_block: boxed_block });
    b.switch(small_block);
    let payload = b.emit(IrOp::BinaryImm { code: ImmCode::Sshr, left: term, imm: SMALL_INT_SHIFT });
    let converted = b.emit(IrOp::FcvtFromSint { value: payload });
    b.emit(IrOp::JumpWith { block: done, value: converted });
    b.switch(boxed_block);
    let unboxed = translate_boxed_float_to_float(b, term, fail);
    b.emit(IrOp::JumpWith { block: done, value: unboxed });
    b.switch(done);
    result
}

/// What [`branch_to_fail_if_float_zero`] makes of a lowering.
pub open spec fn branch_to_fail_if_float_zero_ir(
    b: LoweringView,
    value: Value,
    fail: Block,
) -> LoweringView {
    let (bits, b) = b.emit(IrOp::Bitcast { value });
    let (magnitude, b) = b.emit(IrOp::BinaryImm { code: ImmCode::Band, left: bits, imm: F64_MAGNITUDE_MASK });
    let (is_zero, b) = b.emit(IrOp::CompareImm { cc: IntCc::Equal, left: magnitude, imm: 0 });
    let b = branch_to_fail_if_ir(b, is_zero, fail);
    b
}

/// Goes to `fail` when the float is zero of either sign.
fn branch_to_fail_if_float_zero(b: &mut Lowering, value: Value, fail: Block)
    ensures
        final(b)@ == branch_to_fail_if_float_zero_ir(old(b)@, value, fail),
{
    let bits = b.emit(IrOp::Bitcast { value });
    let magnitude = b.emit(IrOp::BinaryImm { code: ImmCode::Band, left: bits, imm: F64_MAGNITUDE_MASK });
    let is_zero = b.emit(IrOp::CompareImm { cc: IntCc::Equal, left: magnitude, imm: 0 });
    branch_to_fail_if(b, is_zero, fail);
}

/// What [`branch_to_fail_if_nan_or_inf`] makes of a lowering.
pub open spec fn branch_to_fail_if_nan_or_inf_ir(
    b: LoweringView,
    value: Value,
    fail: Block,
) -> LoweringView {
    let (unordered, b) = b.emit(IrOp::Unordered { left: value, right: value });
    let b = branch_to_fail_if_ir(b, unordered, fail);
    let (bits, b) = b.emit(IrOp::Bitcast { value });
    let (exponent, b) = b.emit(IrOp::BinaryImm { code: ImmCode::Band, left: bits, imm: F64_EXPONENT_MASK });
    let (exponent_all_ones, b) = b.emit(IrOp::CompareImm { cc: IntCc::Equal, left: exponent, imm: F64_EXPONENT_MASK });
    let b = branch_to_fail_if_ir(b, exponent_all_ones, fail);
    b
}

/// Goes to `fail` when the float is infinite or no number.
fn branch_to_fail_if_nan_or_inf(b: &mut Lowering, value: Value, fail: Block)
    ensures
        final(b)@ == branch_to_fail_if_nan_or_inf_ir(old(b)@, value, fail),
{
    let unordered = b.emit(IrOp::Unordered { left: value, right: value });
    branch_to_fail_if(b, unordered, fail);
    let bits = b.emit(IrOp::Bitcast { value });
    let exponent = b.emit(IrOp::BinaryImm { code: ImmCode::Band, left: bits, imm: F64_EXPONENT_MASK });
    let exponent_all_ones = b.emit(IrOp::CompareImm { cc: IntCc::Equal, left: exponent, imm: F64_EXPONENT_MASK });
    branch_to_fail_if(b, exponent_all_ones, fail);
}

/// What [`translate_fconv`] makes of a lowering.
pub open spec fn translate_fconv_ir(
    b: LoweringView,
    register_file: Value,
    term_src: OperandView,
    fr_dest: OperandView,
    fail: Block,
) -> Result<LoweringView, JitFault> {
    match read_operand_term_ir(b, register_file, term_src) {
        Err(e) => Err(e),
        Ok((term, b)) => {
            let (value, b) = translate_term_to_float_ir(b, term, fail);
            match float_register_operand_of(fr_dest) {
                Err(e) => Err(e),
                Ok(dest) => set_float_ir(b, dest, value),
            }
        },
    }
}

/// Converts a term to a float.
pub fn translate_fconv(
    b: &mut Lowering,
    register_file: Value,
    term_src: &Operand,
    fr_dest: &Operand,
    fail: Block,
) -> (r: Result<(), JitError>)
    ensures
        lowered(r, final(b)@) == translate_fconv_ir(old(b)@, register_file, term_src.view(), fr_dest.view(), fail),
{
    let term = read_operand_term(b, register_file, term_src)?;
    let value = translate_term_to_float(b, term, fail);
    let dest: u32 = float_register_operand(fr_dest)?;
    set_float(b, dest, value)
}

/// What [`translate_fmove`] makes of a lowering.
pub open spec fn translate_fmove_ir(
    b: LoweringView,
    context: FloatLoweringContext,
    source: OperandView,
    dest: OperandView,
    fail: Block,
) -> Result<LoweringView, JitFault> {
    match (source, dest) {
        (OperandView::FloatRegister(source), OperandView::FloatRegister(dest)) => {
            match float_value_of(b, source) {
                Err(e) => Err(e),
                Ok(value) => set_float_ir(b, dest, value),
            }
        },
        (OperandView::FloatRegister(source), _) => {
            match float_value_of(b, source) {
                Err(e) => Err(e),
                Ok(value) => {
                    let (call, b) = b.emit(IrOp::Call { helper: Helper::BoxFloat, args: Args::Two(context.process, value) });
                    let (term, b) = b.emit(IrOp::Result { of: call, index: 0 });
                    let b = branch_if_null_ir(b, term, context.deopt);
                    write_operand_term_ir(b, context.register_file, dest, term)
                },
            }
        },
        (_, OperandView::FloatRegister(dest)) => {
            match read_operand_term_ir(b, context.register_file, source) {
                Err(e) => Err(e),
                Ok((term, b)) => {
                    let (value, b) = translate_boxed_float_to_float_ir(b, term, fail);
                    set_float_ir(b, dest, value)
                },
            }
        },
        _ => Err(pair_fault("fmove source "@, source, " dest "@, dest)),
    }
}

/// Moves a float between float registers, into a box, or out of one.
pub fn translate_fmove(
    b: &mut Lowering,
    context: FloatLoweringContext,
    source: &Operand,
    dest: &Operand,
    fail: Block,
) -> (r: Result<(), JitError>)
    ensures
        lowered(r, final(b)@) == translate_fmove_ir(old(b)@, context, source.view(), dest.view(), fail),
{
    match (source, dest) {
        (Operand::FloatRegister(source), Operand::FloatRegister(dest)) => {
            let value = float_value(b, *source)?;
            set_float(b, *dest, value)
        },
        (Operand::FloatRegister(source), _) => {
            let value = float_value(b, *source)?;
            let call = b.emit(IrOp::Call { helper: Helper::BoxFloat, args: Args::Two(context.process, value) });
            let term = b.emit(IrOp::Result { of: call, index: 0 });
            branch_if_null(b, term, context.deopt);
            write_operand_term(b, context.register_file, dest, term)
        },
        (_, Operand::FloatRegister(dest)) => {
            let term = read_operand_term(b, context.register_file, source)?;
            let value = translate_boxed_float_to_float(b, term, fail);
            set_float(b, *dest, value)
        },
        _ => Err(pair_error("fmove source ", source, " dest ", dest)),
    }
}

/// What [`translate_float_binary`] makes of a lowering.
pub open spec fn translate_float_binary_ir(
    b: LoweringView,
    op: FloatBinaryOp,
    left: OperandView,
    right: OperandView,
    dest: OperandView,
    fail: Block,
) -> Result<LoweringView, JitFault> {
    match float_register_operand_of(left) {
        Err(e) => Err(e),
        Ok(left_index) => {
            match float_value_of(b, left_index) {
                Err(e) => Err(e),
                Ok(left) => {
                    match float_register_operand_of(right) {
                        Err(e) => Err(e),
                        Ok(right_index) => {
                            match float_value_of(b, right_index) {
                                Err(e) => Err(e),
                                Ok(right) => {
                                    let b = match op {
                                        FloatBinaryOp::Divide => {
                                            let b = branch_to_fail_if_float_zero_ir(b, right, fail);
                                            b
                                        },
                                        _ => b,
                                    };
                                    let code = match op {
                                        FloatBinaryOp::Add => BinaryCode::Fadd,
                                        FloatBinaryOp::Subtract => BinaryCode::Fsub,
                                        FloatBinaryOp::Multiply => BinaryCode::Fmul,
                                        FloatBinaryOp::Divide => BinaryCode::Fdiv,
                                    };
                                    let (result, b) = b.emit(IrOp::Binary { code, left, right });
                                    let b = branch_to_fail_if_nan_or_inf_ir(b, result, fail);
                                    match float_register_operand_of(dest) {
                                        Err(e) => Err(e),
                                        Ok(dest) => set_float_ir(b, dest, result),
                                    }
                                },
                            }
                        },
                    }
                },
            }
        },
    }
}

/// Computes of two floats; goes to `fail` when the divisor is zero or the result
/// is not finite.
pub fn translate_float_binary(
    b: &mut Lowering,
    op: FloatBinaryOp,
    left: &Operand,
    right: &Operand,
    dest: &Operand,
    fail: Block,
) -> (r: Result<(), JitError>)
    ensures
        lowered(r, final(b)@) == translate_float_binary_ir(old(b)@, op, left.view(), right.view(), dest.view(), fail),
{
    let left_index: u32 = float_register_operand(left)?;
    let left = float_value(b, left_index)?;
    let right_index: u32 = float_register_operand(right)?;
    let right = float_value(b, right_index)?;
    match op {
        FloatBinaryOp::Divide => {
            branch_to_fail_if_float_zero(b, right, fail);
        },
        _ => {},
    }
    let code = match op {
        FloatBinaryOp::Add => BinaryCode::Fadd,
        FloatBinaryOp::Subtract => BinaryCode::Fsub,
        FloatBinaryOp::Multiply => BinaryCode::Fmul,
        FloatBinaryOp::Divide => BinaryCode::Fdiv,
    };
    let result = b.emit(IrOp::Binary { code, left, right });
    branch_to_fail_if_nan_or_inf(b, result, fail);
    let dest: u32 = float_register_operand(dest)?;
    set_float(b, dest, result)
}

/// What [`translate_fnegate`] makes of a lowering.
pub open spec fn translate_fnegate_ir(
    b: LoweringView,
    source: OperandView,
    dest: OperandView,
    fail: Block,
) -> Result<LoweringView, JitFault> {
    match float_register_operand_of(source) {
        Err(e) => Err(e),
        Ok(source_index) => {
            match float_value_of(b, source_index) {
                Err(e) => Err(e),
                Ok(source) => {
                    let (result, b) = b.emit(IrOp::Fneg { value: source });
                    let b = branch_to_fail_if_nan_or_inf_ir(b, result, fail);
                    match float_register_operand_of(dest) {
                        Err(e) => Err(e),
                        Ok(dest) => set_float_ir(b, dest, result),
                    }
                },
            }
        },
    }
}

/// Negates a float; goes to `fail` when the result is not finite.
pub fn translate_fnegate(
    b: &mut Lowering,
    source: &Operand,
    dest: &Operand,
    fail: Block,
) -> (r: Result<(), JitError>)
    ensures
        lowered(r, final(b)@) == translate_fnegate_ir(old(b)@, source.view(), dest.view(), fail),
{
    let source_index: u32 = float_register_operand(source)?;
    let source = float_value(b, source_index)?;
    let result = b.emit(IrOp::Fneg { value: source });
    branch_to_fail_if_nan_or_inf(b, result, fail);
    let dest: u32 = float_register_operand(dest)?;
    set_float(b, dest, result)
}

/// What is live while a float is boxed: the destination.
pub open spec fn float_boxing_roots_of(dest: OperandView) -> Result<Seq<OperandView>, JitFault> {
    if is_register_of(dest) {
        Ok(seq![dest])
    } else {
        Err(operand_fault("float boxing destination "@, dest))
    }
}

/// What is live while a float is boxed: the destination.
pub fn float_boxing_roots(dest: &Operand) -> (r: Result<Vec<Operand>, JitError>)
    ensures
        match r {
            Ok(roots) => float_boxing_roots_of(dest.view()) == Ok::<Seq<OperandView>, JitFault>(
                operand_views(roots@),
            ),
            Err(e) => float_boxing_roots_of(dest.view()) == Err::<Seq<OperandView>, JitFault>(e@),
        },
{
    if is_register(dest) {
        let root = dest.clone();
        let roots: Vec<Operand> = vec![root];
        assert(operand_views(roots@) =~= seq![dest.view()]);
        Ok(roots)
    } else {
        Err(operand_error("float boxing destination ", dest))
    }
}

/// What [`validate_float_register_operand`] answers.
pub open spec fn validate_float_register_operand_of(
    operand: OperandView,
    context: Seq<char>,
) -> Result<(), JitFault> {
    match operand {
        OperandView::FloatRegister(index) => {
            if index < 16 {
                Ok(())
            } else {
                Err(fr_fault(context, index))
            }
        },
        _ => Err(form_fault(context, " "@, operand)),
    }
}

/// Whether an operand is a float register that there is.
pub fn validate_float_register_operand(
    operand: &Operand,
    context: &str,
) -> (r: Result<(), JitError>)
    ensures
        jit_outcome(r) == validate_float_register_operand_of(operand.view(), context@),
{
    match operand {
        Operand::FloatRegister(index) => {
            if *index < 16 {
                Ok(())
            } else {
                Err(fr_error(context, *index))
            }
        },
        _ => Err(form_error(context, " ", operand)),
    }
}

/// What [`validate_fmove_operands`] answers.
pub open spec fn validate_fmove_operands_of(
    source: OperandView,
    dest: OperandView,
) -> Result<(), JitFault> {
    match (source, dest) {
        (OperandView::FloatRegister(_), OperandView::FloatRegister(_)) => {
            match validate_float_register_operand_of(source, "fmove source"@) {
                Err(e) => Err(e),
                Ok(_) => validate_float_register_operand_of(dest, "fmove destination"@),
            }
        },
        (OperandView::FloatRegister(_), _) => {
            match validate_float_register_operand_of(source, "fmove source"@) {
                Err(e) => Err(e),
                Ok(_) => validate_write_operand_of(dest),
            }
        },
        (_, OperandView::FloatRegister(_)) => {
            match validate_read_operand_of(source) {
                Err(e) => Err(e),
                Ok(_) => validate_float_register_operand_of(dest, "fmove destination"@),
            }
        },
        _ => Err(pair_fault("fmove source "@, source, " destination "@, dest)),
    }
}

/// Whether a float can be moved from one operand to the other.
pub fn validate_fmove_operands(source: &Operand, dest: &Operand) -> (r: Result<(), JitError>)
    ensures
        jit_outcome(r) == validate_fmove_operands_of(source.view(), dest.view()),
{
    match (source, dest) {
        (Operand::FloatRegister(_), Operand::FloatRegister(_)) => {
            validate_float_register_operand(source, "fmove source")?;
            validate_float_register_operand(dest, "fmove destination")
        },
        (Operand::FloatRegister(_), _) => {
            validate_float_register_operand(source, "fmove source")?;
            validate_write_operand(dest)
        },
        (_, Operand::FloatRegister(_)) => {
            validate_read_operand(source)?;
            validate_float_register_operand(dest, "fmove destination")
        },
        _ => Err(pair_error("fmove source ", source, " destination ", dest)),
    }
}

} // verus!

//! Lowering data structures, floats, binaries and maps.

use vstd::prelude::*;
use crate::atom::Atom;
use crate::loader::decode::compact::{operand_views, Operand, OperandView};
use crate::loader::decode::instruction::{BinaryOp, Instruction, InstructionView, MapOp};
use crate::loader::decode::names::{instruction_text, opcode_name};
use crate::term::{atom_term, atom_term_of};
use super::allocation::{
    lower_get_hd, lower_get_hd_ir, lower_get_list, lower_get_list_ir, lower_get_tl,
    lower_get_tl_ir, lower_get_tuple_element, lower_get_tuple_element_ir, lower_put_list,
    lower_put_list_ir, lower_put_tuple2, lower_put_tuple2_ir, tuple_elements, tuple_elements_of,
    tuple_root_operands, tuple_roots_of, LoweringContext,
};
use super::binary::{
    allocation_binary_op, allocation_binary_op_of, binary_allocation_roots,
    binary_allocation_roots_of, fail_operand, fail_operand_of, lower_binary_op,
    lower_binary_op_ir, supported_binary_op, supported_binary_op_of, BinaryLoweringContext,
};
use super::control::{operand_block, operand_block_of, BlockMap, BlockMapView};
use super::dispatch_core::{three_operands, FunctionContext};
use super::error::{jit_outcome, opcode_error, opcode_fault, JitError, JitFault};
use super::exceptions::JIT_STATUS_EXCEPTION;
use super::float::{
    float_boxing_roots, float_boxing_roots_of, translate_fconv, translate_fconv_ir,
    translate_float_binary, translate_float_binary_ir, translate_fmove, translate_fmove_ir,
    translate_fnegate, translate_fnegate_ir, FloatBinaryOp, FloatLoweringContext,
};
use super::guards::{immediate_usize, immediate_usize_of};
use super::helper::Helper;
use super::ir::{lowered_with, Block, Lowering, LoweringView};
use super::map::{
    map_allocation_roots, map_allocation_roots_of, parse_get_map_elements_operands,
    parse_get_map_elements_operands_of, parse_has_map_fields_operands,
    parse_has_map_fields_operands_of, parse_put_map_operands, parse_put_map_operands_of,
    translate_get_map_elements, translate_get_map_elements_ir, translate_has_map_fields,
    translate_has_map_fields_ir, translate_put_map, translate_put_map_ir, MapLoweringContext,
};
use super::typed::{
    clear_operand, clear_operand_ir, clear_values, clear_values_ir, float_fail_block,
    float_fail_block_ir, mark_loaded, mark_loaded_ir, materialize_all, materialize_all_ir,
    materialize_keys, materialize_keys_ir, materialize_operand, materialize_operand_ir,
    materialize_operands, materialize_operands_ir, record_site, record_site_ir, set_type,
    set_type_ir,
};
use super::typed_state::{
    list_head_type_of, list_tail_type_of, list_type_from_head_of, tuple_element_type_of,
    tuple_type_from_elements_of,
};

verus! {

/// What [`allocation_context`] answers.
pub open spec fn allocation_context_of(
    context: FunctionContext,
    blocks: BlockMapView,
) -> LoweringContext {
    LoweringContext { register_file: context.register_file, process: context.process, deopt: blocks.deopt }
}

/// The values that an allocation needs.
fn allocation_context(context: FunctionContext, blocks: &BlockMap) -> (r: LoweringContext)
    ensures
        r == allocation_context_of(context, blocks.view()),
{
    LoweringContext { register_file: context.register_file, process: context.process, deopt: blocks.deopt }
}

/// The block of the label that a binary instruction goes to when it fails.
pub open spec fn binary_fail_of(blocks: BlockMapView, op: BinaryOp, operands: Seq<OperandView>) -> Result<
    Option<Block>,
    JitFault,
> {
    match fail_operand_of(op, operands) {
        None => Ok(None),
        Some(operand) => match operand_block_of(blocks, operand) {
            Err(e) => Err(e),
            Ok(block) => Ok(Some(block)),
        },
    }
}

fn binary_fail(blocks: &BlockMap, op: BinaryOp, operands: &Vec<Operand>) -> (r: Result<
    Option<Block>,
    JitError,
>)
    ensures
        jit_outcome(r) == binary_fail_of(blocks.view(), op, operand_views(operands@)),
{
    match fail_operand(op, operands) {
        None => Ok(None),
        Some(operand) => {
            let block = operand_block(blocks, operand)?;
            Ok(Some(block))
        },
    }
}

/// What [`lower_float_arithmetic`] makes of a lowering.
pub open spec fn lower_float_arithmetic_ir(
    b: LoweringView,
    blocks: BlockMapView,
    op: FloatBinaryOp,
    fail: OperandView,
    left: OperandView,
    right: OperandView,
    dest: OperandView,
) -> Result<(bool, LoweringView), JitFault> {
    match operand_block_of(blocks, fail) {
        Err(e) => Err(e),
        Ok(fail) => {
            match translate_float_binary_ir(b, op, left, right, dest, fail) {
                Err(e) => Err(e),
                Ok(b) => Ok((false, b)),
            }
        },
    }
}

/// Lowers arithmetic on two float registers.
fn lower_float_arithmetic(
    b: &mut Lowering,
    blocks: &BlockMap,
    op: FloatBinaryOp,
    fail: &Operand,
    left: &Operand,
    right: &Operand,
    dest: &Operand,
) -> (r: Result<bool, JitError>)
    ensures
        lowered_with(r, final(b)@) == lower_float_arithmetic_ir(old(b)@, blocks.view(), op, fail.view(), left.view(), right.view(), dest.view()),
{
    let fail = operand_block(blocks, fail)?;
    translate_float_binary(b, op, left, right, dest, fail)?;
    Ok(false)
}

/// What [`badarith_block`] makes of a lowering.
pub open spec fn badarith_block_ir(b: LoweringView, continuation: Block) -> (Block, LoweringView) {
    let badarith = atom_term_of(Atom(6));
    float_fail_block_ir(b, JIT_STATUS_EXCEPTION, badarith, continuation)
}

/// A block for the exception of bad arithmetic.
fn badarith_block(b: &mut Lowering, continuation: Block) -> (r: Block)
    ensures
        (r, final(b)@) == badarith_block_ir(old(b)@, continuation),
{
    let badarith: i64 = atom_term(Atom::badarith());
    float_fail_block(b, JIT_STATUS_EXCEPTION, badarith, continuation)
}

/// What [`lower_float_instruction`] makes of a lowering.
pub open spec fn lower_float_instruction_ir(
    b: LoweringView,
    context: FunctionContext,
    blocks: BlockMapView,
    index: usize,
    instruction: InstructionView,
) -> Result<(Option<bool>, LoweringView), JitFault> {
    match instruction {
        InstructionView::Fmove { source, dest } => {
            match if source is FloatRegister && !(dest is FloatRegister) {
                match float_boxing_roots_of(dest) {
                    Err(e) => Err(e),
                    Ok(roots) => {
                        match record_site_ir(b, index, roots) {
                            Err(e) => Err(e),
                            Ok(b) => Ok(b),
                        }
                    },
                }
            } else {
                Ok(b)
            } {
                Err(e) => Err(e),
                Ok(b) => {
                    let b = materialize_operand_ir(b, context.register_file, source);
                    let b = materialize_operand_ir(b, context.register_file, dest);
                    let (fail, b) = badarith_block_ir(b, blocks.block_after(index));
                    match translate_fmove_ir(b, FloatLoweringContext { register_file: context.register_file, process: context.process, deopt: blocks.deopt }, source, dest, fail) {
                        Err(e) => Err(e),
                        Ok(b) => {
                            let b = clear_operand_ir(b, dest);
                            Ok((Some(false), b))
                        },
                    }
                },
            }
        },
        InstructionView::Fconv { source, dest } => {
            let b = materialize_operand_ir(b, context.register_file, source);
            let (fail, b) = badarith_block_ir(b, blocks.block_after(index));
            match translate_fconv_ir(b, context.register_file, source, dest, fail) {
                Err(e) => Err(e),
                Ok(b) => Ok((Some(false), b)),
            }
        },
        InstructionView::Fadd { fail, left, right, dest } => {
            match lower_float_arithmetic_ir(b, blocks, FloatBinaryOp::Add, fail, left, right, dest) {
                Err(e) => Err(e),
                Ok((ended, b)) => Ok((Some(ended), b)),
            }
        },
        InstructionView::Fsub { fail, left, right, dest } => {
            match lower_float_arithmetic_ir(b, blocks, FloatBinaryOp::Subtract, fail, left, right, dest) {
                Err(e) => Err(e),
                Ok((ended, b)) => Ok((Some(ended), b)),
            }
        },
        InstructionView::Fmul { fail, left, right, dest } => {
            match lower_float_arithmetic_ir(b, blocks, FloatBinaryOp::Multiply, fail, left, right, dest) {
                Err(e) => Err(e),
                Ok((ended, b)) => Ok((Some(ended), b)),
            }
        },
        InstructionView::Fdiv { fail, left, right, dest } => {
            match lower_float_arithmetic_ir(b, blocks, FloatBinaryOp::Divide, fail, left, right, dest) {
                Err(e) => Err(e),
                Ok((ended, b)) => Ok((Some(ended), b)),
            }
        },
        InstructionView::Fnegate { fail, source, dest } => {
            match operand_block_of(blocks, fail) {
                Err(e) => Err(e),
                Ok(fail) => {
                    match translate_fnegate_ir(b, source, dest, fail) {
                        Err(e) => Err(e),
                        Ok(b) => Ok((Some(false), b)),
                    }
                },
            }
        },
        _ => Ok((None, b)),
    }
}

/// Lowers an instruction on floats; answers `None` when it is no such
/// instruction.
#[verifier::rlimit(30)]
fn lower_float_instruction(
    b: &mut Lowering,
    context: FunctionContext,
    blocks: &BlockMap,
    index: usize,
    instruction: &Instruction,
) -> (r: Result<Option<bool>, JitError>)
    requires
        index + 1 < blocks.view().blocks_by_index.len(),
    ensures
        lowered_with(r, final(b)@) == lower_float_instruction_ir(old(b)@, context, blocks.view(), index, instruction.view()),
{
    match instruction {
        Instruction::Fmove { source, dest } => {
            if matches!(source, Operand::FloatRegister(_)) && !matches!(dest, Operand::FloatRegister(_)) {
                let roots = float_boxing_roots(dest)?;
                record_site(b, index, &roots)?;
            }
            materialize_operand(b, context.register_file, source);
            materialize_operand(b, context.register_file, dest);
            let fail = badarith_block(b, blocks.block_after(index));
            translate_fmove(b, FloatLoweringContext { register_file: context.register_file, process: context.process, deopt: blocks.deopt }, source, dest, fail)?;
            clear_operand(b, dest);
            Ok(Some(false))
        },
        Instruction::Fconv { source, dest } => {
            materialize_operand(b, context.register_file, source);
            let fail = badarith_block(b, blocks.block_after(index));
            translate_fconv(b, context.register_file, source, dest, fail)?;
            Ok(Some(false))
        },
        Instruction::Fadd { fail, left, right, dest } => {
            let ended = lower_float_arithmetic(b, blocks, FloatBinaryOp::Add, fail, left, right, dest)?;
            Ok(Some(ended))
        },
        Instruction::Fsub { fail, left, right, dest } => {
            let ended = lower_float_arithmetic(b, blocks, FloatBinaryOp::Subtract, fail, left, right, dest)?;
            Ok(Some(ended))
        },
        Instruction::Fmul { fail, left, right, dest } => {
            let ended = lower_float_arithmetic(b, blocks, FloatBinaryOp::Multiply, fail, left, right, dest)?;
            Ok(Some(ended))
        },
        Instruction::Fdiv { fail, left, right, dest } => {
            let ended = lower_float_arithmetic(b, blocks, FloatBinaryOp::Divide, fail, left, right, dest)?;
            Ok(Some(ended))
        },
        Instruction::Fnegate { fail, source, dest } => {
            let fail = operand_block(blocks, fail)?;
            translate_fnegate(b, source, dest, fail)?;
            Ok(Some(false))
        },
        _ => Ok(None),
    }
}

/// What [`lower_put_list_instruction`] makes of a lowering.
pub open spec fn lower_put_list_instruction_ir(
    b: LoweringView,
    context: FunctionContext,
    blocks: BlockMapView,
    index: usize,
    head: OperandView,
    tail: OperandView,
    destination: OperandView,
) -> Result<(bool, LoweringView), JitFault> {
    match record_site_ir(b, index, seq![head, tail, destination]) {
        Err(e) => Err(e),
        Ok(b) => {
            let destination_type = list_type_from_head_of(b.types, head);
            let b = materialize_operand_ir(b, context.register_file, head);
            let b = materialize_operand_ir(b, context.register_file, tail);
            match lower_put_list_ir(b, allocation_context_of(context, blocks), head, tail, destination) {
                Err(e) => Err(e),
                Ok(b) => {
                    let b = set_type_ir(b, destination, destination_type);
                    Ok((false, b))
                },
            }
        },
    }
}

/// Makes a list of a head and a tail.
fn lower_put_list_instruction(
    b: &mut Lowering,
    context: FunctionContext,
    blocks: &BlockMap,
    index: usize,
    head: &Operand,
    tail: &Operand,
    destination: &Operand,
) -> (r: Result<bool, JitError>)
    ensures
        lowered_with(r, final(b)@) == lower_put_list_instruction_ir(old(b)@, context, blocks.view(), index, head.view(), tail.view(), destination.view()),
{
    record_site(b, index, &three_operands(head, tail, destination))?;
    let destination_type = b.typed.list_type_from_head(head);
    materialize_operand(b, context.register_file, head);
    materialize_operand(b, context.register_file, tail);
    lower_put_list(b, allocation_context(context, blocks), head, tail, destination)?;
    set_type(b, destination, destination_type);
    Ok(false)
}

/// What [`lower_put_tuple_instruction`] makes of a lowering.
pub open spec fn lower_put_tuple_instruction_ir(
    b: LoweringView,
    context: FunctionContext,
    blocks: BlockMapView,
    index: usize,
    destination: OperandView,
    elements: OperandView,
) -> Result<(bool, LoweringView), JitFault> {
    match tuple_roots_of(destination, elements) {
        Err(e) => Err(e),
        Ok(roots) => {
            match record_site_ir(b, index, roots) {
                Err(e) => Err(e),
                Ok(b) => {
                    let destination_type = tuple_type_from_elements_of(b.types, elements);
                    match tuple_elements_of(elements) {
                        Err(e) => Err(e),
                        Ok(items) => {
                            let b = materialize_operands_ir(b, context.register_file, items, items.len());
                            match lower_put_tuple2_ir(b, allocation_context_of(context, blocks), destination, elements) {
                                Err(e) => Err(e),
                                Ok(b) => {
                                    let b = set_type_ir(b, destination, destination_type);
                                    Ok((false, b))
                                },
                            }
                        },
                    }
                },
            }
        },
    }
}

/// Makes a tuple of elements.
fn lower_put_tuple_instruction(
    b: &mut Lowering,
    context: FunctionContext,
    blocks: &BlockMap,
    index: usize,
    destination: &Operand,
    elements: &Operand,
) -> (r: Result<bool, JitError>)
    ensures
        lowered_with(r, final(b)@) == lower_put_tuple_instruction_ir(old(b)@, context, blocks.view(), index, destination.view(), elements.view()),
{
    let roots = tuple_root_operands(destination, elements)?;
    record_site(b, index, &roots)?;
    let destination_type = b.typed.tuple_type_from_elements(elements);
    let items = tuple_elements(elements)?;
    materialize_operands(b, context.register_file, items);
    lower_put_tuple2(b, allocation_context(context, blocks), destination, elements)?;
    set_type(b, destination, destination_type);
    Ok(false)
}

/// What [`lower_structure_instruction`] makes of a lowering.
pub open spec fn lower_structure_instruction_ir(
    b: LoweringView,
    context: FunctionContext,
    blocks: BlockMapView,
    index: usize,
    instruction: InstructionView,
) -> Result<(Option<bool>, LoweringView), JitFault> {
    match instruction {
        InstructionView::PutList { head, tail, destination } => {
            match lower_put_list_instruction_ir(b, context, blocks, index, head, tail, destination) {
                Err(e) => Err(e),
                Ok((ended, b)) => Ok((Some(ended), b)),
            }
        },
        InstructionView::GetList { source, head, tail } => {
            let head_type = list_head_type_of(b.types, source);
            let tail_type = list_tail_type_of(b.types, source);
            match lower_get_list_ir(b, context.register_file, source, head, tail) {
                Err(e) => Err(e),
                Ok(b) => {
                    let b = mark_loaded_ir(b, context.register_file, head, head_type);
                    let b = mark_loaded_ir(b, context.register_file, tail, tail_type);
                    Ok((Some(false), b))
                },
            }
        },
        InstructionView::GetHd { source, destination } => {
            let head_type = list_head_type_of(b.types, source);
            match lower_get_hd_ir(b, context.register_file, source, destination) {
                Err(e) => Err(e),
                Ok(b) => {
                    let b = mark_loaded_ir(b, context.register_file, destination, head_type);
                    Ok((Some(false), b))
                },
            }
        },
        InstructionView::GetTl { source, destination } => {
            let tail_type = list_tail_type_of(b.types, source);
            match lower_get_tl_ir(b, context.register_file, source, destination) {
                Err(e) => Err(e),
                Ok(b) => {
                    let b = mark_loaded_ir(b, context.register_file, destination, tail_type);
                    Ok((Some(false), b))
                },
            }
        },
        InstructionView::PutTuple2 { destination, elements } => {
            match lower_put_tuple_instruction_ir(b, context, blocks, index, destination, elements) {
                Err(e) => Err(e),
                Ok((ended, b)) => Ok((Some(ended), b)),
            }
        },
        InstructionView::GetTupleElement { source, index: element, destination } => {
            match immediate_usize_of(element, "get_tuple_element index"@) {
                Err(e) => Err(e),
                Ok(position) => {
                    let element_type = tuple_element_type_of(b.types, source, position);
                    match lower_get_tuple_element_ir(b, context.register_file, source, position, destination) {
                        Err(e) => Err(e),
                        Ok(b) => {
                            let b = mark_loaded_ir(b, context.register_file, destination, element_type);
                            Ok((Some(false), b))
                        },
                    }
                },
            }
        },
        _ => Ok((None, b)),
    }
}

/// Lowers an instruction on lists or tuples; answers `None` when it is no such
/// instruction.
#[verifier::rlimit(30)]
fn lower_structure_instruction(
    b: &mut Lowering,
    context: FunctionContext,
    blocks: &BlockMap,
    index: usize,
    instruction: &Instruction,
) -> (r: Result<Option<bool>, JitError>)
    ensures
        lowered_with(r, final(b)@) == lower_structure_instruction_ir(old(b)@, context, blocks.view(), index, instruction.view()),
{
    match instruction {
        Instruction::PutList { head, tail, destination } => {
            let ended = lower_put_list_instruction(b, context, blocks, index, head, tail, destination)?;
            Ok(Some(ended))
        },
        Instruction::GetList { source, head, tail } => {
            let head_type = b.typed.list_head_type(source);
            let tail_type = b.typed.list_tail_type(source);
            lower_get_list(b, context.register_file, source, head, tail)?;
            mark_loaded(b, context.register_file, head, head_type);
            mark_loaded(b, context.register_file, tail, tail_type);
            Ok(Some(false))
        },
        Instruction::GetHd { source, destination } => {
            let head_type = b.typed.list_head_type(source);
            lower_get_hd(b, context.register_file, source, destination)?;
            mark_loaded(b, context.register_file, destination, head_type);
            Ok(Some(false))
        },
        Instruction::GetTl { source, destination } => {
            let tail_type = b.typed.list_tail_type(source);
            lower_get_tl(b, context.register_file, source, destination)?;
            mark_loaded(b, context.register_file, destination, tail_type);
            Ok(Some(false))
        },
        Instruction::PutTuple2 { destination, elements } => {
            let ended = lower_put_tuple_instruction(b, context, blocks, index, destination, elements)?;
            Ok(Some(ended))
        },
        Instruction::GetTupleElement { source, index: element, destination } => {
            let position: usize = immediate_usize(element, "get_tuple_element index")?;
            let element_type = b.typed.tuple_element_type(source, position);
            lower_get_tuple_element(b, context.register_file, source, position, destination)?;
            mark_loaded(b, context.register_file, destination, element_type);
            Ok(Some(false))
        },
        _ => Ok(None),
    }
}

/// What [`lower_binary_instruction`] makes of a lowering.
pub open spec fn lower_binary_instruction_ir(
    b: LoweringView,
    context: FunctionContext,
    blocks: BlockMapView,
    index: usize,
    op: BinaryOp,
    operands: Seq<OperandView>,
) -> Result<(bool, LoweringView), JitFault> {
    match if allocation_binary_op_of(op) {
        match binary_allocation_roots_of(op, operands) {
            Err(e) => Err(e),
            Ok(roots) => {
                match record_site_ir(b, index, roots) {
                    Err(e) => Err(e),
                    Ok(b) => Ok(b),
                }
            },
        }
    } else {
        Ok(b)
    } {
        Err(e) => Err(e),
        Ok(b) => {
            let b = materialize_all_ir(b, context.register_file);
            match binary_fail_of(blocks, op, operands) {
                Err(e) => Err(e),
                Ok(fail) => {
                    match lower_binary_op_ir(b, BinaryLoweringContext { register_file: context.register_file, process: context.process, deopt: blocks.deopt, exception: blocks.exception_block }, op, operands, fail) {
                        Err(e) => Err(e),
                        Ok(b) => Ok((false, b)),
                    }
                },
            }
        },
    }
}

/// Lowers an instruction on binaries.
fn lower_binary_instruction(
    b: &mut Lowering,
    context: FunctionContext,
    blocks: &BlockMap,
    index: usize,
    op: BinaryOp,
    operands: &Vec<Operand>,
) -> (r: Result<bool, JitError>)
    ensures
        lowered_with(r, final(b)@) == lower_binary_instruction_ir(old(b)@, context, blocks.view(), index, op, operand_views(operands@)),
{
    if allocation_binary_op(op) {
        let roots = binary_allocation_roots(op, operands)?;
        record_site(b, index, &roots)?;
    }
    materialize_all(b, context.register_file);
    let fail = binary_fail(blocks, op, operands)?;
    lower_binary_op(b, BinaryLoweringContext { register_file: context.register_file, process: context.process, deopt: blocks.deopt, exception: blocks.exception_block }, op, operands, fail)?;
    Ok(false)
}

/// What [`lower_put_map_instruction`] makes of a lowering.
pub open spec fn lower_put_map_instruction_ir(
    b: LoweringView,
    context: FunctionContext,
    blocks: BlockMapView,
    index: usize,
    helper: Helper,
    operands: Seq<OperandView>,
) -> Result<(bool, LoweringView), JitFault> {
    match map_allocation_roots_of(operands) {
        Err(e) => Err(e),
        Ok(roots) => {
            match record_site_ir(b, index, roots) {
                Err(e) => Err(e),
                Ok(b) => {
                    match parse_put_map_operands_of(operands) {
                        Err(e) => Err(e),
                        Ok(parsed) => {
                            let b = materialize_operand_ir(b, context.register_file, parsed.source);
                            let b = materialize_operands_ir(b, context.register_file, parsed.items, parsed.items.len());
                            match operand_block_of(blocks, parsed.fail) {
                                Err(e) => Err(e),
                                Ok(fail) => {
                                    match translate_put_map_ir(b, MapLoweringContext { register_file: context.register_file, process: context.process }, helper, parsed.source, parsed.destination, parsed.items, fail) {
                                        Err(e) => Err(e),
                                        Ok(b) => {
                                            let b = clear_operand_ir(b, parsed.destination);
                                            Ok((false, b))
                                        },
                                    }
                                },
                            }
                        },
                    }
                },
            }
        },
    }
}

/// Makes a map of an old one.
fn lower_put_map_instruction(
    b: &mut Lowering,
    context: FunctionContext,
    blocks: &BlockMap,
    index: usize,
    helper: Helper,
    operands: &Vec<Operand>,
) -> (r: Result<bool, JitError>)
    ensures
        lowered_with(r, final(b)@) == lower_put_map_instruction_ir(old(b)@, context, blocks.view(), index, helper, operand_views(operands@)),
{
    let roots = map_allocation_roots(operands)?;
    record_site(b, index, &roots)?;
    let parsed = parse_put_map_operands(operands)?;
    materialize_operand(b, context.register_file, parsed.source);
    materialize_operands(b, context.register_file, parsed.items);
    let fail = operand_block(blocks, parsed.fail)?;
    translate_put_map(b, MapLoweringContext { register_file: context.register_file, process: context.process }, helper, parsed.source, parsed.destination, parsed.items, fail)?;
    clear_operand(b, parsed.destination);
    Ok(false)
}

/// What [`lower_map_instruction`] makes of a lowering.
pub open spec fn lower_map_instruction_ir(
    b: LoweringView,
    context: FunctionContext,
    blocks: BlockMapView,
    index: usize,
    op: MapOp,
    operands: Seq<OperandView>,
) -> Result<(bool, LoweringView), JitFault> {
    match op {
        MapOp::PutMapAssoc => lower_put_map_instruction_ir(b, context, blocks, index, Helper::MapNew, operands),
        MapOp::PutMapExact => lower_put_map_instruction_ir(b, context, blocks, index, Helper::MapUpdate, operands),
        MapOp::GetMapElements => {
            match parse_get_map_elements_operands_of(operands) {
                Err(e) => Err(e),
                Ok(parsed) => {
                    let b = materialize_operand_ir(b, context.register_file, parsed.source);
                    let b = materialize_keys_ir(b, context.register_file, parsed.items, ((parsed.items.len() + 1) / 2) as nat);
                    match operand_block_of(blocks, parsed.fail) {
                        Err(e) => Err(e),
                        Ok(fail) => {
                            match translate_get_map_elements_ir(b, MapLoweringContext { register_file: context.register_file, process: context.process }, parsed.source, parsed.items, fail) {
                                Err(e) => Err(e),
                                Ok(b) => {
                                    let b = clear_values_ir(b, parsed.items, parsed.items.len() / 2);
                                    Ok((false, b))
                                },
                            }
                        },
                    }
                },
            }
        },
        MapOp::HasMapFields => {
            match parse_has_map_fields_operands_of(operands) {
                Err(e) => Err(e),
                Ok(parsed) => {
                    let b = materialize_operand_ir(b, context.register_file, parsed.source);
                    let b = materialize_operands_ir(b, context.register_file, parsed.items, parsed.items.len());
                    match operand_block_of(blocks, parsed.fail) {
                        Err(e) => Err(e),
                        Ok(fail) => {
                            match translate_has_map_fields_ir(b, MapLoweringContext { register_file: context.register_file, process: context.process }, parsed.source, parsed.items, fail) {
                                Err(e) => Err(e),
                                Ok(b) => Ok((false, b)),
                            }
                        },
                    }
                },
            }
        },
    }
}

/// Lowers an instruction on maps.
fn lower_map_instruction(
    b: &mut Lowering,
    context: FunctionContext,
    blocks: &BlockMap,
    index: usize,
    op: MapOp,
    operands: &Vec<Operand>,
) -> (r: Result<bool, JitError>)
    ensures
        lowered_with(r, final(b)@) == lower_map_instruction_ir(old(b)@, context, blocks.view(), index, op, operand_views(operands@)),
{
    match op {
        MapOp::PutMapAssoc => lower_put_map_instruction(b, context, blocks, index, Helper::MapNew, operands),
        MapOp::PutMapExact => lower_put_map_instruction(b, context, blocks, index, Helper::MapUpdate, operands),
        MapOp::GetMapElements => {
            let parsed = parse_get_map_elements_operands(operands)?;
            materialize_operand(b, context.register_file, parsed.source);
            materialize_keys(b, context.register_file, parsed.items);
            let fail = operand_block(blocks, parsed.fail)?;
            translate_get_map_elements(b, MapLoweringContext { register_file: context.register_file, process: context.process }, parsed.source, parsed.items, fail)?;
            clear_values(b, parsed.items);
            Ok(false)
        },
        MapOp::HasMapFields => {
            let parsed = parse_has_map_fields_operands(operands)?;
            materialize_operand(b, context.register_file, parsed.source);
            materialize_operands(b, context.register_file, parsed.items);
            let fail = operand_block(blocks, parsed.fail)?;
            translate_has_map_fields(b, MapLoweringContext { register_file: context.register_file, process: context.process }, parsed.source, parsed.items, fail)?;
            Ok(false)
        },
    }
}

/// What [`lower_data_instruction`] makes of a lowering.
pub open spec fn lower_data_instruction_ir(
    b: LoweringView,
    context: FunctionContext,
    blocks: BlockMapView,
    index: usize,
    instruction: InstructionView,
) -> Result<(bool, LoweringView), JitFault> {
    match lower_float_instruction_ir(b, context, blocks, index, instruction) {
        Err(e) => Err(e),
        Ok((float, b)) => {
            match float {
                Some(ended) => Ok((ended, b)),
                None => {
                    match lower_structure_instruction_ir(b, context, blocks, index, instruction) {
                        Err(e) => Err(e),
                        Ok((structure, b)) => {
                            match structure {
                                Some(ended) => Ok((ended, b)),
                                None => {
                                    match instruction {
                                        InstructionView::BinaryOp { op, operands } => {
                                            if supported_binary_op_of(op) {
                                                lower_binary_instruction_ir(b, context, blocks, index, op, operands)
                                            } else {
                                                Err(opcode_fault(instruction_text(instruction)))
                                            }
                                        },
                                        InstructionView::MapOp { op, operands } => lower_map_instruction_ir(b, context, blocks, index, op, operands),
                                        _ => Err(opcode_fault(instruction_text(instruction))),
                                    }
                                },
                            }
                        },
                    }
                },
            }
        },
    }
}

/// Lowers an instruction on data structures, floats, binaries or maps, and
/// rejects any other. Answers whether the block ends with it.
#[verifier::rlimit(30)]
pub fn lower_data_instruction(
    b: &mut Lowering,
    context: FunctionContext,
    blocks: &BlockMap,
    index: usize,
    instruction: &Instruction,
) -> (r: Result<bool, JitError>)
    requires
        index + 1 < blocks.view().blocks_by_index.len(),
    ensures
        lowered_with(r, final(b)@) == lower_data_instruction_ir(old(b)@, context, blocks.view(), index, instruction.view()),
{
    let float = lower_float_instruction(b, context, blocks, index, instruction)?;
    match float {
        Some(ended) => Ok(ended),
        None => {
            let structure = lower_structure_instruction(b, context, blocks, index, instruction)?;
            match structure {
                Some(ended) => Ok(ended),
                None => {
                    match instruction {
                        Instruction::BinaryOp { op, operands } => {
                            if supported_binary_op(*op) {
                                lower_binary_instruction(b, context, blocks, index, *op, operands)
                            } else {
                                Err(opcode_error(opcode_name(instruction).as_str()))
                            }
                        },
                        Instruction::MapOp { op, operands } => lower_map_instruction(b, context, blocks, index, *op, operands),
                        _ => Err(opcode_error(opcode_name(instruction).as_str())),
                    }
                },
            }
        },
    }
}

} // verus!

//! Lowering basic instructions, guards, messages and exceptions.

use vstd::prelude::*;
use crate::loader::decode::compact::{operand_views, Operand, OperandView};
use crate::loader::decode::instruction::{instruction_views, BifOp, Instruction, InstructionView};
use super::arithmetic::{
    arithmetic_import, arithmetic_import_of, lower_arithmetic_bif, lower_arithmetic_bif_ir,
    lower_comparison, lower_comparison_ir, parse_bif_of, ArithmeticTargets, ParsedBif,
};
use super::common::{
    read_operand_term, read_operand_term_ir, write_operand_term, write_operand_term_ir,
    JIT_DEOPT_SENTINEL,
};
use super::control::{
    list_pairs, list_pairs_of, operand_block, operand_block_of, BlockMap, BlockMapView,
};
use super::error::{JitError, JitFault};
use super::exceptions::{
    return_status, return_status_ir, return_status_raw, return_status_raw_ir, translate_try,
    translate_try_case, translate_try_case_ir, translate_try_end, translate_try_end_ir,
    translate_try_ir, CompiledFrameInfo, JIT_STATUS_DEOPT, JIT_STATUS_NORMAL,
};
use super::guards::{
    lower_is_tagged_tuple, lower_is_tagged_tuple_ir, lower_select_val, lower_select_val_ir,
    lower_test_arity, lower_test_arity_ir, lower_type_test, lower_type_test_ir,
};
use super::helper::Helper;
use super::ir::{lowered_with, Args, IrOp, Lowering, LoweringView, Value};
use super::message::{
    translate_loop_rec, translate_loop_rec_end, translate_loop_rec_end_ir, translate_loop_rec_ir,
    translate_remove_message, translate_remove_message_ir, translate_send, translate_send_ir,
    translate_timeout, translate_timeout_ir, translate_wait, translate_wait_ir,
    translate_wait_timeout, translate_wait_timeout_ir, MessageLoweringContext,
};
use super::register::{register_operand, register_operand_of};
use super::typed::{
    clear_operand, clear_operand_ir, copy_type, copy_type_ir, lower_typed_int_arithmetic,
    lower_typed_int_arithmetic_ir, lower_typed_test_arity, lower_typed_test_arity_ir,
    lower_typed_type_test, lower_typed_type_test_ir, materialize_all, materialize_all_ir,
    materialize_operand, materialize_operand_ir, read_return_value, read_return_value_ir,
    record_site, record_site_ir, set_int_type, set_int_type_ir, swap_types, swap_types_ir,
};
use super::typed_state::operands_are_int_of;

verus! {

/// The values that the instructions of a function are lowered with.
#[derive(Debug, Clone, Copy, PartialEq, Eq, Structural)]
pub struct FunctionContext {
    pub register_file: Value,
    pub process: Value,
    pub frame: CompiledFrameInfo,
}

/// What [`message_context`] answers.
pub open spec fn message_context_of(
    context: FunctionContext,
    blocks: BlockMapView,
) -> MessageLoweringContext {
    MessageLoweringContext { register_file: context.register_file, process: context.process, deopt: blocks.deopt, yield_block: blocks.yield_block }
}

/// The values that the lowering of messages needs.
fn message_context(context: FunctionContext, blocks: &BlockMap) -> (r: MessageLoweringContext)
    ensures
        r == message_context_of(context, blocks.view()),
{
    MessageLoweringContext { register_file: context.register_file, process: context.process, deopt: blocks.deopt, yield_block: blocks.yield_block }
}

/// Two operands.
pub fn two_operands(first: &Operand, second: &Operand) -> (r: Vec<Operand>)
    ensures
        operand_views(r@) == seq![first.view(), second.view()],
{
    let first_copy = first.clone();
    let second_copy = second.clone();
    let row: Vec<Operand> = vec![first_copy, second_copy];
    assert(operand_views(row@) =~= seq![first.view(), second.view()]);
    row
}

/// Three operands.
pub fn three_operands(first: &Operand, second: &Operand, third: &Operand) -> (r: Vec<Operand>)
    ensures
        operand_views(r@) == seq![first.view(), second.view(), third.view()],
{
    let first_copy = first.clone();
    let second_copy = second.clone();
    let third_copy = third.clone();
    let row: Vec<Operand> = vec![first_copy, second_copy, third_copy];
    assert(operand_views(row@) =~= seq![first.view(), second.view(), third.view()]);
    row
}

/// Where the loop over messages starts that an instruction belongs to: at the
/// last one before it that looks at a message, or at itself when there is none.
pub open spec fn loop_start_of(instructions: Seq<InstructionView>, index: usize) -> usize {
    last_loop_rec(instructions, index as nat, index)
}

/// The last of the first `n` instructions that looks at a message, or `default`.
pub open spec fn last_loop_rec(instructions: Seq<InstructionView>, n: nat, default: usize) -> usize
    decreases n,
{
    if n == 0 {
        default
    } else if instructions[n - 1] is LoopRec {
        (n - 1) as usize
    } else {
        last_loop_rec(instructions, (n - 1) as nat, default)
    }
}

fn loop_start(instructions: &[Instruction], index: usize) -> (r: usize)
    requires
        index <= instructions@.len(),
    ensures
        r == loop_start_of(instruction_views(instructions@), index),
        r <= index,
{
    let ghost views = instruction_views(instructions@);
    let mut n: usize = index;
    while n > 0
        invariant
            n <= index <= instructions@.len(),
            views == instruction_views(instructions@),
            last_loop_rec(views, n as nat, index) == loop_start_of(views, index),
        decreases n,
    {
        if let Instruction::LoopRec { .. } = &instructions[n - 1] {
            return n - 1;
        }
        n -= 1;
    }
    index
}

/// What [`lower_bif`] makes of a lowering.
pub open spec fn lower_bif_ir(
    b: LoweringView,
    context: FunctionContext,
    op: BifOp,
    operands: Seq<OperandView>,
    blocks: BlockMapView,
    index: usize,
) -> Result<(Option<bool>, LoweringView), JitFault> {
    match parse_bif_of(op, operands) {
        Err(e) => Err(e),
        Ok(bif) => {
            match arithmetic_import_of(bif.import) {
                Err(e) => Err(e),
                Ok(arithmetic) => {
                    match operand_block_of(blocks, bif.fail) {
                        Err(e) => Err(e),
                        Ok(fail) => {
                            let targets = ArithmeticTargets { fail, success: blocks.block_after(index) };
                            if operands_are_int_of(b.types, bif.left, bif.right) && register_operand_of(bif.destination) is Ok {
                                match lower_typed_int_arithmetic_ir(b, context.register_file, arithmetic, bif.left, bif.right, bif.destination, targets, blocks.deopt) {
                                    Err(e) => Err(e),
                                    Ok(b) => {
                                        let b = set_int_type_ir(b, bif.destination);
                                        Ok((Some(true), b))
                                    },
                                }
                            } else {
                                let b = materialize_operand_ir(b, context.register_file, bif.left);
                                let b = materialize_operand_ir(b, context.register_file, bif.right);
                                match lower_arithmetic_bif_ir(b, context.register_file, arithmetic, bif.left, bif.right, bif.destination, targets) {
                                    Err(e) => Err(e),
                                    Ok(b) => {
                                        let b = clear_operand_ir(b, bif.destination);
                                        Ok((Some(true), b))
                                    },
                                }
                            }
                        },
                    }
                },
            }
        },
    }
}

/// Lowers arithmetic: on bare numbers where both operands are known to hold
/// them, else on terms.
pub fn lower_bif(
    b: &mut Lowering,
    context: FunctionContext,
    op: BifOp,
    operands: &Vec<Operand>,
    blocks: &BlockMap,
    index: usize,
) -> (r: Result<Option<bool>, JitError>)
    requires
        index + 1 < blocks.view().blocks_by_index.len(),
    ensures
        lowered_with(r, final(b)@) == lower_bif_ir(old(b)@, context, op, operand_views(operands@), blocks.view(), index),
{
    let bif = ParsedBif::parse(op, operands)?;
    let arithmetic = arithmetic_import(bif.import)?;
    let fail = operand_block(blocks, bif.fail)?;
    let targets = ArithmeticTargets { fail, success: blocks.block_after(index) };
    if b.typed.operands_are_int(bif.left, bif.right) && b.typed.can_write_typed(bif.destination) {
        lower_typed_int_arithmetic(b, context.register_file, arithmetic, bif.left, bif.right, bif.destination, targets, blocks.deopt)?;
        set_int_type(b, bif.destination);
        Ok(Some(true))
    } else {
        materialize_operand(b, context.register_file, bif.left);
        materialize_operand(b, context.register_file, bif.right);
        lower_arithmetic_bif(b, context.register_file, arithmetic, bif.left, bif.right, bif.destination, targets)?;
        clear_operand(b, bif.destination);
        Ok(Some(true))
    }
}

/// What [`lower_message_instruction`] makes of a lowering.
pub open spec fn lower_message_instruction_ir(
    b: LoweringView,
    context: FunctionContext,
    blocks: BlockMapView,
    index: usize,
    instruction: InstructionView,
    instructions: Seq<InstructionView>,
) -> Result<(Option<bool>, LoweringView), JitFault> {
    match instruction {
        InstructionView::Send => {
            match record_site_ir(b, index, seq![OperandView::X(0), OperandView::X(1)]) {
                Err(e) => Err(e),
                Ok(b) => {
                    let b = materialize_all_ir(b, context.register_file);
                    match translate_send_ir(b, message_context_of(context, blocks), OperandView::X(0), OperandView::X(1), OperandView::X(0)) {
                        Err(e) => Err(e),
                        Ok(b) => {
                            let b = clear_operand_ir(b, OperandView::X(0));
                            Ok((Some(false), b))
                        },
                    }
                },
            }
        },
        InstructionView::LoopRec { fail, destination } => {
            let b = materialize_all_ir(b, context.register_file);
            match operand_block_of(blocks, fail) {
                Err(e) => Err(e),
                Ok(fail) => {
                    match translate_loop_rec_ir(b, message_context_of(context, blocks), fail, destination) {
                        Err(e) => Err(e),
                        Ok(b) => {
                            let b = clear_operand_ir(b, destination);
                            Ok((Some(false), b))
                        },
                    }
                },
            }
        },
        InstructionView::LoopRecEnd { fail } => {
            let b = materialize_all_ir(b, context.register_file);
            match operand_block_of(blocks, fail) {
                Err(e) => Err(e),
                Ok(loop_label) => {
                    let b = translate_loop_rec_end_ir(b, message_context_of(context, blocks), loop_label);
                    Ok((Some(true), b))
                },
            }
        },
        InstructionView::RemoveMessage => {
            let b = materialize_all_ir(b, context.register_file);
            let b = translate_remove_message_ir(b, message_context_of(context, blocks));
            Ok((Some(false), b))
        },
        InstructionView::Wait { fail } => {
            let b = materialize_all_ir(b, context.register_file);
            match operand_block_of(blocks, fail) {
                Err(e) => Err(e),
                Ok(loop_label) => {
                    let b = translate_wait_ir(b, message_context_of(context, blocks), loop_label);
                    Ok((Some(true), b))
                },
            }
        },
        InstructionView::WaitTimeout { fail, timeout } => {
            let b = materialize_all_ir(b, context.register_file);
            match operand_block_of(blocks, fail) {
                Err(e) => Err(e),
                Ok(timeout_label) => {
                    let loop_label = blocks.block_for_instruction(loop_start_of(instructions, index));
                    match translate_wait_timeout_ir(b, message_context_of(context, blocks), timeout, timeout_label, loop_label) {
                        Err(e) => Err(e),
                        Ok(b) => Ok((Some(true), b)),
                    }
                },
            }
        },
        InstructionView::Timeout => {
            let b = materialize_all_ir(b, context.register_file);
            let b = translate_timeout_ir(b, message_context_of(context, blocks));
            Ok((Some(false), b))
        },
        InstructionView::RecvMarkerReserve { .. } | InstructionView::RecvMarkerBind { .. } | InstructionView::RecvMarkerClear { .. } | InstructionView::RecvMarkerUse { .. } => {
            let b = return_status_raw_ir(b, JIT_STATUS_DEOPT, JIT_DEOPT_SENTINEL);
            Ok((Some(true), b))
        },
        _ => Ok((None, b)),
    }
}

/// Lowers an instruction that sends or receives messages; answers `None` when
/// it is no such instruction.
pub fn lower_message_instruction(
    b: &mut Lowering,
    context: FunctionContext,
    blocks: &BlockMap,
    index: usize,
    instruction: &Instruction,
    instructions: &[Instruction],
) -> (r: Result<Option<bool>, JitError>)
    requires
        index < instructions@.len() < blocks.view().blocks_by_index.len(),
    ensures
        lowered_with(r, final(b)@) == lower_message_instruction_ir(old(b)@, context, blocks.view(), index, instruction.view(), instruction_views(instructions@)),
{
    match instruction {
        Instruction::Send => {
            record_site(b, index, &two_operands(&Operand::X(0), &Operand::X(1)))?;
            materialize_all(b, context.register_file);
            translate_send(b, message_context(context, blocks), &Operand::X(0), &Operand::X(1), &Operand::X(0))?;
            clear_operand(b, &Operand::X(0));
            Ok(Some(false))
        },
        Instruction::LoopRec { fail, destination } => {
            materialize_all(b, context.register_file);
            let fail = operand_block(blocks, fail)?;
            translate_loop_rec(b, message_context(context, blocks), fail, destination)?;
            clear_operand(b, destination);
            Ok(Some(false))
        },
        Instruction::LoopRecEnd { fail } => {
            materialize_all(b, context.register_file);
            let loop_label = operand_block(blocks, fail)?;
            translate_loop_rec_end(b, message_context(context, blocks), loop_label);
            Ok(Some(true))
        },
        Instruction::RemoveMessage => {
            materialize_all(b, context.register_file);
            translate_remove_message(b, message_context(context, blocks));
            Ok(Some(false))
        },
        Instruction::Wait { fail } => {
            materialize_all(b, context.register_file);
            let loop_label = operand_block(blocks, fail)?;
            translate_wait(b, message_context(context, blocks), loop_label);
            Ok(Some(true))
        },
        Instruction::WaitTimeout { fail, timeout } => {
            materialize_all(b, context.register_file);
            let timeout_label = operand_block(blocks, fail)?;
            let loop_label = blocks.block_for_instruction(loop_start(instructions, index));
            translate_wait_timeout(b, message_context(context, blocks), timeout, timeout_label, loop_label)?;
            Ok(Some(true))
        },
        Instruction::Timeout => {
            materialize_all(b, context.register_file);
            translate_timeout(b, message_context(context, blocks));
            Ok(Some(false))
        },
        Instruction::RecvMarkerReserve { .. } | Instruction::RecvMarkerBind { .. } | Instruction::RecvMarkerClear { .. } | Instruction::RecvMarkerUse { .. } => {
            return_status_raw(b, JIT_STATUS_DEOPT, JIT_DEOPT_SENTINEL);
            Ok(Some(true))
        },
        _ => Ok(None),
    }
}

/// What [`lower_guard_instruction`] makes of a lowering.
pub open spec fn lower_guard_instruction_ir(
    b: LoweringView,
    context: FunctionContext,
    blocks: BlockMapView,
    index: usize,
    instruction: InstructionView,
    instructions: Seq<InstructionView>,
) -> Result<(Option<bool>, LoweringView), JitFault> {
    match instruction {
        InstructionView::TypeTest { op, fail, value } => {
            match operand_block_of(blocks, fail) {
                Err(e) => Err(e),
                Ok(fail) => {
                    let next = blocks.block_after(index);
                    let (is_settled, b) = lower_typed_type_test_ir(b, op, value, fail, next);
                    match if !is_settled {
                        match lower_type_test_ir(b, context.register_file, op, value, fail, next) {
                            Err(e) => Err(e),
                            Ok(b) => Ok(b),
                        }
                    } else {
                        Ok(b)
                    } {
                        Err(e) => Err(e),
                        Ok(b) => Ok((Some(true), b)),
                    }
                },
            }
        },
        InstructionView::Comparison { op, fail, left, right } => {
            match operand_block_of(blocks, fail) {
                Err(e) => Err(e),
                Ok(fail) => {
                    let next = blocks.block_after(index);
                    let b = materialize_operand_ir(b, context.register_file, left);
                    let b = materialize_operand_ir(b, context.register_file, right);
                    match lower_comparison_ir(b, context.register_file, op, left, right, fail, next) {
                        Err(e) => Err(e),
                        Ok(b) => Ok((Some(true), b)),
                    }
                },
            }
        },
        InstructionView::TestArity { fail, tuple, arity } => {
            match operand_block_of(blocks, fail) {
                Err(e) => Err(e),
                Ok(fail) => {
                    let next = blocks.block_after(index);
                    match lower_typed_test_arity_ir(b, tuple, arity, fail, next) {
                        Err(e) => Err(e),
                        Ok((is_settled, b)) => {
                            match if !is_settled {
                                match lower_test_arity_ir(b, context.register_file, tuple, arity, fail, next) {
                                    Err(e) => Err(e),
                                    Ok(b) => Ok(b),
                                }
                            } else {
                                Ok(b)
                            } {
                                Err(e) => Err(e),
                                Ok(b) => Ok((Some(true), b)),
                            }
                        },
                    }
                },
            }
        },
        InstructionView::IsTaggedTuple { fail, value, arity, tag } => {
            match operand_block_of(blocks, fail) {
                Err(e) => Err(e),
                Ok(fail) => {
                    let next = blocks.block_after(index);
                    match lower_is_tagged_tuple_ir(b, context.register_file, value, arity, tag, fail, next) {
                        Err(e) => Err(e),
                        Ok(b) => Ok((Some(true), b)),
                    }
                },
            }
        },
        InstructionView::SelectVal { value, fail, list } => {
            match operand_block_of(blocks, fail) {
                Err(e) => Err(e),
                Ok(fail) => {
                    let b = materialize_operand_ir(b, context.register_file, value);
                    match list_pairs_of(blocks, list) {
                        Err(e) => Err(e),
                        Ok(pairs) => {
                            match lower_select_val_ir(b, context.register_file, value, fail, pairs) {
                                Err(e) => Err(e),
                                Ok(b) => Ok((Some(true), b)),
                            }
                        },
                    }
                },
            }
        },
        InstructionView::Jump { target } => {
            match operand_block_of(blocks, target) {
                Err(e) => Err(e),
                Ok(target) => {
                    let b = b.emit(IrOp::Jump { block: target }).1;
                    Ok((Some(true), b))
                },
            }
        },
        _ => lower_message_instruction_ir(b, context, blocks, index, instruction, instructions),
    }
}

/// Lowers a guard or a jump, or else a message instruction; answers `None` when
/// it is neither.
pub fn lower_guard_instruction(
    b: &mut Lowering,
    context: FunctionContext,
    blocks: &BlockMap,
    index: usize,
    instruction: &Instruction,
    instructions: &[Instruction],
) -> (r: Result<Option<bool>, JitError>)
    requires
        index < instructions@.len() < blocks.view().blocks_by_index.len(),
    ensures
        lowered_with(r, final(b)@) == lower_guard_instruction_ir(old(b)@, context, blocks.view(), index, instruction.view(), instruction_views(instructions@)),
{
    match instruction {
        Instruction::TypeTest { op, fail, value } => {
            let fail = operand_block(blocks, fail)?;
            let next = blocks.block_after(index);
            let is_settled = lower_typed_type_test(b, *op, value, fail, next);
            if !is_settled {
                lower_type_test(b, context.register_file, *op, value, fail, next)?;
            }
            Ok(Some(true))
        },
        Instruction::Comparison { op, fail, left, right } => {
            let fail = operand_block(blocks, fail)?;
            let next = blocks.block_after(index);
            materialize_operand(b, context.register_file, left);
            materialize_operand(b, context.register_file, right);
            lower_comparison(b, context.register_file, *op, left, right, fail, next)?;
            Ok(Some(true))
        },
        Instruction::TestArity { fail, tuple, arity } => {
            let fail = operand_block(blocks, fail)?;
            let next = blocks.block_after(index);
            let is_settled = lower_typed_test_arity(b, tuple, arity, fail, next)?;
            if !is_settled {
                lower_test_arity(b, context.register_file, tuple, arity, fail, next)?;
            }
            Ok(Some(true))
        },
        Instruction::IsTaggedTuple { fail, value, arity, tag } => {
            let fail = operand_block(blocks, fail)?;
            let next = blocks.block_after(index);
            lower_is_tagged_tuple(b, context.register_file, value, arity, tag, fail, next)?;
            Ok(Some(true))
        },
        Instruction::SelectVal { value, fail, list } => {
            let fail = operand_block(blocks, fail)?;
            materialize_operand(b, context.register_file, value);
            let pairs = list_pairs(blocks, list)?;
            lower_select_val(b, context.register_file, value, fail, &pairs)?;
            Ok(Some(true))
        },
        Instruction::Jump { target } => {
            let target = operand_block(blocks, target)?;
            b.emit(IrOp::Jump { block: target });
            Ok(Some(true))
        },
        _ => lower_message_instruction(b, context, blocks, index, instruction, instructions),
    }
}

/// What [`lower_core_instruction`] makes of a lowering.
pub open spec fn lower_core_instruction_ir(
    b: LoweringView,
    context: FunctionContext,
    blocks: BlockMapView,
    index: usize,
    instruction: InstructionView,
    instructions: Seq<InstructionView>,
) -> Result<(Option<bool>, LoweringView), JitFault> {
    match instruction {
        InstructionView::Label { .. } => Ok((Some(false), b)),
        InstructionView::Move { source, destination } => {
            match read_operand_term_ir(b, context.register_file, source) {
                Err(e) => Err(e),
                Ok((value, b)) => {
                    match write_operand_term_ir(b, context.register_file, destination, value) {
                        Err(e) => Err(e),
                        Ok(b) => {
                            let b = copy_type_ir(b, source, destination);
                            Ok((Some(false), b))
                        },
                    }
                },
            }
        },
        InstructionView::Swap { left, right } => {
            match read_operand_term_ir(b, context.register_file, left) {
                Err(e) => Err(e),
                Ok((left_value, b)) => {
                    match read_operand_term_ir(b, context.register_file, right) {
                        Err(e) => Err(e),
                        Ok((right_value, b)) => {
                            match write_operand_term_ir(b, context.register_file, left, right_value) {
                                Err(e) => Err(e),
                                Ok(b) => {
                                    match write_operand_term_ir(b, context.register_file, right, left_value) {
                                        Err(e) => Err(e),
                                        Ok(b) => {
                                            let b = swap_types_ir(b, left, right);
                                            Ok((Some(false), b))
                                        },
                                    }
                                },
                            }
                        },
                    }
                },
            }
        },
        InstructionView::Bif { op, operands } => lower_bif_ir(b, context, op, operands, blocks, index),
        InstructionView::Try { destination, label } => {
            match operand_block_of(blocks, label) {
                Err(e) => Err(e),
                Ok(catch_block) => {
                    match translate_try_ir(b, catch_block, destination) {
                        Err(e) => Err(e),
                        Ok((_, b)) => Ok((Some(false), b)),
                    }
                },
            }
        },
        InstructionView::TryEnd { source } => {
            match register_operand_of(source) {
                Err(e) => Err(e),
                Ok(_) => {
                    match translate_try_end_ir(b) {
                        Err(e) => Err(e),
                        Ok(b) => {
                            let b = b.emit(IrOp::Call { helper: Helper::ClearException, args: Args::One(context.process) }).1;
                            Ok((Some(false), b))
                        },
                    }
                },
            }
        },
        InstructionView::TryCase { .. } => {
            match translate_try_case_ir(b, context.register_file) {
                Err(e) => Err(e),
                Ok((caught, b)) => {
                    match write_operand_term_ir(b, context.register_file, OperandView::X(0), caught.class) {
                        Err(e) => Err(e),
                        Ok(b) => {
                            match write_operand_term_ir(b, context.register_file, OperandView::X(1), caught.reason) {
                                Err(e) => Err(e),
                                Ok(b) => {
                                    match write_operand_term_ir(b, context.register_file, OperandView::X(2), caught.trace) {
                                        Err(e) => Err(e),
                                        Ok(b) => Ok((Some(false), b)),
                                    }
                                },
                            }
                        },
                    }
                },
            }
        },
        InstructionView::Return => {
            let (value, b) = read_return_value_ir(b, context.register_file);
            let b = return_status_ir(b, JIT_STATUS_NORMAL, value);
            Ok((Some(true), b))
        },
        _ => lower_guard_instruction_ir(b, context, blocks, index, instruction, instructions),
    }
}

/// Lowers a basic instruction, a guard, a message or an exception. Answers
/// whether the block ends with it, or `None` when it is none of these.
#[verifier::rlimit(40)]
pub fn lower_core_instruction(
    b: &mut Lowering,
    context: FunctionContext,
    blocks: &BlockMap,
    index: usize,
    instruction: &Instruction,
    instructions: &[Instruction],
) -> (r: Result<Option<bool>, JitError>)
    requires
        index < instructions@.len() < blocks.view().blocks_by_index.len(),
    ensures
        lowered_with(r, final(b)@) == lower_core_instruction_ir(old(b)@, context, blocks.view(), index, instruction.view(), instruction_views(instructions@)),
{
    match instruction {
        Instruction::Label { .. } => Ok(Some(false)),
        Instruction::Move { source, destination } => {
            let value = read_operand_term(b, context.register_file, source)?;
            write_operand_term(b, context.register_file, destination, value)?;
            copy_type(b, source, destination);
            Ok(Some(false))
        },
        Instruction::Swap { left, right } => {
            let left_value = read_operand_term(b, context.register_file, left)?;
            let right_value = read_operand_term(b, context.register_file, right)?;
            write_operand_term(b, context.register_file, left, right_value)?;
            write_operand_term(b, context.register_file, right, left_value)?;
            swap_types(b, left, right);
            Ok(Some(false))
        },
        Instruction::Bif { op, operands } => lower_bif(b, context, *op, operands, blocks, index),
        Instruction::Try { destination, label } => {
            let catch_block = operand_block(blocks, label)?;
            translate_try(b, catch_block, destination)?;
            Ok(Some(false))
        },
        Instruction::TryEnd { source } => {
            let _ = register_operand(source)?;
            translate_try_end(b)?;
            b.emit(IrOp::Call { helper: Helper::ClearException, args: Args::One(context.process) });
            Ok(Some(false))
        },
        Instruction::TryCase { .. } => {
            let caught = translate_try_case(b, context.register_file)?;
            write_operand_term(b, context.register_file, &Operand::X(0), caught.class)?;
            write_operand_term(b, context.register_file, &Operand::X(1), caught.reason)?;
            write_operand_term(b, context.register_file, &Operand::X(2), caught.trace)?;
            Ok(Some(false))
        },
        Instruction::Return => {
            let value = read_return_value(b, context.register_file);
            return_status(b, JIT_STATUS_NORMAL, value);
            Ok(Some(true))
        },
        _ => lower_guard_instruction(b, context, blocks, index, instruction, instructions),
    }
}

} // verus!

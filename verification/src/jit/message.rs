//! Lowering sending and receiving.

use vstd::prelude::*;
use crate::loader::decode::compact::{Operand, OperandView};
use super::common::{
    read_operand_term, read_operand_term_ir, write_operand_term, write_operand_term_ir,
};
use super::error::{JitError, JitFault};
use super::helper::Helper;
use super::ir::{lowered, Args, BinaryCode, Block, IntCc, IrOp, Lowering, LoweringView, Value};

verus! {

/// There is a message to look at.
pub const RECEIVE_STATUS_MESSAGE: i64 = 0;

/// Every message was looked at.
pub const RECEIVE_STATUS_EMPTY: i64 = 1;

/// A message has arrived.
pub const WAIT_STATUS_NEW_MESSAGE: i64 = 0;

/// The time is up.
pub const WAIT_STATUS_TIMEOUT: i64 = 1;

/// The process waits.
pub const WAIT_STATUS_WAITING: i64 = 2;

/// The values that the lowering of message instructions needs.
#[derive(Debug, Clone, Copy, PartialEq, Eq, Structural)]
pub struct MessageLoweringContext {
    pub register_file: Value,
    pub process: Value,
    pub deopt: Block,
    pub yield_block: Block,
}

/// What [`branch_to_yield_if_exhausted`] makes of a lowering.
pub open spec fn branch_to_yield_if_exhausted_ir(
    b: LoweringView,
    exhausted: Value,
    yield_block: Block,
    continuation: Block,
) -> LoweringView {
    let (should_yield, b) = b.emit(IrOp::CompareImm { cc: IntCc::NotEqual, left: exhausted, imm: 0 });
    let b = b.emit(IrOp::Brif { condition: should_yield, then_block: yield_block, else_block: continuation }).1;
    let b = b.switch(continuation);
    b
}

/// Goes to the yield block when the value is not zero, to `continuation`
/// otherwise.
pub fn branch_to_yield_if_exhausted(
    b: &mut Lowering,
    exhausted: Value,
    yield_block: Block,
    continuation: Block,
)
    ensures
        final(b)@ == branch_to_yield_if_exhausted_ir(old(b)@, exhausted, yield_block, continuation),
{
    let should_yield = b.emit(IrOp::CompareImm { cc: IntCc::NotEqual, left: exhausted, imm: 0 });
    b.emit(IrOp::Brif { condition: should_yield, then_block: yield_block, else_block: continuation });
    b.switch(continuation);
}

/// What [`charge_reduction_or_yield`] makes of a lowering.
pub open spec fn charge_reduction_or_yield_ir(
    b: LoweringView,
    process: Value,
    yield_block: Block,
) -> LoweringView {
    let (call, b) = b.emit(IrOp::Call { helper: Helper::ChargeReduction, args: Args::One(process) });
    let (exhausted, b) = b.emit(IrOp::Result { of: call, index: 0 });
    let (continuation, b) = b.create_block();
    let b = branch_to_yield_if_exhausted_ir(b, exhausted, yield_block, continuation);
    b
}

/// Charges a reduction, and goes to the yield block when there are no more.
pub fn charge_reduction_or_yield(b: &mut Lowering, process: Value, yield_block: Block)
    ensures
        final(b)@ == charge_reduction_or_yield_ir(old(b)@, process, yield_block),
{
    let call = b.emit(IrOp::Call { helper: Helper::ChargeReduction, args: Args::One(process) });
    let exhausted = b.emit(IrOp::Result { of: call, index: 0 });
    let continuation = b.create_block();
    branch_to_yield_if_exhausted(b, exhausted, yield_block, continuation);
}

/// What [`translate_send`] makes of a lowering.
pub open spec fn translate_send_ir(
    b: LoweringView,
    context: MessageLoweringContext,
    dest: OperandView,
    message: OperandView,
    result_dest: OperandView,
) -> Result<LoweringView, JitFault> {
    match read_operand_term_ir(b, context.register_file, dest) {
        Err(e) => Err(e),
        Ok((dest_pid, b)) => {
            match read_operand_term_ir(b, context.register_file, message) {
                Err(e) => Err(e),
                Ok((message_term, b)) => {
                    let (call, b) = b.emit(IrOp::Call { helper: Helper::SendMessage, args: Args::Three(context.process, dest_pid, message_term) });
                    let (sent, b) = b.emit(IrOp::Result { of: call, index: 0 });
                    write_operand_term_ir(b, context.register_file, result_dest, sent)
                },
            }
        },
    }
}

/// Sends a message; the result is the message.
pub fn translate_send(
    b: &mut Lowering,
    context: MessageLoweringContext,
    dest: &Operand,
    message: &Operand,
    result_dest: &Operand,
) -> (r: Result<(), JitError>)
    ensures
        lowered(r, final(b)@) == translate_send_ir(old(b)@, context, dest.view(), message.view(), result_dest.view()),
{
    let dest_pid = read_operand_term(b, context.register_file, dest)?;
    let message_term = read_operand_term(b, context.register_file, message)?;
    let call = b.emit(IrOp::Call { helper: Helper::SendMessage, args: Args::Three(context.process, dest_pid, message_term) });
    let sent = b.emit(IrOp::Result { of: call, index: 0 });
    write_operand_term(b, context.register_file, result_dest, sent)
}

/// What [`branch_to_deopt_on_status`] makes of a lowering.
pub open spec fn branch_to_deopt_on_status_ir(
    b: LoweringView,
    status: Value,
    deopt: Block,
) -> LoweringView {
    let (is_message, b) = b.emit(IrOp::CompareImm { cc: IntCc::Equal, left: status, imm: RECEIVE_STATUS_MESSAGE });
    let (is_empty, b) = b.emit(IrOp::CompareImm { cc: IntCc::Equal, left: status, imm: RECEIVE_STATUS_EMPTY });
    let (known, b) = b.emit(IrOp::Binary { code: BinaryCode::Bor, left: is_message, right: is_empty });
    let (unknown, b) = b.emit(IrOp::CompareImm { cc: IntCc::Equal, left: known, imm: 0 });
    let (continuation, b) = b.create_block();
    let b = b.emit(IrOp::Brif { condition: unknown, then_block: deopt, else_block: continuation }).1;
    let b = b.switch(continuation);
    b
}

/// Goes to `deopt` unless the status is one of a receive.
fn branch_to_deopt_on_status(b: &mut Lowering, status: Value, deopt: Block)
    ensures
        final(b)@ == branch_to_deopt_on_status_ir(old(b)@, status, deopt),
{
    let is_message = b.emit(IrOp::CompareImm { cc: IntCc::Equal, left: status, imm: RECEIVE_STATUS_MESSAGE });
    let is_empty = b.emit(IrOp::CompareImm { cc: IntCc::Equal, left: status, imm: RECEIVE_STATUS_EMPTY });
    let known = b.emit(IrOp::Binary { code: BinaryCode::Bor, left: is_message, right: is_empty });
    let unknown = b.emit(IrOp::CompareImm { cc: IntCc::Equal, left: known, imm: 0 });
    let continuation = b.create_block();
    b.emit(IrOp::Brif { condition: unknown, then_block: deopt, else_block: continuation });
    b.switch(continuation);
}

/// What [`translate_loop_rec`] makes of a lowering.
pub open spec fn translate_loop_rec_ir(
    b: LoweringView,
    context: MessageLoweringContext,
    fail_label: Block,
    destination: OperandView,
) -> Result<LoweringView, JitFault> {
    let (call, b) = b.emit(IrOp::Call { helper: Helper::ReceivePeek, args: Args::One(context.process) });
    let (status, b) = b.emit(IrOp::Result { of: call, index: 0 });
    let (message, b) = b.emit(IrOp::Result { of: call, index: 1 });
    let b = branch_to_deopt_on_status_ir(b, status, context.deopt);
    let (exhausted, b) = b.emit(IrOp::CompareImm { cc: IntCc::Equal, left: status, imm: RECEIVE_STATUS_EMPTY });
    let (continuation, b) = b.create_block();
    let b = b.emit(IrOp::Brif { condition: exhausted, then_block: fail_label, else_block: continuation }).1;
    let b = b.switch(continuation);
    write_operand_term_ir(b, context.register_file, destination, message)
}

/// Reads the message to look at, or goes to `fail_label` when there is none.
pub fn translate_loop_rec(
    b: &mut Lowering,
    context: MessageLoweringContext,
    fail_label: Block,
    destination: &Operand,
) -> (r: Result<(), JitError>)
    ensures
        lowered(r, final(b)@) == translate_loop_rec_ir(old(b)@, context, fail_label, destination.view()),
{
    let call = b.emit(IrOp::Call { helper: Helper::ReceivePeek, args: Args::One(context.process) });
    let status = b.emit(IrOp::Result { of: call, index: 0 });
    let message = b.emit(IrOp::Result { of: call, index: 1 });
    branch_to_deopt_on_status(b, status, context.deopt);
    let exhausted = b.emit(IrOp::CompareImm { cc: IntCc::Equal, left: status, imm: RECEIVE_STATUS_EMPTY });
    let continuation = b.create_block();
    b.emit(IrOp::Brif { condition: exhausted, then_block: fail_label, else_block: continuation });
    b.switch(continuation);
    write_operand_term(b, context.register_file, destination, message)
}

/// What [`translate_loop_rec_end`] makes of a lowering.
pub open spec fn translate_loop_rec_end_ir(
    b: LoweringView,
    context: MessageLoweringContext,
    loop_label: Block,
) -> LoweringView {
    let b = b.emit(IrOp::Call { helper: Helper::ReceiveNext, args: Args::One(context.process) }).1;
    let b = b.emit(IrOp::Jump { block: loop_label }).1;
    b
}

/// Leaves the message and looks at the next.
pub fn translate_loop_rec_end(
    b: &mut Lowering,
    context: MessageLoweringContext,
    loop_label: Block,
)
    ensures
        final(b)@ == translate_loop_rec_end_ir(old(b)@, context, loop_label),
{
    b.emit(IrOp::Call { helper: Helper::ReceiveNext, args: Args::One(context.process) });
    b.emit(IrOp::Jump { block: loop_label });
}

/// What [`translate_remove_message`] makes of a lowering.
pub open spec fn translate_remove_message_ir(
    b: LoweringView,
    context: MessageLoweringContext,
) -> LoweringView {
    let b = b.emit(IrOp::Call { helper: Helper::ReceiveAccept, args: Args::One(context.process) }).1;
    b
}

/// Takes the message out of the mailbox.
pub fn translate_remove_message(b: &mut Lowering, context: MessageLoweringContext)
    ensures
        final(b)@ == translate_remove_message_ir(old(b)@, context),
{
    b.emit(IrOp::Call { helper: Helper::ReceiveAccept, args: Args::One(context.process) });
}

/// What [`branch_wait_status`] makes of a lowering.
pub open spec fn branch_wait_status_ir(
    b: LoweringView,
    status: Value,
    loop_label: Block,
    yield_block: Block,
    deopt: Block,
    timeout_label: Option<Block>,
) -> LoweringView {
    let (is_new_message, b) = b.emit(IrOp::CompareImm { cc: IntCc::Equal, left: status, imm: WAIT_STATUS_NEW_MESSAGE });
    let (check_timeout, b) = b.create_block();
    let b = b.emit(IrOp::Brif { condition: is_new_message, then_block: loop_label, else_block: check_timeout }).1;
    let b = b.switch(check_timeout);
    let b = match timeout_label {
        Some(timeout_label) => {
            let (is_timeout, b) = b.emit(IrOp::CompareImm { cc: IntCc::Equal, left: status, imm: WAIT_STATUS_TIMEOUT });
            let (check_waiting, b) = b.create_block();
            let b = b.emit(IrOp::Brif { condition: is_timeout, then_block: timeout_label, else_block: check_waiting }).1;
            let b = b.switch(check_waiting);
            b
        },
        None => b,
    };
    let (is_waiting, b) = b.emit(IrOp::CompareImm { cc: IntCc::Equal, left: status, imm: WAIT_STATUS_WAITING });
    let b = b.emit(IrOp::Brif { condition: is_waiting, then_block: yield_block, else_block: deopt }).1;
    b
}

/// Goes where the status of a wait says.
fn branch_wait_status(
    b: &mut Lowering,
    status: Value,
    loop_label: Block,
    yield_block: Block,
    deopt: Block,
    timeout_label: Option<Block>,
)
    ensures
        final(b)@ == branch_wait_status_ir(old(b)@, status, loop_label, yield_block, deopt, timeout_label),
{
    let is_new_message = b.emit(IrOp::CompareImm { cc: IntCc::Equal, left: status, imm: WAIT_STATUS_NEW_MESSAGE });
    let check_timeout = b.create_block();
    b.emit(IrOp::Brif { condition: is_new_message, then_block: loop_label, else_block: check_timeout });
    b.switch(check_timeout);
    match timeout_label {
        Some(timeout_label) => {
            let is_timeout = b.emit(IrOp::CompareImm { cc: IntCc::Equal, left: status, imm: WAIT_STATUS_TIMEOUT });
            let check_waiting = b.create_block();
            b.emit(IrOp::Brif { condition: is_timeout, then_block: timeout_label, else_block: check_waiting });
            b.switch(check_waiting);
        },
        None => {},
    }
    let is_waiting = b.emit(IrOp::CompareImm { cc: IntCc::Equal, left: status, imm: WAIT_STATUS_WAITING });
    b.emit(IrOp::Brif { condition: is_waiting, then_block: yield_block, else_block: deopt });
}

/// What [`translate_wait`] makes of a lowering.
pub open spec fn translate_wait_ir(
    b: LoweringView,
    context: MessageLoweringContext,
    loop_label: Block,
) -> LoweringView {
    let (call, b) = b.emit(IrOp::Call { helper: Helper::ReceiveWait, args: Args::One(context.process) });
    let (status, b) = b.emit(IrOp::Result { of: call, index: 0 });
    let b = charge_reduction_or_yield_ir(b, context.process, context.yield_block);
    let b = branch_wait_status_ir(b, status, loop_label, context.yield_block, context.deopt, None);
    b
}

/// Waits for a message.
pub fn translate_wait(b: &mut Lowering, context: MessageLoweringContext, loop_label: Block)
    ensures
        final(b)@ == translate_wait_ir(old(b)@, context, loop_label),
{
    let call = b.emit(IrOp::Call { helper: Helper::ReceiveWait, args: Args::One(context.process) });
    let status = b.emit(IrOp::Result { of: call, index: 0 });
    charge_reduction_or_yield(b, context.process, context.yield_block);
    branch_wait_status(b, status, loop_label, context.yield_block, context.deopt, None);
}

/// What [`translate_wait_timeout`] makes of a lowering.
pub open spec fn translate_wait_timeout_ir(
    b: LoweringView,
    context: MessageLoweringContext,
    timeout_value: OperandView,
    timeout_label: Block,
    loop_label: Block,
) -> Result<LoweringView, JitFault> {
    match read_operand_term_ir(b, context.register_file, timeout_value) {
        Err(e) => Err(e),
        Ok((timeout, b)) => {
            let (call, b) = b.emit(IrOp::Call { helper: Helper::ReceiveWaitTimeout, args: Args::Two(context.process, timeout) });
            let (status, b) = b.emit(IrOp::Result { of: call, index: 0 });
            let b = charge_reduction_or_yield_ir(b, context.process, context.yield_block);
            let b = branch_wait_status_ir(b, status, loop_label, context.yield_block, context.deopt, Some(timeout_label));
            Ok(b)
        },
    }
}

/// Waits for a message, for no longer than the operand says.
pub fn translate_wait_timeout(
    b: &mut Lowering,
    context: MessageLoweringContext,
    timeout_value: &Operand,
    timeout_label: Block,
    loop_label: Block,
) -> (r: Result<(), JitError>)
    ensures
        lowered(r, final(b)@) == translate_wait_timeout_ir(old(b)@, context, timeout_value.view(), timeout_label, loop_label),
{
    let timeout = read_operand_term(b, context.register_file, timeout_value)?;
    let call = b.emit(IrOp::Call { helper: Helper::ReceiveWaitTimeout, args: Args::Two(context.process, timeout) });
    let status = b.emit(IrOp::Result { of: call, index: 0 });
    charge_reduction_or_yield(b, context.process, context.yield_block);
    branch_wait_status(b, status, loop_label, context.yield_block, context.deopt, Some(timeout_label));
    Ok(())
}

/// What [`translate_timeout`] makes of a lowering.
pub open spec fn translate_timeout_ir(
    b: LoweringView,
    context: MessageLoweringContext,
) -> LoweringView {
    let b = b.emit(IrOp::Call { helper: Helper::ReceiveTimeout, args: Args::One(context.process) }).1;
    b
}

/// Starts what follows a time that is up.
pub fn translate_timeout(b: &mut Lowering, context: MessageLoweringContext)
    ensures
        final(b)@ == translate_timeout_ir(old(b)@, context),
{
    b.emit(IrOp::Call { helper: Helper::ReceiveTimeout, args: Args::One(context.process) });
}

} // verus!

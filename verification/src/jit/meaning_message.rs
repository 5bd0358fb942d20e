//! Laws of messages in compiled code: what the process is asked, and where the
//! code goes by what it answers.

use vstd::prelude::*;
use crate::loader::decode::compact::OperandView;
use super::common::read_operand_term_ir;
use super::helper::Helper;
use super::ir::{Args, BinaryCode, Block, IntCc, IrOp, LoweringView, Value};
use super::meaning::{
    answered, does, lemma_emit, lemma_switch, next_answer, only_made_values, operand_value,
    register_address, Flow, Machine,
};
use super::meaning_call::{lemma_charge, same_effects};
use super::meaning_core::{has_room, lemma_flags, lemma_read, lemma_write};
use super::message::{
    branch_to_deopt_on_status_ir, branch_wait_status_ir, charge_reduction_or_yield_ir,
    translate_loop_rec_ir, translate_send_ir, translate_wait_ir, translate_wait_timeout_ir,
    MessageLoweringContext, RECEIVE_STATUS_EMPTY, RECEIVE_STATUS_MESSAGE, WAIT_STATUS_NEW_MESSAGE,
    WAIT_STATUS_TIMEOUT, WAIT_STATUS_WAITING,
};
use super::register::register_operand_of;

verus! {

/// Sending hands the process the receiver and the message, and stores what it
/// answers.
pub proof fn law_send_asks_the_process(
    b: LoweringView,
    context: MessageLoweringContext,
    dest: OperandView,
    message: OperandView,
    result_dest: OperandView,
    m: Machine,
)
    requires
        has_room(b),
        context.register_file < b.ops.len(),
        context.process < b.ops.len(),
        translate_send_ir(b, context, dest, message, result_dest) is Ok,
    ensures
        ({
            let after = translate_send_ir(b, context, dest, message, result_dest)->Ok_0;
            let k = answered(
                m,
                Helper::SendMessage,
                seq![
                    m.values[context.process],
                    operand_value(m, context.register_file, dest),
                    operand_value(m, context.register_file, message),
                ],
            );
            let place = register_address(
                m.values[context.register_file],
                register_operand_of(result_dest)->Ok_0,
            );
            does(after, b.ops.len() as int, Flow::Running(m)) matches Flow::Running(n)
                && same_effects(n, k.stored(place, next_answer(m).first))
        }),
{
    let from = b.ops.len() as int;
    let start = Flow::Running(m);
    let file = context.register_file;
    lemma_read(b, file, dest, from, start);
    let (dest_pid, b1) = read_operand_term_ir(b, file, dest)->Ok_0;
    lemma_read(b1, file, message, from, start);
    let (message_term, b2) = read_operand_term_ir(b1, file, message)->Ok_0;
    let op3 = IrOp::Call {
        helper: Helper::SendMessage,
        args: Args::Three(context.process, dest_pid, message_term),
    };
    lemma_emit(b2, op3, from, start);
    let (call, b3) = b2.emit(op3);
    let op4 = IrOp::Result { of: call, index: 0 };
    lemma_emit(b3, op4, from, start);
    let (sent, b4) = b3.emit(op4);
    lemma_write(b4, file, result_dest, sent, from, start);
}

proof fn lemma_known_status(b: LoweringView, status: Value, deopt: Block, from: int, start: Flow)
    requires
        b.ops.len() + 7 <= usize::MAX,
        0 <= from <= b.ops.len(),
        status < b.ops.len(),
        deopt < b.ops.len(),
        does(b, from, start) is Running,
    ensures
        ({
            let after = branch_to_deopt_on_status_ir(b, status, deopt);
            let m = does(b, from, start)->Running_0;
            let end = does(after, from, start);
            &&& after.ops.len() == b.ops.len() + 7
            &&& if m.values[status] == RECEIVE_STATUS_MESSAGE || m.values[status]
                == RECEIVE_STATUS_EMPTY {
                end matches Flow::Running(n) && only_made_values(m, n, b.ops.len() as int)
            } else {
                end matches Flow::Left(block, n) && block == deopt && only_made_values(
                    m,
                    n,
                    b.ops.len() as int,
                )
            }
        }),
{
    let op1 = IrOp::CompareImm { cc: IntCc::Equal, left: status, imm: RECEIVE_STATUS_MESSAGE };
    lemma_emit(b, op1, from, start);
    let (is_message, b1) = b.emit(op1);
    let op2 = IrOp::CompareImm { cc: IntCc::Equal, left: status, imm: RECEIVE_STATUS_EMPTY };
    lemma_emit(b1, op2, from, start);
    let (is_empty, b2) = b1.emit(op2);
    let op3 = IrOp::Binary { code: BinaryCode::Bor, left: is_message, right: is_empty };
    lemma_emit(b2, op3, from, start);
    let (known, b3) = b2.emit(op3);
    let op4 = IrOp::CompareImm { cc: IntCc::Equal, left: known, imm: 0 };
    lemma_emit(b3, op4, from, start);
    let (unknown, b4) = b3.emit(op4);
    lemma_emit(b4, IrOp::Block, from, start);
    let (continuation, b5) = b4.create_block();
    let op6 = IrOp::Brif { condition: unknown, then_block: deopt, else_block: continuation };
    lemma_emit(b5, op6, from, start);
    let b6 = b5.emit(op6).1;
    lemma_switch(b6, continuation, from, start);
    let m = does(b, from, start)->Running_0;
    lemma_flags(
        m.values[status] == RECEIVE_STATUS_MESSAGE,
        m.values[status] == RECEIVE_STATUS_EMPTY,
    );
}

/// Receiving asks the process for the message to look at: it is stored, or, when
/// there is none, the code goes where it fails. On any other answer the interpreter
/// takes over.
pub proof fn law_receive_looks_at_a_message(
    b: LoweringView,
    context: MessageLoweringContext,
    fail_label: Block,
    destination: OperandView,
    m: Machine,
)
    requires
        has_room(b),
        context.register_file < b.ops.len(),
        context.process < b.ops.len(),
        context.deopt < b.ops.len(),
        fail_label < b.ops.len(),
        translate_loop_rec_ir(b, context, fail_label, destination) is Ok,
    ensures
        ({
            let after = translate_loop_rec_ir(b, context, fail_label, destination)->Ok_0;
            let k = answered(m, Helper::ReceivePeek, seq![m.values[context.process]]);
            let status = next_answer(m).first;
            let place = register_address(
                m.values[context.register_file],
                register_operand_of(destination)->Ok_0,
            );
            let end = does(after, b.ops.len() as int, Flow::Running(m));
            if status == RECEIVE_STATUS_MESSAGE {
                end matches Flow::Running(n) && same_effects(
                    n,
                    k.stored(place, next_answer(m).second),
                )
            } else {
                end matches Flow::Left(block, n) && same_effects(n, k) && block == if status
                    == RECEIVE_STATUS_EMPTY {
                    fail_label
                } else {
                    context.deopt
                }
            }
        }),
{
    let from = b.ops.len() as int;
    let start = Flow::Running(m);
    let op1 = IrOp::Call { helper: Helper::ReceivePeek, args: Args::One(context.process) };
    lemma_emit(b, op1, from, start);
    let (call, b1) = b.emit(op1);
    let op2 = IrOp::Result { of: call, index: 0 };
    lemma_emit(b1, op2, from, start);
    let (status, b2) = b1.emit(op2);
    let op3 = IrOp::Result { of: call, index: 1 };
    lemma_emit(b2, op3, from, start);
    let (message, b3) = b2.emit(op3);
    lemma_known_status(b3, status, context.deopt, from, start);
    let b4 = branch_to_deopt_on_status_ir(b3, status, context.deopt);
    let op5 = IrOp::CompareImm { cc: IntCc::Equal, left: status, imm: RECEIVE_STATUS_EMPTY };
    lemma_emit(b4, op5, from, start);
    let (exhausted, b5) = b4.emit(op5);
    lemma_emit(b5, IrOp::Block, from, start);
    let (continuation, b6) = b5.create_block();
    let op7 = IrOp::Brif {
        condition: exhausted,
        then_block: fail_label,
        else_block: continuation,
    };
    lemma_emit(b6, op7, from, start);
    let b7 = b6.emit(op7).1;
    lemma_switch(b7, continuation, from, start);
    let b8 = b7.switch(continuation);
    lemma_write(b8, context.register_file, destination, message, from, start);
}

/// Where code goes by the status of a wait.
pub open spec fn wait_target(
    status: i64,
    loop_label: Block,
    yield_block: Block,
    deopt: Block,
    timeout_label: Option<Block>,
) -> Block {
    if status == WAIT_STATUS_NEW_MESSAGE {
        loop_label
    } else if timeout_label is Some && status == WAIT_STATUS_TIMEOUT {
        timeout_label->Some_0
    } else if status == WAIT_STATUS_WAITING {
        yield_block
    } else {
        deopt
    }
}

proof fn lemma_wait_status(
    b: LoweringView,
    status: Value,
    loop_label: Block,
    yield_block: Block,
    deopt: Block,
    timeout_label: Option<Block>,
    from: int,
    start: Flow,
)
    requires
        b.ops.len() + 20 <= usize::MAX,
        0 <= from <= b.ops.len(),
        status < b.ops.len(),
        loop_label < b.ops.len(),
        yield_block < b.ops.len(),
        deopt < b.ops.len(),
        timeout_label matches Some(label) ==> label < b.ops.len(),
        does(b, from, start) matches Flow::Left(block, _) ==> block < b.ops.len(),
    ensures
        ({
            let after = branch_wait_status_ir(
                b,
                status,
                loop_label,
                yield_block,
                deopt,
                timeout_label,
            );
            match does(b, from, start) {
                Flow::Running(m) => does(after, from, start) matches Flow::Left(block, n) && block
                    == wait_target(
                    m.values[status],
                    loop_label,
                    yield_block,
                    deopt,
                    timeout_label,
                ) && same_effects(n, m),
                other => does(after, from, start) == other,
            }
        }),
{
    let op1 = IrOp::CompareImm { cc: IntCc::Equal, left: status, imm: WAIT_STATUS_NEW_MESSAGE };
    lemma_emit(b, op1, from, start);
    let (is_new_message, b1) = b.emit(op1);
    lemma_emit(b1, IrOp::Block, from, start);
    let (check_timeout, b2) = b1.create_block();
    let op3 = IrOp::Brif {
        condition: is_new_message,
        then_block: loop_label,
        else_block: check_timeout,
    };
    lemma_emit(b2, op3, from, start);
    let b3 = b2.emit(op3).1;
    lemma_switch(b3, check_timeout, from, start);
    let b4 = b3.switch(check_timeout);
    let b5 = match timeout_label {
        Some(label) => {
            let op4 = IrOp::CompareImm { cc: IntCc::Equal, left: status, imm: WAIT_STATUS_TIMEOUT };
            lemma_emit(b4, op4, from, start);
            let (is_timeout, c1) = b4.emit(op4);
            lemma_emit(c1, IrOp::Block, from, start);
            let (check_waiting, c2) = c1.create_block();
            let op5 = IrOp::Brif {
                condition: is_timeout,
                then_block: label,
                else_block: check_waiting,
            };
            lemma_emit(c2, op5, from, start);
            let c3 = c2.emit(op5).1;
            lemma_switch(c3, check_waiting, from, start);
            c3.switch(check_waiting)
        },
        None => b4,
    };
    let op6 = IrOp::CompareImm { cc: IntCc::Equal, left: status, imm: WAIT_STATUS_WAITING };
    lemma_emit(b5, op6, from, start);
    let (is_waiting, b6) = b5.emit(op6);
    lemma_emit(
        b6,
        IrOp::Brif { condition: is_waiting, then_block: yield_block, else_block: deopt },
        from,
        start,
    );
}

/// Where a wait ends: a reduction is charged after the process was told to wait, and
/// when there are no more the process yields; otherwise the status of the wait
/// decides.
pub open spec fn waited(
    context: MessageLoweringContext,
    loop_label: Block,
    timeout_label: Option<Block>,
    status: i64,
    k: Machine,
    end: Flow,
) -> bool {
    end matches Flow::Left(block, n) && same_effects(
        n,
        answered(k, Helper::ChargeReduction, seq![k.values[context.process]]),
    ) && block == if next_answer(k).first != 0 {
        context.yield_block
    } else {
        wait_target(status, loop_label, context.yield_block, context.deopt, timeout_label)
    }
}

/// Waiting goes back to the loop when there is a new message, yields while there is
/// none or when the reductions are used up, and lets the interpreter take over
/// otherwise.
pub proof fn law_wait_follows_the_status(
    b: LoweringView,
    context: MessageLoweringContext,
    loop_label: Block,
    m: Machine,
)
    requires
        has_room(b),
        context.process < b.ops.len(),
        context.deopt < b.ops.len(),
        context.yield_block < b.ops.len(),
        loop_label < b.ops.len(),
    ensures
        waited(
            context,
            loop_label,
            None,
            next_answer(m).first,
            answered(m, Helper::ReceiveWait, seq![m.values[context.process]]),
            does(
                translate_wait_ir(b, context, loop_label),
                b.ops.len() as int,
                Flow::Running(m),
            ),
        ),
{
    let from = b.ops.len() as int;
    let start = Flow::Running(m);
    let op1 = IrOp::Call { helper: Helper::ReceiveWait, args: Args::One(context.process) };
    lemma_emit(b, op1, from, start);
    let (call, b1) = b.emit(op1);
    let op2 = IrOp::Result { of: call, index: 0 };
    lemma_emit(b1, op2, from, start);
    let (status, b2) = b1.emit(op2);
    lemma_charge(b2, context.process, context.yield_block, from, start);
    let b3 = charge_reduction_or_yield_ir(b2, context.process, context.yield_block);
    lemma_wait_status(
        b3,
        status,
        loop_label,
        context.yield_block,
        context.deopt,
        None,
        from,
        start,
    );
}

/// Waiting for no longer than a time goes where the time is up once it is, and
/// otherwise where waiting goes.
pub proof fn law_timed_wait_follows_the_status(
    b: LoweringView,
    context: MessageLoweringContext,
    timeout_value: OperandView,
    timeout_label: Block,
    loop_label: Block,
    m: Machine,
)
    requires
        has_room(b),
        context.register_file < b.ops.len(),
        context.process < b.ops.len(),
        context.deopt < b.ops.len(),
        context.yield_block < b.ops.len(),
        timeout_label < b.ops.len(),
        loop_label < b.ops.len(),
        translate_wait_timeout_ir(b, context, timeout_value, timeout_label, loop_label) is Ok,
    ensures
        waited(
            context,
            loop_label,
            Some(timeout_label),
            next_answer(m).first,
            answered(
                m,
                Helper::ReceiveWaitTimeout,
                seq![
                    m.values[context.process],
                    operand_value(m, context.register_file, timeout_value),
                ],
            ),
            does(
                translate_wait_timeout_ir(
                    b,
                    context,
                    timeout_value,
                    timeout_label,
                    loop_label,
                )->Ok_0,
                b.ops.len() as int,
                Flow::Running(m),
            ),
        ),
{
    let from = b.ops.len() as int;
    let start = Flow::Running(m);
    lemma_read(b, context.register_file, timeout_value, from, start);
    let (timeout, b0) = read_operand_term_ir(b, context.register_file, timeout_value)->Ok_0;
    let op1 = IrOp::Call {
        helper: Helper::ReceiveWaitTimeout,
        args: Args::Two(context.process, timeout),
    };
    lemma_emit(b0, op1, from, start);
    let (call, b1) = b0.emit(op1);
    let op2 = IrOp::Result { of: call, index: 0 };
    lemma_emit(b1, op2, from, start);
    let (status, b2) = b1.emit(op2);
    lemma_charge(b2, context.process, context.yield_block, from, start);
    let b3 = charge_reduction_or_yield_ir(b2, context.process, context.yield_block);
    lemma_wait_status(
        b3,
        status,
        loop_label,
        context.yield_block,
        context.deopt,
        Some(timeout_label),
        from,
        start,
    );
}

} // verus!

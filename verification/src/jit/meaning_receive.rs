//! Laws of the instructions that send and receive: what each asks the process, what
//! it leaves in the registers, and where the code goes.

use vstd::prelude::*;
use crate::loader::decode::compact::OperandView;
use crate::loader::decode::instruction::InstructionView;
use super::common::{is_register_of, JIT_DEOPT_SENTINEL};
use super::compiler::lower_instruction_ir;
use super::control::{operand_block_of, BlockMapView};
use super::dispatch_call::MetadataView;
use super::dispatch_core::{
    last_loop_rec, loop_start_of, lower_message_instruction_ir, message_context_of,
    FunctionContext,
};
use super::error::JitFault;
use super::exceptions::JIT_STATUS_DEOPT;
use super::helper::{Helper, IrType};
use super::ir::{Args, Block, IrOp, LoweringView, Value};
use super::meaning::{
    answered, does, goes_on, lemma_emit, lemma_then, next_answer, operand_value,
    register_address, Flow, Machine,
};
use super::meaning_call::{lemma_return_status, same_effects};
use super::meaning_message::{
    law_receive_looks_at_a_message, law_send_asks_the_process, law_timed_wait_follows_the_status,
    law_wait_follows_the_status, waited,
};
use super::meaning_move::{has_place, lemma_operand_has_place, standing_operand};
use super::meaning_standing::{
    all_fit, have_places, law_materializing_all_stores_the_terms, only_stored,
};
use super::meaning_typed::standing_term;
use super::message::{
    translate_loop_rec_end_ir, translate_loop_rec_ir, translate_remove_message_ir,
    translate_send_ir, translate_timeout_ir, translate_wait_ir, translate_wait_timeout_ir,
};
use super::register::{register_operand_of, Register};
use super::safepoint::with_site;
use super::typed::{
    clear_operand_ir, law_nothing_is_known_after_all_are_materialized, materialize_all_ir,
};
use super::typed_state::Types;

verus! {

/// Whether code runs on a machine that it was lowered for, and there is room for one
/// more instruction.
pub open spec fn is_set_up(
    b: LoweringView,
    context: FunctionContext,
    blocks: BlockMapView,
    m: Machine,
) -> bool {
    &&& b.ops.len() + 3 * b.types.len() + 2000 <= usize::MAX
    &&& context.register_file < b.ops.len()
    &&& context.process < b.ops.len()
    &&& blocks.deopt < b.ops.len()
    &&& blocks.yield_block < b.ops.len()
    &&& have_places(b.types)
    &&& all_fit(b.types, m.memory, m.values[context.register_file])
}

/// Whether every register in a memory holds the term that it stood for.
pub open spec fn holds_terms(
    types: Types,
    m: Machine,
    register_file: Value,
    memory: Map<int, i64>,
) -> bool {
    let base = m.values[register_file];
    forall|register: Register|
        has_place(register) ==> memory[#[trigger] register_address(base, register)]
            == standing_term(types, m.memory, base, register)
}

/// Whether one machine made one more call than the other, of this helper with these
/// words, while every register held the term that it stood for.
pub open spec fn asked(
    types: Types,
    register_file: Value,
    m: Machine,
    helper: Helper,
    args: Seq<i64>,
    n: Machine,
) -> bool {
    &&& n.answers == m.answers
    &&& n.slots == m.slots
    &&& n.calls.len() == m.calls.len() + 1
    &&& n.calls.drop_last() == m.calls
    &&& n.calls.last().helper == helper
    &&& n.calls.last().args == args
    &&& holds_terms(types, m, register_file, n.calls.last().memory)
}

/// A machine when every register holds the term that it stands for.
pub open spec fn ready(b: LoweringView, register_file: Value, m: Machine) -> Machine {
    does(
        materialize_all_ir(b, register_file),
        b.ops.len() as int,
        Flow::Running(m),
    )->Running_0
}

pub proof fn lemma_ready(b: LoweringView, register_file: Value, m: Machine)
    requires
        b.ops.len() + 3 * b.types.len() + 2000 <= usize::MAX,
        register_file < b.ops.len(),
        have_places(b.types),
        all_fit(b.types, m.memory, m.values[register_file]),
    ensures
        ({
            let after = materialize_all_ir(b, register_file);
            let k = ready(b, register_file, m);
            &&& b.ops.len() <= after.ops.len() <= b.ops.len() + 3 * b.types.len()
            &&& after.types.len() == 0
            &&& does(after, b.ops.len() as int, Flow::Running(m)) == Flow::Running(k)
            &&& only_stored(m, k, b.ops.len() as int)
            &&& holds_terms(b.types, m, register_file, k.memory)
        }),
{
    law_nothing_is_known_after_all_are_materialized(b, register_file);
    law_materializing_all_stores_the_terms(b, register_file, m, Register::X(0));
    let k = ready(b, register_file, m);
    let base = m.values[register_file];
    assert forall|register: Register| has_place(register) implies k.memory[#[trigger] register_address(
        base,
        register,
    )] == standing_term(b.types, m.memory, base, register) by {
        law_materializing_all_stores_the_terms(b, register_file, m, register);
    }
}

pub proof fn lemma_ready_operand(
    b: LoweringView,
    register_file: Value,
    m: Machine,
    k: Machine,
    operand: OperandView,
)
    requires
        register_file < b.ops.len(),
        only_stored(m, k, b.ops.len() as int),
        holds_terms(b.types, m, register_file, k.memory),
        is_register_of(operand) ==> register_operand_of(operand) is Ok,
    ensures
        operand_value(k, register_file, operand) == standing_operand(
            b.types,
            m,
            register_file,
            operand,
        ),
{
    lemma_operand_has_place(operand);
    assert(k.values[register_file] == m.values[register_file]);
    if let Ok(register) = register_operand_of(operand) {
        let base = m.values[register_file];
        assert(k.memory[register_address(base, register)] == standing_term(
            b.types,
            m.memory,
            base,
            register,
        ));
    }
}

pub proof fn lemma_asked(
    b: LoweringView,
    register_file: Value,
    m: Machine,
    k: Machine,
    helper: Helper,
    args: Seq<i64>,
    n: Machine,
)
    requires
        only_stored(m, k, b.ops.len() as int),
        holds_terms(b.types, m, register_file, k.memory),
        n.calls == answered(k, helper, args).calls,
        n.answers == k.answers,
        n.slots == k.slots,
    ensures
        asked(b.types, register_file, m, helper, args, n),
{
    assert(n.calls.drop_last() =~= m.calls);
}

/// Whether an instruction sends or receives.
pub open spec fn is_message(instruction: InstructionView) -> bool {
    instruction is Send || instruction is LoopRec || instruction is LoopRecEnd || instruction
        is RemoveMessage || instruction is Wait || instruction is WaitTimeout || instruction
        is Timeout || instruction is RecvMarkerReserve || instruction is RecvMarkerBind
        || instruction is RecvMarkerClear || instruction is RecvMarkerUse
}

#[verifier::rlimit(40)]
#[verifier::spinoff_prover]
proof fn lemma_message_dispatched(
    b: LoweringView,
    context: FunctionContext,
    blocks: BlockMapView,
    metadata: MetadataView,
    index: usize,
    instructions: Seq<InstructionView>,
)
    requires
        is_message(instructions[index as int]),
    ensures
        match lower_message_instruction_ir(
            b,
            context,
            blocks,
            index,
            instructions[index as int],
            instructions,
        ) {
            Err(e) => lower_instruction_ir(b, context, blocks, metadata, index, instructions)
                == Err::<(bool, LoweringView), JitFault>(e),
            Ok((Some(ended), after)) => lower_instruction_ir(
                b,
                context,
                blocks,
                metadata,
                index,
                instructions,
            ) == Ok::<(bool, LoweringView), JitFault>((ended, after)),
            Ok((None, _)) => false,
        },
{
    reveal(lower_instruction_ir);
}

/// Removing a message makes the one call that takes the message that is looked at
/// out of the mailbox of the process, and touches nothing else.
#[verifier::rlimit(40)]
pub proof fn law_remove_message_accepts_the_message(
    b: LoweringView,
    context: FunctionContext,
    blocks: BlockMapView,
    metadata: MetadataView,
    index: usize,
    instructions: Seq<InstructionView>,
    m: Machine,
)
    requires
        is_set_up(b, context, blocks, m),
        instructions[index as int] is RemoveMessage,
    ensures
        lower_instruction_ir(b, context, blocks, metadata, index, instructions) matches Ok(
            (ended, after),
        ) && !ended && after.types.len() == 0 && (does(
            after,
            b.ops.len() as int,
            Flow::Running(m),
        ) matches Flow::Running(n) && asked(
            b.types,
            context.register_file,
            m,
            Helper::ReceiveAccept,
            seq![m.values[context.process]],
            n,
        ) && n.memory == next_answer(m).memory),
{
    lemma_message_dispatched(b, context, blocks, metadata, index, instructions);
    let file = context.register_file;
    let from = b.ops.len() as int;
    let start = Flow::Running(m);
    lemma_ready(b, file, m);
    let b0 = materialize_all_ir(b, file);
    let k = ready(b, file, m);
    let op = IrOp::Call { helper: Helper::ReceiveAccept, args: Args::One(context.process) };
    lemma_emit(b0, op, from, start);
    let after = translate_remove_message_ir(b0, message_context_of(context, blocks));
    assert(after == b0.emit(op).1);
    let n = does(after, from, start)->Running_0;
    let args = seq![m.values[context.process]];
    assert(k.values[context.process] == m.values[context.process]);
    lemma_asked(b, file, m, k, Helper::ReceiveAccept, args, n);
}

/// What follows a time that is up starts with the one call that tells the process
/// so.
#[verifier::rlimit(40)]
pub proof fn law_timeout_tells_the_process(
    b: LoweringView,
    context: FunctionContext,
    blocks: BlockMapView,
    metadata: MetadataView,
    index: usize,
    instructions: Seq<InstructionView>,
    m: Machine,
)
    requires
        is_set_up(b, context, blocks, m),
        instructions[index as int] is Timeout,
    ensures
        lower_instruction_ir(b, context, blocks, metadata, index, instructions) matches Ok(
            (ended, after),
        ) && !ended && after.types.len() == 0 && (does(
            after,
            b.ops.len() as int,
            Flow::Running(m),
        ) matches Flow::Running(n) && asked(
            b.types,
            context.register_file,
            m,
            Helper::ReceiveTimeout,
            seq![m.values[context.process]],
            n,
        ) && n.memory == next_answer(m).memory),
{
    lemma_message_dispatched(b, context, blocks, metadata, index, instructions);
    let file = context.register_file;
    let from = b.ops.len() as int;
    let start = Flow::Running(m);
    lemma_ready(b, file, m);
    let b0 = materialize_all_ir(b, file);
    let k = ready(b, file, m);
    let op = IrOp::Call { helper: Helper::ReceiveTimeout, args: Args::One(context.process) };
    lemma_emit(b0, op, from, start);
    let after = translate_timeout_ir(b0, message_context_of(context, blocks));
    assert(after == b0.emit(op).1);
    let n = does(after, from, start)->Running_0;
    let args = seq![m.values[context.process]];
    assert(k.values[context.process] == m.values[context.process]);
    lemma_asked(b, file, m, k, Helper::ReceiveTimeout, args, n);
}

/// A message that did not match is passed over: the process is asked to go on to
/// the next one, and the code goes back to look at it.
#[verifier::rlimit(40)]
pub proof fn law_loop_rec_end_goes_on_to_the_next_message(
    b: LoweringView,
    context: FunctionContext,
    blocks: BlockMapView,
    metadata: MetadataView,
    index: usize,
    instructions: Seq<InstructionView>,
    fail: OperandView,
    m: Machine,
)
    requires
        is_set_up(b, context, blocks, m),
        instructions[index as int] == (InstructionView::LoopRecEnd { fail }),
    ensures
        match operand_block_of(blocks, fail) {
            Err(e) => lower_instruction_ir(b, context, blocks, metadata, index, instructions)
                == Err::<(bool, LoweringView), JitFault>(e),
            Ok(loop_label) => lower_instruction_ir(
                b,
                context,
                blocks,
                metadata,
                index,
                instructions,
            ) matches Ok((ended, after)) && ended && (does(
                after,
                b.ops.len() as int,
                Flow::Running(m),
            ) matches Flow::Left(block, n) && block == loop_label && asked(
                b.types,
                context.register_file,
                m,
                Helper::ReceiveNext,
                seq![m.values[context.process]],
                n,
            ) && n.memory == next_answer(m).memory),
        },
{
    lemma_message_dispatched(b, context, blocks, metadata, index, instructions);
    let file = context.register_file;
    let from = b.ops.len() as int;
    let start = Flow::Running(m);
    lemma_ready(b, file, m);
    if let Ok(loop_label) = operand_block_of(blocks, fail) {
        let b0 = materialize_all_ir(b, file);
        let k = ready(b, file, m);
        let op = IrOp::Call { helper: Helper::ReceiveNext, args: Args::One(context.process) };
        lemma_emit(b0, op, from, start);
        let b1 = b0.emit(op).1;
        lemma_emit(b1, IrOp::Jump { block: loop_label }, from, start);
        let after = translate_loop_rec_end_ir(b0, message_context_of(context, blocks), loop_label);
        assert(after == b1.emit(IrOp::Jump { block: loop_label }).1);
        let n = does(after, from, start)->Left_1;
        let args = seq![m.values[context.process]];
        assert(k.values[context.process] == m.values[context.process]);
        lemma_asked(b, file, m, k, Helper::ReceiveNext, args, n);
    }
}

/// Sending hands the process the terms of the first two registers, the receiver and
/// the message, and puts what it answers in the first.
#[verifier::rlimit(40)]
pub proof fn law_send_hands_over_the_first_registers(
    b: LoweringView,
    context: FunctionContext,
    blocks: BlockMapView,
    metadata: MetadataView,
    index: usize,
    instructions: Seq<InstructionView>,
    m: Machine,
)
    requires
        is_set_up(b, context, blocks, m),
        instructions[index as int] is Send,
        lower_instruction_ir(b, context, blocks, metadata, index, instructions) is Ok,
    ensures
        ({
            let (ended, after) = lower_instruction_ir(
                b,
                context,
                blocks,
                metadata,
                index,
                instructions,
            )->Ok_0;
            let base = m.values[context.register_file];
            !ended && after.types.len() == 0 && (does(
                after,
                b.ops.len() as int,
                Flow::Running(m),
            ) matches Flow::Running(n) && asked(
                b.types,
                context.register_file,
                m,
                Helper::SendMessage,
                seq![
                    m.values[context.process],
                    standing_term(b.types, m.memory, base, Register::X(0)),
                    standing_term(b.types, m.memory, base, Register::X(1)),
                ],
                n,
            ) && n.memory == next_answer(m).memory.insert(
                register_address(base, Register::X(0)),
                next_answer(m).first,
            ))
        }),
{
    lemma_message_dispatched(b, context, blocks, metadata, index, instructions);
    let file = context.register_file;
    let from = b.ops.len() as int;
    let start = Flow::Running(m);
    let x0 = OperandView::X(0);
    let x1 = OperandView::X(1);
    let b1 = LoweringView { maps: with_site(b.maps, index, seq![x0, x1])->Ok_0, ..b };
    lemma_ready(b1, file, m);
    let b0 = materialize_all_ir(b1, file);
    let k = ready(b1, file, m);
    let c = message_context_of(context, blocks);
    let sent = translate_send_ir(b0, c, x0, x1, x0)->Ok_0;
    law_send_asks_the_process(b0, c, x0, x1, x0, k);
    assert(goes_on(b0, sent));
    lemma_then(b0, sent, from, start);
    let after = clear_operand_ir(sent, x0);
    assert(after.ops == sent.ops);
    let n = does(after, from, start)->Running_0;
    assert(k.values[context.process] == m.values[context.process]);
    assert(k.values[file] == m.values[file]);
    lemma_ready_operand(b1, file, m, k, x0);
    lemma_ready_operand(b1, file, m, k, x1);
    let base = m.values[file];
    let args = seq![
        m.values[context.process],
        standing_term(b.types, m.memory, base, Register::X(0)),
        standing_term(b.types, m.memory, base, Register::X(1)),
    ];
    lemma_asked(b1, file, m, k, Helper::SendMessage, args, n);
    assert(sent.types == b0.types);
    assert(after.types.len() == 0);
}

/// Where receiving goes by what looking at a message answers: 0 and the message, 1
/// where there is none.
#[verifier::rlimit(40)]
pub proof fn law_loop_rec_looks_at_a_message(
    b: LoweringView,
    context: FunctionContext,
    blocks: BlockMapView,
    metadata: MetadataView,
    index: usize,
    instructions: Seq<InstructionView>,
    fail: OperandView,
    destination: OperandView,
    m: Machine,
)
    requires
        is_set_up(b, context, blocks, m),
        instructions[index as int] == (InstructionView::LoopRec { fail, destination }),
        lower_instruction_ir(b, context, blocks, metadata, index, instructions) is Ok,
        operand_block_of(blocks, fail) matches Ok(block) ==> block < b.ops.len(),
    ensures
        ({
            let (ended, after) = lower_instruction_ir(
                b,
                context,
                blocks,
                metadata,
                index,
                instructions,
            )->Ok_0;
            let base = m.values[context.register_file];
            let answer = next_answer(m);
            let end = does(after, b.ops.len() as int, Flow::Running(m));
            &&& !ended
            &&& after.types.len() == 0
            &&& operand_block_of(blocks, fail) is Ok
            &&& register_operand_of(destination) is Ok
            &&& match end {
                Flow::Running(n) => answer.first == 0 && n.memory == answer.memory.insert(
                    register_address(base, register_operand_of(destination)->Ok_0),
                    answer.second,
                ),
                Flow::Left(block, n) => answer.first != 0 && n.memory == answer.memory && block
                    == if answer.first == 1 {
                    operand_block_of(blocks, fail)->Ok_0
                } else {
                    blocks.deopt
                },
                _ => false,
            }
            &&& asked(
                b.types,
                context.register_file,
                m,
                Helper::ReceivePeek,
                seq![m.values[context.process]],
                match end {
                    Flow::Running(n) => n,
                    _ => end->Left_1,
                },
            )
        }),
{
    lemma_message_dispatched(b, context, blocks, metadata, index, instructions);
    let file = context.register_file;
    let from = b.ops.len() as int;
    let start = Flow::Running(m);
    lemma_ready(b, file, m);
    let b0 = materialize_all_ir(b, file);
    let k = ready(b, file, m);
    let c = message_context_of(context, blocks);
    let label = operand_block_of(blocks, fail)->Ok_0;
    let looked = translate_loop_rec_ir(b0, c, label, destination)->Ok_0;
    law_receive_looks_at_a_message(b0, c, label, destination, k);
    assert(goes_on(b0, looked));
    lemma_then(b0, looked, from, start);
    let after = clear_operand_ir(looked, destination);
    assert(after.ops == looked.ops);
    let end = does(after, from, start);
    let n = match end {
        Flow::Running(n) => n,
        _ => end->Left_1,
    };
    assert(k.values[context.process] == m.values[context.process]);
    assert(k.values[file] == m.values[file]);
    let args = seq![m.values[context.process]];
    lemma_asked(b, file, m, k, Helper::ReceivePeek, args, n);
    assert(looked.types == b0.types);
    assert(after.types.len() == 0);
}

/// Whether a wait was asked for and ended rightly: the process was told to wait while
/// every register held its term, a reduction was charged, and the code yields when
/// there are no more of them or no message has come, which the wait answers by 2; it
/// goes to look again when a message has come, which is 0, and where the time is up,
/// if it may be, on 1; on anything else the interpreter takes over.
pub open spec fn has_waited(
    b: LoweringView,
    context: FunctionContext,
    blocks: BlockMapView,
    helper: Helper,
    args: Seq<i64>,
    loop_label: Block,
    timeout_label: Option<Block>,
    m: Machine,
    end: Flow,
) -> bool {
    let status = m.answers[m.calls.len() as int].first;
    let exhausted = m.answers[m.calls.len() as int + 1].first;
    end matches Flow::Left(block, n) && n.calls.len() == m.calls.len() + 2 && n.answers == m.answers
        && n.calls.take(m.calls.len() as int) == m.calls && n.calls[m.calls.len() as int].helper
        == helper && n.calls[m.calls.len() as int].args == args && holds_terms(
        b.types,
        m,
        context.register_file,
        n.calls[m.calls.len() as int].memory,
    ) && n.calls[m.calls.len() as int + 1].helper is ChargeReduction && n.calls[m.calls.len() as int
        + 1].args == seq![m.values[context.process]] && n.memory == m.answers[m.calls.len() as int
        + 1].memory && block == if exhausted != 0 {
        blocks.yield_block
    } else if status == 0 {
        loop_label
    } else if status == 1 && timeout_label is Some {
        timeout_label->Some_0
    } else if status == 2 {
        blocks.yield_block
    } else {
        blocks.deopt
    }
}

proof fn lemma_has_waited(
    b: LoweringView,
    context: FunctionContext,
    blocks: BlockMapView,
    helper: Helper,
    args: Seq<i64>,
    loop_label: Block,
    timeout_label: Option<Block>,
    m: Machine,
    k: Machine,
    end: Flow,
)
    requires
        context.process < b.ops.len(),
        only_stored(m, k, b.ops.len() as int),
        holds_terms(b.types, m, context.register_file, k.memory),
        waited(
            message_context_of(context, blocks),
            loop_label,
            timeout_label,
            next_answer(k).first,
            answered(k, helper, args),
            end,
        ),
    ensures
        has_waited(b, context, blocks, helper, args, loop_label, timeout_label, m, end),
{
    let n = end->Left_1;
    assert(k.values[context.process] == m.values[context.process]);
    assert(n.calls.take(m.calls.len() as int) =~= m.calls);
}

/// Waiting tells the process to wait, and goes back to the loop over the messages
/// when one has come.
#[verifier::rlimit(40)]
pub proof fn law_wait_waits(
    b: LoweringView,
    context: FunctionContext,
    blocks: BlockMapView,
    metadata: MetadataView,
    index: usize,
    instructions: Seq<InstructionView>,
    fail: OperandView,
    m: Machine,
)
    requires
        is_set_up(b, context, blocks, m),
        instructions[index as int] == (InstructionView::Wait { fail }),
        operand_block_of(blocks, fail) matches Ok(block) ==> block < b.ops.len(),
    ensures
        match operand_block_of(blocks, fail) {
            Err(e) => lower_instruction_ir(b, context, blocks, metadata, index, instructions)
                == Err::<(bool, LoweringView), JitFault>(e),
            Ok(loop_label) => lower_instruction_ir(
                b,
                context,
                blocks,
                metadata,
                index,
                instructions,
            ) matches Ok((ended, after)) && ended && has_waited(
                b,
                context,
                blocks,
                Helper::ReceiveWait,
                seq![m.values[context.process]],
                loop_label,
                None,
                m,
                does(after, b.ops.len() as int, Flow::Running(m)),
            ),
        },
{
    lemma_message_dispatched(b, context, blocks, metadata, index, instructions);
    let file = context.register_file;
    let from = b.ops.len() as int;
    let start = Flow::Running(m);
    lemma_ready(b, file, m);
    if let Ok(label) = operand_block_of(blocks, fail) {
        let b0 = materialize_all_ir(b, file);
        let k = ready(b, file, m);
        let c = message_context_of(context, blocks);
        let after = translate_wait_ir(b0, c, label);
        law_wait_follows_the_status(b0, c, label, k);
        assert(goes_on(b0, after));
        lemma_then(b0, after, from, start);
        assert(k.values[context.process] == m.values[context.process]);
        let args = seq![m.values[context.process]];
        let end = does(after, from, start);
        lemma_has_waited(
            b,
            context,
            blocks,
            Helper::ReceiveWait,
            args,
            label,
            None,
            m,
            k,
            end,
        );
    }
}

/// Waiting for no longer than a term says hands that term to the process. A message
/// leads back to where the messages were last looked at, and a time that is up to
/// the label of the instruction.
#[verifier::rlimit(40)]
pub proof fn law_wait_timeout_waits(
    b: LoweringView,
    context: FunctionContext,
    blocks: BlockMapView,
    metadata: MetadataView,
    index: usize,
    instructions: Seq<InstructionView>,
    fail: OperandView,
    timeout: OperandView,
    m: Machine,
)
    requires
        is_set_up(b, context, blocks, m),
        instructions[index as int] == (InstructionView::WaitTimeout { fail, timeout }),
        lower_instruction_ir(b, context, blocks, metadata, index, instructions) is Ok,
        operand_block_of(blocks, fail) matches Ok(block) ==> block < b.ops.len(),
        blocks.block_for_instruction(loop_start_of(instructions, index)) < b.ops.len(),
    ensures
        ({
            let (ended, after) = lower_instruction_ir(
                b,
                context,
                blocks,
                metadata,
                index,
                instructions,
            )->Ok_0;
            ended && operand_block_of(blocks, fail) is Ok && has_waited(
                b,
                context,
                blocks,
                Helper::ReceiveWaitTimeout,
                seq![
                    m.values[context.process],
                    standing_operand(b.types, m, context.register_file, timeout),
                ],
                blocks.block_for_instruction(loop_start_of(instructions, index)),
                Some(operand_block_of(blocks, fail)->Ok_0),
                m,
                does(after, b.ops.len() as int, Flow::Running(m)),
            )
        }),
{
    lemma_message_dispatched(b, context, blocks, metadata, index, instructions);
    let file = context.register_file;
    let from = b.ops.len() as int;
    let start = Flow::Running(m);
    lemma_ready(b, file, m);
    let label = operand_block_of(blocks, fail)->Ok_0;
    let loop_label = blocks.block_for_instruction(loop_start_of(instructions, index));
    let b0 = materialize_all_ir(b, file);
    let k = ready(b, file, m);
    let c = message_context_of(context, blocks);
    let after = translate_wait_timeout_ir(b0, c, timeout, label, loop_label)->Ok_0;
    law_timed_wait_follows_the_status(b0, c, timeout, label, loop_label, k);
    assert(goes_on(b0, after));
    lemma_then(b0, after, from, start);
    assert(k.values[context.process] == m.values[context.process]);
    lemma_ready_operand(b, file, m, k, timeout);
    let args = seq![m.values[context.process], standing_operand(b.types, m, file, timeout)];
    let end = does(after, from, start);
    lemma_has_waited(
        b,
        context,
        blocks,
        Helper::ReceiveWaitTimeout,
        args,
        loop_label,
        Some(label),
        m,
        k,
        end,
    );
}

/// The loop over messages that an instruction belongs to starts where a message is
/// looked at, with no other such place between; it starts at the instruction itself
/// where there is none before it.
pub proof fn law_loop_starts_where_a_message_is_looked_at(
    instructions: Seq<InstructionView>,
    index: usize,
)
    requires
        index <= instructions.len(),
    ensures
        ({
            let at = loop_start_of(instructions, index);
            &&& at <= index
            &&& at < index ==> instructions[at as int] is LoopRec
            &&& forall|i: int| at < i < index ==> !(#[trigger] instructions[i] is LoopRec)
            &&& at == index ==> forall|i: int|
                0 <= i < index ==> !(#[trigger] instructions[i] is LoopRec)
        }),
{
    lemma_last_loop_rec(instructions, index as nat, index);
}

proof fn lemma_last_loop_rec(instructions: Seq<InstructionView>, n: nat, default: usize)
    requires
        n <= default <= instructions.len(),
    ensures
        ({
            let at = last_loop_rec(instructions, n, default);
            &&& at < n || at == default
            &&& at < n ==> instructions[at as int] is LoopRec
            &&& forall|i: int|
                0 <= i < n && (at < i || at == default) ==> !(#[trigger] instructions[i] is LoopRec)
        }),
    decreases n,
{
    if n > 0 && !(instructions[n - 1] is LoopRec) {
        lemma_last_loop_rec(instructions, (n - 1) as nat, default);
    }
}

/// Marks of messages are left to the interpreter: the code returns 2 at once, and
/// asks nothing.
#[verifier::rlimit(40)]
pub proof fn law_message_marks_are_left_to_the_interpreter(
    b: LoweringView,
    context: FunctionContext,
    blocks: BlockMapView,
    metadata: MetadataView,
    index: usize,
    instructions: Seq<InstructionView>,
    m: Machine,
)
    requires
        b.ops.len() + 1000 <= usize::MAX,
        instructions[index as int] is RecvMarkerReserve || instructions[index as int]
            is RecvMarkerBind || instructions[index as int] is RecvMarkerClear
            || instructions[index as int] is RecvMarkerUse,
    ensures
        lower_instruction_ir(b, context, blocks, metadata, index, instructions) matches Ok(
            (ended, after),
        ) && ended && (does(after, b.ops.len() as int, Flow::Running(m)) matches Flow::Returned(
            status,
            _,
            n,
        ) && status == Some(2i64) && same_effects(n, m)),
{
    lemma_message_dispatched(b, context, blocks, metadata, index, instructions);
    let from = b.ops.len() as int;
    let start = Flow::Running(m);
    let op = IrOp::Iconst { ty: IrType::I64, value: JIT_DEOPT_SENTINEL };
    lemma_emit(b, op, from, start);
    let (value, b1) = b.emit(op);
    lemma_return_status(b1, JIT_STATUS_DEOPT, value, from, start);
}

} // verus!

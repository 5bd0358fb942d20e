//! Laws of calls out of compiled code: what is called, and where the code goes by
//! what comes back.

use vstd::prelude::*;
use crate::loader::decode::compact::OperandView;
use crate::loader::decode::instruction::InstructionView;
use super::common::{write_operand_term_ir, write_register_term_ir};
use super::control::BlockMapView;
use super::dispatch_call::{
    branch_to_status_blocks_ir, handle_helper_return_ir, immediate_u8_of, import_index_of,
    lower_call_ext_ir,
};
use super::dispatch_core::{lower_core_instruction_ir, FunctionContext};
use super::exceptions::{
    call_unary_ir, current_frame_of, dispatch_exception_status_ir, pop_try_ir, return_status_ir,
    CompiledFrameInfo, JIT_STATUS_DEOPT, JIT_STATUS_EXCEPTION, JIT_STATUS_NORMAL,
    JIT_STATUS_YIELD,
};
use super::helper::{Helper, IrType};
use super::ir::{Args, Block, IntCc, IrOp, LoweringView, TryCatchFrame, Value};
use super::meaning::{
    answered, arguments, does, keeps, lemma_emit, lemma_switch, next_answer, only_made_values,
    register_address, Flow, Machine,
};
use super::meaning_core::{has_room, lemma_write};
use super::meaning_move::has_place;
use super::meaning_standing::{all_fit, have_places, law_materializing_all_stores_the_terms};
use super::meaning_typed::standing_term;
use super::message::charge_reduction_or_yield_ir;
use super::register::{law_registers_are_apart, register_offset_of, Register};
use super::typed::materialize_all_ir;

verus! {

proof fn lemma_status_blocks(
    b: LoweringView,
    status: Value,
    deopt: Block,
    yield_block: Block,
    continuation: Block,
    from: int,
    start: Flow,
)
    requires
        b.ops.len() + 7 <= usize::MAX,
        0 <= from <= b.ops.len(),
        status < b.ops.len(),
        deopt < b.ops.len(),
        yield_block < b.ops.len(),
        continuation < b.ops.len(),
        deopt != continuation,
        yield_block != continuation,
        does(b, from, start) is Running,
    ensures
        ({
            let after = branch_to_status_blocks_ir(b, status, deopt, yield_block, continuation);
            let m = does(b, from, start)->Running_0;
            let end = does(after, from, start);
            &&& after.ops.len() == b.ops.len() + 7
            &&& after.tries == b.tries
            &&& if m.values[status] == JIT_STATUS_DEOPT {
                end matches Flow::Left(block, n) && block == deopt && only_made_values(
                    m,
                    n,
                    b.ops.len() as int,
                )
            } else if m.values[status] == JIT_STATUS_YIELD {
                end matches Flow::Left(block, n) && block == yield_block && only_made_values(
                    m,
                    n,
                    b.ops.len() as int,
                )
            } else {
                end matches Flow::Running(n) && only_made_values(m, n, b.ops.len() as int)
            }
        }),
{
    let op1 = IrOp::CompareImm {
        cc: IntCc::Equal,
        left: status,
        imm: JIT_STATUS_DEOPT as i64,
    };
    lemma_emit(b, op1, from, start);
    let (is_deopt, b1) = b.emit(op1);
    lemma_emit(b1, IrOp::Block, from, start);
    let (check_yield, b2) = b1.create_block();
    let op3 = IrOp::Brif { condition: is_deopt, then_block: deopt, else_block: check_yield };
    lemma_emit(b2, op3, from, start);
    let b3 = b2.emit(op3).1;
    lemma_switch(b3, check_yield, from, start);
    let b4 = b3.switch(check_yield);
    let op5 = IrOp::CompareImm {
        cc: IntCc::Equal,
        left: status,
        imm: JIT_STATUS_YIELD as i64,
    };
    lemma_emit(b4, op5, from, start);
    let (is_yield, b5) = b4.emit(op5);
    let op6 = IrOp::Brif {
        condition: is_yield,
        then_block: yield_block,
        else_block: continuation,
    };
    lemma_emit(b5, op6, from, start);
    let b6 = b5.emit(op6).1;
    lemma_switch(b6, continuation, from, start);
}

/// The calls that hand an exception to an open `try`, from the memory and the
/// machine when it was raised: the process is asked for its class, its reason and
/// its trace, these are stored in the registers of the `try`, and the process is
/// told to forget it.
pub open spec fn caught(
    frame: TryCatchFrame,
    process: i64,
    base: i64,
    m: Machine,
) -> Machine {
    let class = answered(m, Helper::ExceptionClass, seq![process]);
    let reason = answered(class, Helper::ExceptionReason, seq![process]);
    let trace = answered(reason, Helper::ExceptionTrace, seq![process]);
    let stored = Machine {
        memory: trace.memory.insert(
            register_address(base, frame.class_register),
            next_answer(m).first,
        ).insert(
            register_address(base, frame.reason_register),
            next_answer(class).first,
        ).insert(register_address(base, frame.trace_register), next_answer(reason).first),
        ..trace
    };
    answered(stored, Helper::ClearException, seq![process])
}

/// Whether two machines have the same memory and made the same calls.
pub open spec fn same_effects(left: Machine, right: Machine) -> bool {
    &&& left.memory == right.memory
    &&& left.calls == right.calls
    &&& left.answers == right.answers
    &&& left.slots == right.slots
}

proof fn lemma_call_unary(b: LoweringView, helper: Helper, process: Value, from: int, start: Flow)
    requires
        b.ops.len() + 2 <= usize::MAX,
        0 <= from <= b.ops.len(),
        process < b.ops.len(),
    ensures
        ({
            let (value, after) = call_unary_ir(b, helper, process);
            &&& value == b.ops.len() + 1
            &&& after.ops.len() == b.ops.len() + 2
            &&& match does(b, from, start) {
                Flow::Running(m) => does(after, from, start) matches Flow::Running(n)
                    && same_effects(n, answered(m, helper, seq![m.values[process]]))
                    && n.values[value] == next_answer(m).first && forall|v: Value|
                    v < b.ops.len() ==> #[trigger] n.values[v] == m.values[v],
                other => does(after, from, start) == other,
            }
        }),
{
    let op1 = IrOp::Call { helper, args: Args::One(process) };
    lemma_emit(b, op1, from, start);
    let (call, b1) = b.emit(op1);
    lemma_emit(b1, IrOp::Result { of: call, index: 0 }, from, start);
}

/// Where the parts of an exception are stored.
spec fn store_parts_ir(
    b: LoweringView,
    frame: TryCatchFrame,
    process: Value,
    register_file: Value,
) -> LoweringView {
    let (class, b) = call_unary_ir(b, Helper::ExceptionClass, process);
    let (reason, b) = call_unary_ir(b, Helper::ExceptionReason, process);
    let (trace, b) = call_unary_ir(b, Helper::ExceptionTrace, process);
    let b = write_register_term_ir(b, register_file, frame.class_register, class);
    let b = write_register_term_ir(b, register_file, frame.reason_register, reason);
    let b = write_register_term_ir(b, register_file, frame.trace_register, trace);
    b.emit(IrOp::Call { helper: Helper::ClearException, args: Args::One(process) }).1
}

proof fn lemma_store_register(
    b: LoweringView,
    register_file: Value,
    register: Register,
    value: Value,
    from: int,
    start: Flow,
)
    requires
        b.ops.len() < usize::MAX,
        0 <= from <= b.ops.len(),
    ensures
        ({
            let after = write_register_term_ir(b, register_file, register, value);
            &&& after.ops.len() == b.ops.len() + 1
            &&& match does(b, from, start) {
                Flow::Running(m) => does(after, from, start) == Flow::Running(
                    m.stored(
                        register_address(m.values[register_file], register),
                        m.values[value],
                    ),
                ),
                other => does(after, from, start) == other,
            }
        }),
{
    let offset = register_offset_of(register);
    lemma_emit(b, IrOp::Store { value, base: register_file, offset }, from, start);
}

proof fn lemma_store_parts(
    b: LoweringView,
    frame: TryCatchFrame,
    process: Value,
    register_file: Value,
    from: int,
    start: Flow,
)
    requires
        b.ops.len() + 20 <= usize::MAX,
        0 <= from <= b.ops.len(),
        process < b.ops.len(),
        register_file < b.ops.len(),
    ensures
        ({
            let after = store_parts_ir(b, frame, process, register_file);
            &&& after.ops.len() == b.ops.len() + 10
            &&& match does(b, from, start) {
                Flow::Running(m) => does(after, from, start) matches Flow::Running(n)
                    && same_effects(
                    n,
                    caught(frame, m.values[process], m.values[register_file], m),
                ),
                other => does(after, from, start) == other,
            }
        }),
{
    lemma_call_unary(b, Helper::ExceptionClass, process, from, start);
    let (class, b1) = call_unary_ir(b, Helper::ExceptionClass, process);
    lemma_call_unary(b1, Helper::ExceptionReason, process, from, start);
    let (reason, b2) = call_unary_ir(b1, Helper::ExceptionReason, process);
    lemma_call_unary(b2, Helper::ExceptionTrace, process, from, start);
    let (trace, b3) = call_unary_ir(b2, Helper::ExceptionTrace, process);
    lemma_store_register(b3, register_file, frame.class_register, class, from, start);
    let b4 = write_register_term_ir(b3, register_file, frame.class_register, class);
    lemma_store_register(b4, register_file, frame.reason_register, reason, from, start);
    let b5 = write_register_term_ir(b4, register_file, frame.reason_register, reason);
    lemma_store_register(b5, register_file, frame.trace_register, trace, from, start);
    let b6 = write_register_term_ir(b5, register_file, frame.trace_register, trace);
    lemma_emit(
        b6,
        IrOp::Call { helper: Helper::ClearException, args: Args::One(process) },
        from,
        start,
    );
}

pub proof fn lemma_return_status(b: LoweringView, status: u8, value: Value, from: int, start: Flow)
    requires
        b.ops.len() + 2 <= usize::MAX,
        0 <= from <= b.ops.len(),
        value < b.ops.len(),
    ensures
        ({
            let after = return_status_ir(b, status, value);
            &&& after.ops.len() == b.ops.len() + 2
            &&& match does(b, from, start) {
                Flow::Running(m) => does(after, from, start) matches Flow::Returned(s, v, n) && s
                    == Some(status as i64) && v == m.values[value] && same_effects(n, m),
                other => does(after, from, start) == other,
            }
        }),
{
    let op1 = IrOp::Iconst { ty: IrType::I8, value: status as i64 };
    lemma_emit(b, op1, from, start);
    let (status_value, b1) = b.emit(op1);
    lemma_emit(b1, IrOp::ReturnStatus { status: status_value, value }, from, start);
}

/// Adding a frame to a stack trace and returning the exception.
spec fn raise_ir(
    b: LoweringView,
    compiled_frame: CompiledFrameInfo,
    process: Value,
    value: Value,
) -> LoweringView {
    let (module, b) = b.emit(
        IrOp::Iconst { ty: IrType::I64, value: compiled_frame.module.0 as i64 },
    );
    let (function, b) = b.emit(
        IrOp::Iconst { ty: IrType::I64, value: compiled_frame.function.0 as i64 },
    );
    let (arity, b) = b.emit(
        IrOp::Iconst { ty: IrType::I64, value: compiled_frame.arity as i64 },
    );
    let b = b.emit(
        IrOp::Call {
            helper: Helper::AddCompiledFrame,
            args: Args::Four(process, module, function, arity),
        },
    ).1;
    return_status_ir(b, JIT_STATUS_EXCEPTION, value)
}

/// A machine after the frame of a function was added to the stack trace.
pub open spec fn traced(compiled_frame: CompiledFrameInfo, process: i64, m: Machine) -> Machine {
    answered(
        m,
        Helper::AddCompiledFrame,
        seq![
            process,
            compiled_frame.module.0 as i64,
            compiled_frame.function.0 as i64,
            compiled_frame.arity as i64,
        ],
    )
}

proof fn lemma_raise(
    b: LoweringView,
    compiled_frame: CompiledFrameInfo,
    process: Value,
    value: Value,
    from: int,
    start: Flow,
)
    requires
        b.ops.len() + 20 <= usize::MAX,
        0 <= from <= b.ops.len(),
        process < b.ops.len(),
        value < b.ops.len(),
    ensures
        ({
            let after = raise_ir(b, compiled_frame, process, value);
            &&& after.ops.len() == b.ops.len() + 6
            &&& match does(b, from, start) {
                Flow::Running(m) => does(after, from, start) matches Flow::Returned(s, v, n) && s
                    == Some(JIT_STATUS_EXCEPTION as i64) && v == m.values[value] && same_effects(
                    n,
                    traced(compiled_frame, m.values[process], m),
                ),
                other => does(after, from, start) == other,
            }
        }),
{
    let op1 = IrOp::Iconst { ty: IrType::I64, value: compiled_frame.module.0 as i64 };
    lemma_emit(b, op1, from, start);
    let (module, b1) = b.emit(op1);
    let op2 = IrOp::Iconst { ty: IrType::I64, value: compiled_frame.function.0 as i64 };
    lemma_emit(b1, op2, from, start);
    let (function, b2) = b1.emit(op2);
    let op3 = IrOp::Iconst { ty: IrType::I64, value: compiled_frame.arity as i64 };
    lemma_emit(b2, op3, from, start);
    let (arity, b3) = b2.emit(op3);
    let op4 = IrOp::Call {
        helper: Helper::AddCompiledFrame,
        args: Args::Four(process, module, function, arity),
    };
    lemma_emit(b3, op4, from, start);
    let b4 = b3.emit(op4).1;
    lemma_return_status(b4, JIT_STATUS_EXCEPTION, value, from, start);
}

/// Where an exception goes: to the open `try`, if there is one; otherwise it is
/// returned.
pub open spec fn exception_goes(
    frame: Option<TryCatchFrame>,
    compiled_frame: CompiledFrameInfo,
    process: i64,
    base: i64,
    value: i64,
    m: Machine,
    end: Flow,
) -> bool {
    match frame {
        Some(frame) => end matches Flow::Left(block, n) && block == frame.catch_block
            && same_effects(n, caught(frame, process, base, m)),
        None => end matches Flow::Returned(s, v, n) && s == Some(JIT_STATUS_EXCEPTION as i64) && v
            == value && same_effects(n, traced(compiled_frame, process, m)),
    }
}

proof fn lemma_exception(
    b: LoweringView,
    frame: Option<TryCatchFrame>,
    compiled_frame: CompiledFrameInfo,
    process: Value,
    register_file: Value,
    status: Value,
    value: Value,
    continuation: Block,
    from: int,
    start: Flow,
)
    requires
        b.ops.len() + 50 <= usize::MAX,
        0 <= from <= b.ops.len(),
        process < b.ops.len(),
        register_file < b.ops.len(),
        status < b.ops.len(),
        value < b.ops.len(),
        continuation < b.ops.len(),
        frame matches Some(frame) ==> frame.catch_block < b.ops.len() && frame.catch_block
            != continuation,
        does(b, from, start) matches Flow::Left(block, _) ==> block < b.ops.len() && block
            != continuation,
    ensures
        ({
            let after = dispatch_exception_status_ir(
                b,
                frame,
                compiled_frame,
                process,
                register_file,
                status,
                value,
                continuation,
            );
            let end = does(after, from, start);
            &&& b.ops.len() <= after.ops.len() <= b.ops.len() + 30
            &&& match does(b, from, start) {
                Flow::Running(m) => if m.values[status] == JIT_STATUS_EXCEPTION {
                    exception_goes(
                        frame,
                        compiled_frame,
                        m.values[process],
                        m.values[register_file],
                        m.values[value],
                        m,
                        end,
                    )
                } else {
                    end matches Flow::Running(n) && only_made_values(m, n, b.ops.len() as int)
                },
                other => end == other,
            }
        }),
{
    let op1 = IrOp::CompareImm {
        cc: IntCc::Equal,
        left: status,
        imm: JIT_STATUS_EXCEPTION as i64,
    };
    lemma_emit(b, op1, from, start);
    let (is_exception, b1) = b.emit(op1);
    lemma_emit(b1, IrOp::Block, from, start);
    let (exception_block, b2) = b1.create_block();
    let op3 = IrOp::Brif {
        condition: is_exception,
        then_block: exception_block,
        else_block: continuation,
    };
    lemma_emit(b2, op3, from, start);
    let b3 = b2.emit(op3).1;
    lemma_switch(b3, exception_block, from, start);
    let b4 = b3.switch(exception_block);
    match frame {
        Some(frame) => {
            lemma_store_parts(b4, frame, process, register_file, from, start);
            let b5 = store_parts_ir(b4, frame, process, register_file);
            let op6 = IrOp::Jump { block: frame.catch_block };
            lemma_emit(b5, op6, from, start);
            let b6 = b5.emit(op6).1;
            lemma_emit(b6, IrOp::Block, from, start);
            let (unreachable, b7) = b6.create_block();
            lemma_switch(b7, unreachable, from, start);
            let b8 = b7.switch(unreachable);
            lemma_switch(b8, continuation, from, start);
        },
        None => {
            lemma_raise(b4, compiled_frame, process, value, from, start);
            let b5 = raise_ir(b4, compiled_frame, process, value);
            lemma_switch(b5, continuation, from, start);
        },
    }
}

/// Where code goes when a call has returned a status and a value: to the
/// interpreter or to the scheduler if the status asks for it, to the innermost open
/// `try` or to the caller with an exception, and otherwise back to the caller, with
/// the value in the first register.
pub open spec fn settled(
    frame: Option<TryCatchFrame>,
    context: FunctionContext,
    blocks: BlockMapView,
    status: i64,
    value: i64,
    m: Machine,
    end: Flow,
) -> bool {
    let base = m.values[context.register_file];
    if status == JIT_STATUS_DEOPT {
        end matches Flow::Left(block, n) && block == blocks.deopt && same_effects(n, m)
    } else if status == JIT_STATUS_YIELD {
        end matches Flow::Left(block, n) && block == blocks.yield_block && same_effects(n, m)
    } else if status == JIT_STATUS_EXCEPTION {
        exception_goes(
            frame,
            context.frame,
            m.values[context.process],
            base,
            value,
            m,
            end,
        )
    } else {
        end matches Flow::Returned(s, v, n) && s == Some(JIT_STATUS_NORMAL as i64) && v == value
            && same_effects(n, m.stored(register_address(base, Register::X(0)), value))
    }
}

/// Compiled code goes where the status of a call says.
pub proof fn law_status_of_a_call_is_followed(
    b: LoweringView,
    context: FunctionContext,
    blocks: BlockMapView,
    status: Value,
    returned: Value,
    m: Machine,
    from: int,
    start: Flow,
)
    requires
        b.ops.len() + 100 <= usize::MAX,
        0 <= from <= b.ops.len(),
        context.register_file < b.ops.len(),
        context.process < b.ops.len(),
        blocks.deopt < b.ops.len(),
        blocks.yield_block < b.ops.len(),
        status < b.ops.len(),
        returned < b.ops.len(),
        current_frame_of(b) matches Some(frame) ==> frame.catch_block < b.ops.len(),
        does(b, from, start) == Flow::Running(m),
    ensures
        handle_helper_return_ir(b, context, blocks, status, returned) matches Ok(after) && settled(
            current_frame_of(b),
            context,
            blocks,
            m.values[status],
            m.values[returned],
            m,
            does(after, from, start),
        ),
{
    lemma_emit(b, IrOp::Block, from, start);
    let (status_continuation, b1) = b.create_block();
    lemma_status_blocks(
        b1,
        status,
        blocks.deopt,
        blocks.yield_block,
        status_continuation,
        from,
        start,
    );
    let b2 = branch_to_status_blocks_ir(
        b1,
        status,
        blocks.deopt,
        blocks.yield_block,
        status_continuation,
    );
    lemma_emit(b2, IrOp::Block, from, start);
    let (normal_continuation, b3) = b2.create_block();
    let frame = current_frame_of(b3);
    assert(frame == current_frame_of(b));
    lemma_exception(
        b3,
        frame,
        context.frame,
        context.process,
        context.register_file,
        status,
        returned,
        normal_continuation,
        from,
        start,
    );
    let b4 = dispatch_exception_status_ir(
        b3,
        frame,
        context.frame,
        context.process,
        context.register_file,
        status,
        returned,
        normal_continuation,
    );
    lemma_write(b4, context.register_file, OperandView::X(0), returned, from, start);
    let b5 = write_operand_term_ir(
        b4,
        context.register_file,
        OperandView::X(0),
        returned,
    )->Ok_0;
    lemma_return_status(b5, JIT_STATUS_NORMAL, returned, from, start);
}

/// An external call hands the interpreter the process, the module, the import, the
/// arity and the registers, in which every register holds the term that it stood
/// for; the code then goes where the status of the call says.
pub proof fn law_external_call(
    b: LoweringView,
    context: FunctionContext,
    blocks: BlockMapView,
    arity: OperandView,
    import: OperandView,
    m: Machine,
    register: Register,
)
    requires
        b.ops.len() + 3 * b.types.len() + 1000 <= usize::MAX,
        context.register_file < b.ops.len(),
        context.process < b.ops.len(),
        blocks.deopt < b.ops.len(),
        blocks.yield_block < b.ops.len(),
        current_frame_of(b) matches Some(frame) ==> frame.catch_block < b.ops.len(),
        have_places(b.types),
        has_place(register),
        all_fit(b.types, m.memory, m.values[context.register_file]),
        lower_call_ext_ir(b, context, blocks, arity, import) is Ok,
    ensures
        ({
            let from = b.ops.len() as int;
            let base = m.values[context.register_file];
            let ready = does(
                materialize_all_ir(b, context.register_file),
                from,
                Flow::Running(m),
            );
            let after = lower_call_ext_ir(b, context, blocks, arity, import)->Ok_0;
            ready matches Flow::Running(k) && k.calls == m.calls && k.answers == m.answers
                && k.memory[register_address(base, register)] == standing_term(
                b.types,
                m.memory,
                base,
                register,
            ) && settled(
                current_frame_of(b),
                context,
                blocks,
                next_answer(m).first,
                next_answer(m).second,
                answered(
                    k,
                    Helper::CallInterpreted,
                    seq![
                        m.values[context.process],
                        context.frame.module.0 as i64,
                        import_index_of(import)->Ok_0 as i64,
                        immediate_u8_of(arity, "external call arity"@)->Ok_0 as i64,
                        base,
                    ],
                ),
                does(after, from, Flow::Running(m)),
            )
        }),
{
    let from = b.ops.len() as int;
    let start = Flow::Running(m);
    law_materializing_all_stores_the_terms(b, context.register_file, m, register);
    let b0 = materialize_all_ir(b, context.register_file);
    let k = does(b0, from, start)->Running_0;
    let op1 = IrOp::Iconst { ty: IrType::I64, value: context.frame.module.0 as i64 };
    lemma_emit(b0, op1, from, start);
    let (module_value, b1) = b0.emit(op1);
    let op2 = IrOp::Iconst { ty: IrType::I64, value: import_index_of(import)->Ok_0 as i64 };
    lemma_emit(b1, op2, from, start);
    let (import_value, b2) = b1.emit(op2);
    let call_arity = immediate_u8_of(arity, "external call arity"@)->Ok_0;
    let op3 = IrOp::Iconst { ty: IrType::I64, value: call_arity as i64 };
    lemma_emit(b2, op3, from, start);
    let (arity_value, b3) = b2.emit(op3);
    let op4 = IrOp::Call {
        helper: Helper::CallInterpreted,
        args: Args::Five(
            context.process,
            module_value,
            import_value,
            arity_value,
            context.register_file,
        ),
    };
    lemma_emit(b3, op4, from, start);
    let (call, b4) = b3.emit(op4);
    let op5 = IrOp::Result { of: call, index: 0 };
    lemma_emit(b4, op5, from, start);
    let (status, b5) = b4.emit(op5);
    let op6 = IrOp::Result { of: call, index: 1 };
    lemma_emit(b5, op6, from, start);
    let (returned, b6) = b5.emit(op6);
    let n = does(b6, from, start)->Running_0;
    assert(current_frame_of(b6) == current_frame_of(b));
    law_status_of_a_call_is_followed(b6, context, blocks, status, returned, n, from, start);
    let called = answered(
        k,
        Helper::CallInterpreted,
        seq![
            m.values[context.process],
            context.frame.module.0 as i64,
            import_index_of(import)->Ok_0 as i64,
            call_arity as i64,
            m.values[context.register_file],
        ],
    );
    assert(n.calls =~= called.calls);
    lemma_settled(
        current_frame_of(b),
        context,
        blocks,
        n.values[status],
        n.values[returned],
        n,
        called,
        does(lower_call_ext_ir(b, context, blocks, arity, import)->Ok_0, from, start),
    );
}

pub proof fn lemma_settled(
    frame: Option<TryCatchFrame>,
    context: FunctionContext,
    blocks: BlockMapView,
    status: i64,
    value: i64,
    m: Machine,
    other: Machine,
    end: Flow,
)
    requires
        same_effects(m, other),
        m.values[context.register_file] == other.values[context.register_file],
        m.values[context.process] == other.values[context.process],
        settled(frame, context, blocks, status, value, m, end),
    ensures
        settled(frame, context, blocks, status, value, other, end),
{
}

/// Whether a local call has used up the reductions of the process: it yields then,
/// and goes to its target otherwise.
pub proof fn law_local_call(
    b: LoweringView,
    process: Value,
    yield_block: Block,
    target: Block,
    m: Machine,
)
    requires
        has_room(b),
        process < b.ops.len(),
        yield_block < b.ops.len(),
        target < b.ops.len(),
    ensures
        ({
            let after = charge_reduction_or_yield_ir(b, process, yield_block).emit(
                IrOp::Jump { block: target },
            ).1;
            does(after, b.ops.len() as int, Flow::Running(m)) matches Flow::Left(block, n)
                && same_effects(n, answered(m, Helper::ChargeReduction, seq![m.values[process]]))
                && keeps(m, n, b.ops.len() as int) && block == if next_answer(m).first != 0 {
                yield_block
            } else {
                target
            }
        }),
{
    let from = b.ops.len() as int;
    let start = Flow::Running(m);
    lemma_charge(b, process, yield_block, from, start);
    let b1 = charge_reduction_or_yield_ir(b, process, yield_block);
    lemma_emit(b1, IrOp::Jump { block: target }, from, start);
}

pub proof fn lemma_charge(b: LoweringView, process: Value, yield_block: Block, from: int, start: Flow)
    requires
        b.ops.len() + 6 <= usize::MAX,
        0 <= from <= b.ops.len(),
        process < b.ops.len(),
        yield_block < b.ops.len(),
        does(b, from, start) is Running,
    ensures
        ({
            let after = charge_reduction_or_yield_ir(b, process, yield_block);
            let m = does(b, from, start)->Running_0;
            let k = answered(m, Helper::ChargeReduction, seq![m.values[process]]);
            let end = does(after, from, start);
            &&& after.ops.len() == b.ops.len() + 6
            &&& if next_answer(m).first != 0 {
                end matches Flow::Left(block, n) && block == yield_block && same_effects(n, k)
                    && keeps(m, n, b.ops.len() as int)
            } else {
                end matches Flow::Running(n) && same_effects(n, k) && keeps(
                    m,
                    n,
                    b.ops.len() as int,
                )
            }
        }),
{
    let op1 = IrOp::Call { helper: Helper::ChargeReduction, args: Args::One(process) };
    lemma_emit(b, op1, from, start);
    let (call, b1) = b.emit(op1);
    let op2 = IrOp::Result { of: call, index: 0 };
    lemma_emit(b1, op2, from, start);
    let (exhausted, b2) = b1.emit(op2);
    lemma_emit(b2, IrOp::Block, from, start);
    let (continuation, b3) = b2.create_block();
    let op4 = IrOp::CompareImm { cc: IntCc::NotEqual, left: exhausted, imm: 0 };
    lemma_emit(b3, op4, from, start);
    let (should_yield, b4) = b3.emit(op4);
    let op5 = IrOp::Brif {
        condition: should_yield,
        then_block: yield_block,
        else_block: continuation,
    };
    lemma_emit(b4, op5, from, start);
    let b5 = b4.emit(op5).1;
    lemma_switch(b5, continuation, from, start);
}

/// A call and its first result.
pub open spec fn ask_ir(b: LoweringView, helper: Helper, args: Args) -> (Value, LoweringView) {
    let (call, b) = b.emit(IrOp::Call { helper, args });
    b.emit(IrOp::Result { of: call, index: 0 })
}

pub proof fn lemma_ask(b: LoweringView, helper: Helper, args: Args, from: int, start: Flow)
    requires
        b.ops.len() + 2 <= usize::MAX,
        0 <= from <= b.ops.len(),
    ensures
        ({
            let (value, after) = ask_ir(b, helper, args);
            &&& value == b.ops.len() + 1
            &&& after.ops.len() == b.ops.len() + 2
            &&& match does(b, from, start) {
                Flow::Running(m) => does(after, from, start) matches Flow::Running(n)
                    && same_effects(n, answered(m, helper, arguments(m, args)))
                    && n.values[value] == next_answer(m).first
                    && n.seconds[b.ops.len() as Value] == next_answer(m).second && forall|v: Value|
                    v < b.ops.len() ==> #[trigger] n.values[v] == m.values[v],
                other => does(after, from, start) == other,
            }
        }),
{
    let op1 = IrOp::Call { helper, args };
    lemma_emit(b, op1, from, start);
    let (call, b1) = b.emit(op1);
    lemma_emit(b1, IrOp::Result { of: call, index: 0 }, from, start);
}

/// What a `try` caught is put in the first three registers: its class, its reason
/// and its trace, from the registers in which they were kept.
pub proof fn law_caught_exception_is_in_the_first_registers(
    b: LoweringView,
    context: FunctionContext,
    blocks: BlockMapView,
    index: usize,
    source: OperandView,
    instructions: Seq<InstructionView>,
    frame: TryCatchFrame,
    m: Machine,
)
    requires
        has_room(b),
        context.register_file < b.ops.len(),
        current_frame_of(b) == Some(frame),
    ensures
        ({
            let r = lower_core_instruction_ir(
                b,
                context,
                blocks,
                index,
                InstructionView::TryCase { source },
                instructions,
            );
            let base = m.values[context.register_file];
            r matches Ok((ended, after)) && ended == Some(false) && after.tries
                == b.tries.drop_last() && (does(after, b.ops.len() as int, Flow::Running(m))
                matches Flow::Running(n) && same_effects(
                n,
                m.stored(
                    register_address(base, Register::X(0)),
                    m.memory[register_address(base, frame.class_register)],
                ).stored(
                    register_address(base, Register::X(1)),
                    m.memory[register_address(base, frame.reason_register)],
                ).stored(
                    register_address(base, Register::X(2)),
                    m.memory[register_address(base, frame.trace_register)],
                ),
            ))
        }),
{
    let from = b.ops.len() as int;
    let start = Flow::Running(m);
    let file = context.register_file;
    let b0 = pop_try_ir(b).1;
    assert(b0.ops == b.ops);
    assert(does(b0, from, start) == start);
    let op1 = IrOp::Load {
        ty: IrType::I64,
        base: file,
        offset: register_offset_of(frame.class_register),
    };
    lemma_emit(b0, op1, from, start);
    let (class, b1) = b0.emit(op1);
    let op2 = IrOp::Load {
        ty: IrType::I64,
        base: file,
        offset: register_offset_of(frame.reason_register),
    };
    lemma_emit(b1, op2, from, start);
    let (reason, b2) = b1.emit(op2);
    let op3 = IrOp::Load {
        ty: IrType::I64,
        base: file,
        offset: register_offset_of(frame.trace_register),
    };
    lemma_emit(b2, op3, from, start);
    let (trace, b3) = b2.emit(op3);
    lemma_write(b3, file, OperandView::X(0), class, from, start);
    let b4 = write_operand_term_ir(b3, file, OperandView::X(0), class)->Ok_0;
    lemma_write(b4, file, OperandView::X(1), reason, from, start);
    let b5 = write_operand_term_ir(b4, file, OperandView::X(1), reason)->Ok_0;
    lemma_write(b5, file, OperandView::X(2), trace, from, start);
}

/// When the process is told to forget an exception that a `try` caught, the class, the
/// reason and the trace that it gave are in the registers of the `try`.
pub proof fn law_parts_of_an_exception_are_kept(
    frame: TryCatchFrame,
    process: i64,
    base: i64,
    m: Machine,
)
    requires
        frame.class_register != frame.reason_register,
        frame.class_register != frame.trace_register,
        frame.reason_register != frame.trace_register,
        has_place(frame.class_register),
        has_place(frame.reason_register),
        has_place(frame.trace_register),
    ensures
        ({
            let told = caught(frame, process, base, m).calls.last();
            &&& told.helper is ClearException
            &&& told.memory[register_address(base, frame.class_register)] == next_answer(m).first
            &&& told.memory[register_address(base, frame.reason_register)] == m.answers[m.calls.len() as int
                + 1].first
            &&& told.memory[register_address(base, frame.trace_register)] == m.answers[m.calls.len() as int
                + 2].first
        }),
{
    law_registers_are_apart(frame.class_register, frame.reason_register);
    law_registers_are_apart(frame.class_register, frame.trace_register);
    law_registers_are_apart(frame.reason_register, frame.trace_register);
}

} // verus!

//! Lowering `try` and the propagation of exceptions.
//!
//! Compiled code returns a status and a value. A value of status
//! [`JIT_STATUS_EXCEPTION`] is the reason of an exception, whose class and stack
//! trace the process keeps.

use vstd::prelude::*;
use crate::atom::Atom;
use crate::loader::decode::compact::{Operand, OperandView};
use super::common::{
    read_register_term, read_register_term_ir, write_register_term, write_register_term_ir,
};
use super::error::{
    jit_outcome, number_error, number_fault, opcode_error, opcode_fault, text_error, text_fault,
    JitError, JitFault,
};
use super::helper::{Helper, IrType};
use super::ir::{
    lowered, lowered_with, Args, Block, IntCc, IrOp, Lowering, LoweringView, TryCatchFrame, Value,
};
use super::register::{register_operand, register_operand_of, Register};

verus! {

pub const JIT_STATUS_NORMAL: u8 = 0;

pub const JIT_STATUS_EXCEPTION: u8 = 1;

pub const JIT_STATUS_DEOPT: u8 = 2;

pub const JIT_STATUS_YIELD: u8 = 3;

/// What compiled code returns.
#[derive(Debug, Clone, Copy, PartialEq, Eq, Structural)]
pub struct JitReturn {
    pub status: u8,
    pub value: u64,
}

impl JitReturn {
    /// A value.
    pub fn normal(value: u64) -> (r: Self)
        ensures
            r == (JitReturn { status: JIT_STATUS_NORMAL, value }),
    {
        JitReturn { status: JIT_STATUS_NORMAL, value }
    }

    /// The reason of an exception.
    pub fn exception(value: u64) -> (r: Self)
        ensures
            r == (JitReturn { status: JIT_STATUS_EXCEPTION, value }),
    {
        JitReturn { status: JIT_STATUS_EXCEPTION, value }
    }

    /// The interpreter has to take over.
    pub fn deopt(value: u64) -> (r: Self)
        ensures
            r == (JitReturn { status: JIT_STATUS_DEOPT, value }),
    {
        JitReturn { status: JIT_STATUS_DEOPT, value }
    }

    /// The process has to yield.
    pub fn yield_(value: u64) -> (r: Self)
        ensures
            r == (JitReturn { status: JIT_STATUS_YIELD, value }),
    {
        JitReturn { status: JIT_STATUS_YIELD, value }
    }
}

/// The function whose code is lowered.
#[derive(Debug, Clone, Copy, PartialEq, Eq, Structural)]
pub struct CompiledFrameInfo {
    pub module: Atom,
    pub function: Atom,
    pub arity: u8,
}

/// The parts of a caught exception.
#[derive(Debug, Clone, Copy, PartialEq, Eq, Structural)]
pub struct CaughtExceptionValues {
    pub class: Value,
    pub reason: Value,
    pub trace: Value,
}

/// The lowering with one more open `try`.
pub open spec fn push_try_ir(b: LoweringView, frame: TryCatchFrame) -> LoweringView {
    LoweringView { tries: b.tries.push(frame), ..b }
}

fn push_try(b: &mut Lowering, frame: TryCatchFrame)
    ensures
        final(b)@ == push_try_ir(old(b)@, frame),
{
    b.tries.push(frame);
}

/// The innermost open `try`, and the lowering without it.
pub open spec fn pop_try_ir(b: LoweringView) -> (Option<TryCatchFrame>, LoweringView) {
    if b.tries.len() == 0 {
        (None, b)
    } else {
        (Some(b.tries.last()), LoweringView { tries: b.tries.drop_last(), ..b })
    }
}

fn pop_try(b: &mut Lowering) -> (r: Option<TryCatchFrame>)
    ensures
        (r, final(b)@) == pop_try_ir(old(b)@),
{
    b.tries.pop()
}

/// The innermost open `try`.
pub open spec fn current_frame_of(b: LoweringView) -> Option<TryCatchFrame> {
    if b.tries.len() == 0 {
        None
    } else {
        Some(b.tries.last())
    }
}

/// The innermost open `try`.
pub fn current_frame(b: &Lowering) -> (r: Option<TryCatchFrame>)
    ensures
        r == current_frame_of(b@),
{
    if b.tries.len() == 0 {
        None
    } else {
        Some(b.tries[b.tries.len() - 1])
    }
}

/// What [`catch_frame`] answers.
pub open spec fn catch_frame_of(
    catch_block: Block,
    destination: OperandView,
) -> Result<TryCatchFrame, JitFault> {
    match register_operand_of(destination) {
        Err(e) => Err(e),
        Ok(class_register) => {
            match class_register {
                Register::X(_) => Err(text_fault("try destination must be a Y register"@)),
                Register::Y(base) => {
                    if base > 0xffff_fffd {
                        Err(number_fault("try Y register triplet out of range: "@, base as u64))
                    } else {
                        Ok(TryCatchFrame { catch_block, class_register, reason_register: Register::Y((base + 1) as u32), trace_register: Register::Y((base + 2) as u32) })
                    }
                },
            }
        },
    }
}

/// Where the parts of an exception go: to the destination, which is a Y register,
/// and to the two registers after it.
pub fn catch_frame(
    catch_block: Block,
    destination: &Operand,
) -> (r: Result<TryCatchFrame, JitError>)
    ensures
        jit_outcome(r) == catch_frame_of(catch_block, destination.view()),
{
    let class_register = register_operand(destination)?;
    match class_register {
        Register::X(_) => Err(text_error("try destination must be a Y register")),
        Register::Y(base) => {
            if base > 0xffff_fffd {
                Err(number_error("try Y register triplet out of range: ", base as u64))
            } else {
                Ok(TryCatchFrame { catch_block, class_register, reason_register: Register::Y((base + 1) as u32), trace_register: Register::Y((base + 2) as u32) })
            }
        },
    }
}

/// What [`translate_try`] makes of a lowering.
pub open spec fn translate_try_ir(
    b: LoweringView,
    catch_block: Block,
    destination: OperandView,
) -> Result<(TryCatchFrame, LoweringView), JitFault> {
    match catch_frame_of(catch_block, destination) {
        Err(e) => Err(e),
        Ok(frame) => {
            let b = push_try_ir(b, frame);
            Ok((frame, b))
        },
    }
}

/// Opens a `try`.
pub fn translate_try(
    b: &mut Lowering,
    catch_block: Block,
    destination: &Operand,
) -> (r: Result<TryCatchFrame, JitError>)
    ensures
        lowered_with(r, final(b)@) == translate_try_ir(old(b)@, catch_block, destination.view()),
{
    let frame = catch_frame(catch_block, destination)?;
    push_try(b, frame);
    Ok(frame)
}

/// What [`translate_try_end`] makes of a lowering.
pub open spec fn translate_try_end_ir(b: LoweringView) -> Result<LoweringView, JitFault> {
    let (popped, b) = pop_try_ir(b);
    match popped {
        Some(_) => Ok(b),
        None => Err(opcode_fault("try_end without active try"@)),
    }
}

/// Closes the innermost `try`.
pub fn translate_try_end(b: &mut Lowering) -> (r: Result<(), JitError>)
    ensures
        lowered(r, final(b)@) == translate_try_end_ir(old(b)@),
{
    let popped = pop_try(b);
    match popped {
        Some(_) => Ok(()),
        None => Err(opcode_error("try_end without active try")),
    }
}

/// What [`read_caught_exception`] makes of a lowering.
pub open spec fn read_caught_exception_ir(
    b: LoweringView,
    register_file: Value,
    frame: TryCatchFrame,
) -> (CaughtExceptionValues, LoweringView) {
    let (class, b) = read_register_term_ir(b, register_file, frame.class_register);
    let (reason, b) = read_register_term_ir(b, register_file, frame.reason_register);
    let (trace, b) = read_register_term_ir(b, register_file, frame.trace_register);
    (CaughtExceptionValues { class, reason, trace }, b)
}

/// Reads the parts of a caught exception.
pub fn read_caught_exception(
    b: &mut Lowering,
    register_file: Value,
    frame: TryCatchFrame,
) -> (r: CaughtExceptionValues)
    ensures
        (r, final(b)@) == read_caught_exception_ir(old(b)@, register_file, frame),
{
    let class = read_register_term(b, register_file, frame.class_register);
    let reason = read_register_term(b, register_file, frame.reason_register);
    let trace = read_register_term(b, register_file, frame.trace_register);
    CaughtExceptionValues { class, reason, trace }
}

/// What [`translate_try_case`] makes of a lowering.
pub open spec fn translate_try_case_ir(
    b: LoweringView,
    register_file: Value,
) -> Result<(CaughtExceptionValues, LoweringView), JitFault> {
    let (popped, b) = pop_try_ir(b);
    match popped {
        Some(frame) => Ok(read_caught_exception_ir(b, register_file, frame)),
        None => Err(opcode_fault("try_case without active try"@)),
    }
}

/// Closes the innermost `try` and reads the exception that it caught.
pub fn translate_try_case(
    b: &mut Lowering,
    register_file: Value,
) -> (r: Result<CaughtExceptionValues, JitError>)
    ensures
        lowered_with(r, final(b)@) == translate_try_case_ir(old(b)@, register_file),
{
    let popped = pop_try(b);
    match popped {
        Some(frame) => Ok(read_caught_exception(b, register_file, frame)),
        None => Err(opcode_error("try_case without active try")),
    }
}

/// What [`return_status`] makes of a lowering.
pub open spec fn return_status_ir(b: LoweringView, status: u8, value: Value) -> LoweringView {
    let (status_value, b) = b.emit(IrOp::Iconst { ty: IrType::I8, value: status as i64 });
    let b = b.emit(IrOp::ReturnStatus { status: status_value, value }).1;
    b
}

/// Returns a status and a value.
pub fn return_status(b: &mut Lowering, status: u8, value: Value)
    ensures
        final(b)@ == return_status_ir(old(b)@, status, value),
{
    let status_value = b.emit(IrOp::Iconst { ty: IrType::I8, value: status as i64 });
    b.emit(IrOp::ReturnStatus { status: status_value, value });
}

/// What [`return_status_raw`] makes of a lowering.
pub open spec fn return_status_raw_ir(b: LoweringView, status: u8, raw: i64) -> LoweringView {
    let (value, b) = b.emit(IrOp::Iconst { ty: IrType::I64, value: raw });
    let b = return_status_ir(b, status, value);
    b
}

/// Returns a status and a constant.
pub fn return_status_raw(b: &mut Lowering, status: u8, raw: i64)
    ensures
        final(b)@ == return_status_raw_ir(old(b)@, status, raw),
{
    let value = b.emit(IrOp::Iconst { ty: IrType::I64, value: raw });
    return_status(b, status, value);
}

/// What [`call_unary`] makes of a lowering.
pub open spec fn call_unary_ir(
    b: LoweringView,
    helper: Helper,
    process: Value,
) -> (Value, LoweringView) {
    let (call, b) = b.emit(IrOp::Call { helper, args: Args::One(process) });
    b.emit(IrOp::Result { of: call, index: 0 })
}

/// Calls a function of the process.
fn call_unary(b: &mut Lowering, helper: Helper, process: Value) -> (r: Value)
    ensures
        (r, final(b)@) == call_unary_ir(old(b)@, helper, process),
{
    let call = b.emit(IrOp::Call { helper, args: Args::One(process) });
    b.emit(IrOp::Result { of: call, index: 0 })
}

/// What [`dispatch_exception_status`] makes of a lowering.
pub open spec fn dispatch_exception_status_ir(
    b: LoweringView,
    frame: Option<TryCatchFrame>,
    compiled_frame: CompiledFrameInfo,
    process: Value,
    register_file: Value,
    status: Value,
    value: Value,
    continuation: Block,
) -> LoweringView {
    let (is_exception, b) = b.emit(IrOp::CompareImm { cc: IntCc::Equal, left: status, imm: JIT_STATUS_EXCEPTION as i64 });
    let (exception_block, b) = b.create_block();
    let b = b.emit(IrOp::Brif { condition: is_exception, then_block: exception_block, else_block: continuation }).1;
    let b = b.switch(exception_block);
    let b = match frame {
        Some(frame) => {
            let (class, b) = call_unary_ir(b, Helper::ExceptionClass, process);
            let (reason, b) = call_unary_ir(b, Helper::ExceptionReason, process);
            let (trace, b) = call_unary_ir(b, Helper::ExceptionTrace, process);
            let b = write_register_term_ir(b, register_file, frame.class_register, class);
            let b = write_register_term_ir(b, register_file, frame.reason_register, reason);
            let b = write_register_term_ir(b, register_file, frame.trace_register, trace);
            let b = b.emit(IrOp::Call { helper: Helper::ClearException, args: Args::One(process) }).1;
            let b = b.emit(IrOp::Jump { block: frame.catch_block }).1;
            let (unreachable, b) = b.create_block();
            let b = b.switch(unreachable);
            b
        },
        None => {
            let (module, b) = b.emit(IrOp::Iconst { ty: IrType::I64, value: compiled_frame.module.0 as i64 });
            let (function, b) = b.emit(IrOp::Iconst { ty: IrType::I64, value: compiled_frame.function.0 as i64 });
            let (arity, b) = b.emit(IrOp::Iconst { ty: IrType::I64, value: compiled_frame.arity as i64 });
            let b = b.emit(IrOp::Call { helper: Helper::AddCompiledFrame, args: Args::Four(process, module, function, arity) }).1;
            let b = return_status_ir(b, JIT_STATUS_EXCEPTION, value);
            b
        },
    };
    let b = b.switch(continuation);
    b
}

/// Hands an exception to the innermost open `try`, or, without one, adds the
/// frame of this function to the stack trace and returns the exception. Goes on
/// in `continuation` when the status is no exception.
pub fn dispatch_exception_status(
    b: &mut Lowering,
    frame: Option<TryCatchFrame>,
    compiled_frame: CompiledFrameInfo,
    process: Value,
    register_file: Value,
    status: Value,
    value: Value,
    continuation: Block,
)
    ensures
        final(b)@ == dispatch_exception_status_ir(old(b)@, frame, compiled_frame, process, register_file, status, value, continuation),
{
    let is_exception = b.emit(IrOp::CompareImm { cc: IntCc::Equal, left: status, imm: JIT_STATUS_EXCEPTION as i64 });
    let exception_block = b.create_block();
    b.emit(IrOp::Brif { condition: is_exception, then_block: exception_block, else_block: continuation });
    b.switch(exception_block);
    match frame {
        Some(frame) => {
            let class = call_unary(b, Helper::ExceptionClass, process);
            let reason = call_unary(b, Helper::ExceptionReason, process);
            let trace = call_unary(b, Helper::ExceptionTrace, process);
            write_register_term(b, register_file, frame.class_register, class);
            write_register_term(b, register_file, frame.reason_register, reason);
            write_register_term(b, register_file, frame.trace_register, trace);
            b.emit(IrOp::Call { helper: Helper::ClearException, args: Args::One(process) });
            b.emit(IrOp::Jump { block: frame.catch_block });
            let unreachable = b.create_block();
            b.switch(unreachable);
        },
        None => {
            let module = b.emit(IrOp::Iconst { ty: IrType::I64, value: compiled_frame.module.0 as i64 });
            let function = b.emit(IrOp::Iconst { ty: IrType::I64, value: compiled_frame.function.0 as i64 });
            let arity = b.emit(IrOp::Iconst { ty: IrType::I64, value: compiled_frame.arity as i64 });
            b.emit(IrOp::Call { helper: Helper::AddCompiledFrame, args: Args::Four(process, module, function, arity) });
            return_status(b, JIT_STATUS_EXCEPTION, value);
        },
    }
    b.switch(continuation);
}

/// A `try` that ends leaves the open ones as they were before it.
pub proof fn law_try_is_closed_by_try_end(b: LoweringView, frame: TryCatchFrame)
    ensures
        pop_try_ir(push_try_ir(b, frame)) == (Some(frame), b),
        current_frame_of(push_try_ir(b, frame)) == Some(frame),
{
    assert(b.tries.push(frame).drop_last() =~= b.tries);
}

} // verus!

//! Lowering calls and closures.

use vstd::prelude::*;
use crate::loader::decode::chunks::LambdaEntry;
use crate::loader::decode::compact::{operand_views, Operand, OperandView};
use crate::loader::decode::instruction::{Instruction, InstructionView};
use super::allocation::LoweringContext;
use super::closure::{
    lower_call_fun, lower_call_fun_ir, lower_make_fun2, lower_make_fun2_ir,
    make_fun_free_var_operands, make_fun_free_var_operands_of, make_fun_free_var_roots,
    make_fun_free_var_roots_of, ClosureMetadata, MAX_WORD,
};
use super::common::{write_operand_term, write_operand_term_ir};
use super::control::{operand_block, operand_block_of, BlockMap, BlockMapView};
use super::dispatch_core::FunctionContext;
use super::error::{
    form_error, form_fault, jit_outcome, number_error, number_fault, operand_error, operand_fault,
    operands_error, operands_fault, range_error, range_fault, signed_range_error,
    signed_range_fault, JitError, JitFault,
};
use super::exceptions::{
    current_frame, current_frame_of, dispatch_exception_status, dispatch_exception_status_ir,
    return_status, return_status_ir, JIT_STATUS_DEOPT, JIT_STATUS_NORMAL, JIT_STATUS_YIELD,
};
use super::guards::{immediate_usize, immediate_usize_of};
use super::helper::{Helper, IrType};
use super::ir::{lowered, lowered_with, Args, Block, IntCc, IrOp, Lowering, LoweringView, Value};
use super::message::{charge_reduction_or_yield, charge_reduction_or_yield_ir};
use super::typed::{
    clear_operand, clear_operand_ir, materialize_all, materialize_all_ir, materialize_operands,
    materialize_operands_ir, record_site, record_site_ir,
};

verus! {

/// What the lowering of a function needs to know of its module.
#[derive(Debug, Clone, Copy)]
pub struct ModuleCompileMetadata<'a> {
    pub lambdas: &'a Vec<LambdaEntry>,
    pub generation: u64,
}

/// A [`ModuleCompileMetadata`] with a sequence in place of its container.
#[verifier::ext_equal]
pub struct MetadataView {
    pub lambdas: Seq<LambdaEntry>,
    pub generation: u64,
}

impl<'a> View for ModuleCompileMetadata<'a> {
    type V = MetadataView;

    open spec fn view(&self) -> MetadataView {
        MetadataView { lambdas: self.lambdas@, generation: self.generation }
    }
}

/// What [`branch_to_status_blocks`] makes of a lowering.
pub open spec fn branch_to_status_blocks_ir(
    b: LoweringView,
    status: Value,
    deopt_block: Block,
    yield_block: Block,
    continuation: Block,
) -> LoweringView {
    let (is_deopt, b) = b.emit(IrOp::CompareImm { cc: IntCc::Equal, left: status, imm: JIT_STATUS_DEOPT as i64 });
    let (check_yield, b) = b.create_block();
    let b = b.emit(IrOp::Brif { condition: is_deopt, then_block: deopt_block, else_block: check_yield }).1;
    let b = b.switch(check_yield);
    let (is_yield, b) = b.emit(IrOp::CompareImm { cc: IntCc::Equal, left: status, imm: JIT_STATUS_YIELD as i64 });
    let b = b.emit(IrOp::Brif { condition: is_yield, then_block: yield_block, else_block: continuation }).1;
    let b = b.switch(continuation);
    b
}

/// Goes to `deopt_block` or to `yield_block` when a status asks for it, to
/// `continuation` otherwise.
fn branch_to_status_blocks(
    b: &mut Lowering,
    status: Value,
    deopt_block: Block,
    yield_block: Block,
    continuation: Block,
)
    ensures
        final(b)@ == branch_to_status_blocks_ir(old(b)@, status, deopt_block, yield_block, continuation),
{
    let is_deopt = b.emit(IrOp::CompareImm { cc: IntCc::Equal, left: status, imm: JIT_STATUS_DEOPT as i64 });
    let check_yield = b.create_block();
    b.emit(IrOp::Brif { condition: is_deopt, then_block: deopt_block, else_block: check_yield });
    b.switch(check_yield);
    let is_yield = b.emit(IrOp::CompareImm { cc: IntCc::Equal, left: status, imm: JIT_STATUS_YIELD as i64 });
    b.emit(IrOp::Brif { condition: is_yield, then_block: yield_block, else_block: continuation });
    b.switch(continuation);
}

/// What [`handle_helper_return`] makes of a lowering.
pub open spec fn handle_helper_return_ir(
    b: LoweringView,
    context: FunctionContext,
    blocks: BlockMapView,
    status: Value,
    returned: Value,
) -> Result<LoweringView, JitFault> {
    let (status_continuation, b) = b.create_block();
    let b = branch_to_status_blocks_ir(b, status, blocks.deopt, blocks.yield_block, status_continuation);
    let (normal_continuation, b) = b.create_block();
    let frame = current_frame_of(b);
    let b = dispatch_exception_status_ir(b, frame, context.frame, context.process, context.register_file, status, returned, normal_continuation);
    match write_operand_term_ir(b, context.register_file, OperandView::X(0), returned) {
        Err(e) => Err(e),
        Ok(b) => {
            let b = return_status_ir(b, JIT_STATUS_NORMAL, returned);
            Ok(b)
        },
    }
}

/// Goes where the status of a call asks for; when it is normal, returns the
/// value.
fn handle_helper_return(
    b: &mut Lowering,
    context: FunctionContext,
    blocks: &BlockMap,
    status: Value,
    returned: Value,
) -> (r: Result<(), JitError>)
    ensures
        lowered(r, final(b)@) == handle_helper_return_ir(old(b)@, context, blocks.view(), status, returned),
{
    let status_continuation = b.create_block();
    branch_to_status_blocks(b, status, blocks.deopt, blocks.yield_block, status_continuation);
    let normal_continuation = b.create_block();
    let frame = current_frame(b);
    dispatch_exception_status(b, frame, context.frame, context.process, context.register_file, status, returned, normal_continuation);
    write_operand_term(b, context.register_file, &Operand::X(0), returned)?;
    return_status(b, JIT_STATUS_NORMAL, returned);
    Ok(())
}

/// What [`make_fun_lambda_index`] answers.
pub open spec fn make_fun_lambda_index_of(operands: Seq<OperandView>) -> Result<usize, JitFault> {
    if operands.len() == 1 || operands.len() == 3 {
        immediate_usize_of(operands[0], "make_fun lambda index"@)
    } else {
        Err(operands_fault("make_fun operands "@, operands))
    }
}

/// The position of the lambda that a closure is made of.
pub fn make_fun_lambda_index(operands: &Vec<Operand>) -> (r: Result<usize, JitError>)
    ensures
        jit_outcome(r) == make_fun_lambda_index_of(operand_views(operands@)),
{
    if operands.len() == 1 || operands.len() == 3 {
        immediate_usize(&operands[0], "make_fun lambda index")
    } else {
        Err(operands_error("make_fun operands ", operands))
    }
}

/// What [`import_index`] answers.
pub open spec fn import_index_of(import: OperandView) -> Result<usize, JitFault> {
    match import {
        OperandView::Unsigned(value) => {
            if value <= usize::MAX {
                Ok(value as usize)
            } else {
                Err(range_fault("import index"@, value))
            }
        },
        OperandView::Integer(value) => {
            if value >= 0 && value <= usize::MAX {
                Ok(value as usize)
            } else {
                Err(signed_range_fault("import index"@, value))
            }
        },
        _ => Err(operand_fault("external call import must be an index, got "@, import)),
    }
}

/// The position of the import that is called.
pub fn import_index(import: &Operand) -> (r: Result<usize, JitError>)
    ensures
        jit_outcome(r) == import_index_of(import.view()),
{
    match import {
        Operand::Unsigned(value) => {
            if *value <= usize::MAX as u64 {
                Ok(*value as usize)
            } else {
                Err(range_error("import index", *value))
            }
        },
        Operand::Integer(value) => {
            if *value >= 0 && *value as u64 <= usize::MAX as u64 {
                Ok(*value as usize)
            } else {
                Err(signed_range_error("import index", *value))
            }
        },
        _ => Err(operand_error("external call import must be an index, got ", import)),
    }
}

/// What [`immediate_u8`] answers.
pub open spec fn immediate_u8_of(
    operand: OperandView,
    context: Seq<char>,
) -> Result<u8, JitFault> {
    match operand {
        OperandView::Unsigned(value) => {
            if value <= 255 {
                Ok(value as u8)
            } else {
                Err(range_fault(context, value))
            }
        },
        OperandView::Integer(value) => {
            if 0 <= value && value <= 255 {
                Ok(value as u8)
            } else {
                Err(signed_range_fault(context, value))
            }
        },
        _ => Err(form_fault(context, " must be an integer, got "@, operand)),
    }
}

/// The small number that an operand holds.
pub fn immediate_u8(operand: &Operand, context: &str) -> (r: Result<u8, JitError>)
    ensures
        jit_outcome(r) == immediate_u8_of(operand.view(), context@),
{
    match operand {
        Operand::Unsigned(value) => {
            if *value <= 255 {
                Ok(*value as u8)
            } else {
                Err(range_error(context, *value))
            }
        },
        Operand::Integer(value) => {
            if 0 <= *value && *value <= 255 {
                Ok(*value as u8)
            } else {
                Err(signed_range_error(context, *value))
            }
        },
        _ => Err(form_error(context, " must be an integer, got ", operand)),
    }
}

/// What [`lower_call_ext`] makes of a lowering.
pub open spec fn lower_call_ext_ir(
    b: LoweringView,
    context: FunctionContext,
    blocks: BlockMapView,
    arity: OperandView,
    import: OperandView,
) -> Result<LoweringView, JitFault> {
    let b = materialize_all_ir(b, context.register_file);
    match import_index_of(import) {
        Err(e) => Err(e),
        Ok(import_idx) => {
            match immediate_u8_of(arity, "external call arity"@) {
                Err(e) => Err(e),
                Ok(call_arity) => {
                    let (module_value, b) = b.emit(IrOp::Iconst { ty: IrType::I64, value: context.frame.module.0 as i64 });
                    if import_idx as u64 > MAX_WORD {
                        Err(range_fault("import index"@, import_idx as u64))
                    } else {
                        let (import_value, b) = b.emit(IrOp::Iconst { ty: IrType::I64, value: import_idx as i64 });
                        let (arity_value, b) = b.emit(IrOp::Iconst { ty: IrType::I64, value: call_arity as i64 });
                        let (call, b) = b.emit(IrOp::Call { helper: Helper::CallInterpreted, args: Args::Five(context.process, module_value, import_value, arity_value, context.register_file) });
                        let (status, b) = b.emit(IrOp::Result { of: call, index: 0 });
                        let (returned, b) = b.emit(IrOp::Result { of: call, index: 1 });
                        handle_helper_return_ir(b, context, blocks, status, returned)
                    }
                },
            }
        },
    }
}

/// Calls an import by the interpreter and returns what it returns.
fn lower_call_ext(
    b: &mut Lowering,
    context: FunctionContext,
    blocks: &BlockMap,
    arity: &Operand,
    import: &Operand,
) -> (r: Result<(), JitError>)
    ensures
        lowered(r, final(b)@) == lower_call_ext_ir(old(b)@, context, blocks.view(), arity.view(), import.view()),
{
    materialize_all(b, context.register_file);
    let import_idx: usize = import_index(import)?;
    let call_arity: u8 = immediate_u8(arity, "external call arity")?;
    let module_value = b.emit(IrOp::Iconst { ty: IrType::I64, value: context.frame.module.0 as i64 });
    if import_idx as u64 > MAX_WORD {
        return Err(range_error("import index", import_idx as u64));
    }
    let import_value = b.emit(IrOp::Iconst { ty: IrType::I64, value: import_idx as i64 });
    let arity_value = b.emit(IrOp::Iconst { ty: IrType::I64, value: call_arity as i64 });
    let call = b.emit(IrOp::Call { helper: Helper::CallInterpreted, args: Args::Five(context.process, module_value, import_value, arity_value, context.register_file) });
    let status = b.emit(IrOp::Result { of: call, index: 0 });
    let returned = b.emit(IrOp::Result { of: call, index: 1 });
    handle_helper_return(b, context, blocks, status, returned)
}

/// What [`lower_make_fun`] makes of a lowering.
pub open spec fn lower_make_fun_ir(
    b: LoweringView,
    context: FunctionContext,
    blocks: BlockMapView,
    metadata: MetadataView,
    index: usize,
    operands: Seq<OperandView>,
) -> Result<LoweringView, JitFault> {
    match make_fun_lambda_index_of(operands) {
        Err(e) => Err(e),
        Ok(lambda_index) => {
            if lambda_index >= metadata.lambdas.len() {
                Err(number_fault("make_fun lambda index "@, lambda_index as u64))
            } else {
                let lambda = metadata.lambdas[lambda_index as int];
                let num_free = lambda.num_free as usize;
                match make_fun_free_var_roots_of(OperandView::X(0), num_free) {
                    Err(e) => Err(e),
                    Ok(roots) => {
                        match record_site_ir(b, index, roots) {
                            Err(e) => Err(e),
                            Ok(b) => {
                                match make_fun_free_var_operands_of(num_free) {
                                    Err(e) => Err(e),
                                    Ok(free_vars) => {
                                        let b = materialize_operands_ir(b, context.register_file, free_vars, free_vars.len());
                                        match lower_make_fun2_ir(b, LoweringContext { register_file: context.register_file, process: context.process, deopt: blocks.deopt }, ClosureMetadata { module: context.frame.module, function_index: lambda_index as u64, arity: lambda.arity, generation: metadata.generation, unique_id: lambda.unique_id }, free_vars, OperandView::X(0)) {
                                            Err(e) => Err(e),
                                            Ok(b) => {
                                                let b = clear_operand_ir(b, OperandView::X(0));
                                                Ok(b)
                                            },
                                        }
                                    },
                                }
                            },
                        }
                    },
                }
            }
        },
    }
}

/// Makes a closure of a lambda and of the registers that hold its free
/// variables.
fn lower_make_fun(
    b: &mut Lowering,
    context: FunctionContext,
    blocks: &BlockMap,
    metadata: &ModuleCompileMetadata<'_>,
    index: usize,
    operands: &Vec<Operand>,
) -> (r: Result<(), JitError>)
    ensures
        lowered(r, final(b)@) == lower_make_fun_ir(old(b)@, context, blocks.view(), metadata@, index, operand_views(operands@)),
{
    let lambda_index: usize = make_fun_lambda_index(operands)?;
    if lambda_index >= metadata.lambdas.len() {
        return Err(number_error("make_fun lambda index ", lambda_index as u64));
    }
    let lambda = metadata.lambdas[lambda_index];
    let num_free: usize = lambda.num_free as usize;
    let roots = make_fun_free_var_roots(&Operand::X(0), num_free)?;
    record_site(b, index, &roots)?;
    let free_vars = make_fun_free_var_operands(num_free)?;
    materialize_operands(b, context.register_file, &free_vars);
    lower_make_fun2(b, LoweringContext { register_file: context.register_file, process: context.process, deopt: blocks.deopt }, ClosureMetadata { module: context.frame.module, function_index: lambda_index as u64, arity: lambda.arity, generation: metadata.generation, unique_id: lambda.unique_id }, &free_vars, &Operand::X(0))?;
    clear_operand(b, &Operand::X(0));
    Ok(())
}

/// What [`lower_closure_call`] makes of a lowering.
pub open spec fn lower_closure_call_ir(
    b: LoweringView,
    context: FunctionContext,
    blocks: BlockMapView,
    fun: OperandView,
    arity: u8,
) -> Result<LoweringView, JitFault> {
    match lower_call_fun_ir(b, LoweringContext { register_file: context.register_file, process: context.process, deopt: blocks.deopt }, fun, arity) {
        Err(e) => Err(e),
        Ok((called, b)) => handle_helper_return_ir(b, context, blocks, called.0, called.1),
    }
}

/// Calls a closure and returns what it returns.
fn lower_closure_call(
    b: &mut Lowering,
    context: FunctionContext,
    blocks: &BlockMap,
    fun: &Operand,
    arity: u8,
) -> (r: Result<(), JitError>)
    ensures
        lowered(r, final(b)@) == lower_closure_call_ir(old(b)@, context, blocks.view(), fun.view(), arity),
{
    let called = lower_call_fun(b, LoweringContext { register_file: context.register_file, process: context.process, deopt: blocks.deopt }, fun, arity)?;
    handle_helper_return(b, context, blocks, called.0, called.1)
}

/// What [`lower_call_last_register`] makes of a lowering.
pub open spec fn lower_call_last_register_ir(
    b: LoweringView,
    context: FunctionContext,
    blocks: BlockMapView,
    arity: OperandView,
    text: Seq<char>,
) -> Result<LoweringView, JitFault> {
    let b = materialize_all_ir(b, context.register_file);
    match immediate_u8_of(arity, text) {
        Err(e) => Err(e),
        Ok(call_arity) => lower_closure_call_ir(b, context, blocks, OperandView::X(call_arity as u32), call_arity),
    }
}

/// Calls the closure in the register after the arguments.
fn lower_call_last_register(
    b: &mut Lowering,
    context: FunctionContext,
    blocks: &BlockMap,
    arity: &Operand,
    text: &str,
) -> (r: Result<(), JitError>)
    ensures
        lowered(r, final(b)@) == lower_call_last_register_ir(old(b)@, context, blocks.view(), arity.view(), text@),
{
    materialize_all(b, context.register_file);
    let call_arity: u8 = immediate_u8(arity, text)?;
    lower_closure_call(b, context, blocks, &Operand::X(call_arity as u32), call_arity)
}

/// What [`lower_call_instruction`] makes of a lowering.
pub open spec fn lower_call_instruction_ir(
    b: LoweringView,
    context: FunctionContext,
    blocks: BlockMapView,
    metadata: MetadataView,
    index: usize,
    instruction: InstructionView,
) -> Result<(Option<bool>, LoweringView), JitFault> {
    match instruction {
        InstructionView::CallExt { arity, import } => {
            match lower_call_ext_ir(b, context, blocks, arity, import) {
                Err(e) => Err(e),
                Ok(b) => Ok((Some(true), b)),
            }
        },
        InstructionView::CallExtOnly { arity, import } => {
            match lower_call_ext_ir(b, context, blocks, arity, import) {
                Err(e) => Err(e),
                Ok(b) => Ok((Some(true), b)),
            }
        },
        InstructionView::MakeFun { operands } => {
            match lower_make_fun_ir(b, context, blocks, metadata, index, operands) {
                Err(e) => Err(e),
                Ok(b) => Ok((Some(false), b)),
            }
        },
        InstructionView::CallFun { arity } => {
            match lower_call_last_register_ir(b, context, blocks, arity, "call_fun arity"@) {
                Err(e) => Err(e),
                Ok(b) => Ok((Some(true), b)),
            }
        },
        InstructionView::CallFun2 { function, arity, destination } => {
            let b = materialize_all_ir(b, context.register_file);
            match immediate_u8_of(arity, "call_fun2 arity"@) {
                Err(e) => Err(e),
                Ok(call_arity) => {
                    match lower_closure_call_ir(b, context, blocks, function, call_arity) {
                        Err(e) => Err(e),
                        Ok(b) => {
                            let b = clear_operand_ir(b, destination);
                            Ok((Some(true), b))
                        },
                    }
                },
            }
        },
        InstructionView::Call { label, .. } => {
            match operand_block_of(blocks, label) {
                Err(e) => Err(e),
                Ok(target) => {
                    let b = charge_reduction_or_yield_ir(b, context.process, blocks.yield_block);
                    let b = b.emit(IrOp::Jump { block: target }).1;
                    Ok((Some(true), b))
                },
            }
        },
        InstructionView::CallOnly { label, .. } => {
            match operand_block_of(blocks, label) {
                Err(e) => Err(e),
                Ok(target) => {
                    let b = charge_reduction_or_yield_ir(b, context.process, blocks.yield_block);
                    let b = b.emit(IrOp::Jump { block: target }).1;
                    Ok((Some(true), b))
                },
            }
        },
        InstructionView::Apply { arity } => {
            match lower_call_last_register_ir(b, context, blocks, arity, "closure apply arity"@) {
                Err(e) => Err(e),
                Ok(b) => Ok((Some(true), b)),
            }
        },
        _ => Ok((None, b)),
    }
}

/// Lowers a call or the making of a closure. Answers whether the block ends with
/// it, or `None` when it is neither.
#[verifier::rlimit(30)]
pub fn lower_call_instruction(
    b: &mut Lowering,
    context: FunctionContext,
    blocks: &BlockMap,
    metadata: &ModuleCompileMetadata<'_>,
    index: usize,
    instruction: &Instruction,
) -> (r: Result<Option<bool>, JitError>)
    ensures
        lowered_with(r, final(b)@) == lower_call_instruction_ir(old(b)@, context, blocks.view(), metadata@, index, instruction.view()),
{
    match instruction {
        Instruction::CallExt { arity, import } => {
            lower_call_ext(b, context, blocks, arity, import)?;
            Ok(Some(true))
        },
        Instruction::CallExtOnly { arity, import } => {
            lower_call_ext(b, context, blocks, arity, import)?;
            Ok(Some(true))
        },
        Instruction::MakeFun { operands } => {
            lower_make_fun(b, context, blocks, metadata, index, operands)?;
            Ok(Some(false))
        },
        Instruction::CallFun { arity } => {
            lower_call_last_register(b, context, blocks, arity, "call_fun arity")?;
            Ok(Some(true))
        },
        Instruction::CallFun2 { function, arity, destination } => {
            materialize_all(b, context.register_file);
            let call_arity: u8 = immediate_u8(arity, "call_fun2 arity")?;
            lower_closure_call(b, context, blocks, function, call_arity)?;
            clear_operand(b, destination);
            Ok(Some(true))
        },
        Instruction::Call { label, .. } => {
            let target = operand_block(blocks, label)?;
            charge_reduction_or_yield(b, context.process, blocks.yield_block);
            b.emit(IrOp::Jump { block: target });
            Ok(Some(true))
        },
        Instruction::CallOnly { label, .. } => {
            let target = operand_block(blocks, label)?;
            charge_reduction_or_yield(b, context.process, blocks.yield_block);
            b.emit(IrOp::Jump { block: target });
            Ok(Some(true))
        },
        Instruction::Apply { arity } => {
            lower_call_last_register(b, context, blocks, arity, "closure apply arity")?;
            Ok(Some(true))
        },
        _ => Ok(None),
    }
}

} // verus!

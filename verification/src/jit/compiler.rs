//! Lowering whole functions.
//!
//! Code is called with the address of the registers and the process. The X
//! registers are the first words, the Y registers follow. Code returns a status
//! and a word, or, in the narrower form, the word alone.

use vstd::prelude::*;
use crate::atom::Atom;
use crate::loader::decode::chunks::LambdaEntry;
use crate::loader::decode::compact::{Operand, OperandView};
use crate::loader::decode::instruction::{instruction_views, Instruction, InstructionView};
use crate::loader::decode::names::{instruction_text, opcode_name};
use crate::text::{decimal_u64, nat_text};
use super::allocation::{
    lower_put_list, lower_put_list_ir, lower_put_tuple2, lower_put_tuple2_ir, tuple_root_operands,
    tuple_roots_of, LoweringContext,
};
use super::arithmetic::{
    arithmetic_import, arithmetic_import_of, lower_arithmetic_bif, lower_arithmetic_bif_ir,
    lower_comparison, lower_comparison_ir, parse_bif_of, ArithmeticTargets, ParsedBif,
};
use super::binary::{lower_exception_block, lower_exception_block_ir};
use super::closure::MAX_WORD;
use super::common::{
    read_operand_term, read_operand_term_ir, read_register_term, read_register_term_ir,
    write_operand_term, write_operand_term_ir, JIT_DEOPT_SENTINEL, JIT_YIELD_SENTINEL,
};
use super::control::{
    block_map_ir, list_pairs, list_pairs_of, operand_block, operand_block_of, plan_of, BlockMap,
    BlockMapView, TranslationPlan,
};
use super::dispatch_call::{
    immediate_u8, immediate_u8_of, import_index, import_index_of, lower_call_instruction,
    lower_call_instruction_ir, MetadataView, ModuleCompileMetadata,
};
use super::dispatch_core::{
    lower_core_instruction, lower_core_instruction_ir, three_operands, FunctionContext,
};
use super::dispatch_data::{lower_data_instruction, lower_data_instruction_ir};
use super::error::{
    opcode_error, opcode_fault, range_error, range_fault, JitError, JitFault,
};
use super::exceptions::{
    return_status, return_status_ir, return_status_raw, return_status_raw_ir, CompiledFrameInfo,
    JIT_STATUS_DEOPT, JIT_STATUS_NORMAL, JIT_STATUS_YIELD,
};
use super::float_registers::{FloatRegisterMap, FloatsView};
use super::guards::{
    lower_is_tagged_tuple, lower_is_tagged_tuple_ir, lower_select_val, lower_select_val_ir,
    lower_test_arity, lower_test_arity_ir, lower_type_test, lower_type_test_ir,
};
use super::helper::{Helper, IrType};
use super::ir::{
    lowered, lowered_with, Args, Block, IntCc, IrOp, Lowering, LoweringView, Value,
};
use super::message::{
    branch_to_yield_if_exhausted, branch_to_yield_if_exhausted_ir, charge_reduction_or_yield,
    charge_reduction_or_yield_ir,
};
use super::register::Register;
use super::type_info::{FunctionSignature, SignatureView};
use super::typed::{
    initialize_entry_values, initialize_entry_values_ir, read_return_value, read_return_value_ir,
    record_site, record_site_ir,
};
use super::typed_state::{entry_types, TypedRegisterState};
use super::types::{stack_map_views, StackMapEntry, StackMapView};

verus! {

/// How functions are compiled.
#[derive(Debug, Clone, Copy, PartialEq, Eq, Default, Structural)]
pub struct JitSettings;

/// A lowered function.
#[derive(Debug)]
pub struct FunctionIr {
    /// The name under which the function is linked.
    pub name: String,
    pub params: Vec<IrType>,
    pub results: Vec<IrType>,
    pub ops: Vec<IrOp>,
    /// What is live where the heap may move.
    pub stack_maps: Vec<StackMapEntry>,
}

/// A [`FunctionIr`] with sequences in place of its containers.
#[verifier::ext_equal]
pub struct FunctionView {
    pub name: Seq<char>,
    pub params: Seq<IrType>,
    pub results: Seq<IrType>,
    pub ops: Seq<IrOp>,
    pub stack_maps: Seq<StackMapView>,
}

impl View for FunctionIr {
    type V = FunctionView;

    open spec fn view(&self) -> FunctionView {
        FunctionView {
            name: self.name@,
            params: self.params@,
            results: self.results@,
            ops: self.ops@,
            stack_maps: stack_map_views(self.stack_maps@),
        }
    }
}

/// The name of a function: its module, name, arity and a number of its own.
pub open spec fn function_name(module: Atom, function: Atom, arity: u8, id: u64) -> Seq<char> {
    "beamr_jit_Atom("@ + nat_text(module.0 as nat) + ")_Atom("@ + nat_text(function.0 as nat)
        + ")_"@ + nat_text(arity as nat) + "_"@ + nat_text(id as nat)
}

fn name_function(module: Atom, function: Atom, arity: u8, id: u64) -> (r: String)
    ensures
        r@ == function_name(module, function, arity, id),
{
    let mut name = "beamr_jit_Atom(".to_owned();
    name.append(decimal_u64(module.0 as u64).as_str());
    name.append(")_Atom(");
    name.append(decimal_u64(function.0 as u64).as_str());
    name.append(")_");
    name.append(decimal_u64(arity as u64).as_str());
    name.append("_");
    name.append(decimal_u64(id).as_str());
    name
}

/// What [`enter_block`] makes of a lowering.
pub open spec fn enter_block_ir(
    b: LoweringView,
    block: Block,
    terminated: bool,
) -> (bool, LoweringView) {
    let entered = match b.current {
        Some(current) => current == block,
        None => false,
    };
    if entered {
        (terminated, b)
    } else {
        let b = if !terminated {
            let b = b.emit(IrOp::Jump { block }).1;
            b
        } else {
            b
        };
        let b = b.switch(block);
        (false, b)
    }
}

/// Goes on in the block of an instruction, by a jump when the block before it
/// has not ended. Answers whether the block has ended.
fn enter_block(b: &mut Lowering, block: Block, terminated: bool) -> (r: bool)
    ensures
        (r, final(b)@) == enter_block_ir(old(b)@, block, terminated),
{
    let entered = match b.current {
        Some(current) => current == block,
        None => false,
    };
    if entered {
        terminated
    } else {
        if !terminated {
            b.emit(IrOp::Jump { block });
        }
        b.switch(block);
        false
    }
}

/// What [`lower_instruction`] makes of a lowering.
#[verifier::opaque]
pub open spec fn lower_instruction_ir(
    b: LoweringView,
    context: FunctionContext,
    blocks: BlockMapView,
    metadata: MetadataView,
    index: usize,
    instructions: Seq<InstructionView>,
) -> Result<(bool, LoweringView), JitFault> {
    let instruction = instructions[index as int];
    match lower_core_instruction_ir(b, context, blocks, index, instruction, instructions) {
        Err(e) => Err(e),
        Ok((core, b)) => {
            match core {
                Some(ended) => Ok((ended, b)),
                None => {
                    match lower_call_instruction_ir(b, context, blocks, metadata, index, instruction) {
                        Err(e) => Err(e),
                        Ok((call, b)) => {
                            match call {
                                Some(ended) => Ok((ended, b)),
                                None => lower_data_instruction_ir(b, context, blocks, index, instruction),
                            }
                        },
                    }
                },
            }
        },
    }
}

/// Lowers one instruction. Answers whether the block ends with it.
fn lower_instruction(
    b: &mut Lowering,
    context: FunctionContext,
    blocks: &BlockMap,
    metadata: &ModuleCompileMetadata<'_>,
    index: usize,
    instructions: &[Instruction],
) -> (r: Result<bool, JitError>)
    requires
        index < instructions@.len() < blocks.view().blocks_by_index.len(),
    ensures
        lowered_with(r, final(b)@) == lower_instruction_ir(old(b)@, context, blocks.view(), metadata@, index, instruction_views(instructions@)),
{
    proof {
        reveal(lower_instruction_ir);
    }
    let instruction = &instructions[index];
    let core = lower_core_instruction(b, context, blocks, index, instruction, instructions)?;
    match core {
        Some(ended) => Ok(ended),
        None => {
            let call = lower_call_instruction(b, context, blocks, metadata, index, instruction)?;
            match call {
                Some(ended) => Ok(ended),
                None => lower_data_instruction(b, context, blocks, index, instruction),
            }
        },
    }
}

/// Lowers the first `n` instructions. Answers whether the last block has ended.
pub open spec fn lower_instructions_ir(
    b: LoweringView,
    context: FunctionContext,
    blocks: BlockMapView,
    metadata: MetadataView,
    instructions: Seq<InstructionView>,
    n: nat,
) -> Result<(bool, LoweringView), JitFault>
    decreases n,
{
    if n == 0 {
        Ok((true, b))
    } else {
        match lower_instructions_ir(b, context, blocks, metadata, instructions, (n - 1) as nat) {
            Err(e) => Err(e),
            Ok((terminated, b)) => {
                let index = (n - 1) as usize;
                let (_, b) = enter_block_ir(b, blocks.block_for_instruction(index), terminated);
                lower_instruction_ir(b, context, blocks, metadata, index, instructions)
            },
        }
    }
}

proof fn lemma_lower_fails(
    b: LoweringView,
    context: FunctionContext,
    blocks: BlockMapView,
    metadata: MetadataView,
    instructions: Seq<InstructionView>,
    n: nat,
)
    requires
        n <= instructions.len(),
    ensures
        lower_instructions_ir(b, context, blocks, metadata, instructions, n) matches Err(e)
            ==> lower_instructions_ir(
            b,
            context,
            blocks,
            metadata,
            instructions,
            instructions.len(),
        ) == Err::<(bool, LoweringView), JitFault>(e),
    decreases instructions.len() - n,
{
    if n < instructions.len() {
        lemma_lower_fails(b, context, blocks, metadata, instructions, n + 1);
    }
}

fn lower_instructions(
    b: &mut Lowering,
    context: FunctionContext,
    blocks: &BlockMap,
    metadata: &ModuleCompileMetadata<'_>,
    instructions: &[Instruction],
) -> (r: Result<bool, JitError>)
    requires
        instructions@.len() < blocks.view().blocks_by_index.len(),
    ensures
        lowered_with(r, final(b)@) == lower_instructions_ir(
            old(b)@,
            context,
            blocks.view(),
            metadata@,
            instruction_views(instructions@),
            instructions@.len(),
        ),
{
    let ghost views = instruction_views(instructions@);
    let mut terminated: bool = true;
    let mut i: usize = 0;
    while i < instructions.len()
        invariant
            i <= instructions@.len() < blocks.view().blocks_by_index.len(),
            views == instruction_views(instructions@),
            lower_instructions_ir(old(b)@, context, blocks.view(), metadata@, views, i as nat) == Ok::<
                (bool, LoweringView),
                JitFault,
            >((terminated, b@)),
        decreases instructions@.len() - i,
    {
        proof {
            lemma_lower_fails(old(b)@, context, blocks.view(), metadata@, views, (i + 1) as nat);
        }
        let _ = enter_block(b, blocks.block_for_instruction(i), terminated);
        terminated = lower_instruction(b, context, blocks, metadata, i, instructions)?;
        i += 1;
    }
    Ok(terminated)
}

/// The lowering after float registers that were not set hold zero.
pub open spec fn start_floats_ir(b: LoweringView) -> LoweringView {
    let (zero, b) = b.emit(IrOp::Fconst { bits: 0 });
    LoweringView { floats: FloatsView { default: zero, set: Seq::empty() }, ..b }
}

fn start_floats(b: &mut Lowering)
    ensures
        final(b)@ == start_floats_ir(old(b)@),
{
    let zero = b.emit(IrOp::Fconst { bits: 0 });
    b.floats = FloatRegisterMap::new(zero);
}

/// What [`lower_entry_charge`] makes of a lowering.
pub open spec fn lower_entry_charge_ir(
    b: LoweringView,
    process: Value,
    blocks: BlockMapView,
) -> LoweringView {
    let (call, b) = b.emit(IrOp::Call { helper: Helper::ChargeReduction, args: Args::One(process) });
    let (exhausted, b) = b.emit(IrOp::Result { of: call, index: 0 });
    let b = branch_to_yield_if_exhausted_ir(b, exhausted, blocks.yield_block, blocks.block_for_instruction(0));
    b
}

/// Charges for the call of the function; goes to the first instruction.
fn lower_entry_charge(b: &mut Lowering, process: Value, blocks: &BlockMap)
    requires
        blocks.view().blocks_by_index.len() > 0,
    ensures
        final(b)@ == lower_entry_charge_ir(old(b)@, process, blocks.view()),
{
    let call = b.emit(IrOp::Call { helper: Helper::ChargeReduction, args: Args::One(process) });
    let exhausted = b.emit(IrOp::Result { of: call, index: 0 });
    branch_to_yield_if_exhausted(b, exhausted, blocks.yield_block, blocks.block_for_instruction(0));
}

/// What [`lower_exits`] makes of a lowering.
pub open spec fn lower_exits_ir(
    b: LoweringView,
    register_file: Value,
    blocks: BlockMapView,
    terminated: bool,
) -> LoweringView {
    let exit = blocks.exit_block();
    let b = if !terminated {
        let b = b.emit(IrOp::Jump { block: exit }).1;
        b
    } else {
        b
    };
    let b = b.switch(exit);
    let (value, b) = read_return_value_ir(b, register_file);
    let b = return_status_ir(b, JIT_STATUS_NORMAL, value);
    let b = b.switch(blocks.deopt);
    let b = return_status_raw_ir(b, JIT_STATUS_DEOPT, JIT_DEOPT_SENTINEL);
    let b = b.switch(blocks.exception_block);
    let b = lower_exception_block_ir(b);
    let b = b.switch(blocks.yield_block);
    let b = return_status_raw_ir(b, JIT_STATUS_YIELD, JIT_YIELD_SENTINEL);
    b
}

/// Lowers what a function returns at its end and where it is left early.
fn lower_exits(b: &mut Lowering, register_file: Value, blocks: &BlockMap, terminated: bool)
    requires
        blocks.view().blocks_by_index.len() > 0,
    ensures
        final(b)@ == lower_exits_ir(old(b)@, register_file, blocks.view(), terminated),
{
    let exit = blocks.exit_block();
    if !terminated {
        b.emit(IrOp::Jump { block: exit });
    }
    b.switch(exit);
    let value = read_return_value(b, register_file);
    return_status(b, JIT_STATUS_NORMAL, value);
    b.switch(blocks.deopt);
    return_status_raw(b, JIT_STATUS_DEOPT, JIT_DEOPT_SENTINEL);
    b.switch(blocks.exception_block);
    lower_exception_block(b);
    b.switch(blocks.yield_block);
    return_status_raw(b, JIT_STATUS_YIELD, JIT_YIELD_SENTINEL);
}

/// What [`lower_body`] makes of a lowering.
pub open spec fn lower_body_ir(
    b: LoweringView,
    context: FunctionContext,
    blocks: BlockMapView,
    metadata: MetadataView,
    instructions: Seq<InstructionView>,
) -> Result<LoweringView, JitFault> {
    let b = b.switch(blocks.entry);
    let b = initialize_entry_values_ir(b, context.register_file);
    let b = start_floats_ir(b);
    let b = lower_entry_charge_ir(b, context.process, blocks);
    match lower_instructions_ir(b, context, blocks, metadata, instructions, instructions.len()) {
        Err(e) => Err(e),
        Ok((terminated, b)) => {
            let b = lower_exits_ir(b, context.register_file, blocks, terminated);
            Ok(b)
        },
    }
}

/// Lowers the blocks of a function.
fn lower_body(
    b: &mut Lowering,
    context: FunctionContext,
    blocks: &BlockMap,
    metadata: &ModuleCompileMetadata<'_>,
    instructions: &[Instruction],
) -> (r: Result<(), JitError>)
    requires
        instructions@.len() < blocks.view().blocks_by_index.len(),
    ensures
        lowered(r, final(b)@) == lower_body_ir(old(b)@, context, blocks.view(), metadata@, instruction_views(instructions@)),
{
    b.switch(blocks.entry);
    initialize_entry_values(b, context.register_file);
    start_floats(b);
    lower_entry_charge(b, context.process, blocks);
    let terminated = lower_instructions(b, context, blocks, metadata, instructions)?;
    lower_exits(b, context.register_file, blocks, terminated);
    Ok(())
}

/// Nothing lowered yet, with what is known of the parameters.
pub open spec fn start_of(signature: Option<SignatureView>) -> LoweringView {
    LoweringView {
        ops: Seq::empty(),
        current: None,
        types: entry_types(signature),
        maps: Seq::empty(),
        tries: Seq::empty(),
        floats: FloatsView { default: 0, set: Seq::empty() },
    }
}

/// A function lowered to code that returns a status and a word.
pub open spec fn compiled(
    instructions: Seq<InstructionView>,
    frame: CompiledFrameInfo,
    signature: Option<SignatureView>,
    metadata: MetadataView,
    id: u64,
) -> Result<FunctionView, JitFault> {
    match plan_of(instructions) {
        Err(e) => Err(e),
        Ok(plan) => {
            let (blocks, entry, b) = block_map_ir(
                start_of(signature),
                instructions,
                plan.block_starts,
            );
            let context = FunctionContext {
                register_file: entry.register_file,
                process: entry.process,
                frame,
            };
            match lower_body_ir(b, context, blocks, metadata, instructions) {
                Err(e) => Err(e),
                Ok(b) => Ok(
                    FunctionView {
                        name: function_name(frame.module, frame.function, frame.arity, id),
                        params: seq![IrType::I64, IrType::I64],
                        results: seq![IrType::I8, IrType::I64],
                        ops: b.ops,
                        stack_maps: b.maps,
                    },
                ),
            }
        },
    }
}

/// What [`branch_to_sentinel_blocks`] makes of a lowering.
pub open spec fn branch_to_sentinel_blocks_ir(
    b: LoweringView,
    returned: Value,
    deopt_block: Block,
    yield_block: Block,
    continuation: Block,
) -> LoweringView {
    let (is_deopt, b) = b.emit(IrOp::CompareImm { cc: IntCc::Equal, left: returned, imm: JIT_DEOPT_SENTINEL });
    let (check_yield, b) = b.create_block();
    let b = b.emit(IrOp::Brif { condition: is_deopt, then_block: deopt_block, else_block: check_yield }).1;
    let b = b.switch(check_yield);
    let (is_yield, b) = b.emit(IrOp::CompareImm { cc: IntCc::Equal, left: returned, imm: JIT_YIELD_SENTINEL });
    let b = b.emit(IrOp::Brif { condition: is_yield, then_block: yield_block, else_block: continuation }).1;
    let b = b.switch(continuation);
    b
}

/// Goes to `deopt_block` or to `yield_block` when a returned word asks for it, to
/// `continuation` otherwise.
fn branch_to_sentinel_blocks(
    b: &mut Lowering,
    returned: Value,
    deopt_block: Block,
    yield_block: Block,
    continuation: Block,
)
    ensures
        final(b)@ == branch_to_sentinel_blocks_ir(old(b)@, returned, deopt_block, yield_block, continuation),
{
    let is_deopt = b.emit(IrOp::CompareImm { cc: IntCc::Equal, left: returned, imm: JIT_DEOPT_SENTINEL });
    let check_yield = b.create_block();
    b.emit(IrOp::Brif { condition: is_deopt, then_block: deopt_block, else_block: check_yield });
    b.switch(check_yield);
    let is_yield = b.emit(IrOp::CompareImm { cc: IntCc::Equal, left: returned, imm: JIT_YIELD_SENTINEL });
    b.emit(IrOp::Brif { condition: is_yield, then_block: yield_block, else_block: continuation });
    b.switch(continuation);
}

/// What [`lower_word_call_ext`] makes of a lowering.
pub open spec fn lower_word_call_ext_ir(
    b: LoweringView,
    context: FunctionContext,
    blocks: BlockMapView,
    arity: OperandView,
    import: OperandView,
) -> Result<LoweringView, JitFault> {
    match import_index_of(import) {
        Err(e) => Err(e),
        Ok(import_idx) => {
            match immediate_u8_of(arity, "external call arity"@) {
                Err(e) => Err(e),
                Ok(call_arity) => {
                    let (module_value, b) = b.emit(IrOp::Iconst { ty: IrType::I64, value: context.frame.module.0 as i64 });
                    if import_idx as u64 > MAX_WORD {
                        Err(range_fault("import index"@, import_idx as u64))
                    } else {
                        let (import_value, b) = b.emit(IrOp::Iconst { ty: IrType::I64, value: import_idx as i64 });
                        let (arity_value, b) = b.emit(IrOp::Iconst { ty: IrType::I64, value: call_arity as i64 });
                        let (call, b) = b.emit(IrOp::Call { helper: Helper::CallInterpreted, args: Args::Five(context.process, module_value, import_value, arity_value, context.register_file) });
                        let (returned, b) = b.emit(IrOp::Result { of: call, index: 0 });
                        let (continuation, b) = b.create_block();
                        let b = branch_to_sentinel_blocks_ir(b, returned, blocks.deopt, blocks.yield_block, continuation);
                        match write_operand_term_ir(b, context.register_file, OperandView::X(0), returned) {
                            Err(e) => Err(e),
                            Ok(b) => {
                                let b = b.emit(IrOp::Return { value: returned }).1;
                                Ok(b)
                            },
                        }
                    }
                },
            }
        },
    }
}

/// Calls an import by the interpreter and returns the word that it returns.
fn lower_word_call_ext(
    b: &mut Lowering,
    context: FunctionContext,
    blocks: &BlockMap,
    arity: &Operand,
    import: &Operand,
) -> (r: Result<(), JitError>)
    ensures
        lowered(r, final(b)@) == lower_word_call_ext_ir(old(b)@, context, blocks.view(), arity.view(), import.view()),
{
    let import_idx: usize = import_index(import)?;
    let call_arity: u8 = immediate_u8(arity, "external call arity")?;
    let module_value = b.emit(IrOp::Iconst { ty: IrType::I64, value: context.frame.module.0 as i64 });
    if import_idx as u64 > MAX_WORD {
        return Err(range_error("import index", import_idx as u64));
    }
    let import_value = b.emit(IrOp::Iconst { ty: IrType::I64, value: import_idx as i64 });
    let arity_value = b.emit(IrOp::Iconst { ty: IrType::I64, value: call_arity as i64 });
    let call = b.emit(IrOp::Call { helper: Helper::CallInterpreted, args: Args::Five(context.process, module_value, import_value, arity_value, context.register_file) });
    let returned = b.emit(IrOp::Result { of: call, index: 0 });
    let continuation = b.create_block();
    branch_to_sentinel_blocks(b, returned, blocks.deopt, blocks.yield_block, continuation);
    write_operand_term(b, context.register_file, &Operand::X(0), returned)?;
    b.emit(IrOp::Return { value: returned });
    Ok(())
}

/// What [`lower_word_call`] makes of a lowering.
pub open spec fn lower_word_call_ir(
    b: LoweringView,
    context: FunctionContext,
    blocks: BlockMapView,
    label: OperandView,
) -> Result<LoweringView, JitFault> {
    match operand_block_of(blocks, label) {
        Err(e) => Err(e),
        Ok(target) => {
            let b = charge_reduction_or_yield_ir(b, context.process, blocks.yield_block);
            let b = b.emit(IrOp::Jump { block: target }).1;
            Ok(b)
        },
    }
}

/// Lowers a call of a function of the same module.
fn lower_word_call(
    b: &mut Lowering,
    context: FunctionContext,
    blocks: &BlockMap,
    label: &Operand,
) -> (r: Result<(), JitError>)
    ensures
        lowered(r, final(b)@) == lower_word_call_ir(old(b)@, context, blocks.view(), label.view()),
{
    let target = operand_block(blocks, label)?;
    charge_reduction_or_yield(b, context.process, blocks.yield_block);
    b.emit(IrOp::Jump { block: target });
    Ok(())
}

/// What [`lower_word_guard`] makes of a lowering.
#[verifier::opaque]
pub open spec fn lower_word_guard_ir(
    b: LoweringView,
    context: FunctionContext,
    blocks: BlockMapView,
    index: usize,
    instruction: InstructionView,
) -> Result<(bool, LoweringView), JitFault> {
    match instruction {
        InstructionView::TypeTest { op, fail, value } => {
            match operand_block_of(blocks, fail) {
                Err(e) => Err(e),
                Ok(fail) => {
                    match lower_type_test_ir(b, context.register_file, op, value, fail, blocks.block_after(index)) {
                        Err(e) => Err(e),
                        Ok(b) => Ok((true, b)),
                    }
                },
            }
        },
        InstructionView::Comparison { op, fail, left, right } => {
            match operand_block_of(blocks, fail) {
                Err(e) => Err(e),
                Ok(fail) => {
                    match lower_comparison_ir(b, context.register_file, op, left, right, fail, blocks.block_after(index)) {
                        Err(e) => Err(e),
                        Ok(b) => Ok((true, b)),
                    }
                },
            }
        },
        InstructionView::TestArity { fail, tuple, arity } => {
            match operand_block_of(blocks, fail) {
                Err(e) => Err(e),
                Ok(fail) => {
                    match lower_test_arity_ir(b, context.register_file, tuple, arity, fail, blocks.block_after(index)) {
                        Err(e) => Err(e),
                        Ok(b) => Ok((true, b)),
                    }
                },
            }
        },
        InstructionView::IsTaggedTuple { fail, value, arity, tag } => {
            match operand_block_of(blocks, fail) {
                Err(e) => Err(e),
                Ok(fail) => {
                    match lower_is_tagged_tuple_ir(b, context.register_file, value, arity, tag, fail, blocks.block_after(index)) {
                        Err(e) => Err(e),
                        Ok(b) => Ok((true, b)),
                    }
                },
            }
        },
        InstructionView::SelectVal { value, fail, list } => {
            match operand_block_of(blocks, fail) {
                Err(e) => Err(e),
                Ok(fail) => {
                    match list_pairs_of(blocks, list) {
                        Err(e) => Err(e),
                        Ok(pairs) => {
                            match lower_select_val_ir(b, context.register_file, value, fail, pairs) {
                                Err(e) => Err(e),
                                Ok(b) => Ok((true, b)),
                            }
                        },
                    }
                },
            }
        },
        _ => Err(opcode_fault(instruction_text(instruction))),
    }
}

/// Lowers a guard to code that returns a word, and rejects what is none.
fn lower_word_guard(
    b: &mut Lowering,
    context: FunctionContext,
    blocks: &BlockMap,
    index: usize,
    instruction: &Instruction,
) -> (r: Result<bool, JitError>)
    requires
        index + 1 < blocks.view().blocks_by_index.len(),
    ensures
        lowered_with(r, final(b)@) == lower_word_guard_ir(old(b)@, context, blocks.view(), index, instruction.view()),
{
    proof {
        reveal(lower_word_guard_ir);
    }
    match instruction {
        Instruction::TypeTest { op, fail, value } => {
            let fail = operand_block(blocks, fail)?;
            lower_type_test(b, context.register_file, *op, value, fail, blocks.block_after(index))?;
            Ok(true)
        },
        Instruction::Comparison { op, fail, left, right } => {
            let fail = operand_block(blocks, fail)?;
            lower_comparison(b, context.register_file, *op, left, right, fail, blocks.block_after(index))?;
            Ok(true)
        },
        Instruction::TestArity { fail, tuple, arity } => {
            let fail = operand_block(blocks, fail)?;
            lower_test_arity(b, context.register_file, tuple, arity, fail, blocks.block_after(index))?;
            Ok(true)
        },
        Instruction::IsTaggedTuple { fail, value, arity, tag } => {
            let fail = operand_block(blocks, fail)?;
            lower_is_tagged_tuple(b, context.register_file, value, arity, tag, fail, blocks.block_after(index))?;
            Ok(true)
        },
        Instruction::SelectVal { value, fail, list } => {
            let fail = operand_block(blocks, fail)?;
            let pairs = list_pairs(blocks, list)?;
            lower_select_val(b, context.register_file, value, fail, &pairs)?;
            Ok(true)
        },
        _ => Err(opcode_error(opcode_name(instruction).as_str())),
    }
}

/// What [`lower_word_instruction`] makes of a lowering.
#[verifier::opaque]
pub open spec fn lower_word_instruction_ir(
    b: LoweringView,
    context: FunctionContext,
    blocks: BlockMapView,
    index: usize,
    instruction: InstructionView,
    terminated: bool,
) -> Result<(bool, LoweringView), JitFault> {
    match instruction {
        InstructionView::Label { .. } => Ok((terminated, b)),
        InstructionView::Move { source, destination } => {
            match read_operand_term_ir(b, context.register_file, source) {
                Err(e) => Err(e),
                Ok((value, b)) => {
                    match write_operand_term_ir(b, context.register_file, destination, value) {
                        Err(e) => Err(e),
                        Ok(b) => Ok((terminated, b)),
                    }
                },
            }
        },
        InstructionView::Swap { left, right } => {
            match read_operand_term_ir(b, context.register_file, left) {
                Err(e) => Err(e),
                Ok((left_value, b)) => {
                    match read_operand_term_ir(b, context.register_file, right) {
                        Err(e) => Err(e),
                        Ok((right_value, b)) => {
                            match write_operand_term_ir(b, context.register_file, left, right_value) {
                                Err(e) => Err(e),
                                Ok(b) => {
                                    match write_operand_term_ir(b, context.register_file, right, left_value) {
                                        Err(e) => Err(e),
                                        Ok(b) => Ok((terminated, b)),
                                    }
                                },
                            }
                        },
                    }
                },
            }
        },
        InstructionView::Bif { op, operands } => {
            match parse_bif_of(op, operands) {
                Err(e) => Err(e),
                Ok(bif) => {
                    match arithmetic_import_of(bif.import) {
                        Err(e) => Err(e),
                        Ok(arithmetic) => {
                            match operand_block_of(blocks, bif.fail) {
                                Err(e) => Err(e),
                                Ok(fail) => {
                                    let targets = ArithmeticTargets { fail, success: blocks.block_after(index) };
                                    match lower_arithmetic_bif_ir(b, context.register_file, arithmetic, bif.left, bif.right, bif.destination, targets) {
                                        Err(e) => Err(e),
                                        Ok(b) => Ok((true, b)),
                                    }
                                },
                            }
                        },
                    }
                },
            }
        },
        InstructionView::Jump { target } => {
            match operand_block_of(blocks, target) {
                Err(e) => Err(e),
                Ok(target) => {
                    let b = b.emit(IrOp::Jump { block: target }).1;
                    Ok((true, b))
                },
            }
        },
        InstructionView::CallExt { arity, import } => {
            match lower_word_call_ext_ir(b, context, blocks, arity, import) {
                Err(e) => Err(e),
                Ok(b) => Ok((true, b)),
            }
        },
        InstructionView::CallExtOnly { arity, import } => {
            match lower_word_call_ext_ir(b, context, blocks, arity, import) {
                Err(e) => Err(e),
                Ok(b) => Ok((true, b)),
            }
        },
        InstructionView::Call { label, .. } => {
            match lower_word_call_ir(b, context, blocks, label) {
                Err(e) => Err(e),
                Ok(b) => Ok((true, b)),
            }
        },
        InstructionView::CallOnly { label, .. } => {
            match lower_word_call_ir(b, context, blocks, label) {
                Err(e) => Err(e),
                Ok(b) => Ok((true, b)),
            }
        },
        InstructionView::Return => {
            let (value, b) = read_register_term_ir(b, context.register_file, Register::X(0));
            let b = b.emit(IrOp::Return { value }).1;
            Ok((true, b))
        },
        InstructionView::PutList { head, tail, destination } => {
            match record_site_ir(b, index, seq![head, tail, destination]) {
                Err(e) => Err(e),
                Ok(b) => {
                    match lower_put_list_ir(b, LoweringContext { register_file: context.register_file, process: context.process, deopt: blocks.deopt }, head, tail, destination) {
                        Err(e) => Err(e),
                        Ok(b) => Ok((terminated, b)),
                    }
                },
            }
        },
        InstructionView::PutTuple2 { destination, elements } => {
            match tuple_roots_of(destination, elements) {
                Err(e) => Err(e),
                Ok(roots) => {
                    match record_site_ir(b, index, roots) {
                        Err(e) => Err(e),
                        Ok(b) => {
                            match lower_put_tuple2_ir(b, LoweringContext { register_file: context.register_file, process: context.process, deopt: blocks.deopt }, destination, elements) {
                                Err(e) => Err(e),
                                Ok(b) => Ok((terminated, b)),
                            }
                        },
                    }
                },
            }
        },
        _ => lower_word_guard_ir(b, context, blocks, index, instruction),
    }
}

/// Lowers one instruction to code that returns a word, and rejects those that
/// need more. Answers whether the block has ended.
#[verifier::rlimit(40)]
fn lower_word_instruction(
    b: &mut Lowering,
    context: FunctionContext,
    blocks: &BlockMap,
    index: usize,
    instruction: &Instruction,
    terminated: bool,
) -> (r: Result<bool, JitError>)
    requires
        index + 1 < blocks.view().blocks_by_index.len(),
    ensures
        lowered_with(r, final(b)@) == lower_word_instruction_ir(old(b)@, context, blocks.view(), index, instruction.view(), terminated),
{
    proof {
        reveal(lower_word_instruction_ir);
    }
    match instruction {
        Instruction::Label { .. } => Ok(terminated),
        Instruction::Move { source, destination } => {
            let value = read_operand_term(b, context.register_file, source)?;
            write_operand_term(b, context.register_file, destination, value)?;
            Ok(terminated)
        },
        Instruction::Swap { left, right } => {
            let left_value = read_operand_term(b, context.register_file, left)?;
            let right_value = read_operand_term(b, context.register_file, right)?;
            write_operand_term(b, context.register_file, left, right_value)?;
            write_operand_term(b, context.register_file, right, left_value)?;
            Ok(terminated)
        },
        Instruction::Bif { op, operands } => {
            let bif = ParsedBif::parse(*op, operands)?;
            let arithmetic = arithmetic_import(bif.import)?;
            let fail = operand_block(blocks, bif.fail)?;
            let targets = ArithmeticTargets { fail, success: blocks.block_after(index) };
            lower_arithmetic_bif(b, context.register_file, arithmetic, bif.left, bif.right, bif.destination, targets)?;
            Ok(true)
        },
        Instruction::Jump { target } => {
            let target = operand_block(blocks, target)?;
            b.emit(IrOp::Jump { block: target });
            Ok(true)
        },
        Instruction::CallExt { arity, import } => {
            lower_word_call_ext(b, context, blocks, arity, import)?;
            Ok(true)
        },
        Instruction::CallExtOnly { arity, import } => {
            lower_word_call_ext(b, context, blocks, arity, import)?;
            Ok(true)
        },
        Instruction::Call { label, .. } => {
            lower_word_call(b, context, blocks, label)?;
            Ok(true)
        },
        Instruction::CallOnly { label, .. } => {
            lower_word_call(b, context, blocks, label)?;
            Ok(true)
        },
        Instruction::Return => {
            let value = read_register_term(b, context.register_file, Register::X(0));
            b.emit(IrOp::Return { value });
            Ok(true)
        },
        Instruction::PutList { head, tail, destination } => {
            record_site(b, index, &three_operands(head, tail, destination))?;
            lower_put_list(b, LoweringContext { register_file: context.register_file, process: context.process, deopt: blocks.deopt }, head, tail, destination)?;
            Ok(terminated)
        },
        Instruction::PutTuple2 { destination, elements } => {
            let roots = tuple_root_operands(destination, elements)?;
            record_site(b, index, &roots)?;
            lower_put_tuple2(b, LoweringContext { register_file: context.register_file, process: context.process, deopt: blocks.deopt }, destination, elements)?;
            Ok(terminated)
        },
        _ => lower_word_guard(b, context, blocks, index, instruction),
    }
}

/// Lowers the first `n` instructions to code that returns a word. Answers
/// whether the last block has ended.
pub open spec fn lower_word_instructions_ir(
    b: LoweringView,
    context: FunctionContext,
    blocks: BlockMapView,
    instructions: Seq<InstructionView>,
    n: nat,
) -> Result<(bool, LoweringView), JitFault>
    decreases n,
{
    if n == 0 {
        Ok((true, b))
    } else {
        match lower_word_instructions_ir(b, context, blocks, instructions, (n - 1) as nat) {
            Err(e) => Err(e),
            Ok((terminated, b)) => {
                let index = (n - 1) as usize;
                let (terminated, b) = enter_block_ir(
                    b,
                    blocks.block_for_instruction(index),
                    terminated,
                );
                lower_word_instruction_ir(
                    b,
                    context,
                    blocks,
                    index,
                    instructions[n - 1],
                    terminated,
                )
            },
        }
    }
}

proof fn lemma_lower_word_fails(
    b: LoweringView,
    context: FunctionContext,
    blocks: BlockMapView,
    instructions: Seq<InstructionView>,
    n: nat,
)
    requires
        n <= instructions.len(),
    ensures
        lower_word_instructions_ir(b, context, blocks, instructions, n) matches Err(e)
            ==> lower_word_instructions_ir(b, context, blocks, instructions, instructions.len())
            == Err::<(bool, LoweringView), JitFault>(e),
    decreases instructions.len() - n,
{
    if n < instructions.len() {
        lemma_lower_word_fails(b, context, blocks, instructions, n + 1);
    }
}

fn lower_word_instructions(
    b: &mut Lowering,
    context: FunctionContext,
    blocks: &BlockMap,
    instructions: &[Instruction],
) -> (r: Result<bool, JitError>)
    requires
        instructions@.len() < blocks.view().blocks_by_index.len(),
    ensures
        lowered_with(r, final(b)@) == lower_word_instructions_ir(
            old(b)@,
            context,
            blocks.view(),
            instruction_views(instructions@),
            instructions@.len(),
        ),
{
    let ghost views = instruction_views(instructions@);
    let mut terminated: bool = true;
    let mut i: usize = 0;
    while i < instructions.len()
        invariant
            i <= instructions@.len() < blocks.view().blocks_by_index.len(),
            views == instruction_views(instructions@),
            lower_word_instructions_ir(old(b)@, context, blocks.view(), views, i as nat) == Ok::<
                (bool, LoweringView),
                JitFault,
            >((terminated, b@)),
        decreases instructions@.len() - i,
    {
        proof {
            lemma_lower_word_fails(old(b)@, context, blocks.view(), views, (i + 1) as nat);
        }
        let entered = enter_block(b, blocks.block_for_instruction(i), terminated);
        terminated = lower_word_instruction(b, context, blocks, i, &instructions[i], entered)?;
        i += 1;
    }
    Ok(terminated)
}

/// What [`return_word`] makes of a lowering.
pub open spec fn return_word_ir(b: LoweringView, word: i64) -> LoweringView {
    let (value, b) = b.emit(IrOp::Iconst { ty: IrType::I64, value: word });
    let b = b.emit(IrOp::Return { value }).1;
    b
}

/// Returns a constant.
fn return_word(b: &mut Lowering, word: i64)
    ensures
        final(b)@ == return_word_ir(old(b)@, word),
{
    let value = b.emit(IrOp::Iconst { ty: IrType::I64, value: word });
    b.emit(IrOp::Return { value });
}

/// What [`lower_word_body`] makes of a lowering.
pub open spec fn lower_word_body_ir(
    b: LoweringView,
    context: FunctionContext,
    blocks: BlockMapView,
    instructions: Seq<InstructionView>,
) -> Result<LoweringView, JitFault> {
    let b = b.switch(blocks.entry);
    let b = lower_entry_charge_ir(b, context.process, blocks);
    match lower_word_instructions_ir(b, context, blocks, instructions, instructions.len()) {
        Err(e) => Err(e),
        Ok((terminated, b)) => {
            let exit = blocks.exit_block();
            let b = if !terminated {
                let b = b.emit(IrOp::Jump { block: exit }).1;
                b
            } else {
                b
            };
            let b = b.switch(exit);
            let (value, b) = read_register_term_ir(b, context.register_file, Register::X(0));
            let b = b.emit(IrOp::Return { value }).1;
            let b = b.switch(blocks.deopt);
            let b = return_word_ir(b, JIT_DEOPT_SENTINEL);
            let b = b.switch(blocks.yield_block);
            let b = return_word_ir(b, JIT_YIELD_SENTINEL);
            Ok(b)
        },
    }
}

/// Lowers the blocks of a function to code that returns a word.
fn lower_word_body(
    b: &mut Lowering,
    context: FunctionContext,
    blocks: &BlockMap,
    instructions: &[Instruction],
) -> (r: Result<(), JitError>)
    requires
        instructions@.len() < blocks.view().blocks_by_index.len(),
    ensures
        lowered(r, final(b)@) == lower_word_body_ir(old(b)@, context, blocks.view(), instruction_views(instructions@)),
{
    b.switch(blocks.entry);
    lower_entry_charge(b, context.process, blocks);
    let terminated = lower_word_instructions(b, context, blocks, instructions)?;
    let exit = blocks.exit_block();
    if !terminated {
        b.emit(IrOp::Jump { block: exit });
    }
    b.switch(exit);
    let value = read_register_term(b, context.register_file, Register::X(0));
    b.emit(IrOp::Return { value });
    b.switch(blocks.deopt);
    return_word(b, JIT_DEOPT_SENTINEL);
    b.switch(blocks.yield_block);
    return_word(b, JIT_YIELD_SENTINEL);
    Ok(())
}

/// A function lowered to code that returns a word.
pub open spec fn compiled_to_word(
    instructions: Seq<InstructionView>,
    frame: CompiledFrameInfo,
    id: u64,
) -> Result<FunctionView, JitFault> {
    match plan_of(instructions) {
        Err(e) => Err(e),
        Ok(plan) => {
            let (blocks, entry, b) = block_map_ir(start_of(None), instructions, plan.block_starts);
            let context = FunctionContext {
                register_file: entry.register_file,
                process: entry.process,
                frame,
            };
            match lower_word_body_ir(b, context, blocks, instructions) {
                Err(e) => Err(e),
                Ok(b) => Ok(
                    FunctionView {
                        name: function_name(frame.module, frame.function, frame.arity, id),
                        params: seq![IrType::I64, IrType::I64],
                        results: seq![IrType::I64],
                        ops: b.ops,
                        stack_maps: b.maps,
                    },
                ),
            }
        },
    }
}

/// What compiling a function answers.
pub open spec fn compile_outcome(r: Result<FunctionIr, JitError>) -> Result<FunctionView, JitFault> {
    match r {
        Ok(function) => Ok(function@),
        Err(e) => Err(e@),
    }
}

/// The number after one: a function that can be planned uses its number up.
pub open spec fn next_id(instructions: Seq<InstructionView>, id: u64) -> u64 {
    if plan_of(instructions) is Ok {
        id.wrapping_add(1)
    } else {
        id
    }
}

/// What a signature says, if there is one.
pub open spec fn signature_view(signature: Option<FunctionSignature>) -> Option<SignatureView> {
    match signature {
        Some(signature) => Some(signature@),
        None => None,
    }
}

/// No module to know anything of.
pub open spec fn no_metadata() -> MetadataView {
    MetadataView { lambdas: Seq::empty(), generation: 0 }
}

/// Lowers functions, each under a name of its own.
#[derive(Debug)]
pub struct JitCompiler {
    next_function_id: u64,
}

impl JitCompiler {
    /// The number that the next function has in its name.
    pub closed spec fn id(&self) -> u64 {
        self.next_function_id
    }

    /// A compiler that has lowered nothing yet.
    pub fn new(_settings: JitSettings) -> (r: JitCompiler)
        ensures
            r.id() == 0,
    {
        JitCompiler { next_function_id: 0 }
    }

    /// Lowers a function to code that returns a status and a word.
    pub fn compile(
        &mut self,
        instructions: &[Instruction],
        module: Atom,
        function: Atom,
        arity: u8,
    ) -> (r: Result<FunctionIr, JitError>)
        requires
            instructions@.len() < usize::MAX,
        ensures
            compile_outcome(r) == compiled(
                instruction_views(instructions@),
                CompiledFrameInfo { module, function, arity },
                None,
                no_metadata(),
                old(self).id(),
            ),
            final(self).id() == next_id(instruction_views(instructions@), old(self).id()),
    {
        self.compile_with_signature(instructions, module, function, arity, None)
    }

    /// Lowers a function whose parameters have known types.
    pub fn compile_typed(
        &mut self,
        instructions: &[Instruction],
        module: Atom,
        function: Atom,
        arity: u8,
        signature: FunctionSignature,
    ) -> (r: Result<FunctionIr, JitError>)
        requires
            instructions@.len() < usize::MAX,
        ensures
            compile_outcome(r) == compiled(
                instruction_views(instructions@),
                CompiledFrameInfo { module, function, arity },
                Some(signature@),
                no_metadata(),
                old(self).id(),
            ),
            final(self).id() == next_id(instruction_views(instructions@), old(self).id()),
    {
        self.compile_with_signature(instructions, module, function, arity, Some(signature))
    }

    /// Lowers a function of a module.
    pub fn compile_module_function(
        &mut self,
        instructions: &[Instruction],
        module: Atom,
        function: Atom,
        arity: u8,
        metadata: ModuleCompileMetadata<'_>,
    ) -> (r: Result<FunctionIr, JitError>)
        requires
            instructions@.len() < usize::MAX,
        ensures
            compile_outcome(r) == compiled(
                instruction_views(instructions@),
                CompiledFrameInfo { module, function, arity },
                None,
                metadata@,
                old(self).id(),
            ),
            final(self).id() == next_id(instruction_views(instructions@), old(self).id()),
    {
        self.compile_with_module_metadata(instructions, module, function, arity, None, metadata)
    }

    /// Lowers a function of a module whose parameters have known types.
    pub fn compile_typed_module_function(
        &mut self,
        instructions: &[Instruction],
        module: Atom,
        function: Atom,
        arity: u8,
        signature: FunctionSignature,
        metadata: ModuleCompileMetadata<'_>,
    ) -> (r: Result<FunctionIr, JitError>)
        requires
            instructions@.len() < usize::MAX,
        ensures
            compile_outcome(r) == compiled(
                instruction_views(instructions@),
                CompiledFrameInfo { module, function, arity },
                Some(signature@),
                metadata@,
                old(self).id(),
            ),
            final(self).id() == next_id(instruction_views(instructions@), old(self).id()),
    {
        self.compile_with_module_metadata(
            instructions,
            module,
            function,
            arity,
            Some(signature),
            metadata,
        )
    }

    fn compile_with_signature(
        &mut self,
        instructions: &[Instruction],
        module: Atom,
        function: Atom,
        arity: u8,
        typed_signature: Option<FunctionSignature>,
    ) -> (r: Result<FunctionIr, JitError>)
        requires
            instructions@.len() < usize::MAX,
        ensures
            compile_outcome(r) == compiled(
                instruction_views(instructions@),
                CompiledFrameInfo { module, function, arity },
                signature_view(typed_signature),
                no_metadata(),
                old(self).id(),
            ),
            final(self).id() == next_id(instruction_views(instructions@), old(self).id()),
    {
        let lambdas: Vec<LambdaEntry> = Vec::new();
        let metadata = ModuleCompileMetadata { lambdas: &lambdas, generation: 0 };
        assert(metadata@ =~= no_metadata());
        self.compile_with_module_metadata(
            instructions,
            module,
            function,
            arity,
            typed_signature,
            metadata,
        )
    }

    fn take_id(&mut self) -> (r: u64)
        ensures
            r == old(self).id(),
            final(self).id() == r.wrapping_add(1),
    {
        let id: u64 = self.next_function_id;
        self.next_function_id = id.wrapping_add(1);
        id
    }

    fn compile_with_module_metadata(
        &mut self,
        instructions: &[Instruction],
        module: Atom,
        function: Atom,
        arity: u8,
        typed_signature: Option<FunctionSignature>,
        metadata: ModuleCompileMetadata<'_>,
    ) -> (r: Result<FunctionIr, JitError>)
        requires
            instructions@.len() < usize::MAX,
        ensures
            compile_outcome(r) == compiled(
                instruction_views(instructions@),
                CompiledFrameInfo { module, function, arity },
                signature_view(typed_signature),
                metadata@,
                old(self).id(),
            ),
            final(self).id() == next_id(instruction_views(instructions@), old(self).id()),
    {
        let plan = TranslationPlan::new(instructions)?;
        let id: u64 = self.take_id();
        let mut b = Lowering::new(TypedRegisterState::new(typed_signature.as_ref()));
        assert(b@ =~= start_of(signature_view(typed_signature)));
        let (blocks, entry) = BlockMap::new(&mut b, instructions, &plan);
        let context = FunctionContext {
            register_file: entry.register_file,
            process: entry.process,
            frame: CompiledFrameInfo { module, function, arity },
        };
        lower_body(&mut b, context, &blocks, &metadata, instructions)?;
        let r = FunctionIr {
            name: name_function(module, function, arity, id),
            params: vec![IrType::I64, IrType::I64],
            results: vec![IrType::I8, IrType::I64],
            ops: b.ops,
            stack_maps: b.safepoints.finish(),
        };
        assert(r@.params =~= seq![IrType::I64, IrType::I64]);
        assert(r@.results =~= seq![IrType::I8, IrType::I64]);
        Ok(r)
    }

    /// Lowers a function to code that returns the word in the first register, or
    /// a word that no term is, to let the interpreter take over or the process
    /// yield.
    pub fn compile_to_word(
        &mut self,
        instructions: &[Instruction],
        module: Atom,
        function: Atom,
        arity: u8,
    ) -> (r: Result<FunctionIr, JitError>)
        requires
            instructions@.len() < usize::MAX,
        ensures
            compile_outcome(r) == compiled_to_word(
                instruction_views(instructions@),
                CompiledFrameInfo { module, function, arity },
                old(self).id(),
            ),
            final(self).id() == next_id(instruction_views(instructions@), old(self).id()),
    {
        let plan = TranslationPlan::new(instructions)?;
        let id: u64 = self.take_id();
        let mut b = Lowering::new(TypedRegisterState::new(None));
        assert(b@ =~= start_of(None));
        let (blocks, entry) = BlockMap::new(&mut b, instructions, &plan);
        let context = FunctionContext {
            register_file: entry.register_file,
            process: entry.process,
            frame: CompiledFrameInfo { module, function, arity },
        };
        lower_word_body(&mut b, context, &blocks, instructions)?;
        let r = FunctionIr {
            name: name_function(module, function, arity, id),
            params: vec![IrType::I64, IrType::I64],
            results: vec![IrType::I64],
            ops: b.ops,
            stack_maps: b.safepoints.finish(),
        };
        assert(r@.params =~= seq![IrType::I64, IrType::I64]);
        assert(r@.results =~= seq![IrType::I64]);
        Ok(r)
    }
}

} // verus!

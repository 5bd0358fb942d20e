//! Lowering closures.

use vstd::prelude::*;
use crate::atom::Atom;
use crate::loader::decode::compact::{
    lemma_operand_views_push, operand_views, Operand, OperandView,
};
use crate::term::{
    atom_term, atom_term_of, BOXED_TAG, CLOSURE_HEADER_TAG, HEADER_SIZE_SHIFT, HEADER_TAG_MASK,
    POINTER_MASK, TERM_TAG_MASK,
};
use super::allocation::{LoweringContext, MAX_OFFSET, WORD_BYTES};
use super::common::{
    branch_if_null, branch_if_null_ir, branch_to_fail_unless, branch_to_fail_unless_ir,
    read_operand_term, read_operand_term_ir, write_operand_term, write_operand_term_ir,
};
use super::error::{jit_outcome, number_error, number_fault, JitError, JitFault};
use super::helper::{Helper, IrType};
use super::ir::{
    lowered, lowered_with, Args, Block, ImmCode, IntCc, IrOp, Lowering, LoweringView, Value,
};

verus! {

/// How many words of a closure stand between its header and its free variables.
pub const CLOSURE_FIXED_PAYLOAD_WORDS: i64 = 6;

pub const CLOSURE_MODULE_OFFSET: i64 = 8;

pub const CLOSURE_FUNCTION_INDEX_OFFSET: i64 = 16;

pub const CLOSURE_ARITY_OFFSET: i64 = 24;

pub const CLOSURE_NUM_FREE_OFFSET: i64 = 32;

pub const CLOSURE_GENERATION_OFFSET: i64 = 40;

pub const CLOSURE_UNIQUE_ID_OFFSET: i64 = 48;

pub const CLOSURE_FREE_VAR_BASE_OFFSET: usize = 56;

/// The largest number that fits in a signed word.
pub const MAX_WORD: u64 = 0x7fff_ffff_ffff_ffff;

/// What a closure says of its function.
#[derive(Debug, Clone, Copy, PartialEq, Eq, Structural)]
pub struct ClosureMetadata {
    pub module: Atom,
    pub function_index: u64,
    pub arity: u8,
    pub generation: u64,
    pub unique_id: u64,
}

/// What [`closure_free_var_offset`] answers.
pub open spec fn closure_free_var_offset_of(index: usize) -> Result<i64, JitFault> {
    if index > (MAX_OFFSET - CLOSURE_FREE_VAR_BASE_OFFSET) / 8 {
        Err(number_fault("closure free variable offset "@, index as u64))
    } else {
        Ok((CLOSURE_FREE_VAR_BASE_OFFSET + index * 8) as i64)
    }
}

/// Where a free variable is in a closure.
pub fn closure_free_var_offset(index: usize) -> (r: Result<i64, JitError>)
    ensures
        jit_outcome(r) == closure_free_var_offset_of(index),
{
    if index > (MAX_OFFSET - CLOSURE_FREE_VAR_BASE_OFFSET) / WORD_BYTES {
        Err(number_error("closure free variable offset ", index as u64))
    } else {
        Ok((CLOSURE_FREE_VAR_BASE_OFFSET + index * WORD_BYTES) as i64)
    }
}

/// What [`signed_word`] answers.
pub open spec fn signed_word_of(text: Seq<char>, value: u64) -> Result<i64, JitFault> {
    if value > MAX_WORD {
        Err(number_fault(text, value))
    } else {
        Ok(value as i64)
    }
}

/// The number as a signed word.
fn signed_word(text: &str, value: u64) -> (r: Result<i64, JitError>)
    ensures
        jit_outcome(r) == signed_word_of(text@, value),
{
    if value > MAX_WORD {
        Err(number_error(text, value))
    } else {
        Ok(value as i64)
    }
}

/// Stores the first `n` operands as free variables.
pub open spec fn store_free_vars_ir(
    b: LoweringView,
    register_file: Value,
    heap: Value,
    free_vars: Seq<OperandView>,
    n: nat,
) -> Result<LoweringView, JitFault>
    decreases n,
{
    if n == 0 {
        Ok(b)
    } else {
        match store_free_vars_ir(b, register_file, heap, free_vars, (n - 1) as nat) {
            Err(e) => Err(e),
            Ok(b) => match read_operand_term_ir(b, register_file, free_vars[n - 1]) {
                Err(e) => Err(e),
                Ok((value, b)) => match closure_free_var_offset_of((n - 1) as usize) {
                    Err(e) => Err(e),
                    Ok(offset) => Ok(b.emit(IrOp::Store { value, base: heap, offset }).1),
                },
            },
        }
    }
}

proof fn lemma_store_fails(
    b: LoweringView,
    register_file: Value,
    heap: Value,
    free_vars: Seq<OperandView>,
    n: nat,
)
    requires
        n <= free_vars.len(),
    ensures
        store_free_vars_ir(b, register_file, heap, free_vars, n) matches Err(e)
            ==> store_free_vars_ir(b, register_file, heap, free_vars, free_vars.len()) == Err::<
            LoweringView,
            JitFault,
        >(e),
    decreases free_vars.len() - n,
{
    if n < free_vars.len() {
        lemma_store_fails(b, register_file, heap, free_vars, n + 1);
    }
}

fn store_free_vars(b: &mut Lowering, register_file: Value, heap: Value, free_vars: &Vec<Operand>) -> (r:
    Result<(), JitError>)
    ensures
        lowered(r, final(b)@) == store_free_vars_ir(
            old(b)@,
            register_file,
            heap,
            operand_views(free_vars@),
            free_vars@.len(),
        ),
{
    let ghost views = operand_views(free_vars@);
    let mut i: usize = 0;
    while i < free_vars.len()
        invariant
            i <= free_vars@.len(),
            views == operand_views(free_vars@),
            store_free_vars_ir(old(b)@, register_file, heap, views, i as nat) == Ok::<
                LoweringView,
                JitFault,
            >(b@),
        decreases free_vars@.len() - i,
    {
        proof {
            lemma_store_fails(old(b)@, register_file, heap, views, (i + 1) as nat);
        }
        let value = read_operand_term(b, register_file, &free_vars[i])?;
        let offset: i64 = closure_free_var_offset(i)?;
        b.emit(IrOp::Store { value, base: heap, offset });
        i += 1;
    }
    Ok(())
}

/// What [`closure_header`] answers.
pub open spec fn closure_header_of(num_free: i64) -> i64 {
    (CLOSURE_FIXED_PAYLOAD_WORDS.wrapping_add(num_free) << HEADER_SIZE_SHIFT) | CLOSURE_HEADER_TAG
}

/// The header of a closure with a number of free variables.
pub fn closure_header(num_free: i64) -> (r: i64)
    ensures
        r == closure_header_of(num_free),
{
    (CLOSURE_FIXED_PAYLOAD_WORDS.wrapping_add(num_free) << HEADER_SIZE_SHIFT) | CLOSURE_HEADER_TAG
}

/// What [`lower_make_fun2`] makes of a lowering.
pub open spec fn lower_make_fun2_ir(
    b: LoweringView,
    context: LoweringContext,
    metadata: ClosureMetadata,
    free_vars: Seq<OperandView>,
    destination: OperandView,
) -> Result<LoweringView, JitFault> {
    match signed_word_of("closure free variable count "@, free_vars.len() as u64) {
        Err(e) => Err(e),
        Ok(num_free) => {
            let (num_free_value, b) = b.emit(IrOp::Iconst { ty: IrType::I64, value: num_free });
            let (call, b) = b.emit(IrOp::Call { helper: Helper::AllocClosure, args: Args::Two(context.process, num_free_value) });
            let (heap, b) = b.emit(IrOp::Result { of: call, index: 0 });
            let b = branch_if_null_ir(b, heap, context.deopt);
            let header = closure_header_of(num_free);
            let (header_value, b) = b.emit(IrOp::Iconst { ty: IrType::I64, value: header });
            let b = b.emit(IrOp::Store { value: header_value, base: heap, offset: 0 }).1;
            let module_term = atom_term_of(metadata.module);
            let (module_value, b) = b.emit(IrOp::Iconst { ty: IrType::I64, value: module_term });
            let b = b.emit(IrOp::Store { value: module_value, base: heap, offset: CLOSURE_MODULE_OFFSET }).1;
            match signed_word_of("closure function index "@, metadata.function_index) {
                Err(e) => Err(e),
                Ok(function_index) => {
                    let (function_value, b) = b.emit(IrOp::Iconst { ty: IrType::I64, value: function_index });
                    let b = b.emit(IrOp::Store { value: function_value, base: heap, offset: CLOSURE_FUNCTION_INDEX_OFFSET }).1;
                    let (arity_value, b) = b.emit(IrOp::Iconst { ty: IrType::I64, value: metadata.arity as i64 });
                    let b = b.emit(IrOp::Store { value: arity_value, base: heap, offset: CLOSURE_ARITY_OFFSET }).1;
                    let b = b.emit(IrOp::Store { value: num_free_value, base: heap, offset: CLOSURE_NUM_FREE_OFFSET }).1;
                    match signed_word_of("closure generation "@, metadata.generation) {
                        Err(e) => Err(e),
                        Ok(generation) => {
                            let (generation_value, b) = b.emit(IrOp::Iconst { ty: IrType::I64, value: generation });
                            let b = b.emit(IrOp::Store { value: generation_value, base: heap, offset: CLOSURE_GENERATION_OFFSET }).1;
                            match signed_word_of("closure unique id "@, metadata.unique_id) {
                                Err(e) => Err(e),
                                Ok(unique_id) => {
                                    let (unique_id_value, b) = b.emit(IrOp::Iconst { ty: IrType::I64, value: unique_id });
                                    let b = b.emit(IrOp::Store { value: unique_id_value, base: heap, offset: CLOSURE_UNIQUE_ID_OFFSET }).1;
                                    match store_free_vars_ir(b, context.register_file, heap, free_vars, free_vars.len()) {
                                        Err(e) => Err(e),
                                        Ok(b) => {
                                            let (term, b) = b.emit(IrOp::BinaryImm { code: ImmCode::Bor, left: heap, imm: BOXED_TAG });
                                            write_operand_term_ir(b, context.register_file, destination, term)
                                        },
                                    }
                                },
                            }
                        },
                    }
                },
            }
        },
    }
}

/// Makes a closure.
pub fn lower_make_fun2(
    b: &mut Lowering,
    context: LoweringContext,
    metadata: ClosureMetadata,
    free_vars: &Vec<Operand>,
    destination: &Operand,
) -> (r: Result<(), JitError>)
    ensures
        lowered(r, final(b)@) == lower_make_fun2_ir(old(b)@, context, metadata, operand_views(free_vars@), destination.view()),
{
    let num_free: i64 = signed_word("closure free variable count ", free_vars.len() as u64)?;
    let num_free_value = b.emit(IrOp::Iconst { ty: IrType::I64, value: num_free });
    let call = b.emit(IrOp::Call { helper: Helper::AllocClosure, args: Args::Two(context.process, num_free_value) });
    let heap = b.emit(IrOp::Result { of: call, index: 0 });
    branch_if_null(b, heap, context.deopt);
    let header: i64 = closure_header(num_free);
    let header_value = b.emit(IrOp::Iconst { ty: IrType::I64, value: header });
    b.emit(IrOp::Store { value: header_value, base: heap, offset: 0 });
    let module_term: i64 = atom_term(metadata.module);
    let module_value = b.emit(IrOp::Iconst { ty: IrType::I64, value: module_term });
    b.emit(IrOp::Store { value: module_value, base: heap, offset: CLOSURE_MODULE_OFFSET });
    let function_index: i64 = signed_word("closure function index ", metadata.function_index)?;
    let function_value = b.emit(IrOp::Iconst { ty: IrType::I64, value: function_index });
    b.emit(IrOp::Store { value: function_value, base: heap, offset: CLOSURE_FUNCTION_INDEX_OFFSET });
    let arity_value = b.emit(IrOp::Iconst { ty: IrType::I64, value: metadata.arity as i64 });
    b.emit(IrOp::Store { value: arity_value, base: heap, offset: CLOSURE_ARITY_OFFSET });
    b.emit(IrOp::Store { value: num_free_value, base: heap, offset: CLOSURE_NUM_FREE_OFFSET });
    let generation: i64 = signed_word("closure generation ", metadata.generation)?;
    let generation_value = b.emit(IrOp::Iconst { ty: IrType::I64, value: generation });
    b.emit(IrOp::Store { value: generation_value, base: heap, offset: CLOSURE_GENERATION_OFFSET });
    let unique_id: i64 = signed_word("closure unique id ", metadata.unique_id)?;
    let unique_id_value = b.emit(IrOp::Iconst { ty: IrType::I64, value: unique_id });
    b.emit(IrOp::Store { value: unique_id_value, base: heap, offset: CLOSURE_UNIQUE_ID_OFFSET });
    store_free_vars(b, context.register_file, heap, free_vars)?;
    let term = b.emit(IrOp::BinaryImm { code: ImmCode::Bor, left: heap, imm: BOXED_TAG });
    write_operand_term(b, context.register_file, destination, term)
}

/// What [`validate_closure_or_deopt`] makes of a lowering.
pub open spec fn validate_closure_or_deopt_ir(
    b: LoweringView,
    term: Value,
    deopt: Block,
) -> (Value, LoweringView) {
    let (tag, b) = b.emit(IrOp::BinaryImm { code: ImmCode::Band, left: term, imm: TERM_TAG_MASK });
    let (is_boxed, b) = b.emit(IrOp::CompareImm { cc: IntCc::Equal, left: tag, imm: BOXED_TAG });
    let b = branch_to_fail_unless_ir(b, is_boxed, deopt);
    let (pointer, b) = b.emit(IrOp::BinaryImm { code: ImmCode::Band, left: term, imm: POINTER_MASK });
    let (header, b) = b.emit(IrOp::Load { ty: IrType::I64, base: pointer, offset: 0 });
    let (header_tag, b) = b.emit(IrOp::BinaryImm { code: ImmCode::Band, left: header, imm: HEADER_TAG_MASK });
    let (is_closure, b) = b.emit(IrOp::CompareImm { cc: IntCc::Equal, left: header_tag, imm: CLOSURE_HEADER_TAG });
    let b = branch_to_fail_unless_ir(b, is_closure, deopt);
    (pointer, b)
}

/// The address of a closure; goes to `deopt` when the term is none.
fn validate_closure_or_deopt(b: &mut Lowering, term: Value, deopt: Block) -> (r: Value)
    ensures
        (r, final(b)@) == validate_closure_or_deopt_ir(old(b)@, term, deopt),
{
    let tag = b.emit(IrOp::BinaryImm { code: ImmCode::Band, left: term, imm: TERM_TAG_MASK });
    let is_boxed = b.emit(IrOp::CompareImm { cc: IntCc::Equal, left: tag, imm: BOXED_TAG });
    branch_to_fail_unless(b, is_boxed, deopt);
    let pointer = b.emit(IrOp::BinaryImm { code: ImmCode::Band, left: term, imm: POINTER_MASK });
    let header = b.emit(IrOp::Load { ty: IrType::I64, base: pointer, offset: 0 });
    let header_tag = b.emit(IrOp::BinaryImm { code: ImmCode::Band, left: header, imm: HEADER_TAG_MASK });
    let is_closure = b.emit(IrOp::CompareImm { cc: IntCc::Equal, left: header_tag, imm: CLOSURE_HEADER_TAG });
    branch_to_fail_unless(b, is_closure, deopt);
    pointer
}

/// What [`lower_call_fun`] makes of a lowering.
pub open spec fn lower_call_fun_ir(
    b: LoweringView,
    context: LoweringContext,
    fun: OperandView,
    arity: u8,
) -> Result<((Value, Value), LoweringView), JitFault> {
    match read_operand_term_ir(b, context.register_file, fun) {
        Err(e) => Err(e),
        Ok((fun_term, b)) => {
            let (closure, b) = validate_closure_or_deopt_ir(b, fun_term, context.deopt);
            let (expected_arity, b) = b.emit(IrOp::Load { ty: IrType::I64, base: closure, offset: CLOSURE_ARITY_OFFSET });
            let (arity_matches, b) = b.emit(IrOp::CompareImm { cc: IntCc::Equal, left: expected_arity, imm: arity as i64 });
            let b = branch_to_fail_unless_ir(b, arity_matches, context.deopt);
            let (arity_value, b) = b.emit(IrOp::Iconst { ty: IrType::I64, value: arity as i64 });
            let (call, b) = b.emit(IrOp::Call { helper: Helper::CallClosure, args: Args::Four(context.process, fun_term, arity_value, context.register_file) });
            let (status, b) = b.emit(IrOp::Result { of: call, index: 0 });
            let (returned, b) = b.emit(IrOp::Result { of: call, index: 1 });
            Ok(((status, returned), b))
        },
    }
}

/// Calls a closure of the arity; the results are a status and a value.
pub fn lower_call_fun(
    b: &mut Lowering,
    context: LoweringContext,
    fun: &Operand,
    arity: u8,
) -> (r: Result<(Value, Value), JitError>)
    ensures
        lowered_with(r, final(b)@) == lower_call_fun_ir(old(b)@, context, fun.view(), arity),
{
    let fun_term = read_operand_term(b, context.register_file, fun)?;
    let closure = validate_closure_or_deopt(b, fun_term, context.deopt);
    let expected_arity = b.emit(IrOp::Load { ty: IrType::I64, base: closure, offset: CLOSURE_ARITY_OFFSET });
    let arity_matches = b.emit(IrOp::CompareImm { cc: IntCc::Equal, left: expected_arity, imm: arity as i64 });
    branch_to_fail_unless(b, arity_matches, context.deopt);
    let arity_value = b.emit(IrOp::Iconst { ty: IrType::I64, value: arity as i64 });
    let call = b.emit(IrOp::Call { helper: Helper::CallClosure, args: Args::Four(context.process, fun_term, arity_value, context.register_file) });
    let status = b.emit(IrOp::Result { of: call, index: 0 });
    let returned = b.emit(IrOp::Result { of: call, index: 1 });
    Ok((status, returned))
}

/// The first `n` X registers, which hold the free variables of a new closure.
pub open spec fn free_var_registers(n: nat) -> Seq<OperandView> {
    Seq::new(n, |i: int| OperandView::X(i as u32))
}

/// The registers that hold the free variables of a new closure.
pub open spec fn make_fun_free_var_operands_of(num_free: usize) -> Result<
    Seq<OperandView>,
    JitFault,
> {
    if num_free > 0x1_0000_0000 {
        Err(number_fault("closure free variable register "@, 0x1_0000_0000))
    } else {
        Ok(free_var_registers(num_free as nat))
    }
}

/// The registers that hold the free variables of a new closure.
pub fn make_fun_free_var_operands(num_free: usize) -> (r: Result<Vec<Operand>, JitError>)
    ensures
        match r {
            Ok(operands) => make_fun_free_var_operands_of(num_free) == Ok::<
                Seq<OperandView>,
                JitFault,
            >(operand_views(operands@)),
            Err(e) => make_fun_free_var_operands_of(num_free) == Err::<Seq<OperandView>, JitFault>(
                e@,
            ),
        },
{
    let mut operands: Vec<Operand> = Vec::new();
    let mut register: usize = 0;
    assert(operand_views(operands@) =~= free_var_registers(0));
    while register < num_free
        invariant
            register <= num_free,
            register <= 0x1_0000_0000,
            operand_views(operands@) == free_var_registers(register as nat),
        decreases num_free - register,
    {
        if register as u64 > 0xffff_ffff {
            return Err(number_error("closure free variable register ", register as u64));
        }
        let ghost before = operands@;
        let operand = Operand::X(register as u32);
        proof {
            lemma_operand_views_push(before, operand);
        }
        operands.push(operand);
        register += 1;
        assert(operand_views(operands@) =~= free_var_registers(register as nat));
    }
    Ok(operands)
}

/// What is live while a closure is made: its free variables and the destination.
pub open spec fn make_fun_free_var_roots_of(destination: OperandView, num_free: usize) -> Result<
    Seq<OperandView>,
    JitFault,
> {
    match make_fun_free_var_operands_of(num_free) {
        Err(e) => Err(e),
        Ok(registers) => Ok(registers.push(destination)),
    }
}

/// What is live while a closure is made: its free variables and the destination.
pub fn make_fun_free_var_roots(destination: &Operand, num_free: usize) -> (r: Result<
    Vec<Operand>,
    JitError,
>)
    ensures
        match r {
            Ok(operands) => make_fun_free_var_roots_of(destination.view(), num_free) == Ok::<
                Seq<OperandView>,
                JitFault,
            >(operand_views(operands@)),
            Err(e) => make_fun_free_var_roots_of(destination.view(), num_free) == Err::<
                Seq<OperandView>,
                JitFault,
            >(e@),
        },
{
    let mut roots = make_fun_free_var_operands(num_free)?;
    let ghost before = roots@;
    let last = destination.clone();
    proof {
        lemma_operand_views_push(before, last);
    }
    roots.push(last);
    Ok(roots)
}

} // verus!

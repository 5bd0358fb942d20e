//! Lowering lists and tuples.

use vstd::prelude::*;
use crate::loader::decode::compact::{
    lemma_operand_list_view, lemma_operand_views_push, operand_views, Operand, OperandView,
};
use crate::term::{BOXED_TAG, HEADER_SIZE_SHIFT, LIST_TAG, TUPLE_HEADER_TAG};
use super::common::{
    branch_if_null, branch_if_null_ir, read_operand_term, read_operand_term_ir, write_operand_term,
    write_operand_term_ir,
};
use super::error::{number_error, number_fault, operand_error, operand_fault, JitError, JitFault};
use super::guards::{untagged_ptr, untagged_ptr_ir};
use super::helper::{Helper, IrType};
use super::ir::{lowered, Args, Block, ImmCode, IrOp, Lowering, LoweringView, Value};

verus! {

/// How many bytes a word has.
pub const WORD_BYTES: usize = 8;

/// Where the largest element of a tuple can be.
pub const MAX_OFFSET: usize = 0x7fff_ffff;

/// The values that every lowering needs.
#[derive(Debug, Clone, Copy, PartialEq, Eq, Structural)]
pub struct LoweringContext {
    pub register_file: Value,
    pub process: Value,
    /// Where code goes to let the interpreter take over.
    pub deopt: Block,
}

/// What [`lower_put_list`] makes of a lowering.
pub open spec fn lower_put_list_ir(
    b: LoweringView,
    context: LoweringContext,
    head: OperandView,
    tail: OperandView,
    destination: OperandView,
) -> Result<LoweringView, JitFault> {
    let (call, b) = b.emit(IrOp::Call { helper: Helper::AllocCons, args: Args::One(context.process) });
    let (heap, b) = b.emit(IrOp::Result { of: call, index: 0 });
    let b = branch_if_null_ir(b, heap, context.deopt);
    match read_operand_term_ir(b, context.register_file, head) {
        Err(e) => Err(e),
        Ok((head_value, b)) => {
            match read_operand_term_ir(b, context.register_file, tail) {
                Err(e) => Err(e),
                Ok((tail_value, b)) => {
                    let b = b.emit(IrOp::Store { value: head_value, base: heap, offset: 0 }).1;
                    let b = b.emit(IrOp::Store { value: tail_value, base: heap, offset: 8 }).1;
                    let (term, b) = b.emit(IrOp::BinaryImm { code: ImmCode::Bor, left: heap, imm: LIST_TAG });
                    write_operand_term_ir(b, context.register_file, destination, term)
                },
            }
        },
    }
}

/// Makes a list of a head and a tail.
pub fn lower_put_list(
    b: &mut Lowering,
    context: LoweringContext,
    head: &Operand,
    tail: &Operand,
    destination: &Operand,
) -> (r: Result<(), JitError>)
    ensures
        lowered(r, final(b)@) == lower_put_list_ir(old(b)@, context, head.view(), tail.view(), destination.view()),
{
    let call = b.emit(IrOp::Call { helper: Helper::AllocCons, args: Args::One(context.process) });
    let heap = b.emit(IrOp::Result { of: call, index: 0 });
    branch_if_null(b, heap, context.deopt);
    let head_value = read_operand_term(b, context.register_file, head)?;
    let tail_value = read_operand_term(b, context.register_file, tail)?;
    b.emit(IrOp::Store { value: head_value, base: heap, offset: 0 });
    b.emit(IrOp::Store { value: tail_value, base: heap, offset: 8 });
    let term = b.emit(IrOp::BinaryImm { code: ImmCode::Bor, left: heap, imm: LIST_TAG });
    write_operand_term(b, context.register_file, destination, term)
}

/// Stores the first `n` operands behind a header.
pub open spec fn store_elements_ir(
    b: LoweringView,
    register_file: Value,
    heap: Value,
    elements: Seq<OperandView>,
    n: nat,
) -> Result<LoweringView, JitFault>
    decreases n,
{
    if n == 0 {
        Ok(b)
    } else {
        match store_elements_ir(b, register_file, heap, elements, (n - 1) as nat) {
            Err(e) => Err(e),
            Ok(b) => match read_operand_term_ir(b, register_file, elements[n - 1]) {
                Err(e) => Err(e),
                Ok((value, b)) => if n * WORD_BYTES > MAX_OFFSET {
                    Err(number_fault("tuple element offset "@, (n - 1) as u64))
                } else {
                    Ok(b.emit(IrOp::Store { value, base: heap, offset: (n * WORD_BYTES) as i64 }).1)
                },
            },
        }
    }
}

proof fn lemma_store_fails(
    b: LoweringView,
    register_file: Value,
    heap: Value,
    elements: Seq<OperandView>,
    n: nat,
)
    requires
        n <= elements.len(),
    ensures
        store_elements_ir(b, register_file, heap, elements, n) matches Err(e)
            ==> store_elements_ir(b, register_file, heap, elements, elements.len()) == Err::<
            LoweringView,
            JitFault,
        >(e),
    decreases elements.len() - n,
{
    if n < elements.len() {
        lemma_store_fails(b, register_file, heap, elements, n + 1);
    }
}

fn store_elements(b: &mut Lowering, register_file: Value, heap: Value, elements: &Vec<Operand>) -> (r:
    Result<(), JitError>)
    ensures
        lowered(r, final(b)@) == store_elements_ir(
            old(b)@,
            register_file,
            heap,
            operand_views(elements@),
            elements@.len(),
        ),
{
    let ghost views = operand_views(elements@);
    let mut i: usize = 0;
    while i < elements.len()
        invariant
            i <= elements@.len(),
            views == operand_views(elements@),
            store_elements_ir(old(b)@, register_file, heap, views, i as nat) == Ok::<
                LoweringView,
                JitFault,
            >(b@),
        decreases elements@.len() - i,
    {
        proof {
            lemma_store_fails(old(b)@, register_file, heap, views, (i + 1) as nat);
        }
        let value = read_operand_term(b, register_file, &elements[i])?;
        if i >= MAX_OFFSET / WORD_BYTES {
            return Err(number_error("tuple element offset ", i as u64));
        }
        let offset: i64 = ((i + 1) * WORD_BYTES) as i64;
        b.emit(IrOp::Store { value, base: heap, offset });
        i += 1;
    }
    Ok(())
}

/// The operands of a tuple.
pub open spec fn tuple_elements_of(elements: OperandView) -> Result<Seq<OperandView>, JitFault> {
    match elements {
        OperandView::List(items) => Ok(items),
        _ => Err(operand_fault("put_tuple2 elements must be a list, got "@, elements)),
    }
}

/// The operands of a tuple.
pub fn tuple_elements(elements: &Operand) -> (r: Result<&Vec<Operand>, JitError>)
    ensures
        match r {
            Ok(items) => tuple_elements_of(elements.view()) == Ok::<Seq<OperandView>, JitFault>(
                operand_views(items@),
            ),
            Err(e) => tuple_elements_of(elements.view()) == Err::<Seq<OperandView>, JitFault>(e@),
        },
{
    match elements {
        Operand::List(items) => {
            proof {
                lemma_operand_list_view(*items);
            }
            Ok(items)
        },
        _ => Err(operand_error("put_tuple2 elements must be a list, got ", elements)),
    }
}

/// What [`tuple_header`] answers.
pub open spec fn tuple_header_of(arity: i64) -> i64 {
    (arity << HEADER_SIZE_SHIFT) | TUPLE_HEADER_TAG
}

/// The header of a tuple.
pub fn tuple_header(arity: i64) -> (r: i64)
    ensures
        r == tuple_header_of(arity),
{
    (arity << HEADER_SIZE_SHIFT) | TUPLE_HEADER_TAG
}

/// What [`lower_put_tuple2`] makes of a lowering.
pub open spec fn lower_put_tuple2_ir(
    b: LoweringView,
    context: LoweringContext,
    destination: OperandView,
    elements: OperandView,
) -> Result<LoweringView, JitFault> {
    match tuple_elements_of(elements) {
        Err(e) => Err(e),
        Ok(elements) => {
            if elements.len() > 0x7fff_ffff_ffff_ffff {
                Err(number_fault("tuple arity "@, elements.len() as u64))
            } else {
                let arity = elements.len() as i64;
                let (arity_value, b) = b.emit(IrOp::Iconst { ty: IrType::I64, value: arity });
                let (call, b) = b.emit(IrOp::Call { helper: Helper::AllocTuple, args: Args::Two(context.process, arity_value) });
                let (heap, b) = b.emit(IrOp::Result { of: call, index: 0 });
                let b = branch_if_null_ir(b, heap, context.deopt);
                let header = tuple_header_of(arity);
                let (header_value, b) = b.emit(IrOp::Iconst { ty: IrType::I64, value: header });
                let b = b.emit(IrOp::Store { value: header_value, base: heap, offset: 0 }).1;
                match store_elements_ir(b, context.register_file, heap, elements, elements.len()) {
                    Err(e) => Err(e),
                    Ok(b) => {
                        let (term, b) = b.emit(IrOp::BinaryImm { code: ImmCode::Bor, left: heap, imm: BOXED_TAG });
                        write_operand_term_ir(b, context.register_file, destination, term)
                    },
                }
            }
        },
    }
}

/// Makes a tuple of operands.
pub fn lower_put_tuple2(
    b: &mut Lowering,
    context: LoweringContext,
    destination: &Operand,
    elements: &Operand,
) -> (r: Result<(), JitError>)
    ensures
        lowered(r, final(b)@) == lower_put_tuple2_ir(old(b)@, context, destination.view(), elements.view()),
{
    let elements = tuple_elements(elements)?;
    if elements.len() as u64 > 0x7fff_ffff_ffff_ffff {
        return Err(number_error("tuple arity ", elements.len() as u64));
    }
    let arity: i64 = elements.len() as i64;
    let arity_value = b.emit(IrOp::Iconst { ty: IrType::I64, value: arity });
    let call = b.emit(IrOp::Call { helper: Helper::AllocTuple, args: Args::Two(context.process, arity_value) });
    let heap = b.emit(IrOp::Result { of: call, index: 0 });
    branch_if_null(b, heap, context.deopt);
    let header: i64 = tuple_header(arity);
    let header_value = b.emit(IrOp::Iconst { ty: IrType::I64, value: header });
    b.emit(IrOp::Store { value: header_value, base: heap, offset: 0 });
    store_elements(b, context.register_file, heap, elements)?;
    let term = b.emit(IrOp::BinaryImm { code: ImmCode::Bor, left: heap, imm: BOXED_TAG });
    write_operand_term(b, context.register_file, destination, term)
}

/// What is live while a tuple is made: its elements and the destination.
pub open spec fn tuple_roots_of(destination: OperandView, elements: OperandView) -> Result<
    Seq<OperandView>,
    JitFault,
> {
    match tuple_elements_of(elements) {
        Err(e) => Err(e),
        Ok(items) => Ok(items.push(destination)),
    }
}

/// What is live while a tuple is made: its elements and the destination.
pub fn tuple_root_operands(destination: &Operand, elements: &Operand) -> (r: Result<
    Vec<Operand>,
    JitError,
>)
    ensures
        match r {
            Ok(roots) => tuple_roots_of(destination.view(), elements.view()) == Ok::<
                Seq<OperandView>,
                JitFault,
            >(operand_views(roots@)),
            Err(e) => tuple_roots_of(destination.view(), elements.view()) == Err::<
                Seq<OperandView>,
                JitFault,
            >(e@),
        },
{
    let items = tuple_elements(elements)?;
    let mut roots: Vec<Operand> = crate::loader::decode::compact::copy_operands(items);
    let ghost before = roots@;
    let last = destination.clone();
    proof {
        lemma_operand_views_push(before, last);
    }
    roots.push(last);
    Ok(roots)
}

/// What [`lower_get_hd`] makes of a lowering.
pub open spec fn lower_get_hd_ir(
    b: LoweringView,
    register_file: Value,
    source: OperandView,
    destination: OperandView,
) -> Result<LoweringView, JitFault> {
    match read_operand_term_ir(b, register_file, source) {
        Err(e) => Err(e),
        Ok((list, b)) => {
            let (cell, b) = untagged_ptr_ir(b, list);
            let (head, b) = b.emit(IrOp::Load { ty: IrType::I64, base: cell, offset: 0 });
            write_operand_term_ir(b, register_file, destination, head)
        },
    }
}

/// Reads the head of a list.
pub fn lower_get_hd(
    b: &mut Lowering,
    register_file: Value,
    source: &Operand,
    destination: &Operand,
) -> (r: Result<(), JitError>)
    ensures
        lowered(r, final(b)@) == lower_get_hd_ir(old(b)@, register_file, source.view(), destination.view()),
{
    let list = read_operand_term(b, register_file, source)?;
    let cell = untagged_ptr(b, list);
    let head = b.emit(IrOp::Load { ty: IrType::I64, base: cell, offset: 0 });
    write_operand_term(b, register_file, destination, head)
}

/// What [`lower_get_tl`] makes of a lowering.
pub open spec fn lower_get_tl_ir(
    b: LoweringView,
    register_file: Value,
    source: OperandView,
    destination: OperandView,
) -> Result<LoweringView, JitFault> {
    match read_operand_term_ir(b, register_file, source) {
        Err(e) => Err(e),
        Ok((list, b)) => {
            let (cell, b) = untagged_ptr_ir(b, list);
            let (tail, b) = b.emit(IrOp::Load { ty: IrType::I64, base: cell, offset: 8 });
            write_operand_term_ir(b, register_file, destination, tail)
        },
    }
}

/// Reads the tail of a list.
pub fn lower_get_tl(
    b: &mut Lowering,
    register_file: Value,
    source: &Operand,
    destination: &Operand,
) -> (r: Result<(), JitError>)
    ensures
        lowered(r, final(b)@) == lower_get_tl_ir(old(b)@, register_file, source.view(), destination.view()),
{
    let list = read_operand_term(b, register_file, source)?;
    let cell = untagged_ptr(b, list);
    let tail = b.emit(IrOp::Load { ty: IrType::I64, base: cell, offset: 8 });
    write_operand_term(b, register_file, destination, tail)
}

/// What [`lower_get_list`] makes of a lowering.
pub open spec fn lower_get_list_ir(
    b: LoweringView,
    register_file: Value,
    source: OperandView,
    head: OperandView,
    tail: OperandView,
) -> Result<LoweringView, JitFault> {
    match read_operand_term_ir(b, register_file, source) {
        Err(e) => Err(e),
        Ok((list, b)) => {
            let (cell, b) = untagged_ptr_ir(b, list);
            let (head_value, b) = b.emit(IrOp::Load { ty: IrType::I64, base: cell, offset: 0 });
            let (tail_value, b) = b.emit(IrOp::Load { ty: IrType::I64, base: cell, offset: 8 });
            match write_operand_term_ir(b, register_file, head, head_value) {
                Err(e) => Err(e),
                Ok(b) => write_operand_term_ir(b, register_file, tail, tail_value),
            }
        },
    }
}

/// Reads the head and the tail of a list; both before either is written.
pub fn lower_get_list(
    b: &mut Lowering,
    register_file: Value,
    source: &Operand,
    head: &Operand,
    tail: &Operand,
) -> (r: Result<(), JitError>)
    ensures
        lowered(r, final(b)@) == lower_get_list_ir(old(b)@, register_file, source.view(), head.view(), tail.view()),
{
    let list = read_operand_term(b, register_file, source)?;
    let cell = untagged_ptr(b, list);
    let head_value = b.emit(IrOp::Load { ty: IrType::I64, base: cell, offset: 0 });
    let tail_value = b.emit(IrOp::Load { ty: IrType::I64, base: cell, offset: 8 });
    write_operand_term(b, register_file, head, head_value)?;
    write_operand_term(b, register_file, tail, tail_value)
}

/// What [`lower_get_tuple_element`] makes of a lowering.
pub open spec fn lower_get_tuple_element_ir(
    b: LoweringView,
    register_file: Value,
    source: OperandView,
    index: usize,
    destination: OperandView,
) -> Result<LoweringView, JitFault> {
    if index >= MAX_OFFSET / WORD_BYTES {
        Err(number_fault("tuple element offset "@, index as u64))
    } else {
        match read_operand_term_ir(b, register_file, source) {
            Err(e) => Err(e),
            Ok((tuple, b)) => {
                let (cell, b) = untagged_ptr_ir(b, tuple);
                let (element, b) = b.emit(IrOp::Load { ty: IrType::I64, base: cell, offset: ((index + 1) * 8) as i64 });
                write_operand_term_ir(b, register_file, destination, element)
            },
        }
    }
}

/// Reads an element of a tuple.
pub fn lower_get_tuple_element(
    b: &mut Lowering,
    register_file: Value,
    source: &Operand,
    index: usize,
    destination: &Operand,
) -> (r: Result<(), JitError>)
    ensures
        lowered(r, final(b)@) == lower_get_tuple_element_ir(old(b)@, register_file, source.view(), index, destination.view()),
{
    if index >= MAX_OFFSET / WORD_BYTES {
        return Err(number_error("tuple element offset ", index as u64));
    }
    let tuple = read_operand_term(b, register_file, source)?;
    let cell = untagged_ptr(b, tuple);
    let element = b.emit(IrOp::Load { ty: IrType::I64, base: cell, offset: ((index + 1) * WORD_BYTES) as i64 });
    write_operand_term(b, register_file, destination, element)
}

} // verus!

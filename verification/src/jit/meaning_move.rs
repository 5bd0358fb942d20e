//! Laws of moves: they move the terms that registers stand for, whether these are
//! held as terms or as bare numbers.

use vstd::prelude::*;
use crate::loader::decode::compact::OperandView;
use crate::loader::decode::instruction::InstructionView;
use super::common::{is_register_of, read_operand_term_ir, write_operand_term_ir};
use super::control::BlockMapView;
use super::dispatch_core::{lower_core_instruction_ir, FunctionContext};
use super::error::JitFault;
use super::ir::{LoweringView, Value};
use super::meaning::{does, operand_value, Flow, Machine};
use super::meaning_core::{has_room, lemma_read, lemma_write};
use super::meaning_typed::standing_term;
use super::register::{
    law_registers_are_apart, register_operand_of, Register, X_REGISTER_COUNT,
};
use super::type_info::TypeView;
use super::typed::{copy_type_ir, swap_types_ir};
use super::typed_state::{
    known, law_types_are_per_register, learned, with_copy, with_swap, without, Types,
};

verus! {

/// Whether a register has a place in the register file.
pub open spec fn has_place(register: Register) -> bool {
    register matches Register::X(index) ==> index < X_REGISTER_COUNT
}

/// The term that an operand stands for, with the types that registers are known
/// to have.
pub open spec fn standing_operand(
    types: Types,
    m: Machine,
    register_file: Value,
    operand: OperandView,
) -> i64 {
    match register_operand_of(operand) {
        Ok(register) => standing_term(types, m.memory, m.values[register_file], register),
        Err(_) => operand_value(m, register_file, operand),
    }
}

pub proof fn lemma_operand_has_place(operand: OperandView)
    ensures
        match register_operand_of(operand) {
            Ok(register) => has_place(register) && is_register_of(operand),
            Err(_) => true,
        },
    decreases operand,
{
    if let OperandView::TypedRegister { register, .. } = operand {
        lemma_operand_has_place(*register);
    }
}

pub proof fn lemma_copied_types(
    types: Types,
    source: OperandView,
    destination: OperandView,
    other: Register,
)
    requires
        register_operand_of(destination) is Ok,
    ensures
        other != register_operand_of(destination)->Ok_0 ==> known(
            with_copy(types, source, destination),
            other,
        ) == known(types, other),
{
    let register = register_operand_of(destination)->Ok_0;
    law_types_are_per_register(types, register, TypeView::Int, other);
    if let Ok(from) = register_operand_of(source) {
        if let Some(type_) = known(types, from) {
            law_types_are_per_register(types, register, type_, other);
        }
    }
}

/// A move makes its destination stand for the term that its source stood for, and
/// every other register stands for what it stood for.
pub proof fn law_move_moves_the_term(
    b: LoweringView,
    context: FunctionContext,
    blocks: BlockMapView,
    index: usize,
    source: OperandView,
    destination: OperandView,
    instructions: Seq<InstructionView>,
    m: Machine,
    other: Register,
)
    requires
        has_room(b),
        context.register_file < b.ops.len(),
        has_place(other),
        lower_core_instruction_ir(
            b,
            context,
            blocks,
            index,
            InstructionView::Move { source, destination },
            instructions,
        ) is Ok,
    ensures
        ({
            let after = lower_core_instruction_ir(
                b,
                context,
                blocks,
                index,
                InstructionView::Move { source, destination },
                instructions,
            )->Ok_0.1;
            let base = m.values[context.register_file];
            does(after, b.ops.len() as int, Flow::Running(m)) matches Flow::Running(n)
                && standing_term(after.types, n.memory, base, other) == if register_operand_of(
                destination,
            ) == Ok::<Register, JitFault>(other) {
                standing_operand(b.types, m, context.register_file, source)
            } else {
                standing_term(b.types, m.memory, base, other)
            }
        }),
{
    let from = b.ops.len() as int;
    let start = Flow::Running(m);
    let file = context.register_file;
    lemma_read(b, file, source, from, start);
    let (value, b1) = read_operand_term_ir(b, file, source)->Ok_0;
    lemma_write(b1, file, destination, value, from, start);
    let b2 = write_operand_term_ir(b1, file, destination, value)->Ok_0;
    let register = register_operand_of(destination)->Ok_0;
    lemma_operand_has_place(source);
    lemma_operand_has_place(destination);
    assert(b1.types == b.types);
    let after = copy_type_ir(b2, source, destination);
    assert(after.ops == b2.ops);
    if other == register {
        law_types_are_per_register(b.types, register, TypeView::Int, other);
        if let Ok(from) = register_operand_of(source) {
            if let Some(type_) = known(b.types, from) {
                law_types_are_per_register(b.types, register, type_, other);
            }
        }
    } else {
        lemma_copied_types(b.types, source, destination, other);
        law_registers_are_apart(other, register);
    }
}

pub proof fn lemma_swapped_types(types: Types, left: OperandView, right: OperandView, other: Register)
    requires
        register_operand_of(left) is Ok,
        register_operand_of(right) is Ok,
    ensures
        known(with_swap(types, left, right), other) == if other == register_operand_of(left)->Ok_0 {
            known(types, register_operand_of(right)->Ok_0)
        } else if other == register_operand_of(right)->Ok_0 {
            known(types, register_operand_of(left)->Ok_0)
        } else {
            known(types, other)
        },
{
    let any = TypeView::Int;
    let l = register_operand_of(left)->Ok_0;
    let r = register_operand_of(right)->Ok_0;
    let rest = without(types, l);
    law_types_are_per_register(types, l, any, other);
    law_types_are_per_register(types, l, any, r);
    let both = without(rest, r);
    law_types_are_per_register(rest, r, any, other);
    law_types_are_per_register(rest, r, any, l);
    let one = match known(rest, r) {
        Some(type_) => {
            law_types_are_per_register(both, l, type_, other);
            law_types_are_per_register(both, l, type_, r);
            learned(both, l, type_)
        },
        None => both,
    };
    if let Some(type_) = known(types, l) {
        law_types_are_per_register(one, r, type_, other);
    }
}

/// An exchange makes each of its two registers stand for the term that the other
/// one stood for, and every other register stands for what it stood for.
pub proof fn law_swap_exchanges_the_terms(
    b: LoweringView,
    context: FunctionContext,
    blocks: BlockMapView,
    index: usize,
    left: OperandView,
    right: OperandView,
    instructions: Seq<InstructionView>,
    m: Machine,
    other: Register,
)
    requires
        has_room(b),
        context.register_file < b.ops.len(),
        has_place(other),
        lower_core_instruction_ir(
            b,
            context,
            blocks,
            index,
            InstructionView::Swap { left, right },
            instructions,
        ) is Ok,
    ensures
        ({
            let after = lower_core_instruction_ir(
                b,
                context,
                blocks,
                index,
                InstructionView::Swap { left, right },
                instructions,
            )->Ok_0.1;
            let base = m.values[context.register_file];
            does(after, b.ops.len() as int, Flow::Running(m)) matches Flow::Running(n)
                && standing_term(after.types, n.memory, base, other) == if register_operand_of(left)
                == Ok::<Register, JitFault>(other) {
                standing_operand(b.types, m, context.register_file, right)
            } else if register_operand_of(right) == Ok::<Register, JitFault>(other) {
                standing_operand(b.types, m, context.register_file, left)
            } else {
                standing_term(b.types, m.memory, base, other)
            }
        }),
{
    let from = b.ops.len() as int;
    let start = Flow::Running(m);
    let file = context.register_file;
    lemma_read(b, file, left, from, start);
    let (left_value, b1) = read_operand_term_ir(b, file, left)->Ok_0;
    lemma_read(b1, file, right, from, start);
    let (right_value, b2) = read_operand_term_ir(b1, file, right)->Ok_0;
    lemma_write(b2, file, left, right_value, from, start);
    let b3 = write_operand_term_ir(b2, file, left, right_value)->Ok_0;
    lemma_write(b3, file, right, left_value, from, start);
    let b4 = write_operand_term_ir(b3, file, right, left_value)->Ok_0;
    let after = swap_types_ir(b4, left, right);
    assert(after.ops == b4.ops);
    assert(b2.types == b.types);
    lemma_operand_has_place(left);
    lemma_operand_has_place(right);
    lemma_swapped_types(b.types, left, right, other);
    let l = register_operand_of(left)->Ok_0;
    let r = register_operand_of(right)->Ok_0;
    if l != r {
        law_registers_are_apart(l, r);
    }
    if other != l {
        law_registers_are_apart(other, l);
    }
    if other != r {
        law_registers_are_apart(other, r);
    }
}

} // verus!

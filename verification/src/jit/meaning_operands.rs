//! Laws of operands: the terms of constants, the places of registers, and what the
//! operands of arithmetic are.

use vstd::prelude::*;
use crate::atom::Atom;
use crate::loader::decode::compact::OperandView;
use crate::loader::decode::instruction::BifOp;
use super::arithmetic::{arithmetic_import_of, parse_bif_of, ArithmeticOp, BifView};
use super::common::{constant_term_of, is_register_of};
use super::dispatch_call::{immediate_u8_of, import_index_of};
use super::error::JitFault;
use super::guards::{expected_atom_of, immediate_raw_term_of, immediate_usize_of};
use super::register::{register_offset_of, register_operand_of, Register};

verus! {

/// The term of an integer is eight times the integer, and that of an atom eight times
/// its number and one; the empty list is 3. An integer has a term when it fits in 61
/// bits. Other operands are no constants.
pub proof fn law_constants_are_terms(value: i64, number: u64, atom: Atom)
    ensures
        match constant_term_of(OperandView::Integer(value)) {
            Ok(term) => term == 8 * value,
            Err(_) => 8 * value > i64::MAX || 8 * value < i64::MIN,
        },
        match constant_term_of(OperandView::Unsigned(number)) {
            Ok(term) => term == 8 * number,
            Err(_) => 8 * number > i64::MAX,
        },
        constant_term_of(OperandView::Atom(Some(atom))) matches Ok(term) && term == 8 * atom.0 + 1,
        constant_term_of(OperandView::Atom(None)) matches Ok(term) && term == 3,
        expected_atom_of(OperandView::Atom(Some(atom))) matches Ok(term) && term == 8 * atom.0 + 1,
        expected_atom_of(OperandView::Atom(None)) is Err,
        forall|operand: OperandView|
            !(operand is Integer || operand is Unsigned || operand is Atom)
                ==> #[trigger] constant_term_of(operand) is Err,
        forall|operand: OperandView|
            match (#[trigger] immediate_raw_term_of(operand), constant_term_of(operand)) {
                (Ok(raw), Ok(term)) => raw == term as u64,
                (Err(_), Err(_)) => true,
                _ => false,
            },
{
}

/// A count is what an operand says, when it is not negative and fits.
pub proof fn law_counts_are_what_they_say(value: i64, number: u64, context: Seq<char>)
    ensures
        match immediate_usize_of(OperandView::Integer(value), context) {
            Ok(count) => count == value,
            Err(_) => value < 0 || value > usize::MAX,
        },
        match immediate_usize_of(OperandView::Unsigned(number), context) {
            Ok(count) => count == number,
            Err(_) => number > usize::MAX,
        },
        match immediate_u8_of(OperandView::Integer(value), context) {
            Ok(count) => count == value,
            Err(_) => value < 0 || value > 255,
        },
        match immediate_u8_of(OperandView::Unsigned(number), context) {
            Ok(count) => count == number,
            Err(_) => number > 255,
        },
        match import_index_of(OperandView::Unsigned(number)) {
            Ok(count) => count == number,
            Err(_) => number > usize::MAX,
        },
{
}

/// The X registers stand in a row of 1024 words at the start of the register file, and
/// the Y registers behind them. What is known of the type of a register does not
/// matter to its place.
pub proof fn law_registers_stand_in_a_row(index: u32, typed: OperandView)
    ensures
        register_operand_of(OperandView::X(index)) is Ok <==> index < 1024,
        register_operand_of(OperandView::X(index)) matches Ok(register) ==> register == Register::X(
            index,
        ),
        register_operand_of(OperandView::Y(index)) matches Ok(Register::Y(i)) && i == index,
        index < 1024 ==> register_offset_of(Register::X(index)) == 8 * index,
        register_offset_of(Register::Y(index)) == 8 * 1024 + 8 * index,
        typed is TypedRegister ==> register_operand_of(typed) == register_operand_of(
            *typed->TypedRegister_register,
        ),
        forall|operand: OperandView| #[trigger]
            is_register_of(operand) <==> operand is X || operand is Y || operand is TypedRegister,
{
}

/// The first five imports are the sum, the difference, the product, the quotient and the
/// remainder; no other import is arithmetic.
pub proof fn law_arithmetic_imports_are_the_first(number: u64)
    ensures
        match arithmetic_import_of(OperandView::Unsigned(number)) {
            Ok(ArithmeticOp::Add) => number == 0,
            Ok(ArithmeticOp::Subtract) => number == 1,
            Ok(ArithmeticOp::Multiply) => number == 2,
            Ok(ArithmeticOp::Div) => number == 3,
            Ok(ArithmeticOp::Rem) => number == 4,
            Err(_) => number > 4,
        },
{
}

/// A call of a built-in function of two arguments says where to go when it fails, the
/// import, the two arguments in their order, and where the result goes; one that may
/// collect garbage can say how many registers are live, behind the label.
pub proof fn law_operands_of_arithmetic(
    fail: OperandView,
    live: OperandView,
    import: OperandView,
    left: OperandView,
    right: OperandView,
    destination: OperandView,
)
    ensures
        ({
            let parsed = BifView { fail, import, left, right, destination };
            &&& parse_bif_of(BifOp::Bif2, seq![fail, import, left, right, destination]) == Ok::<
                BifView,
                JitFault,
            >(parsed)
            &&& parse_bif_of(BifOp::GcBif2, seq![fail, import, left, right, destination]) == Ok::<
                BifView,
                JitFault,
            >(parsed)
            &&& parse_bif_of(
                BifOp::GcBif2,
                seq![fail, live, import, left, right, destination],
            ) == Ok::<BifView, JitFault>(parsed)
        }),
{
}

} // verus!

//! Laws of what is known of types: what a test that is settled by a type says of the
//! terms of that type, and what the type of a part is.

use vstd::prelude::*;
use crate::loader::decode::compact::OperandView;
use crate::loader::decode::instruction::TypeTestOp;
use super::ir::{Block, IrOp, LoweringView};
use super::meaning_guards::{boxed_as, has_type, is_tuple_of};
use super::register::{register_operand_of, Register};
use super::type_info::TypeView;
use super::typed::{
    lower_typed_test_arity_ir, lower_typed_type_test_ir, typed_guard_decision_of, GuardDecision,
};
use super::typed_state::{
    known, list_head_type_of, list_tail_type_of, list_type_from_head_of, tuple_element_type_of,
    Types,
};

verus! {

/// Whether a term has the form of a type: an integer has its lowest three bits clear, an
/// atom 1 there, and a list 5 unless it is the empty list, which is 3; a tuple, a float
/// and a binary are boxed, with headers that say which they are.
pub open spec fn has_form(memory: Map<int, i64>, type_: TypeView, term: i64) -> bool {
    match type_ {
        TypeView::Int => term as int % 8 == 0,
        TypeView::Atom => term as int % 8 == 1,
        TypeView::Bool => term as int % 8 == 1,
        TypeView::Nil => term == 3,
        TypeView::List(_) => term == 3 || term as int % 8 == 5,
        TypeView::Tuple(elements) => boxed_as(memory, term, 16) && is_tuple_of(
            memory,
            term,
            elements.len() as usize,
        ),
        TypeView::Float => boxed_as(memory, term, 17),
        TypeView::String => boxed_as(memory, term, 22) || boxed_as(memory, term, 25) || boxed_as(
            memory,
            term,
            26,
        ),
        TypeView::BitArray => boxed_as(memory, term, 22) || boxed_as(memory, term, 25) || boxed_as(
            memory,
            term,
            26,
        ),
        TypeView::Dynamic => false,
    }
}

/// A test that the type of a value settles is settled as it comes out for every term of
/// that type.
pub proof fn law_types_settle_tests_rightly(
    memory: Map<int, i64>,
    type_: TypeView,
    op: TypeTestOp,
    term: i64,
)
    requires
        has_form(memory, type_, term),
        op is IsInteger || op is IsAtom || op is IsList || op is IsTuple || op is IsBinary,
    ensures
        match typed_guard_decision_of(type_, op) {
            GuardDecision::AlwaysTrue => has_type(memory, op, term),
            GuardDecision::AlwaysFalse => !has_type(memory, op, term),
            GuardDecision::Unknown => false,
        },
{
}

/// Booleans are the values of their type, and floats those of theirs; the empty list is no
/// list that has a head, and of other values a type does not say whether they are one.
/// Nothing is settled of pids, functions, maps, references, ports and numbers.
pub proof fn law_other_tests_are_settled_by_their_types(type_: TypeView)
    ensures
        typed_guard_decision_of(type_, TypeTestOp::IsBoolean) == if type_ is Bool {
            GuardDecision::AlwaysTrue
        } else {
            GuardDecision::AlwaysFalse
        },
        typed_guard_decision_of(type_, TypeTestOp::IsFloat) == if type_ is Float {
            GuardDecision::AlwaysTrue
        } else {
            GuardDecision::AlwaysFalse
        },
        typed_guard_decision_of(type_, TypeTestOp::IsNonemptyList) == if type_ is Nil {
            GuardDecision::AlwaysFalse
        } else {
            GuardDecision::Unknown
        },
        typed_guard_decision_of(type_, TypeTestOp::IsPid) is Unknown,
        typed_guard_decision_of(type_, TypeTestOp::IsFunction) is Unknown,
        typed_guard_decision_of(type_, TypeTestOp::IsMap) is Unknown,
        typed_guard_decision_of(type_, TypeTestOp::IsReference) is Unknown,
        typed_guard_decision_of(type_, TypeTestOp::IsPort) is Unknown,
        typed_guard_decision_of(type_, TypeTestOp::IsNumber) is Unknown,
{
}

/// A settled test is a jump to where it leads, and nothing else: on where it holds, and to
/// `fail` where it does not. A test that is not settled is left as it is.
pub proof fn law_settled_tests_are_jumps(
    b: LoweringView,
    op: TypeTestOp,
    register: Register,
    value: OperandView,
    type_: TypeView,
    fail: Block,
    success: Block,
)
    requires
        register_operand_of(value) matches Ok(r) && r == register,
        known(b.types, register) == Some(type_),
        b.ops.len() < usize::MAX,
    ensures
        ({
            let (settled, after) = lower_typed_type_test_ir(b, op, value, fail, success);
            match typed_guard_decision_of(type_, op) {
                GuardDecision::AlwaysTrue => settled && after.ops == b.ops.push(
                    IrOp::Jump { block: success },
                ),
                GuardDecision::AlwaysFalse => settled && after.ops == b.ops.push(
                    IrOp::Jump { block: fail },
                ),
                GuardDecision::Unknown => !settled && after == b,
            }
        }),
{
}

/// How many elements a tuple has is settled by its type: going on where it is as many as
/// is asked, and to `fail` where it is not.
pub proof fn law_known_arity_settles_the_test(
    b: LoweringView,
    register: Register,
    tuple: OperandView,
    elements: Seq<TypeView>,
    arity: u64,
    fail: Block,
    success: Block,
)
    requires
        register_operand_of(tuple) matches Ok(r) && r == register,
        known(b.types, register) == Some(TypeView::Tuple(elements)),
        arity <= usize::MAX,
    ensures
        lower_typed_test_arity_ir(b, tuple, OperandView::Unsigned(arity), fail, success) matches Ok(
            (settled, after),
        ) && settled && after.ops == b.ops.push(
            IrOp::Jump {
                block: if elements.len() == arity {
                    success
                } else {
                    fail
                },
            },
        ),
{
}

/// The head of a list of a type has that type, and its tail is such a list; an element of
/// a tuple has the type at its position; and a list whose head has a type is a list of
/// it. Of parts of other values nothing is known.
pub proof fn law_parts_have_the_types_inside(
    types: Types,
    register: Register,
    source: OperandView,
    type_: TypeView,
    index: usize,
)
    requires
        register_operand_of(source) matches Ok(r) && r == register,
        known(types, register) == Some(type_),
    ensures
        list_head_type_of(types, source) == match type_ {
            TypeView::List(inner) => Some(*inner),
            _ => None,
        },
        list_tail_type_of(types, source) == match type_ {
            TypeView::List(_) => Some(type_),
            _ => None,
        },
        tuple_element_type_of(types, source, index) == match type_ {
            TypeView::Tuple(elements) => if index < elements.len() {
                Some(elements[index as int])
            } else {
                None
            },
            _ => None,
        },
        list_type_from_head_of(types, source) matches Some(TypeView::List(inner)) && *inner
            == type_,
{
}

} // verus!

//! Laws of typed lowering: a register that is known to hold an integer holds it
//! as a bare number, and stands for the term of that number.

use vstd::prelude::*;
use crate::loader::decode::compact::OperandView;
use crate::term::{is_small, small_value_of, SMALL_INT_MAX, SMALL_INT_MIN, SMALL_INT_SHIFT};
use super::arithmetic::{lower_word_arithmetic_ir, ArithmeticOp, ArithmeticTargets};
use super::common::branch_to_fail_if_ir;
use super::helper::IrType;
use super::ir::{Block, ImmCode, IntCc, IrOp, LoweringView, Value};
use super::meaning::{
    does, lemma_emit, only_made_values, quotient, register_address, remainder, Flow, Machine,
};
use super::meaning_core::{
    arithmetic_term, has_room, lemma_branch_if, lemma_tagged, lemma_word_arithmetic, word_result,
    WordResult,
};
use super::register::{register_offset_of, register_operand_of, Register};
use super::type_info::TypeView;
use super::typed::{
    branch_to_deopt_if_not_small_int_ir, lower_typed_int_arithmetic_ir, materialize_register_ir,
    read_return_value_ir,
};
use super::typed_state::{known, Types};

verus! {

/// Whether a register holds a bare number.
pub open spec fn is_bare(types: Types, register: Register) -> bool {
    known(types, register) == Some(TypeView::Int)
}

/// The term that a register stands for.
pub open spec fn standing_term(
    types: Types,
    memory: Map<int, i64>,
    base: i64,
    register: Register,
) -> i64 {
    let word = memory[register_address(base, register)];
    if is_bare(types, register) {
        (word * 8) as i64
    } else {
        word
    }
}

/// Whether the bare number in a register, if it holds one, fits in a term.
pub open spec fn bare_fits(
    types: Types,
    memory: Map<int, i64>,
    base: i64,
    register: Register,
) -> bool {
    is_bare(types, register) ==> is_small(memory[register_address(base, register)] as int)
}

/// Making what a register holds a term stores the term that it stood for, and
/// leaves the rest of the memory.
pub proof fn law_materializing_stores_the_term(
    b: LoweringView,
    register_file: Value,
    register: Register,
    m: Machine,
)
    requires
        has_room(b),
        register_file < b.ops.len(),
        bare_fits(b.types, m.memory, m.values[register_file], register),
    ensures
        ({
            let after = materialize_register_ir(b, register_file, register);
            let address = register_address(m.values[register_file], register);
            does(after, b.ops.len() as int, Flow::Running(m)) matches Flow::Running(n)
                && n.memory[address] == standing_term(
                b.types,
                m.memory,
                m.values[register_file],
                register,
            ) && forall|other: int|
                other != address ==> #[trigger] n.memory[other] == m.memory[other]
        }),
{
    let from = b.ops.len() as int;
    let start = Flow::Running(m);
    if is_bare(b.types, register) {
        let b0 = super::typed::forget_register_ir(b, register);
        assert(b0.ops == b.ops);
        let offset = register_offset_of(register);
        let op1 = IrOp::Load { ty: IrType::I64, base: register_file, offset };
        lemma_emit(b0, op1, from, start);
        let (payload, b1) = b0.emit(op1);
        let op2 = IrOp::BinaryImm { code: ImmCode::Ishl, left: payload, imm: SMALL_INT_SHIFT };
        lemma_emit(b1, op2, from, start);
        let (tagged, b2) = b1.emit(op2);
        lemma_emit(b2, IrOp::Store { value: tagged, base: register_file, offset }, from, start);
        lemma_tagged(m.memory[register_address(m.values[register_file], register)]);
    }
}

/// A function returns the term that the first register stands for.
pub proof fn law_return_value_is_the_first_register(
    b: LoweringView,
    register_file: Value,
    m: Machine,
)
    requires
        has_room(b),
        register_file < b.ops.len(),
        bare_fits(b.types, m.memory, m.values[register_file], Register::X(0)),
    ensures
        ({
            let (value, after) = read_return_value_ir(b, register_file);
            does(after, b.ops.len() as int, Flow::Running(m)) matches Flow::Running(n)
                && n.memory == m.memory && n.values[value] == standing_term(
                b.types,
                m.memory,
                m.values[register_file],
                Register::X(0),
            )
        }),
{
    let from = b.ops.len() as int;
    let start = Flow::Running(m);
    let offset = register_offset_of(Register::X(0));
    let op1 = IrOp::Load { ty: IrType::I64, base: register_file, offset };
    lemma_emit(b, op1, from, start);
    let (value, b1) = b.emit(op1);
    let op2 = IrOp::BinaryImm { code: ImmCode::Ishl, left: value, imm: SMALL_INT_SHIFT };
    lemma_emit(b1, op2, from, start);
    if is_bare(b.types, Register::X(0)) {
        lemma_tagged(m.memory[register_address(m.values[register_file], Register::X(0))]);
    }
}

/// Where arithmetic on bare numbers goes, and the number that it stores: to
/// `fail` for a divisor of zero, to `deopt` when the result does not fit. What
/// divisions give is not checked to fit.
pub open spec fn bare_result(op: ArithmeticOp, left: i64, right: i64) -> WordResult {
    match word_result(op, left, right) {
        WordResult::Value(number) => if op is Div || op is Rem || is_small(number) {
            WordResult::Value(number)
        } else {
            WordResult::Overflow
        },
        other => other,
    }
}

proof fn lemma_deopt_unless_small(
    b: LoweringView,
    value: Value,
    deopt: Block,
    from: int,
    start: Flow,
)
    requires
        b.ops.len() + 20 <= usize::MAX,
        0 <= from <= b.ops.len(),
        value < b.ops.len(),
        deopt < b.ops.len(),
        does(b, from, start) matches Flow::Left(block, _) ==> block < b.ops.len(),
    ensures
        ({
            let after = branch_to_deopt_if_not_small_int_ir(b, value, deopt);
            &&& after.ops.len() == b.ops.len() + 8
            &&& match does(b, from, start) {
                Flow::Running(m) => if is_small(m.values[value] as int) {
                    does(after, from, start) matches Flow::Running(n) && only_made_values(
                        m,
                        n,
                        b.ops.len() as int,
                    )
                } else {
                    does(after, from, start) matches Flow::Left(block, n) && block == deopt
                        && only_made_values(m, n, b.ops.len() as int)
                },
                other => does(after, from, start) == other,
            }
        }),
{
    let op1 = IrOp::CompareImm { cc: IntCc::SignedLessThan, left: value, imm: SMALL_INT_MIN };
    lemma_emit(b, op1, from, start);
    let (below_min, b1) = b.emit(op1);
    lemma_branch_if(b1, below_min, deopt, from, start);
    let b2 = branch_to_fail_if_ir(b1, below_min, deopt);
    let op3 = IrOp::CompareImm { cc: IntCc::SignedGreaterThan, left: value, imm: SMALL_INT_MAX };
    lemma_emit(b2, op3, from, start);
    let (above_max, b3) = b2.emit(op3);
    lemma_branch_if(b3, above_max, deopt, from, start);
}

/// Arithmetic on bare numbers stores its result in the destination and goes on;
/// without a result it goes where it fails, or lets the interpreter take over,
/// and leaves every register as it was.
pub proof fn law_bare_arithmetic_computes(
    b: LoweringView,
    register_file: Value,
    op: ArithmeticOp,
    left: OperandView,
    right: OperandView,
    destination: OperandView,
    targets: ArithmeticTargets,
    deopt: Block,
    m: Machine,
)
    requires
        has_room(b),
        register_file < b.ops.len(),
        targets.fail < b.ops.len(),
        targets.success < b.ops.len(),
        deopt < b.ops.len(),
        lower_typed_int_arithmetic_ir(
            b,
            register_file,
            op,
            left,
            right,
            destination,
            targets,
            deopt,
        ) is Ok,
    ensures
        ({
            let after = lower_typed_int_arithmetic_ir(
                b,
                register_file,
                op,
                left,
                right,
                destination,
                targets,
                deopt,
            )->Ok_0;
            let base = m.values[register_file];
            let x = m.memory[register_address(base, register_operand_of(left)->Ok_0)];
            let y = m.memory[register_address(base, register_operand_of(right)->Ok_0)];
            let end = does(after, b.ops.len() as int, Flow::Running(m));
            match bare_result(op, x, y) {
                WordResult::Value(number) => end matches Flow::Left(block, n) && block
                    == targets.success && n.memory == m.memory.insert(
                    register_address(base, register_operand_of(destination)->Ok_0),
                    number as i64,
                ),
                WordResult::Zero => end matches Flow::Left(block, n) && block == targets.fail
                    && n.memory == m.memory,
                WordResult::Overflow => end matches Flow::Left(block, n) && block == deopt
                    && n.memory == m.memory,
            }
        }),
{
    let from = b.ops.len() as int;
    let start = Flow::Running(m);
    let left_offset = register_offset_of(register_operand_of(left)->Ok_0);
    let op1 = IrOp::Load { ty: IrType::I64, base: register_file, offset: left_offset };
    lemma_emit(b, op1, from, start);
    let (x, b1) = b.emit(op1);
    let right_offset = register_offset_of(register_operand_of(right)->Ok_0);
    let op2 = IrOp::Load { ty: IrType::I64, base: register_file, offset: right_offset };
    lemma_emit(b1, op2, from, start);
    let (y, b2) = b1.emit(op2);
    lemma_word_arithmetic(b2, op, x, y, targets.fail, deopt, from, start);
    let (result, b3) = lower_word_arithmetic_ir(b2, op, x, y, targets.fail, deopt);
    let b4 = if op is Div || op is Rem {
        b3
    } else {
        lemma_deopt_unless_small(b3, result, deopt, from, start);
        branch_to_deopt_if_not_small_int_ir(b3, result, deopt)
    };
    let offset = register_offset_of(register_operand_of(destination)->Ok_0);
    let op5 = IrOp::Store { value: result, base: register_file, offset };
    lemma_emit(b4, op5, from, start);
    let b5 = b4.emit(op5).1;
    lemma_emit(b5, IrOp::Jump { block: targets.success }, from, start);
}

/// Arithmetic on bare numbers gives the number whose term arithmetic on the terms
/// gives, and a number that fits in a term. The one exception is the smallest
/// integer of a term divided by minus one: its quotient does not fit, and is not
/// checked to.
pub proof fn law_bare_arithmetic_agrees_with_terms(op: ArithmeticOp, left: i64, right: i64)
    requires
        is_small(left as int),
        is_small(right as int),
        !(op is Div && left == SMALL_INT_MIN && right == -1),
    ensures
        match bare_result(op, left, right) {
            WordResult::Value(number) => is_small(number) && arithmetic_term(
                op,
                (left * 8) as i64,
                (right * 8) as i64,
            ) == Some((number * 8) as i64),
            _ => arithmetic_term(op, (left * 8) as i64, (right * 8) as i64) is None,
        },
{
    assert(small_value_of((left * 8) as i64) == Some(left));
    assert(small_value_of((right * 8) as i64) == Some(right));
    if (op is Div || op is Rem) && right != 0 {
        lemma_small_division(left as int, right as int);
    }
}

proof fn lemma_small_division(a: int, d: int)
    requires
        is_small(a),
        is_small(d),
        d != 0,
    ensures
        a == SMALL_INT_MIN && d == -1 || is_small(quotient(a, d)),
        is_small(remainder(a, d)),
{
    let n: int = if a >= 0 {
        a
    } else {
        -a
    };
    let q = n / d;
    let r = n % d;
    let size: int = if d > 0 {
        d
    } else {
        -d
    };
    assert(n == q * d + r && 0 <= r < size) by {
        vstd::arithmetic::div_mod::lemma_fundamental_div_mod(n, d);
        assert(d * q == q * d) by (nonlinear_arith);
    }
    assert(-n <= q <= n) by (nonlinear_arith)
        requires
            n == q * d + r,
            0 <= r < size,
            n >= 0,
            size == d || size == -d,
            size > 0,
    ;
    assert(q != -n || d == -1 || n == 0) by (nonlinear_arith)
        requires
            n == q * d + r,
            0 <= r < size,
            n >= 0,
            size == (if d > 0 {
                d
            } else {
                -d
            }),
            d != 0,
    ;
    if a < 0 {
        assert((-q) * d == -(q * d)) by (nonlinear_arith);
        assert(remainder(a, d) == -r);
    } else {
        assert(remainder(a, d) == r);
    }
}

} // verus!

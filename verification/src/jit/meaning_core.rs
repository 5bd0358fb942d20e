//! Laws of lowered instructions: what running them does.

use vstd::prelude::*;
use crate::loader::decode::compact::OperandView;
use crate::loader::decode::instruction::ComparisonOp;
use crate::term::{
    is_small, lemma_shift_divides, small_term_of, small_value_of, SMALL_INT_MAX, SMALL_INT_MIN,
    SMALL_INT_SHIFT, TERM_TAG_MASK,
};
use super::arithmetic::{
    lower_arithmetic_bif_ir, lower_comparison_ir, lower_word_arithmetic_ir, signed_add_overflow_ir,
    signed_sub_overflow_ir, ArithmeticOp, ArithmeticTargets, MINUS_ONE,
};
use super::common::{
    branch_to_fail_if_ir, checked_small_int_payload_ir, constant_term_of, is_register_of,
    read_operand_term_ir, write_operand_term_ir,
};
use super::helper::IrType;
use super::error::JitFault;
use super::ir::{BinaryCode, Block, ImmCode, IntCc, IrOp, LoweringView, Value};
use super::meaning::{
    does, flag, follow, lemma_emit, only_made_values, operand_value, quotient, register_address,
    remainder, Flow, Machine,
};
use super::meaning_standing::only_stored;
use super::register::{register_offset_of, register_operand_of};

verus! {

/// Whether there is room to lower one more instruction.
pub open spec fn has_room(b: LoweringView) -> bool {
    b.ops.len() + 1000 <= usize::MAX
}

pub proof fn lemma_read(b: LoweringView, register_file: Value, operand: OperandView, from: int, start: Flow)
    requires
        b.ops.len() < usize::MAX,
        0 <= from <= b.ops.len(),
        read_operand_term_ir(b, register_file, operand) is Ok,
    ensures
        ({
            let (value, after) = read_operand_term_ir(b, register_file, operand)->Ok_0;
            &&& value == b.ops.len()
            &&& after.ops.len() == b.ops.len() + 1
            &&& match does(b, from, start) {
                Flow::Running(m) => does(after, from, start) == Flow::Running(
                    m.with(value, operand_value(m, register_file, operand)),
                ),
                other => does(after, from, start) == other,
            }
        }),
{
    broadcast use lemma_emit;

    if is_register_of(operand) {
        let offset = register_offset_of(register_operand_of(operand)->Ok_0);
        let after = b.emit(IrOp::Load { ty: IrType::I64, base: register_file, offset }).1;
        assert(does(after, from, start) == follow(
            b.ops.len() as Value,
            IrOp::Load { ty: IrType::I64, base: register_file, offset },
            does(b, from, start),
        ));
    } else {
        let value = constant_term_of(operand)->Ok_0;
        let after = b.emit(IrOp::Iconst { ty: IrType::I64, value }).1;
        assert(does(after, from, start) == follow(
            b.ops.len() as Value,
            IrOp::Iconst { ty: IrType::I64, value },
            does(b, from, start),
        ));
    }
}

pub proof fn lemma_branch_if(b: LoweringView, condition: Value, fail: Block, from: int, start: Flow)
    requires
        b.ops.len() + 3 <= usize::MAX,
        0 <= from <= b.ops.len(),
        fail < b.ops.len(),
        does(b, from, start) matches Flow::Left(block, _) ==> block < b.ops.len(),
    ensures
        ({
            let after = branch_to_fail_if_ir(b, condition, fail);
            &&& after.ops.len() == b.ops.len() + 3
            &&& match does(b, from, start) {
                Flow::Running(m) => does(after, from, start) == if m.values[condition] != 0 {
                    Flow::Left(fail, m)
                } else {
                    Flow::Running(m)
                },
                other => does(after, from, start) == other,
            }
        }),
{
    broadcast use lemma_emit;

    let (continuation, b1) = b.create_block();
    let b2 = b1.emit(IrOp::Brif { condition, then_block: fail, else_block: continuation }).1;
    let b3 = b2.emit(IrOp::Switch { block: continuation }).1;
    assert(does(branch_to_fail_if_ir(b, condition, fail), from, start) == does(b3, from, start));
}

proof fn lemma_payload(b: LoweringView, term: Value, fail: Block, from: int, start: Flow)
    requires
        b.ops.len() + 6 <= usize::MAX,
        0 <= from <= b.ops.len(),
        fail < b.ops.len(),
        term < b.ops.len(),
        does(b, from, start) matches Flow::Left(block, _) ==> block < b.ops.len(),
    ensures
        ({
            let (value, after) = checked_small_int_payload_ir(b, term, fail);
            &&& value == b.ops.len() + 5
            &&& after.ops.len() == b.ops.len() + 6
            &&& match does(b, from, start) {
                Flow::Running(m) => match small_value_of(m.values[term]) {
                    Some(number) => does(after, from, start) matches Flow::Running(n)
                        && only_made_values(m, n, b.ops.len() as int) && n.values[value] == number,
                    None => does(after, from, start) matches Flow::Left(block, n) && block == fail
                        && only_made_values(m, n, b.ops.len() as int),
                },
                other => does(after, from, start) == other,
            }
        }),
{
    broadcast use lemma_emit;

    let (tag, b1) = b.emit(
        IrOp::BinaryImm {
            code: ImmCode::Band,
            left: term,
            imm: TERM_TAG_MASK,
        },
    );
    let (not_small, b2) = b1.emit(
        IrOp::CompareImm { cc: IntCc::NotEqual, left: tag, imm: 0 },
    );
    lemma_branch_if(b2, not_small, fail, from, start);
    if let Flow::Running(m) = does(b, from, start) {
        lemma_shift_divides(m.values[term]);
    }
}

/// What arithmetic on two words comes to.
pub enum WordResult {
    Value(int),
    /// The divisor is zero.
    Zero,
    /// The result does not fit in a word, or the division traps.
    Overflow,
}

/// A number as the result of arithmetic on words.
pub open spec fn fitting(value: int) -> WordResult {
    if i64::MIN <= value <= i64::MAX {
        WordResult::Value(value)
    } else {
        WordResult::Overflow
    }
}

/// What arithmetic on two words comes to.
pub open spec fn word_result(op: ArithmeticOp, left: i64, right: i64) -> WordResult {
    match op {
        ArithmeticOp::Add => fitting(left + right),
        ArithmeticOp::Subtract => fitting(left - right),
        ArithmeticOp::Multiply => fitting(left * right),
        ArithmeticOp::Div => if right == 0 {
            WordResult::Zero
        } else if left == i64::MIN && right == -1 {
            WordResult::Overflow
        } else {
            WordResult::Value(quotient(left as int, right as int))
        },
        ArithmeticOp::Rem => if right == 0 {
            WordResult::Zero
        } else if left == i64::MIN && right == -1 {
            WordResult::Overflow
        } else {
            WordResult::Value(remainder(left as int, right as int))
        },
    }
}

proof fn lemma_sum_overflow(a: i64, b: i64, r: i64)
    requires
        r == (a + b) as i64,
    ensures
        ((a ^ r) & (b ^ r)) < 0 <==> !(i64::MIN <= a + b <= i64::MAX),
{
    assert(((a ^ r) & (b ^ r)) < 0 <==> !(-0x8000_0000_0000_0000 <= a + b && a + b
        <= 0x7fff_ffff_ffff_ffff)) by (bit_vector)
        requires
            r == (a + b) as i64,
    ;
}

proof fn lemma_difference_overflow(a: i64, b: i64, r: i64)
    requires
        r == (a - b) as i64,
    ensures
        ((a ^ b) & (a ^ r)) < 0 <==> !(i64::MIN <= a - b <= i64::MAX),
{
    assert(((a ^ b) & (a ^ r)) < 0 <==> !(-0x8000_0000_0000_0000 <= a - b && a - b
        <= 0x7fff_ffff_ffff_ffff)) by (bit_vector)
        requires
            r == (a - b) as i64,
    ;
}

pub proof fn lemma_flags(a: bool, b: bool)
    ensures
        (flag(a) & flag(b)) == flag(a && b),
        (flag(a) | flag(b)) == flag(a || b),
{
    assert(0i64 & 0i64 == 0 && 0i64 & 1i64 == 0 && 1i64 & 0i64 == 0 && 1i64 & 1i64 == 1 && 0i64
        | 0i64 == 0 && 0i64 | 1i64 == 1 && 1i64 | 0i64 == 1 && 1i64 | 1i64 == 1) by (bit_vector);
}

pub proof fn lemma_quotient_fits(left: i64, right: i64)
    requires
        right != 0,
        !(left == i64::MIN && right == -1),
    ensures
        i64::MIN <= quotient(left as int, right as int) <= i64::MAX,
        i64::MIN <= remainder(left as int, right as int) <= i64::MAX,
{
    let a = left as int;
    let d = right as int;
    let n: int = if a >= 0 {
        a
    } else {
        -a
    };
    let q = n / d;
    let r = n % d;
    assert(n == q * d + r && 0 <= r) by {
        vstd::arithmetic::div_mod::lemma_fundamental_div_mod(n, d);
        assert(d * q == q * d) by (nonlinear_arith);
    }
    assert(r < if d > 0 {
        d
    } else {
        -d
    });
    assert(-n <= q <= n) by (nonlinear_arith)
        requires
            n == q * d + r,
            0 <= r,
            n >= 0,
            d != 0,
            r < (if d > 0 {
                d
            } else {
                -d
            }),
    ;
    if a == i64::MIN {
        assert(q != -n || d == -1) by (nonlinear_arith)
            requires
                n == q * d + r,
                0 <= r,
                n > 0,
                d != 0,
                r < (if d > 0 {
                    d
                } else {
                    -d
                }),
        ;
    }
    if a < 0 {
        assert((-q) * d == -(q * d)) by (nonlinear_arith);
        assert(remainder(a, d) == -r);
    } else {
        assert(remainder(a, d) == r);
    }
}

/// Whether code that follows a machine has made a value, or has left for where
/// there is none.
pub open spec fn made(
    m: Machine,
    after: Flow,
    value: Value,
    from: int,
    result: WordResult,
    zero: Block,
    overflow: Block,
) -> bool {
    match result {
        WordResult::Value(number) => after matches Flow::Running(n) && only_made_values(m, n, from)
            && n.values[value] == number,
        WordResult::Zero => after matches Flow::Left(block, n) && block == zero
            && only_made_values(m, n, from),
        WordResult::Overflow => after matches Flow::Left(block, n) && block == overflow
            && only_made_values(m, n, from),
    }
}

proof fn lemma_add(
    b: LoweringView,
    left: Value,
    right: Value,
    zero: Block,
    overflow: Block,
    from: int,
    start: Flow,
)
    requires
        b.ops.len() + 20 <= usize::MAX,
        0 <= from <= b.ops.len(),
        overflow < b.ops.len(),
        left < b.ops.len(),
        right < b.ops.len(),
        does(b, from, start) matches Flow::Left(block, _) ==> block < b.ops.len(),
    ensures
        ({
            let (value, after) = lower_word_arithmetic_ir(
                b,
                ArithmeticOp::Add,
                left,
                right,
                zero,
                overflow,
            );
            &&& b.ops.len() <= value < after.ops.len() <= b.ops.len() + 12
            &&& match does(b, from, start) {
                Flow::Running(m) => made(
                    m,
                    does(after, from, start),
                    value,
                    b.ops.len() as int,
                    word_result(ArithmeticOp::Add, m.values[left], m.values[right]),
                    zero,
                    overflow,
                ),
                other => does(after, from, start) == other,
            }
        }),
{
    broadcast use lemma_emit;

    let (value, b1) = b.emit(IrOp::Binary { code: BinaryCode::Iadd, left, right });
    let (x, b2) = b1.emit(IrOp::Binary { code: BinaryCode::Bxor, left, right: value });
    let (y, b3) = b2.emit(IrOp::Binary { code: BinaryCode::Bxor, left: right, right: value });
    let (z, b4) = b3.emit(IrOp::Binary { code: BinaryCode::Band, left: x, right: y });
    let (overflowed, b5) = b4.emit(
        IrOp::CompareImm { cc: IntCc::SignedLessThan, left: z, imm: 0 },
    );
    assert(signed_add_overflow_ir(b1, left, right, value) == (overflowed, b5));
    if let Flow::Running(m) = does(b, from, start) {
        let sum = (m.values[left] + m.values[right]) as i64;
        lemma_sum_overflow(m.values[left], m.values[right], sum);
        assert(does(b1, from, start) == Flow::Running(m.with(value, sum)));
        assert(does(b5, from, start) matches Flow::Running(n) && n.values[value] == sum);
    }
    lemma_branch_if(b5, overflowed, overflow, from, start);
}

proof fn lemma_subtract(
    b: LoweringView,
    left: Value,
    right: Value,
    zero: Block,
    overflow: Block,
    from: int,
    start: Flow,
)
    requires
        b.ops.len() + 20 <= usize::MAX,
        0 <= from <= b.ops.len(),
        overflow < b.ops.len(),
        left < b.ops.len(),
        right < b.ops.len(),
        does(b, from, start) matches Flow::Left(block, _) ==> block < b.ops.len(),
    ensures
        ({
            let (value, after) = lower_word_arithmetic_ir(
                b,
                ArithmeticOp::Subtract,
                left,
                right,
                zero,
                overflow,
            );
            &&& b.ops.len() <= value < after.ops.len() <= b.ops.len() + 12
            &&& match does(b, from, start) {
                Flow::Running(m) => made(
                    m,
                    does(after, from, start),
                    value,
                    b.ops.len() as int,
                    word_result(ArithmeticOp::Subtract, m.values[left], m.values[right]),
                    zero,
                    overflow,
                ),
                other => does(after, from, start) == other,
            }
        }),
{
    broadcast use lemma_emit;

    let (value, b1) = b.emit(IrOp::Binary { code: BinaryCode::Isub, left, right });
    let (x, b2) = b1.emit(IrOp::Binary { code: BinaryCode::Bxor, left, right });
    let (y, b3) = b2.emit(IrOp::Binary { code: BinaryCode::Bxor, left, right: value });
    let (z, b4) = b3.emit(IrOp::Binary { code: BinaryCode::Band, left: x, right: y });
    let (overflowed, b5) = b4.emit(
        IrOp::CompareImm { cc: IntCc::SignedLessThan, left: z, imm: 0 },
    );
    assert(signed_sub_overflow_ir(b1, left, right, value) == (overflowed, b5));
    if let Flow::Running(m) = does(b, from, start) {
        let difference = (m.values[left] - m.values[right]) as i64;
        lemma_difference_overflow(m.values[left], m.values[right], difference);
        assert(does(b1, from, start) == Flow::Running(m.with(value, difference)));
        assert(does(b5, from, start) matches Flow::Running(n) && n.values[value] == difference);
    }
    lemma_branch_if(b5, overflowed, overflow, from, start);
}

proof fn lemma_multiply(
    b: LoweringView,
    left: Value,
    right: Value,
    zero: Block,
    overflow: Block,
    from: int,
    start: Flow,
)
    requires
        b.ops.len() + 20 <= usize::MAX,
        0 <= from <= b.ops.len(),
        overflow < b.ops.len(),
        left < b.ops.len(),
        right < b.ops.len(),
        does(b, from, start) matches Flow::Left(block, _) ==> block < b.ops.len(),
    ensures
        ({
            let (value, after) = lower_word_arithmetic_ir(
                b,
                ArithmeticOp::Multiply,
                left,
                right,
                zero,
                overflow,
            );
            &&& b.ops.len() <= value < after.ops.len() <= b.ops.len() + 12
            &&& match does(b, from, start) {
                Flow::Running(m) => made(
                    m,
                    does(after, from, start),
                    value,
                    b.ops.len() as int,
                    word_result(ArithmeticOp::Multiply, m.values[left], m.values[right]),
                    zero,
                    overflow,
                ),
                other => does(after, from, start) == other,
            }
        }),
{
    broadcast use lemma_emit;

    let (value, b1) = b.emit(IrOp::SmulOverflow { left, right });
    let (overflowed, b2) = b1.emit(IrOp::Result { of: value, index: 1 });
    lemma_branch_if(b2, overflowed, overflow, from, start);
}

proof fn lemma_divide(
    b: LoweringView,
    op: ArithmeticOp,
    left: Value,
    right: Value,
    zero: Block,
    overflow: Block,
    from: int,
    start: Flow,
)
    requires
        op is Div || op is Rem,
        b.ops.len() + 20 <= usize::MAX,
        0 <= from <= b.ops.len(),
        zero < b.ops.len(),
        overflow < b.ops.len(),
        left < b.ops.len(),
        right < b.ops.len(),
        does(b, from, start) matches Flow::Left(block, _) ==> block < b.ops.len(),
    ensures
        ({
            let (value, after) = lower_word_arithmetic_ir(b, op, left, right, zero, overflow);
            &&& b.ops.len() <= value < after.ops.len() <= b.ops.len() + 12
            &&& match does(b, from, start) {
                Flow::Running(m) => made(
                    m,
                    does(after, from, start),
                    value,
                    b.ops.len() as int,
                    word_result(op, m.values[left], m.values[right]),
                    zero,
                    overflow,
                ),
                other => does(after, from, start) == other,
            }
        }),
{
    broadcast use lemma_emit;

    let (is_zero, b1) = b.emit(IrOp::CompareImm { cc: IntCc::Equal, left: right, imm: 0 });
    lemma_branch_if(b1, is_zero, zero, from, start);
    let b2 = branch_to_fail_if_ir(b1, is_zero, zero);
    let (min_divisor, b3) = b2.emit(
        IrOp::CompareImm { cc: IntCc::Equal, left: right, imm: MINUS_ONE },
    );
    let (min_dividend, b4) = b3.emit(IrOp::CompareImm { cc: IntCc::Equal, left, imm: i64::MIN });
    let (division_overflow, b5) = b4.emit(
        IrOp::Binary { code: BinaryCode::Band, left: min_dividend, right: min_divisor },
    );
    if let Flow::Running(m) = does(b, from, start) {
        lemma_flags(m.values[left] == i64::MIN, m.values[right] == -1);
        if m.values[right] != 0 {
            assert(does(b2, from, start) matches Flow::Running(n) && only_made_values(
                m,
                n,
                b.ops.len() as int,
            ));
            assert(does(b5, from, start) matches Flow::Running(n) && only_made_values(
                m,
                n,
                b.ops.len() as int,
            ) && n.values[division_overflow] == flag(
                m.values[left] == i64::MIN && m.values[right] == -1,
            ));
            if !(m.values[left] == i64::MIN && m.values[right] == -1) {
                lemma_quotient_fits(m.values[left], m.values[right]);
            }
        }
    }
    lemma_branch_if(b5, division_overflow, overflow, from, start);
}

pub proof fn lemma_word_arithmetic(
    b: LoweringView,
    op: ArithmeticOp,
    left: Value,
    right: Value,
    zero: Block,
    overflow: Block,
    from: int,
    start: Flow,
)
    requires
        b.ops.len() + 20 <= usize::MAX,
        0 <= from <= b.ops.len(),
        zero < b.ops.len(),
        overflow < b.ops.len(),
        left < b.ops.len(),
        right < b.ops.len(),
        does(b, from, start) matches Flow::Left(block, _) ==> block < b.ops.len(),
    ensures
        ({
            let (value, after) = lower_word_arithmetic_ir(b, op, left, right, zero, overflow);
            &&& b.ops.len() <= value < after.ops.len() <= b.ops.len() + 12
            &&& match does(b, from, start) {
                Flow::Running(m) => made(
                    m,
                    does(after, from, start),
                    value,
                    b.ops.len() as int,
                    word_result(op, m.values[left], m.values[right]),
                    zero,
                    overflow,
                ),
                other => does(after, from, start) == other,
            }
        }),
{
    match op {
        ArithmeticOp::Add => lemma_add(b, left, right, zero, overflow, from, start),
        ArithmeticOp::Subtract => lemma_subtract(b, left, right, zero, overflow, from, start),
        ArithmeticOp::Multiply => lemma_multiply(b, left, right, zero, overflow, from, start),
        _ => lemma_divide(b, op, left, right, zero, overflow, from, start),
    }
}

/// The term that an arithmetic instruction makes of two terms: there is one when
/// both are integers, the divisor is not zero, and the result fits in a term.
pub open spec fn arithmetic_term(op: ArithmeticOp, left: i64, right: i64) -> Option<i64> {
    match (small_value_of(left), small_value_of(right)) {
        (Some(left), Some(right)) => match word_result(op, left, right) {
            WordResult::Value(number) => if is_small(number) {
                small_term_of(number as i64)
            } else {
                None
            },
            _ => None,
        },
        _ => None,
    }
}

pub proof fn lemma_tagged(number: i64)
    requires
        is_small(number as int),
    ensures
        number << 3 == number * 8,
{
    assert(number << 3 == number * 8) by (bit_vector)
        requires
            -1_152_921_504_606_846_976 <= number <= 1_152_921_504_606_846_975,
    ;
}

pub proof fn lemma_write(
    b: LoweringView,
    register_file: Value,
    operand: OperandView,
    value: Value,
    from: int,
    start: Flow,
)
    requires
        b.ops.len() < usize::MAX,
        0 <= from <= b.ops.len(),
        write_operand_term_ir(b, register_file, operand, value) is Ok,
    ensures
        ({
            let after = write_operand_term_ir(b, register_file, operand, value)->Ok_0;
            &&& after.ops.len() == b.ops.len() + 1
            &&& match does(b, from, start) {
                Flow::Running(m) => does(after, from, start) == Flow::Running(
                    m.stored(
                        register_address(
                            m.values[register_file],
                            register_operand_of(operand)->Ok_0,
                        ),
                        m.values[value],
                    ),
                ),
                Flow::Left(block, m) => does(after, from, start) == Flow::Left(block, m),
                other => does(after, from, start) == other,
            }
        }),
{
    let offset = register_offset_of(register_operand_of(operand)->Ok_0);
    lemma_emit(b, IrOp::Store { value, base: register_file, offset }, from, start);
}

/// The operands of arithmetic and of orderings: read, and checked to be integers.
spec fn payloads_ir(
    b: LoweringView,
    register_file: Value,
    left: OperandView,
    right: OperandView,
    fail: Block,
) -> (Value, Value, LoweringView) {
    let (left_value, b) = read_operand_term_ir(b, register_file, left)->Ok_0;
    let (right_value, b) = read_operand_term_ir(b, register_file, right)->Ok_0;
    let (left_payload, b) = checked_small_int_payload_ir(b, left_value, fail);
    let (right_payload, b) = checked_small_int_payload_ir(b, right_value, fail);
    (left_payload, right_payload, b)
}

proof fn lemma_payloads(
    b: LoweringView,
    register_file: Value,
    left: OperandView,
    right: OperandView,
    fail: Block,
    m: Machine,
)
    requires
        b.ops.len() + 20 <= usize::MAX,
        register_file < b.ops.len(),
        fail < b.ops.len(),
        read_operand_term_ir(b, register_file, left) is Ok,
        read_operand_term_ir(
            read_operand_term_ir(b, register_file, left)->Ok_0.1,
            register_file,
            right,
        ) is Ok,
    ensures
        ({
            let (left_payload, right_payload, after) = payloads_ir(
                b,
                register_file,
                left,
                right,
                fail,
            );
            let end = does(after, b.ops.len() as int, Flow::Running(m));
            &&& after.ops.len() == b.ops.len() + 14
            &&& b.ops.len() <= left_payload < after.ops.len()
            &&& b.ops.len() <= right_payload < after.ops.len()
            &&& match (
                small_value_of(operand_value(m, register_file, left)),
                small_value_of(operand_value(m, register_file, right)),
            ) {
                (Some(x), Some(y)) => end matches Flow::Running(n) && only_made_values(
                    m,
                    n,
                    b.ops.len() as int,
                ) && n.values[left_payload] == x && n.values[right_payload] == y,
                _ => end matches Flow::Left(block, n) && block == fail && only_made_values(
                    m,
                    n,
                    b.ops.len() as int,
                ),
            }
        }),
{
    let from = b.ops.len() as int;
    let start = Flow::Running(m);
    lemma_read(b, register_file, left, from, start);
    let (left_value, b1) = read_operand_term_ir(b, register_file, left)->Ok_0;
    lemma_read(b1, register_file, right, from, start);
    let (right_value, b2) = read_operand_term_ir(b1, register_file, right)->Ok_0;
    lemma_payload(b2, left_value, fail, from, start);
    let (left_payload, b3) = checked_small_int_payload_ir(b2, left_value, fail);
    lemma_payload(b3, right_value, fail, from, start);
}

/// The end of arithmetic: a result that fits in a term is put in the destination.
spec fn finish_ir(
    b: LoweringView,
    register_file: Value,
    result: Value,
    destination: OperandView,
    targets: ArithmeticTargets,
) -> Result<LoweringView, JitFault> {
    let (min_check, b) = b.emit(
        IrOp::CompareImm { cc: IntCc::SignedLessThan, left: result, imm: SMALL_INT_MIN },
    );
    let (max_check, b) = b.emit(
        IrOp::CompareImm { cc: IntCc::SignedGreaterThan, left: result, imm: SMALL_INT_MAX },
    );
    let (out_of_range, b) = b.emit(
        IrOp::Binary { code: BinaryCode::Bor, left: min_check, right: max_check },
    );
    let b = branch_to_fail_if_ir(b, out_of_range, targets.fail);
    let (tagged, b) = b.emit(
        IrOp::BinaryImm { code: ImmCode::Ishl, left: result, imm: SMALL_INT_SHIFT },
    );
    match write_operand_term_ir(b, register_file, destination, tagged) {
        Err(e) => Err(e),
        Ok(b) => Ok(b.emit(IrOp::Jump { block: targets.success }).1),
    }
}

proof fn lemma_finish(
    b: LoweringView,
    register_file: Value,
    result: Value,
    destination: OperandView,
    targets: ArithmeticTargets,
    from: int,
    start: Flow,
)
    requires
        b.ops.len() + 20 <= usize::MAX,
        0 <= from <= b.ops.len(),
        register_file < b.ops.len(),
        result < b.ops.len(),
        targets.fail < b.ops.len(),
        targets.success < b.ops.len(),
        does(b, from, start) matches Flow::Left(block, _) ==> block < b.ops.len(),
        finish_ir(b, register_file, result, destination, targets) is Ok,
    ensures
        ({
            let after = finish_ir(b, register_file, result, destination, targets)->Ok_0;
            match does(b, from, start) {
                Flow::Running(m) => if is_small(m.values[result] as int) {
                    does(after, from, start) matches Flow::Left(block, n) && block
                        == targets.success && only_stored(m, n, b.ops.len() as int) && n.memory
                        == m.memory.insert(
                        register_address(
                            m.values[register_file],
                            register_operand_of(destination)->Ok_0,
                        ),
                        (m.values[result] * 8) as i64,
                    )
                } else {
                    does(after, from, start) matches Flow::Left(block, n) && block == targets.fail
                        && only_made_values(m, n, b.ops.len() as int)
                },
                other => does(after, from, start) == other,
            }
        }),
{
    let op1 = IrOp::CompareImm { cc: IntCc::SignedLessThan, left: result, imm: SMALL_INT_MIN };
    lemma_emit(b, op1, from, start);
    let (min_check, b1) = b.emit(op1);
    let op2 = IrOp::CompareImm { cc: IntCc::SignedGreaterThan, left: result, imm: SMALL_INT_MAX };
    lemma_emit(b1, op2, from, start);
    let (max_check, b2) = b1.emit(op2);
    let op3 = IrOp::Binary { code: BinaryCode::Bor, left: min_check, right: max_check };
    lemma_emit(b2, op3, from, start);
    let (out_of_range, b3) = b2.emit(op3);
    if let Flow::Running(m) = does(b, from, start) {
        let number = m.values[result];
        lemma_flags(number < SMALL_INT_MIN, number > SMALL_INT_MAX);
        if is_small(number as int) {
            lemma_tagged(number);
        }
    }
    lemma_branch_if(b3, out_of_range, targets.fail, from, start);
    let b4 = branch_to_fail_if_ir(b3, out_of_range, targets.fail);
    let op5 = IrOp::BinaryImm { code: ImmCode::Ishl, left: result, imm: SMALL_INT_SHIFT };
    lemma_emit(b4, op5, from, start);
    let (tagged, b5) = b4.emit(op5);
    lemma_write(b5, register_file, destination, tagged, from, start);
    let b6 = write_operand_term_ir(b5, register_file, destination, tagged)->Ok_0;
    lemma_emit(b6, IrOp::Jump { block: targets.success }, from, start);
}

/// Arithmetic puts its result in the destination and goes on; without a result it
/// goes where it fails, and leaves every register as it was.
pub proof fn law_arithmetic_computes(
    b: LoweringView,
    register_file: Value,
    op: ArithmeticOp,
    left: OperandView,
    right: OperandView,
    destination: OperandView,
    targets: ArithmeticTargets,
    m: Machine,
)
    requires
        has_room(b),
        register_file < b.ops.len(),
        targets.fail < b.ops.len(),
        targets.success < b.ops.len(),
        lower_arithmetic_bif_ir(b, register_file, op, left, right, destination, targets) is Ok,
    ensures
        ({
            let after = lower_arithmetic_bif_ir(
                b,
                register_file,
                op,
                left,
                right,
                destination,
                targets,
            )->Ok_0;
            let end = does(after, b.ops.len() as int, Flow::Running(m));
            match arithmetic_term(
                op,
                operand_value(m, register_file, left),
                operand_value(m, register_file, right),
            ) {
                Some(term) => end matches Flow::Left(block, n) && block == targets.success
                    && only_stored(m, n, b.ops.len() as int) && n.memory == m.memory.insert(
                    register_address(
                        m.values[register_file],
                        register_operand_of(destination)->Ok_0,
                    ),
                    term,
                ),
                None => end matches Flow::Left(block, n) && block == targets.fail
                    && only_made_values(m, n, b.ops.len() as int),
            }
        }),
{
    let from = b.ops.len() as int;
    let start = Flow::Running(m);
    lemma_payloads(b, register_file, left, right, targets.fail, m);
    let (left_payload, right_payload, b1) = payloads_ir(
        b,
        register_file,
        left,
        right,
        targets.fail,
    );
    lemma_word_arithmetic(
        b1,
        op,
        left_payload,
        right_payload,
        targets.fail,
        targets.fail,
        from,
        start,
    );
    let (result, b2) = lower_word_arithmetic_ir(
        b1,
        op,
        left_payload,
        right_payload,
        targets.fail,
        targets.fail,
    );
    lemma_finish(b2, register_file, result, destination, targets, from, start);
}

/// Whether a comparison of two terms holds. Only integers are ordered.
pub open spec fn comparison_holds(op: ComparisonOp, left: i64, right: i64) -> bool {
    match op {
        ComparisonOp::Eq | ComparisonOp::EqExact => left == right,
        ComparisonOp::Ne | ComparisonOp::NeExact => left != right,
        ComparisonOp::Lt => match (small_value_of(left), small_value_of(right)) {
            (Some(x), Some(y)) => x < y,
            _ => false,
        },
        ComparisonOp::Ge => match (small_value_of(left), small_value_of(right)) {
            (Some(x), Some(y)) => x >= y,
            _ => false,
        },
    }
}

/// A comparison goes on where it holds, and else where it fails, and leaves every
/// register as it was.
pub proof fn law_comparison_decides(
    b: LoweringView,
    register_file: Value,
    op: ComparisonOp,
    left: OperandView,
    right: OperandView,
    fail: Block,
    success: Block,
    m: Machine,
)
    requires
        has_room(b),
        register_file < b.ops.len(),
        fail < b.ops.len(),
        success < b.ops.len(),
        lower_comparison_ir(b, register_file, op, left, right, fail, success) is Ok,
    ensures
        ({
            let after = lower_comparison_ir(
                b,
                register_file,
                op,
                left,
                right,
                fail,
                success,
            )->Ok_0;
            let holds = comparison_holds(
                op,
                operand_value(m, register_file, left),
                operand_value(m, register_file, right),
            );
            does(after, b.ops.len() as int, Flow::Running(m)) matches Flow::Left(block, n)
                && block == (if holds {
                success
            } else {
                fail
            }) && only_made_values(m, n, b.ops.len() as int)
        }),
{
    let from = b.ops.len() as int;
    let start = Flow::Running(m);
    let (cc, l, r, b1) = if op is Lt || op is Ge {
        lemma_payloads(b, register_file, left, right, fail, m);
        let (l, r, b1) = payloads_ir(b, register_file, left, right, fail);
        (
            if op is Lt {
                IntCc::SignedLessThan
            } else {
                IntCc::SignedGreaterThanOrEqual
            },
            l,
            r,
            b1,
        )
    } else {
        lemma_read(b, register_file, left, from, start);
        let (l, b0) = read_operand_term_ir(b, register_file, left)->Ok_0;
        lemma_read(b0, register_file, right, from, start);
        let (r, b1) = read_operand_term_ir(b0, register_file, right)->Ok_0;
        (
            if op is Eq || op is EqExact {
                IntCc::Equal
            } else {
                IntCc::NotEqual
            },
            l,
            r,
            b1,
        )
    };
    let compare = IrOp::Compare { cc, left: l, right: r };
    lemma_emit(b1, compare, from, start);
    let (passed, b2) = b1.emit(compare);
    lemma_emit(
        b2,
        IrOp::Brif { condition: passed, then_block: success, else_block: fail },
        from,
        start,
    );
}

} // verus!

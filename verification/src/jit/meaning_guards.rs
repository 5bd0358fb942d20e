//! Laws of guards: what they decide of a term.

use vstd::prelude::*;
use crate::loader::decode::compact::OperandView;
use crate::loader::decode::instruction::TypeTestOp;
use crate::term::{
    lemma_shift_divides, ATOM_TAG, BINARY_HEADER_TAG, BOXED_TAG, EXTERNAL_PID_HEADER_TAG,
    HEADER_SIZE_SHIFT, HEADER_TAG_MASK, LIST_TAG, NIL_TERM, PID_TAG, POINTER_MASK,
    PROC_BIN_HEADER_TAG, SMALL_INT_TAG, SUB_BINARY_HEADER_TAG, TERM_TAG_MASK, TUPLE_HEADER_TAG,
};
use super::common::{branch_to_fail_if_ir, read_operand_term_ir};
use super::guards::{
    checked_tuple_header_ir, expected_atom_of, immediate_usize_of, lower_boxed_header_type_test_ir,
    lower_is_tagged_tuple_ir, lower_pid_type_test_ir, lower_test_arity_ir, lower_type_test_ir,
    primary_tag_matches_ir, primary_tag_mismatches_ir, untagged_ptr_ir,
};
use super::helper::IrType;
use super::ir::{BinaryCode, Block, ImmCode, IntCc, IrOp, LoweringView, Value};
use super::meaning::{
    compares, does, flag, lemma_emit, lemma_switch, only_made_values, operand_value, Flow, Machine,
};
use super::meaning_core::{has_room, lemma_branch_if, lemma_flags, lemma_read};
use super::meaning_select::unsigned;

verus! {

/// Where what a term refers to starts: its word without its tag.
pub open spec fn term_address(term: i64) -> int {
    term - term as int % 8
}

/// The header of a term that is boxed.
pub open spec fn header_of(memory: Map<int, i64>, term: i64) -> i64 {
    memory[term_address(term)]
}

/// Whether a term is boxed and its header has the tag.
pub open spec fn boxed_as(memory: Map<int, i64>, term: i64, tag: i64) -> bool {
    term as int % 8 == BOXED_TAG && header_of(memory, term) as int % 256 == tag
}

/// How many words follow a header.
pub open spec fn header_size(header: i64) -> int {
    unsigned(header) / 256
}

/// Whether a term has the type of a test.
pub open spec fn has_type(memory: Map<int, i64>, op: TypeTestOp, term: i64) -> bool {
    match op {
        TypeTestOp::IsInteger => term as int % 8 == SMALL_INT_TAG,
        TypeTestOp::IsAtom => term as int % 8 == ATOM_TAG,
        TypeTestOp::IsList => term as int % 8 == LIST_TAG || term == NIL_TERM,
        TypeTestOp::IsPid => term as int % 8 == PID_TAG || boxed_as(
            memory,
            term,
            EXTERNAL_PID_HEADER_TAG,
        ),
        TypeTestOp::IsBinary => boxed_as(memory, term, BINARY_HEADER_TAG) || boxed_as(
            memory,
            term,
            PROC_BIN_HEADER_TAG,
        ) || boxed_as(memory, term, SUB_BINARY_HEADER_TAG),
        TypeTestOp::IsTuple => boxed_as(memory, term, TUPLE_HEADER_TAG),
        _ => false,
    }
}

pub proof fn lemma_pointer(term: i64)
    ensures
        term & POINTER_MASK == term_address(term),
{
    lemma_shift_divides(term);
    let low = term & 7;
    let rest = term & POINTER_MASK;
    assert(rest == term - low) by (bit_vector)
        requires
            low == term & 7,
            rest == term & POINTER_MASK,
    ;
}

pub proof fn lemma_header_bits(header: i64)
    ensures
        header & 255 == header as int % 256,
        ((header as u64) >> 8) as i64 == header_size(header),
{
    let low = header & 255;
    let high = header >> 8;
    assert(header == high * 256 + low && 0 <= low < 256) by (bit_vector)
        requires
            low == header & 255,
            high == header >> 8,
    ;
    let word = header as u64;
    let size = word >> 8;
    let signed = size as i64;
    assert((header >= 0 ==> word == header) && (header < 0 ==> word == header
        + 0x1_0000_0000_0000_0000) && size == word / 256 && signed == size) by (bit_vector)
        requires
            word == header as u64,
            size == word >> 8,
            signed == size as i64,
    ;
}

/// Where code goes once a condition is decided.
pub open spec fn decided(
    m: Machine,
    after: Flow,
    from: int,
    holds: bool,
    success: Block,
    fail: Block,
) -> bool {
    after matches Flow::Left(block, n) && block == (if holds {
        success
    } else {
        fail
    }) && only_made_values(m, n, from)
}

proof fn lemma_tag(b: LoweringView, value: Value, cc: IntCc, tag: i64, from: int, start: Flow)
    requires
        b.ops.len() + 2 <= usize::MAX,
        0 <= from <= b.ops.len(),
        value < b.ops.len(),
    ensures
        ({
            let (low, b1) = b.emit(
                IrOp::BinaryImm { code: ImmCode::Band, left: value, imm: TERM_TAG_MASK },
            );
            let (result, after) = b1.emit(IrOp::CompareImm { cc, left: low, imm: tag });
            &&& result == b.ops.len() + 1
            &&& after.ops.len() == b.ops.len() + 2
            &&& match does(b, from, start) {
                Flow::Running(m) => does(after, from, start) matches Flow::Running(n)
                    && only_made_values(m, n, b.ops.len() as int) && n.values[result] == flag(
                    compares(cc, (m.values[value] as int % 8) as i64, tag),
                ),
                Flow::Left(block, m) => does(after, from, start) == Flow::Left(block, m),
                other => does(after, from, start) == other,
            }
        }),
{
    let op1 = IrOp::BinaryImm { code: ImmCode::Band, left: value, imm: TERM_TAG_MASK };
    lemma_emit(b, op1, from, start);
    let (low, b1) = b.emit(op1);
    lemma_emit(b1, IrOp::CompareImm { cc, left: low, imm: tag }, from, start);
    if let Flow::Running(m) = does(b, from, start) {
        lemma_shift_divides(m.values[value]);
    }
}

proof fn lemma_decide(
    b: LoweringView,
    condition: Value,
    success: Block,
    fail: Block,
    from: int,
    start: Flow,
)
    requires
        b.ops.len() < usize::MAX,
        0 <= from <= b.ops.len(),
    ensures
        ({
            let after = b.emit(
                IrOp::Brif { condition, then_block: success, else_block: fail },
            ).1;
            match does(b, from, start) {
                Flow::Running(m) => does(after, from, start) == Flow::Left(
                    if m.values[condition] != 0 {
                        success
                    } else {
                        fail
                    },
                    m,
                ),
                Flow::Left(block, m) => does(after, from, start) == Flow::Left(block, m),
                other => does(after, from, start) == other,
            }
        }),
{
    lemma_emit(
        b,
        IrOp::Brif { condition, then_block: success, else_block: fail },
        from,
        start,
    );
}

/// The header of a term and its tag.
spec fn header_ir(b: LoweringView, value: Value) -> (Value, Value, LoweringView) {
    let (ptr, b) = untagged_ptr_ir(b, value);
    let (header, b) = b.emit(IrOp::Load { ty: IrType::I64, base: ptr, offset: 0 });
    let (header_tag, b) = b.emit(
        IrOp::BinaryImm { code: ImmCode::Band, left: header, imm: HEADER_TAG_MASK },
    );
    (header, header_tag, b)
}

proof fn lemma_header(b: LoweringView, value: Value, from: int, start: Flow)
    requires
        b.ops.len() + 3 <= usize::MAX,
        0 <= from <= b.ops.len(),
        value < b.ops.len(),
    ensures
        ({
            let (header, header_tag, after) = header_ir(b, value);
            &&& header == b.ops.len() + 1
            &&& header_tag == b.ops.len() + 2
            &&& after.ops.len() == b.ops.len() + 3
            &&& match does(b, from, start) {
                Flow::Running(m) => does(after, from, start) matches Flow::Running(n)
                    && only_made_values(m, n, b.ops.len() as int) && n.values[header] == header_of(
                    m.memory,
                    m.values[value],
                ) && n.values[header_tag] == header_of(m.memory, m.values[value]) as int % 256,
                Flow::Left(block, m) => does(after, from, start) == Flow::Left(block, m),
                other => does(after, from, start) == other,
            }
        }),
{
    let op1 = IrOp::BinaryImm { code: ImmCode::Band, left: value, imm: POINTER_MASK };
    lemma_emit(b, op1, from, start);
    let (ptr, b1) = b.emit(op1);
    let op2 = IrOp::Load { ty: IrType::I64, base: ptr, offset: 0 };
    lemma_emit(b1, op2, from, start);
    let (header, b2) = b1.emit(op2);
    let op3 = IrOp::BinaryImm { code: ImmCode::Band, left: header, imm: HEADER_TAG_MASK };
    lemma_emit(b2, op3, from, start);
    if let Flow::Running(m) = does(b, from, start) {
        lemma_pointer(m.values[value]);
        lemma_header_bits(header_of(m.memory, m.values[value]));
    }
}

proof fn lemma_boxed_test(
    b: LoweringView,
    value: Value,
    first: i64,
    others: Option<(i64, i64)>,
    fail: Block,
    success: Block,
    from: int,
    start: Flow,
)
    requires
        b.ops.len() + 30 <= usize::MAX,
        0 <= from <= b.ops.len(),
        value < b.ops.len(),
        fail < b.ops.len(),
        success < b.ops.len(),
        does(b, from, start) matches Flow::Left(block, _) ==> block < b.ops.len(),
    ensures
        ({
            let after = lower_boxed_header_type_test_ir(b, value, first, others, fail, success);
            match does(b, from, start) {
                Flow::Running(m) => decided(
                    m,
                    does(after, from, start),
                    b.ops.len() as int,
                    boxed_as(m.memory, m.values[value], first) || (others matches Some(
                        (second, third),
                    ) && (boxed_as(m.memory, m.values[value], second) || boxed_as(
                        m.memory,
                        m.values[value],
                        third,
                    ))),
                    success,
                    fail,
                ),
                other => does(after, from, start) == other,
            }
        }),
{
    lemma_tag(b, value, IntCc::NotEqual, BOXED_TAG, from, start);
    let (not_boxed, b1) = primary_tag_mismatches_ir(b, value, BOXED_TAG);
    lemma_branch_if(b1, not_boxed, fail, from, start);
    let b2 = branch_to_fail_if_ir(b1, not_boxed, fail);
    lemma_header(b2, value, from, start);
    let (header, header_tag, b3) = header_ir(b2, value);
    let op4 = IrOp::CompareImm { cc: IntCc::Equal, left: header_tag, imm: first };
    lemma_emit(b3, op4, from, start);
    let (matched, b4) = b3.emit(op4);
    match others {
        None => {
            lemma_decide(b4, matched, success, fail, from, start);
        },
        Some((second, third)) => {
            let op5 = IrOp::CompareImm { cc: IntCc::Equal, left: header_tag, imm: second };
            lemma_emit(b4, op5, from, start);
            let (next, b5) = b4.emit(op5);
            let op6 = IrOp::Binary { code: BinaryCode::Bor, left: matched, right: next };
            lemma_emit(b5, op6, from, start);
            let (either, b6) = b5.emit(op6);
            let op7 = IrOp::CompareImm { cc: IntCc::Equal, left: header_tag, imm: third };
            lemma_emit(b6, op7, from, start);
            let (last, b7) = b6.emit(op7);
            let op8 = IrOp::Binary { code: BinaryCode::Bor, left: either, right: last };
            lemma_emit(b7, op8, from, start);
            let (any, b8) = b7.emit(op8);
            if let Flow::Running(m) = does(b3, from, start) {
                let tag = m.values[header_tag];
                lemma_flags(tag == first, tag == second);
                lemma_flags(tag == first || tag == second, tag == third);
            }
            lemma_decide(b8, any, success, fail, from, start);
        },
    }
}

proof fn lemma_pid_test(
    b: LoweringView,
    value: Value,
    fail: Block,
    success: Block,
    from: int,
    start: Flow,
)
    requires
        b.ops.len() + 60 <= usize::MAX,
        0 <= from <= b.ops.len(),
        value < b.ops.len(),
        fail < b.ops.len(),
        success < b.ops.len(),
        does(b, from, start) matches Flow::Left(block, _) ==> block < b.ops.len(),
    ensures
        ({
            let after = lower_pid_type_test_ir(b, value, fail, success);
            match does(b, from, start) {
                Flow::Running(m) => decided(
                    m,
                    does(after, from, start),
                    b.ops.len() as int,
                    has_type(m.memory, TypeTestOp::IsPid, m.values[value]),
                    success,
                    fail,
                ),
                other => does(after, from, start) == other,
            }
        }),
{
    lemma_tag(b, value, IntCc::Equal, PID_TAG, from, start);
    let (local, b1) = primary_tag_matches_ir(b, value, PID_TAG);
    lemma_emit(b1, IrOp::Block, from, start);
    let (boxed_check, b2) = b1.create_block();
    lemma_decide(b2, local, success, boxed_check, from, start);
    let b3 = b2.emit(
        IrOp::Brif { condition: local, then_block: success, else_block: boxed_check },
    ).1;
    lemma_switch(b3, boxed_check, from, start);
    let b4 = b3.switch(boxed_check);
    lemma_boxed_test(b4, value, EXTERNAL_PID_HEADER_TAG, None, fail, success, from, start);
}

/// A type test goes on for a term of the type, and else where it fails, and
/// leaves every register as it was.
pub proof fn law_type_test_decides(
    b: LoweringView,
    register_file: Value,
    op: TypeTestOp,
    value: OperandView,
    fail: Block,
    success: Block,
    m: Machine,
)
    requires
        has_room(b),
        register_file < b.ops.len(),
        fail < b.ops.len(),
        success < b.ops.len(),
        lower_type_test_ir(b, register_file, op, value, fail, success) is Ok,
    ensures
        decided(
            m,
            does(
                lower_type_test_ir(b, register_file, op, value, fail, success)->Ok_0,
                b.ops.len() as int,
                Flow::Running(m),
            ),
            b.ops.len() as int,
            has_type(m.memory, op, operand_value(m, register_file, value)),
            success,
            fail,
        ),
{
    let from = b.ops.len() as int;
    let start = Flow::Running(m);
    lemma_read(b, register_file, value, from, start);
    let (term, b1) = read_operand_term_ir(b, register_file, value)->Ok_0;
    match op {
        TypeTestOp::IsInteger => {
            lemma_tag(b1, term, IntCc::Equal, SMALL_INT_TAG, from, start);
            let (passed, b2) = primary_tag_matches_ir(b1, term, SMALL_INT_TAG);
            lemma_decide(b2, passed, success, fail, from, start);
        },
        TypeTestOp::IsAtom => {
            lemma_tag(b1, term, IntCc::Equal, ATOM_TAG, from, start);
            let (passed, b2) = primary_tag_matches_ir(b1, term, ATOM_TAG);
            lemma_decide(b2, passed, success, fail, from, start);
        },
        TypeTestOp::IsList => {
            lemma_tag(b1, term, IntCc::Equal, LIST_TAG, from, start);
            let (cons, b2) = primary_tag_matches_ir(b1, term, LIST_TAG);
            let op3 = IrOp::CompareImm { cc: IntCc::Equal, left: term, imm: NIL_TERM };
            lemma_emit(b2, op3, from, start);
            let (nil, b3) = b2.emit(op3);
            let op4 = IrOp::Binary { code: BinaryCode::Bor, left: cons, right: nil };
            lemma_emit(b3, op4, from, start);
            let (passed, b4) = b3.emit(op4);
            let word = operand_value(m, register_file, value);
            lemma_flags(word as int % 8 == LIST_TAG, word == NIL_TERM);
            lemma_decide(b4, passed, success, fail, from, start);
        },
        TypeTestOp::IsPid => {
            lemma_pid_test(b1, term, fail, success, from, start);
        },
        TypeTestOp::IsBinary => {
            lemma_boxed_test(
                b1,
                term,
                BINARY_HEADER_TAG,
                Some((PROC_BIN_HEADER_TAG, SUB_BINARY_HEADER_TAG)),
                fail,
                success,
                from,
                start,
            );
        },
        TypeTestOp::IsTuple => {
            lemma_boxed_test(b1, term, TUPLE_HEADER_TAG, None, fail, success, from, start);
        },
        _ => {},
    }
}

proof fn lemma_tuple_header(b: LoweringView, value: Value, fail: Block, from: int, start: Flow)
    requires
        b.ops.len() + 30 <= usize::MAX,
        0 <= from <= b.ops.len(),
        value < b.ops.len(),
        fail < b.ops.len(),
        does(b, from, start) matches Flow::Left(block, _) ==> block < b.ops.len(),
    ensures
        ({
            let (header, after) = checked_tuple_header_ir(b, value, fail);
            &&& b.ops.len() <= header < after.ops.len()
            &&& after.ops.len() == b.ops.len() + 12
            &&& match does(b, from, start) {
                Flow::Running(m) => if boxed_as(m.memory, m.values[value], TUPLE_HEADER_TAG) {
                    does(after, from, start) matches Flow::Running(n) && only_made_values(
                        m,
                        n,
                        b.ops.len() as int,
                    ) && n.values[header] == header_of(m.memory, m.values[value])
                } else {
                    does(after, from, start) matches Flow::Left(block, n) && block == fail
                        && only_made_values(m, n, b.ops.len() as int)
                },
                other => does(after, from, start) == other,
            }
        }),
{
    lemma_tag(b, value, IntCc::NotEqual, BOXED_TAG, from, start);
    let (not_boxed, b1) = primary_tag_mismatches_ir(b, value, BOXED_TAG);
    lemma_branch_if(b1, not_boxed, fail, from, start);
    let b2 = branch_to_fail_if_ir(b1, not_boxed, fail);
    lemma_header(b2, value, from, start);
    let (header, header_tag, b3) = header_ir(b2, value);
    let op4 = IrOp::CompareImm { cc: IntCc::NotEqual, left: header_tag, imm: TUPLE_HEADER_TAG };
    lemma_emit(b3, op4, from, start);
    let (not_tuple, b4) = b3.emit(op4);
    lemma_branch_if(b4, not_tuple, fail, from, start);
}

/// Whether a term is a tuple of the arity.
pub open spec fn is_tuple_of(memory: Map<int, i64>, term: i64, arity: usize) -> bool {
    boxed_as(memory, term, TUPLE_HEADER_TAG) && header_size(header_of(memory, term))
        == arity as i64
}

/// An arity test goes on for a tuple of the arity, and else where it fails, and
/// leaves every register as it was.
pub proof fn law_arity_test_decides(
    b: LoweringView,
    register_file: Value,
    tuple: OperandView,
    arity: OperandView,
    fail: Block,
    success: Block,
    m: Machine,
)
    requires
        has_room(b),
        register_file < b.ops.len(),
        fail < b.ops.len(),
        success < b.ops.len(),
        lower_test_arity_ir(b, register_file, tuple, arity, fail, success) is Ok,
    ensures
        decided(
            m,
            does(
                lower_test_arity_ir(b, register_file, tuple, arity, fail, success)->Ok_0,
                b.ops.len() as int,
                Flow::Running(m),
            ),
            b.ops.len() as int,
            is_tuple_of(
                m.memory,
                operand_value(m, register_file, tuple),
                immediate_usize_of(arity, "test_arity arity"@)->Ok_0,
            ),
            success,
            fail,
        ),
{
    let from = b.ops.len() as int;
    let start = Flow::Running(m);
    let expected = immediate_usize_of(arity, "test_arity arity"@)->Ok_0;
    lemma_read(b, register_file, tuple, from, start);
    let (term, b1) = read_operand_term_ir(b, register_file, tuple)->Ok_0;
    lemma_tuple_header(b1, term, fail, from, start);
    let (header, b2) = checked_tuple_header_ir(b1, term, fail);
    let op3 = IrOp::BinaryImm { code: ImmCode::Ushr, left: header, imm: HEADER_SIZE_SHIFT };
    lemma_emit(b2, op3, from, start);
    let (actual, b3) = b2.emit(op3);
    let op4 = IrOp::CompareImm { cc: IntCc::Equal, left: actual, imm: expected as i64 };
    lemma_emit(b3, op4, from, start);
    let (passed, b4) = b3.emit(op4);
    lemma_header_bits(header_of(m.memory, operand_value(m, register_file, tuple)));
    lemma_decide(b4, passed, success, fail, from, start);
}

/// Whether a term is a tuple of the arity whose first element is the tag. A tuple
/// without elements has none.
pub open spec fn is_tagged(memory: Map<int, i64>, term: i64, arity: usize, tag: i64) -> bool {
    arity > 0 && is_tuple_of(memory, term, arity) && memory[term_address(term) + 8] == tag
}

/// A tagged-tuple test goes on for a tuple of the arity whose first element is
/// the atom, and else where it fails, and leaves every register as it was.
pub proof fn law_tagged_tuple_test_decides(
    b: LoweringView,
    register_file: Value,
    value: OperandView,
    arity: OperandView,
    tag: OperandView,
    fail: Block,
    success: Block,
    m: Machine,
)
    requires
        has_room(b),
        register_file < b.ops.len(),
        fail < b.ops.len(),
        success < b.ops.len(),
        lower_is_tagged_tuple_ir(b, register_file, value, arity, tag, fail, success) is Ok,
    ensures
        decided(
            m,
            does(
                lower_is_tagged_tuple_ir(
                    b,
                    register_file,
                    value,
                    arity,
                    tag,
                    fail,
                    success,
                )->Ok_0,
                b.ops.len() as int,
                Flow::Running(m),
            ),
            b.ops.len() as int,
            is_tagged(
                m.memory,
                operand_value(m, register_file, value),
                immediate_usize_of(arity, "is_tagged_tuple arity"@)->Ok_0,
                expected_atom_of(tag)->Ok_0,
            ),
            success,
            fail,
        ),
{
    let from = b.ops.len() as int;
    let start = Flow::Running(m);
    let expected = immediate_usize_of(arity, "is_tagged_tuple arity"@)->Ok_0;
    if expected == 0 {
        lemma_emit(b, IrOp::Jump { block: fail }, from, start);
    } else {
        let expected_tag = expected_atom_of(tag)->Ok_0;
        let word = operand_value(m, register_file, value);
        lemma_read(b, register_file, value, from, start);
        let (term, b1) = read_operand_term_ir(b, register_file, value)->Ok_0;
        lemma_tuple_header(b1, term, fail, from, start);
        let (header, b2) = checked_tuple_header_ir(b1, term, fail);
        let op3 = IrOp::BinaryImm { code: ImmCode::Ushr, left: header, imm: HEADER_SIZE_SHIFT };
        lemma_emit(b2, op3, from, start);
        let (actual, b3) = b2.emit(op3);
        let op4 = IrOp::CompareImm { cc: IntCc::NotEqual, left: actual, imm: expected as i64 };
        lemma_emit(b3, op4, from, start);
        let (mismatch, b4) = b3.emit(op4);
        lemma_header_bits(header_of(m.memory, word));
        lemma_pointer(word);
        lemma_branch_if(b4, mismatch, fail, from, start);
        let b5 = branch_to_fail_if_ir(b4, mismatch, fail);
        let op6 = IrOp::BinaryImm { code: ImmCode::Band, left: term, imm: POINTER_MASK };
        lemma_emit(b5, op6, from, start);
        let (ptr, b6) = b5.emit(op6);
        let op7 = IrOp::Load { ty: IrType::I64, base: ptr, offset: 8 };
        lemma_emit(b6, op7, from, start);
        let (first, b7) = b6.emit(op7);
        let op8 = IrOp::CompareImm { cc: IntCc::Equal, left: first, imm: expected_tag };
        lemma_emit(b7, op8, from, start);
        let (passed, b8) = b7.emit(op8);
        lemma_decide(b8, passed, success, fail, from, start);
    }
}

} // verus!

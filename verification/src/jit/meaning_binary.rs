//! Laws of binaries in compiled code: what is asked of the matching and building
//! functions, and where the code goes by what they answer.

use vstd::prelude::*;
use crate::loader::decode::compact::OperandView;
use super::binary::{
    branch_to_fail_if_invalid_binary_result_ir, dispatch_helper_status_ir, flags_to_raw_of,
    lower_create_bin_segment_ir, lower_get_binary_ir, lower_get_integer_ir, lower_get_utf_ir,
    lower_start_match_ir, lower_test_ir, segment_bits_of, segment_kind_of, BinaryLoweringContext,
    SegmentKind, BINARY_FAILURE,
};
use super::common::{branch_if_null_ir, read_operand_term_ir, write_operand_term_ir};
use super::helper::{Helper, IrType};
use super::ir::{Args, Block, IntCc, IrOp, LoweringView, Value};
use super::meaning::{
    answered, arguments, does, lemma_emit, lemma_switch, next_answer, only_made_values,
    operand_value, register_address, Flow, Machine,
};
use super::meaning_call::{ask_ir, lemma_ask, same_effects};
use super::meaning_core::{has_room, lemma_branch_if, lemma_read, lemma_write};
use super::meaning_data::lemma_null;
use super::register::register_operand_of;

verus! {

proof fn lemma_failed(b: LoweringView, value: Value, fail: Block, from: int, start: Flow)
    requires
        b.ops.len() + 8 <= usize::MAX,
        0 <= from <= b.ops.len(),
        value < b.ops.len(),
        fail < b.ops.len(),
        does(b, from, start) is Running,
    ensures
        ({
            let after = branch_to_fail_if_invalid_binary_result_ir(b, value, fail);
            let m = does(b, from, start)->Running_0;
            let end = does(after, from, start);
            &&& after.ops.len() == b.ops.len() + 8
            &&& if m.values[value] == 0 || m.values[value] == BINARY_FAILURE {
                end matches Flow::Left(block, n) && block == fail && only_made_values(
                    m,
                    n,
                    b.ops.len() as int,
                )
            } else {
                end matches Flow::Running(n) && only_made_values(m, n, b.ops.len() as int)
            }
        }),
{
    lemma_null(b, value, fail, from, start);
    let b1 = branch_if_null_ir(b, value, fail);
    let op2 = IrOp::CompareImm { cc: IntCc::Equal, left: value, imm: BINARY_FAILURE };
    lemma_emit(b1, op2, from, start);
    let (is_failure, b2) = b1.emit(op2);
    lemma_branch_if(b2, is_failure, fail, from, start);
}

/// What becomes of what a matching function answered: it is stored, unless it says
/// that nothing matched; the code fails then, and stores nothing.
pub open spec fn matched(
    m: Machine,
    k: Machine,
    register_file: Value,
    destination: OperandView,
    fail: Block,
    end: Flow,
) -> bool {
    let value = next_answer(m).first;
    if value == 0 || value == BINARY_FAILURE {
        end matches Flow::Left(block, n) && block == fail && same_effects(n, k)
    } else {
        end matches Flow::Running(n) && same_effects(
            n,
            k.stored(
                register_address(
                    m.values[register_file],
                    register_operand_of(destination)->Ok_0,
                ),
                value,
            ),
        )
    }
}

proof fn lemma_matched(
    b: LoweringView,
    helper: Helper,
    args: Args,
    register_file: Value,
    destination: OperandView,
    fail: Block,
    m: Machine,
    from: int,
    start: Flow,
)
    requires
        b.ops.len() + 20 <= usize::MAX,
        0 <= from <= b.ops.len(),
        register_file < b.ops.len(),
        fail < b.ops.len(),
        does(b, from, start) == Flow::Running(m),
        register_operand_of(destination) is Ok,
    ensures
        ({
            let (value, b1) = ask_ir(b, helper, args);
            let b2 = branch_to_fail_if_invalid_binary_result_ir(b1, value, fail);
            write_operand_term_ir(b2, register_file, destination, value) matches Ok(
                after,
            ) && matched(
                m,
                answered(m, helper, arguments(m, args)),
                register_file,
                destination,
                fail,
                does(after, from, start),
            )
        }),
{
    lemma_ask(b, helper, args, from, start);
    let (value, b1) = ask_ir(b, helper, args);
    lemma_failed(b1, value, fail, from, start);
    let b2 = branch_to_fail_if_invalid_binary_result_ir(b1, value, fail);
    lemma_write(b2, register_file, destination, value, from, start);
}

/// Starting to match hands over the process and the binary, and stores the context.
pub proof fn law_match_is_started(
    b: LoweringView,
    context: BinaryLoweringContext,
    source: OperandView,
    destination: OperandView,
    fail: Block,
    m: Machine,
)
    requires
        has_room(b),
        context.register_file < b.ops.len(),
        context.process < b.ops.len(),
        fail < b.ops.len(),
        lower_start_match_ir(b, context, source, destination, fail) is Ok,
    ensures
        matched(
            m,
            answered(
                m,
                Helper::BsStartMatch,
                seq![
                    m.values[context.process],
                    operand_value(m, context.register_file, source),
                ],
            ),
            context.register_file,
            destination,
            fail,
            does(
                lower_start_match_ir(b, context, source, destination, fail)->Ok_0,
                b.ops.len() as int,
                Flow::Running(m),
            ),
        ),
{
    let from = b.ops.len() as int;
    let start = Flow::Running(m);
    lemma_read(b, context.register_file, source, from, start);
    let (binary, b1) = read_operand_term_ir(b, context.register_file, source)->Ok_0;
    let k = does(b1, from, start)->Running_0;
    lemma_matched(
        b1,
        Helper::BsStartMatch,
        Args::Two(context.process, binary),
        context.register_file,
        destination,
        fail,
        k,
        from,
        start,
    );
}

/// Matching an integer hands over the context, the number of bits and the flags, and
/// stores the integer.
pub proof fn law_integer_is_matched(
    b: LoweringView,
    context: BinaryLoweringContext,
    match_context: OperandView,
    bits: u64,
    flags: u64,
    destination: OperandView,
    fail: Block,
    m: Machine,
)
    requires
        has_room(b),
        context.register_file < b.ops.len(),
        fail < b.ops.len(),
        lower_get_integer_ir(b, context, match_context, bits, flags, destination, fail) is Ok,
    ensures
        matched(
            m,
            answered(
                m,
                Helper::BsGetInteger,
                seq![
                    operand_value(m, context.register_file, match_context),
                    bits as i64,
                    flags as i64,
                ],
            ),
            context.register_file,
            destination,
            fail,
            does(
                lower_get_integer_ir(
                    b,
                    context,
                    match_context,
                    bits,
                    flags,
                    destination,
                    fail,
                )->Ok_0,
                b.ops.len() as int,
                Flow::Running(m),
            ),
        ),
{
    let from = b.ops.len() as int;
    let start = Flow::Running(m);
    lemma_read(b, context.register_file, match_context, from, start);
    let (held, b1) = read_operand_term_ir(b, context.register_file, match_context)->Ok_0;
    let op2 = IrOp::Iconst { ty: IrType::I64, value: bits as i64 };
    lemma_emit(b1, op2, from, start);
    let (bits_value, b2) = b1.emit(op2);
    let op3 = IrOp::Iconst { ty: IrType::I64, value: flags as i64 };
    lemma_emit(b2, op3, from, start);
    let (flags_value, b3) = b2.emit(op3);
    let k = does(b3, from, start)->Running_0;
    lemma_matched(
        b3,
        Helper::BsGetInteger,
        Args::Three(held, bits_value, flags_value),
        context.register_file,
        destination,
        fail,
        k,
        from,
        start,
    );
}

/// Matching a binary hands over the process, the context and the number of bits, and
/// stores the binary.
pub proof fn law_binary_is_matched(
    b: LoweringView,
    context: BinaryLoweringContext,
    match_context: OperandView,
    bits: u64,
    destination: OperandView,
    fail: Block,
    m: Machine,
)
    requires
        has_room(b),
        context.register_file < b.ops.len(),
        context.process < b.ops.len(),
        fail < b.ops.len(),
        lower_get_binary_ir(b, context, match_context, bits, destination, fail) is Ok,
    ensures
        matched(
            m,
            answered(
                m,
                Helper::BsGetBinary,
                seq![
                    m.values[context.process],
                    operand_value(m, context.register_file, match_context),
                    bits as i64,
                ],
            ),
            context.register_file,
            destination,
            fail,
            does(
                lower_get_binary_ir(b, context, match_context, bits, destination, fail)->Ok_0,
                b.ops.len() as int,
                Flow::Running(m),
            ),
        ),
{
    let from = b.ops.len() as int;
    let start = Flow::Running(m);
    lemma_read(b, context.register_file, match_context, from, start);
    let (held, b1) = read_operand_term_ir(b, context.register_file, match_context)->Ok_0;
    let op2 = IrOp::Iconst { ty: IrType::I64, value: bits as i64 };
    lemma_emit(b1, op2, from, start);
    let (bits_value, b2) = b1.emit(op2);
    let k = does(b2, from, start)->Running_0;
    lemma_matched(
        b2,
        Helper::BsGetBinary,
        Args::Three(context.process, held, bits_value),
        context.register_file,
        destination,
        fail,
        k,
        from,
        start,
    );
}

/// Matching a character hands over the context and the flags, and stores the
/// character.
pub proof fn law_character_is_matched(
    b: LoweringView,
    context: BinaryLoweringContext,
    helper: Helper,
    match_context: OperandView,
    flags: u64,
    destination: OperandView,
    fail: Block,
    m: Machine,
)
    requires
        has_room(b),
        context.register_file < b.ops.len(),
        fail < b.ops.len(),
        lower_get_utf_ir(b, context, helper, match_context, flags, destination, fail) is Ok,
    ensures
        matched(
            m,
            answered(
                m,
                helper,
                seq![operand_value(m, context.register_file, match_context), flags as i64],
            ),
            context.register_file,
            destination,
            fail,
            does(
                lower_get_utf_ir(
                    b,
                    context,
                    helper,
                    match_context,
                    flags,
                    destination,
                    fail,
                )->Ok_0,
                b.ops.len() as int,
                Flow::Running(m),
            ),
        ),
{
    let from = b.ops.len() as int;
    let start = Flow::Running(m);
    lemma_read(b, context.register_file, match_context, from, start);
    let (held, b1) = read_operand_term_ir(b, context.register_file, match_context)->Ok_0;
    let op2 = IrOp::Iconst { ty: IrType::I64, value: flags as i64 };
    lemma_emit(b1, op2, from, start);
    let (flags_value, b2) = b1.emit(op2);
    let k = does(b2, from, start)->Running_0;
    lemma_matched(
        b2,
        helper,
        Args::Two(held, flags_value),
        context.register_file,
        destination,
        fail,
        k,
        from,
        start,
    );
}

/// A test of what is left to match hands over the context and what is expected, and
/// goes on if the answer is not zero.
pub proof fn law_rest_is_tested(
    b: LoweringView,
    context: BinaryLoweringContext,
    helper: Helper,
    match_context: OperandView,
    expected: u64,
    fail: Block,
    m: Machine,
)
    requires
        has_room(b),
        context.register_file < b.ops.len(),
        fail < b.ops.len(),
        lower_test_ir(b, context, helper, match_context, expected, fail) is Ok,
    ensures
        ({
            let after = lower_test_ir(b, context, helper, match_context, expected, fail)->Ok_0;
            let k = answered(
                m,
                helper,
                seq![operand_value(m, context.register_file, match_context), expected as i64],
            );
            let end = does(after, b.ops.len() as int, Flow::Running(m));
            if next_answer(m).first == 0 {
                end matches Flow::Left(block, n) && block == fail && same_effects(n, k)
            } else {
                end matches Flow::Running(n) && same_effects(n, k)
            }
        }),
{
    let from = b.ops.len() as int;
    let start = Flow::Running(m);
    lemma_read(b, context.register_file, match_context, from, start);
    let (held, b1) = read_operand_term_ir(b, context.register_file, match_context)->Ok_0;
    let op2 = IrOp::Iconst { ty: IrType::I64, value: expected as i64 };
    lemma_emit(b1, op2, from, start);
    let (expected_value, b2) = b1.emit(op2);
    lemma_ask(b2, helper, Args::Two(held, expected_value), from, start);
    let (ok, b3) = ask_ir(b2, helper, Args::Two(held, expected_value));
    lemma_null(b3, ok, fail, from, start);
}

proof fn lemma_status(b: LoweringView, context: BinaryLoweringContext, helper: Helper, args: Args, from: int, start: Flow)
    requires
        b.ops.len() + 10 <= usize::MAX,
        0 <= from <= b.ops.len(),
        context.exception < b.ops.len(),
        does(b, from, start) is Running,
    ensures
        ({
            let (call, b1) = b.emit(IrOp::Call { helper, args });
            let after = dispatch_helper_status_ir(b1, context, call);
            let m = does(b, from, start)->Running_0;
            let k = answered(m, helper, arguments(m, args));
            let end = does(after, from, start);
            if next_answer(m).first == 0 {
                end matches Flow::Running(n) && same_effects(n, k)
            } else {
                end matches Flow::Left(block, n) && block == context.exception && same_effects(
                    n,
                    k,
                )
            }
        }),
{
    lemma_ask(b, helper, args, from, start);
    let (status, b2) = ask_ir(b, helper, args);
    let op3 = IrOp::CompareImm { cc: IntCc::Equal, left: status, imm: 0 };
    lemma_emit(b2, op3, from, start);
    let (ok, b3) = b2.emit(op3);
    lemma_emit(b3, IrOp::Block, from, start);
    let (continuation, b4) = b3.create_block();
    let op5 = IrOp::Brif {
        condition: ok,
        then_block: continuation,
        else_block: context.exception,
    };
    lemma_emit(b4, op5, from, start);
    let b5 = b4.emit(op5).1;
    lemma_switch(b5, continuation, from, start);
}

/// What is asked to add a segment to a binary: an integer with its bits and flags, a
/// binary, or a character.
pub open spec fn segment_asked(
    m: Machine,
    context: BinaryLoweringContext,
    builder: i64,
    fields: Seq<OperandView>,
) -> (Helper, Seq<i64>) {
    let process = m.values[context.process];
    let value = operand_value(m, context.register_file, fields[1]);
    if fields.len() == 5 {
        (
            Helper::BsPutInteger,
            seq![
                process,
                builder,
                value,
                segment_bits_of(
                    fields[2],
                    fields[3],
                    "bs_create_bin integer size"@,
                )->Ok_0 as i64,
                flags_to_raw_of(fields[4]) as i64,
            ],
        )
    } else if segment_kind_of(fields[0]) == SegmentKind::Plain {
        (Helper::BsPutBinary, seq![process, builder, value])
    } else {
        (Helper::BsPutUtf8, seq![process, builder, value])
    }
}

/// Adding a segment to a binary asks for it to be written, and goes to the handler of
/// exceptions unless the answer is zero.
pub proof fn law_segment_is_added(
    b: LoweringView,
    context: BinaryLoweringContext,
    builder: Value,
    segment: OperandView,
    m: Machine,
)
    requires
        has_room(b),
        context.register_file < b.ops.len(),
        context.process < b.ops.len(),
        context.exception < b.ops.len(),
        builder < b.ops.len(),
        lower_create_bin_segment_ir(b, context, builder, segment) is Ok,
    ensures
        segment is List,
        ({
            let after = lower_create_bin_segment_ir(b, context, builder, segment)->Ok_0;
            let (helper, args) = segment_asked(
                m,
                context,
                m.values[builder],
                segment->List_0,
            );
            let k = answered(m, helper, args);
            let end = does(after, b.ops.len() as int, Flow::Running(m));
            if next_answer(m).first == 0 {
                end matches Flow::Running(n) && same_effects(n, k)
            } else {
                end matches Flow::Left(block, n) && block == context.exception && same_effects(
                    n,
                    k,
                )
            }
        }),
{
    let from = b.ops.len() as int;
    let start = Flow::Running(m);
    let fields = segment->List_0;
    lemma_read(b, context.register_file, fields[1], from, start);
    let (value, b1) = read_operand_term_ir(b, context.register_file, fields[1])->Ok_0;
    if fields.len() == 5 {
        let bits = segment_bits_of(fields[2], fields[3], "bs_create_bin integer size"@)->Ok_0;
        let op2 = IrOp::Iconst { ty: IrType::I64, value: bits as i64 };
        lemma_emit(b1, op2, from, start);
        let (bits_value, b2) = b1.emit(op2);
        let op3 = IrOp::Iconst { ty: IrType::I64, value: flags_to_raw_of(fields[4]) as i64 };
        lemma_emit(b2, op3, from, start);
        let (flags_value, b3) = b2.emit(op3);
        lemma_status(
            b3,
            context,
            Helper::BsPutInteger,
            Args::Five(context.process, builder, value, bits_value, flags_value),
            from,
            start,
        );
    } else if segment_kind_of(fields[0]) == SegmentKind::Plain {
        lemma_status(
            b1,
            context,
            Helper::BsPutBinary,
            Args::Three(context.process, builder, value),
            from,
            start,
        );
    } else {
        lemma_status(
            b1,
            context,
            Helper::BsPutUtf8,
            Args::Three(context.process, builder, value),
            from,
            start,
        );
    }
}

} // verus!

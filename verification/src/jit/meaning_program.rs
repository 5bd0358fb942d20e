//! What whole instructions do when compiled code runs: moves, reads of lists and tuples,
//! arithmetic, tests, jumps, calls, and the making of lists and tuples.

use vstd::prelude::*;
use crate::loader::decode::compact::OperandView;
use crate::loader::decode::instruction::{BifOp, ComparisonOp, InstructionView, TypeTestOp};
use crate::term::{BOXED_TAG, LIST_TAG};
use super::allocation::{
    lower_get_hd_ir, lower_get_list_ir, lower_get_tl_ir, lower_get_tuple_element_ir,
    lower_put_list_ir, lower_put_tuple2_ir, store_elements_ir, tuple_elements_of, tuple_header_of,
    tuple_roots_of, LoweringContext,
};
use super::arithmetic::{
    arithmetic_import_of, lower_arithmetic_bif_ir, lower_comparison_ir, lower_word_arithmetic_ir,
    parse_bif_of, ArithmeticOp, ArithmeticTargets,
};
use super::common::{
    branch_if_null_ir, branch_to_fail_if_ir, checked_small_int_payload_ir, constant_term_of,
    is_register_of, read_operand_term_ir, write_operand_term_ir, JIT_DEOPT_SENTINEL,
    JIT_YIELD_SENTINEL,
};
use super::compiler::lower_instruction_ir;
use super::control::{operand_block_of, BlockMapView};
use super::dispatch_call::{
    branch_to_status_blocks_ir, immediate_u8_of, import_index_of, lower_call_ext_ir, MetadataView,
};
use super::dispatch_core::FunctionContext;
use super::dispatch_data::{allocation_context_of, lower_put_tuple_instruction_ir};
use super::error::JitFault;
use super::exceptions::{
    current_frame_of, dispatch_exception_status_ir, CompiledFrameInfo, JIT_STATUS_DEOPT,
    JIT_STATUS_EXCEPTION, JIT_STATUS_NORMAL, JIT_STATUS_YIELD,
};
use super::guards::{
    expected_atom_of, immediate_usize_of, lower_is_tagged_tuple_ir, lower_test_arity_ir,
    lower_type_test_ir,
};
use super::helper::{Helper, IrType};
use super::ir::{Args, Block, IrOp, LoweringView, Value};
use super::meaning::{
    answered, does, goes_on, keeps, lemma_emit, next_answer, register_address, Answer, Flow, Made,
    Machine,
};
use super::meaning_call::{law_external_call, law_local_call};
use super::meaning_core::{
    arithmetic_term, comparison_holds, has_room, law_arithmetic_computes, law_comparison_decides,
    lemma_read, lemma_write,
};
use super::meaning_data::{
    apart_from_registers, filled, law_head_is_read, law_list_is_built, law_list_is_taken_apart,
    law_tail_is_read, law_tuple_element_is_read, lemma_tuple_built, operand_values,
};
use super::meaning_function::{
    answers_with, exit_answer, exits_are_apart, lemma_return_first, return_first_ir,
};
use super::meaning_guards::{
    has_type, is_tagged, is_tuple_of, law_arity_test_decides, law_tagged_tuple_test_decides,
    law_type_test_decides, term_address,
};
use super::meaning_standing::only_stored;
use super::meaning_typed::bare_fits;
use super::message::charge_reduction_or_yield_ir;
use super::register::{register_operand_of, Register};
use super::safepoint::with_site;
use super::typed::{
    materialize_all_ir, materialize_operand_ir, materialize_operands_ir, set_type_ir,
};
use super::typed_state::tuple_type_from_elements_of;

verus! {

/// Whether code was added to, with only blocks of its own among what was added, and
/// no more operations than so many.
pub open spec fn grows(before: LoweringView, after: LoweringView, most: nat) -> bool {
    &&& goes_on(before, after)
    &&& after.ops.len() <= before.ops.len() + most
    &&& after.types == before.types
    &&& after.tries == before.tries
    &&& after.current == before.current || (after.current matches Some(block) && block
        >= before.ops.len())
    &&& forall|i: int|
        before.ops.len() <= i < after.ops.len() ==> (#[trigger] after.ops[i] matches IrOp::Switch {
            block,
        } ==> block >= before.ops.len())
}

broadcast proof fn lemma_emit_grows(
    before: LoweringView,
    b: LoweringView,
    op: IrOp,
    most: nat,
)
    requires
        most > 0,
        !(op is Switch),
        grows(before, b, (most - 1) as nat),
    ensures
        #[trigger] grows(before, b.emit(op).1, most),
{
}

broadcast proof fn lemma_branch_grows(
    before: LoweringView,
    b: LoweringView,
    condition: Value,
    fail: Block,
    most: nat,
)
    requires
        most > 3,
        before.ops.len() + most <= usize::MAX,
        grows(before, b, (most - 3) as nat),
    ensures
        #[trigger] grows(before, branch_to_fail_if_ir(b, condition, fail), most),
{
}

broadcast proof fn lemma_switch_grows(
    before: LoweringView,
    b: LoweringView,
    block: Block,
    most: nat,
)
    requires
        most > 0,
        block >= before.ops.len(),
        grows(before, b, (most - 1) as nat),
    ensures
        #[trigger] grows(before, b.switch(block), most),
{
}

broadcast group group_grows {
    lemma_emit_grows,
    lemma_switch_grows,
    lemma_branch_grows,
}

#[verifier::rlimit(40)]
proof fn lemma_payload_grows(
    before: LoweringView,
    b: LoweringView,
    term: Value,
    fail: Block,
    most: nat,
)
    requires
        most > 6,
        before.ops.len() + most <= usize::MAX,
        grows(before, b, (most - 6) as nat),
    ensures
        grows(before, checked_small_int_payload_ir(b, term, fail).1, most),
{
    broadcast use group_grows;

}

#[verifier::rlimit(40)]
proof fn lemma_word_arithmetic_grows(
    before: LoweringView,
    b: LoweringView,
    op: ArithmeticOp,
    left: Value,
    right: Value,
    fail: Block,
    most: nat,
)
    requires
        most > 12,
        before.ops.len() + most <= usize::MAX,
        grows(before, b, (most - 12) as nat),
    ensures
        grows(before, lower_word_arithmetic_ir(b, op, left, right, fail, fail).1, most),
{
    broadcast use group_grows;

    lemma_more_grows(before, b, (most - 12) as nat);
}

proof fn lemma_more_grows(before: LoweringView, b: LoweringView, most: nat)
    requires
        grows(before, b, most),
    ensures
        forall|more: nat| more >= most ==> #[trigger] grows(before, b, more),
{
}

#[verifier::rlimit(40)]
proof fn lemma_arithmetic_grows(
    b: LoweringView,
    register_file: Value,
    op: ArithmeticOp,
    left: OperandView,
    right: OperandView,
    destination: OperandView,
    targets: ArithmeticTargets,
)
    requires
        b.ops.len() + 50 <= usize::MAX,
        lower_arithmetic_bif_ir(b, register_file, op, left, right, destination, targets) is Ok,
    ensures
        grows(
            b,
            lower_arithmetic_bif_ir(b, register_file, op, left, right, destination, targets)->Ok_0,
            50,
        ),
{
    broadcast use group_grows;

    let (l, b1) = read_operand_term_ir(b, register_file, left)->Ok_0;
    assert(grows(b, b1, 1));
    let (r, b2) = read_operand_term_ir(b1, register_file, right)->Ok_0;
    assert(grows(b, b2, 2));
    lemma_payload_grows(b, b2, l, targets.fail, 8);
    let (left_payload, b3) = checked_small_int_payload_ir(b2, l, targets.fail);
    lemma_payload_grows(b, b3, r, targets.fail, 14);
    let (right_payload, b4) = checked_small_int_payload_ir(b3, r, targets.fail);
    lemma_word_arithmetic_grows(b, b4, op, left_payload, right_payload, targets.fail, 26);
    let (_, b5) = lower_word_arithmetic_ir(
        b4,
        op,
        left_payload,
        right_payload,
        targets.fail,
        targets.fail,
    );
    lemma_more_grows(b, b5, 26);
}

#[verifier::rlimit(40)]
proof fn lemma_comparison_grows(
    b: LoweringView,
    register_file: Value,
    op: ComparisonOp,
    left: OperandView,
    right: OperandView,
    fail: Block,
    success: Block,
)
    requires
        b.ops.len() + 50 <= usize::MAX,
        lower_comparison_ir(b, register_file, op, left, right, fail, success) is Ok,
    ensures
        grows(
            b,
            lower_comparison_ir(b, register_file, op, left, right, fail, success)->Ok_0,
            50,
        ),
{
    broadcast use group_grows;

    let (l, b1) = read_operand_term_ir(b, register_file, left)->Ok_0;
    assert(grows(b, b1, 1));
    let (r, b2) = read_operand_term_ir(b1, register_file, right)->Ok_0;
    assert(grows(b, b2, 2));
    lemma_more_grows(b, b2, 2);
    lemma_payload_grows(b, b2, l, fail, 8);
    let (left_payload, b3) = checked_small_int_payload_ir(b2, l, fail);
    lemma_payload_grows(b, b3, r, fail, 14);
    let (right_payload, b4) = checked_small_int_payload_ir(b3, r, fail);
    lemma_more_grows(b, b4, 14);
}

#[verifier::rlimit(40)]
proof fn lemma_type_test_grows(
    b: LoweringView,
    register_file: Value,
    op: TypeTestOp,
    value: OperandView,
    fail: Block,
    success: Block,
)
    requires
        b.ops.len() + 50 <= usize::MAX,
        lower_type_test_ir(b, register_file, op, value, fail, success) is Ok,
    ensures
        grows(b, lower_type_test_ir(b, register_file, op, value, fail, success)->Ok_0, 50),
{
    broadcast use group_grows;

    let (term, b1) = read_operand_term_ir(b, register_file, value)->Ok_0;
    assert(grows(b, b1, 1));
    lemma_more_grows(b, b1, 1);
    assert(grows(b, b1, 10));
}

#[verifier::rlimit(40)]
proof fn lemma_arity_test_grows(
    b: LoweringView,
    register_file: Value,
    tuple: OperandView,
    arity: OperandView,
    fail: Block,
    success: Block,
)
    requires
        b.ops.len() + 50 <= usize::MAX,
        lower_test_arity_ir(b, register_file, tuple, arity, fail, success) is Ok,
    ensures
        grows(b, lower_test_arity_ir(b, register_file, tuple, arity, fail, success)->Ok_0, 50),
{
    broadcast use group_grows;

    let (term, b1) = read_operand_term_ir(b, register_file, tuple)->Ok_0;
    assert(grows(b, b1, 1));
    lemma_more_grows(b, b1, 1);
}

#[verifier::rlimit(40)]
proof fn lemma_tagged_tuple_test_grows(
    b: LoweringView,
    register_file: Value,
    value: OperandView,
    arity: OperandView,
    tag: OperandView,
    fail: Block,
    success: Block,
)
    requires
        b.ops.len() + 50 <= usize::MAX,
        lower_is_tagged_tuple_ir(b, register_file, value, arity, tag, fail, success) is Ok,
    ensures
        grows(
            b,
            lower_is_tagged_tuple_ir(b, register_file, value, arity, tag, fail, success)->Ok_0,
            50,
        ),
{
    broadcast use group_grows;

    lemma_more_grows(b, b, 0);
    if read_operand_term_ir(b, register_file, value) is Ok {
        let (term, b1) = read_operand_term_ir(b, register_file, value)->Ok_0;
        assert(grows(b, b1, 1));
        lemma_more_grows(b, b1, 1);
    }
}

/// The term that an operand stands for: the word of its register, or its constant.
pub open spec fn word_of(memory: Map<int, i64>, base: i64, operand: OperandView) -> i64 {
    if is_register_of(operand) {
        memory[register_address(base, register_operand_of(operand)->Ok_0)]
    } else {
        constant_term_of(operand)->Ok_0
    }
}

/// The memory after a term was put in the register that an operand names.
pub open spec fn with_word(
    memory: Map<int, i64>,
    base: i64,
    operand: OperandView,
    word: i64,
) -> Map<int, i64> {
    memory.insert(register_address(base, register_operand_of(operand)->Ok_0), word)
}

/// What an instruction comes to.
pub enum Step {
    /// The next instruction, with a memory.
    Next(Map<int, i64>),
    /// The instruction at a label.
    Go(OperandView),
    /// The return of the first register.
    Return,
}

/// Going on when a test holds, and to a label otherwise.
pub open spec fn tested(holds: bool, memory: Map<int, i64>, fail: OperandView) -> Step {
    if holds {
        Step::Next(memory)
    } else {
        Step::Go(fail)
    }
}

/// Whether an instruction takes a list or a tuple apart.
pub open spec fn is_load(instruction: InstructionView) -> bool {
    instruction is GetHd || instruction is GetTl || instruction is GetList
        || instruction is GetTupleElement
}

/// Whether an instruction only moves, takes apart, computes, tests, jumps or returns.
pub open spec fn is_plain(instruction: InstructionView) -> bool {
    is_load(instruction) || match instruction {
        InstructionView::Label { .. } => true,
        InstructionView::Move { .. } => true,
        InstructionView::Swap { .. } => true,
        InstructionView::Bif { .. } => true,
        InstructionView::Comparison { .. } => true,
        InstructionView::TypeTest { .. } => true,
        InstructionView::TestArity { .. } => true,
        InstructionView::IsTaggedTuple { .. } => true,
        InstructionView::Jump { .. } => true,
        InstructionView::Return => true,
        _ => false,
    }
}

/// What a plain instruction does.
pub open spec fn step(instruction: InstructionView, memory: Map<int, i64>, base: i64) -> Step {
    match instruction {
        InstructionView::Move { source, destination } => Step::Next(
            with_word(memory, base, destination, word_of(memory, base, source)),
        ),
        InstructionView::Swap { left, right } => Step::Next(
            with_word(
                with_word(memory, base, left, word_of(memory, base, right)),
                base,
                right,
                word_of(memory, base, left),
            ),
        ),
        InstructionView::Bif { op, operands } => {
            let bif = parse_bif_of(op, operands)->Ok_0;
            match arithmetic_term(
                arithmetic_import_of(bif.import)->Ok_0,
                word_of(memory, base, bif.left),
                word_of(memory, base, bif.right),
            ) {
                Some(term) => Step::Next(with_word(memory, base, bif.destination, term)),
                None => Step::Go(bif.fail),
            }
        },
        InstructionView::Comparison { op, fail, left, right } => tested(
            comparison_holds(op, word_of(memory, base, left), word_of(memory, base, right)),
            memory,
            fail,
        ),
        InstructionView::TypeTest { op, fail, value } => tested(
            has_type(memory, op, word_of(memory, base, value)),
            memory,
            fail,
        ),
        InstructionView::TestArity { fail, tuple, arity } => tested(
            is_tuple_of(
                memory,
                word_of(memory, base, tuple),
                immediate_usize_of(arity, "test_arity arity"@)->Ok_0,
            ),
            memory,
            fail,
        ),
        InstructionView::IsTaggedTuple { fail, value, arity, tag } => tested(
            is_tagged(
                memory,
                word_of(memory, base, value),
                immediate_usize_of(arity, "is_tagged_tuple arity"@)->Ok_0,
                expected_atom_of(tag)->Ok_0,
            ),
            memory,
            fail,
        ),
        InstructionView::GetHd { source, destination } => Step::Next(
            with_word(
                memory,
                base,
                destination,
                memory[term_address(word_of(memory, base, source))],
            ),
        ),
        InstructionView::GetTl { source, destination } => Step::Next(
            with_word(
                memory,
                base,
                destination,
                memory[term_address(word_of(memory, base, source)) + 8],
            ),
        ),
        InstructionView::GetList { source, head, tail } => {
            let cell = term_address(word_of(memory, base, source));
            Step::Next(
                with_word(
                    with_word(memory, base, head, memory[cell]),
                    base,
                    tail,
                    memory[cell + 8],
                ),
            )
        },
        InstructionView::GetTupleElement { source, index: element, destination } => {
            let position = immediate_usize_of(element, "get_tuple_element index"@)->Ok_0;
            Step::Next(
                with_word(
                    memory,
                    base,
                    destination,
                    memory[term_address(word_of(memory, base, source)) + 8 * (position + 1)],
                ),
            )
        },
        InstructionView::Jump { target } => Step::Go(target),
        InstructionView::Return => Step::Return,
        _ => Step::Next(memory),
    }
}

/// Whether the code of an instruction ends with it.
pub open spec fn ends(instruction: InstructionView) -> bool {
    !(instruction is Label || instruction is Move || instruction is Swap || is_load(instruction)
        || instruction is PutList || instruction is PutTuple2)
}

#[verifier::rlimit(40)]
proof fn lemma_move_lowered(
    b: LoweringView,
    context: FunctionContext,
    blocks: BlockMapView,
    metadata: MetadataView,
    index: usize,
    instructions: Seq<InstructionView>,
    source: OperandView,
    destination: OperandView,
)
    requires
        b.types.len() == 0,
        instructions[index as int] == (InstructionView::Move { source, destination }),
        lower_instruction_ir(b, context, blocks, metadata, index, instructions) is Ok,
    ensures
        ({
            let file = context.register_file;
            let (value, b1) = read_operand_term_ir(b, file, source)->Ok_0;
            &&& read_operand_term_ir(b, file, source) is Ok
            &&& write_operand_term_ir(b1, file, destination, value) is Ok
            &&& lower_instruction_ir(b, context, blocks, metadata, index, instructions) == Ok::<
                (bool, LoweringView),
                JitFault,
            >((false, write_operand_term_ir(b1, file, destination, value)->Ok_0))
        }),
{
    reveal(lower_instruction_ir);
    assert(b.types =~= Seq::empty());
}

#[verifier::rlimit(40)]
proof fn lemma_swap_lowered(
    b: LoweringView,
    context: FunctionContext,
    blocks: BlockMapView,
    metadata: MetadataView,
    index: usize,
    instructions: Seq<InstructionView>,
    left: OperandView,
    right: OperandView,
)
    requires
        b.types.len() == 0,
        instructions[index as int] == (InstructionView::Swap { left, right }),
        lower_instruction_ir(b, context, blocks, metadata, index, instructions) is Ok,
    ensures
        ({
            let file = context.register_file;
            let (left_value, b1) = read_operand_term_ir(b, file, left)->Ok_0;
            let (right_value, b2) = read_operand_term_ir(b1, file, right)->Ok_0;
            let b3 = write_operand_term_ir(b2, file, left, right_value)->Ok_0;
            &&& read_operand_term_ir(b, file, left) is Ok
            &&& read_operand_term_ir(b1, file, right) is Ok
            &&& write_operand_term_ir(b2, file, left, right_value) is Ok
            &&& write_operand_term_ir(b3, file, right, left_value) is Ok
            &&& lower_instruction_ir(b, context, blocks, metadata, index, instructions) == Ok::<
                (bool, LoweringView),
                JitFault,
            >((false, write_operand_term_ir(b3, file, right, left_value)->Ok_0))
        }),
{
    reveal(lower_instruction_ir);
    assert(b.types =~= Seq::empty());
}

#[verifier::rlimit(40)]
proof fn lemma_comparison_lowered(
    b: LoweringView,
    context: FunctionContext,
    blocks: BlockMapView,
    metadata: MetadataView,
    index: usize,
    instructions: Seq<InstructionView>,
    op: ComparisonOp,
    fail: OperandView,
    left: OperandView,
    right: OperandView,
)
    requires
        b.types.len() == 0,
        instructions[index as int] == (InstructionView::Comparison { op, fail, left, right }),
        lower_instruction_ir(b, context, blocks, metadata, index, instructions) is Ok,
    ensures
        ({
            let file = context.register_file;
            let target = operand_block_of(blocks, fail)->Ok_0;
            let next = blocks.block_after(index);
            &&& operand_block_of(blocks, fail) is Ok
            &&& lower_comparison_ir(b, file, op, left, right, target, next) is Ok
            &&& lower_instruction_ir(b, context, blocks, metadata, index, instructions) == Ok::<
                (bool, LoweringView),
                JitFault,
            >((true, lower_comparison_ir(b, file, op, left, right, target, next)->Ok_0))
        }),
{
    reveal(lower_instruction_ir);
    assert(b.types =~= Seq::empty());
    assert(materialize_operand_ir(b, context.register_file, left) == b);
    assert(materialize_operand_ir(b, context.register_file, right) == b);
}

#[verifier::rlimit(40)]
proof fn lemma_type_test_lowered(
    b: LoweringView,
    context: FunctionContext,
    blocks: BlockMapView,
    metadata: MetadataView,
    index: usize,
    instructions: Seq<InstructionView>,
    op: TypeTestOp,
    fail: OperandView,
    value: OperandView,
)
    requires
        b.types.len() == 0,
        instructions[index as int] == (InstructionView::TypeTest { op, fail, value }),
        lower_instruction_ir(b, context, blocks, metadata, index, instructions) is Ok,
    ensures
        ({
            let file = context.register_file;
            let target = operand_block_of(blocks, fail)->Ok_0;
            let next = blocks.block_after(index);
            &&& operand_block_of(blocks, fail) is Ok
            &&& lower_type_test_ir(b, file, op, value, target, next) is Ok
            &&& lower_instruction_ir(b, context, blocks, metadata, index, instructions) == Ok::<
                (bool, LoweringView),
                JitFault,
            >((true, lower_type_test_ir(b, file, op, value, target, next)->Ok_0))
        }),
{
    reveal(lower_instruction_ir);
    assert(b.types =~= Seq::empty());
}

#[verifier::rlimit(40)]
proof fn lemma_arity_test_lowered(
    b: LoweringView,
    context: FunctionContext,
    blocks: BlockMapView,
    metadata: MetadataView,
    index: usize,
    instructions: Seq<InstructionView>,
    fail: OperandView,
    tuple: OperandView,
    arity: OperandView,
)
    requires
        b.types.len() == 0,
        instructions[index as int] == (InstructionView::TestArity { fail, tuple, arity }),
        lower_instruction_ir(b, context, blocks, metadata, index, instructions) is Ok,
    ensures
        ({
            let file = context.register_file;
            let target = operand_block_of(blocks, fail)->Ok_0;
            let next = blocks.block_after(index);
            &&& operand_block_of(blocks, fail) is Ok
            &&& lower_test_arity_ir(b, file, tuple, arity, target, next) is Ok
            &&& lower_instruction_ir(b, context, blocks, metadata, index, instructions) == Ok::<
                (bool, LoweringView),
                JitFault,
            >((true, lower_test_arity_ir(b, file, tuple, arity, target, next)->Ok_0))
        }),
{
    reveal(lower_instruction_ir);
    assert(b.types =~= Seq::empty());
}

#[verifier::rlimit(40)]
proof fn lemma_tagged_tuple_lowered(
    b: LoweringView,
    context: FunctionContext,
    blocks: BlockMapView,
    metadata: MetadataView,
    index: usize,
    instructions: Seq<InstructionView>,
    fail: OperandView,
    value: OperandView,
    arity: OperandView,
    tag: OperandView,
)
    requires
        b.types.len() == 0,
        instructions[index as int] == (InstructionView::IsTaggedTuple { fail, value, arity, tag }),
        lower_instruction_ir(b, context, blocks, metadata, index, instructions) is Ok,
    ensures
        ({
            let file = context.register_file;
            let target = operand_block_of(blocks, fail)->Ok_0;
            let next = blocks.block_after(index);
            &&& operand_block_of(blocks, fail) is Ok
            &&& lower_is_tagged_tuple_ir(b, file, value, arity, tag, target, next) is Ok
            &&& lower_instruction_ir(b, context, blocks, metadata, index, instructions) == Ok::<
                (bool, LoweringView),
                JitFault,
            >((true, lower_is_tagged_tuple_ir(b, file, value, arity, tag, target, next)->Ok_0))
        }),
{
    reveal(lower_instruction_ir);
    assert(b.types =~= Seq::empty());
}

#[verifier::rlimit(40)]
proof fn lemma_arithmetic_lowered(
    b: LoweringView,
    context: FunctionContext,
    blocks: BlockMapView,
    metadata: MetadataView,
    index: usize,
    instructions: Seq<InstructionView>,
    op: BifOp,
    operands: Seq<OperandView>,
)
    requires
        b.types.len() == 0,
        instructions[index as int] == (InstructionView::Bif { op, operands }),
        lower_instruction_ir(b, context, blocks, metadata, index, instructions) is Ok,
    ensures
        ({
            let file = context.register_file;
            let bif = parse_bif_of(op, operands)->Ok_0;
            let arithmetic = arithmetic_import_of(bif.import)->Ok_0;
            let fail = operand_block_of(blocks, bif.fail)->Ok_0;
            let targets = ArithmeticTargets { fail, success: blocks.block_after(index) };
            &&& operand_block_of(blocks, bif.fail) is Ok
            &&& lower_arithmetic_bif_ir(
                b,
                file,
                arithmetic,
                bif.left,
                bif.right,
                bif.destination,
                targets,
            ) is Ok
            &&& lower_instruction_ir(b, context, blocks, metadata, index, instructions) == Ok::<
                (bool, LoweringView),
                JitFault,
            >((true, lower_arithmetic_bif_ir(
                    b,
                    file,
                    arithmetic,
                    bif.left,
                    bif.right,
                    bif.destination,
                    targets,
                )->Ok_0))
        }),
{
    reveal(lower_instruction_ir);
    assert(b.types =~= Seq::empty());
    let bif = parse_bif_of(op, operands)->Ok_0;
    assert(materialize_operand_ir(b, context.register_file, bif.left) == b);
    assert(materialize_operand_ir(b, context.register_file, bif.right) == b);
}

#[verifier::rlimit(40)]
proof fn lemma_jump_lowered(
    b: LoweringView,
    context: FunctionContext,
    blocks: BlockMapView,
    metadata: MetadataView,
    index: usize,
    instructions: Seq<InstructionView>,
    target: OperandView,
)
    requires
        b.types.len() == 0,
        instructions[index as int] == (InstructionView::Jump { target }),
        lower_instruction_ir(b, context, blocks, metadata, index, instructions) is Ok,
    ensures
        ({
            let file = context.register_file;
            let block = operand_block_of(blocks, target)->Ok_0;
            &&& operand_block_of(blocks, target) is Ok
            &&& lower_instruction_ir(b, context, blocks, metadata, index, instructions) == Ok::<
                (bool, LoweringView),
                JitFault,
            >((true, b.emit(IrOp::Jump { block }).1))
        }),
{
    reveal(lower_instruction_ir);
    assert(b.types =~= Seq::empty());
}

#[verifier::rlimit(40)]
proof fn lemma_return_lowered(
    b: LoweringView,
    context: FunctionContext,
    blocks: BlockMapView,
    metadata: MetadataView,
    index: usize,
    instructions: Seq<InstructionView>,
)
    requires
        b.types.len() == 0,
        instructions[index as int] == (InstructionView::Return),
        lower_instruction_ir(b, context, blocks, metadata, index, instructions) is Ok,
    ensures
        ({
            let file = context.register_file;
            lower_instruction_ir(b, context, blocks, metadata, index, instructions) == Ok::<
                (bool, LoweringView),
                JitFault,
            >((true, return_first_ir(b, file)))
        }),
{
    reveal(lower_instruction_ir);
    assert(b.types =~= Seq::empty());
}

#[verifier::rlimit(40)]
proof fn lemma_head_lowered(
    b: LoweringView,
    context: FunctionContext,
    blocks: BlockMapView,
    metadata: MetadataView,
    index: usize,
    instructions: Seq<InstructionView>,
    source: OperandView,
    destination: OperandView,
)
    requires
        b.types.len() == 0,
        instructions[index as int] == (InstructionView::GetHd { source, destination }),
        lower_instruction_ir(b, context, blocks, metadata, index, instructions) is Ok,
    ensures
        ({
            let file = context.register_file;
            &&& lower_get_hd_ir(b, file, source, destination) is Ok
            &&& lower_instruction_ir(b, context, blocks, metadata, index, instructions) == Ok::<
                (bool, LoweringView),
                JitFault,
            >((false, lower_get_hd_ir(b, file, source, destination)->Ok_0))
        }),
{
    reveal(lower_instruction_ir);
    assert(b.types =~= Seq::empty());
}

#[verifier::rlimit(40)]
proof fn lemma_tail_lowered(
    b: LoweringView,
    context: FunctionContext,
    blocks: BlockMapView,
    metadata: MetadataView,
    index: usize,
    instructions: Seq<InstructionView>,
    source: OperandView,
    destination: OperandView,
)
    requires
        b.types.len() == 0,
        instructions[index as int] == (InstructionView::GetTl { source, destination }),
        lower_instruction_ir(b, context, blocks, metadata, index, instructions) is Ok,
    ensures
        ({
            let file = context.register_file;
            &&& lower_get_tl_ir(b, file, source, destination) is Ok
            &&& lower_instruction_ir(b, context, blocks, metadata, index, instructions) == Ok::<
                (bool, LoweringView),
                JitFault,
            >((false, lower_get_tl_ir(b, file, source, destination)->Ok_0))
        }),
{
    reveal(lower_instruction_ir);
    assert(b.types =~= Seq::empty());
}

#[verifier::rlimit(40)]
proof fn lemma_list_lowered(
    b: LoweringView,
    context: FunctionContext,
    blocks: BlockMapView,
    metadata: MetadataView,
    index: usize,
    instructions: Seq<InstructionView>,
    source: OperandView,
    head: OperandView,
    tail: OperandView,
)
    requires
        b.types.len() == 0,
        instructions[index as int] == (InstructionView::GetList { source, head, tail }),
        lower_instruction_ir(b, context, blocks, metadata, index, instructions) is Ok,
    ensures
        ({
            let file = context.register_file;
            &&& lower_get_list_ir(b, file, source, head, tail) is Ok
            &&& lower_instruction_ir(b, context, blocks, metadata, index, instructions) == Ok::<
                (bool, LoweringView),
                JitFault,
            >((false, lower_get_list_ir(b, file, source, head, tail)->Ok_0))
        }),
{
    reveal(lower_instruction_ir);
    assert(b.types =~= Seq::empty());
}

#[verifier::rlimit(40)]
proof fn lemma_element_lowered(
    b: LoweringView,
    context: FunctionContext,
    blocks: BlockMapView,
    metadata: MetadataView,
    index: usize,
    instructions: Seq<InstructionView>,
    source: OperandView,
    element: OperandView,
    destination: OperandView,
)
    requires
        b.types.len() == 0,
        instructions[index as int] == (InstructionView::GetTupleElement {
            source,
            index: element,
            destination,
        }),
        lower_instruction_ir(b, context, blocks, metadata, index, instructions) is Ok,
    ensures
        ({
            let file = context.register_file;
            let position = immediate_usize_of(element, "get_tuple_element index"@)->Ok_0;
            &&& lower_get_tuple_element_ir(b, file, source, position, destination) is Ok
            &&& lower_instruction_ir(b, context, blocks, metadata, index, instructions) == Ok::<
                (bool, LoweringView),
                JitFault,
            >((false, lower_get_tuple_element_ir(b, file, source, position, destination)->Ok_0))
        }),
{
    reveal(lower_instruction_ir);
    assert(b.types =~= Seq::empty());
}

#[verifier::rlimit(40)]
proof fn lemma_label_lowered(
    b: LoweringView,
    context: FunctionContext,
    blocks: BlockMapView,
    metadata: MetadataView,
    index: usize,
    instructions: Seq<InstructionView>,
)
    requires
        instructions[index as int] is Label,
    ensures
        lower_instruction_ir(b, context, blocks, metadata, index, instructions) == Ok::<
            (bool, LoweringView),
            JitFault,
        >((false, b)),
{
    reveal(lower_instruction_ir);
}

#[verifier::rlimit(40)]
proof fn lemma_load_grows(
    b: LoweringView,
    context: FunctionContext,
    blocks: BlockMapView,
    metadata: MetadataView,
    index: usize,
    instructions: Seq<InstructionView>,
)
    requires
        has_room(b),
        b.types.len() == 0,
        is_load(instructions[index as int]),
        lower_instruction_ir(b, context, blocks, metadata, index, instructions) is Ok,
    ensures
        ({
            let (ended, after) = lower_instruction_ir(
                b,
                context,
                blocks,
                metadata,
                index,
                instructions,
            )->Ok_0;
            &&& !ended
            &&& grows(b, after, 50)
        }),
{
    broadcast use group_grows;

    lemma_more_grows(b, b, 0);
    match instructions[index as int] {
        InstructionView::GetHd { source, destination } => {
            lemma_head_lowered(
                b,
                context,
                blocks,
                metadata,
                index,
                instructions,
                source,
                destination,
            );
        },
        InstructionView::GetTl { source, destination } => {
            lemma_tail_lowered(
                b,
                context,
                blocks,
                metadata,
                index,
                instructions,
                source,
                destination,
            );
        },
        InstructionView::GetList { source, head, tail } => {
            lemma_list_lowered(
                b,
                context,
                blocks,
                metadata,
                index,
                instructions,
                source,
                head,
                tail,
            );
        },
        InstructionView::GetTupleElement { source, index: element, destination } => {
            lemma_element_lowered(
                b,
                context,
                blocks,
                metadata,
                index,
                instructions,
                source,
                element,
                destination,
            );
        },
        _ => {},
    }
}

#[verifier::rlimit(40)]
#[verifier::rlimit(40)]
proof fn lemma_step_grows(
    b: LoweringView,
    context: FunctionContext,
    blocks: BlockMapView,
    metadata: MetadataView,
    index: usize,
    instructions: Seq<InstructionView>,
)
    requires
        has_room(b),
        b.types.len() == 0,
        is_plain(instructions[index as int]),
        lower_instruction_ir(b, context, blocks, metadata, index, instructions) is Ok,
    ensures
        ({
            let (ended, after) = lower_instruction_ir(
                b,
                context,
                blocks,
                metadata,
                index,
                instructions,
            )->Ok_0;
            &&& ended == ends(instructions[index as int])
            &&& grows(b, after, 50)
        }),
{
    broadcast use group_grows;

    let file = context.register_file;
    let next = blocks.block_after(index);
    lemma_more_grows(b, b, 0);
    match instructions[index as int] {
        InstructionView::Move { source, destination } => {
            lemma_move_lowered(
                b,
                context,
                blocks,
                metadata,
                index,
                instructions,
                source,
                destination,
            );
        },
        InstructionView::Swap { left, right } => {
            lemma_swap_lowered(b, context, blocks, metadata, index, instructions, left, right);
        },
        InstructionView::Bif { op, operands } => {
            lemma_arithmetic_lowered(
                b,
                context,
                blocks,
                metadata,
                index,
                instructions,
                op,
                operands,
            );
            let bif = parse_bif_of(op, operands)->Ok_0;
            let fail = operand_block_of(blocks, bif.fail)->Ok_0;
            lemma_arithmetic_grows(
                b,
                file,
                arithmetic_import_of(bif.import)->Ok_0,
                bif.left,
                bif.right,
                bif.destination,
                ArithmeticTargets { fail, success: next },
            );
        },
        InstructionView::Comparison { op, fail, left, right } => {
            lemma_comparison_lowered(
                b,
                context,
                blocks,
                metadata,
                index,
                instructions,
                op,
                fail,
                left,
                right,
            );
            let target = operand_block_of(blocks, fail)->Ok_0;
            lemma_comparison_grows(b, file, op, left, right, target, next);
        },
        InstructionView::TypeTest { op, fail, value } => {
            lemma_type_test_lowered(
                b,
                context,
                blocks,
                metadata,
                index,
                instructions,
                op,
                fail,
                value,
            );
            let target = operand_block_of(blocks, fail)->Ok_0;
            lemma_type_test_grows(b, file, op, value, target, next);
        },
        InstructionView::TestArity { fail, tuple, arity } => {
            lemma_arity_test_lowered(
                b,
                context,
                blocks,
                metadata,
                index,
                instructions,
                fail,
                tuple,
                arity,
            );
            let target = operand_block_of(blocks, fail)->Ok_0;
            lemma_arity_test_grows(b, file, tuple, arity, target, next);
        },
        InstructionView::IsTaggedTuple { fail, value, arity, tag } => {
            lemma_tagged_tuple_lowered(
                b,
                context,
                blocks,
                metadata,
                index,
                instructions,
                fail,
                value,
                arity,
                tag,
            );
            let target = operand_block_of(blocks, fail)->Ok_0;
            lemma_tagged_tuple_test_grows(b, file, value, arity, tag, target, next);
        },
        InstructionView::Jump { target } => {
            lemma_jump_lowered(b, context, blocks, metadata, index, instructions, target);
        },
        InstructionView::Return => {
            lemma_return_lowered(b, context, blocks, metadata, index, instructions);
            lemma_return_grows(b, file);
        },
        InstructionView::GetHd { .. }
        | InstructionView::GetTl { .. }
        | InstructionView::GetList { .. }
        | InstructionView::GetTupleElement { .. } => {
            lemma_load_grows(b, context, blocks, metadata, index, instructions);
        },
        _ => {
            lemma_label_lowered(b, context, blocks, metadata, index, instructions);
        },
    }
}

#[verifier::rlimit(40)]
proof fn lemma_return_grows(b: LoweringView, register_file: Value)
    requires
        has_room(b),
    ensures
        grows(b, return_first_ir(b, register_file), 50),
{
    broadcast use group_grows;

    lemma_more_grows(b, b, 0);
}

/// Whether the blocks of instructions and labels were made before so many operations.
pub open spec fn blocks_before(blocks: BlockMapView, count: nat) -> bool {
    &&& forall|i: int|
        0 <= i < blocks.blocks_by_index.len() ==> #[trigger] blocks.blocks_by_index[i] < count
    &&& forall|label: u32|
        blocks.label_blocks.contains_key(label) ==> #[trigger] blocks.label_blocks[label] < count
}

/// Whether code has done what a plain instruction does.
spec fn has_stepped(
    instruction: InstructionView,
    next: Block,
    blocks: BlockMapView,
    m: Machine,
    base: i64,
    end: Flow,
    from: int,
) -> bool {
    match step(instruction, m.memory, base) {
        Step::Next(memory) => if ends(instruction) {
            end matches Flow::Left(block, n) && block == next && only_stored(m, n, from)
                && n.memory == memory
        } else {
            end matches Flow::Running(n) && only_stored(m, n, from) && n.memory == memory
        },
        Step::Go(label) => end matches Flow::Left(block, n) && block == operand_block_of(
            blocks,
            label,
        )->Ok_0 && only_stored(m, n, from) && n.memory == m.memory,
        Step::Return => answers_with(
            end,
            JIT_STATUS_NORMAL,
            m.memory[register_address(base, Register::X(0))],
            m,
        ),
    }
}

/// Whether the code of an instruction does what the instruction does.
spec fn lowered_steps(
    b: LoweringView,
    context: FunctionContext,
    blocks: BlockMapView,
    metadata: MetadataView,
    index: usize,
    instructions: Seq<InstructionView>,
    m: Machine,
) -> bool {
    let after = lower_instruction_ir(b, context, blocks, metadata, index, instructions)->Ok_0.1;
    has_stepped(
        instructions[index as int],
        blocks.block_after(index),
        blocks,
        m,
        m.values[context.register_file],
        does(after, b.ops.len() as int, Flow::Running(m)),
        b.ops.len() as int,
    )
}

proof fn lemma_move_steps(
    b: LoweringView,
    context: FunctionContext,
    blocks: BlockMapView,
    metadata: MetadataView,
    index: usize,
    instructions: Seq<InstructionView>,
    m: Machine,
)
    requires
        has_room(b),
        b.types.len() == 0,
        context.register_file < b.ops.len(),
        index + 1 < blocks.blocks_by_index.len(),
        blocks_before(blocks, b.ops.len()),
        is_plain(instructions[index as int]),
        instructions[index as int] is Move || instructions[index as int] is Swap,
        lower_instruction_ir(b, context, blocks, metadata, index, instructions) is Ok,
    ensures
        lowered_steps(b, context, blocks, metadata, index, instructions, m),
{
    let from = b.ops.len() as int;
    let start = Flow::Running(m);
    let file = context.register_file;
    let next = blocks.block_after(index);
    assert(blocks.blocks_by_index[index + 1] == next);
    match instructions[index as int] {
        InstructionView::Move { source, destination } => {
            lemma_move_lowered(
                b,
                context,
                blocks,
                metadata,
                index,
                instructions,
                source,
                destination,
            );
            lemma_read(b, file, source, from, start);
            let (value, b1) = read_operand_term_ir(b, file, source)->Ok_0;
            lemma_write(b1, file, destination, value, from, start);
        },
        InstructionView::Swap { left, right } => {
            lemma_swap_lowered(b, context, blocks, metadata, index, instructions, left, right);
            lemma_read(b, file, left, from, start);
            let (left_value, b1) = read_operand_term_ir(b, file, left)->Ok_0;
            lemma_read(b1, file, right, from, start);
            let (right_value, b2) = read_operand_term_ir(b1, file, right)->Ok_0;
            lemma_write(b2, file, left, right_value, from, start);
            let b3 = write_operand_term_ir(b2, file, left, right_value)->Ok_0;
            lemma_write(b3, file, right, left_value, from, start);
        },
        _ => {},
    }
}

proof fn lemma_load_steps(
    b: LoweringView,
    context: FunctionContext,
    blocks: BlockMapView,
    metadata: MetadataView,
    index: usize,
    instructions: Seq<InstructionView>,
    m: Machine,
)
    requires
        has_room(b),
        b.types.len() == 0,
        context.register_file < b.ops.len(),
        index + 1 < blocks.blocks_by_index.len(),
        blocks_before(blocks, b.ops.len()),
        is_plain(instructions[index as int]),
        is_load(instructions[index as int]),
        lower_instruction_ir(b, context, blocks, metadata, index, instructions) is Ok,
    ensures
        lowered_steps(b, context, blocks, metadata, index, instructions, m),
{
    let from = b.ops.len() as int;
    let start = Flow::Running(m);
    let file = context.register_file;
    let next = blocks.block_after(index);
    assert(blocks.blocks_by_index[index + 1] == next);
    match instructions[index as int] {
        InstructionView::GetHd { source, destination } => {
            lemma_head_lowered(
                b,
                context,
                blocks,
                metadata,
                index,
                instructions,
                source,
                destination,
            );
            law_head_is_read(b, file, source, destination, m);
        },
        InstructionView::GetTl { source, destination } => {
            lemma_tail_lowered(
                b,
                context,
                blocks,
                metadata,
                index,
                instructions,
                source,
                destination,
            );
            law_tail_is_read(b, file, source, destination, m);
        },
        InstructionView::GetList { source, head, tail } => {
            lemma_list_lowered(
                b,
                context,
                blocks,
                metadata,
                index,
                instructions,
                source,
                head,
                tail,
            );
            law_list_is_taken_apart(b, file, source, head, tail, m);
        },
        InstructionView::GetTupleElement { source, index: element, destination } => {
            lemma_element_lowered(
                b,
                context,
                blocks,
                metadata,
                index,
                instructions,
                source,
                element,
                destination,
            );
            let position = immediate_usize_of(element, "get_tuple_element index"@)->Ok_0;
            law_tuple_element_is_read(b, file, source, position, destination, m);
        },
        _ => {},
    }
}

#[verifier::rlimit(40)]
proof fn lemma_step(
    b: LoweringView,
    context: FunctionContext,
    blocks: BlockMapView,
    metadata: MetadataView,
    index: usize,
    instructions: Seq<InstructionView>,
    m: Machine,
)
    requires
        has_room(b),
        b.types.len() == 0,
        context.register_file < b.ops.len(),
        index + 1 < blocks.blocks_by_index.len(),
        blocks_before(blocks, b.ops.len()),
        is_plain(instructions[index as int]),
        lower_instruction_ir(b, context, blocks, metadata, index, instructions) is Ok,
    ensures
        lowered_steps(b, context, blocks, metadata, index, instructions, m),
{
    let from = b.ops.len() as int;
    let start = Flow::Running(m);
    let file = context.register_file;
    let next = blocks.block_after(index);
    assert(blocks.blocks_by_index[index + 1] == next);
    match instructions[index as int] {
        InstructionView::Bif { op, operands } => {
            lemma_arithmetic_lowered(
                b,
                context,
                blocks,
                metadata,
                index,
                instructions,
                op,
                operands,
            );
            let bif = parse_bif_of(op, operands)->Ok_0;
            let fail = operand_block_of(blocks, bif.fail)->Ok_0;
            law_arithmetic_computes(
                b,
                file,
                arithmetic_import_of(bif.import)->Ok_0,
                bif.left,
                bif.right,
                bif.destination,
                ArithmeticTargets { fail, success: next },
                m,
            );
        },
        InstructionView::Comparison { op, fail, left, right } => {
            lemma_comparison_lowered(
                b,
                context,
                blocks,
                metadata,
                index,
                instructions,
                op,
                fail,
                left,
                right,
            );
            let target = operand_block_of(blocks, fail)->Ok_0;
            law_comparison_decides(b, file, op, left, right, target, next, m);
        },
        InstructionView::TypeTest { op, fail, value } => {
            lemma_type_test_lowered(
                b,
                context,
                blocks,
                metadata,
                index,
                instructions,
                op,
                fail,
                value,
            );
            let target = operand_block_of(blocks, fail)->Ok_0;
            law_type_test_decides(b, file, op, value, target, next, m);
        },
        InstructionView::TestArity { fail, tuple, arity } => {
            lemma_arity_test_lowered(
                b,
                context,
                blocks,
                metadata,
                index,
                instructions,
                fail,
                tuple,
                arity,
            );
            let target = operand_block_of(blocks, fail)->Ok_0;
            law_arity_test_decides(b, file, tuple, arity, target, next, m);
        },
        InstructionView::IsTaggedTuple { fail, value, arity, tag } => {
            lemma_tagged_tuple_lowered(
                b,
                context,
                blocks,
                metadata,
                index,
                instructions,
                fail,
                value,
                arity,
                tag,
            );
            let target = operand_block_of(blocks, fail)->Ok_0;
            law_tagged_tuple_test_decides(b, file, value, arity, tag, target, next, m);
        },
        InstructionView::Jump { target } => {
            lemma_jump_lowered(b, context, blocks, metadata, index, instructions, target);
            let block = operand_block_of(blocks, target)->Ok_0;
            lemma_emit(b, IrOp::Jump { block }, from, start);
        },
        InstructionView::Return => {
            lemma_return_lowered(b, context, blocks, metadata, index, instructions);
            assert(bare_fits(b.types, m.memory, m.values[file], Register::X(0)));
            lemma_return_first(b, file, from, start, m);
        },
        InstructionView::Label { .. } => {
            lemma_label_lowered(b, context, blocks, metadata, index, instructions);
        },
        InstructionView::Move { .. } | InstructionView::Swap { .. } => {
            lemma_move_steps(b, context, blocks, metadata, index, instructions, m);
        },
        _ => {
            lemma_load_steps(b, context, blocks, metadata, index, instructions, m);
        },
    }
}

/// What a function does to the world: the memory, the calls that were made, and what the
/// calls do, in the order in which they are made.
#[verifier::ext_equal]
pub struct World {
    pub memory: Map<int, i64>,
    pub calls: Seq<Made>,
    pub answers: Seq<Answer>,
}

impl World {
    /// What the next call does.
    pub open spec fn answer(self) -> Answer {
        self.answers[self.calls.len() as int]
    }

    /// The world when the next call returns.
    pub open spec fn asked(self, helper: Helper, args: Seq<i64>) -> World {
        World {
            memory: self.answer().memory,
            calls: self.calls.push(Made { helper, args, memory: self.memory }),
            ..self
        }
    }
}

/// The world that a machine works on.
pub open spec fn world_of(m: Machine) -> World {
    World { memory: m.memory, calls: m.calls, answers: m.answers }
}

/// What a function is called with, and which function it is.
pub struct Setting {
    /// Where the registers are.
    pub base: i64,
    pub process: i64,
    pub frame: CompiledFrameInfo,
}

/// What an instruction comes to.
pub enum Advance {
    /// The next instruction.
    On(World),
    /// The instruction at a label.
    Go(OperandView, World),
    /// The end of the function, with a status and a word.
    Answer(u8, i64, World),
    /// What is not said: the heap gave words that cannot be written.
    Open,
}

/// A call of another function has returned a status and a value: these are returned,
/// with the value in the first register, unless the status asks for something else. An
/// exception gets the frame of this function added to its trace.
pub open spec fn called_out(status: i64, value: i64, w: World, s: Setting) -> Advance {
    if status == JIT_STATUS_DEOPT {
        Advance::Answer(JIT_STATUS_DEOPT, JIT_DEOPT_SENTINEL, w)
    } else if status == JIT_STATUS_YIELD {
        Advance::Answer(JIT_STATUS_YIELD, JIT_YIELD_SENTINEL, w)
    } else if status == JIT_STATUS_EXCEPTION {
        Advance::Answer(
            JIT_STATUS_EXCEPTION,
            value,
            w.asked(
                Helper::AddCompiledFrame,
                seq![
                    s.process,
                    s.frame.module.0 as i64,
                    s.frame.function.0 as i64,
                    s.frame.arity as i64,
                ],
            ),
        )
    } else {
        let memory = w.memory.insert(register_address(s.base, Register::X(0)), value);
        Advance::Answer(JIT_STATUS_NORMAL, value, World { memory, ..w })
    }
}

/// A call of an imported function.
pub open spec fn external_call(
    arity: OperandView,
    import: OperandView,
    w: World,
    s: Setting,
) -> Advance {
    let args = seq![
        s.process,
        s.frame.module.0 as i64,
        import_index_of(import)->Ok_0 as i64,
        immediate_u8_of(arity, "external call arity"@)->Ok_0 as i64,
        s.base,
    ];
    called_out(
        w.answer().first,
        w.answer().second,
        w.asked(Helper::CallInterpreted, args),
        s,
    )
}

/// A call of a function of the module: it is charged for, and goes to the function
/// without a way back.
pub open spec fn local_call(label: OperandView, w: World, s: Setting) -> Advance {
    let charged = w.asked(Helper::ChargeReduction, seq![s.process]);
    if w.answer().first != 0 {
        Advance::Answer(JIT_STATUS_YIELD, JIT_YIELD_SENTINEL, charged)
    } else {
        Advance::Go(label, charged)
    }
}

/// A list of a head and a tail, at the words that the heap gives.
pub open spec fn list_made(
    head: OperandView,
    tail: OperandView,
    destination: OperandView,
    w: World,
    s: Setting,
) -> Advance {
    let address = w.answer().first;
    let k = w.asked(Helper::AllocCons, seq![s.process]);
    if address == 0 {
        Advance::Answer(JIT_STATUS_DEOPT, JIT_DEOPT_SENTINEL, k)
    } else if address as int % 8 != 0 {
        Advance::Open
    } else {
        let cell = k.memory.insert(address as int, word_of(k.memory, s.base, head)).insert(
            address + 8,
            word_of(k.memory, s.base, tail),
        );
        Advance::On(
            World {
                memory: with_word(cell, s.base, destination, (address + LIST_TAG) as i64),
                ..k
            },
        )
    }
}

/// The terms that operands stand for.
pub open spec fn words_of(memory: Map<int, i64>, base: i64, operands: Seq<OperandView>) -> Seq<
    i64,
> {
    operands.map_values(|operand: OperandView| word_of(memory, base, operand))
}

/// A tuple of elements, at the words that the heap gives.
pub open spec fn tuple_made(
    elements: OperandView,
    destination: OperandView,
    w: World,
    s: Setting,
) -> Advance {
    let items = tuple_elements_of(elements)->Ok_0;
    let address = w.answer().first;
    let k = w.asked(Helper::AllocTuple, seq![s.process, items.len() as i64]);
    if address == 0 {
        Advance::Answer(JIT_STATUS_DEOPT, JIT_DEOPT_SENTINEL, k)
    } else if address as int % 8 != 0 || !apart_from_registers(
        s.base,
        address as int,
        items.len() + 1,
    ) {
        Advance::Open
    } else {
        let words = filled(
            k.memory.insert(address as int, tuple_header_of(items.len() as i64)),
            address as int,
            words_of(k.memory, s.base, items),
            items.len(),
        );
        Advance::On(
            World {
                memory: with_word(words, s.base, destination, (address + BOXED_TAG) as i64),
                ..k
            },
        )
    }
}

/// What an instruction does.
pub open spec fn advance(instruction: InstructionView, w: World, s: Setting) -> Advance {
    match instruction {
        InstructionView::Call { label, .. } => local_call(label, w, s),
        InstructionView::CallOnly { label, .. } => local_call(label, w, s),
        InstructionView::CallExt { arity, import } => external_call(arity, import, w, s),
        InstructionView::CallExtOnly { arity, import } => external_call(arity, import, w, s),
        InstructionView::PutList { head, tail, destination } => list_made(
            head,
            tail,
            destination,
            w,
            s,
        ),
        InstructionView::PutTuple2 { destination, elements } => tuple_made(
            elements,
            destination,
            w,
            s,
        ),
        _ => match step(instruction, w.memory, s.base) {
            Step::Next(memory) => Advance::On(World { memory, ..w }),
            Step::Go(label) => Advance::Go(label, w),
            Step::Return => Advance::Answer(
                JIT_STATUS_NORMAL,
                w.memory[register_address(s.base, Register::X(0))],
                w,
            ),
        },
    }
}

/// Whether an instruction calls a function of the module or an imported one.
pub open spec fn is_call(instruction: InstructionView) -> bool {
    instruction is Call || instruction is CallOnly || instruction is CallExt
        || instruction is CallExtOnly
}

/// Whether an instruction makes a list or a tuple that has elements. The type of a tuple
/// without elements is known wherever it goes, so nothing is said of one.
pub open spec fn is_made(instruction: InstructionView) -> bool {
    match instruction {
        InstructionView::PutList { .. } => true,
        InstructionView::PutTuple2 { elements, .. } => tuple_elements_of(elements) matches Ok(items)
            ==> items.len() > 0,
        _ => false,
    }
}

/// Whether an instruction is one that [`advance`] says all of.
pub open spec fn is_told(instruction: InstructionView) -> bool {
    is_plain(instruction) || is_call(instruction) || is_made(instruction)
}

/// How many operations an instruction is lowered to, at most.
pub open spec fn weight(instruction: InstructionView) -> nat {
    match instruction {
        InstructionView::PutTuple2 { elements: OperandView::List(items), .. } => 60 + 2
            * items.len(),
        _ => 60,
    }
}

/// Whether code has done what an instruction does.
pub open spec fn has_advanced(
    instruction: InstructionView,
    next: Block,
    blocks: BlockMapView,
    m: Machine,
    s: Setting,
    end: Flow,
    from: int,
) -> bool {
    match advance(instruction, world_of(m), s) {
        Advance::On(w) => if ends(instruction) {
            end matches Flow::Left(block, n) && block == next && keeps(m, n, from) && world_of(n)
                == w
        } else {
            end matches Flow::Running(n) && keeps(m, n, from) && world_of(n) == w
        },
        Advance::Go(label, w) => end matches Flow::Left(block, n) && block == operand_block_of(
            blocks,
            label,
        )->Ok_0 && keeps(m, n, from) && world_of(n) == w,
        Advance::Answer(status, word, w) => match end {
            Flow::Returned(returned, value, n) => returned == Some(status as i64) && value == word
                && world_of(n) == w,
            Flow::Left(block, n) => exit_answer(blocks, block) == Some((status, word)) && world_of(
                n,
            ) == w,
            _ => false,
        },
        Advance::Open => true,
    }
}

#[verifier::rlimit(40)]
proof fn lemma_local_call_lowered(
    b: LoweringView,
    context: FunctionContext,
    blocks: BlockMapView,
    metadata: MetadataView,
    index: usize,
    instructions: Seq<InstructionView>,
    label: OperandView,
)
    requires
        instructions[index as int] matches InstructionView::Call { label: named, .. } ==> named
            == label,
        instructions[index as int] matches InstructionView::CallOnly { label: named, .. } ==> named
            == label,
        instructions[index as int] is Call || instructions[index as int] is CallOnly,
        lower_instruction_ir(b, context, blocks, metadata, index, instructions) is Ok,
    ensures
        ({
            let target = operand_block_of(blocks, label)->Ok_0;
            let charged = charge_reduction_or_yield_ir(b, context.process, blocks.yield_block);
            &&& operand_block_of(blocks, label) is Ok
            &&& lower_instruction_ir(b, context, blocks, metadata, index, instructions) == Ok::<
                (bool, LoweringView),
                JitFault,
            >((true, charged.emit(IrOp::Jump { block: target }).1))
        }),
{
    reveal(lower_instruction_ir);
}

#[verifier::rlimit(40)]
proof fn lemma_external_call_lowered(
    b: LoweringView,
    context: FunctionContext,
    blocks: BlockMapView,
    metadata: MetadataView,
    index: usize,
    instructions: Seq<InstructionView>,
    arity: OperandView,
    import: OperandView,
)
    requires
        instructions[index as int] == (InstructionView::CallExt { arity, import })
            || instructions[index as int] == (InstructionView::CallExtOnly { arity, import }),
        lower_instruction_ir(b, context, blocks, metadata, index, instructions) is Ok,
    ensures
        lower_call_ext_ir(b, context, blocks, arity, import) is Ok,
        lower_instruction_ir(b, context, blocks, metadata, index, instructions) == Ok::<
            (bool, LoweringView),
            JitFault,
        >((true, lower_call_ext_ir(b, context, blocks, arity, import)->Ok_0)),
{
    reveal(lower_instruction_ir);
}

/// The lowering with a place recorded where the heap may move.
spec fn recorded(b: LoweringView, index: usize, operands: Seq<OperandView>) -> LoweringView {
    LoweringView { maps: with_site(b.maps, index, operands)->Ok_0, ..b }
}

#[verifier::rlimit(40)]
proof fn lemma_put_list_lowered(
    b: LoweringView,
    context: FunctionContext,
    blocks: BlockMapView,
    metadata: MetadataView,
    index: usize,
    instructions: Seq<InstructionView>,
    head: OperandView,
    tail: OperandView,
    destination: OperandView,
)
    requires
        b.types.len() == 0,
        instructions[index as int] == (InstructionView::PutList { head, tail, destination }),
        lower_instruction_ir(b, context, blocks, metadata, index, instructions) is Ok,
    ensures
        ({
            let b1 = recorded(b, index, seq![head, tail, destination]);
            let made = lower_put_list_ir(
                b1,
                allocation_context_of(context, blocks),
                head,
                tail,
                destination,
            );
            &&& made is Ok
            &&& lower_instruction_ir(b, context, blocks, metadata, index, instructions) == Ok::<
                (bool, LoweringView),
                JitFault,
            >((false, made->Ok_0))
        }),
{
    reveal(lower_instruction_ir);
    assert(b.types =~= Seq::empty());
    let b1 = recorded(b, index, seq![head, tail, destination]);
    assert(materialize_operand_ir(b1, context.register_file, head) == b1);
    assert(materialize_operand_ir(b1, context.register_file, tail) == b1);
}

proof fn lemma_nothing_to_materialize(
    b: LoweringView,
    register_file: Value,
    operands: Seq<OperandView>,
    n: nat,
)
    requires
        b.types.len() == 0,
        n <= operands.len(),
    ensures
        materialize_operands_ir(b, register_file, operands, n) == b,
    decreases n,
{
    assert(b.types =~= Seq::empty());
    if n > 0 {
        lemma_nothing_to_materialize(b, register_file, operands, (n - 1) as nat);
    }
}

#[verifier::rlimit(40)]
proof fn lemma_put_tuple_dispatched(
    b: LoweringView,
    context: FunctionContext,
    blocks: BlockMapView,
    metadata: MetadataView,
    index: usize,
    instructions: Seq<InstructionView>,
    destination: OperandView,
    elements: OperandView,
)
    requires
        instructions[index as int] == (InstructionView::PutTuple2 { destination, elements }),
    ensures
        lower_instruction_ir(b, context, blocks, metadata, index, instructions)
            == lower_put_tuple_instruction_ir(b, context, blocks, index, destination, elements),
{
    reveal(lower_instruction_ir);
}

#[verifier::rlimit(40)]
proof fn lemma_put_tuple_made(
    b: LoweringView,
    context: FunctionContext,
    blocks: BlockMapView,
    index: usize,
    destination: OperandView,
    elements: OperandView,
)
    requires
        b.types.len() == 0,
        tuple_elements_of(elements) matches Ok(items) ==> items.len() > 0,
        lower_put_tuple_instruction_ir(b, context, blocks, index, destination, elements) is Ok,
    ensures
        ({
            let b1 = recorded(b, index, tuple_roots_of(destination, elements)->Ok_0);
            let made = lower_put_tuple2_ir(
                b1,
                allocation_context_of(context, blocks),
                destination,
                elements,
            );
            &&& tuple_elements_of(elements) is Ok
            &&& made is Ok
            &&& lower_put_tuple_instruction_ir(b, context, blocks, index, destination, elements)
                == Ok::<(bool, LoweringView), JitFault>((false, made->Ok_0))
        }),
{
    assert(b.types =~= Seq::empty());
    let items = tuple_elements_of(elements)->Ok_0;
    let b1 = recorded(b, index, tuple_roots_of(destination, elements)->Ok_0);
    lemma_nothing_to_materialize(b1, context.register_file, items, items.len());
    assert(tuple_type_from_elements_of(b.types, elements) is None);
    let allocation = allocation_context_of(context, blocks);
    let made = lower_put_tuple2_ir(b1, allocation, destination, elements)->Ok_0;
    lemma_tuple_types_stay(b1, allocation, destination, elements);
    assert(set_type_ir(made, destination, None) == made);
}

proof fn lemma_elements_keep_types(
    b: LoweringView,
    register_file: Value,
    heap: Value,
    elements: Seq<OperandView>,
    n: nat,
)
    requires
        n <= elements.len(),
        store_elements_ir(b, register_file, heap, elements, n) is Ok,
    ensures
        store_elements_ir(b, register_file, heap, elements, n)->Ok_0.types == b.types,
    decreases n,
{
    if n > 0 {
        lemma_elements_keep_types(b, register_file, heap, elements, (n - 1) as nat);
    }
}

proof fn lemma_tuple_types_stay(
    b: LoweringView,
    context: LoweringContext,
    destination: OperandView,
    elements: OperandView,
)
    requires
        lower_put_tuple2_ir(b, context, destination, elements) is Ok,
    ensures
        lower_put_tuple2_ir(b, context, destination, elements)->Ok_0.types == b.types,
{
    let items = tuple_elements_of(elements)->Ok_0;
    let arity = items.len() as i64;
    let (arity_value, b1) = b.emit(IrOp::Iconst { ty: IrType::I64, value: arity });
    let (call, b2) = b1.emit(
        IrOp::Call { helper: Helper::AllocTuple, args: Args::Two(context.process, arity_value) },
    );
    let (heap, b3) = b2.emit(IrOp::Result { of: call, index: 0 });
    let b4 = branch_if_null_ir(b3, heap, context.deopt);
    let (header, b5) = b4.emit(
        IrOp::Iconst { ty: IrType::I64, value: tuple_header_of(arity) },
    );
    let b6 = b5.emit(IrOp::Store { value: header, base: heap, offset: 0 }).1;
    lemma_elements_keep_types(b6, context.register_file, heap, items, items.len());
}

#[verifier::rlimit(40)]
proof fn lemma_put_tuple_lowered(
    b: LoweringView,
    context: FunctionContext,
    blocks: BlockMapView,
    metadata: MetadataView,
    index: usize,
    instructions: Seq<InstructionView>,
    destination: OperandView,
    elements: OperandView,
)
    requires
        b.types.len() == 0,
        instructions[index as int] == (InstructionView::PutTuple2 { destination, elements }),
        is_made(instructions[index as int]),
        lower_instruction_ir(b, context, blocks, metadata, index, instructions) is Ok,
    ensures
        ({
            let b1 = recorded(b, index, tuple_roots_of(destination, elements)->Ok_0);
            let made = lower_put_tuple2_ir(
                b1,
                allocation_context_of(context, blocks),
                destination,
                elements,
            );
            &&& tuple_elements_of(elements) is Ok
            &&& made is Ok
            &&& lower_instruction_ir(b, context, blocks, metadata, index, instructions) == Ok::<
                (bool, LoweringView),
                JitFault,
            >((false, made->Ok_0))
        }),
{
    lemma_put_tuple_dispatched(
        b,
        context,
        blocks,
        metadata,
        index,
        instructions,
        destination,
        elements,
    );
    lemma_put_tuple_made(b, context, blocks, index, destination, elements);
}

#[verifier::rlimit(40)]
proof fn lemma_external_call_grows(
    b: LoweringView,
    context: FunctionContext,
    blocks: BlockMapView,
    arity: OperandView,
    import: OperandView,
)
    requires
        has_room(b),
        b.types.len() == 0,
        b.tries.len() == 0,
        lower_call_ext_ir(b, context, blocks, arity, import) is Ok,
    ensures
        grows(b, lower_call_ext_ir(b, context, blocks, arity, import)->Ok_0, 50),
{
    broadcast use group_grows;

    lemma_more_grows(b, b, 0);
    assert(materialize_all_ir(b, context.register_file) == b);
    let (module_value, b1) = b.emit(
        IrOp::Iconst { ty: IrType::I64, value: context.frame.module.0 as i64 },
    );
    let (import_value, b2) = b1.emit(
        IrOp::Iconst { ty: IrType::I64, value: import_index_of(import)->Ok_0 as i64 },
    );
    let (arity_value, b3) = b2.emit(
        IrOp::Iconst {
            ty: IrType::I64,
            value: immediate_u8_of(arity, "external call arity"@)->Ok_0 as i64,
        },
    );
    let (call, b4) = b3.emit(
        IrOp::Call {
            helper: Helper::CallInterpreted,
            args: Args::Five(
                context.process,
                module_value,
                import_value,
                arity_value,
                context.register_file,
            ),
        },
    );
    let (status, b5) = b4.emit(IrOp::Result { of: call, index: 0 });
    let (returned, b6) = b5.emit(IrOp::Result { of: call, index: 1 });
    assert(grows(b, b6, 6));
    let (status_continuation, b7) = b6.create_block();
    assert(grows(b, b7, 7));
    let b8 = branch_to_status_blocks_ir(
        b7,
        status,
        blocks.deopt,
        blocks.yield_block,
        status_continuation,
    );
    assert(grows(b, b8, 14));
    let (normal_continuation, b9) = b8.create_block();
    assert(grows(b, b9, 15));
    assert(current_frame_of(b9) is None);
    let b10 = dispatch_exception_status_ir(
        b9,
        None,
        context.frame,
        context.process,
        context.register_file,
        status,
        returned,
        normal_continuation,
    );
    assert(grows(b, b10, 26));
    lemma_more_grows(b, b10, 26);
}

#[verifier::rlimit(40)]
proof fn lemma_local_call_grows(b: LoweringView, process: Value, yield_block: Block, target: Block)
    requires
        has_room(b),
    ensures
        grows(
            b,
            charge_reduction_or_yield_ir(b, process, yield_block).emit(
                IrOp::Jump { block: target },
            ).1,
            50,
        ),
{
    broadcast use group_grows;

    lemma_more_grows(b, b, 0);
}

#[verifier::rlimit(40)]
proof fn lemma_put_list_grows(
    b: LoweringView,
    context: LoweringContext,
    head: OperandView,
    tail: OperandView,
    destination: OperandView,
)
    requires
        has_room(b),
        lower_put_list_ir(b, context, head, tail, destination) is Ok,
    ensures
        grows(b, lower_put_list_ir(b, context, head, tail, destination)->Ok_0, 50),
{
    broadcast use group_grows;

    lemma_more_grows(b, b, 0);
}

#[verifier::rlimit(40)]
proof fn lemma_elements_grow(
    before: LoweringView,
    b: LoweringView,
    register_file: Value,
    heap: Value,
    elements: Seq<OperandView>,
    n: nat,
    most: nat,
)
    requires
        n <= elements.len(),
        grows(before, b, most),
        store_elements_ir(b, register_file, heap, elements, n) is Ok,
    ensures
        grows(
            before,
            store_elements_ir(b, register_file, heap, elements, n)->Ok_0,
            most + 2 * n,
        ),
    decreases n,
{
    broadcast use group_grows;

    if n > 0 {
        lemma_elements_grow(before, b, register_file, heap, elements, (n - 1) as nat, most);
        let b1 = store_elements_ir(b, register_file, heap, elements, (n - 1) as nat)->Ok_0;
        let (value, b2) = read_operand_term_ir(b1, register_file, elements[n - 1])->Ok_0;
        assert(grows(before, b2, (most + 2 * (n - 1) + 1) as nat));
    }
}

#[verifier::rlimit(40)]
proof fn lemma_put_tuple_grows(
    b: LoweringView,
    context: LoweringContext,
    destination: OperandView,
    elements: OperandView,
)
    requires
        has_room(b),
        lower_put_tuple2_ir(b, context, destination, elements) is Ok,
    ensures
        grows(
            b,
            lower_put_tuple2_ir(b, context, destination, elements)->Ok_0,
            (20 + 2 * tuple_elements_of(elements)->Ok_0.len()) as nat,
        ),
{
    broadcast use group_grows;

    lemma_more_grows(b, b, 0);
    let items = tuple_elements_of(elements)->Ok_0;
    let arity = items.len() as i64;
    let (arity_value, b1) = b.emit(IrOp::Iconst { ty: IrType::I64, value: arity });
    let (call, b2) = b1.emit(
        IrOp::Call { helper: Helper::AllocTuple, args: Args::Two(context.process, arity_value) },
    );
    let (heap, b3) = b2.emit(IrOp::Result { of: call, index: 0 });
    let b4 = branch_if_null_ir(b3, heap, context.deopt);
    let (header, b5) = b4.emit(
        IrOp::Iconst { ty: IrType::I64, value: tuple_header_of(arity) },
    );
    let b6 = b5.emit(IrOp::Store { value: header, base: heap, offset: 0 }).1;
    assert(grows(b, b6, 9));
    lemma_elements_grow(b, b6, context.register_file, heap, items, items.len(), 9);
    let b7 = store_elements_ir(b6, context.register_file, heap, items, items.len())->Ok_0;
    lemma_more_grows(b, b7, 9 + 2 * items.len());
}

/// The code of an instruction is added to what was lowered before it, in blocks of its
/// own.
#[verifier::rlimit(40)]
pub proof fn lemma_advance_grows(
    b: LoweringView,
    context: FunctionContext,
    blocks: BlockMapView,
    metadata: MetadataView,
    index: usize,
    instructions: Seq<InstructionView>,
)
    requires
        has_room(b),
        b.types.len() == 0,
        b.tries.len() == 0,
        is_told(instructions[index as int]),
        lower_instruction_ir(b, context, blocks, metadata, index, instructions) is Ok,
    ensures
        ({
            let (ended, after) = lower_instruction_ir(
                b,
                context,
                blocks,
                metadata,
                index,
                instructions,
            )->Ok_0;
            &&& ended == ends(instructions[index as int])
            &&& grows(b, after, weight(instructions[index as int]))
        }),
{
    let instruction = instructions[index as int];
    let after = lower_instruction_ir(b, context, blocks, metadata, index, instructions)->Ok_0.1;
    let allocation = allocation_context_of(context, blocks);
    match instruction {
        InstructionView::Call { label, .. } => {
            lemma_local_call_lowered(b, context, blocks, metadata, index, instructions, label);
            let target = operand_block_of(blocks, label)->Ok_0;
            lemma_local_call_grows(b, context.process, blocks.yield_block, target);
            lemma_more_grows(b, after, 50);
        },
        InstructionView::CallOnly { label, .. } => {
            lemma_local_call_lowered(b, context, blocks, metadata, index, instructions, label);
            let target = operand_block_of(blocks, label)->Ok_0;
            lemma_local_call_grows(b, context.process, blocks.yield_block, target);
            lemma_more_grows(b, after, 50);
        },
        InstructionView::CallExt { arity, import } => {
            lemma_external_call_lowered(
                b,
                context,
                blocks,
                metadata,
                index,
                instructions,
                arity,
                import,
            );
            lemma_external_call_grows(b, context, blocks, arity, import);
            lemma_more_grows(b, after, 50);
        },
        InstructionView::CallExtOnly { arity, import } => {
            lemma_external_call_lowered(
                b,
                context,
                blocks,
                metadata,
                index,
                instructions,
                arity,
                import,
            );
            lemma_external_call_grows(b, context, blocks, arity, import);
            lemma_more_grows(b, after, 50);
        },
        InstructionView::PutList { head, tail, destination } => {
            lemma_put_list_lowered(
                b,
                context,
                blocks,
                metadata,
                index,
                instructions,
                head,
                tail,
                destination,
            );
            let b1 = recorded(b, index, seq![head, tail, destination]);
            lemma_put_list_grows(b1, allocation, head, tail, destination);
            lemma_more_grows(b1, after, 50);
            assert(grows(b1, after, 60));
        },
        InstructionView::PutTuple2 { destination, elements } => {
            lemma_put_tuple_lowered(
                b,
                context,
                blocks,
                metadata,
                index,
                instructions,
                destination,
                elements,
            );
            let b1 = recorded(b, index, tuple_roots_of(destination, elements)->Ok_0);
            lemma_put_tuple_grows(b1, allocation, destination, elements);
            let most = (20 + 2 * tuple_elements_of(elements)->Ok_0.len()) as nat;
            lemma_more_grows(b1, after, most);
            assert(grows(b1, after, weight(instruction)));
        },
        _ => {
            lemma_step_grows(b, context, blocks, metadata, index, instructions);
            lemma_more_grows(b, after, 50);
        },
    }
}

/// What a function is called with, by the values of a machine.
pub open spec fn setting_of(m: Machine, context: FunctionContext) -> Setting {
    Setting {
        base: m.values[context.register_file],
        process: m.values[context.process],
        frame: context.frame,
    }
}

/// The code of an instruction does what the instruction does.
#[verifier::rlimit(40)]
pub proof fn lemma_advance(
    b: LoweringView,
    context: FunctionContext,
    blocks: BlockMapView,
    metadata: MetadataView,
    index: usize,
    instructions: Seq<InstructionView>,
    m: Machine,
)
    requires
        b.ops.len() + weight(instructions[index as int]) + 1000 <= usize::MAX,
        b.types.len() == 0,
        b.tries.len() == 0,
        context.register_file < b.ops.len(),
        context.process < b.ops.len(),
        index + 1 < blocks.blocks_by_index.len(),
        blocks_before(blocks, b.ops.len()),
        blocks.deopt < b.ops.len(),
        blocks.yield_block < b.ops.len(),
        exits_are_apart(blocks),
        is_told(instructions[index as int]),
        lower_instruction_ir(b, context, blocks, metadata, index, instructions) is Ok,
    ensures
        has_advanced(
            instructions[index as int],
            blocks.block_after(index),
            blocks,
            m,
            setting_of(m, context),
            does(
                lower_instruction_ir(
                    b,
                    context,
                    blocks,
                    metadata,
                    index,
                    instructions,
                )->Ok_0.1,
                b.ops.len() as int,
                Flow::Running(m),
            ),
            b.ops.len() as int,
        ),
{
    let allocation = allocation_context_of(context, blocks);
    match instructions[index as int] {
        InstructionView::Call { label, .. } => {
            lemma_local_call_lowered(b, context, blocks, metadata, index, instructions, label);
            let target = operand_block_of(blocks, label)->Ok_0;
            law_local_call(b, context.process, blocks.yield_block, target, m);
        },
        InstructionView::CallOnly { label, .. } => {
            lemma_local_call_lowered(b, context, blocks, metadata, index, instructions, label);
            let target = operand_block_of(blocks, label)->Ok_0;
            law_local_call(b, context.process, blocks.yield_block, target, m);
        },
        InstructionView::CallExt { arity, import } => {
            lemma_external_call_lowered(
                b,
                context,
                blocks,
                metadata,
                index,
                instructions,
                arity,
                import,
            );
            lemma_external_call_advances(b, context, blocks, arity, import, m);
        },
        InstructionView::CallExtOnly { arity, import } => {
            lemma_external_call_lowered(
                b,
                context,
                blocks,
                metadata,
                index,
                instructions,
                arity,
                import,
            );
            lemma_external_call_advances(b, context, blocks, arity, import, m);
        },
        InstructionView::PutList { head, tail, destination } => {
            lemma_put_list_lowered(
                b,
                context,
                blocks,
                metadata,
                index,
                instructions,
                head,
                tail,
                destination,
            );
            if next_answer(m).first as int % 8 == 0 {
                let b1 = recorded(b, index, seq![head, tail, destination]);
                law_list_is_built(b1, allocation, head, tail, destination, m);
            }
        },
        InstructionView::PutTuple2 { destination, elements } => {
            lemma_put_tuple_lowered(
                b,
                context,
                blocks,
                metadata,
                index,
                instructions,
                destination,
                elements,
            );
            let items = tuple_elements_of(elements)->Ok_0;
            let address = next_answer(m).first;
            let base = m.values[context.register_file];
            if address as int % 8 == 0 && (address == 0 || apart_from_registers(
                base,
                address as int,
                items.len() + 1,
            )) {
                let b1 = recorded(b, index, tuple_roots_of(destination, elements)->Ok_0);
                lemma_tuple_built(b1, allocation, destination, elements, m);
                let k = answered(
                    m,
                    Helper::AllocTuple,
                    seq![m.values[context.process], items.len() as i64],
                );
                assert(operand_values(k, context.register_file, items) =~= words_of(
                    k.memory,
                    base,
                    items,
                ));
            }
        },
        _ => {
            lemma_step(b, context, blocks, metadata, index, instructions, m);
        },
    }
}

#[verifier::rlimit(40)]
proof fn lemma_external_call_advances(
    b: LoweringView,
    context: FunctionContext,
    blocks: BlockMapView,
    arity: OperandView,
    import: OperandView,
    m: Machine,
)
    requires
        has_room(b),
        b.types.len() == 0,
        b.tries.len() == 0,
        context.register_file < b.ops.len(),
        context.process < b.ops.len(),
        blocks.deopt < b.ops.len(),
        blocks.yield_block < b.ops.len(),
        exits_are_apart(blocks),
        lower_call_ext_ir(b, context, blocks, arity, import) is Ok,
    ensures
        ({
            let end = does(
                lower_call_ext_ir(b, context, blocks, arity, import)->Ok_0,
                b.ops.len() as int,
                Flow::Running(m),
            );
            let s = setting_of(m, context);
            external_call(arity, import, world_of(m), s) matches Advance::Answer(status, word, w)
                && match end {
                Flow::Returned(returned, value, n) => returned == Some(status as i64) && value
                    == word && world_of(n) == w,
                Flow::Left(block, n) => exit_answer(blocks, block) == Some((status, word))
                    && world_of(n) == w,
                _ => false,
            }
        }),
{
    assert(materialize_all_ir(b, context.register_file) == b);
    assert(b.types =~= Seq::empty());
    law_external_call(b, context, blocks, arity, import, m, Register::X(0));
}

} // verus!

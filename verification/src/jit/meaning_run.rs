//! Laws of whole functions: compiled code answers what its instructions do, however
//! often it jumps back.

use vstd::prelude::*;
use crate::loader::decode::compact::OperandView;
use crate::loader::decode::instruction::InstructionView;
use super::common::{label_operand_of, JIT_YIELD_SENTINEL};
use super::compiler::{
    compiled, enter_block_ir, lower_exits_ir, lower_instruction_ir, lower_instructions_ir,
    start_floats_ir, start_of, FunctionView,
};
use super::control::{
    block_map_ir, ends_block_of, instruction_blocks_ir, label_blocks_of, labels_of,
    law_planned_labels_have_blocks, operand_block_of, plan_of, starts_of, BlockMapView,
};
use super::dispatch_call::MetadataView;
use super::dispatch_core::FunctionContext;
use super::error::JitFault;
use super::exceptions::{CompiledFrameInfo, JIT_STATUS_NORMAL, JIT_STATUS_YIELD};
use super::arithmetic::parse_bif_of;
use super::helper::{Helper, IrType};
use super::ir::{Args, Block, IntCc, IrOp, LoweringView};
use super::meaning::{
    adds, arguments, does, flow, goes_on, keeps, lemma_emit, lemma_passed_over,
    lemma_returned_stays, lemma_switch, lemma_then, next_answer, register_address, Flow, Machine,
};
use super::meaning_function::{
    called, entered_ir, exit_answer, exits_are_apart, law_exits_answer_their_status,
    lemma_block_map, lemma_end, lemma_enter, lemma_exits_add, lemma_instruction_blocks,
    lemma_last_exits, lemma_return_first_adds, return_first_ir,
};
use super::meaning_program::{
    advance, blocks_before, ends, is_made, is_told, lemma_advance, lemma_advance_grows, setting_of,
    weight, world_of, Advance, Setting, World,
};
use super::meaning_typed::bare_fits;
use super::register::Register;
use super::typed::initialize_entry_values_ir;

verus! {

/// What a function answers, and the world that it leaves.
#[verifier::ext_equal]
pub struct Outcome {
    pub status: u8,
    pub word: i64,
    pub world: World,
}

/// Where the label is that an operand names.
pub open spec fn place_of(instructions: Seq<InstructionView>, label: OperandView) -> nat {
    labels_of(instructions, instructions.len())[label_operand_of(label)->Ok_0] as nat
}

/// What instructions come to, from one of them on, within so many steps. They answer the
/// first register when they come to their end.
pub open spec fn ran(
    instructions: Seq<InstructionView>,
    at: nat,
    w: World,
    s: Setting,
    steps: nat,
) -> Option<Outcome>
    decreases steps,
{
    if steps == 0 {
        None
    } else if at >= instructions.len() {
        Some(
            Outcome {
                status: JIT_STATUS_NORMAL,
                word: w.memory[register_address(s.base, Register::X(0))],
                world: w,
            },
        )
    } else {
        match advance(instructions[at as int], w, s) {
            Advance::On(w) => ran(instructions, at + 1, w, s, (steps - 1) as nat),
            Advance::Go(label, w) => ran(
                instructions,
                place_of(instructions, label),
                w,
                s,
                (steps - 1) as nat,
            ),
            Advance::Answer(status, word, world) => Some(Outcome { status, word, world }),
            Advance::Open => None,
        }
    }
}

/// Whether an instruction may go to a label.
pub open spec fn may_go_to(instruction: InstructionView, label: OperandView) -> bool {
    match instruction {
        InstructionView::Bif { op, operands } => parse_bif_of(op, operands)->Ok_0.fail == label,
        InstructionView::Comparison { fail, .. } => fail == label,
        InstructionView::TypeTest { fail, .. } => fail == label,
        InstructionView::TestArity { fail, .. } => fail == label,
        InstructionView::IsTaggedTuple { fail, .. } => fail == label,
        InstructionView::Jump { target } => target == label,
        InstructionView::Call { label: target, .. } => target == label,
        InstructionView::CallOnly { label: target, .. } => target == label,
        _ => false,
    }
}

/// Whether all instructions are such as [`ran`] says all of.
pub open spec fn all_told(instructions: Seq<InstructionView>) -> bool {
    forall|i: int| 0 <= i < instructions.len() ==> is_told(#[trigger] instructions[i])
}

/// How many operations the first `n` instructions are lowered to, at most.
pub open spec fn total_weight(instructions: Seq<InstructionView>, n: nat) -> nat
    decreases n,
{
    if n == 0 {
        0
    } else {
        total_weight(instructions, (n - 1) as nat) + weight(instructions[n - 1]) + 2
    }
}

proof fn lemma_total_weight(instructions: Seq<InstructionView>, n: nat, total: nat)
    requires
        n < total,
    ensures
        total_weight(instructions, n) + weight(instructions[n as int]) + 2 <= total_weight(
            instructions,
            total,
        ),
    decreases total,
{
    if n + 1 < total {
        lemma_total_weight(instructions, n, (total - 1) as nat);
    }
}

/// Whether a block starts at an instruction.
spec fn starts_at(instructions: Seq<InstructionView>, at: nat) -> bool {
    starts_of(instructions, instructions.len()).contains(at as usize)
}

proof fn lemma_starts(instructions: Seq<InstructionView>, n: nat, i: nat)
    requires
        n <= instructions.len() < usize::MAX,
    ensures
        starts_of(instructions, n).contains(instructions.len() as usize),
        i < n && instructions[i as int] is Label ==> starts_of(instructions, n).contains(
            i as usize,
        ),
        i < n && ends_block_of(instructions[i as int]) ==> starts_of(instructions, n).contains(
            (i + 1) as usize,
        ),
    decreases n,
{
    if n > 0 {
        lemma_starts(instructions, (n - 1) as nat, i);
    }
}

proof fn lemma_label_place(instructions: Seq<InstructionView>, n: nat, label: u32)
    requires
        n <= instructions.len() < usize::MAX,
        labels_of(instructions, n).contains_key(label),
    ensures
        labels_of(instructions, n)[label] < n,
        instructions[labels_of(instructions, n)[label] as int] is Label,
    decreases n,
{
    if n > 0 {
        match instructions[n - 1] {
            InstructionView::Label { label: l } => {
                if l != label {
                    lemma_label_place(instructions, (n - 1) as nat, label);
                }
            },
            _ => {
                lemma_label_place(instructions, (n - 1) as nat, label);
            },
        }
    }
}

proof fn lemma_label_blocks(
    instructions: Seq<InstructionView>,
    blocks: Seq<Block>,
    n: nat,
    label: u32,
)
    requires
        n <= instructions.len(),
        label_blocks_of(instructions, blocks, n).contains_key(label),
    ensures
        labels_of(instructions, n).contains_key(label),
    decreases n,
{
    if n > 0 {
        match instructions[n - 1] {
            InstructionView::Label { label: l } => {
                if l != label {
                    lemma_label_blocks(instructions, blocks, (n - 1) as nat, label);
                }
            },
            _ => {
                lemma_label_blocks(instructions, blocks, (n - 1) as nat, label);
            },
        }
    }
}

/// Whether the blocks are those of the instructions: each start has a block that comes
/// after all before it, and labels have the blocks of their places.
spec fn blocks_match(blocks: BlockMapView, instructions: Seq<InstructionView>) -> bool {
    &&& blocks.blocks_by_index.len() == instructions.len() + 1
    &&& blocks.label_blocks == label_blocks_of(
        instructions,
        blocks.blocks_by_index,
        instructions.len(),
    )
    &&& forall|i: int, j: int|
        0 <= i < j <= instructions.len() && starts_at(instructions, j as nat)
            ==> #[trigger] blocks.blocks_by_index[i] < #[trigger] blocks.blocks_by_index[j]
    &&& forall|i: int, j: int|
        0 <= i < j <= instructions.len() ==> #[trigger] blocks.blocks_by_index[i]
            <= #[trigger] blocks.blocks_by_index[j]
}

/// What a lowering of instructions works with.
struct Plan {
    context: FunctionContext,
    blocks: BlockMapView,
    metadata: MetadataView,
    instructions: Seq<InstructionView>,
    /// How many operations there are before the first instruction.
    from: int,
}

/// Whether the parts of a plan fit together.
spec fn is_sound(p: Plan) -> bool {
    &&& all_told(p.instructions)
    &&& p.from + total_weight(p.instructions, p.instructions.len()) + 2000 <= usize::MAX
    &&& p.instructions.len() < usize::MAX
    &&& 0 <= p.context.register_file < p.from
    &&& 0 <= p.context.process < p.from
    &&& blocks_match(p.blocks, p.instructions)
    &&& blocks_before(p.blocks, p.from as nat)
    &&& exits_are_apart(p.blocks)
    &&& p.blocks.deopt < p.from
    &&& p.blocks.exception_block < p.from
    &&& p.blocks.yield_block < p.from
}

/// Whether a machine owes a result, at an instruction and within so many steps.
spec fn owes(p: Plan, at: nat, k: Machine, s: Setting, steps: nat, result: Outcome) -> bool {
    ran(p.instructions, at, world_of(k), s, steps) == Some(result)
}

/// Whether code that left for a block goes on at an instruction, and owes a result
/// there.
spec fn waits_at(
    p: Plan,
    at: nat,
    k: Machine,
    s: Setting,
    steps: nat,
    result: Outcome,
    block: Block,
) -> bool {
    &&& at <= p.instructions.len()
    &&& starts_at(p.instructions, at)
    &&& block == p.blocks.blocks_by_index[at as int]
    &&& owes(p, at, k, s, steps, result)
}

/// Whether an instruction comes after the first `n`, or was passed with a step less.
spec fn comes_on(p: Plan, n: nat, at: nat, steps: nat, most: nat) -> bool {
    ||| n <= at && steps <= most
    ||| at < n && steps < most && p.blocks.blocks_by_index[at as int]
        < p.blocks.blocks_by_index[n as int]
}

/// Whether a flow has returned a result.
pub open spec fn has_returned(end: Flow, result: Outcome) -> bool {
    end matches Flow::Returned(status, word, k) && status == Some(result.status as i64) && word
        == result.word && world_of(k) == result.world
}

/// Whether code has come as far as the first `n` instructions: it runs on, it has left
/// for the block of an instruction or for an exit, or it has returned the result.
spec fn has_come(
    p: Plan,
    n: nat,
    s: Setting,
    most: nat,
    result: Outcome,
    start: Machine,
    end: Flow,
) -> bool {
    match end {
        Flow::Running(k) => keeps(start, k, p.from) && exists|steps: nat|
            steps <= most && #[trigger] owes(p, n, k, s, steps, result),
        Flow::Left(block, k) => {
            ||| exit_answer(p.blocks, block) == Some((result.status, result.word)) && world_of(k)
                == result.world
            ||| keeps(start, k, p.from) && exists|at: nat, steps: nat|
                #[trigger] waits_at(p, at, k, s, steps, result, block) && comes_on(
                    p,
                    n,
                    at,
                    steps,
                    most,
                )
        },
        Flow::Returned(_, _, _) => has_returned(end, result),
        Flow::Stuck => false,
    }
}

/// Whether what is lowered so far is in none of the blocks that follow.
spec fn is_before(b: LoweringView, p: Plan, n: nat) -> bool {
    forall|j: nat|
        n <= j <= p.instructions.len() && #[trigger] starts_at(p.instructions, j) ==> b.current
            != Some(p.blocks.blocks_by_index[j as int])
}

#[verifier::rlimit(40)]
proof fn lemma_target_is_known(
    b: LoweringView,
    context: FunctionContext,
    blocks: BlockMapView,
    metadata: MetadataView,
    index: usize,
    instructions: Seq<InstructionView>,
    label: OperandView,
)
    requires
        is_told(instructions[index as int]),
        may_go_to(instructions[index as int], label),
        lower_instruction_ir(b, context, blocks, metadata, index, instructions) is Ok,
    ensures
        operand_block_of(blocks, label) is Ok,
{
    reveal(lower_instruction_ir);
}

/// The label that an instruction may go to is there, and its block is that of its
/// place.
proof fn lemma_goes_to(
    b: LoweringView,
    context: FunctionContext,
    blocks: BlockMapView,
    metadata: MetadataView,
    instructions: Seq<InstructionView>,
    n: nat,
    label: OperandView,
)
    requires
        n < instructions.len() < usize::MAX,
        blocks_match(blocks, instructions),
        is_told(instructions[n as int]),
        may_go_to(instructions[n as int], label),
        lower_instruction_ir(b, context, blocks, metadata, n as usize, instructions) is Ok,
    ensures
        place_of(instructions, label) < instructions.len(),
        starts_at(instructions, place_of(instructions, label)),
        operand_block_of(blocks, label)->Ok_0 == blocks.blocks_by_index[place_of(
            instructions,
            label,
        ) as int],
{
    lemma_target_is_known(b, context, blocks, metadata, n as usize, instructions, label);
    let name = label_operand_of(label)->Ok_0;
    lemma_label_blocks(instructions, blocks.blocks_by_index, instructions.len(), name);
    law_planned_labels_have_blocks(
        instructions,
        blocks.blocks_by_index,
        instructions.len(),
        name,
    );
    lemma_label_place(instructions, instructions.len(), name);
    lemma_starts(instructions, instructions.len(), place_of(instructions, label));
}

/// An instruction that goes to a label, or that goes on after its code has ended, is the
/// last of its block.
proof fn lemma_ends_block(instruction: InstructionView, w: World, s: Setting)
    requires
        is_told(instruction),
    ensures
        advance(instruction, w, s) matches Advance::Go(label, _) ==> ends_block_of(instruction)
            && may_go_to(instruction, label),
        advance(instruction, w, s) is On && ends(instruction) ==> ends_block_of(instruction),
{
}

/// The lowering of one instruction of a plan.
spec fn lowered_at(b: LoweringView, p: Plan, n: nat) -> Result<
    (bool, LoweringView),
    JitFault,
> {
    lower_instruction_ir(b, p.context, p.blocks, p.metadata, n as usize, p.instructions)
}

/// After one more step, code has come as far as one more instruction.
#[verifier::rlimit(40)]
proof fn lemma_stepped(
    b: LoweringView,
    p: Plan,
    n: nat,
    s: Setting,
    steps: nat,
    most: nat,
    result: Outcome,
    start: Machine,
    k: Machine,
)
    requires
        is_sound(p),
        n < p.instructions.len(),
        p.from <= b.ops.len(),
        b.ops.len() + weight(p.instructions[n as int]) + 1000 <= usize::MAX,
        b.types.len() == 0,
        b.tries.len() == 0,
        lowered_at(b, p, n) is Ok,
        keeps(start, k, p.from),
        setting_of(start, p.context) == s,
        steps <= most,
        owes(p, n, k, s, steps, result),
    ensures
        ({
            let end = does(lowered_at(b, p, n)->Ok_0.1, b.ops.len() as int, Flow::Running(k));
            &&& has_come(p, n + 1, s, most, result, start, end)
            &&& end is Running ==> !ends(p.instructions[n as int])
        }),
{
    let instruction = p.instructions[n as int];
    let index = n as usize;
    assert(is_told(instruction));
    lemma_advance(b, p.context, p.blocks, p.metadata, index, p.instructions, k);
    assert(setting_of(k, p.context) == s);
    let end = does(lowered_at(b, p, n)->Ok_0.1, b.ops.len() as int, Flow::Running(k));
    let fewer = (steps - 1) as nat;
    lemma_ends_block(instruction, world_of(k), s);
    lemma_starts(p.instructions, p.instructions.len(), n);
    match advance(instruction, world_of(k), s) {
        Advance::On(w) => {
            if ends(instruction) {
                let l = end->Left_1;
                assert(waits_at(p, n + 1, l, s, fewer, result, end->Left_0));
                assert(comes_on(p, n + 1, n + 1, fewer, most));
            } else {
                assert(owes(p, n + 1, end->Running_0, s, fewer, result));
            }
        },
        Advance::Go(label, w) => {
            let l = end->Left_1;
            let target = place_of(p.instructions, label);
            lemma_goes_to(b, p.context, p.blocks, p.metadata, p.instructions, n, label);
            assert(waits_at(p, target, l, s, fewer, result, end->Left_0));
            assert(comes_on(p, n + 1, target, fewer, most));
        },
        _ => {},
    }
}

/// Code that left for a block goes on when that block is entered, and only then.
proof fn lemma_entered_by_jump(
    b: LoweringView,
    block: Block,
    terminated: bool,
    target: Block,
    k: Machine,
    from: int,
    start: Flow,
)
    requires
        b.ops.len() + 2 <= usize::MAX,
        0 <= from <= b.ops.len(),
        does(b, from, start) == Flow::Left(target, k),
        block == target ==> b.current != Some(target),
    ensures
        does(enter_block_ir(b, block, terminated).1, from, start) == if block == target {
            Flow::Running(k)
        } else {
            Flow::Left(target, k)
        },
{
    if b.current != Some(block) {
        let b1 = if terminated {
            b
        } else {
            lemma_emit(b, IrOp::Jump { block }, from, start);
            b.emit(IrOp::Jump { block }).1
        };
        lemma_switch(b1, block, from, start);
    }
}

/// The lowering of one instruction of a plan, in its block.
spec fn entered_at(b: LoweringView, p: Plan, n: nat, terminated: bool) -> LoweringView {
    enter_block_ir(b, p.blocks.block_for_instruction(n as usize), terminated).1
}

/// Code that has come as far as an instruction has come as far as the next one after
/// the code of the instruction.
#[verifier::rlimit(40)]
proof fn lemma_passed(
    b: LoweringView,
    p: Plan,
    n: nat,
    terminated: bool,
    s: Setting,
    most: nat,
    result: Outcome,
    start: Machine,
    begin: Flow,
)
    requires
        is_sound(p),
        n < p.instructions.len(),
        p.from <= b.ops.len(),
        b.ops.len() + weight(p.instructions[n as int]) + 1010 <= usize::MAX,
        b.types.len() == 0,
        b.tries.len() == 0,
        setting_of(start, p.context) == s,
        lowered_at(entered_at(b, p, n, terminated), p, n) is Ok,
        n == 0 ==> b.current == Some(p.blocks.block_for_instruction(0)),
        n == 0 ==> (does(b, p.from, begin) matches Flow::Left(block, _) ==> block
            != p.blocks.block_for_instruction(0)),
        n > 0 ==> is_before(b, p, n),
        n > 0 && does(b, p.from, begin) is Running ==> !terminated,
        has_come(p, n, s, most, result, start, does(b, p.from, begin)),
    ensures
        ({
            let (ended, after) = lowered_at(entered_at(b, p, n, terminated), p, n)->Ok_0;
            let end = does(after, p.from, begin);
            &&& goes_on(b, after)
            &&& after.ops.len() <= b.ops.len() + weight(p.instructions[n as int]) + 2
            &&& after.types.len() == 0
            &&& after.tries.len() == 0
            &&& is_before(after, p, n + 1)
            &&& has_come(p, n + 1, s, most, result, start, end)
            &&& end is Running ==> !ended
        }),
{
    let index = n as usize;
    let block = p.blocks.block_for_instruction(index);
    assert(p.blocks.blocks_by_index[n as int] == block);
    assert(p.blocks.blocks_by_index[n as int] <= p.blocks.blocks_by_index[n as int + 1]);
    let b1 = entered_at(b, p, n, terminated);
    assert(goes_on(b, b1));
    assert(is_told(p.instructions[n as int]));
    lemma_advance_grows(b1, p.context, p.blocks, p.metadata, index, p.instructions);
    let (ended, b2) = lowered_at(b1, p, n)->Ok_0;
    assert(b1.current == Some(block));
    assert forall|j: nat|
        n + 1 <= j <= p.instructions.len() && #[trigger] starts_at(
            p.instructions,
            j,
        ) implies b2.current != Some(p.blocks.blocks_by_index[j as int]) by {
        assert(p.blocks.blocks_by_index[n as int] < p.blocks.blocks_by_index[j as int]);
    }
    lemma_then(b1, b2, p.from, begin);
    match does(b, p.from, begin) {
        Flow::Running(k) => {
            let other: Block = if block == 0 {
                1
            } else {
                0
            };
            lemma_enter(b, block, other, terminated, p.from, begin);
            let steps = choose|steps: nat|
                steps <= most && #[trigger] owes(p, n, k, s, steps, result);
            lemma_stepped(b1, p, n, s, steps, most, result, start, k);
        },
        Flow::Left(target, k) => {
            lemma_left_passes(b, p, n, terminated, s, most, result, start, begin, target, k);
        },
        Flow::Returned(status, word, k) => {
            lemma_then(b, b1, p.from, begin);
            lemma_returned_stays(b1.ops, b.ops.len() as int, b1.ops.len() as int, status, word, k);
            lemma_returned_stays(b2.ops, b1.ops.len() as int, b2.ops.len() as int, status, word, k);
        },
        Flow::Stuck => {},
    }
}

/// Code that has left for a block runs the code of an instruction when that is where it
/// goes on, and passes over it otherwise.
#[verifier::rlimit(40)]
proof fn lemma_left_passes(
    b: LoweringView,
    p: Plan,
    n: nat,
    terminated: bool,
    s: Setting,
    most: nat,
    result: Outcome,
    start: Machine,
    begin: Flow,
    target: Block,
    k: Machine,
)
    requires
        is_sound(p),
        n < p.instructions.len(),
        p.from <= b.ops.len(),
        b.ops.len() + weight(p.instructions[n as int]) + 1010 <= usize::MAX,
        b.types.len() == 0,
        b.tries.len() == 0,
        setting_of(start, p.context) == s,
        lowered_at(entered_at(b, p, n, terminated), p, n) is Ok,
        n == 0 ==> b.current == Some(p.blocks.block_for_instruction(0)) && target
            != p.blocks.block_for_instruction(0),
        n > 0 ==> is_before(b, p, n),
        does(b, p.from, begin) == Flow::Left(target, k),
        has_come(p, n, s, most, result, start, Flow::Left(target, k)),
    ensures
        ({
            let (ended, after) = lowered_at(entered_at(b, p, n, terminated), p, n)->Ok_0;
            let end = does(after, p.from, begin);
            &&& has_come(p, n + 1, s, most, result, start, end)
            &&& end is Running ==> !ended
        }),
{
    let index = n as usize;
    let block = p.blocks.block_for_instruction(index);
    assert(p.blocks.blocks_by_index[n as int] == block);
    assert(p.blocks.blocks_by_index[n as int] <= p.blocks.blocks_by_index[n as int + 1]);
    let b1 = entered_at(b, p, n, terminated);
    assert(goes_on(b, b1));
    assert(is_told(p.instructions[n as int]));
    lemma_advance_grows(b1, p.context, p.blocks, p.metadata, index, p.instructions);
    let (ended, b2) = lowered_at(b1, p, n)->Ok_0;
    lemma_then(b1, b2, p.from, begin);
    if exit_answer(p.blocks, target) == Some((result.status, result.word)) && world_of(k)
        == result.world {
        lemma_entered_by_jump(b, block, terminated, target, k, p.from, begin);
        lemma_passed_over(b2.ops, b1.ops.len() as int, b2.ops.len() as int, target, k);
    } else {
        let (at, steps) = choose|at: nat, steps: nat|
            #[trigger] waits_at(p, at, k, s, steps, result, target) && comes_on(
                p,
                n,
                at,
                steps,
                most,
            );
        lemma_entered_by_jump(b, block, terminated, target, k, p.from, begin);
        if at == n {
            lemma_stepped(b1, p, n, s, steps, most, result, start, k);
        } else {
            if at > n {
                assert(p.blocks.blocks_by_index[n as int] < p.blocks.blocks_by_index[at as int]);
            }
            lemma_passed_over(b2.ops, b1.ops.len() as int, b2.ops.len() as int, target, k);
            assert(waits_at(p, at, k, s, steps, result, target));
            assert(comes_on(p, n + 1, at, steps, most));
        }
    }
}

/// The lowering of the first `n` instructions of a plan.
spec fn lowered_up_to(b: LoweringView, p: Plan, n: nat) -> Result<
    (bool, LoweringView),
    JitFault,
> {
    lower_instructions_ir(b, p.context, p.blocks, p.metadata, p.instructions, n)
}

#[verifier::rlimit(40)]
proof fn lemma_program(
    b: LoweringView,
    p: Plan,
    n: nat,
    s: Setting,
    most: nat,
    result: Outcome,
    start: Machine,
    begin: Flow,
)
    requires
        is_sound(p),
        n <= p.instructions.len(),
        p.from == b.ops.len(),
        b.types.len() == 0,
        b.tries.len() == 0,
        b.current == Some(p.blocks.block_for_instruction(0)),
        setting_of(start, p.context) == s,
        lowered_up_to(b, p, n) is Ok,
        begin matches Flow::Left(block, _) ==> block != p.blocks.block_for_instruction(0),
        has_come(p, 0, s, most, result, start, begin),
    ensures
        ({
            let (terminated, after) = lowered_up_to(b, p, n)->Ok_0;
            let end = does(after, p.from, begin);
            &&& goes_on(b, after)
            &&& after.ops.len() <= b.ops.len() + total_weight(p.instructions, n)
            &&& after.types.len() == 0
            &&& after.tries.len() == 0
            &&& n == 0 ==> after == b
            &&& n > 0 ==> is_before(after, p, n)
            &&& n > 0 && end is Running ==> !terminated
            &&& has_come(p, n, s, most, result, start, end)
        }),
    decreases n,
{
    if n > 0 {
        let before = (n - 1) as nat;
        lemma_program(b, p, before, s, most, result, start, begin);
        let (terminated, b1) = lowered_up_to(b, p, before)->Ok_0;
        lemma_total_weight(p.instructions, before, p.instructions.len());
        lemma_passed(b1, p, before, terminated, s, most, result, start, begin);
    }
}

/// Code that has left for a block of another kind passes over the exits of a function.
proof fn lemma_exits_passed(
    b: LoweringView,
    p: Plan,
    terminated: bool,
    block: Block,
    k: Machine,
)
    requires
        b.ops.len() + 100 <= usize::MAX,
        exits_are_apart(p.blocks),
        block != p.blocks.exit_block(),
        exit_answer(p.blocks, block) is None,
    ensures
        does(
            lower_exits_ir(b, p.context.register_file, p.blocks, terminated),
            b.ops.len() as int,
            Flow::Left(block, k),
        ) == Flow::Left(block, k),
{
    let from = b.ops.len() as int;
    let start = Flow::Left(block, k);
    let exit = p.blocks.exit_block();
    let b1 = if terminated {
        b
    } else {
        lemma_emit(b, IrOp::Jump { block: exit }, from, start);
        b.emit(IrOp::Jump { block: exit }).1
    };
    lemma_switch(b1, exit, from, start);
    let b2 = b1.switch(exit);
    let b3 = return_first_ir(b2, p.context.register_file);
    lemma_return_first_adds(b2, p.context.register_file);
    assert(adds(b2, b3, block));
    lemma_passed_over(b3.ops, b2.ops.len() as int, b3.ops.len() as int, block, k);
    lemma_then(b2, b3, from, start);
    lemma_last_exits(b3, p.blocks, from, start);
}

/// The code of a whole function.
spec fn whole(b: LoweringView, p: Plan) -> LoweringView {
    let (terminated, after) = lowered_up_to(b, p, p.instructions.len())->Ok_0;
    lower_exits_ir(after, p.context.register_file, p.blocks, terminated)
}

/// Whether code that was followed to its end has returned the result, or goes back to an
/// instruction where it owes the result within fewer steps.
spec fn has_gone_round(
    p: Plan,
    s: Setting,
    most: nat,
    result: Outcome,
    start: Machine,
    end: Flow,
) -> bool {
    ||| has_returned(end, result)
    ||| end matches Flow::Left(block, k) && keeps(start, k, p.from) && exists|at: nat, steps: nat|
        #[trigger] waits_at(p, at, k, s, steps, result, block) && steps < most && at
            < p.instructions.len()
}

#[verifier::rlimit(40)]
proof fn lemma_round(
    b: LoweringView,
    p: Plan,
    s: Setting,
    most: nat,
    result: Outcome,
    start: Machine,
    begin: Flow,
)
    requires
        is_sound(p),
        p.from == b.ops.len(),
        p.instructions.len() > 0,
        b.types.len() == 0,
        b.tries.len() == 0,
        b.current == Some(p.blocks.block_for_instruction(0)),
        setting_of(start, p.context) == s,
        lowered_up_to(b, p, p.instructions.len()) is Ok,
        begin matches Flow::Left(block, _) ==> block != p.blocks.block_for_instruction(0),
        has_come(p, 0, s, most, result, start, begin),
    ensures
        goes_on(b, whole(b, p)),
        has_gone_round(p, s, most, result, start, does(whole(b, p), p.from, begin)),
{
    let n = p.instructions.len();
    let file = p.context.register_file;
    lemma_program(b, p, n, s, most, result, start, begin);
    let (terminated, b1) = lowered_up_to(b, p, n)->Ok_0;
    let b2 = whole(b, p);
    lemma_exits_add(b1, file, p.blocks, terminated);
    lemma_then(b1, b2, p.from, begin);
    let exit = p.blocks.exit_block();
    assert(p.blocks.blocks_by_index[n as int] == exit);
    assert(b1.types =~= Seq::empty());
    match does(b1, p.from, begin) {
        Flow::Running(k) => {
            assert(bare_fits(b1.types, k.memory, s.base, Register::X(0)));
            lemma_end(b1, file, p.blocks, terminated, p.from, begin);
        },
        Flow::Left(block, k) => {
            if exit_answer(p.blocks, block) == Some((result.status, result.word)) && world_of(k)
                == result.world {
                law_exits_answer_their_status(b1, file, p.blocks, terminated, block, k);
            } else {
                let (at, steps) = choose|at: nat, steps: nat|
                    #[trigger] waits_at(p, at, k, s, steps, result, block) && comes_on(
                        p,
                        n,
                        at,
                        steps,
                        most,
                    );
                if at == n {
                    assert(bare_fits(b1.types, k.memory, s.base, Register::X(0)));
                    lemma_end(b1, file, p.blocks, terminated, p.from, begin);
                } else {
                    assert(p.blocks.blocks_by_index[at as int] != p.blocks.deopt);
                    lemma_exits_passed(b1, p, terminated, block, k);
                }
            }
        },
        Flow::Returned(status, word, k) => {
            lemma_returned_stays(b2.ops, b1.ops.len() as int, b2.ops.len() as int, status, word, k);
        },
        Flow::Stuck => {},
    }
}

proof fn lemma_blocks_ascend(b: LoweringView, starts: Set<usize>, n: nat)
    requires
        b.ops.len() + n <= usize::MAX,
    ensures
        forall|i: int, j: int|
            0 <= i < j < n && starts.contains(j as usize) ==> #[trigger] instruction_blocks_ir(
                b,
                starts,
                n,
            ).0[i] < #[trigger] instruction_blocks_ir(b, starts, n).0[j],
    decreases n,
{
    if n > 0 {
        let before = (n - 1) as nat;
        lemma_blocks_ascend(b, starts, before);
        lemma_instruction_blocks(b, starts, before);
        let (rest, b1) = instruction_blocks_ir(b, starts, before);
        let blocks = instruction_blocks_ir(b, starts, n).0;
        assert forall|i: int, j: int| 0 <= i < j < n && starts.contains(j as usize) implies (
        #[trigger] blocks[i]) < #[trigger] blocks[j] by {
            assert(blocks[i] == rest[i]);
            if j < n - 1 {
                assert(blocks[j] == rest[j]);
            }
        }
    }
}

proof fn lemma_label_blocks_before(
    instructions: Seq<InstructionView>,
    blocks: Seq<Block>,
    n: nat,
    count: nat,
)
    requires
        n <= instructions.len(),
        blocks.len() == instructions.len() + 1,
        forall|i: int| 0 <= i < blocks.len() ==> #[trigger] blocks[i] < count,
    ensures
        forall|label: u32|
            label_blocks_of(instructions, blocks, n).contains_key(label)
                ==> #[trigger] label_blocks_of(instructions, blocks, n)[label] < count,
    decreases n,
{
    if n > 0 {
        lemma_label_blocks_before(instructions, blocks, (n - 1) as nat, count);
        let before = label_blocks_of(instructions, blocks, (n - 1) as nat);
        assert forall|label: u32|
            label_blocks_of(instructions, blocks, n).contains_key(
                label,
            ) implies #[trigger] label_blocks_of(instructions, blocks, n)[label] < count by {
            if before.contains_key(label) {
                assert(before[label] < count);
            }
            assert(blocks[n - 1] < count);
        }
    }
}

/// The blocks that a function starts with are those of its instructions.
#[verifier::rlimit(40)]
proof fn lemma_blocks_match(instructions: Seq<InstructionView>, b: LoweringView)
    requires
        instructions.len() + 100 <= usize::MAX,
        b.ops.len() == 0,
    ensures
        ({
            let starts = starts_of(instructions, instructions.len());
            let (blocks, values, after) = block_map_ir(b, instructions, starts);
            &&& blocks_match(blocks, instructions)
            &&& blocks_before(blocks, after.ops.len())
            &&& blocks.deopt < after.ops.len()
            &&& blocks.exception_block < after.ops.len()
            &&& blocks.yield_block < after.ops.len()
            &&& forall|i: int|
                0 <= i < blocks.blocks_by_index.len() ==> #[trigger] blocks.blocks_by_index[i] > 0
        }),
{
    let starts = starts_of(instructions, instructions.len());
    let n = instructions.len() + 1;
    let (blocks, _, after) = block_map_ir(b, instructions, starts);
    let (entry, b1) = b.create_block();
    let (_, b2) = b1.emit(IrOp::Param { block: entry, ty: IrType::I64 });
    let (_, b3) = b2.emit(IrOp::Param { block: entry, ty: IrType::I64 });
    lemma_instruction_blocks(b3, starts, n);
    lemma_blocks_ascend(b3, starts, n);
    lemma_blocks_rise(b3, starts, n);
    let (by_index, b4) = instruction_blocks_ir(b3, starts, n);
    assert(blocks.blocks_by_index == by_index);
    lemma_label_blocks_before(instructions, by_index, instructions.len(), after.ops.len());
    assert forall|i: int, j: int|
        0 <= i < j <= instructions.len() && starts_at(
            instructions,
            j as nat,
        ) implies #[trigger] blocks.blocks_by_index[i] < #[trigger] blocks.blocks_by_index[j] by {
        assert(by_index[i] < by_index[j]);
    }
    assert forall|i: int, j: int|
        0 <= i < j <= instructions.len() implies #[trigger] blocks.blocks_by_index[i]
        <= #[trigger] blocks.blocks_by_index[j] by {
        assert(by_index[i] <= by_index[j]);
    }
}

proof fn lemma_blocks_rise(b: LoweringView, starts: Set<usize>, n: nat)
    requires
        b.ops.len() + n <= usize::MAX,
    ensures
        forall|i: int, j: int|
            0 <= i < j < n ==> #[trigger] instruction_blocks_ir(b, starts, n).0[i]
                <= #[trigger] instruction_blocks_ir(b, starts, n).0[j],
    decreases n,
{
    if n > 0 {
        let before = (n - 1) as nat;
        lemma_blocks_rise(b, starts, before);
        lemma_instruction_blocks(b, starts, before);
        let (rest, b1) = instruction_blocks_ir(b, starts, before);
        let blocks = instruction_blocks_ir(b, starts, n).0;
        assert forall|i: int, j: int| 0 <= i < j < n implies #[trigger] blocks[i]
            <= #[trigger] blocks[j] by {
            assert(blocks[i] == rest[i]);
            if j < n - 1 {
                assert(blocks[j] == rest[j]);
            } else {
                assert(rest.last() == rest[n - 2]);
            }
        }
    }
}

/// The code of a function before its first instruction, when nothing is known of its
/// parameters.
#[verifier::rlimit(40)]
proof fn lemma_entered_plainly(
    b: LoweringView,
    context: FunctionContext,
    blocks: BlockMapView,
    block: Block,
    m: Machine,
)
    requires
        b.ops.len() + 100 <= usize::MAX,
        b.types.len() == 0,
        context.process < b.ops.len(),
        blocks.blocks_by_index.len() > 0,
        forall|i: int| 0 <= i < b.ops.len() ==> !(#[trigger] b.ops[i] is Switch),
        blocks.block_for_instruction(0) != blocks.entry,
        blocks.yield_block != blocks.block_for_instruction(0),
    ensures
        ({
            let after = entered_ir(b, context, blocks);
            let first = blocks.block_for_instruction(0);
            let end = does(after, 0, Flow::Left(block, m));
            let charged = world_of(m).asked(
                Helper::ChargeReduction,
                seq![m.values[context.process]],
            );
            &&& after.ops.len() == b.ops.len() + 7
            &&& goes_on(b, after)
            &&& after.types == b.types
            &&& after.tries == b.tries
            &&& after.current == Some(first)
            &&& if block == blocks.entry {
                if next_answer(m).first == 0 {
                    end matches Flow::Running(n) && keeps(m, n, b.ops.len() as int) && world_of(n)
                        == charged
                } else {
                    end matches Flow::Left(left, n) && left == blocks.yield_block && world_of(n)
                        == charged
                }
            } else if block == first {
                end == Flow::Running(m)
            } else {
                end == Flow::Left(block, m)
            }
        }),
{
    let start = Flow::Left(block, m);
    lemma_passed_over(b.ops, 0, b.ops.len() as int, block, m);
    lemma_switch(b, blocks.entry, 0, start);
    let b1 = b.switch(blocks.entry);
    assert(initialize_entry_values_ir(b1, context.register_file) == b1);
    let op2 = IrOp::Fconst { bits: 0 };
    lemma_emit(b1, op2, 0, start);
    let b2 = start_floats_ir(b1);
    assert(b2.ops == b1.emit(op2).1.ops);
    let op3 = IrOp::Call { helper: Helper::ChargeReduction, args: Args::One(context.process) };
    lemma_emit(b2, op3, 0, start);
    let (call, b3) = b2.emit(op3);
    let op4 = IrOp::Result { of: call, index: 0 };
    lemma_emit(b3, op4, 0, start);
    let (exhausted, b4) = b3.emit(op4);
    let op5 = IrOp::CompareImm { cc: IntCc::NotEqual, left: exhausted, imm: 0 };
    lemma_emit(b4, op5, 0, start);
    let (should_yield, b5) = b4.emit(op5);
    let first = blocks.block_for_instruction(0);
    let op6 = IrOp::Brif {
        condition: should_yield,
        then_block: blocks.yield_block,
        else_block: first,
    };
    lemma_emit(b5, op6, 0, start);
    let b6 = b5.emit(op6).1;
    lemma_switch(b6, first, 0, start);
    assert(arguments(m, Args::One(context.process)) =~= seq![m.values[context.process]]);
}

/// The plan of a function without a signature, and its code before the first
/// instruction.
spec fn opened(
    instructions: Seq<InstructionView>,
    frame: CompiledFrameInfo,
    metadata: MetadataView,
) -> (Plan, LoweringView, LoweringView) {
    let (blocks, entry, b) = block_map_ir(
        start_of(None),
        instructions,
        plan_of(instructions)->Ok_0.block_starts,
    );
    let context = FunctionContext {
        register_file: entry.register_file,
        process: entry.process,
        frame,
    };
    let after = entered_ir(b, context, blocks);
    (Plan { context, blocks, metadata, instructions, from: after.ops.len() as int }, b, after)
}

/// Whether a function is one that the laws speak of: nothing is known of its parameters,
/// and there is room for its code.
pub open spec fn is_covered(
    instructions: Seq<InstructionView>,
    frame: CompiledFrameInfo,
    metadata: MetadataView,
    id: u64,
) -> bool {
    &&& compiled(instructions, frame, None, metadata, id) is Ok
    &&& all_told(instructions)
    &&& total_weight(instructions, instructions.len()) + instructions.len() + 5000 <= usize::MAX
}

#[verifier::rlimit(40)]
proof fn lemma_opened(
    instructions: Seq<InstructionView>,
    frame: CompiledFrameInfo,
    metadata: MetadataView,
    id: u64,
    block: Block,
    m: Machine,
)
    requires
        is_covered(instructions, frame, metadata, id),
    ensures
        ({
            let (p, b, after) = opened(instructions, frame, metadata);
            let end = does(after, 0, Flow::Left(block, m));
            let charged = world_of(m).asked(Helper::ChargeReduction, seq![m.values[2]]);
            &&& instructions.len() > 0
            &&& is_sound(p)
            &&& p.from == after.ops.len()
            &&& 2 < b.ops.len() <= p.from
            &&& p.context.register_file == 1
            &&& p.context.process == 2
            &&& p.blocks.entry == 0
            &&& after.types.len() == 0
            &&& after.tries.len() == 0
            &&& after.current == Some(p.blocks.block_for_instruction(0))
            &&& lowered_up_to(after, p, instructions.len()) is Ok
            &&& compiled(instructions, frame, None, metadata, id)->Ok_0.ops == whole(after, p).ops
            &&& p.blocks.block_for_instruction(0) != 0
            &&& if block == 0 {
                if next_answer(m).first == 0 {
                    end matches Flow::Running(n) && keeps(m, n, b.ops.len() as int) && world_of(n)
                        == charged
                } else {
                    end matches Flow::Left(left, n) && left == p.blocks.yield_block && world_of(n)
                        == charged
                }
            } else if block == p.blocks.block_for_instruction(0) {
                end == Flow::Running(m)
            } else {
                end == Flow::Left(block, m)
            }
        }),
{
    let starts = plan_of(instructions)->Ok_0.block_starts;
    let first = start_of(None);
    assert(first.types.len() == 0);
    assert(first.tries.len() == 0);
    let (blocks, entry, b) = block_map_ir(first, instructions, starts);
    lemma_block_map(instructions, starts, first);
    lemma_blocks_match(instructions, first);
    let (p, _, after) = opened(instructions, frame, metadata);
    assert(blocks.blocks_by_index[0] > 0);
    lemma_entered_plainly(b, p.context, blocks, block, m);
}

/// Where compiled code has come after so many rounds. A round follows the code from its
/// first operation to its last; code that has then left for a block goes back for it.
pub open spec fn after_rounds(ops: Seq<IrOp>, start: Flow, rounds: nat) -> Flow
    decreases rounds,
{
    if rounds == 0 {
        start
    } else {
        match after_rounds(ops, start, (rounds - 1) as nat) {
            Flow::Left(block, m) => flow(ops, 0, ops.len() as int, Flow::Left(block, m)),
            other => other,
        }
    }
}

proof fn lemma_first_round(ops: Seq<IrOp>, block: Block, m: Machine, rounds: nat)
    ensures
        after_rounds(ops, Flow::Left(block, m), rounds + 1) == after_rounds(
            ops,
            flow(ops, 0, ops.len() as int, Flow::Left(block, m)),
            rounds,
        ),
    decreases rounds,
{
    if rounds > 0 {
        lemma_first_round(ops, block, m, (rounds - 1) as nat);
    } else {
        assert(after_rounds(ops, Flow::Left(block, m), 0) == Flow::Left(block, m));
    }
}

/// Code that goes on at an instruction returns what it owes there, in no more rounds
/// than steps.
#[verifier::rlimit(40)]
proof fn lemma_rounds(
    instructions: Seq<InstructionView>,
    frame: CompiledFrameInfo,
    metadata: MetadataView,
    id: u64,
    at: nat,
    k: Machine,
    s: Setting,
    steps: nat,
    result: Outcome,
    block: Block,
) -> (rounds: nat)
    requires
        is_covered(instructions, frame, metadata, id),
        waits_at(opened(instructions, frame, metadata).0, at, k, s, steps, result, block),
        at < instructions.len(),
        setting_of(k, opened(instructions, frame, metadata).0.context) == s,
    ensures
        rounds <= steps,
        has_returned(
            after_rounds(
                compiled(instructions, frame, None, metadata, id)->Ok_0.ops,
                Flow::Left(block, k),
                rounds,
            ),
            result,
        ),
    decreases steps,
{
    let (p, _, b) = opened(instructions, frame, metadata);
    let ops = compiled(instructions, frame, None, metadata, id)->Ok_0.ops;
    lemma_opened(instructions, frame, metadata, id, block, k);
    assert(p.blocks.blocks_by_index[at as int] != 0) by {
        if at > 0 {
            assert(p.blocks.blocks_by_index[0] < p.blocks.blocks_by_index[at as int]);
        }
    }
    let begin = does(b, 0, Flow::Left(block, k));
    if at == 0 {
        assert(owes(p, 0, k, s, steps, result));
    } else {
        assert(p.blocks.blocks_by_index[0] < p.blocks.blocks_by_index[at as int]);
        assert(waits_at(p, at, k, s, steps, result, block));
        assert(comes_on(p, 0, at, steps, steps));
    }
    lemma_round(b, p, s, steps, result, k, begin);
    let end = flow(ops, 0, ops.len() as int, Flow::Left(block, k));
    lemma_then(b, whole(b, p), 0, Flow::Left(block, k));
    if has_returned(end, result) {
        lemma_first_round(ops, block, k, 0);
        1
    } else {
        let (next, l) = (end->Left_0, end->Left_1);
        let (later, fewer) = choose|later: nat, fewer: nat|
            #[trigger] waits_at(p, later, l, s, fewer, result, next) && fewer < steps && later
                < instructions.len();
        let rounds = lemma_rounds(
            instructions,
            frame,
            metadata,
            id,
            later,
            l,
            s,
            fewer,
            result,
            next,
        );
        lemma_first_round(ops, block, k, rounds);
        rounds + 1
    }
}

/// Where a function is called, with the address of the registers and the process.
pub open spec fn call_of(registers: i64, process: i64, m: Machine) -> Flow {
    Flow::Left(0, m.with(1, registers).with(2, process))
}

/// Whether a function that is called answers a result within so many rounds.
pub open spec fn answers_within(
    code: FunctionView,
    registers: i64,
    process: i64,
    m: Machine,
    rounds: nat,
    result: Outcome,
) -> bool {
    has_returned(after_rounds(code.ops, call_of(registers, process, m), rounds), result)
}

/// Compiled code answers what its instructions come to: the status, the word, the memory
/// with all registers, and the calls that were made. It is called with reductions left,
/// and charges for one before the first instruction.
///
/// The instructions may jump back and call functions of the module, as long as they come
/// to an answer in some number of steps.
#[verifier::rlimit(40)]
pub proof fn law_code_answers_what_its_instructions_do(
    instructions: Seq<InstructionView>,
    frame: CompiledFrameInfo,
    metadata: MetadataView,
    id: u64,
    registers: i64,
    process: i64,
    m: Machine,
    steps: nat,
    result: Outcome,
)
    requires
        is_covered(instructions, frame, metadata, id),
        next_answer(m).first == 0,
        ran(
            instructions,
            0,
            world_of(m).asked(Helper::ChargeReduction, seq![process]),
            Setting { base: registers, process, frame },
            steps,
        ) == Some(result),
    ensures
        exists|rounds: nat|
            rounds <= steps + 1 && #[trigger] answers_within(
                compiled(instructions, frame, None, metadata, id)->Ok_0,
                registers,
                process,
                m,
                rounds,
                result,
            ),
{
    let code = compiled(instructions, frame, None, metadata, id)->Ok_0;
    let called = m.with(1, registers).with(2, process);
    let (p, _, b) = opened(instructions, frame, metadata);
    let s = Setting { base: registers, process, frame };
    lemma_opened(instructions, frame, metadata, id, 0, called);
    assert(world_of(called) == world_of(m));
    let k = does(b, 0, Flow::Left(0, called))->Running_0;
    assert(owes(p, 0, k, s, steps, result));
    assert(setting_of(k, p.context) == s);
    lemma_round(b, p, s, steps, result, k, Flow::Running(k));
    lemma_then(b, whole(b, p), 0, Flow::Left(0, called));
    let end = flow(code.ops, 0, code.ops.len() as int, Flow::Left(0, called));
    if has_returned(end, result) {
        lemma_first_round(code.ops, 0, called, 0);
        assert(answers_within(code, registers, process, m, 1, result));
    } else {
        let (next, l) = (end->Left_0, end->Left_1);
        let (later, fewer) = choose|later: nat, fewer: nat|
            #[trigger] waits_at(p, later, l, s, fewer, result, next) && fewer < steps && later
                < instructions.len();
        let rounds = lemma_rounds(
            instructions,
            frame,
            metadata,
            id,
            later,
            l,
            s,
            fewer,
            result,
            next,
        );
        lemma_first_round(code.ops, 0, called, rounds);
        assert(answers_within(code, registers, process, m, rounds + 1, result));
    }
}

/// Compiled code yields when it is called with no reductions left: it has asked for one,
/// and done nothing else.
#[verifier::rlimit(40)]
pub proof fn law_code_yields_without_reductions(
    instructions: Seq<InstructionView>,
    frame: CompiledFrameInfo,
    metadata: MetadataView,
    id: u64,
    registers: i64,
    process: i64,
    m: Machine,
)
    requires
        is_covered(instructions, frame, metadata, id),
        next_answer(m).first != 0,
    ensures
        answers_within(
            compiled(instructions, frame, None, metadata, id)->Ok_0,
            registers,
            process,
            m,
            1,
            Outcome {
                status: JIT_STATUS_YIELD,
                word: JIT_YIELD_SENTINEL,
                world: world_of(m).asked(Helper::ChargeReduction, seq![process]),
            },
        ),
{
    let code = compiled(instructions, frame, None, metadata, id)->Ok_0;
    let called = m.with(1, registers).with(2, process);
    let (p, _, b) = opened(instructions, frame, metadata);
    lemma_opened(instructions, frame, metadata, id, 0, called);
    assert(world_of(called) == world_of(m));
    let result = Outcome {
        status: JIT_STATUS_YIELD,
        word: JIT_YIELD_SENTINEL,
        world: world_of(m).asked(Helper::ChargeReduction, seq![process]),
    };
    let k = does(b, 0, Flow::Left(0, called))->Left_1;
    let s = setting_of(k, p.context);
    assert(p.blocks.blocks_by_index[0] != p.blocks.yield_block);
    lemma_round(b, p, s, 0, result, k, Flow::Left(p.blocks.yield_block, k));
    lemma_then(b, whole(b, p), 0, Flow::Left(0, called));
    lemma_first_round(code.ops, 0, called, 0);
}

/// Whether instructions go forward only.
pub open spec fn goes_forward(instructions: Seq<InstructionView>) -> bool {
    forall|i: int, label: OperandView|
        0 <= i < instructions.len() && #[trigger] may_go_to(instructions[i], label) ==> place_of(
            instructions,
            label,
        ) > i
}

proof fn lemma_more_steps(
    instructions: Seq<InstructionView>,
    at: nat,
    w: World,
    s: Setting,
    fewer: nat,
    steps: nat,
)
    requires
        fewer <= steps,
        ran(instructions, at, w, s, fewer) is Some,
    ensures
        ran(instructions, at, w, s, steps) == ran(instructions, at, w, s, fewer),
    decreases fewer,
{
    if at < instructions.len() {
        match advance(instructions[at as int], w, s) {
            Advance::On(w) => lemma_more_steps(
                instructions,
                at + 1,
                w,
                s,
                (fewer - 1) as nat,
                (steps - 1) as nat,
            ),
            Advance::Go(label, w) => lemma_more_steps(
                instructions,
                place_of(instructions, label),
                w,
                s,
                (fewer - 1) as nat,
                (steps - 1) as nat,
            ),
            _ => {},
        }
    }
}

/// Instructions that go forward and make no lists or tuples come to an answer, in one
/// step for each of them at most and one for their end.
pub proof fn law_forward_code_ends(
    instructions: Seq<InstructionView>,
    at: nat,
    w: World,
    s: Setting,
)
    requires
        all_told(instructions),
        goes_forward(instructions),
        forall|i: int| 0 <= i < instructions.len() ==> !is_made(#[trigger] instructions[i]),
        at <= instructions.len(),
    ensures
        ran(instructions, at, w, s, (instructions.len() - at + 1) as nat) is Some,
    decreases instructions.len() - at,
{
    if at < instructions.len() {
        let instruction = instructions[at as int];
        assert(is_told(instruction) && !is_made(instruction));
        lemma_ends_block(instruction, w, s);
        let steps = (instructions.len() - at) as nat;
        match advance(instruction, w, s) {
            Advance::On(w) => law_forward_code_ends(instructions, at + 1, w, s),
            Advance::Go(label, w) => {
                let target = place_of(instructions, label);
                if target <= instructions.len() {
                    law_forward_code_ends(instructions, target, w, s);
                    lemma_more_steps(
                        instructions,
                        target,
                        w,
                        s,
                        (instructions.len() - target + 1) as nat,
                        steps,
                    );
                }
            },
            _ => {},
        }
    }
}

} // verus!

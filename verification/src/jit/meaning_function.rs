//! Laws of whole functions: what compiled code answers when it is called.

use vstd::prelude::*;
use crate::atom::Atom;
use crate::loader::decode::compact::OperandView;
use crate::loader::decode::instruction::InstructionView;
use crate::term::{atom_term_of, SMALL_INT_SHIFT};
use super::common::{
    constant_term_of, read_operand_term_ir, write_operand_term_ir, JIT_DEOPT_SENTINEL,
    JIT_YIELD_SENTINEL,
};
use super::binary::lower_exception_block_ir;
use super::compiler::{
    compiled, enter_block_ir, lower_entry_charge_ir, lower_exits_ir, lower_instruction_ir,
    lower_instructions_ir, start_floats_ir, start_of, FunctionView,
};
use super::control::{block_map_ir, instruction_blocks_ir, plan_of, BlockMapView};
use super::dispatch_call::MetadataView;
use super::dispatch_core::{lower_core_instruction_ir, FunctionContext};
use super::exceptions::{
    return_status_raw_ir, CompiledFrameInfo, JIT_STATUS_DEOPT, JIT_STATUS_EXCEPTION,
    JIT_STATUS_NORMAL, JIT_STATUS_YIELD,
};
use super::helper::{Helper, IrType};
use super::ir::{Args, Block, ImmCode, IntCc, IrOp, LoweringView, Value};
use super::meaning::{
    adds, arguments, does, flow, goes_on, lemma_emit, lemma_passed_over, lemma_returned_stays,
    lemma_switch, lemma_then, next_answer, register_address, Flow, Machine,
};
use super::meaning_call::lemma_return_status;
use super::meaning_core::{has_room, lemma_read, lemma_tagged, lemma_write};
use super::meaning_move::{
    has_place, law_move_moves_the_term, law_swap_exchanges_the_terms, lemma_copied_types,
    lemma_operand_has_place, lemma_swapped_types, standing_operand,
};
use super::meaning_standing::{
    all_fit, have_places, law_entry_types_are_in_order, lemma_untag_registers, one_type_each,
    only_stored,
};
use super::meaning_typed::{bare_fits, is_bare, standing_term};
use super::register::{law_registers_are_apart, register_offset_of, register_operand_of, Register};
use super::type_info::{SignatureView, TypeView};
use super::typed::{copy_type_ir, initialize_entry_values_ir, read_return_value_ir, swap_types_ir};
use super::typed_state::{
    entry_types, known, law_types_are_per_register, param_registers, Types,
};

verus! {

/// Whether an instruction only moves terms between registers, or marks a place.
pub open spec fn is_quiet(instruction: InstructionView) -> bool {
    instruction is Label || instruction is Move || instruction is Swap
}

/// Whether instructions only move terms, up to a return, if there is one, at their
/// end.
pub open spec fn runs_straight(instructions: Seq<InstructionView>) -> bool {
    forall|i: int|
        0 <= i < instructions.len() ==> is_quiet(#[trigger] instructions[i]) || (i
            == instructions.len() - 1 && instructions[i] is Return)
}

/// The term that an operand stands for: that of its register, or its constant.
pub open spec fn term_in(registers: Map<Register, i64>, operand: OperandView) -> i64 {
    match register_operand_of(operand) {
        Ok(register) => registers[register],
        Err(_) => constant_term_of(operand)->Ok_0,
    }
}

/// The terms of the registers after an instruction that only moves terms.
pub open spec fn moved(registers: Map<Register, i64>, instruction: InstructionView) -> Map<
    Register,
    i64,
> {
    match instruction {
        InstructionView::Move { source, destination } => registers.insert(
            register_operand_of(destination)->Ok_0,
            term_in(registers, source),
        ),
        InstructionView::Swap { left, right } => registers.insert(
            register_operand_of(left)->Ok_0,
            term_in(registers, right),
        ).insert(register_operand_of(right)->Ok_0, term_in(registers, left)),
        _ => registers,
    }
}

/// The terms of the registers after the first `n` instructions.
pub open spec fn moved_by(
    registers: Map<Register, i64>,
    instructions: Seq<InstructionView>,
    n: nat,
) -> Map<Register, i64>
    decreases n,
{
    if n == 0 {
        registers
    } else {
        moved(moved_by(registers, instructions, (n - 1) as nat), instructions[n - 1])
    }
}

/// The words of the registers.
pub open spec fn words_of(memory: Map<int, i64>, base: i64) -> Map<Register, i64> {
    Map::total(|register: Register| memory[register_address(base, register)])
}

/// Whether the registers stand for terms.
pub open spec fn stand_for(
    types: Types,
    memory: Map<int, i64>,
    base: i64,
    registers: Map<Register, i64>,
) -> bool {
    forall|register: Register|
        has_place(register) ==> #[trigger] standing_term(types, memory, base, register)
            == registers[register]
}

/// Where a function has come that answers a status and a word.
pub open spec fn answers_with(end: Flow, status: u8, word: i64, k: Machine) -> bool {
    end matches Flow::Returned(s, w, n) && s == Some(status as i64) && w == word && n.calls
        == k.calls && n.memory == k.memory && n.answers == k.answers
}

proof fn lemma_move_runs(
    b: LoweringView,
    context: FunctionContext,
    blocks: BlockMapView,
    index: usize,
    source: OperandView,
    destination: OperandView,
    instructions: Seq<InstructionView>,
    m: Machine,
)
    requires
        has_room(b),
        context.register_file < b.ops.len(),
        lower_core_instruction_ir(
            b,
            context,
            blocks,
            index,
            InstructionView::Move { source, destination },
            instructions,
        ) is Ok,
        all_fit(b.types, m.memory, m.values[context.register_file]),
    ensures
        ({
            let after = lower_core_instruction_ir(
                b,
                context,
                blocks,
                index,
                InstructionView::Move { source, destination },
                instructions,
            )->Ok_0.1;
            &&& after.ops.len() == b.ops.len() + 2
            &&& after.current == b.current
            &&& forall|block: Block| #[trigger] adds(b, after, block)
            &&& does(after, b.ops.len() as int, Flow::Running(m)) matches Flow::Running(n)
                && only_stored(m, n, b.ops.len() as int) && all_fit(
                after.types,
                n.memory,
                m.values[context.register_file],
            )
        }),
{
    let from = b.ops.len() as int;
    let start = Flow::Running(m);
    let file = context.register_file;
    let base = m.values[file];
    lemma_read(b, file, source, from, start);
    let (value, b1) = read_operand_term_ir(b, file, source)->Ok_0;
    lemma_write(b1, file, destination, value, from, start);
    let b2 = write_operand_term_ir(b1, file, destination, value)->Ok_0;
    let after = copy_type_ir(b2, source, destination);
    let register = register_operand_of(destination)->Ok_0;
    lemma_operand_has_place(source);
    lemma_operand_has_place(destination);
    let n = does(b2, from, start)->Running_0;
    assert(after.ops == b2.ops);
    assert forall|other: Register| has_place(other) implies #[trigger] bare_fits(
        after.types,
        n.memory,
        base,
        other,
    ) by {
        assert(bare_fits(b.types, m.memory, base, other));
        if other == register {
            law_types_are_per_register(b.types, register, TypeView::Int, other);
            if let Ok(from) = register_operand_of(source) {
                assert(bare_fits(b.types, m.memory, base, from));
                if let Some(type_) = known(b.types, from) {
                    law_types_are_per_register(b.types, register, type_, other);
                }
            }
        } else {
            lemma_copied_types(b.types, source, destination, other);
            law_registers_are_apart(other, register);
        }
    }
}

proof fn lemma_swap_runs(
    b: LoweringView,
    context: FunctionContext,
    blocks: BlockMapView,
    index: usize,
    left: OperandView,
    right: OperandView,
    instructions: Seq<InstructionView>,
    m: Machine,
)
    requires
        has_room(b),
        context.register_file < b.ops.len(),
        lower_core_instruction_ir(
            b,
            context,
            blocks,
            index,
            InstructionView::Swap { left, right },
            instructions,
        ) is Ok,
        all_fit(b.types, m.memory, m.values[context.register_file]),
    ensures
        ({
            let after = lower_core_instruction_ir(
                b,
                context,
                blocks,
                index,
                InstructionView::Swap { left, right },
                instructions,
            )->Ok_0.1;
            &&& after.ops.len() == b.ops.len() + 4
            &&& after.current == b.current
            &&& forall|block: Block| #[trigger] adds(b, after, block)
            &&& does(after, b.ops.len() as int, Flow::Running(m)) matches Flow::Running(n)
                && only_stored(m, n, b.ops.len() as int) && all_fit(
                after.types,
                n.memory,
                m.values[context.register_file],
            )
        }),
{
    let from = b.ops.len() as int;
    let start = Flow::Running(m);
    let file = context.register_file;
    let base = m.values[file];
    lemma_read(b, file, left, from, start);
    let (left_value, b1) = read_operand_term_ir(b, file, left)->Ok_0;
    lemma_read(b1, file, right, from, start);
    let (right_value, b2) = read_operand_term_ir(b1, file, right)->Ok_0;
    lemma_write(b2, file, left, right_value, from, start);
    let b3 = write_operand_term_ir(b2, file, left, right_value)->Ok_0;
    lemma_write(b3, file, right, left_value, from, start);
    let b4 = write_operand_term_ir(b3, file, right, left_value)->Ok_0;
    let after = swap_types_ir(b4, left, right);
    lemma_operand_has_place(left);
    lemma_operand_has_place(right);
    let l = register_operand_of(left)->Ok_0;
    let r = register_operand_of(right)->Ok_0;
    let n = does(b4, from, start)->Running_0;
    assert(after.ops == b4.ops);
    assert forall|other: Register| has_place(other) implies #[trigger] bare_fits(
        after.types,
        n.memory,
        base,
        other,
    ) by {
        lemma_swapped_types(b.types, left, right, other);
        assert(bare_fits(b.types, m.memory, base, other));
        assert(bare_fits(b.types, m.memory, base, l));
        assert(bare_fits(b.types, m.memory, base, r));
        if l != r {
            law_registers_are_apart(l, r);
        }
        if other != l {
            law_registers_are_apart(other, l);
        }
        if other != r {
            law_registers_are_apart(other, r);
        }
    }
}

/// An instruction that only moves terms moves those that the registers stand for.
proof fn lemma_quiet(
    b: LoweringView,
    context: FunctionContext,
    blocks: BlockMapView,
    metadata: MetadataView,
    index: usize,
    instructions: Seq<InstructionView>,
    m: Machine,
    registers: Map<Register, i64>,
)
    requires
        has_room(b),
        context.register_file < b.ops.len(),
        is_quiet(instructions[index as int]),
        lower_instruction_ir(b, context, blocks, metadata, index, instructions) is Ok,
        stand_for(b.types, m.memory, m.values[context.register_file], registers),
        all_fit(b.types, m.memory, m.values[context.register_file]),
    ensures
        ({
            let (ended, after) = lower_instruction_ir(
                b,
                context,
                blocks,
                metadata,
                index,
                instructions,
            )->Ok_0;
            let base = m.values[context.register_file];
            &&& !ended
            &&& after.ops.len() <= b.ops.len() + 4
            &&& after.current == b.current
            &&& forall|block: Block| #[trigger] adds(b, after, block)
            &&& does(after, b.ops.len() as int, Flow::Running(m)) matches Flow::Running(n)
                && only_stored(m, n, b.ops.len() as int) && all_fit(after.types, n.memory, base)
                && stand_for(
                after.types,
                n.memory,
                base,
                moved(registers, instructions[index as int]),
            )
        }),
{
    reveal(lower_instruction_ir);
    let instruction = instructions[index as int];
    let file = context.register_file;
    let base = m.values[file];
    let after = lower_instruction_ir(
        b,
        context,
        blocks,
        metadata,
        index,
        instructions,
    )->Ok_0.1;
    match instruction {
        InstructionView::Move { source, destination } => {
            lemma_move_runs(b, context, blocks, index, source, destination, instructions, m);
            let n = does(after, b.ops.len() as int, Flow::Running(m))->Running_0;
            lemma_operand_has_place(source);
            assert(standing_operand(b.types, m, file, source) == term_in(registers, source)) by {
                if let Ok(from) = register_operand_of(source) {
                    assert(standing_term(b.types, m.memory, base, from) == registers[from]);
                }
            }
            assert forall|other: Register| has_place(other) implies #[trigger] standing_term(
                after.types,
                n.memory,
                base,
                other,
            ) == moved(registers, instruction)[other] by {
                law_move_moves_the_term(
                    b,
                    context,
                    blocks,
                    index,
                    source,
                    destination,
                    instructions,
                    m,
                    other,
                );
                assert(standing_term(b.types, m.memory, base, other) == registers[other]);
            }
        },
        InstructionView::Swap { left, right } => {
            lemma_swap_runs(b, context, blocks, index, left, right, instructions, m);
            let n = does(after, b.ops.len() as int, Flow::Running(m))->Running_0;
            lemma_operand_has_place(left);
            lemma_operand_has_place(right);
            let l = register_operand_of(left)->Ok_0;
            let r = register_operand_of(right)->Ok_0;
            assert(standing_term(b.types, m.memory, base, l) == registers[l]);
            assert(standing_term(b.types, m.memory, base, r) == registers[r]);
            assert forall|other: Register| has_place(other) implies #[trigger] standing_term(
                after.types,
                n.memory,
                base,
                other,
            ) == moved(registers, instruction)[other] by {
                law_swap_exchanges_the_terms(
                    b,
                    context,
                    blocks,
                    index,
                    left,
                    right,
                    instructions,
                    m,
                    other,
                );
                assert(standing_term(b.types, m.memory, base, other) == registers[other]);
            }
        },
        _ => {
            assert(after == b);
        },
    }
}

/// The term of the first register, answered with a status.
pub open spec fn return_first_ir(b: LoweringView, register_file: Value) -> LoweringView {
    let (value, b) = read_return_value_ir(b, register_file);
    super::exceptions::return_status_ir(b, JIT_STATUS_NORMAL, value)
}

pub proof fn lemma_return_first(
    b: LoweringView,
    register_file: Value,
    from: int,
    start: Flow,
    m: Machine,
)
    requires
        b.ops.len() + 10 <= usize::MAX,
        0 <= from <= b.ops.len(),
        register_file < b.ops.len(),
        does(b, from, start) == Flow::Running(m),
        bare_fits(b.types, m.memory, m.values[register_file], Register::X(0)),
    ensures
        ({
            let after = return_first_ir(b, register_file);
            answers_with(
                does(after, from, start),
                JIT_STATUS_NORMAL,
                standing_term(b.types, m.memory, m.values[register_file], Register::X(0)),
                m,
            )
        }),
{
    let offset = register_offset_of(Register::X(0));
    let op1 = IrOp::Load { ty: IrType::I64, base: register_file, offset };
    lemma_emit(b, op1, from, start);
    let (value, b1) = b.emit(op1);
    if is_bare(b.types, Register::X(0)) {
        let op2 = IrOp::BinaryImm { code: ImmCode::Ishl, left: value, imm: SMALL_INT_SHIFT };
        lemma_emit(b1, op2, from, start);
        lemma_tagged(m.memory[register_address(m.values[register_file], Register::X(0))]);
        let (tagged, b2) = b1.emit(op2);
        lemma_return_status(b2, JIT_STATUS_NORMAL, tagged, from, start);
    } else {
        lemma_return_status(b1, JIT_STATUS_NORMAL, value, from, start);
    }
}

pub proof fn lemma_return_first_adds(b: LoweringView, register_file: Value)
    requires
        b.ops.len() + 10 <= usize::MAX,
    ensures
        forall|block: Block| #[trigger] adds(b, return_first_ir(b, register_file), block),
        return_first_ir(b, register_file).ops.len() <= b.ops.len() + 4,
{
}

/// Going on in the block of an instruction keeps code running.
pub proof fn lemma_enter(
    b: LoweringView,
    block: Block,
    other: Block,
    terminated: bool,
    from: int,
    start: Flow,
)
    requires
        b.ops.len() + 2 <= usize::MAX,
        0 <= from <= b.ops.len(),
        block != other,
        terminated ==> b.current == Some(block),
    ensures
        ({
            let after = enter_block_ir(b, block, terminated).1;
            &&& after.ops.len() <= b.ops.len() + 2
            &&& after.types == b.types
            &&& adds(b, after, other)
            &&& does(b, from, start) is Running ==> does(after, from, start) == does(b, from, start)
        }),
{
    if b.current != Some(block) {
        lemma_emit(b, IrOp::Jump { block }, from, start);
        let b1 = b.emit(IrOp::Jump { block }).1;
        lemma_switch(b1, block, from, start);
    }
}

/// Whether the code of the first `n` instructions has done what they do: it runs, and
/// the registers stand for the terms that were moved, or it has returned the first of
/// them.
spec fn has_moved(
    b: LoweringView,
    end: Flow,
    context: FunctionContext,
    instructions: Seq<InstructionView>,
    n: nat,
    start: Machine,
    from: int,
    registers: Map<Register, i64>,
) -> bool {
    let base = start.values[context.register_file];
    let terms = moved_by(registers, instructions, n);
    if n > 0 && instructions[n - 1] is Return {
        end matches Flow::Returned(s, w, k) && s == Some(JIT_STATUS_NORMAL as i64) && w
            == terms[Register::X(0)] && k.calls == start.calls
    } else {
        end matches Flow::Running(k) && only_stored(start, k, from) && stand_for(
            b.types,
            k.memory,
            base,
            terms,
        ) && all_fit(b.types, k.memory, base)
    }
}

proof fn lemma_body(
    b: LoweringView,
    context: FunctionContext,
    blocks: BlockMapView,
    metadata: MetadataView,
    instructions: Seq<InstructionView>,
    n: nat,
    m: Machine,
    registers: Map<Register, i64>,
)
    requires
        runs_straight(instructions),
        n <= instructions.len() <= usize::MAX,
        b.ops.len() + 6 * n + 1000 <= usize::MAX,
        context.register_file < b.ops.len(),
        b.current == Some(blocks.block_for_instruction(0)),
        forall|i: int|
            0 <= i < n ==> #[trigger] blocks.blocks_by_index[i] != blocks.yield_block,
        lower_instructions_ir(b, context, blocks, metadata, instructions, n) is Ok,
        stand_for(b.types, m.memory, m.values[context.register_file], registers),
        all_fit(b.types, m.memory, m.values[context.register_file]),
    ensures
        ({
            let (terminated, after) = lower_instructions_ir(
                b,
                context,
                blocks,
                metadata,
                instructions,
                n,
            )->Ok_0;
            let from = b.ops.len() as int;
            &&& terminated <==> n == 0 || instructions[n - 1] is Return
            &&& n == 0 ==> after == b
            &&& after.ops.len() <= b.ops.len() + 6 * n
            &&& adds(b, after, blocks.yield_block)
            &&& has_moved(
                after,
                does(after, from, Flow::Running(m)),
                context,
                instructions,
                n,
                m,
                from,
                registers,
            )
        }),
    decreases n,
{
    if n > 0 {
        let before = (n - 1) as nat;
        let from = b.ops.len() as int;
        let start = Flow::Running(m);
        let index = (n - 1) as usize;
        lemma_body(b, context, blocks, metadata, instructions, before, m, registers);
        let (terminated, b1) = lower_instructions_ir(
            b,
            context,
            blocks,
            metadata,
            instructions,
            before,
        )->Ok_0;
        assert(before > 0 ==> is_quiet(instructions[before - 1]));
        let k = does(b1, from, start)->Running_0;
        let block = blocks.block_for_instruction(index);
        assert(blocks.blocks_by_index[n - 1] != blocks.yield_block);
        lemma_enter(b1, block, blocks.yield_block, terminated, from, start);
        let b2 = enter_block_ir(b1, block, terminated).1;
        let terms = moved_by(registers, instructions, before);
        let (_, b3) = lower_instruction_ir(
            b2,
            context,
            blocks,
            metadata,
            index,
            instructions,
        )->Ok_0;
        if instructions[n - 1] is Return {
            reveal(lower_instruction_ir);
            assert(b3 == return_first_ir(b2, context.register_file));
            assert(bare_fits(
                b2.types,
                k.memory,
                k.values[context.register_file],
                Register::X(0),
            ));
            lemma_return_first(b2, context.register_file, from, start, k);
            lemma_return_first_adds(b2, context.register_file);
            assert(adds(b2, b3, blocks.yield_block));
            assert(standing_term(
                b2.types,
                k.memory,
                k.values[context.register_file],
                Register::X(0),
            ) == terms[Register::X(0)]);
        } else {
            assert(is_quiet(instructions[n - 1]));
            lemma_quiet(b2, context, blocks, metadata, index, instructions, k, terms);
            assert(adds(b2, b3, blocks.yield_block));
            lemma_then(b2, b3, from, start);
        }
    }
}

/// Whether the blocks that a function is left by are apart from each other and from
/// those of its instructions.
pub open spec fn exits_are_apart(blocks: BlockMapView) -> bool {
    &&& blocks.blocks_by_index.len() > 0
    &&& blocks.deopt != blocks.exception_block
    &&& blocks.deopt != blocks.yield_block
    &&& blocks.exception_block != blocks.yield_block
    &&& forall|i: int|
        0 <= i < blocks.blocks_by_index.len() ==> {
            &&& #[trigger] blocks.blocks_by_index[i] != blocks.deopt
            &&& blocks.blocks_by_index[i] != blocks.exception_block
            &&& blocks.blocks_by_index[i] != blocks.yield_block
        }
}

/// The status that a function answers which was left by a block, and its word.
pub open spec fn exit_answer(blocks: BlockMapView, block: Block) -> Option<(u8, i64)> {
    if block == blocks.deopt {
        Some((JIT_STATUS_DEOPT, JIT_DEOPT_SENTINEL))
    } else if block == blocks.exception_block {
        Some((JIT_STATUS_EXCEPTION, atom_term_of(Atom(5))))
    } else if block == blocks.yield_block {
        Some((JIT_STATUS_YIELD, JIT_YIELD_SENTINEL))
    } else {
        None
    }
}

proof fn lemma_return_raw(
    b: LoweringView,
    status: u8,
    raw: i64,
    from: int,
    start: Flow,
)
    requires
        b.ops.len() + 3 <= usize::MAX,
        0 <= from <= b.ops.len(),
    ensures
        ({
            let after = return_status_raw_ir(b, status, raw);
            &&& after.ops.len() == b.ops.len() + 3
            &&& match does(b, from, start) {
                Flow::Running(m) => answers_with(does(after, from, start), status, raw, m),
                other => does(after, from, start) == other,
            }
        }),
{
    let op1 = IrOp::Iconst { ty: IrType::I64, value: raw };
    lemma_emit(b, op1, from, start);
    let (value, b1) = b.emit(op1);
    lemma_return_status(b1, status, value, from, start);
}

/// The last parts of a function, from where it returns the term of its first register.
pub open spec fn last_exits_ir(b: LoweringView, blocks: BlockMapView) -> LoweringView {
    let b = b.switch(blocks.deopt);
    let b = return_status_raw_ir(b, JIT_STATUS_DEOPT, JIT_DEOPT_SENTINEL);
    let b = b.switch(blocks.exception_block);
    let b = lower_exception_block_ir(b);
    let b = b.switch(blocks.yield_block);
    return_status_raw_ir(b, JIT_STATUS_YIELD, JIT_YIELD_SENTINEL)
}

pub proof fn lemma_last_exits(b: LoweringView, blocks: BlockMapView, from: int, start: Flow)
    requires
        b.ops.len() + 20 <= usize::MAX,
        0 <= from <= b.ops.len(),
        exits_are_apart(blocks),
        !(does(b, from, start) is Running),
    ensures
        ({
            let end = does(last_exits_ir(b, blocks), from, start);
            match does(b, from, start) {
                Flow::Left(block, m) => match exit_answer(blocks, block) {
                    Some((status, word)) => answers_with(end, status, word, m),
                    None => end == Flow::Left(block, m),
                },
                other => end == other,
            }
        }),
{
    lemma_switch(b, blocks.deopt, from, start);
    let b1 = b.switch(blocks.deopt);
    lemma_return_raw(b1, JIT_STATUS_DEOPT, JIT_DEOPT_SENTINEL, from, start);
    let b2 = return_status_raw_ir(b1, JIT_STATUS_DEOPT, JIT_DEOPT_SENTINEL);
    lemma_switch(b2, blocks.exception_block, from, start);
    let b3 = b2.switch(blocks.exception_block);
    lemma_return_raw(b3, JIT_STATUS_EXCEPTION, atom_term_of(Atom(5)), from, start);
    let b4 = lower_exception_block_ir(b3);
    lemma_switch(b4, blocks.yield_block, from, start);
    let b5 = b4.switch(blocks.yield_block);
    lemma_return_raw(b5, JIT_STATUS_YIELD, JIT_YIELD_SENTINEL, from, start);
}

/// A function that was left by one of its exits answers the status and the word of
/// that exit, and does nothing more.
pub proof fn law_exits_answer_their_status(
    b: LoweringView,
    register_file: Value,
    blocks: BlockMapView,
    terminated: bool,
    block: Block,
    m: Machine,
)
    requires
        has_room(b),
        exits_are_apart(blocks),
        exit_answer(blocks, block) is Some,
    ensures
        ({
            let after = lower_exits_ir(b, register_file, blocks, terminated);
            let (status, word) = exit_answer(blocks, block)->Some_0;
            answers_with(
                does(after, b.ops.len() as int, Flow::Left(block, m)),
                status,
                word,
                m,
            )
        }),
{
    let from = b.ops.len() as int;
    let start = Flow::Left(block, m);
    let exit = blocks.exit_block();
    let b1 = if terminated {
        b
    } else {
        lemma_emit(b, IrOp::Jump { block: exit }, from, start);
        b.emit(IrOp::Jump { block: exit }).1
    };
    lemma_switch(b1, exit, from, start);
    let b2 = b1.switch(exit);
    assert(blocks.blocks_by_index[blocks.blocks_by_index.len() - 1] == exit);
    let b3 = return_first_ir(b2, register_file);
    lemma_return_first_adds(b2, register_file);
    assert(adds(b2, b3, block));
    lemma_passed_over(b3.ops, b2.ops.len() as int, b3.ops.len() as int, block, m);
    lemma_then(b2, b3, from, start);
    lemma_last_exits(b3, blocks, from, start);
}

/// A function that comes to its end returns the term of its first register; one that
/// has returned before does nothing more.
pub proof fn lemma_end(
    b: LoweringView,
    register_file: Value,
    blocks: BlockMapView,
    terminated: bool,
    from: int,
    start: Flow,
)
    requires
        has_room(b),
        0 <= from <= b.ops.len(),
        register_file < b.ops.len(),
        exits_are_apart(blocks),
        match does(b, from, start) {
            Flow::Running(m) => !terminated && bare_fits(
                b.types,
                m.memory,
                m.values[register_file],
                Register::X(0),
            ),
            Flow::Left(block, m) => block == blocks.exit_block() && bare_fits(
                b.types,
                m.memory,
                m.values[register_file],
                Register::X(0),
            ),
            Flow::Returned(_, _, _) => true,
            Flow::Stuck => false,
        },
    ensures
        ({
            let after = lower_exits_ir(b, register_file, blocks, terminated);
            match does(b, from, start) {
                Flow::Running(m) => answers_with(
                    does(after, from, start),
                    JIT_STATUS_NORMAL,
                    standing_term(b.types, m.memory, m.values[register_file], Register::X(0)),
                    m,
                ),
                Flow::Left(_, m) => answers_with(
                    does(after, from, start),
                    JIT_STATUS_NORMAL,
                    standing_term(b.types, m.memory, m.values[register_file], Register::X(0)),
                    m,
                ),
                other => does(after, from, start) == other,
            }
        }),
{
    let exit = blocks.exit_block();
    let b1 = if terminated {
        b
    } else {
        lemma_emit(b, IrOp::Jump { block: exit }, from, start);
        b.emit(IrOp::Jump { block: exit }).1
    };
    lemma_switch(b1, exit, from, start);
    let b2 = b1.switch(exit);
    let b3 = return_first_ir(b2, register_file);
    lemma_return_first_adds(b2, register_file);
    match does(b, from, start) {
        Flow::Running(m) => {
            lemma_return_first(b2, register_file, from, start, m);
        },
        Flow::Left(_, m) => {
            lemma_return_first(b2, register_file, from, start, m);
        },
        Flow::Returned(status, value, m) => {
            assert(adds(b2, b3, 0));
            lemma_then(b2, b3, from, start);
            lemma_returned_stays(
                b3.ops,
                b2.ops.len() as int,
                b3.ops.len() as int,
                status,
                value,
                m,
            );
        },
        Flow::Stuck => {},
    }
    lemma_last_exits(b3, blocks, from, start);
}

pub proof fn lemma_instruction_blocks(b: LoweringView, starts: Set<usize>, n: nat)
    requires
        b.ops.len() + n <= usize::MAX,
    ensures
        ({
            let (blocks, after) = instruction_blocks_ir(b, starts, n);
            &&& blocks.len() == n
            &&& b.ops.len() <= after.ops.len() <= b.ops.len() + n
            &&& after.types == b.types
            &&& after.tries == b.tries
            &&& goes_on(b, after)
            &&& forall|i: int|
                b.ops.len() <= i < after.ops.len() ==> !(#[trigger] after.ops[i] is Switch)
            &&& forall|i: int|
                0 <= i < n ==> b.ops.len() <= #[trigger] blocks[i] < after.ops.len()
        }),
    decreases n,
{
    if n > 0 {
        let (before, b1) = instruction_blocks_ir(b, starts, (n - 1) as nat);
        lemma_instruction_blocks(b, starts, (n - 1) as nat);
        let (blocks, after) = instruction_blocks_ir(b, starts, n);
        assert forall|i: int| 0 <= i < n implies b.ops.len() <= #[trigger] blocks[i]
            < after.ops.len() by {
            if i < n - 1 {
                assert(blocks[i] == before[i]);
            } else if n > 1 {
                assert(before[n - 2] == before.last());
            }
        }
    }
}

/// The blocks of a function are apart; its entry comes first, and what it is called
/// with next.
pub proof fn lemma_block_map(
    instructions: Seq<InstructionView>,
    starts: Set<usize>,
    b: LoweringView,
)
    requires
        instructions.len() + 100 <= usize::MAX,
        b.ops.len() == 0,
    ensures
        ({
            let (blocks, values, after) = block_map_ir(b, instructions, starts);
            &&& blocks.entry == 0
            &&& values.register_file == 1
            &&& values.process == 2
            &&& 3 <= after.ops.len() <= instructions.len() + 7
            &&& after.types == b.types
            &&& blocks.blocks_by_index.len() == instructions.len() + 1
            &&& exits_are_apart(blocks)
            &&& after.tries == b.tries
            &&& forall|i: int| 0 <= i < after.ops.len() ==> !(#[trigger] after.ops[i] is Switch)
        }),
{
    let (entry, b1) = b.create_block();
    let (register_file, b2) = b1.emit(IrOp::Param { block: entry, ty: IrType::I64 });
    let (process, b3) = b2.emit(IrOp::Param { block: entry, ty: IrType::I64 });
    lemma_instruction_blocks(b3, starts, instructions.len() + 1);
    let (blocks_by_index, b4) = instruction_blocks_ir(b3, starts, instructions.len() + 1);
}

/// Where a function is called: at its entry, which is its first operation, with the
/// address of the registers and the process, which are its next ones.
pub open spec fn called(code: FunctionView, registers: i64, process: i64, m: Machine) -> Flow {
    flow(
        code.ops,
        0,
        code.ops.len() as int,
        Flow::Left(0, m.with(1, registers).with(2, process)),
    )
}

/// Whether the parameters that are known to be integers are.
pub open spec fn integers_are_given(types: Types, memory: Map<int, i64>, base: i64) -> bool {
    forall|register: Register|
        has_place(register) && is_bare(types, register) ==> #[trigger] memory[register_address(
            base,
            register,
        )] as int % 8 == 0
}

/// Whether memory holds in each register what a function makes of it when it is
/// entered: the bare number of an integer that is known to be one, and what was there
/// otherwise.
pub open spec fn registers_are_entered(
    types: Types,
    memory: Map<int, i64>,
    later: Map<int, i64>,
    base: i64,
) -> bool {
    forall|register: Register|
        has_place(register) ==> later[#[trigger] register_address(base, register)] == if is_bare(
            types,
            register,
        ) {
            (memory[register_address(base, register)] as int / 8) as i64
        } else {
            memory[register_address(base, register)]
        }
}

/// The code of a function up to its first instruction.
pub open spec fn entered_ir(
    b: LoweringView,
    context: FunctionContext,
    blocks: BlockMapView,
) -> LoweringView {
    let b = b.switch(blocks.entry);
    let b = initialize_entry_values_ir(b, context.register_file);
    let b = start_floats_ir(b);
    lower_entry_charge_ir(b, context.process, blocks)
}

/// What entering a function does: with reductions left it runs on, and without any it
/// has left to yield.
pub proof fn lemma_entered(
    b: LoweringView,
    context: FunctionContext,
    blocks: BlockMapView,
    m: Machine,
)
    requires
        b.ops.len() + 3 * b.types.len() + 100 <= usize::MAX,
        context.register_file < b.ops.len(),
        context.process < b.ops.len(),
        have_places(b.types),
        one_type_each(b.types),
        exits_are_apart(blocks),
        forall|i: int|
            0 <= i < b.ops.len() ==> #[trigger] b.ops[i] != (IrOp::Switch { block: blocks.entry }),
    ensures
        ({
            let after = entered_ir(b, context, blocks);
            let end = does(after, 0, Flow::Left(blocks.entry, m));
            &&& b.ops.len() <= after.ops.len() <= b.ops.len() + 3 * b.types.len() + 7
            &&& after.types == b.types
            &&& after.current == Some(blocks.block_for_instruction(0))
            &&& if next_answer(m).first == 0 {
                end matches Flow::Running(n) && only_charged(m, n, m.values[context.process])
                    && n.memory == next_answer(m).memory && n.values[context.register_file]
                    == m.values[context.register_file]
            } else {
                end matches Flow::Left(block, n) && block == blocks.yield_block && only_charged(
                    m,
                    n,
                    m.values[context.process],
                )
            }
        }),
{
    let start = Flow::Left(blocks.entry, m);
    let file = context.register_file;
    lemma_passed_over(b.ops, 0, b.ops.len() as int, blocks.entry, m);
    lemma_switch(b, blocks.entry, 0, start);
    let b1 = b.switch(blocks.entry);
    let from = b1.ops.len() as int;
    lemma_untag_registers(b1, file, b1.types.len(), from, Flow::Running(m), m);
    let b2 = initialize_entry_values_ir(b1, file);
    assert(adds(b1, b2, 0));
    lemma_then(b1, b2, 0, start);
    let op3 = IrOp::Fconst { bits: 0 };
    lemma_emit(b2, op3, 0, start);
    let b3 = start_floats_ir(b2);
    assert(b3.ops == b2.emit(op3).1.ops);
    let op4 = IrOp::Call { helper: Helper::ChargeReduction, args: Args::One(context.process) };
    lemma_emit(b3, op4, 0, start);
    let (call, b4) = b3.emit(op4);
    let op5 = IrOp::Result { of: call, index: 0 };
    lemma_emit(b4, op5, 0, start);
    let (exhausted, b5) = b4.emit(op5);
    let op6 = IrOp::CompareImm { cc: IntCc::NotEqual, left: exhausted, imm: 0 };
    lemma_emit(b5, op6, 0, start);
    let (should_yield, b6) = b5.emit(op6);
    let first = blocks.block_for_instruction(0);
    let op7 = IrOp::Brif {
        condition: should_yield,
        then_block: blocks.yield_block,
        else_block: first,
    };
    lemma_emit(b6, op7, 0, start);
    let b7 = b6.emit(op7).1;
    lemma_switch(b7, first, 0, start);
    assert(blocks.blocks_by_index[0] != blocks.yield_block);
    let k = does(b2, 0, start)->Running_0;
    let n = does(b4, 0, start)->Running_0;
    assert(n.calls.drop_last() =~= m.calls);
    assert(arguments(k, Args::One(context.process)) =~= seq![m.values[context.process]]);
}

/// Whether one reduction of the process was charged, and nothing else was called.
pub open spec fn only_charged(before: Machine, after: Machine, process: i64) -> bool {
    &&& after.calls.len() == before.calls.len() + 1
    &&& after.calls.drop_last() == before.calls
    &&& after.calls.last().helper == Helper::ChargeReduction
    &&& after.calls.last().args == seq![process]
}

/// Whether a function of up to 255 parameters, all of which are given as they are
/// known to be, can be called with the registers at an address: charging for the call
/// leaves the registers alone.
pub open spec fn can_be_called(
    signature: Option<SignatureView>,
    registers: i64,
    m: Machine,
) -> bool {
    let types = entry_types(signature);
    &&& signature matches Some(known) ==> known.param_types.len() <= 255
    &&& integers_are_given(types, m.memory, registers)
    &&& registers_are_entered(types, m.memory, next_answer(m).memory, registers)
}

proof fn lemma_entry_types(signature: Option<SignatureView>)
    requires
        signature matches Some(known) ==> known.param_types.len() <= 255,
    ensures
        have_places(entry_types(signature)),
        one_type_each(entry_types(signature)),
        entry_types(signature).len() <= 255,
{
    if let Some(known) = signature {
        law_entry_types_are_in_order(known.param_types);
        lemma_param_count(known.param_types, known.param_types.len());
    }
}

proof fn lemma_param_count(params: Seq<TypeView>, n: nat)
    ensures
        param_registers(params, n).len() <= n,
    decreases n,
{
    if n > 0 {
        lemma_param_count(params, (n - 1) as nat);
    }
}

pub proof fn lemma_exits_add(
    b: LoweringView,
    register_file: Value,
    blocks: BlockMapView,
    terminated: bool,
)
    requires
        has_room(b),
    ensures
        goes_on(b, lower_exits_ir(b, register_file, blocks, terminated)),
{
}

proof fn lemma_entry_stands(types: Types, memory: Map<int, i64>, later: Map<int, i64>, base: i64)
    requires
        integers_are_given(types, memory, base),
        registers_are_entered(types, memory, later, base),
    ensures
        stand_for(types, later, base, words_of(memory, base)),
        all_fit(types, later, base),
{
    assert forall|register: Register| has_place(register) implies #[trigger] standing_term(
        types,
        later,
        base,
        register,
    ) == words_of(memory, base)[register] by {
        let word = memory[register_address(base, register)];
        assert(later[register_address(base, register)] == if is_bare(types, register) {
            (word as int / 8) as i64
        } else {
            word
        });
    }
    assert forall|register: Register| has_place(register) implies #[trigger] bare_fits(
        types,
        later,
        base,
        register,
    ) by {
        assert(later[register_address(base, register)] == later[register_address(base, register)]);
    }
}

/// Compiled code that only moves terms returns, with the normal status, the term that
/// its moves leave in the first register. It is called with reductions left, and
/// charges for one.
pub proof fn law_straight_code_returns_its_term(
    instructions: Seq<InstructionView>,
    frame: CompiledFrameInfo,
    signature: Option<SignatureView>,
    metadata: MetadataView,
    id: u64,
    registers: i64,
    process: i64,
    m: Machine,
)
    requires
        compiled(instructions, frame, signature, metadata, id) is Ok,
        runs_straight(instructions),
        8 * instructions.len() + 5000 <= usize::MAX,
        can_be_called(signature, registers, m),
        next_answer(m).first == 0,
    ensures
        ({
            let code = compiled(instructions, frame, signature, metadata, id)->Ok_0;
            let terms = moved_by(words_of(m.memory, registers), instructions, instructions.len());
            called(code, registers, process, m) matches Flow::Returned(status, word, n) && status
                == Some(JIT_STATUS_NORMAL as i64) && word == terms[Register::X(0)]
                && only_charged(m, n, process)
        }),
{
    let start = m.with(1, registers).with(2, process);
    let plan = plan_of(instructions)->Ok_0;
    let (blocks, entry, b0) = block_map_ir(start_of(signature), instructions, plan.block_starts);
    let context = FunctionContext {
        register_file: entry.register_file,
        process: entry.process,
        frame,
    };
    lemma_block_map(instructions, plan.block_starts, start_of(signature));
    lemma_entry_types(signature);
    lemma_entered(b0, context, blocks, start);
    let b1 = entered_ir(b0, context, blocks);
    let from = b1.ops.len() as int;
    let called_at = Flow::Left(0, start);
    let k = does(b1, 0, called_at)->Running_0;
    lemma_entry_stands(b1.types, m.memory, k.memory, registers);
    let terms = words_of(m.memory, registers);
    lemma_body(b1, context, blocks, metadata, instructions, instructions.len(), k, terms);
    let (terminated, b2) = lower_instructions_ir(
        b1,
        context,
        blocks,
        metadata,
        instructions,
        instructions.len(),
    )->Ok_0;
    lemma_then(b1, b2, 0, called_at);
    if let Flow::Running(l) = does(b2, 0, called_at) {
        assert(bare_fits(b2.types, l.memory, registers, Register::X(0)));
        assert(standing_term(b2.types, l.memory, registers, Register::X(0)) == moved_by(
            terms,
            instructions,
            instructions.len(),
        )[Register::X(0)]);
    }
    lemma_end(b2, context.register_file, blocks, terminated, 0, called_at);
}

/// Compiled code that only moves terms yields when it is called with no reductions
/// left.
pub proof fn law_exhausted_code_yields(
    instructions: Seq<InstructionView>,
    frame: CompiledFrameInfo,
    signature: Option<SignatureView>,
    metadata: MetadataView,
    id: u64,
    registers: i64,
    process: i64,
    m: Machine,
)
    requires
        compiled(instructions, frame, signature, metadata, id) is Ok,
        runs_straight(instructions),
        8 * instructions.len() + 5000 <= usize::MAX,
        signature matches Some(known) ==> known.param_types.len() <= 255,
        next_answer(m).first != 0,
    ensures
        ({
            let code = compiled(instructions, frame, signature, metadata, id)->Ok_0;
            called(code, registers, process, m) matches Flow::Returned(status, word, n) && status
                == Some(JIT_STATUS_YIELD as i64) && word == JIT_YIELD_SENTINEL && only_charged(
                m,
                n,
                process,
            )
        }),
{
    let start = m.with(1, registers).with(2, process);
    let plan = plan_of(instructions)->Ok_0;
    let (blocks, entry, b0) = block_map_ir(start_of(signature), instructions, plan.block_starts);
    let context = FunctionContext {
        register_file: entry.register_file,
        process: entry.process,
        frame,
    };
    lemma_block_map(instructions, plan.block_starts, start_of(signature));
    lemma_entry_types(signature);
    lemma_entered(b0, context, blocks, start);
    let b1 = entered_ir(b0, context, blocks);
    let called_at = Flow::Left(0, start);
    let left = does(b1, 0, called_at)->Left_1;
    let zeros = Machine { memory: Map::total(|address: int| 0i64), ..start };
    let terms = words_of(zeros.memory, registers);
    assert(registers_are_entered(b1.types, zeros.memory, zeros.memory, registers));
    lemma_entry_stands(b1.types, zeros.memory, zeros.memory, registers);
    lemma_body(b1, context, blocks, metadata, instructions, instructions.len(), zeros, terms);
    let (terminated, b2) = lower_instructions_ir(
        b1,
        context,
        blocks,
        metadata,
        instructions,
        instructions.len(),
    )->Ok_0;
    lemma_then(b1, b2, 0, called_at);
    lemma_passed_over(
        b2.ops,
        b1.ops.len() as int,
        b2.ops.len() as int,
        blocks.yield_block,
        left,
    );
    law_exits_answer_their_status(
        b2,
        context.register_file,
        blocks,
        terminated,
        blocks.yield_block,
        left,
    );
    let b3 = lower_exits_ir(b2, context.register_file, blocks, terminated);
    lemma_exits_add(b2, context.register_file, blocks, terminated);
    lemma_then(b2, b3, 0, called_at);
}

} // verus!

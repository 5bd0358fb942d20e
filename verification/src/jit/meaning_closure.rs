//! Laws of closures in compiled code: how they are laid out in the words that the
//! heap gives, and how they are called.

use vstd::prelude::*;
use crate::loader::decode::compact::OperandView;
use crate::term::{
    atom_term_of, lemma_shift_divides, BOXED_TAG, CLOSURE_HEADER_TAG, HEADER_TAG_MASK,
    POINTER_MASK, TERM_TAG_MASK,
};
use super::allocation::LoweringContext;
use super::closure::{
    closure_free_var_offset_of, closure_header_of, lower_call_fun_ir, lower_make_fun2_ir,
    store_free_vars_ir, validate_closure_or_deopt_ir, ClosureMetadata, CLOSURE_ARITY_OFFSET,
    CLOSURE_FUNCTION_INDEX_OFFSET, CLOSURE_GENERATION_OFFSET, CLOSURE_MODULE_OFFSET,
    CLOSURE_NUM_FREE_OFFSET, CLOSURE_UNIQUE_ID_OFFSET,
};
use super::common::{
    branch_if_null_ir, branch_to_fail_unless_ir, is_register_of, read_operand_term_ir,
};
use super::control::BlockMapView;
use super::dispatch_call::lower_closure_call_ir;
use super::dispatch_core::FunctionContext;
use super::exceptions::current_frame_of;
use super::helper::{Helper, IrType};
use super::ir::{Args, Block, ImmCode, IntCc, IrOp, LoweringView, Value};
use super::meaning::{
    answered, does, lemma_emit, lemma_switch, next_answer, only_made_values, operand_value,
    register_address, Flow, Machine,
};
use super::meaning_call::{
    ask_ir, law_status_of_a_call_is_followed, lemma_ask, lemma_settled, same_effects, settled,
};
use super::meaning_core::{has_room, lemma_read, lemma_write};
use super::meaning_data::{
    apart_from_registers, filled, lemma_filled, lemma_null, lemma_tag_sets, operand_values,
};
use super::meaning_guards::{boxed_as, lemma_header_bits, lemma_pointer, term_address};
use super::meaning_move::lemma_operand_has_place;
use super::register::register_operand_of;

verus! {

/// A word that is stored at an offset.
spec fn store_word_ir(b: LoweringView, base: Value, offset: i64, word: i64) -> LoweringView {
    let (value, b) = b.emit(IrOp::Iconst { ty: IrType::I64, value: word });
    b.emit(IrOp::Store { value, base, offset }).1
}

proof fn lemma_store_word(
    b: LoweringView,
    base: Value,
    offset: i64,
    word: i64,
    from: int,
    start: Flow,
)
    requires
        b.ops.len() + 2 <= usize::MAX,
        0 <= from <= b.ops.len(),
        base < b.ops.len(),
    ensures
        ({
            let after = store_word_ir(b, base, offset, word);
            &&& after.ops.len() == b.ops.len() + 2
            &&& match does(b, from, start) {
                Flow::Running(m) => does(after, from, start) matches Flow::Running(n)
                    && same_effects(n, m.stored(m.values[base] + offset, word)) && forall|v: Value|
                    v < b.ops.len() ==> #[trigger] n.values[v] == m.values[v],
                other => does(after, from, start) == other,
            }
        }),
{
    let op1 = IrOp::Iconst { ty: IrType::I64, value: word };
    lemma_emit(b, op1, from, start);
    let (value, b1) = b.emit(op1);
    lemma_emit(b1, IrOp::Store { value, base, offset }, from, start);
}

/// The words of a closure before its free variables.
spec fn fixed_words_ir(
    b: LoweringView,
    heap: Value,
    num_free_value: Value,
    num_free: i64,
    metadata: ClosureMetadata,
) -> LoweringView {
    let b = store_word_ir(b, heap, 0, closure_header_of(num_free));
    let b = store_word_ir(b, heap, CLOSURE_MODULE_OFFSET, atom_term_of(metadata.module));
    let b = store_word_ir(
        b,
        heap,
        CLOSURE_FUNCTION_INDEX_OFFSET,
        metadata.function_index as i64,
    );
    let b = store_word_ir(b, heap, CLOSURE_ARITY_OFFSET, metadata.arity as i64);
    let b = b.emit(
        IrOp::Store { value: num_free_value, base: heap, offset: CLOSURE_NUM_FREE_OFFSET },
    ).1;
    let b = store_word_ir(b, heap, CLOSURE_GENERATION_OFFSET, metadata.generation as i64);
    store_word_ir(b, heap, CLOSURE_UNIQUE_ID_OFFSET, metadata.unique_id as i64)
}

/// The memory with the words of a closure before its free variables: the header, the
/// module, the function, the arity, the number of free variables, the generation and
/// the identifier.
pub open spec fn with_closure(
    memory: Map<int, i64>,
    address: int,
    metadata: ClosureMetadata,
    num_free: i64,
) -> Map<int, i64> {
    memory.insert(address, closure_header_of(num_free)).insert(
        address + 8,
        atom_term_of(metadata.module),
    ).insert(address + 16, metadata.function_index as i64).insert(
        address + 24,
        metadata.arity as i64,
    ).insert(address + 32, num_free).insert(address + 40, metadata.generation as i64).insert(
        address + 48,
        metadata.unique_id as i64,
    )
}

proof fn lemma_fixed_words(
    b: LoweringView,
    heap: Value,
    num_free_value: Value,
    num_free: i64,
    metadata: ClosureMetadata,
    from: int,
    start: Flow,
)
    requires
        b.ops.len() + 20 <= usize::MAX,
        0 <= from <= b.ops.len(),
        heap < b.ops.len(),
        num_free_value < b.ops.len(),
        does(b, from, start) matches Flow::Running(m) ==> m.values[num_free_value] == num_free,
    ensures
        ({
            let after = fixed_words_ir(b, heap, num_free_value, num_free, metadata);
            &&& after.ops.len() == b.ops.len() + 13
            &&& match does(b, from, start) {
                Flow::Running(m) => does(after, from, start) matches Flow::Running(n) && n.memory
                    == with_closure(m.memory, m.values[heap] as int, metadata, num_free)
                    && n.calls == m.calls && n.answers == m.answers && forall|v: Value|
                    v < b.ops.len() ==> #[trigger] n.values[v] == m.values[v],
                other => does(after, from, start) == other,
            }
        }),
{
    lemma_store_word(b, heap, 0, closure_header_of(num_free), from, start);
    let b1 = store_word_ir(b, heap, 0, closure_header_of(num_free));
    lemma_store_word(b1, heap, CLOSURE_MODULE_OFFSET, atom_term_of(metadata.module), from, start);
    let b2 = store_word_ir(b1, heap, CLOSURE_MODULE_OFFSET, atom_term_of(metadata.module));
    let index = metadata.function_index as i64;
    lemma_store_word(b2, heap, CLOSURE_FUNCTION_INDEX_OFFSET, index, from, start);
    let b3 = store_word_ir(b2, heap, CLOSURE_FUNCTION_INDEX_OFFSET, index);
    lemma_store_word(b3, heap, CLOSURE_ARITY_OFFSET, metadata.arity as i64, from, start);
    let b4 = store_word_ir(b3, heap, CLOSURE_ARITY_OFFSET, metadata.arity as i64);
    let op5 = IrOp::Store { value: num_free_value, base: heap, offset: CLOSURE_NUM_FREE_OFFSET };
    lemma_emit(b4, op5, from, start);
    let b5 = b4.emit(op5).1;
    let generation = metadata.generation as i64;
    lemma_store_word(b5, heap, CLOSURE_GENERATION_OFFSET, generation, from, start);
    let b6 = store_word_ir(b5, heap, CLOSURE_GENERATION_OFFSET, generation);
    lemma_store_word(
        b6,
        heap,
        CLOSURE_UNIQUE_ID_OFFSET,
        metadata.unique_id as i64,
        from,
        start,
    );
}

proof fn lemma_free_vars(
    b: LoweringView,
    register_file: Value,
    heap: Value,
    free_vars: Seq<OperandView>,
    n: nat,
    from: int,
    start: Flow,
    m: Machine,
)
    requires
        b.ops.len() + 2 * n <= usize::MAX,
        n <= free_vars.len(),
        0 <= from <= b.ops.len(),
        register_file < b.ops.len(),
        heap < b.ops.len(),
        store_free_vars_ir(b, register_file, heap, free_vars, n) is Ok,
        does(b, from, start) == Flow::Running(m),
        apart_from_registers(m.values[register_file], m.values[heap] as int, n + 7),
    ensures
        ({
            let after = store_free_vars_ir(b, register_file, heap, free_vars, n)->Ok_0;
            &&& after.ops.len() == b.ops.len() + 2 * n
            &&& does(after, from, start) matches Flow::Running(k) && k.memory == filled(
                m.memory,
                m.values[heap] + 48,
                operand_values(m, register_file, free_vars),
                n,
            ) && k.calls == m.calls && forall|v: Value|
                v < b.ops.len() ==> #[trigger] k.values[v] == m.values[v]
        }),
    decreases n,
{
    if n > 0 {
        let before = (n - 1) as nat;
        assert(apart_from_registers(m.values[register_file], m.values[heap] as int, before + 7));
        lemma_free_vars(b, register_file, heap, free_vars, before, from, start, m);
        let b1 = store_free_vars_ir(b, register_file, heap, free_vars, before)->Ok_0;
        let operand = free_vars[n - 1];
        lemma_read(b1, register_file, operand, from, start);
        let (value, b2) = read_operand_term_ir(b1, register_file, operand)->Ok_0;
        let words = operand_values(m, register_file, free_vars);
        let k = does(b1, from, start)->Running_0;
        lemma_filled(m.memory, m.values[heap] + 48, words, before);
        lemma_operand_has_place(operand);
        assert(operand_value(k, register_file, operand) == operand_value(m, register_file, operand));
        let offset = closure_free_var_offset_of((n - 1) as usize)->Ok_0;
        lemma_emit(b2, IrOp::Store { value, base: heap, offset }, from, start);
    }
}

proof fn lemma_free_vars_left(
    b: LoweringView,
    register_file: Value,
    heap: Value,
    free_vars: Seq<OperandView>,
    n: nat,
    from: int,
    start: Flow,
)
    requires
        b.ops.len() + 2 * n <= usize::MAX,
        n <= free_vars.len(),
        0 <= from <= b.ops.len(),
        store_free_vars_ir(b, register_file, heap, free_vars, n) is Ok,
        does(b, from, start) is Left,
    ensures
        ({
            let after = store_free_vars_ir(b, register_file, heap, free_vars, n)->Ok_0;
            &&& after.ops.len() == b.ops.len() + 2 * n
            &&& does(after, from, start) == does(b, from, start)
        }),
    decreases n,
{
    if n > 0 {
        let before = (n - 1) as nat;
        lemma_free_vars_left(b, register_file, heap, free_vars, before, from, start);
        let b1 = store_free_vars_ir(b, register_file, heap, free_vars, before)->Ok_0;
        lemma_read(b1, register_file, free_vars[n - 1], from, start);
        let (value, b2) = read_operand_term_ir(b1, register_file, free_vars[n - 1])->Ok_0;
        let offset = closure_free_var_offset_of((n - 1) as usize)->Ok_0;
        lemma_emit(b2, IrOp::Store { value, base: heap, offset }, from, start);
    }
}

proof fn lemma_free_vars_are_read(
    b: LoweringView,
    register_file: Value,
    heap: Value,
    free_vars: Seq<OperandView>,
    n: nat,
)
    requires
        n <= free_vars.len(),
        store_free_vars_ir(b, register_file, heap, free_vars, n) is Ok,
    ensures
        forall|i: int|
            0 <= i < n && is_register_of(free_vars[i]) ==> register_operand_of(
                #[trigger] free_vars[i],
            ) is Ok,
    decreases n,
{
    if n > 0 {
        lemma_free_vars_are_read(b, register_file, heap, free_vars, (n - 1) as nat);
    }
}

/// A closure is its fixed words and its free variables at the words that the heap
/// gives, and its term is stored in the destination. Without words, the interpreter
/// takes over and nothing is stored.
///
/// The heap gives words that hold no register.
pub proof fn law_closure_is_built(
    b: LoweringView,
    context: LoweringContext,
    metadata: ClosureMetadata,
    free_vars: Seq<OperandView>,
    destination: OperandView,
    m: Machine,
)
    requires
        context.register_file < b.ops.len(),
        context.process < b.ops.len(),
        context.deopt < b.ops.len(),
        lower_make_fun2_ir(b, context, metadata, free_vars, destination) is Ok,
        b.ops.len() + 2 * free_vars.len() + 1000 <= usize::MAX,
        next_answer(m).first as int % 8 == 0,
        apart_from_registers(
            m.values[context.register_file],
            next_answer(m).first as int,
            free_vars.len() + 7,
        ),
    ensures
        ({
            let after = lower_make_fun2_ir(b, context, metadata, free_vars, destination)->Ok_0;
            let address = next_answer(m).first;
            let num_free = free_vars.len() as i64;
            let k = answered(m, Helper::AllocClosure, seq![m.values[context.process], num_free]);
            let built = with_closure(k.memory, address as int, metadata, num_free);
            let end = does(after, b.ops.len() as int, Flow::Running(m));
            if address == 0 {
                end matches Flow::Left(block, n) && block == context.deopt && n.memory == k.memory
                    && n.calls == k.calls
            } else {
                end matches Flow::Running(n) && n.calls == k.calls && n.memory == filled(
                    built,
                    address + 48,
                    operand_values(k, context.register_file, free_vars),
                    free_vars.len(),
                ).insert(
                    register_address(
                        m.values[context.register_file],
                        register_operand_of(destination)->Ok_0,
                    ),
                    (address + BOXED_TAG) as i64,
                )
            }
        }),
{
    let from = b.ops.len() as int;
    let start = Flow::Running(m);
    let file = context.register_file;
    let num_free = free_vars.len() as i64;
    let op1 = IrOp::Iconst { ty: IrType::I64, value: num_free };
    lemma_emit(b, op1, from, start);
    let (num_free_value, b1) = b.emit(op1);
    let args = Args::Two(context.process, num_free_value);
    lemma_ask(b1, Helper::AllocClosure, args, from, start);
    let (heap, b2) = ask_ir(b1, Helper::AllocClosure, args);
    lemma_null(b2, heap, context.deopt, from, start);
    let b3 = branch_if_null_ir(b2, heap, context.deopt);
    lemma_fixed_words(b3, heap, num_free_value, num_free, metadata, from, start);
    let b4 = fixed_words_ir(b3, heap, num_free_value, num_free, metadata);
    let b5 = store_free_vars_ir(b4, file, heap, free_vars, free_vars.len())->Ok_0;
    let op6 = IrOp::BinaryImm { code: ImmCode::Bor, left: heap, imm: BOXED_TAG };
    let (term, b6) = b5.emit(op6);
    lemma_tag_sets(next_answer(m).first);
    if next_answer(m).first == 0 {
        lemma_free_vars_left(b4, file, heap, free_vars, free_vars.len(), from, start);
        lemma_emit(b5, op6, from, start);
        lemma_write(b6, file, destination, term, from, start);
    } else {
        let l = does(b4, from, start)->Running_0;
        lemma_free_vars(b4, file, heap, free_vars, free_vars.len(), from, start, l);
        lemma_emit(b5, op6, from, start);
        lemma_write(b6, file, destination, term, from, start);
        let k = answered(m, Helper::AllocClosure, seq![m.values[context.process], num_free]);
        lemma_free_vars_are_read(b4, file, heap, free_vars, free_vars.len());
        assert forall|i: int| 0 <= i < free_vars.len() implies operand_value(l, file, #[trigger] free_vars[i])
            == operand_value(k, file, free_vars[i]) by {
            lemma_operand_has_place(free_vars[i]);
        }
        assert(operand_values(l, file, free_vars) =~= operand_values(k, file, free_vars));
    }
}

proof fn lemma_unless(b: LoweringView, condition: Value, fail: Block, from: int, start: Flow)
    requires
        b.ops.len() + 3 <= usize::MAX,
        0 <= from <= b.ops.len(),
        fail < b.ops.len(),
        does(b, from, start) matches Flow::Left(block, _) ==> block < b.ops.len(),
    ensures
        ({
            let after = branch_to_fail_unless_ir(b, condition, fail);
            &&& after.ops.len() == b.ops.len() + 3
            &&& match does(b, from, start) {
                Flow::Running(m) => does(after, from, start) == if m.values[condition] != 0 {
                    Flow::Running(m)
                } else {
                    Flow::Left(fail, m)
                },
                other => does(after, from, start) == other,
            }
        }),
{
    lemma_emit(b, IrOp::Block, from, start);
    let (continuation, b1) = b.create_block();
    let op2 = IrOp::Brif { condition, then_block: continuation, else_block: fail };
    lemma_emit(b1, op2, from, start);
    let b2 = b1.emit(op2).1;
    lemma_switch(b2, continuation, from, start);
}

proof fn lemma_is_closure(b: LoweringView, term: Value, deopt: Block, from: int, start: Flow)
    requires
        b.ops.len() + 20 <= usize::MAX,
        0 <= from <= b.ops.len(),
        term < b.ops.len(),
        deopt < b.ops.len(),
        does(b, from, start) is Running,
    ensures
        ({
            let (pointer, after) = validate_closure_or_deopt_ir(b, term, deopt);
            let m = does(b, from, start)->Running_0;
            let end = does(after, from, start);
            &&& pointer < after.ops.len()
            &&& after.ops.len() == b.ops.len() + 12
            &&& after.tries == b.tries
            &&& if boxed_as(m.memory, m.values[term], CLOSURE_HEADER_TAG) {
                end matches Flow::Running(n) && only_made_values(m, n, b.ops.len() as int)
                    && n.values[pointer] == term_address(m.values[term])
            } else {
                end matches Flow::Left(block, n) && block == deopt && only_made_values(
                    m,
                    n,
                    b.ops.len() as int,
                )
            }
        }),
{
    let m = does(b, from, start)->Running_0;
    let op1 = IrOp::BinaryImm { code: ImmCode::Band, left: term, imm: TERM_TAG_MASK };
    lemma_emit(b, op1, from, start);
    let (tag, b1) = b.emit(op1);
    let op2 = IrOp::CompareImm { cc: IntCc::Equal, left: tag, imm: BOXED_TAG };
    lemma_emit(b1, op2, from, start);
    let (is_boxed, b2) = b1.emit(op2);
    lemma_unless(b2, is_boxed, deopt, from, start);
    let b3 = branch_to_fail_unless_ir(b2, is_boxed, deopt);
    let op4 = IrOp::BinaryImm { code: ImmCode::Band, left: term, imm: POINTER_MASK };
    lemma_emit(b3, op4, from, start);
    let (pointer, b4) = b3.emit(op4);
    let op5 = IrOp::Load { ty: IrType::I64, base: pointer, offset: 0 };
    lemma_emit(b4, op5, from, start);
    let (header, b5) = b4.emit(op5);
    let op6 = IrOp::BinaryImm { code: ImmCode::Band, left: header, imm: HEADER_TAG_MASK };
    lemma_emit(b5, op6, from, start);
    let (header_tag, b6) = b5.emit(op6);
    let op7 = IrOp::CompareImm { cc: IntCc::Equal, left: header_tag, imm: CLOSURE_HEADER_TAG };
    lemma_emit(b6, op7, from, start);
    let (is_closure, b7) = b6.emit(op7);
    lemma_unless(b7, is_closure, deopt, from, start);
    lemma_shift_divides(m.values[term]);
    lemma_pointer(m.values[term]);
    lemma_header_bits(m.memory[term_address(m.values[term])]);
}

/// Whether a term is a closure of an arity.
pub open spec fn is_closure_of(memory: Map<int, i64>, term: i64, arity: u8) -> bool {
    boxed_as(memory, term, CLOSURE_HEADER_TAG) && memory[term_address(term) + 24] == arity
}

/// Calling a closure hands over the process, the closure, the arity and the
/// registers. What is no closure of the arity is left to the interpreter, and nothing
/// is called.
pub proof fn law_closure_is_called(
    b: LoweringView,
    context: LoweringContext,
    fun: OperandView,
    arity: u8,
    m: Machine,
)
    requires
        has_room(b),
        context.register_file < b.ops.len(),
        context.process < b.ops.len(),
        context.deopt < b.ops.len(),
        lower_call_fun_ir(b, context, fun, arity) is Ok,
    ensures
        ({
            let ((status, returned), after) = lower_call_fun_ir(b, context, fun, arity)->Ok_0;
            let closure = operand_value(m, context.register_file, fun);
            let end = does(after, b.ops.len() as int, Flow::Running(m));
            &&& status < after.ops.len()
            &&& returned < after.ops.len()
            &&& b.ops.len() <= after.ops.len() <= b.ops.len() + 40
            &&& after.tries == b.tries
            &&& if is_closure_of(m.memory, closure, arity) {
                end matches Flow::Running(n) && same_effects(
                    n,
                    answered(
                        m,
                        Helper::CallClosure,
                        seq![
                            m.values[context.process],
                            closure,
                            arity as i64,
                            m.values[context.register_file],
                        ],
                    ),
                ) && n.values[status] == next_answer(m).first && n.values[returned]
                    == next_answer(m).second && forall|v: Value|
                    v < b.ops.len() ==> #[trigger] n.values[v] == m.values[v]
            } else {
                end matches Flow::Left(block, n) && block == context.deopt && same_effects(n, m)
            }
        }),
{
    let from = b.ops.len() as int;
    let start = Flow::Running(m);
    let file = context.register_file;
    lemma_read(b, file, fun, from, start);
    let (fun_term, b1) = read_operand_term_ir(b, file, fun)->Ok_0;
    lemma_is_closure(b1, fun_term, context.deopt, from, start);
    let (closure, b2) = validate_closure_or_deopt_ir(b1, fun_term, context.deopt);
    let op3 = IrOp::Load { ty: IrType::I64, base: closure, offset: CLOSURE_ARITY_OFFSET };
    lemma_emit(b2, op3, from, start);
    let (expected_arity, b3) = b2.emit(op3);
    let op4 = IrOp::CompareImm { cc: IntCc::Equal, left: expected_arity, imm: arity as i64 };
    lemma_emit(b3, op4, from, start);
    let (arity_matches, b4) = b3.emit(op4);
    lemma_unless(b4, arity_matches, context.deopt, from, start);
    let b5 = branch_to_fail_unless_ir(b4, arity_matches, context.deopt);
    let op6 = IrOp::Iconst { ty: IrType::I64, value: arity as i64 };
    lemma_emit(b5, op6, from, start);
    let (arity_value, b6) = b5.emit(op6);
    let args = Args::Four(context.process, fun_term, arity_value, file);
    lemma_ask(b6, Helper::CallClosure, args, from, start);
    let (status, b7) = ask_ir(b6, Helper::CallClosure, args);
    lemma_emit(b7, IrOp::Result { of: b6.ops.len() as Value, index: 1 }, from, start);
}

/// Code that calls a closure goes where the status of the call says.
pub proof fn law_status_of_a_closure_is_followed(
    b: LoweringView,
    context: FunctionContext,
    blocks: BlockMapView,
    fun: OperandView,
    arity: u8,
    m: Machine,
)
    requires
        has_room(b),
        context.register_file < b.ops.len(),
        context.process < b.ops.len(),
        blocks.deopt < b.ops.len(),
        blocks.yield_block < b.ops.len(),
        current_frame_of(b) matches Some(frame) ==> frame.catch_block < b.ops.len(),
        lower_closure_call_ir(b, context, blocks, fun, arity) is Ok,
        is_closure_of(m.memory, operand_value(m, context.register_file, fun), arity),
    ensures
        settled(
            current_frame_of(b),
            context,
            blocks,
            next_answer(m).first,
            next_answer(m).second,
            answered(
                m,
                Helper::CallClosure,
                seq![
                    m.values[context.process],
                    operand_value(m, context.register_file, fun),
                    arity as i64,
                    m.values[context.register_file],
                ],
            ),
            does(
                lower_closure_call_ir(b, context, blocks, fun, arity)->Ok_0,
                b.ops.len() as int,
                Flow::Running(m),
            ),
        ),
{
    let from = b.ops.len() as int;
    let start = Flow::Running(m);
    let lowering = LoweringContext {
        register_file: context.register_file,
        process: context.process,
        deopt: blocks.deopt,
    };
    law_closure_is_called(b, lowering, fun, arity, m);
    let ((status, returned), b1) = lower_call_fun_ir(b, lowering, fun, arity)->Ok_0;
    let n = does(b1, from, start)->Running_0;
    assert(current_frame_of(b1) == current_frame_of(b));
    law_status_of_a_call_is_followed(b1, context, blocks, status, returned, n, from, start);
    lemma_settled(
        current_frame_of(b),
        context,
        blocks,
        n.values[status],
        n.values[returned],
        n,
        answered(
            m,
            Helper::CallClosure,
            seq![
                m.values[context.process],
                operand_value(m, context.register_file, fun),
                arity as i64,
                m.values[context.register_file],
            ],
        ),
        does(lower_closure_call_ir(b, context, blocks, fun, arity)->Ok_0, from, start),
    );
}

} // verus!

//! Laws of lists and tuples: how they are laid out in the words that the heap
//! gives, and what is read of them.

use vstd::prelude::*;
use crate::loader::decode::compact::OperandView;
use crate::term::{lemma_shift_divides, BOXED_TAG, LIST_TAG, POINTER_MASK, TUPLE_HEADER_TAG};
use super::allocation::{
    lower_get_hd_ir, lower_get_list_ir, lower_get_tl_ir, lower_get_tuple_element_ir,
    lower_put_list_ir, lower_put_tuple2_ir, store_elements_ir, tuple_elements_of, tuple_header_of,
    LoweringContext, WORD_BYTES,
};
use super::common::{branch_if_null_ir, is_register_of, read_operand_term_ir, write_operand_term_ir};
use super::guards::untagged_ptr_ir;
use super::helper::{Helper, IrType};
use super::ir::{Args, Block, ImmCode, IntCc, IrOp, LoweringView, Value};
use super::meaning::{
    answered, does, keeps, lemma_emit, next_answer, only_made_values, operand_value,
    register_address, Flow, Machine,
};
use super::meaning_core::{has_room, lemma_branch_if, lemma_read, lemma_write};
use super::meaning_guards::{boxed_as, header_of, header_size, lemma_pointer, term_address};
use super::meaning_standing::only_stored;
use super::meaning_move::{has_place, lemma_operand_has_place};
use super::register::{law_registers_are_apart, register_operand_of, Register};

verus! {

pub proof fn lemma_tag_sets(address: i64)
    requires
        address as int % 8 == 0,
    ensures
        address | LIST_TAG == address + LIST_TAG,
        address | BOXED_TAG == address + BOXED_TAG,
{
    lemma_shift_divides(address);
    let list = address | 5;
    let boxed = address | 4;
    assert(address & 7 == 0 ==> list == address + 5 && boxed == address + 4) by (bit_vector)
        requires
            list == address | 5,
            boxed == address | 4,
    ;
}

pub proof fn lemma_null(b: LoweringView, value: Value, target: Block, from: int, start: Flow)
    requires
        b.ops.len() + 4 <= usize::MAX,
        0 <= from <= b.ops.len(),
        value < b.ops.len(),
        target < b.ops.len(),
        does(b, from, start) matches Flow::Left(block, _) ==> block < b.ops.len(),
    ensures
        ({
            let after = branch_if_null_ir(b, value, target);
            &&& after.ops.len() == b.ops.len() + 4
            &&& match does(b, from, start) {
                Flow::Running(m) => if m.values[value] == 0 {
                    does(after, from, start) matches Flow::Left(block, n) && block == target
                        && only_made_values(m, n, b.ops.len() as int)
                } else {
                    does(after, from, start) matches Flow::Running(n) && only_made_values(
                        m,
                        n,
                        b.ops.len() as int,
                    )
                },
                other => does(after, from, start) == other,
            }
        }),
{
    let op1 = IrOp::CompareImm { cc: IntCc::Equal, left: value, imm: 0 };
    lemma_emit(b, op1, from, start);
    let (is_null, b1) = b.emit(op1);
    lemma_branch_if(b1, is_null, target, from, start);
}

/// A list is a head and a tail at the words that the heap gives, and its term is
/// stored in the destination. Without words, the interpreter takes over and
/// nothing is stored.
pub proof fn law_list_is_built(
    b: LoweringView,
    context: LoweringContext,
    head: OperandView,
    tail: OperandView,
    destination: OperandView,
    m: Machine,
)
    requires
        has_room(b),
        context.register_file < b.ops.len(),
        context.process < b.ops.len(),
        context.deopt < b.ops.len(),
        next_answer(m).first as int % 8 == 0,
        lower_put_list_ir(b, context, head, tail, destination) is Ok,
    ensures
        ({
            let after = lower_put_list_ir(b, context, head, tail, destination)->Ok_0;
            let address = next_answer(m).first;
            let k = answered(m, Helper::AllocCons, seq![m.values[context.process]]);
            let end = does(after, b.ops.len() as int, Flow::Running(m));
            if address == 0 {
                end matches Flow::Left(block, n) && block == context.deopt && n.memory == k.memory
                    && n.calls == k.calls && keeps(m, n, b.ops.len() as int)
            } else {
                end matches Flow::Running(n) && n.calls == k.calls && keeps(
                    m,
                    n,
                    b.ops.len() as int,
                ) && n.memory == k.memory.insert(
                    address as int,
                    operand_value(k, context.register_file, head),
                ).insert(address + 8, operand_value(k, context.register_file, tail)).insert(
                    register_address(
                        m.values[context.register_file],
                        register_operand_of(destination)->Ok_0,
                    ),
                    (address + LIST_TAG) as i64,
                )
            }
        }),
{
    let from = b.ops.len() as int;
    let start = Flow::Running(m);
    let file = context.register_file;
    let op1 = IrOp::Call { helper: Helper::AllocCons, args: Args::One(context.process) };
    lemma_emit(b, op1, from, start);
    let (call, b1) = b.emit(op1);
    let op2 = IrOp::Result { of: call, index: 0 };
    lemma_emit(b1, op2, from, start);
    let (heap, b2) = b1.emit(op2);
    lemma_null(b2, heap, context.deopt, from, start);
    let b3 = branch_if_null_ir(b2, heap, context.deopt);
    lemma_read(b3, file, head, from, start);
    let (head_value, b4) = read_operand_term_ir(b3, file, head)->Ok_0;
    lemma_read(b4, file, tail, from, start);
    let (tail_value, b5) = read_operand_term_ir(b4, file, tail)->Ok_0;
    let op6 = IrOp::Store { value: head_value, base: heap, offset: 0 };
    lemma_emit(b5, op6, from, start);
    let b6 = b5.emit(op6).1;
    let op7 = IrOp::Store { value: tail_value, base: heap, offset: 8 };
    lemma_emit(b6, op7, from, start);
    let b7 = b6.emit(op7).1;
    let op8 = IrOp::BinaryImm { code: ImmCode::Bor, left: heap, imm: LIST_TAG };
    lemma_emit(b7, op8, from, start);
    let (term, b8) = b7.emit(op8);
    lemma_write(b8, file, destination, term, from, start);
    lemma_tag_sets(next_answer(m).first);
}

/// The memory with the first `n` words stored behind a header.
pub open spec fn filled(memory: Map<int, i64>, address: int, words: Seq<i64>, n: nat) -> Map<
    int,
    i64,
>
    decreases n,
{
    if n == 0 {
        memory
    } else {
        filled(memory, address, words, (n - 1) as nat).insert(address + 8 * n, words[n - 1])
    }
}

pub proof fn lemma_filled(memory: Map<int, i64>, address: int, words: Seq<i64>, n: nat)
    requires
        n <= words.len(),
    ensures
        forall|i: int|
            0 <= i < n ==> #[trigger] filled(memory, address, words, n)[address + 8 * (i + 1)]
                == words[i],
        forall|other: int|
            (other < address + 8 || other > address + 8 * n) ==> #[trigger] filled(
                memory,
                address,
                words,
                n,
            )[other] == memory[other],
    decreases n,
{
    if n > 0 {
        lemma_filled(memory, address, words, (n - 1) as nat);
        assert forall|i: int| 0 <= i < n implies #[trigger] filled(memory, address, words, n)[address
            + 8 * (i + 1)] == words[i] by {
            if i < n - 1 {
                assert(filled(memory, address, words, (n - 1) as nat)[address + 8 * (i + 1)]
                    == words[i]);
            }
        }
        assert forall|other: int|
            (other < address + 8 || other > address + 8 * n) implies #[trigger] filled(
            memory,
            address,
            words,
            n,
        )[other] == memory[other] by {
            assert(filled(memory, address, words, (n - 1) as nat)[other] == memory[other]);
        }
    }
}

/// Whether words at an address are apart from every register.
pub open spec fn apart_from_registers(base: i64, address: int, words: nat) -> bool {
    forall|register: Register|
        has_place(register) ==> {
            ||| #[trigger] register_address(base, register) < address
            ||| register_address(base, register) >= address + 8 * words
        }
}

/// The terms that operands stand for.
pub open spec fn operand_values(
    m: Machine,
    register_file: Value,
    operands: Seq<OperandView>,
) -> Seq<i64> {
    operands.map_values(|operand: OperandView| operand_value(m, register_file, operand))
}

proof fn lemma_store_elements(
    b: LoweringView,
    register_file: Value,
    heap: Value,
    elements: Seq<OperandView>,
    n: nat,
    from: int,
    start: Flow,
    m: Machine,
)
    requires
        b.ops.len() + 2 * n <= usize::MAX,
        n <= elements.len(),
        0 <= from <= b.ops.len(),
        register_file < b.ops.len(),
        heap < b.ops.len(),
        store_elements_ir(b, register_file, heap, elements, n) is Ok,
        does(b, from, start) == Flow::Running(m),
        apart_from_registers(m.values[register_file], m.values[heap] as int, n + 1),
    ensures
        ({
            let after = store_elements_ir(b, register_file, heap, elements, n)->Ok_0;
            &&& after.ops.len() == b.ops.len() + 2 * n
            &&& does(after, from, start) matches Flow::Running(k) && k.memory == filled(
                m.memory,
                m.values[heap] as int,
                operand_values(m, register_file, elements),
                n,
            ) && k.calls == m.calls && keeps(m, k, b.ops.len() as int)
        }),
    decreases n,
{
    if n > 0 {
        let before = (n - 1) as nat;
        assert(apart_from_registers(m.values[register_file], m.values[heap] as int, before + 1));
        lemma_store_elements(b, register_file, heap, elements, before, from, start, m);
        let b1 = store_elements_ir(b, register_file, heap, elements, before)->Ok_0;
        let element = elements[n - 1];
        lemma_read(b1, register_file, element, from, start);
        let (value, b2) = read_operand_term_ir(b1, register_file, element)->Ok_0;
        let words = operand_values(m, register_file, elements);
        let k = does(b1, from, start)->Running_0;
        lemma_filled(m.memory, m.values[heap] as int, words, before);
        lemma_operand_has_place(element);
        assert(operand_value(k, register_file, element) == operand_value(m, register_file, element));
        lemma_emit(
            b2,
            IrOp::Store { value, base: heap, offset: (n * WORD_BYTES) as i64 },
            from,
            start,
        );
    }
}

proof fn lemma_store_elements_left(
    b: LoweringView,
    register_file: Value,
    heap: Value,
    elements: Seq<OperandView>,
    n: nat,
    from: int,
    start: Flow,
)
    requires
        b.ops.len() + 2 * n <= usize::MAX,
        n <= elements.len(),
        0 <= from <= b.ops.len(),
        store_elements_ir(b, register_file, heap, elements, n) is Ok,
        does(b, from, start) is Left,
    ensures
        ({
            let after = store_elements_ir(b, register_file, heap, elements, n)->Ok_0;
            &&& after.ops.len() == b.ops.len() + 2 * n
            &&& does(after, from, start) == does(b, from, start)
        }),
    decreases n,
{
    if n > 0 {
        let before = (n - 1) as nat;
        lemma_store_elements_left(b, register_file, heap, elements, before, from, start);
        let b1 = store_elements_ir(b, register_file, heap, elements, before)->Ok_0;
        lemma_read(b1, register_file, elements[n - 1], from, start);
        let (value, b2) = read_operand_term_ir(b1, register_file, elements[n - 1])->Ok_0;
        lemma_emit(
            b2,
            IrOp::Store { value, base: heap, offset: (n * WORD_BYTES) as i64 },
            from,
            start,
        );
    }
}

proof fn lemma_elements_are_read(
    b: LoweringView,
    register_file: Value,
    heap: Value,
    elements: Seq<OperandView>,
    n: nat,
)
    requires
        n <= elements.len(),
        store_elements_ir(b, register_file, heap, elements, n) is Ok,
    ensures
        forall|i: int|
            0 <= i < n && is_register_of(elements[i]) ==> register_operand_of(
                #[trigger] elements[i],
            ) is Ok,
    decreases n,
{
    if n > 0 {
        lemma_elements_are_read(b, register_file, heap, elements, (n - 1) as nat);
    }
}

proof fn lemma_tuple_header(arity: i64)
    requires
        0 <= arity < 0x1000_0000,
    ensures
        header_size(tuple_header_of(arity)) == arity,
        tuple_header_of(arity) as int % 256 == TUPLE_HEADER_TAG,
{
    let header = (arity << 8) | 16;
    assert(header == arity * 256 + 16) by (bit_vector)
        requires
            0 <= arity < 0x1000_0000,
            header == (arity << 8) | 16,
    ;
}

/// The words of a tuple and its header.
spec fn tuple_start_ir(b: LoweringView, context: LoweringContext, arity: i64) -> (
    Value,
    LoweringView,
) {
    let (arity_value, b) = b.emit(IrOp::Iconst { ty: IrType::I64, value: arity });
    let (call, b) = b.emit(
        IrOp::Call { helper: Helper::AllocTuple, args: Args::Two(context.process, arity_value) },
    );
    let (heap, b) = b.emit(IrOp::Result { of: call, index: 0 });
    let b = branch_if_null_ir(b, heap, context.deopt);
    let (header_value, b) = b.emit(
        IrOp::Iconst { ty: IrType::I64, value: tuple_header_of(arity) },
    );
    let (_, b) = b.emit(IrOp::Store { value: header_value, base: heap, offset: 0 });
    (heap, b)
}

proof fn lemma_tuple_start(b: LoweringView, context: LoweringContext, arity: i64, m: Machine)
    requires
        has_room(b),
        context.register_file < b.ops.len(),
        context.process < b.ops.len(),
        context.deopt < b.ops.len(),
    ensures
        ({
            let (heap, after) = tuple_start_ir(b, context, arity);
            let address = next_answer(m).first;
            let k = answered(m, Helper::AllocTuple, seq![m.values[context.process], arity]);
            let end = does(after, b.ops.len() as int, Flow::Running(m));
            &&& b.ops.len() < heap < after.ops.len()
            &&& after.ops.len() == b.ops.len() + 9
            &&& if address == 0 {
                end matches Flow::Left(block, n) && block == context.deopt && n.memory == k.memory
                    && n.calls == k.calls && keeps(m, n, b.ops.len() as int)
            } else {
                end matches Flow::Running(n) && n.calls == k.calls && n.memory == k.memory.insert(
                    address as int,
                    tuple_header_of(arity),
                ) && n.values[heap] == address && keeps(m, n, b.ops.len() as int)
            }
        }),
{
    let from = b.ops.len() as int;
    let start = Flow::Running(m);
    let op1 = IrOp::Iconst { ty: IrType::I64, value: arity };
    lemma_emit(b, op1, from, start);
    let (arity_value, b1) = b.emit(op1);
    let op2 = IrOp::Call {
        helper: Helper::AllocTuple,
        args: Args::Two(context.process, arity_value),
    };
    lemma_emit(b1, op2, from, start);
    let (call, b2) = b1.emit(op2);
    let op3 = IrOp::Result { of: call, index: 0 };
    lemma_emit(b2, op3, from, start);
    let (heap, b3) = b2.emit(op3);
    lemma_null(b3, heap, context.deopt, from, start);
    let b4 = branch_if_null_ir(b3, heap, context.deopt);
    let op5 = IrOp::Iconst { ty: IrType::I64, value: tuple_header_of(arity) };
    lemma_emit(b4, op5, from, start);
    let (header_value, b5) = b4.emit(op5);
    lemma_emit(b5, IrOp::Store { value: header_value, base: heap, offset: 0 }, from, start);
}

/// The words of a tuple are its header and its elements, and nothing else is stored but
/// its term.
pub proof fn lemma_tuple_built(
    b: LoweringView,
    context: LoweringContext,
    destination: OperandView,
    elements: OperandView,
    m: Machine,
)
    requires
        context.register_file < b.ops.len(),
        context.process < b.ops.len(),
        context.deopt < b.ops.len(),
        lower_put_tuple2_ir(b, context, destination, elements) is Ok,
        b.ops.len() + 2 * tuple_elements_of(elements)->Ok_0.len() + 1000 <= usize::MAX,
        next_answer(m).first as int % 8 == 0,
        next_answer(m).first != 0 ==> apart_from_registers(
            m.values[context.register_file],
            next_answer(m).first as int,
            tuple_elements_of(elements)->Ok_0.len() + 1,
        ),
    ensures
        ({
            let after = lower_put_tuple2_ir(b, context, destination, elements)->Ok_0;
            let items = tuple_elements_of(elements)->Ok_0;
            let address = next_answer(m).first;
            let k = answered(
                m,
                Helper::AllocTuple,
                seq![m.values[context.process], items.len() as i64],
            );
            let place = register_address(
                m.values[context.register_file],
                register_operand_of(destination)->Ok_0,
            );
            let end = does(after, b.ops.len() as int, Flow::Running(m));
            if address == 0 {
                end matches Flow::Left(block, n) && block == context.deopt && n.memory == k.memory
                    && n.calls == k.calls && keeps(m, n, b.ops.len() as int)
            } else {
                end matches Flow::Running(n) && n.calls == k.calls && keeps(
                    m,
                    n,
                    b.ops.len() as int,
                ) && n.memory == filled(
                    k.memory.insert(address as int, tuple_header_of(items.len() as i64)),
                    address as int,
                    operand_values(k, context.register_file, items),
                    items.len(),
                ).insert(place, (address + BOXED_TAG) as i64)
            }
        }),
{
    let from = b.ops.len() as int;
    let start = Flow::Running(m);
    let file = context.register_file;
    let items = tuple_elements_of(elements)->Ok_0;
    let arity = items.len() as i64;
    let k = answered(m, Helper::AllocTuple, seq![m.values[context.process], arity]);
    lemma_tuple_start(b, context, arity, m);
    let (heap, b6) = tuple_start_ir(b, context, arity);
    let b7 = store_elements_ir(b6, file, heap, items, items.len())->Ok_0;
    let op8 = IrOp::BinaryImm { code: ImmCode::Bor, left: heap, imm: BOXED_TAG };
    let (term, b8) = b7.emit(op8);
    lemma_tag_sets(next_answer(m).first);
    if next_answer(m).first == 0 {
        lemma_store_elements_left(b6, file, heap, items, items.len(), from, start);
        lemma_emit(b7, op8, from, start);
        lemma_write(b8, file, destination, term, from, start);
    } else {
        let l = does(b6, from, start)->Running_0;
        lemma_store_elements(b6, file, heap, items, items.len(), from, start, l);
        lemma_emit(b7, op8, from, start);
        lemma_write(b8, file, destination, term, from, start);
        lemma_elements_are_read(b6, file, heap, items, items.len());
        assert forall|i: int| 0 <= i < items.len() implies operand_value(
            l,
            file,
            #[trigger] items[i],
        ) == operand_value(k, file, items[i]) by {
            lemma_operand_has_place(items[i]);
        }
        assert(operand_values(l, file, items) =~= operand_values(k, file, items));
    }
}

/// A tuple is a header with its size and its elements at the words that the heap
/// gives, and its term is stored in the destination; the rest of the memory is
/// left. Without words, the interpreter takes over and nothing is stored.
///
/// The heap gives words that hold no register.
pub proof fn law_tuple_is_built(
    b: LoweringView,
    context: LoweringContext,
    destination: OperandView,
    elements: OperandView,
    m: Machine,
)
    requires
        context.register_file < b.ops.len(),
        context.process < b.ops.len(),
        context.deopt < b.ops.len(),
        lower_put_tuple2_ir(b, context, destination, elements) is Ok,
        b.ops.len() + 2 * tuple_elements_of(elements)->Ok_0.len() + 1000 <= usize::MAX,
        next_answer(m).first as int % 8 == 0,
        apart_from_registers(
            m.values[context.register_file],
            next_answer(m).first as int,
            tuple_elements_of(elements)->Ok_0.len() + 1,
        ),
    ensures
        ({
            let after = lower_put_tuple2_ir(b, context, destination, elements)->Ok_0;
            let items = tuple_elements_of(elements)->Ok_0;
            let address = next_answer(m).first;
            let k = answered(
                m,
                Helper::AllocTuple,
                seq![m.values[context.process], items.len() as i64],
            );
            let place = register_address(
                m.values[context.register_file],
                register_operand_of(destination)->Ok_0,
            );
            let term = (address + BOXED_TAG) as i64;
            let end = does(after, b.ops.len() as int, Flow::Running(m));
            if address == 0 {
                end matches Flow::Left(block, n) && block == context.deopt && n.memory == k.memory
                    && n.calls == k.calls
            } else {
                end matches Flow::Running(n) && n.calls == k.calls && n.memory[place] == term
                    && boxed_as(n.memory, term, TUPLE_HEADER_TAG) && header_size(
                    header_of(n.memory, term),
                ) == items.len() && (forall|i: int|
                    0 <= i < items.len() ==> #[trigger] n.memory[address + 8 * (i + 1)]
                        == operand_value(k, context.register_file, items[i])) && (forall|other: int|
                    other != place && (other < address || other > address + 8 * items.len())
                        ==> #[trigger] n.memory[other] == k.memory[other])
            }
        }),
{
    let file = context.register_file;
    let items = tuple_elements_of(elements)->Ok_0;
    let arity = items.len() as i64;
    let k = answered(m, Helper::AllocTuple, seq![m.values[context.process], arity]);
    lemma_tuple_built(b, context, destination, elements, m);
    let address = next_answer(m).first as int;
    lemma_operand_has_place(destination);
    lemma_tuple_header(arity);
    let before = k.memory.insert(address, tuple_header_of(arity));
    lemma_filled(before, address, operand_values(k, file, items), items.len());
}

proof fn lemma_loaded(b: LoweringView, term: Value, offset: i64, from: int, start: Flow)
    requires
        b.ops.len() + 2 <= usize::MAX,
        0 <= from <= b.ops.len(),
        term < b.ops.len(),
    ensures
        ({
            let (cell, b1) = untagged_ptr_ir(b, term);
            let (word, after) = b1.emit(IrOp::Load { ty: IrType::I64, base: cell, offset });
            &&& cell == b.ops.len()
            &&& word == b.ops.len() + 1
            &&& after.ops.len() == b.ops.len() + 2
            &&& match does(b, from, start) {
                Flow::Running(m) => does(after, from, start) matches Flow::Running(n)
                    && only_made_values(m, n, b.ops.len() as int) && n.values[cell] == term_address(
                    m.values[term],
                ) && n.values[word] == m.memory[term_address(m.values[term]) + offset],
                other => does(after, from, start) == other,
            }
        }),
{
    let op1 = IrOp::BinaryImm { code: ImmCode::Band, left: term, imm: POINTER_MASK };
    lemma_emit(b, op1, from, start);
    let (cell, b1) = b.emit(op1);
    lemma_emit(b1, IrOp::Load { ty: IrType::I64, base: cell, offset }, from, start);
    if let Flow::Running(m) = does(b, from, start) {
        lemma_pointer(m.values[term]);
    }
}

/// Reading the head of a list stores the first word of its cell in the
/// destination, and nothing else.
pub proof fn law_head_is_read(
    b: LoweringView,
    register_file: Value,
    source: OperandView,
    destination: OperandView,
    m: Machine,
)
    requires
        has_room(b),
        register_file < b.ops.len(),
        lower_get_hd_ir(b, register_file, source, destination) is Ok,
    ensures
        ({
            let after = lower_get_hd_ir(b, register_file, source, destination)->Ok_0;
            let list = operand_value(m, register_file, source);
            let base = m.values[register_file];
            does(after, b.ops.len() as int, Flow::Running(m)) matches Flow::Running(n)
                && only_stored(m, n, b.ops.len() as int) && n.memory == m.memory.insert(
                register_address(base, register_operand_of(destination)->Ok_0),
                m.memory[term_address(list)],
            )
        }),
{
    let from = b.ops.len() as int;
    let start = Flow::Running(m);
    lemma_read(b, register_file, source, from, start);
    let (list, b1) = read_operand_term_ir(b, register_file, source)->Ok_0;
    lemma_loaded(b1, list, 0, from, start);
    let (cell, b2) = untagged_ptr_ir(b1, list);
    let (head, b3) = b2.emit(IrOp::Load { ty: IrType::I64, base: cell, offset: 0 });
    lemma_write(b3, register_file, destination, head, from, start);
}

/// Reading the tail of a list stores the second word of its cell in the
/// destination, and nothing else.
pub proof fn law_tail_is_read(
    b: LoweringView,
    register_file: Value,
    source: OperandView,
    destination: OperandView,
    m: Machine,
)
    requires
        has_room(b),
        register_file < b.ops.len(),
        lower_get_tl_ir(b, register_file, source, destination) is Ok,
    ensures
        ({
            let after = lower_get_tl_ir(b, register_file, source, destination)->Ok_0;
            let list = operand_value(m, register_file, source);
            let base = m.values[register_file];
            does(after, b.ops.len() as int, Flow::Running(m)) matches Flow::Running(n)
                && only_stored(m, n, b.ops.len() as int) && n.memory == m.memory.insert(
                register_address(base, register_operand_of(destination)->Ok_0),
                m.memory[term_address(list) + 8],
            )
        }),
{
    let from = b.ops.len() as int;
    let start = Flow::Running(m);
    lemma_read(b, register_file, source, from, start);
    let (list, b1) = read_operand_term_ir(b, register_file, source)->Ok_0;
    lemma_loaded(b1, list, 8, from, start);
    let (cell, b2) = untagged_ptr_ir(b1, list);
    let (tail, b3) = b2.emit(IrOp::Load { ty: IrType::I64, base: cell, offset: 8 });
    lemma_write(b3, register_file, destination, tail, from, start);
}

/// Taking a list apart stores the two words of its cell, as they were before, in
/// the two destinations, and nothing else.
pub proof fn law_list_is_taken_apart(
    b: LoweringView,
    register_file: Value,
    source: OperandView,
    head: OperandView,
    tail: OperandView,
    m: Machine,
)
    requires
        has_room(b),
        register_file < b.ops.len(),
        lower_get_list_ir(b, register_file, source, head, tail) is Ok,
    ensures
        ({
            let after = lower_get_list_ir(b, register_file, source, head, tail)->Ok_0;
            let list = operand_value(m, register_file, source);
            let base = m.values[register_file];
            does(after, b.ops.len() as int, Flow::Running(m)) matches Flow::Running(n)
                && only_stored(m, n, b.ops.len() as int) && n.memory == m.memory.insert(
                register_address(base, register_operand_of(head)->Ok_0),
                m.memory[term_address(list)],
            ).insert(
                register_address(base, register_operand_of(tail)->Ok_0),
                m.memory[term_address(list) + 8],
            )
        }),
{
    let from = b.ops.len() as int;
    let start = Flow::Running(m);
    lemma_read(b, register_file, source, from, start);
    let (list, b1) = read_operand_term_ir(b, register_file, source)->Ok_0;
    lemma_loaded(b1, list, 0, from, start);
    let (cell, b2) = untagged_ptr_ir(b1, list);
    let (head_value, b3) = b2.emit(IrOp::Load { ty: IrType::I64, base: cell, offset: 0 });
    let op4 = IrOp::Load { ty: IrType::I64, base: cell, offset: 8 };
    lemma_emit(b3, op4, from, start);
    let (tail_value, b4) = b3.emit(op4);
    lemma_write(b4, register_file, head, head_value, from, start);
    let b5 = write_operand_term_ir(b4, register_file, head, head_value)->Ok_0;
    lemma_write(b5, register_file, tail, tail_value, from, start);
}

/// Reading an element of a tuple stores the word at its place behind the header in
/// the destination, and nothing else.
pub proof fn law_tuple_element_is_read(
    b: LoweringView,
    register_file: Value,
    source: OperandView,
    index: usize,
    destination: OperandView,
    m: Machine,
)
    requires
        has_room(b),
        register_file < b.ops.len(),
        lower_get_tuple_element_ir(b, register_file, source, index, destination) is Ok,
    ensures
        ({
            let after = lower_get_tuple_element_ir(
                b,
                register_file,
                source,
                index,
                destination,
            )->Ok_0;
            let tuple = operand_value(m, register_file, source);
            let base = m.values[register_file];
            does(after, b.ops.len() as int, Flow::Running(m)) matches Flow::Running(n)
                && only_stored(m, n, b.ops.len() as int) && n.memory == m.memory.insert(
                register_address(base, register_operand_of(destination)->Ok_0),
                m.memory[term_address(tuple) + 8 * (index + 1)],
            )
        }),
{
    let from = b.ops.len() as int;
    let start = Flow::Running(m);
    let offset = ((index + 1) * 8) as i64;
    lemma_read(b, register_file, source, from, start);
    let (tuple, b1) = read_operand_term_ir(b, register_file, source)->Ok_0;
    lemma_loaded(b1, tuple, offset, from, start);
    let (cell, b2) = untagged_ptr_ir(b1, tuple);
    let (element, b3) = b2.emit(IrOp::Load { ty: IrType::I64, base: cell, offset });
    lemma_write(b3, register_file, destination, element, from, start);
}

/// What a list was built of is what is taken out of it.
pub proof fn law_built_list_is_taken_apart(
    b: LoweringView,
    context: LoweringContext,
    head: OperandView,
    tail: OperandView,
    list: OperandView,
    m: Machine,
    later: LoweringView,
    first: OperandView,
    rest: OperandView,
    k: Machine,
)
    requires
        has_room(b),
        has_room(later),
        context.register_file < b.ops.len() <= later.ops.len(),
        context.process < b.ops.len(),
        context.deopt < b.ops.len(),
        next_answer(m).first as int % 8 == 0,
        next_answer(m).first != 0,
        apart_from_registers(m.values[context.register_file], next_answer(m).first as int, 2),
        lower_put_list_ir(b, context, head, tail, list) is Ok,
        lower_get_list_ir(later, context.register_file, list, first, rest) is Ok,
        register_operand_of(first)->Ok_0 != register_operand_of(rest)->Ok_0,
        does(
            lower_put_list_ir(b, context, head, tail, list)->Ok_0,
            b.ops.len() as int,
            Flow::Running(m),
        ) matches Flow::Running(n) && k.memory == n.memory,
        k.values[context.register_file] == m.values[context.register_file],
    ensures
        ({
            let after = lower_get_list_ir(later, context.register_file, list, first, rest)->Ok_0;
            let base = m.values[context.register_file];
            let built = answered(m, Helper::AllocCons, seq![m.values[context.process]]);
            does(after, later.ops.len() as int, Flow::Running(k)) matches Flow::Running(n)
                && n.memory[register_address(base, register_operand_of(first)->Ok_0)]
                == operand_value(built, context.register_file, head) && n.memory[register_address(
                base,
                register_operand_of(rest)->Ok_0,
            )] == operand_value(built, context.register_file, tail)
        }),
{
    law_list_is_built(b, context, head, tail, list, m);
    law_list_is_taken_apart(later, context.register_file, list, first, rest, k);
    lemma_operand_has_place(list);
    lemma_operand_has_place(first);
    lemma_operand_has_place(rest);
    law_registers_are_apart(register_operand_of(first)->Ok_0, register_operand_of(rest)->Ok_0);
}

/// What a tuple was built of is what is read of it.
pub proof fn law_built_tuple_element_is_read(
    b: LoweringView,
    context: LoweringContext,
    tuple: OperandView,
    elements: OperandView,
    m: Machine,
    later: LoweringView,
    index: usize,
    destination: OperandView,
    k: Machine,
)
    requires
        has_room(later),
        context.register_file < b.ops.len() <= later.ops.len(),
        context.process < b.ops.len(),
        context.deopt < b.ops.len(),
        lower_put_tuple2_ir(b, context, tuple, elements) is Ok,
        b.ops.len() + 2 * tuple_elements_of(elements)->Ok_0.len() + 1000 <= usize::MAX,
        next_answer(m).first as int % 8 == 0,
        next_answer(m).first != 0,
        apart_from_registers(
            m.values[context.register_file],
            next_answer(m).first as int,
            tuple_elements_of(elements)->Ok_0.len() + 1,
        ),
        index < tuple_elements_of(elements)->Ok_0.len(),
        lower_get_tuple_element_ir(later, context.register_file, tuple, index, destination) is Ok,
        does(
            lower_put_tuple2_ir(b, context, tuple, elements)->Ok_0,
            b.ops.len() as int,
            Flow::Running(m),
        ) matches Flow::Running(n) && k.memory == n.memory,
        k.values[context.register_file] == m.values[context.register_file],
    ensures
        ({
            let after = lower_get_tuple_element_ir(
                later,
                context.register_file,
                tuple,
                index,
                destination,
            )->Ok_0;
            let base = m.values[context.register_file];
            let items = tuple_elements_of(elements)->Ok_0;
            let built = answered(
                m,
                Helper::AllocTuple,
                seq![m.values[context.process], items.len() as i64],
            );
            does(after, later.ops.len() as int, Flow::Running(k)) matches Flow::Running(n)
                && n.memory[register_address(base, register_operand_of(destination)->Ok_0)]
                == operand_value(built, context.register_file, items[index as int])
        }),
{
    law_tuple_is_built(b, context, tuple, elements, m);
    law_tuple_element_is_read(later, context.register_file, tuple, index, destination, k);
    lemma_operand_has_place(tuple);
    let items = tuple_elements_of(elements)->Ok_0;
    let built = answered(
        m,
        Helper::AllocTuple,
        seq![m.values[context.process], items.len() as i64],
    );
    assert(k.memory[next_answer(m).first + 8 * (index + 1)] == operand_value(
        built,
        context.register_file,
        items[index as int],
    ));
}

} // verus!

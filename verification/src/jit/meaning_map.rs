//! Laws of maps in compiled code: what a map is made of, and what is read of it.

use vstd::prelude::*;
use crate::loader::decode::compact::OperandView;
use super::common::{branch_if_null_ir, read_operand_term_ir};
use super::helper::{Helper, IrType};
use super::ir::{Args, Block, IrOp, LoweringView, Value};
use super::map::{
    get_elements_ir, has_fields_ir, store_pairs_ir, translate_get_map_elements_ir,
    translate_has_map_fields_ir, translate_put_map_ir, MapLoweringContext,
};
use super::meaning::{
    answered, does, lemma_emit, next_answer, operand_value, register_address, Flow, Machine,
};
use super::meaning_call::{ask_ir, lemma_ask, same_effects};
use super::meaning_core::{lemma_read, lemma_write};
use super::meaning_data::{
    apart_from_registers, filled, lemma_filled, lemma_null, operand_values,
};
use super::meaning_move::lemma_operand_has_place;
use super::register::register_operand_of;

verus! {

proof fn lemma_pairs(
    b: LoweringView,
    register_file: Value,
    slot: Value,
    items: Seq<OperandView>,
    n: nat,
    from: int,
    start: Flow,
    m: Machine,
)
    requires
        b.ops.len() + 2 * n <= usize::MAX,
        n <= items.len() <= i64::MAX / 8,
        0 <= from <= b.ops.len(),
        register_file < b.ops.len(),
        slot < b.ops.len(),
        store_pairs_ir(b, register_file, slot, items, n) is Ok,
        does(b, from, start) == Flow::Running(m),
        apart_from_registers(m.values[register_file], m.values[slot] as int, n),
    ensures
        ({
            let after = store_pairs_ir(b, register_file, slot, items, n)->Ok_0;
            &&& after.ops.len() == b.ops.len() + 2 * n
            &&& does(after, from, start) matches Flow::Running(k) && k.memory == filled(
                m.memory,
                m.values[slot] - 8,
                operand_values(m, register_file, items),
                n,
            ) && k.calls == m.calls && k.answers == m.answers && k.slots == m.slots && forall|
                v: Value,
            |
                v < b.ops.len() ==> #[trigger] k.values[v] == m.values[v]
        }),
    decreases n,
{
    if n > 0 {
        let before = (n - 1) as nat;
        assert(apart_from_registers(m.values[register_file], m.values[slot] as int, before));
        lemma_pairs(b, register_file, slot, items, before, from, start, m);
        let b1 = store_pairs_ir(b, register_file, slot, items, before)->Ok_0;
        let item = items[n - 1];
        lemma_read(b1, register_file, item, from, start);
        let (value, b2) = read_operand_term_ir(b1, register_file, item)->Ok_0;
        let words = operand_values(m, register_file, items);
        let k = does(b1, from, start)->Running_0;
        lemma_filled(m.memory, m.values[slot] - 8, words, before);
        lemma_operand_has_place(item);
        assert(operand_value(k, register_file, item) == operand_value(m, register_file, item));
        let offset = (8 * (n - 1)) as i64;
        lemma_emit(b2, IrOp::Store { value, base: slot, offset }, from, start);
    }
}

/// The call that makes a map is handed the process, the old map, a row of the keys
/// and values, and how many pairs they are; the map that it gives is stored in the
/// destination. Without a map, the code leaves for `fail` and no register is written.
///
/// The row stands at words that hold no register.
pub proof fn law_map_is_made(
    b: LoweringView,
    context: MapLoweringContext,
    helper: Helper,
    source: OperandView,
    destination: OperandView,
    items: Seq<OperandView>,
    fail: Block,
    m: Machine,
)
    requires
        b.ops.len() + 2 * items.len() + 20 <= usize::MAX,
        context.register_file < b.ops.len(),
        context.process < b.ops.len(),
        fail < b.ops.len(),
        translate_put_map_ir(b, context, helper, source, destination, items, fail) is Ok,
        apart_from_registers(
            m.values[context.register_file],
            m.slots[(b.ops.len() + 1) as Value] as int,
            items.len(),
        ),
    ensures
        ({
            let after = translate_put_map_ir(
                b,
                context,
                helper,
                source,
                destination,
                items,
                fail,
            )->Ok_0;
            let file = context.register_file;
            let row = m.slots[(b.ops.len() + 1) as Value];
            let stored = Machine {
                memory: filled(m.memory, row - 8, operand_values(m, file, items), items.len()),
                ..m
            };
            let made = answered(
                stored,
                helper,
                seq![
                    m.values[context.process],
                    operand_value(m, file, source),
                    row,
                    (items.len() / 2) as i64,
                ],
            );
            let map = next_answer(m).first;
            let end = does(after, b.ops.len() as int, Flow::Running(m));
            if map == 0 {
                end matches Flow::Left(block, n) && block == fail && same_effects(n, made)
            } else {
                end matches Flow::Running(n) && same_effects(
                    n,
                    made.stored(
                        register_address(m.values[file], register_operand_of(destination)->Ok_0),
                        map,
                    ),
                )
            }
        }),
{
    let from = b.ops.len() as int;
    let start = Flow::Running(m);
    let file = context.register_file;
    lemma_read(b, file, source, from, start);
    let (old_map, b1) = read_operand_term_ir(b, file, source)->Ok_0;
    let op2 = IrOp::StackSlot { words: items.len() as usize };
    lemma_emit(b1, op2, from, start);
    let (slot, b2) = b1.emit(op2);
    let l = does(b2, from, start)->Running_0;
    assert(l.values[slot] == m.slots[slot]);
    lemma_pairs(b2, file, slot, items, items.len(), from, start, l);
    assert(operand_values(l, file, items) =~= operand_values(m, file, items));
    let b3 = store_pairs_ir(b2, file, slot, items, items.len())->Ok_0;
    let op4 = IrOp::Iconst { ty: IrType::I64, value: (items.len() / 2) as i64 };
    lemma_emit(b3, op4, from, start);
    let (count, b4) = b3.emit(op4);
    let args = Args::Four(context.process, old_map, slot, count);
    lemma_ask(b4, helper, args, from, start);
    let (made, b5) = ask_ir(b4, helper, args);
    lemma_null(b5, made, fail, from, start);
    let b6 = branch_if_null_ir(b5, made, fail);
    lemma_write(b6, file, destination, made, from, start);
}

/// A machine that took the first `n` elements of a map, and whether it had them all.
/// Each is asked for by its key; what is found goes to its destination. The first key
/// that is not found ends the taking.
pub open spec fn taken(
    m: Machine,
    register_file: Value,
    map: i64,
    items: Seq<OperandView>,
    n: nat,
) -> (bool, Machine)
    decreases n,
{
    if n == 0 {
        (true, m)
    } else {
        let (all, k) = taken(m, register_file, map, items, (n - 1) as nat);
        let key = operand_value(k, register_file, items[2 * n - 2]);
        let asked = answered(k, Helper::MapGet, seq![map, key]);
        if !all {
            (false, k)
        } else if next_answer(k).first == 0 {
            (false, asked)
        } else {
            let destination = register_operand_of(items[2 * n - 1])->Ok_0;
            (
                true,
                asked.stored(
                    register_address(k.values[register_file], destination),
                    next_answer(k).second,
                ),
            )
        }
    }
}

/// Code that ends running with the effects of a machine, or that left for `fail` with
/// them.
pub open spec fn ends(end: Flow, all: bool, k: Machine, fail: Block) -> bool {
    if all {
        end matches Flow::Running(n) && same_effects(n, k)
    } else {
        end matches Flow::Left(block, n) && block == fail && same_effects(n, k)
    }
}

proof fn lemma_taken(
    b: LoweringView,
    context: MapLoweringContext,
    map: Value,
    items: Seq<OperandView>,
    fail: Block,
    n: nat,
    from: int,
    start: Flow,
    m: Machine,
)
    requires
        b.ops.len() + 9 * n <= usize::MAX,
        n <= items.len() / 2,
        0 <= from <= b.ops.len(),
        context.register_file < b.ops.len(),
        map < b.ops.len(),
        fail < b.ops.len(),
        get_elements_ir(b, context, map, items, fail, n) is Ok,
        does(b, from, start) == Flow::Running(m),
    ensures
        ({
            let after = get_elements_ir(b, context, map, items, fail, n)->Ok_0;
            let (all, k) = taken(m, context.register_file, m.values[map], items, n);
            let end = does(after, from, start);
            &&& after.ops.len() == b.ops.len() + 9 * n
            &&& k.values == m.values
            &&& ends(end, all, k, fail)
            &&& end matches Flow::Running(l) ==> forall|v: Value|
                v < b.ops.len() ==> #[trigger] l.values[v] == m.values[v]
        }),
    decreases n,
{
    if n > 0 {
        let file = context.register_file;
        let before = (n - 1) as nat;
        lemma_taken(b, context, map, items, fail, before, from, start, m);
        let b1 = get_elements_ir(b, context, map, items, fail, before)->Ok_0;
        let (all, k) = taken(m, file, m.values[map], items, before);
        lemma_read(b1, file, items[2 * n - 2], from, start);
        let (key, b2) = read_operand_term_ir(b1, file, items[2 * n - 2])->Ok_0;
        lemma_ask(b2, Helper::MapGet, Args::Two(map, key), from, start);
        let (found, b3) = ask_ir(b2, Helper::MapGet, Args::Two(map, key));
        let op4 = IrOp::Result { of: b2.ops.len() as Value, index: 1 };
        lemma_emit(b3, op4, from, start);
        let (value, b4) = b3.emit(op4);
        lemma_null(b4, found, fail, from, start);
        let b5 = branch_if_null_ir(b4, found, fail);
        lemma_write(b5, file, items[2 * n - 1], value, from, start);
        if all {
            let l = does(b1, from, start)->Running_0;
            assert(operand_value(l, file, items[2 * n - 2]) == operand_value(
                k,
                file,
                items[2 * n - 2],
            ));
        }
    }
}

/// Elements of a map are asked for in turn, and each goes to its destination. The
/// first that is not found makes the code leave for `fail`, with those before it
/// stored.
pub proof fn law_elements_are_taken(
    b: LoweringView,
    context: MapLoweringContext,
    source: OperandView,
    items: Seq<OperandView>,
    fail: Block,
    m: Machine,
)
    requires
        b.ops.len() + 9 * items.len() + 1 <= usize::MAX,
        context.register_file < b.ops.len(),
        fail < b.ops.len(),
        translate_get_map_elements_ir(b, context, source, items, fail) is Ok,
    ensures
        ({
            let file = context.register_file;
            let after = translate_get_map_elements_ir(b, context, source, items, fail)->Ok_0;
            let (all, k) = taken(m, file, operand_value(m, file, source), items, items.len() / 2);
            ends(does(after, b.ops.len() as int, Flow::Running(m)), all, k, fail)
        }),
{
    let from = b.ops.len() as int;
    let start = Flow::Running(m);
    let file = context.register_file;
    lemma_read(b, file, source, from, start);
    let (map, b1) = read_operand_term_ir(b, file, source)->Ok_0;
    let l = does(b1, from, start)->Running_0;
    lemma_taken(b1, context, map, items, fail, items.len() / 2, from, start, l);
    lemma_taken_with(m, l, file, l.values[map], items, items.len() / 2);
}

proof fn lemma_taken_with(
    m: Machine,
    l: Machine,
    file: Value,
    map: i64,
    items: Seq<OperandView>,
    n: nat,
)
    requires
        same_effects(m, l),
        m.values[file] == l.values[file],
    ensures
        taken(m, file, map, items, n).0 == taken(l, file, map, items, n).0,
        same_effects(taken(m, file, map, items, n).1, taken(l, file, map, items, n).1),
        taken(m, file, map, items, n).1.values == m.values,
        taken(l, file, map, items, n).1.values == l.values,
    decreases n,
{
    if n > 0 {
        lemma_taken_with(m, l, file, map, items, (n - 1) as nat);
        let k = taken(m, file, map, items, (n - 1) as nat).1;
        let j = taken(l, file, map, items, (n - 1) as nat).1;
        assert(operand_value(k, file, items[2 * n - 2]) == operand_value(
            j,
            file,
            items[2 * n - 2],
        ));
    }
}

/// A machine that asked a map for the first `n` keys, and whether it has them all.
/// The first that it has not ends the asking.
pub open spec fn sought(
    m: Machine,
    register_file: Value,
    map: i64,
    items: Seq<OperandView>,
    n: nat,
) -> (bool, Machine)
    decreases n,
{
    if n == 0 {
        (true, m)
    } else {
        let (all, k) = sought(m, register_file, map, items, (n - 1) as nat);
        let key = operand_value(k, register_file, items[n - 1]);
        if all {
            (next_answer(k).first != 0, answered(k, Helper::MapHasKey, seq![map, key]))
        } else {
            (false, k)
        }
    }
}

proof fn lemma_sought(
    b: LoweringView,
    context: MapLoweringContext,
    map: Value,
    items: Seq<OperandView>,
    fail: Block,
    n: nat,
    from: int,
    start: Flow,
    m: Machine,
)
    requires
        b.ops.len() + 7 * n <= usize::MAX,
        n <= items.len(),
        0 <= from <= b.ops.len(),
        context.register_file < b.ops.len(),
        map < b.ops.len(),
        fail < b.ops.len(),
        has_fields_ir(b, context, map, items, fail, n) is Ok,
        does(b, from, start) == Flow::Running(m),
    ensures
        ({
            let after = has_fields_ir(b, context, map, items, fail, n)->Ok_0;
            let (all, k) = sought(m, context.register_file, m.values[map], items, n);
            let end = does(after, from, start);
            &&& after.ops.len() == b.ops.len() + 7 * n
            &&& k.values == m.values
            &&& ends(end, all, k, fail)
            &&& end matches Flow::Running(l) ==> forall|v: Value|
                v < b.ops.len() ==> #[trigger] l.values[v] == m.values[v]
        }),
    decreases n,
{
    if n > 0 {
        let file = context.register_file;
        let before = (n - 1) as nat;
        lemma_sought(b, context, map, items, fail, before, from, start, m);
        let b1 = has_fields_ir(b, context, map, items, fail, before)->Ok_0;
        let (all, k) = sought(m, file, m.values[map], items, before);
        lemma_read(b1, file, items[n - 1], from, start);
        let (key, b2) = read_operand_term_ir(b1, file, items[n - 1])->Ok_0;
        lemma_ask(b2, Helper::MapHasKey, Args::Two(map, key), from, start);
        let (found, b3) = ask_ir(b2, Helper::MapHasKey, Args::Two(map, key));
        lemma_null(b3, found, fail, from, start);
        if all {
            let l = does(b1, from, start)->Running_0;
            assert(operand_value(l, file, items[n - 1]) == operand_value(k, file, items[n - 1]));
        }
    }
}

proof fn lemma_sought_with(
    m: Machine,
    l: Machine,
    file: Value,
    map: i64,
    items: Seq<OperandView>,
    n: nat,
)
    requires
        same_effects(m, l),
        m.values[file] == l.values[file],
    ensures
        sought(m, file, map, items, n).0 == sought(l, file, map, items, n).0,
        same_effects(sought(m, file, map, items, n).1, sought(l, file, map, items, n).1),
        sought(m, file, map, items, n).1.values == m.values,
        sought(l, file, map, items, n).1.values == l.values,
    decreases n,
{
    if n > 0 {
        lemma_sought_with(m, l, file, map, items, (n - 1) as nat);
        let k = sought(m, file, map, items, (n - 1) as nat).1;
        let j = sought(l, file, map, items, (n - 1) as nat).1;
        assert(operand_value(k, file, items[n - 1]) == operand_value(j, file, items[n - 1]));
    }
}

/// A map is asked for keys in turn, and nothing is stored. The first that it has not
/// makes the code leave for `fail`.
pub proof fn law_keys_are_sought(
    b: LoweringView,
    context: MapLoweringContext,
    source: OperandView,
    items: Seq<OperandView>,
    fail: Block,
    m: Machine,
)
    requires
        b.ops.len() + 7 * items.len() + 1 <= usize::MAX,
        context.register_file < b.ops.len(),
        fail < b.ops.len(),
        translate_has_map_fields_ir(b, context, source, items, fail) is Ok,
    ensures
        ({
            let file = context.register_file;
            let after = translate_has_map_fields_ir(b, context, source, items, fail)->Ok_0;
            let (all, k) = sought(m, file, operand_value(m, file, source), items, items.len());
            ends(does(after, b.ops.len() as int, Flow::Running(m)), all, k, fail)
        }),
{
    let from = b.ops.len() as int;
    let start = Flow::Running(m);
    let file = context.register_file;
    lemma_read(b, file, source, from, start);
    let (map, b1) = read_operand_term_ir(b, file, source)->Ok_0;
    let l = does(b1, from, start)->Running_0;
    lemma_sought(b1, context, map, items, fail, items.len(), from, start, l);
    lemma_sought_with(m, l, file, l.values[map], items, items.len());
}

} // verus!

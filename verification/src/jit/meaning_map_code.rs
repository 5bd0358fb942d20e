//! Laws of the instructions on maps: which map each asks for, where what it gives
//! goes, and where the code goes without it.

use vstd::prelude::*;
use crate::loader::decode::compact::OperandView;
use crate::loader::decode::instruction::{InstructionView, MapOp};
use super::common::{is_register_of, read_operand_term_ir};
use super::compiler::lower_instruction_ir;
use super::control::{operand_block_of, BlockMapView};
use super::dispatch_call::MetadataView;
use super::dispatch_core::FunctionContext;
use super::dispatch_data::lower_map_instruction_ir;
use super::error::JitFault;
use super::helper::Helper;
use super::ir::{Block, IrOp, LoweringView, Value};
use super::map::{
    get_elements_ir, has_fields_ir, store_pairs_ir, translate_get_map_elements_ir,
    translate_has_map_fields_ir, translate_put_map_ir, MapLoweringContext,
};
use super::meaning::{
    does, goes_on, lemma_then, next_answer, operand_value, register_address, Flow, Made, Machine,
};
use super::meaning_data::{apart_from_registers, filled, lemma_filled, operand_values};
use super::meaning_map::{
    ends, law_elements_are_taken, law_keys_are_sought, law_map_is_made, sought, taken,
};
use super::meaning_move::standing_operand;
use super::meaning_receive::is_set_up;
use super::meaning_standing::{
    is_plain, lemma_materialize_operand, lemma_materialize_operands, lemma_plain_operand,
    lemma_stored_nothing, only_stored, stay_plain, stored_terms,
};
use super::register::register_operand_of;
use super::runtime_map::{map_made, value_at};
use super::safepoint::with_site;
use super::typed::{
    clear_operand_ir, clear_values_ir, materialize_keys_ir, materialize_operand_ir,
    materialize_operands_ir,
};
use super::type_info::TypeView;
use super::typed_state::{known, law_types_are_per_register};

verus! {

/// What the runtime answers when it is asked for a map: by `MapNew` one whose keys may
/// be new, by `MapUpdate` one whose keys must be there.
pub open spec fn is_answered(
    helper: Helper,
    source: Seq<(u64, u64)>,
    updates: Seq<(u64, u64)>,
    made: Option<Seq<(u64, u64)>>,
) -> bool {
    match helper {
        Helper::MapNew => map_made(false, source, updates, made),
        Helper::MapUpdate => map_made(true, source, updates, made),
        _ => false,
    }
}

/// Whether no row of words on the stack holds a register.
pub open spec fn rows_are_apart(m: Machine, register_file: Value, words: nat) -> bool {
    forall|at: Value|
        apart_from_registers(m.values[register_file], #[trigger] m.slots[at] as int, words)
}

/// Whether one machine made one more call than the other: of this helper, with the
/// process, the term of the source, a row of the terms of the items, and how many
/// pairs they are.
pub open spec fn asked_for_map(
    b: LoweringView,
    context: FunctionContext,
    m: Machine,
    helper: Helper,
    source: OperandView,
    items: Seq<OperandView>,
    n: Machine,
) -> bool {
    let file = context.register_file;
    let made = n.calls.last();
    &&& n.answers == m.answers
    &&& n.calls.len() == m.calls.len() + 1
    &&& n.calls.drop_last() == m.calls
    &&& made.helper == helper
    &&& made.args.len() == 4
    &&& made.args[0] == m.values[context.process]
    &&& made.args[1] == standing_operand(b.types, m, file, source)
    &&& made.args[3] == items.len() / 2
    &&& forall|i: int|
        0 <= i < items.len() ==> made.memory[made.args[2] + 8 * i] == standing_operand(
            b.types,
            m,
            file,
            #[trigger] items[i],
        )
}

proof fn lemma_pairs_go_on(
    b: LoweringView,
    register_file: Value,
    slot: Value,
    items: Seq<OperandView>,
    n: nat,
)
    requires
        n <= items.len(),
        store_pairs_ir(b, register_file, slot, items, n) is Ok,
    ensures
        goes_on(b, store_pairs_ir(b, register_file, slot, items, n)->Ok_0),
        store_pairs_ir(b, register_file, slot, items, n)->Ok_0.types == b.types,
        forall|i: int|
            0 <= i < n && is_register_of(#[trigger] items[i]) ==> register_operand_of(
                items[i],
            ) is Ok,
    decreases n,
{
    if n > 0 {
        lemma_pairs_go_on(b, register_file, slot, items, (n - 1) as nat);
    }
}

#[verifier::rlimit(40)]
proof fn lemma_map_dispatched(
    b: LoweringView,
    context: FunctionContext,
    blocks: BlockMapView,
    metadata: MetadataView,
    index: usize,
    instructions: Seq<InstructionView>,
    op: MapOp,
    operands: Seq<OperandView>,
)
    requires
        instructions[index as int] == (InstructionView::MapOp { op, operands }),
    ensures
        lower_instruction_ir(b, context, blocks, metadata, index, instructions)
            == lower_map_instruction_ir(b, context, blocks, index, op, operands),
{
    reveal(lower_instruction_ir);
}

/// What is lowered of an instruction that makes a map, up to the call and after it.
spec fn put_map_ir(
    b: LoweringView,
    context: FunctionContext,
    blocks: BlockMapView,
    fail: OperandView,
    source: OperandView,
    destination: OperandView,
    items: Seq<OperandView>,
    helper: Helper,
) -> (LoweringView, Result<LoweringView, JitFault>) {
    let file = context.register_file;
    let b1 = materialize_operand_ir(b, file, source);
    let b2 = materialize_operands_ir(b1, file, items, items.len());
    let c = MapLoweringContext { register_file: file, process: context.process };
    (
        b2,
        translate_put_map_ir(
            b2,
            c,
            helper,
            source,
            destination,
            items,
            operand_block_of(blocks, fail)->Ok_0,
        ),
    )
}

proof fn lemma_put_map_lowered(
    b: LoweringView,
    context: FunctionContext,
    blocks: BlockMapView,
    index: usize,
    op: MapOp,
    fail: OperandView,
    source: OperandView,
    destination: OperandView,
    live: OperandView,
    items: Seq<OperandView>,
    helper: Helper,
)
    requires
        op is PutMapAssoc && helper is MapNew || op is PutMapExact && helper is MapUpdate,
        lower_map_instruction_ir(
            b,
            context,
            blocks,
            index,
            op,
            seq![fail, source, destination, live, OperandView::List(items)],
        ) is Ok,
    ensures
        ({
            let roots = items.push(source).push(destination);
            let b0 = LoweringView { maps: with_site(b.maps, index, roots)->Ok_0, ..b };
            let put = put_map_ir(b0, context, blocks, fail, source, destination, items, helper).1;
            &&& operand_block_of(blocks, fail) is Ok
            &&& put is Ok
            &&& lower_map_instruction_ir(
                b,
                context,
                blocks,
                index,
                op,
                seq![fail, source, destination, live, OperandView::List(items)],
            ) == Ok::<(bool, LoweringView), JitFault>(
                (false, clear_operand_ir(put->Ok_0, destination)),
            )
        }),
{
}

#[verifier::rlimit(40)]
proof fn lemma_put_map_goes_on(
    b: LoweringView,
    c: MapLoweringContext,
    helper: Helper,
    source: OperandView,
    destination: OperandView,
    items: Seq<OperandView>,
    fail: Block,
)
    requires
        translate_put_map_ir(b, c, helper, source, destination, items, fail) is Ok,
    ensures
        ({
            let put = translate_put_map_ir(b, c, helper, source, destination, items, fail)->Ok_0;
            &&& goes_on(b, put)
            &&& put.types == b.types
            &&& register_operand_of(destination) is Ok
            &&& is_register_of(source) ==> register_operand_of(source) is Ok
            &&& forall|i: int|
                0 <= i < items.len() && is_register_of(#[trigger] items[i]) ==> register_operand_of(
                    items[i],
                ) is Ok
        }),
{
    let (old_map, c1) = read_operand_term_ir(b, c.register_file, source)->Ok_0;
    let (slot, c2) = c1.emit(IrOp::StackSlot { words: items.len() as usize });
    lemma_pairs_go_on(c2, c.register_file, slot, items, items.len());
    let c3 = store_pairs_ir(c2, c.register_file, slot, items, items.len())->Ok_0;
    let put = translate_put_map_ir(b, c, helper, source, destination, items, fail)->Ok_0;
    assert(goes_on(b, c2));
    assert(goes_on(c3, put));
}

/// What the call that makes a map was handed, from the machine on which all terms
/// stand.
proof fn lemma_asked_for_map(
    b: LoweringView,
    b2: LoweringView,
    context: FunctionContext,
    m: Machine,
    k: Machine,
    helper: Helper,
    source: OperandView,
    items: Seq<OperandView>,
    row: i64,
    n: Machine,
)
    requires
        context.register_file < b.ops.len(),
        context.process < b.ops.len(),
        stored_terms(b, b2, context.register_file, m, k),
        is_plain(b2.types, source),
        is_register_of(source) ==> register_operand_of(source) is Ok,
        forall|i: int| 0 <= i < items.len() ==> is_plain(b2.types, #[trigger] items[i]),
        forall|i: int|
            0 <= i < items.len() && is_register_of(#[trigger] items[i]) ==> register_operand_of(
                items[i],
            ) is Ok,
        items.len() <= i64::MAX,
        n.answers == k.answers,
        n.calls == k.calls.push(
            (Made {
                helper,
                args: seq![
                    k.values[context.process],
                    operand_value(k, context.register_file, source),
                    row,
                    (items.len() / 2) as i64,
                ],
                memory: filled(
                    k.memory,
                    row - 8,
                    operand_values(k, context.register_file, items),
                    items.len(),
                ),
            }),
        ),
    ensures
        asked_for_map(b, context, m, helper, source, items, n),
{
    let file = context.register_file;
    let words = operand_values(k, file, items);
    let made = n.calls.last();
    assert(n.calls.drop_last() =~= m.calls);
    assert(k.values[context.process] == m.values[context.process]);
    lemma_plain_operand(b, b2, file, m, k, source);
    lemma_filled(k.memory, row - 8, words, items.len());
    assert forall|i: int| 0 <= i < items.len() implies made.memory[made.args[2] + 8 * i]
        == standing_operand(b.types, m, file, #[trigger] items[i]) by {
        lemma_plain_operand(b, b2, file, m, k, items[i]);
        assert(filled(k.memory, row - 8, words, items.len())[row - 8 + 8 * (i + 1)] == words[i]);
    }
}

#[verifier::rlimit(40)]
proof fn lemma_put_map(
    b: LoweringView,
    context: FunctionContext,
    blocks: BlockMapView,
    metadata: MetadataView,
    index: usize,
    instructions: Seq<InstructionView>,
    op: MapOp,
    fail: OperandView,
    source: OperandView,
    destination: OperandView,
    live: OperandView,
    items: Seq<OperandView>,
    helper: Helper,
    m: Machine,
)
    requires
        is_set_up(b, context, blocks, m),
        b.ops.len() + 3 * b.types.len() + 10 * items.len() + 1000 <= usize::MAX,
        rows_are_apart(m, context.register_file, items.len()),
        instructions[index as int] == (InstructionView::MapOp {
            op,
            operands: seq![fail, source, destination, live, OperandView::List(items)],
        }),
        op is PutMapAssoc && helper is MapNew || op is PutMapExact && helper is MapUpdate,
        lower_instruction_ir(b, context, blocks, metadata, index, instructions) is Ok,
        operand_block_of(blocks, fail) matches Ok(block) ==> block < b.ops.len(),
    ensures
        puts_map(
            b,
            context,
            blocks,
            lower_instruction_ir(b, context, blocks, metadata, index, instructions),
            fail,
            source,
            destination,
            items,
            helper,
            m,
        ),
{
    let file = context.register_file;
    let from = b.ops.len() as int;
    let start = Flow::Running(m);
    let base = m.values[file];
    let operands = seq![fail, source, destination, live, OperandView::List(items)];
    lemma_map_dispatched(b, context, blocks, metadata, index, instructions, op, operands);
    lemma_put_map_lowered(
        b,
        context,
        blocks,
        index,
        op,
        fail,
        source,
        destination,
        live,
        items,
        helper,
    );
    let roots = items.push(source).push(destination);
    let b0 = LoweringView { maps: with_site(b.maps, index, roots)->Ok_0, ..b };
    lemma_stored_nothing(b0, file, m);
    lemma_materialize_operand(b0, b0, file, source, m, m);
    let b1 = materialize_operand_ir(b0, file, source);
    let k1 = does(b1, from, start)->Running_0;
    lemma_materialize_operands(b0, b1, file, items, items.len(), m, k1);
    let (b2, r) = put_map_ir(b0, context, blocks, fail, source, destination, items, helper);
    let put = r->Ok_0;
    let k = does(b2, from, start)->Running_0;
    let fail_block = operand_block_of(blocks, fail)->Ok_0;
    let c = MapLoweringContext { register_file: file, process: context.process };
    let row_at = (b2.ops.len() + 1) as Value;
    assert(k.slots == m.slots);
    assert(k.values[file] == base);
    assert(apart_from_registers(base, m.slots[row_at] as int, items.len()));
    law_map_is_made(b2, c, helper, source, destination, items, fail_block, k);
    lemma_put_map_goes_on(b2, c, helper, source, destination, items, fail_block);
    lemma_then(b2, put, from, start);
    let after = clear_operand_ir(put, destination);
    assert(after.ops == put.ops);
    let end = does(after, from, start);
    assert(end == does(put, from, start));
    assert(is_plain(b2.types, source));
    let n = match end {
        Flow::Running(n) => n,
        end => end->Left_1,
    };
    lemma_asked_for_map(b0, b2, context, m, k, helper, source, items, m.slots[row_at], n);
    assert(asked_for_map(b, context, m, helper, source, items, n));
    let register = register_operand_of(destination)->Ok_0;
    law_types_are_per_register(put.types, register, TypeView::Int, register);
}

/// Whether an instruction asks for a map by a helper, and stores what it is given; the
/// code leaves for `fail` when it is given none. Of the destination nothing is known
/// afterwards.
pub open spec fn puts_map(
    b: LoweringView,
    context: FunctionContext,
    blocks: BlockMapView,
    r: Result<(bool, LoweringView), JitFault>,
    fail: OperandView,
    source: OperandView,
    destination: OperandView,
    items: Seq<OperandView>,
    helper: Helper,
    m: Machine,
) -> bool {
    let (ended, after) = r->Ok_0;
    let answer = next_answer(m);
    let place = register_address(
        m.values[context.register_file],
        register_operand_of(destination)->Ok_0,
    );
    &&& !ended
    &&& register_operand_of(destination) is Ok
    &&& known(after.types, register_operand_of(destination)->Ok_0) is None
    &&& operand_block_of(blocks, fail) is Ok
    &&& match does(after, b.ops.len() as int, Flow::Running(m)) {
        Flow::Running(n) => answer.first != 0 && n.memory == answer.memory.insert(
            place,
            answer.first,
        ) && asked_for_map(b, context, m, helper, source, items, n),
        Flow::Left(block, n) => answer.first == 0 && n.memory == answer.memory && block
            == operand_block_of(blocks, fail)->Ok_0 && asked_for_map(
            b,
            context,
            m,
            helper,
            source,
            items,
            n,
        ),
        _ => false,
    }
}

/// Adding to a map asks for one with the given keys and values, in which the keys may
/// be new: there is one whatever the old map holds.
pub proof fn law_put_map_assoc_takes_new_keys(
    b: LoweringView,
    context: FunctionContext,
    blocks: BlockMapView,
    metadata: MetadataView,
    index: usize,
    instructions: Seq<InstructionView>,
    fail: OperandView,
    source: OperandView,
    destination: OperandView,
    live: OperandView,
    items: Seq<OperandView>,
    m: Machine,
)
    requires
        is_set_up(b, context, blocks, m),
        b.ops.len() + 3 * b.types.len() + 10 * items.len() + 1000 <= usize::MAX,
        rows_are_apart(m, context.register_file, items.len()),
        instructions[index as int] == (InstructionView::MapOp {
            op: MapOp::PutMapAssoc,
            operands: seq![fail, source, destination, live, OperandView::List(items)],
        }),
        lower_instruction_ir(b, context, blocks, metadata, index, instructions) is Ok,
        operand_block_of(blocks, fail) matches Ok(block) ==> block < b.ops.len(),
    ensures
        puts_map(
            b,
            context,
            blocks,
            lower_instruction_ir(b, context, blocks, metadata, index, instructions),
            fail,
            source,
            destination,
            items,
            Helper::MapNew,
            m,
        ),
        forall|old: Seq<(u64, u64)>, updates: Seq<(u64, u64)>, made: Option<Seq<(u64, u64)>>|
            #[trigger] is_answered(Helper::MapNew, old, updates, made) ==> made is Some
                && map_made(false, old, updates, made),
{
    lemma_put_map(
        b,
        context,
        blocks,
        metadata,
        index,
        instructions,
        MapOp::PutMapAssoc,
        fail,
        source,
        destination,
        live,
        items,
        Helper::MapNew,
        m,
    );
}

/// Updating a map asks for one with the given keys and values, in which the keys must
/// be there: there is none when the old map lacks one of them.
pub proof fn law_put_map_exact_refuses_new_keys(
    b: LoweringView,
    context: FunctionContext,
    blocks: BlockMapView,
    metadata: MetadataView,
    index: usize,
    instructions: Seq<InstructionView>,
    fail: OperandView,
    source: OperandView,
    destination: OperandView,
    live: OperandView,
    items: Seq<OperandView>,
    m: Machine,
)
    requires
        is_set_up(b, context, blocks, m),
        b.ops.len() + 3 * b.types.len() + 10 * items.len() + 1000 <= usize::MAX,
        rows_are_apart(m, context.register_file, items.len()),
        instructions[index as int] == (InstructionView::MapOp {
            op: MapOp::PutMapExact,
            operands: seq![fail, source, destination, live, OperandView::List(items)],
        }),
        lower_instruction_ir(b, context, blocks, metadata, index, instructions) is Ok,
        operand_block_of(blocks, fail) matches Ok(block) ==> block < b.ops.len(),
    ensures
        puts_map(
            b,
            context,
            blocks,
            lower_instruction_ir(b, context, blocks, metadata, index, instructions),
            fail,
            source,
            destination,
            items,
            Helper::MapUpdate,
            m,
        ),
        forall|old: Seq<(u64, u64)>, updates: Seq<(u64, u64)>, made: Option<Seq<(u64, u64)>>|
            #[trigger] is_answered(Helper::MapUpdate, old, updates, made) ==> map_made(
                true,
                old,
                updates,
                made,
            ) && (made is Some <==> forall|i: int|
                0 <= i < updates.len() ==> value_at(
                    old,
                    (#[trigger] updates[i]).0,
                ) is Some),
{
    lemma_put_map(
        b,
        context,
        blocks,
        metadata,
        index,
        instructions,
        MapOp::PutMapExact,
        fail,
        source,
        destination,
        live,
        items,
        Helper::MapUpdate,
        m,
    );
}

/// Whether a machine is as another but that the operands hold the terms that they
/// stood for.
pub open spec fn holds_operands(
    b: LoweringView,
    register_file: Value,
    m: Machine,
    operands: Seq<OperandView>,
    k: Machine,
) -> bool {
    &&& only_stored(m, k, b.ops.len() as int)
    &&& forall|i: int|
        0 <= i < operands.len() && (is_register_of(operands[i])
            ==> register_operand_of(operands[i]) is Ok) ==> operand_value(
            k,
            register_file,
            #[trigger] operands[i],
        ) == standing_operand(b.types, m, register_file, operands[i])
}

/// The keys of pairs.
pub open spec fn keys_of(items: Seq<OperandView>) -> Seq<OperandView> {
    Seq::new(items.len() / 2, |i: int| items[2 * i])
}

proof fn lemma_materialize_keys(
    b: LoweringView,
    before: LoweringView,
    register_file: Value,
    items: Seq<OperandView>,
    n: nat,
    m: Machine,
    l: Machine,
)
    requires
        2 * n <= items.len(),
        before.ops.len() + 3 * n <= usize::MAX,
        register_file < b.ops.len(),
        stored_terms(b, before, register_file, m, l),
    ensures
        ({
            let after = materialize_keys_ir(before, register_file, items, n);
            let end = does(after, b.ops.len() as int, Flow::Running(m));
            &&& after.ops.len() <= before.ops.len() + 3 * n
            &&& forall|i: int| 0 <= i < n ==> is_plain(after.types, #[trigger] keys_of(items)[i])
            &&& stay_plain(before.types, after.types)
            &&& end is Running
            &&& stored_terms(b, after, register_file, m, end->Running_0)
        }),
    decreases n,
{
    if n > 0 {
        let less = (n - 1) as nat;
        lemma_materialize_keys(b, before, register_file, items, less, m, l);
        let b1 = materialize_keys_ir(before, register_file, items, less);
        let k = does(b1, b.ops.len() as int, Flow::Running(m))->Running_0;
        lemma_materialize_operand(b, b1, register_file, items[2 * n - 2], m, k);
        let after = materialize_keys_ir(before, register_file, items, n);
        assert forall|other: OperandView| is_plain(before.types, other) implies #[trigger] is_plain(
            after.types,
            other,
        ) by {
            assert(is_plain(b1.types, other));
        }
        assert forall|i: int| 0 <= i < n implies is_plain(
            after.types,
            #[trigger] keys_of(items)[i],
        ) by {
            if i < less {
                assert(is_plain(b1.types, keys_of(items)[i]));
            } else {
                assert(keys_of(items)[i] == items[2 * n - 2]);
            }
        }
    }
}

proof fn lemma_elements_go_on(
    b: LoweringView,
    context: MapLoweringContext,
    map: Value,
    items: Seq<OperandView>,
    fail: Block,
    n: nat,
)
    requires
        2 * n <= items.len(),
        get_elements_ir(b, context, map, items, fail, n) is Ok,
    ensures
        goes_on(b, get_elements_ir(b, context, map, items, fail, n)->Ok_0),
        get_elements_ir(b, context, map, items, fail, n)->Ok_0.types == b.types,
    decreases n,
{
    if n > 0 {
        lemma_elements_go_on(b, context, map, items, fail, (n - 1) as nat);
        let b1 = get_elements_ir(b, context, map, items, fail, (n - 1) as nat)->Ok_0;
        let after = get_elements_ir(b, context, map, items, fail, n)->Ok_0;
        assert(goes_on(b1, after));
    }
}

proof fn lemma_fields_go_on(
    b: LoweringView,
    context: MapLoweringContext,
    map: Value,
    items: Seq<OperandView>,
    fail: Block,
    n: nat,
)
    requires
        n <= items.len(),
        has_fields_ir(b, context, map, items, fail, n) is Ok,
    ensures
        goes_on(b, has_fields_ir(b, context, map, items, fail, n)->Ok_0),
        has_fields_ir(b, context, map, items, fail, n)->Ok_0.types == b.types,
    decreases n,
{
    if n > 0 {
        lemma_fields_go_on(b, context, map, items, fail, (n - 1) as nat);
        let b1 = has_fields_ir(b, context, map, items, fail, (n - 1) as nat)->Ok_0;
        let after = has_fields_ir(b, context, map, items, fail, n)->Ok_0;
        assert(goes_on(b1, after));
    }
}

proof fn lemma_values_are_cleared(b: LoweringView, items: Seq<OperandView>, n: nat)
    requires
        2 * n <= items.len(),
    ensures
        ({
            let after = clear_values_ir(b, items, n);
            &&& after.ops == b.ops
            &&& forall|i: int| 0 <= i < n ==> is_plain(after.types, #[trigger] items[2 * i + 1])
        }),
    decreases n,
{
    if n > 0 {
        let less = (n - 1) as nat;
        lemma_values_are_cleared(b, items, less);
        let b1 = clear_values_ir(b, items, less);
        let after = clear_values_ir(b, items, n);
        assert forall|i: int| 0 <= i < n implies is_plain(
            after.types,
            #[trigger] items[2 * i + 1],
        ) by {
            if i < less {
                assert(is_plain(b1.types, items[2 * i + 1]));
            }
            if let Ok(cleared) = register_operand_of(items[2 * n - 1]) {
                if let Ok(r) = register_operand_of(items[2 * i + 1]) {
                    law_types_are_per_register(b1.types, cleared, TypeView::Int, r);
                    law_types_are_per_register(b1.types, cleared, TypeView::Int, cleared);
                }
            }
        }
    }
}

proof fn lemma_get_map_lowered(
    b: LoweringView,
    context: FunctionContext,
    blocks: BlockMapView,
    index: usize,
    fail: OperandView,
    source: OperandView,
    items: Seq<OperandView>,
)
    requires
        lower_map_instruction_ir(
            b,
            context,
            blocks,
            index,
            MapOp::GetMapElements,
            seq![fail, source, OperandView::List(items)],
        ) is Ok,
    ensures
        ({
            let file = context.register_file;
            let b1 = materialize_operand_ir(b, file, source);
            let b2 = materialize_keys_ir(b1, file, items, items.len() / 2);
            let c = MapLoweringContext { register_file: file, process: context.process };
            let got = translate_get_map_elements_ir(
                b2,
                c,
                source,
                items,
                operand_block_of(blocks, fail)->Ok_0,
            );
            &&& operand_block_of(blocks, fail) is Ok
            &&& items.len() % 2 == 0
            &&& got is Ok
            &&& lower_map_instruction_ir(
                b,
                context,
                blocks,
                index,
                MapOp::GetMapElements,
                seq![fail, source, OperandView::List(items)],
            ) == Ok::<(bool, LoweringView), JitFault>((false, clear_values_ir(got->Ok_0, items, items.len() / 2)))
        }),
{
}

/// Reading elements of a map asks it for each key in turn by the term of the key, and
/// puts what is found in the register behind the key, of which nothing is known
/// afterwards. The first key that it lacks makes the code leave for `fail`.
#[verifier::rlimit(40)]
pub proof fn law_get_map_elements_reads_each_key(
    b: LoweringView,
    context: FunctionContext,
    blocks: BlockMapView,
    metadata: MetadataView,
    index: usize,
    instructions: Seq<InstructionView>,
    fail: OperandView,
    source: OperandView,
    items: Seq<OperandView>,
    m: Machine,
)
    requires
        is_set_up(b, context, blocks, m),
        b.ops.len() + 3 * b.types.len() + 20 * items.len() + 1000 <= usize::MAX,
        instructions[index as int] == (InstructionView::MapOp {
            op: MapOp::GetMapElements,
            operands: seq![fail, source, OperandView::List(items)],
        }),
        lower_instruction_ir(b, context, blocks, metadata, index, instructions) is Ok,
        operand_block_of(blocks, fail) matches Ok(block) ==> block < b.ops.len(),
    ensures
        ({
            let (ended, after) = lower_instruction_ir(
                b,
                context,
                blocks,
                metadata,
                index,
                instructions,
            )->Ok_0;
            let file = context.register_file;
            let map = standing_operand(b.types, m, file, source);
            &&& !ended
            &&& operand_block_of(blocks, fail) is Ok
            &&& forall|i: int|
                0 <= 2 * i < items.len() ==> is_plain(after.types, #[trigger] items[2 * i + 1])
            &&& exists|k: Machine| #[trigger]
                holds_operands(b, file, m, keys_of(items), k) && ends(
                    does(after, b.ops.len() as int, Flow::Running(m)),
                    taken(k, file, map, items, items.len() / 2).0,
                    taken(k, file, map, items, items.len() / 2).1,
                    operand_block_of(blocks, fail)->Ok_0,
                )
        }),
{
    let file = context.register_file;
    let from = b.ops.len() as int;
    let start = Flow::Running(m);
    let operands = seq![fail, source, OperandView::List(items)];
    lemma_map_dispatched(
        b,
        context,
        blocks,
        metadata,
        index,
        instructions,
        MapOp::GetMapElements,
        operands,
    );
    lemma_get_map_lowered(b, context, blocks, index, fail, source, items);
    lemma_stored_nothing(b, file, m);
    lemma_materialize_operand(b, b, file, source, m, m);
    let b1 = materialize_operand_ir(b, file, source);
    let k1 = does(b1, from, start)->Running_0;
    let half = items.len() / 2;
    assert(items.len() % 2 == 0);
    lemma_materialize_keys(b, b1, file, items, half, m, k1);
    let b2 = materialize_keys_ir(b1, file, items, half);
    let k = does(b2, from, start)->Running_0;
    let fail_block = operand_block_of(blocks, fail)->Ok_0;
    let c = MapLoweringContext { register_file: file, process: context.process };
    let got = translate_get_map_elements_ir(b2, c, source, items, fail_block)->Ok_0;
    law_elements_are_taken(b2, c, source, items, fail_block, k);
    let (map, c1) = read_operand_term_ir(b2, file, source)->Ok_0;
    lemma_elements_go_on(c1, c, map, items, fail_block, half);
    assert(goes_on(b2, c1));
    assert(goes_on(b2, got));
    lemma_then(b2, got, from, start);
    lemma_values_are_cleared(got, items, half);
    assert(is_plain(b2.types, source));
    lemma_plain_operand(b, b2, file, m, k, source);
    let keys = keys_of(items);
    assert forall|i: int|
        0 <= i < keys.len() && (is_register_of(keys[i]) ==> register_operand_of(
            keys[i],
        ) is Ok) implies operand_value(k, file, #[trigger] keys[i])
        == standing_operand(b.types, m, file, keys[i]) by {
        lemma_plain_operand(b, b2, file, m, k, keys[i]);
    }
    assert(holds_operands(b, file, m, keys, k));
}

proof fn lemma_has_map_lowered(
    b: LoweringView,
    context: FunctionContext,
    blocks: BlockMapView,
    index: usize,
    fail: OperandView,
    source: OperandView,
    items: Seq<OperandView>,
)
    requires
        lower_map_instruction_ir(
            b,
            context,
            blocks,
            index,
            MapOp::HasMapFields,
            seq![fail, source, OperandView::List(items)],
        ) is Ok,
    ensures
        ({
            let file = context.register_file;
            let b1 = materialize_operand_ir(b, file, source);
            let b2 = materialize_operands_ir(b1, file, items, items.len());
            let c = MapLoweringContext { register_file: file, process: context.process };
            let got = translate_has_map_fields_ir(
                b2,
                c,
                source,
                items,
                operand_block_of(blocks, fail)->Ok_0,
            );
            &&& operand_block_of(blocks, fail) is Ok
            &&& got is Ok
            &&& lower_map_instruction_ir(
                b,
                context,
                blocks,
                index,
                MapOp::HasMapFields,
                seq![fail, source, OperandView::List(items)],
            ) == Ok::<(bool, LoweringView), JitFault>((false, got->Ok_0))
        }),
{
}

/// Testing for keys asks the map for each in turn by the term of the key, and stores
/// nothing. The first key that it lacks makes the code leave for `fail`.
#[verifier::rlimit(40)]
pub proof fn law_has_map_fields_asks_for_each_key(
    b: LoweringView,
    context: FunctionContext,
    blocks: BlockMapView,
    metadata: MetadataView,
    index: usize,
    instructions: Seq<InstructionView>,
    fail: OperandView,
    source: OperandView,
    items: Seq<OperandView>,
    m: Machine,
)
    requires
        is_set_up(b, context, blocks, m),
        b.ops.len() + 3 * b.types.len() + 20 * items.len() + 1000 <= usize::MAX,
        instructions[index as int] == (InstructionView::MapOp {
            op: MapOp::HasMapFields,
            operands: seq![fail, source, OperandView::List(items)],
        }),
        lower_instruction_ir(b, context, blocks, metadata, index, instructions) is Ok,
        operand_block_of(blocks, fail) matches Ok(block) ==> block < b.ops.len(),
    ensures
        ({
            let (ended, after) = lower_instruction_ir(
                b,
                context,
                blocks,
                metadata,
                index,
                instructions,
            )->Ok_0;
            let file = context.register_file;
            let map = standing_operand(b.types, m, file, source);
            &&& !ended
            &&& operand_block_of(blocks, fail) is Ok
            &&& exists|k: Machine| #[trigger]
                holds_operands(b, file, m, items, k) && ends(
                    does(after, b.ops.len() as int, Flow::Running(m)),
                    sought(k, file, map, items, items.len()).0,
                    sought(k, file, map, items, items.len()).1,
                    operand_block_of(blocks, fail)->Ok_0,
                )
        }),
{
    let file = context.register_file;
    let from = b.ops.len() as int;
    let start = Flow::Running(m);
    let operands = seq![fail, source, OperandView::List(items)];
    lemma_map_dispatched(
        b,
        context,
        blocks,
        metadata,
        index,
        instructions,
        MapOp::HasMapFields,
        operands,
    );
    lemma_has_map_lowered(b, context, blocks, index, fail, source, items);
    lemma_stored_nothing(b, file, m);
    lemma_materialize_operand(b, b, file, source, m, m);
    let b1 = materialize_operand_ir(b, file, source);
    let k1 = does(b1, from, start)->Running_0;
    lemma_materialize_operands(b, b1, file, items, items.len(), m, k1);
    let b2 = materialize_operands_ir(b1, file, items, items.len());
    let k = does(b2, from, start)->Running_0;
    let fail_block = operand_block_of(blocks, fail)->Ok_0;
    let c = MapLoweringContext { register_file: file, process: context.process };
    let got = translate_has_map_fields_ir(b2, c, source, items, fail_block)->Ok_0;
    law_keys_are_sought(b2, c, source, items, fail_block, k);
    let (map, c1) = read_operand_term_ir(b2, file, source)->Ok_0;
    lemma_fields_go_on(c1, c, map, items, fail_block, items.len());
    assert(goes_on(b2, c1));
    assert(goes_on(b2, got));
    lemma_then(b2, got, from, start);
    assert(is_plain(b2.types, source));
    lemma_plain_operand(b, b2, file, m, k, source);
    assert forall|i: int|
        0 <= i < items.len() && (is_register_of(items[i]) ==> register_operand_of(
            items[i],
        ) is Ok) implies operand_value(k, file, #[trigger] items[i])
        == standing_operand(b.types, m, file, items[i]) by {
        lemma_plain_operand(b, b2, file, m, k, items[i]);
    }
    assert(holds_operands(b, file, m, items, k));
}

} // verus!

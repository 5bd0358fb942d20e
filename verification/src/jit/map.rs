//! Lowering maps.

use vstd::prelude::*;
use crate::loader::decode::compact::{
    copy_operands, lemma_operand_list_view, lemma_operand_views_push, operand_views, Operand,
    OperandView,
};
use super::allocation::MAX_OFFSET;
use super::common::{
    branch_if_null, branch_if_null_ir, read_operand_term, read_operand_term_ir, write_operand_term,
    write_operand_term_ir,
};
use super::error::{
    number_error, number_fault, operands_error, operands_fault, JitError, JitFault,
};
use super::helper::{Helper, IrType};
use super::ir::{lowered, Args, Block, IrOp, Lowering, LoweringView, Value};

verus! {

/// The values that the lowering of maps needs.
#[derive(Debug, Clone, Copy, PartialEq, Eq, Structural)]
pub struct MapLoweringContext {
    pub register_file: Value,
    pub process: Value,
}

/// The operands of a map instruction.
#[derive(Debug, Clone, Copy)]
pub struct MapOperands<'a> {
    pub fail: &'a Operand,
    pub source: &'a Operand,
    /// Where a new map goes; the source where the instruction makes none.
    pub destination: &'a Operand,
    /// Keys and values in turn, or keys.
    pub items: &'a Vec<Operand>,
}

/// A [`MapOperands`] with views in place of its operands.
#[verifier::ext_equal]
pub struct MapOperandsView {
    pub fail: OperandView,
    pub source: OperandView,
    pub destination: OperandView,
    pub items: Seq<OperandView>,
}

impl<'a> View for MapOperands<'a> {
    type V = MapOperandsView;

    open spec fn view(&self) -> MapOperandsView {
        MapOperandsView {
            fail: self.fail.view(),
            source: self.source.view(),
            destination: self.destination.view(),
            items: operand_views(self.items@),
        }
    }
}

/// What reading the operands of a map instruction answers.
pub open spec fn map_operands_outcome(r: Result<MapOperands, JitError>) -> Result<
    MapOperandsView,
    JitFault,
> {
    match r {
        Ok(parsed) => Ok(parsed@),
        Err(e) => Err(e@),
    }
}

/// The operands of an instruction that makes a map: where to go when it fails,
/// the old map, the destination, how many registers are live, and keys and
/// values in turn.
pub open spec fn parse_put_map_operands_of(operands: Seq<OperandView>) -> Result<
    MapOperandsView,
    JitFault,
> {
    if operands.len() == 5 && operands[4] is List && operands[4]->List_0.len() % 2 == 0 {
        Ok(
            MapOperandsView {
                fail: operands[0],
                source: operands[1],
                destination: operands[2],
                items: operands[4]->List_0,
            },
        )
    } else {
        Err(operands_fault("put_map operands "@, operands))
    }
}

/// Reads the operands of an instruction that makes a map.
pub fn parse_put_map_operands<'a>(operands: &'a Vec<Operand>) -> (r: Result<
    MapOperands<'a>,
    JitError,
>)
    ensures
        map_operands_outcome(r) == parse_put_map_operands_of(operand_views(operands@)),
{
    if operands.len() == 5 {
        match &operands[4] {
            Operand::List(items) => {
                proof {
                    lemma_operand_list_view(*items);
                }
                if items.len() % 2 == 0 {
                    return Ok(
                        MapOperands {
                            fail: &operands[0],
                            source: &operands[1],
                            destination: &operands[2],
                            items,
                        },
                    );
                }
            },
            _ => {},
        }
    }
    Err(operands_error("put_map operands ", operands))
}

/// The operands of an instruction that reads a map: where to go when it fails,
/// the map, and the items.
pub open spec fn parse_read_map_operands_of(
    operands: Seq<OperandView>,
    pairs: bool,
    context: Seq<char>,
) -> Result<MapOperandsView, JitFault> {
    if operands.len() == 3 && operands[2] is List && (pairs ==> operands[2]->List_0.len() % 2
        == 0) {
        Ok(
            MapOperandsView {
                fail: operands[0],
                source: operands[1],
                destination: operands[1],
                items: operands[2]->List_0,
            },
        )
    } else {
        Err(operands_fault(context, operands))
    }
}

fn parse_read_map_operands<'a>(operands: &'a Vec<Operand>, pairs: bool, context: &str) -> (r:
    Result<MapOperands<'a>, JitError>)
    ensures
        map_operands_outcome(r) == parse_read_map_operands_of(
            operand_views(operands@),
            pairs,
            context@,
        ),
{
    if operands.len() == 3 {
        match &operands[2] {
            Operand::List(items) => {
                proof {
                    lemma_operand_list_view(*items);
                }
                if !pairs || items.len() % 2 == 0 {
                    return Ok(
                        MapOperands {
                            fail: &operands[0],
                            source: &operands[1],
                            destination: &operands[1],
                            items,
                        },
                    );
                }
            },
            _ => {},
        }
    }
    Err(operands_error(context, operands))
}

/// The operands of an instruction that reads elements of a map.
pub open spec fn parse_get_map_elements_operands_of(operands: Seq<OperandView>) -> Result<
    MapOperandsView,
    JitFault,
> {
    parse_read_map_operands_of(operands, true, "get_map_elements operands "@)
}

/// Reads the operands of an instruction that reads elements of a map.
pub fn parse_get_map_elements_operands<'a>(operands: &'a Vec<Operand>) -> (r: Result<
    MapOperands<'a>,
    JitError,
>)
    ensures
        map_operands_outcome(r) == parse_get_map_elements_operands_of(operand_views(operands@)),
{
    parse_read_map_operands(operands, true, "get_map_elements operands ")
}

/// The operands of an instruction that tests for keys of a map.
pub open spec fn parse_has_map_fields_operands_of(operands: Seq<OperandView>) -> Result<
    MapOperandsView,
    JitFault,
> {
    parse_read_map_operands_of(operands, false, "has_map_fields operands "@)
}

/// Reads the operands of an instruction that tests for keys of a map.
pub fn parse_has_map_fields_operands<'a>(operands: &'a Vec<Operand>) -> (r: Result<
    MapOperands<'a>,
    JitError,
>)
    ensures
        map_operands_outcome(r) == parse_has_map_fields_operands_of(operand_views(operands@)),
{
    parse_read_map_operands(operands, false, "has_map_fields operands ")
}

/// What is live while a map is made: its keys and values, the old map and the
/// destination.
pub open spec fn map_allocation_roots_of(operands: Seq<OperandView>) -> Result<
    Seq<OperandView>,
    JitFault,
> {
    match parse_put_map_operands_of(operands) {
        Err(e) => Err(e),
        Ok(parsed) => Ok(parsed.items.push(parsed.source).push(parsed.destination)),
    }
}

/// What is live while a map is made.
pub fn map_allocation_roots(operands: &Vec<Operand>) -> (r: Result<Vec<Operand>, JitError>)
    ensures
        match r {
            Ok(roots) => map_allocation_roots_of(operand_views(operands@)) == Ok::<
                Seq<OperandView>,
                JitFault,
            >(operand_views(roots@)),
            Err(e) => map_allocation_roots_of(operand_views(operands@)) == Err::<
                Seq<OperandView>,
                JitFault,
            >(e@),
        },
{
    let parsed = parse_put_map_operands(operands)?;
    let mut roots: Vec<Operand> = copy_operands(parsed.items);
    let source = parsed.source.clone();
    let destination = parsed.destination.clone();
    proof {
        lemma_operand_views_push(roots@, source);
        lemma_operand_views_push(roots@.push(source), destination);
    }
    roots.push(source);
    roots.push(destination);
    Ok(roots)
}

/// Stores the first `n` operands in a row.
pub open spec fn store_pairs_ir(
    b: LoweringView,
    register_file: Value,
    slot: Value,
    items: Seq<OperandView>,
    n: nat,
) -> Result<LoweringView, JitFault>
    decreases n,
{
    if n == 0 {
        Ok(b)
    } else {
        match store_pairs_ir(b, register_file, slot, items, (n - 1) as nat) {
            Err(e) => Err(e),
            Ok(b) => match read_operand_term_ir(b, register_file, items[n - 1]) {
                Err(e) => Err(e),
                Ok((value, b)) => Ok(
                    b.emit(IrOp::Store { value, base: slot, offset: (8 * (n - 1)) as i64 }).1,
                ),
            },
        }
    }
}

proof fn lemma_store_fails(
    b: LoweringView,
    register_file: Value,
    slot: Value,
    items: Seq<OperandView>,
    n: nat,
)
    requires
        n <= items.len(),
    ensures
        store_pairs_ir(b, register_file, slot, items, n) matches Err(e) ==> store_pairs_ir(
            b,
            register_file,
            slot,
            items,
            items.len(),
        ) == Err::<LoweringView, JitFault>(e),
    decreases items.len() - n,
{
    if n < items.len() {
        lemma_store_fails(b, register_file, slot, items, n + 1);
    }
}

fn store_pairs(b: &mut Lowering, register_file: Value, slot: Value, items: &Vec<Operand>) -> (r:
    Result<(), JitError>)
    requires
        8 * items@.len() <= MAX_OFFSET,
    ensures
        lowered(r, final(b)@) == store_pairs_ir(
            old(b)@,
            register_file,
            slot,
            operand_views(items@),
            items@.len(),
        ),
{
    let ghost views = operand_views(items@);
    let mut i: usize = 0;
    while i < items.len()
        invariant
            i <= items@.len(),
            8 * items@.len() <= MAX_OFFSET,
            views == operand_views(items@),
            store_pairs_ir(old(b)@, register_file, slot, views, i as nat) == Ok::<
                LoweringView,
                JitFault,
            >(b@),
        decreases items@.len() - i,
    {
        proof {
            lemma_store_fails(old(b)@, register_file, slot, views, (i + 1) as nat);
        }
        let value = read_operand_term(b, register_file, &items[i])?;
        b.emit(IrOp::Store { value, base: slot, offset: (8 * i) as i64 });
        i += 1;
    }
    Ok(())
}

/// What [`translate_put_map`] makes of a lowering.
pub open spec fn translate_put_map_ir(
    b: LoweringView,
    context: MapLoweringContext,
    helper: Helper,
    source: OperandView,
    destination: OperandView,
    items: Seq<OperandView>,
    fail: Block,
) -> Result<LoweringView, JitFault> {
    if items.len() > MAX_OFFSET / 8 {
        Err(number_fault("put_map pairs "@, items.len() as u64))
    } else {
        match read_operand_term_ir(b, context.register_file, source) {
            Err(e) => Err(e),
            Ok((old_map, b)) => {
                let (slot, b) = b.emit(IrOp::StackSlot { words: items.len()as usize });
                match store_pairs_ir(b, context.register_file, slot, items, items.len()) {
                    Err(e) => Err(e),
                    Ok(b) => {
                        let (count, b) = b.emit(IrOp::Iconst { ty: IrType::I64, value: (items.len() / 2) as i64 });
                        let (call, b) = b.emit(IrOp::Call { helper, args: Args::Four(context.process, old_map, slot, count) });
                        let (made, b) = b.emit(IrOp::Result { of: call, index: 0 });
                        let b = branch_if_null_ir(b, made, fail);
                        write_operand_term_ir(b, context.register_file, destination, made)
                    },
                }
            },
        }
    }
}

/// Makes a map of an old one and of keys and values, by a runtime function;
/// goes to `fail` when it makes none.
pub fn translate_put_map(
    b: &mut Lowering,
    context: MapLoweringContext,
    helper: Helper,
    source: &Operand,
    destination: &Operand,
    items: &Vec<Operand>,
    fail: Block,
) -> (r: Result<(), JitError>)
    ensures
        lowered(r, final(b)@) == translate_put_map_ir(old(b)@, context, helper, source.view(), destination.view(), operand_views(items@), fail),
{
    if items.len() > MAX_OFFSET / 8 {
        return Err(number_error("put_map pairs ", items.len() as u64));
    }
    let old_map = read_operand_term(b, context.register_file, source)?;
    let slot = b.emit(IrOp::StackSlot { words: items.len() });
    store_pairs(b, context.register_file, slot, items)?;
    let count = b.emit(IrOp::Iconst { ty: IrType::I64, value: (items.len() / 2) as i64 });
    let call = b.emit(IrOp::Call { helper, args: Args::Four(context.process, old_map, slot, count) });
    let made = b.emit(IrOp::Result { of: call, index: 0 });
    branch_if_null(b, made, fail);
    write_operand_term(b, context.register_file, destination, made)
}

/// What [`get_map_element`] makes of a lowering.
pub open spec fn get_map_element_ir(
    b: LoweringView,
    context: MapLoweringContext,
    map: Value,
    key: OperandView,
    destination: OperandView,
    fail: Block,
) -> Result<LoweringView, JitFault> {
    match read_operand_term_ir(b, context.register_file, key) {
        Err(e) => Err(e),
        Ok((key_term, b)) => {
            let (call, b) = b.emit(IrOp::Call { helper: Helper::MapGet, args: Args::Two(map, key_term) });
            let (found, b) = b.emit(IrOp::Result { of: call, index: 0 });
            let (value, b) = b.emit(IrOp::Result { of: call, index: 1 });
            let b = branch_if_null_ir(b, found, fail);
            write_operand_term_ir(b, context.register_file, destination, value)
        },
    }
}

/// Reads one element of a map; goes to `fail` when it has none of that key.
fn get_map_element(
    b: &mut Lowering,
    context: MapLoweringContext,
    map: Value,
    key: &Operand,
    destination: &Operand,
    fail: Block,
) -> (r: Result<(), JitError>)
    ensures
        lowered(r, final(b)@) == get_map_element_ir(old(b)@, context, map, key.view(), destination.view(), fail),
{
    let key_term = read_operand_term(b, context.register_file, key)?;
    let call = b.emit(IrOp::Call { helper: Helper::MapGet, args: Args::Two(map, key_term) });
    let found = b.emit(IrOp::Result { of: call, index: 0 });
    let value = b.emit(IrOp::Result { of: call, index: 1 });
    branch_if_null(b, found, fail);
    write_operand_term(b, context.register_file, destination, value)
}

/// Reads the first `n` elements.
pub open spec fn get_elements_ir(
    b: LoweringView,
    context: MapLoweringContext,
    map: Value,
    items: Seq<OperandView>,
    fail: Block,
    n: nat,
) -> Result<LoweringView, JitFault>
    decreases n,
{
    if n == 0 {
        Ok(b)
    } else {
        match get_elements_ir(b, context, map, items, fail, (n - 1) as nat) {
            Err(e) => Err(e),
            Ok(b) => get_map_element_ir(b, context, map, items[2 * n - 2], items[2 * n - 1], fail),
        }
    }
}

proof fn lemma_get_fails(
    b: LoweringView,
    context: MapLoweringContext,
    map: Value,
    items: Seq<OperandView>,
    fail: Block,
    n: nat,
)
    requires
        n <= items.len() / 2,
    ensures
        get_elements_ir(b, context, map, items, fail, n) matches Err(e) ==> get_elements_ir(
            b,
            context,
            map,
            items,
            fail,
            items.len() / 2,
        ) == Err::<LoweringView, JitFault>(e),
    decreases items.len() / 2 - n,
{
    if n < items.len() / 2 {
        lemma_get_fails(b, context, map, items, fail, n + 1);
    }
}

fn get_elements(
    b: &mut Lowering,
    context: MapLoweringContext,
    map: Value,
    items: &Vec<Operand>,
    fail: Block,
) -> (r: Result<(), JitError>)
    ensures
        lowered(r, final(b)@) == get_elements_ir(
            old(b)@,
            context,
            map,
            operand_views(items@),
            fail,
            items@.len() / 2,
        ),
{
    let ghost views = operand_views(items@);
    let mut i: usize = 0;
    while i < items.len() / 2
        invariant
            i <= items@.len() / 2,
            views == operand_views(items@),
            get_elements_ir(old(b)@, context, map, views, fail, i as nat) == Ok::<
                LoweringView,
                JitFault,
            >(b@),
        decreases items@.len() / 2 - i,
    {
        proof {
            lemma_get_fails(old(b)@, context, map, views, fail, (i + 1) as nat);
        }
        get_map_element(b, context, map, &items[2 * i], &items[2 * i + 1], fail)?;
        i += 1;
    }
    Ok(())
}

/// What [`translate_get_map_elements`] makes of a lowering.
pub open spec fn translate_get_map_elements_ir(
    b: LoweringView,
    context: MapLoweringContext,
    source: OperandView,
    items: Seq<OperandView>,
    fail: Block,
) -> Result<LoweringView, JitFault> {
    match read_operand_term_ir(b, context.register_file, source) {
        Err(e) => Err(e),
        Ok((map, b)) => get_elements_ir(b, context, map, items, fail, items.len() / 2),
    }
}

/// Reads elements of a map.
pub fn translate_get_map_elements(
    b: &mut Lowering,
    context: MapLoweringContext,
    source: &Operand,
    items: &Vec<Operand>,
    fail: Block,
) -> (r: Result<(), JitError>)
    ensures
        lowered(r, final(b)@) == translate_get_map_elements_ir(old(b)@, context, source.view(), operand_views(items@), fail),
{
    let map = read_operand_term(b, context.register_file, source)?;
    get_elements(b, context, map, items, fail)
}

/// What [`has_map_field`] makes of a lowering.
pub open spec fn has_map_field_ir(
    b: LoweringView,
    context: MapLoweringContext,
    map: Value,
    key: OperandView,
    fail: Block,
) -> Result<LoweringView, JitFault> {
    match read_operand_term_ir(b, context.register_file, key) {
        Err(e) => Err(e),
        Ok((key_term, b)) => {
            let (call, b) = b.emit(IrOp::Call { helper: Helper::MapHasKey, args: Args::Two(map, key_term) });
            let (found, b) = b.emit(IrOp::Result { of: call, index: 0 });
            let b = branch_if_null_ir(b, found, fail);
            Ok(b)
        },
    }
}

/// Goes to `fail` when a map has no element of a key.
fn has_map_field(
    b: &mut Lowering,
    context: MapLoweringContext,
    map: Value,
    key: &Operand,
    fail: Block,
) -> (r: Result<(), JitError>)
    ensures
        lowered(r, final(b)@) == has_map_field_ir(old(b)@, context, map, key.view(), fail),
{
    let key_term = read_operand_term(b, context.register_file, key)?;
    let call = b.emit(IrOp::Call { helper: Helper::MapHasKey, args: Args::Two(map, key_term) });
    let found = b.emit(IrOp::Result { of: call, index: 0 });
    branch_if_null(b, found, fail);
    Ok(())
}

/// Tests for the first `n` keys.
pub open spec fn has_fields_ir(
    b: LoweringView,
    context: MapLoweringContext,
    map: Value,
    items: Seq<OperandView>,
    fail: Block,
    n: nat,
) -> Result<LoweringView, JitFault>
    decreases n,
{
    if n == 0 {
        Ok(b)
    } else {
        match has_fields_ir(b, context, map, items, fail, (n - 1) as nat) {
            Err(e) => Err(e),
            Ok(b) => has_map_field_ir(b, context, map, items[n - 1], fail),
        }
    }
}

proof fn lemma_has_fails(
    b: LoweringView,
    context: MapLoweringContext,
    map: Value,
    items: Seq<OperandView>,
    fail: Block,
    n: nat,
)
    requires
        n <= items.len(),
    ensures
        has_fields_ir(b, context, map, items, fail, n) matches Err(e) ==> has_fields_ir(
            b,
            context,
            map,
            items,
            fail,
            items.len(),
        ) == Err::<LoweringView, JitFault>(e),
    decreases items.len() - n,
{
    if n < items.len() {
        lemma_has_fails(b, context, map, items, fail, n + 1);
    }
}

fn has_fields(
    b: &mut Lowering,
    context: MapLoweringContext,
    map: Value,
    items: &Vec<Operand>,
    fail: Block,
) -> (r: Result<(), JitError>)
    ensures
        lowered(r, final(b)@) == has_fields_ir(
            old(b)@,
            context,
            map,
            operand_views(items@),
            fail,
            items@.len(),
        ),
{
    let ghost views = operand_views(items@);
    let mut i: usize = 0;
    while i < items.len()
        invariant
            i <= items@.len(),
            views == operand_views(items@),
            has_fields_ir(old(b)@, context, map, views, fail, i as nat) == Ok::<
                LoweringView,
                JitFault,
            >(b@),
        decreases items@.len() - i,
    {
        proof {
            lemma_has_fails(old(b)@, context, map, views, fail, (i + 1) as nat);
        }
        has_map_field(b, context, map, &items[i], fail)?;
        i += 1;
    }
    Ok(())
}

/// What [`translate_has_map_fields`] makes of a lowering.
pub open spec fn translate_has_map_fields_ir(
    b: LoweringView,
    context: MapLoweringContext,
    source: OperandView,
    items: Seq<OperandView>,
    fail: Block,
) -> Result<LoweringView, JitFault> {
    match read_operand_term_ir(b, context.register_file, source) {
        Err(e) => Err(e),
        Ok((map, b)) => has_fields_ir(b, context, map, items, fail, items.len()),
    }
}

/// Goes to `fail` unless a map has elements of all keys.
pub fn translate_has_map_fields(
    b: &mut Lowering,
    context: MapLoweringContext,
    source: &Operand,
    items: &Vec<Operand>,
    fail: Block,
) -> (r: Result<(), JitError>)
    ensures
        lowered(r, final(b)@) == translate_has_map_fields_ir(old(b)@, context, source.view(), operand_views(items@), fail),
{
    let map = read_operand_term(b, context.register_file, source)?;
    has_fields(b, context, map, items, fail)
}

} // verus!

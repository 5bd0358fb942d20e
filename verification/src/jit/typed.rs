//! Lowering where the types of registers are known.
//!
//! A register that is known to hold an integer holds the bare number. Where
//! code that knows nothing of types reads it, it is made a term again.

use vstd::prelude::*;
use crate::loader::decode::compact::{operand_views, Operand, OperandView};
use crate::loader::decode::instruction::TypeTestOp;
use crate::term::{SMALL_INT_MAX, SMALL_INT_MIN, SMALL_INT_SHIFT};
use super::arithmetic::{lower_word_arithmetic, lower_word_arithmetic_ir, ArithmeticOp, ArithmeticTargets};
use super::common::{
    branch_to_fail_if, branch_to_fail_if_ir, read_register_term, read_register_term_ir, write_register_term, write_register_term_ir,
};
use super::error::{JitError, JitFault};
use super::exceptions::{return_status_raw, return_status_raw_ir};
use super::guards::{immediate_usize, immediate_usize_of};
use super::ir::{
    lowered, lowered_with, Block, ImmCode, IntCc, IrOp, Lowering, LoweringView, Value,
};
use super::register::{register_operand, register_operand_of, Register};
use super::safepoint::with_site;
use super::type_info::{TypeDescriptor, TypeView};
use super::typed_state::{
    known, learned, operand_type_of, option_view, supported, supported_type, with_copy,
    with_operand_type, with_swap, without, without_operand, Types,
};

verus! {

/// A lowering with other types.
pub open spec fn with_types(b: LoweringView, types: Types) -> LoweringView {
    LoweringView { types, ..b }
}

/// The lowering after nothing is known of a register any more.
pub open spec fn forget_register_ir(b: LoweringView, register: Register) -> LoweringView {
    with_types(b, without(b.types, register))
}

fn forget_register(b: &mut Lowering, register: Register)
    ensures
        final(b)@ == forget_register_ir(old(b)@, register),
{
    b.typed.forget(register);
}

/// The lowering after nothing is known of an operand any more.
pub open spec fn clear_operand_ir(b: LoweringView, operand: OperandView) -> LoweringView {
    with_types(b, without_operand(b.types, operand))
}

/// Forgets the type of an operand.
pub fn clear_operand(b: &mut Lowering, operand: &Operand)
    ensures
        final(b)@ == clear_operand_ir(old(b)@, operand.view()),
{
    b.typed.clear_operand(operand);
}

/// The lowering after one operand was copied to another.
pub open spec fn copy_type_ir(
    b: LoweringView,
    source: OperandView,
    destination: OperandView,
) -> LoweringView {
    with_types(b, with_copy(b.types, source, destination))
}

/// Gives one operand the type of another.
pub fn copy_type(b: &mut Lowering, source: &Operand, destination: &Operand)
    ensures
        final(b)@ == copy_type_ir(old(b)@, source.view(), destination.view()),
{
    b.typed.copy(source, destination);
}

/// The lowering after two operands were exchanged.
pub open spec fn swap_types_ir(b: LoweringView, left: OperandView, right: OperandView) -> LoweringView {
    with_types(b, with_swap(b.types, left, right))
}

/// Exchanges the types of two operands.
pub fn swap_types(b: &mut Lowering, left: &Operand, right: &Operand)
    ensures
        final(b)@ == swap_types_ir(old(b)@, left.view(), right.view()),
{
    b.typed.swap(left, right);
}

/// The lowering after an operand was set to a bare integer.
pub open spec fn set_int_type_ir(b: LoweringView, operand: OperandView) -> LoweringView {
    with_types(b, with_operand_type(b.types, operand, Some(TypeView::Int)))
}

/// Makes an operand known to be a bare integer.
pub fn set_int_type(b: &mut Lowering, operand: &Operand)
    ensures
        final(b)@ == set_int_type_ir(old(b)@, operand.view()),
{
    b.typed.set_operand_type(operand, TypeDescriptor::Int);
}

/// The lowering after an operand was set to a term of a type.
pub open spec fn set_type_ir(
    b: LoweringView,
    operand: OperandView,
    type_: Option<TypeView>,
) -> LoweringView {
    with_types(b, with_operand_type(b.types, operand, type_))
}

/// Makes the type of an operand known, or unknown.
pub fn set_type(b: &mut Lowering, operand: &Operand, type_: Option<TypeDescriptor>)
    ensures
        final(b)@ == set_type_ir(old(b)@, operand.view(), option_view(type_)),
{
    b.typed.set_optional_operand_type(operand, type_);
}

/// The lowering with one more place where the heap may move.
pub open spec fn record_site_ir(b: LoweringView, index: usize, operands: Seq<OperandView>) -> Result<
    LoweringView,
    JitFault,
> {
    match with_site(b.maps, index, operands) {
        Err(e) => Err(e),
        Ok(maps) => Ok(LoweringView { maps, ..b }),
    }
}

/// Records that the instruction allocates while the operands are live.
pub fn record_site(b: &mut Lowering, index: usize, operands: &Vec<Operand>) -> (r: Result<
    (),
    JitError,
>)
    ensures
        lowered(r, final(b)@) == record_site_ir(old(b)@, index, operand_views(operands@)),
{
    b.safepoints.record_allocation_site(index, operands)
}

/// What [`untag_register`] makes of a lowering.
pub open spec fn untag_register_ir(
    b: LoweringView,
    register_file: Value,
    register: Register,
) -> LoweringView {
    let (tagged, b) = read_register_term_ir(b, register_file, register);
    let (payload, b) = b.emit(IrOp::BinaryImm { code: ImmCode::Sshr, left: tagged, imm: SMALL_INT_SHIFT });
    let b = write_register_term_ir(b, register_file, register, payload);
    b
}

/// Turns the term in a register to the bare number it holds.
fn untag_register(b: &mut Lowering, register_file: Value, register: Register)
    ensures
        final(b)@ == untag_register_ir(old(b)@, register_file, register),
{
    let tagged = read_register_term(b, register_file, register);
    let payload = b.emit(IrOp::BinaryImm { code: ImmCode::Sshr, left: tagged, imm: SMALL_INT_SHIFT });
    write_register_term(b, register_file, register, payload);
}

/// What [`tag_register`] makes of a lowering.
pub open spec fn tag_register_ir(
    b: LoweringView,
    register_file: Value,
    register: Register,
) -> LoweringView {
    let (payload, b) = read_register_term_ir(b, register_file, register);
    let (tagged, b) = b.emit(IrOp::BinaryImm { code: ImmCode::Ishl, left: payload, imm: SMALL_INT_SHIFT });
    let b = write_register_term_ir(b, register_file, register, tagged);
    b
}

/// Turns the bare number in a register to the term that holds it.
fn tag_register(b: &mut Lowering, register_file: Value, register: Register)
    ensures
        final(b)@ == tag_register_ir(old(b)@, register_file, register),
{
    let payload = read_register_term(b, register_file, register);
    let tagged = b.emit(IrOp::BinaryImm { code: ImmCode::Ishl, left: payload, imm: SMALL_INT_SHIFT });
    write_register_term(b, register_file, register, tagged);
}

/// What [`materialize_register`] makes of a lowering.
pub open spec fn materialize_register_ir(
    b: LoweringView,
    register_file: Value,
    register: Register,
) -> LoweringView {
    let is_int = known(b.types, register) == Some(TypeView::Int);
    let b = forget_register_ir(b, register);
    if is_int {
        let b = tag_register_ir(b, register_file, register);
        b
    } else {
        b
    }
}

/// Makes what a register holds a term, of which nothing is known.
pub fn materialize_register(b: &mut Lowering, register_file: Value, register: Register)
    ensures
        final(b)@ == materialize_register_ir(old(b)@, register_file, register),
{
    let is_int = b.typed.is_int(register);
    forget_register(b, register);
    if is_int {
        tag_register(b, register_file, register);
    }
}

/// What [`materialize_operand`] makes of a lowering.
pub open spec fn materialize_operand_ir(
    b: LoweringView,
    register_file: Value,
    operand: OperandView,
) -> LoweringView {
    match register_operand_of(operand) {
        Ok(register) => {
            let b = materialize_register_ir(b, register_file, register);
            b
        },
        Err(_) => b,
    }
}

/// Makes what an operand holds a term, of which nothing is known.
pub fn materialize_operand(b: &mut Lowering, register_file: Value, operand: &Operand)
    ensures
        final(b)@ == materialize_operand_ir(old(b)@, register_file, operand.view()),
{
    match register_operand(operand) {
        Ok(register) => {
            materialize_register(b, register_file, register);
        },
        Err(_) => {},
    }
}

/// Makes what the first `n` registers hold terms.
pub open spec fn materialize_registers_ir(
    b: LoweringView,
    register_file: Value,
    registers: Seq<Register>,
    n: nat,
) -> LoweringView
    decreases n,
{
    if n == 0 {
        b
    } else {
        materialize_register_ir(
            materialize_registers_ir(b, register_file, registers, (n - 1) as nat),
            register_file,
            registers[n - 1],
        )
    }
}

/// The registers of which something is known.
pub open spec fn typed_registers(types: Types) -> Seq<Register> {
    Seq::new(types.len(), |i: int| types[i].0)
}

/// The lowering after every register was made to hold a term.
pub open spec fn materialize_all_ir(b: LoweringView, register_file: Value) -> LoweringView {
    materialize_registers_ir(b, register_file, typed_registers(b.types), b.types.len())
}

/// Makes what every register holds a term: what is called knows nothing of
/// types.
pub fn materialize_all(b: &mut Lowering, register_file: Value)
    ensures
        final(b)@ == materialize_all_ir(old(b)@, register_file),
{
    let registers = b.typed.known_registers();
    let ghost start = b@;
    assert(registers@ =~= typed_registers(start.types));
    let mut i: usize = 0;
    while i < registers.len()
        invariant
            i <= registers@.len(),
            registers@ == typed_registers(start.types),
            b@ == materialize_registers_ir(start, register_file, registers@, i as nat),
        decreases registers@.len() - i,
    {
        materialize_register(b, register_file, registers[i]);
        i += 1;
    }
}

/// Makes what the first `n` operands hold terms.
pub open spec fn materialize_operands_ir(
    b: LoweringView,
    register_file: Value,
    operands: Seq<OperandView>,
    n: nat,
) -> LoweringView
    decreases n,
{
    if n == 0 {
        b
    } else {
        materialize_operand_ir(
            materialize_operands_ir(b, register_file, operands, (n - 1) as nat),
            register_file,
            operands[n - 1],
        )
    }
}

/// Makes what the operands hold terms.
pub fn materialize_operands(b: &mut Lowering, register_file: Value, operands: &Vec<Operand>)
    ensures
        final(b)@ == materialize_operands_ir(
            old(b)@,
            register_file,
            operand_views(operands@),
            operands@.len(),
        ),
{
    let ghost start = b@;
    let ghost views = operand_views(operands@);
    let mut i: usize = 0;
    while i < operands.len()
        invariant
            i <= operands@.len(),
            views == operand_views(operands@),
            b@ == materialize_operands_ir(start, register_file, views, i as nat),
        decreases operands@.len() - i,
    {
        materialize_operand(b, register_file, &operands[i]);
        i += 1;
    }
}

/// Makes what the operands at the first `n` even places hold terms.
pub open spec fn materialize_keys_ir(
    b: LoweringView,
    register_file: Value,
    pairs: Seq<OperandView>,
    n: nat,
) -> LoweringView
    decreases n,
{
    if n == 0 {
        b
    } else {
        materialize_operand_ir(
            materialize_keys_ir(b, register_file, pairs, (n - 1) as nat),
            register_file,
            pairs[2 * n - 2],
        )
    }
}

/// Makes what the keys of pairs hold terms.
pub fn materialize_keys(b: &mut Lowering, register_file: Value, pairs: &Vec<Operand>)
    ensures
        final(b)@ == materialize_keys_ir(
            old(b)@,
            register_file,
            operand_views(pairs@),
            ((pairs@.len() + 1) / 2) as nat,
        ),
{
    let ghost start = b@;
    let ghost views = operand_views(pairs@);
    let half: usize = pairs.len() / 2;
    let mut i: usize = 0;
    while i < pairs.len() / 2
        invariant
            i <= half,
            half == pairs@.len() / 2,
            views == operand_views(pairs@),
            b@ == materialize_keys_ir(start, register_file, views, i as nat),
        decreases half - i,
    {
        materialize_operand(b, register_file, &pairs[2 * i]);
        i += 1;
    }
    if pairs.len() % 2 == 1 {
        materialize_operand(b, register_file, &pairs[2 * half]);
    }
}

/// Forgets the types of the operands at the first `n` odd places.
pub open spec fn clear_values_ir(b: LoweringView, pairs: Seq<OperandView>, n: nat) -> LoweringView
    decreases n,
{
    if n == 0 {
        b
    } else {
        clear_operand_ir(clear_values_ir(b, pairs, (n - 1) as nat), pairs[2 * n - 1])
    }
}

/// Forgets the types of the values of pairs.
pub fn clear_values(b: &mut Lowering, pairs: &Vec<Operand>)
    ensures
        final(b)@ == clear_values_ir(old(b)@, operand_views(pairs@), pairs@.len() / 2),
{
    let ghost start = b@;
    let ghost views = operand_views(pairs@);
    let half: usize = pairs.len() / 2;
    let mut i: usize = 0;
    while i < pairs.len() / 2
        invariant
            i <= half,
            half == pairs@.len() / 2,
            views == operand_views(pairs@),
            b@ == clear_values_ir(start, views, i as nat),
        decreases half - i,
    {
        clear_operand(b, &pairs[2 * i + 1]);
        i += 1;
    }
}

/// Turns the terms in those of the first `n` registers that hold integers to
/// bare numbers.
pub open spec fn untag_registers_ir(
    b: LoweringView,
    register_file: Value,
    registers: Seq<Register>,
    n: nat,
) -> LoweringView
    decreases n,
{
    if n == 0 {
        b
    } else {
        let before = untag_registers_ir(b, register_file, registers, (n - 1) as nat);
        if known(b.types, registers[n - 1]) == Some(TypeView::Int) {
            untag_register_ir(before, register_file, registers[n - 1])
        } else {
            before
        }
    }
}

/// The lowering after the parameters that are integers were made bare numbers.
pub open spec fn initialize_entry_values_ir(b: LoweringView, register_file: Value) -> LoweringView {
    untag_registers_ir(b, register_file, typed_registers(b.types), b.types.len())
}

/// Makes the parameters that are integers bare numbers.
pub fn initialize_entry_values(b: &mut Lowering, register_file: Value)
    ensures
        final(b)@ == initialize_entry_values_ir(old(b)@, register_file),
{
    let registers = b.typed.known_registers();
    let ghost start = b@;
    assert(registers@ =~= typed_registers(start.types));
    let mut i: usize = 0;
    while i < registers.len()
        invariant
            i <= registers@.len(),
            registers@ == typed_registers(start.types),
            b@.types == start.types,
            b@ == untag_registers_ir(start, register_file, registers@, i as nat),
        decreases registers@.len() - i,
    {
        if b.typed.is_int(registers[i]) {
            untag_register(b, register_file, registers[i]);
        }
        i += 1;
    }
}

/// What [`read_return_value`] makes of a lowering.
pub open spec fn read_return_value_ir(
    b: LoweringView,
    register_file: Value,
) -> (Value, LoweringView) {
    let (value, b) = read_register_term_ir(b, register_file, Register::X(0));
    if known(b.types, Register::X(0)) == Some(TypeView::Int) {
        b.emit(IrOp::BinaryImm { code: ImmCode::Ishl, left: value, imm: SMALL_INT_SHIFT })
    } else {
        (value, b)
    }
}

/// The term that a function returns: what is in the first register.
pub fn read_return_value(b: &mut Lowering, register_file: Value) -> (r: Value)
    ensures
        (r, final(b)@) == read_return_value_ir(old(b)@, register_file),
{
    let value = read_register_term(b, register_file, Register::X(0));
    if b.typed.is_int(Register::X(0)) {
        b.emit(IrOp::BinaryImm { code: ImmCode::Ishl, left: value, imm: SMALL_INT_SHIFT })
    } else {
        value
    }
}

/// What [`branch_to_deopt_if_not_small_int`] makes of a lowering.
pub open spec fn branch_to_deopt_if_not_small_int_ir(
    b: LoweringView,
    value: Value,
    deopt: Block,
) -> LoweringView {
    let (below_min, b) = b.emit(IrOp::CompareImm { cc: IntCc::SignedLessThan, left: value, imm: SMALL_INT_MIN });
    let b = branch_to_fail_if_ir(b, below_min, deopt);
    let (above_max, b) = b.emit(IrOp::CompareImm { cc: IntCc::SignedGreaterThan, left: value, imm: SMALL_INT_MAX });
    let b = branch_to_fail_if_ir(b, above_max, deopt);
    b
}

/// Goes to `deopt` when the number does not fit in a term.
fn branch_to_deopt_if_not_small_int(b: &mut Lowering, value: Value, deopt: Block)
    ensures
        final(b)@ == branch_to_deopt_if_not_small_int_ir(old(b)@, value, deopt),
{
    let below_min = b.emit(IrOp::CompareImm { cc: IntCc::SignedLessThan, left: value, imm: SMALL_INT_MIN });
    branch_to_fail_if(b, below_min, deopt);
    let above_max = b.emit(IrOp::CompareImm { cc: IntCc::SignedGreaterThan, left: value, imm: SMALL_INT_MAX });
    branch_to_fail_if(b, above_max, deopt);
}

/// What [`lower_typed_int_arithmetic`] makes of a lowering.
pub open spec fn lower_typed_int_arithmetic_ir(
    b: LoweringView,
    register_file: Value,
    op: ArithmeticOp,
    left: OperandView,
    right: OperandView,
    destination: OperandView,
    targets: ArithmeticTargets,
    deopt: Block,
) -> Result<LoweringView, JitFault> {
    match register_operand_of(left) {
        Err(e) => Err(e),
        Ok(left_register) => {
            let (left, b) = read_register_term_ir(b, register_file, left_register);
            match register_operand_of(right) {
                Err(e) => Err(e),
                Ok(right_register) => {
                    let (right, b) = read_register_term_ir(b, register_file, right_register);
                    let (result, b) = lower_word_arithmetic_ir(b, op, left, right, targets.fail, deopt);
                    let b = match op {
                        ArithmeticOp::Div => b,
                        ArithmeticOp::Rem => b,
                        _ => {
                            let b = branch_to_deopt_if_not_small_int_ir(b, result, deopt);
                            b
                        },
                    };
                    match register_operand_of(destination) {
                        Err(e) => Err(e),
                        Ok(destination) => {
                            let b = write_register_term_ir(b, register_file, destination, result);
                            let b = b.emit(IrOp::Jump { block: targets.success }).1;
                            Ok(b)
                        },
                    }
                },
            }
        },
    }
}

/// Computes of two bare numbers and goes to `success` with the result in the
/// destination. When the divisor is zero, goes to `fail`; when a sum, a difference or a
/// product does not fit in a term, to `deopt`. What a division gives is not checked: it
/// fits but for the smallest integer of a term divided by minus one, whose quotient is
/// stored as it is.
pub fn lower_typed_int_arithmetic(
    b: &mut Lowering,
    register_file: Value,
    op: ArithmeticOp,
    left: &Operand,
    right: &Operand,
    destination: &Operand,
    targets: ArithmeticTargets,
    deopt: Block,
) -> (r: Result<(), JitError>)
    ensures
        lowered(r, final(b)@) == lower_typed_int_arithmetic_ir(old(b)@, register_file, op, left.view(), right.view(), destination.view(), targets, deopt),
{
    let left_register = register_operand(left)?;
    let left = read_register_term(b, register_file, left_register);
    let right_register = register_operand(right)?;
    let right = read_register_term(b, register_file, right_register);
    let result = lower_word_arithmetic(b, op, left, right, targets.fail, deopt);
    match op {
        ArithmeticOp::Div => {},
        ArithmeticOp::Rem => {},
        _ => {
            branch_to_deopt_if_not_small_int(b, result, deopt);
        },
    }
    let destination = register_operand(destination)?;
    write_register_term(b, register_file, destination, result);
    b.emit(IrOp::Jump { block: targets.success });
    Ok(())
}

/// What the type of a value says of a test on it.
#[derive(Debug, Clone, Copy, PartialEq, Eq, Structural)]
pub enum GuardDecision {
    AlwaysTrue,
    AlwaysFalse,
    Unknown,
}

/// A decision that the type settles.
pub open spec fn settled(value: bool) -> GuardDecision {
    if value {
        GuardDecision::AlwaysTrue
    } else {
        GuardDecision::AlwaysFalse
    }
}

fn bool_decision(value: bool) -> (r: GuardDecision)
    ensures
        r == settled(value),
{
    if value {
        GuardDecision::AlwaysTrue
    } else {
        GuardDecision::AlwaysFalse
    }
}

/// What a type says of a test.
pub open spec fn typed_guard_decision_of(type_: TypeView, op: TypeTestOp) -> GuardDecision {
    match op {
        TypeTestOp::IsInteger => settled(type_ is Int),
        TypeTestOp::IsAtom => settled(type_ is Atom || type_ is Bool),
        TypeTestOp::IsList => settled(type_ is List || type_ is Nil),
        TypeTestOp::IsTuple => settled(type_ is Tuple),
        TypeTestOp::IsBoolean => settled(type_ is Bool),
        TypeTestOp::IsNonemptyList => if type_ is Nil {
            GuardDecision::AlwaysFalse
        } else {
            GuardDecision::Unknown
        },
        TypeTestOp::IsBinary => settled(type_ is String || type_ is BitArray),
        TypeTestOp::IsFloat => settled(type_ is Float),
        _ => GuardDecision::Unknown,
    }
}

fn typed_guard_decision(type_: &TypeDescriptor, op: TypeTestOp) -> (r: GuardDecision)
    ensures
        r == typed_guard_decision_of(type_.view(), op),
{
    match op {
        TypeTestOp::IsInteger => bool_decision(matches!(type_, TypeDescriptor::Int)),
        TypeTestOp::IsAtom => bool_decision(
            matches!(type_, TypeDescriptor::Atom | TypeDescriptor::Bool),
        ),
        TypeTestOp::IsList => bool_decision(
            matches!(type_, TypeDescriptor::List(_) | TypeDescriptor::Nil),
        ),
        TypeTestOp::IsTuple => bool_decision(matches!(type_, TypeDescriptor::Tuple(_))),
        TypeTestOp::IsBoolean => bool_decision(matches!(type_, TypeDescriptor::Bool)),
        TypeTestOp::IsNonemptyList => if matches!(type_, TypeDescriptor::Nil) {
            GuardDecision::AlwaysFalse
        } else {
            GuardDecision::Unknown
        },
        TypeTestOp::IsBinary => bool_decision(
            matches!(type_, TypeDescriptor::String | TypeDescriptor::BitArray),
        ),
        TypeTestOp::IsFloat => bool_decision(matches!(type_, TypeDescriptor::Float)),
        _ => GuardDecision::Unknown,
    }
}

/// What is known of an operand says of a test on it.
pub open spec fn guard_decision_of(b: LoweringView, op: TypeTestOp, value: OperandView) -> GuardDecision {
    match operand_type_of(b.types, value) {
        Some(type_) => typed_guard_decision_of(type_, op),
        None => GuardDecision::Unknown,
    }
}

fn guard_decision(b: &Lowering, op: TypeTestOp, value: &Operand) -> (r: GuardDecision)
    ensures
        r == guard_decision_of(b@, op, value.view()),
{
    match b.typed.operand_type(value) {
        Some(type_) => typed_guard_decision(&type_, op),
        None => GuardDecision::Unknown,
    }
}

/// What [`lower_typed_type_test`] makes of a lowering.
pub open spec fn lower_typed_type_test_ir(
    b: LoweringView,
    op: TypeTestOp,
    value: OperandView,
    fail: Block,
    success: Block,
) -> (bool, LoweringView) {
    match guard_decision_of(b, op, value) {
        GuardDecision::AlwaysTrue => {
            let b = b.emit(IrOp::Jump { block: success }).1;
            (true, b)
        },
        GuardDecision::AlwaysFalse => {
            let b = b.emit(IrOp::Jump { block: fail }).1;
            (true, b)
        },
        GuardDecision::Unknown => (false, b),
    }
}

/// Settles a test on an operand by what is known of it; answers whether it
/// could.
pub fn lower_typed_type_test(
    b: &mut Lowering,
    op: TypeTestOp,
    value: &Operand,
    fail: Block,
    success: Block,
) -> (r: bool)
    ensures
        (r, final(b)@) == lower_typed_type_test_ir(old(b)@, op, value.view(), fail, success),
{
    match guard_decision(b, op, value) {
        GuardDecision::AlwaysTrue => {
            b.emit(IrOp::Jump { block: success });
            true
        },
        GuardDecision::AlwaysFalse => {
            b.emit(IrOp::Jump { block: fail });
            true
        },
        GuardDecision::Unknown => false,
    }
}

/// How many elements the tuple in an operand is known to have.
pub open spec fn known_arity_of(b: LoweringView, tuple: OperandView) -> Option<nat> {
    match operand_type_of(b.types, tuple) {
        Some(TypeView::Tuple(elements)) => Some(elements.len()),
        _ => None,
    }
}

fn known_arity(b: &Lowering, tuple: &Operand) -> (r: Option<usize>)
    ensures
        match r {
            Some(n) => known_arity_of(b@, tuple.view()) == Some(n as nat),
            None => known_arity_of(b@, tuple.view()) is None,
        },
{
    match b.typed.operand_type(tuple) {
        Some(TypeDescriptor::Tuple(elements)) => Some(elements.len()),
        _ => None,
    }
}

/// What [`lower_typed_test_arity`] makes of a lowering.
pub open spec fn lower_typed_test_arity_ir(
    b: LoweringView,
    tuple: OperandView,
    arity: OperandView,
    fail: Block,
    success: Block,
) -> Result<(bool, LoweringView), JitFault> {
    match known_arity_of(b, tuple) {
        None => Ok((false, b)),
        Some(known_count) => {
            match immediate_usize_of(arity, "test_arity arity"@) {
                Err(e) => Err(e),
                Ok(expected) => {
                    let b = if known_count == expected {
                        let b = b.emit(IrOp::Jump { block: success }).1;
                        b
                    } else {
                        let b = b.emit(IrOp::Jump { block: fail }).1;
                        b
                    };
                    Ok((true, b))
                },
            }
        },
    }
}

/// Settles a test on how many elements a tuple has by what is known of it;
/// answers whether it could.
pub fn lower_typed_test_arity(
    b: &mut Lowering,
    tuple: &Operand,
    arity: &Operand,
    fail: Block,
    success: Block,
) -> (r: Result<bool, JitError>)
    ensures
        lowered_with(r, final(b)@) == lower_typed_test_arity_ir(old(b)@, tuple.view(), arity.view(), fail, success),
{
    match known_arity(b, tuple) {
        None => Ok(false),
        Some(known_count) => {
            let expected = immediate_usize(arity, "test_arity arity")?;
            if known_count == expected {
                b.emit(IrOp::Jump { block: success });
            } else {
                b.emit(IrOp::Jump { block: fail });
            }
            Ok(true)
        },
    }
}

/// What [`float_fail_block`] makes of a lowering.
pub open spec fn float_fail_block_ir(
    b: LoweringView,
    status: u8,
    raw: i64,
    continuation: Block,
) -> (Block, LoweringView) {
    let current = match b.current {
        Some(current) => current,
        None => continuation,
    };
    let (fail, b) = b.create_block();
    let b = b.switch(fail);
    let b = return_status_raw_ir(b, status, raw);
    let b = b.switch(current);
    (fail, b)
}

/// A block that returns a status, for operations that may fail; what follows
/// still belongs to the current block.
pub fn float_fail_block(
    b: &mut Lowering,
    status: u8,
    raw: i64,
    continuation: Block,
) -> (r: Block)
    ensures
        (r, final(b)@) == float_fail_block_ir(old(b)@, status, raw, continuation),
{
    let current = match b.current {
        Some(current) => current,
        None => continuation,
    };
    let fail = b.create_block();
    b.switch(fail);
    return_status_raw(b, status, raw);
    b.switch(current);
    fail
}

/// The lowering after a term of a type was loaded to an operand: an integer is
/// made a bare number.
pub open spec fn mark_loaded_ir(
    b: LoweringView,
    register_file: Value,
    operand: OperandView,
    type_: Option<TypeView>,
) -> LoweringView {
    match register_operand_of(operand) {
        Err(_) => b,
        Ok(register) => match type_ {
            None => forget_register_ir(b, register),
            Some(type_) => if supported(type_) {
                let b = if type_ is Int {
                    untag_register_ir(b, register_file, register)
                } else {
                    b
                };
                with_types(b, learned(b.types, register, type_))
            } else {
                forget_register_ir(b, register)
            },
        },
    }
}

/// Makes the type of the term that was loaded to an operand known.
pub fn mark_loaded(b: &mut Lowering, register_file: Value, operand: &Operand, type_: Option<TypeDescriptor>)
    ensures
        final(b)@ == mark_loaded_ir(old(b)@, register_file, operand.view(), option_view(type_)),
{
    let register = match register_operand(operand) {
        Ok(register) => register,
        Err(_) => {
            return;
        },
    };
    let type_ = match type_ {
        Some(type_) => type_,
        None => {
            forget_register(b, register);
            return;
        },
    };
    match supported_type(&type_) {
        Some(type_) => {
            if matches!(type_, TypeDescriptor::Int) {
                untag_register(b, register_file, register);
            }
            b.typed.learn(register, type_);
        },
        None => {
            forget_register(b, register);
        },
    }
}

/// Code that knows nothing of types can be called after all registers were made
/// to hold terms.
pub proof fn law_nothing_is_known_after_all_are_materialized(b: LoweringView, register_file: Value)
    ensures
        materialize_all_ir(b, register_file).types.len() == 0,
{
    lemma_all_forgotten(b, register_file, typed_registers(b.types), b.types.len());
    let last = materialize_all_ir(b, register_file).types;
    if last.len() > 0 {
        let register = last[0].0;
        lemma_forgets(b, register_file, typed_registers(b.types), b.types.len(), register);
        assert(holds(last, register));
        assert(holds(b.types, register));
        let i = choose|i: int| 0 <= i < b.types.len() && #[trigger] b.types[i].0 == register;
        assert(typed_registers(b.types)[i] == register);
    }
}

/// Whether there is an entry for a register.
spec fn holds(types: Types, register: Register) -> bool {
    exists|i: int| 0 <= i < types.len() && #[trigger] types[i].0 == register
}

proof fn lemma_without_holds(types: Types, register: Register, other: Register)
    ensures
        holds(without(types, register), other) <==> holds(types, other) && other != register,
    decreases types.len(),
{
    if types.len() > 0 {
        lemma_without_holds(types.drop_last(), register, other);
        let rest = types.drop_last();
        if holds(rest, other) {
            let i = choose|i: int| 0 <= i < rest.len() && #[trigger] rest[i].0 == other;
            assert(types[i].0 == other);
        }
        if holds(types, other) && types.last().0 != other {
            let i = choose|i: int| 0 <= i < types.len() && #[trigger] types[i].0 == other;
            assert(rest[i].0 == other);
        }
        let kept = without(rest, register);
        let all = without(types, register);
        if types.last().0 != register {
            assert(all.last() == types.last());
            if holds(kept, other) {
                let i = choose|i: int| 0 <= i < kept.len() && #[trigger] kept[i].0 == other;
                assert(all[i].0 == other);
            }
            if types.last().0 == other {
                assert(all[all.len() - 1].0 == other);
                assert(types[types.len() - 1].0 == other);
            }
            if holds(all, other) && types.last().0 != other {
                let i = choose|i: int| 0 <= i < all.len() && #[trigger] all[i].0 == other;
                assert(kept[i].0 == other);
            }
        }
    }
}

proof fn lemma_all_forgotten(
    b: LoweringView,
    register_file: Value,
    registers: Seq<Register>,
    n: nat,
)
    requires
        n <= registers.len(),
    ensures
        forall|register: Register| #[trigger]
            holds(materialize_registers_ir(b, register_file, registers, n).types, register)
                ==> holds(b.types, register),
    decreases n,
{
    if n > 0 {
        lemma_all_forgotten(b, register_file, registers, (n - 1) as nat);
        let before = materialize_registers_ir(b, register_file, registers, (n - 1) as nat);
        assert forall|register: Register| #[trigger]
            holds(materialize_registers_ir(b, register_file, registers, n).types, register) implies holds(
            b.types,
            register,
        ) by {
            lemma_without_holds(before.types, registers[n - 1], register);
        }
    }
}

proof fn lemma_forgets(
    b: LoweringView,
    register_file: Value,
    registers: Seq<Register>,
    n: nat,
    register: Register,
)
    requires
        n <= registers.len(),
    ensures
        forall|i: int| 0 <= i < n && #[trigger] registers[i] == register ==> !holds(
            materialize_registers_ir(b, register_file, registers, n).types,
            register,
        ),
    decreases n,
{
    if n > 0 {
        lemma_forgets(b, register_file, registers, (n - 1) as nat, register);
        let before = materialize_registers_ir(b, register_file, registers, (n - 1) as nat);
        lemma_without_holds(before.types, registers[n - 1], register);
    }
}

} // verus!

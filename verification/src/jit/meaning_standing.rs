//! Laws of what typed lowering does between instructions: registers go from terms
//! to bare numbers and back, and stand for the same terms throughout.

use vstd::prelude::*;
use crate::loader::decode::compact::OperandView;
use crate::term::{lemma_shift_divides, SMALL_INT_SHIFT};
use super::common::is_register_of;
use super::helper::IrType;
use super::ir::{Block, ImmCode, IrOp, LoweringView, Value};
use super::meaning::{
    adds, does, lemma_emit, operand_value, register_address, Flow, Machine,
};
use super::meaning_core::{has_room, lemma_tagged};
use super::meaning_move::{has_place, lemma_operand_has_place, standing_operand};
use super::meaning_typed::{bare_fits, is_bare, standing_term};
use super::register::{law_registers_are_apart, register_offset_of, register_operand_of, Register};
use super::type_info::TypeView;
use super::typed::{
    forget_register_ir, initialize_entry_values_ir, mark_loaded_ir, materialize_all_ir,
    materialize_operand_ir, materialize_operands_ir, materialize_register_ir, materialize_registers_ir, typed_registers, untag_register_ir,
    untag_registers_ir,
};
use super::typed_state::{known, law_types_are_per_register, param_registers, without, Types};

verus! {

/// Whether the registers of which something is known all have a place in the
/// register file.
pub open spec fn have_places(types: Types) -> bool {
    forall|i: int| 0 <= i < types.len() ==> has_place(#[trigger] types[i].0)
}

/// Whether every register that holds a bare number holds one that fits in a term.
pub open spec fn all_fit(types: Types, memory: Map<int, i64>, base: i64) -> bool {
    forall|register: Register|
        has_place(register) ==> #[trigger] bare_fits(types, memory, base, register)
}

/// Whether every register stands for the same term as before.
pub open spec fn same_terms(
    types: Types,
    memory: Map<int, i64>,
    later_types: Types,
    later_memory: Map<int, i64>,
    base: i64,
) -> bool {
    forall|register: Register|
        has_place(register) ==> #[trigger] standing_term(later_types, later_memory, base, register)
            == standing_term(types, memory, base, register)
}

/// Whether two machines made the same calls and have the same values but for those
/// made at `from` or later; their memory may differ.
pub open spec fn only_stored(before: Machine, after: Machine, from: int) -> bool {
    &&& after.calls == before.calls
    &&& after.answers == before.answers
    &&& after.slots == before.slots
    &&& forall|v: Value| v < from ==> #[trigger] after.values[v] == before.values[v]
}

proof fn lemma_materialize(
    b: LoweringView,
    register_file: Value,
    register: Register,
    from: int,
    start: Flow,
    m: Machine,
)
    requires
        b.ops.len() + 3 <= usize::MAX,
        0 <= from <= b.ops.len(),
        register_file < b.ops.len(),
        has_place(register),
        does(b, from, start) == Flow::Running(m),
        all_fit(b.types, m.memory, m.values[register_file]),
    ensures
        ({
            let after = materialize_register_ir(b, register_file, register);
            let base = m.values[register_file];
            &&& b.ops.len() <= after.ops.len() <= b.ops.len() + 3
            &&& after.types == without(b.types, register)
            &&& after.tries == b.tries
            &&& does(after, from, start) matches Flow::Running(n) && only_stored(
                m,
                n,
                b.ops.len() as int,
            ) && all_fit(after.types, n.memory, base) && same_terms(
                b.types,
                m.memory,
                after.types,
                n.memory,
                base,
            )
        }),
{
    let base = m.values[register_file];
    let after = materialize_register_ir(b, register_file, register);
    if is_bare(b.types, register) {
        assert(bare_fits(b.types, m.memory, base, register));
        let b0 = forget_register_ir(b, register);
        assert(b0.ops == b.ops);
        assert(does(b0, from, start) == Flow::Running(m));
        let offset = register_offset_of(register);
        let op1 = IrOp::Load { ty: IrType::I64, base: register_file, offset };
        lemma_emit(b0, op1, from, start);
        let (payload, b1) = b0.emit(op1);
        let op2 = IrOp::BinaryImm { code: ImmCode::Ishl, left: payload, imm: SMALL_INT_SHIFT };
        lemma_emit(b1, op2, from, start);
        let (tagged, b2) = b1.emit(op2);
        lemma_emit(b2, IrOp::Store { value: tagged, base: register_file, offset }, from, start);
        lemma_tagged(m.memory[register_address(base, register)]);
    } else {
        assert(after.ops == b.ops);
    }
    let n = does(after, from, start)->Running_0;
    assert forall|other: Register| has_place(other) implies #[trigger] standing_term(
        after.types,
        n.memory,
        base,
        other,
    ) == standing_term(b.types, m.memory, base, other) by {
        law_types_are_per_register(b.types, register, TypeView::Int, other);
        if other != register {
            law_registers_are_apart(other, register);
        }
    }
    assert forall|other: Register| has_place(other) implies #[trigger] bare_fits(
        after.types,
        n.memory,
        base,
        other,
    ) by {
        law_types_are_per_register(b.types, register, TypeView::Int, other);
        assert(bare_fits(b.types, m.memory, base, other));
        if other != register {
            law_registers_are_apart(other, register);
        }
    }
}

proof fn lemma_materialize_registers(
    b: LoweringView,
    register_file: Value,
    registers: Seq<Register>,
    n: nat,
    from: int,
    start: Flow,
    m: Machine,
)
    requires
        n <= registers.len(),
        b.ops.len() + 3 * n <= usize::MAX,
        0 <= from <= b.ops.len(),
        register_file < b.ops.len(),
        forall|i: int| 0 <= i < registers.len() ==> has_place(#[trigger] registers[i]),
        does(b, from, start) == Flow::Running(m),
        all_fit(b.types, m.memory, m.values[register_file]),
    ensures
        ({
            let after = materialize_registers_ir(b, register_file, registers, n);
            let base = m.values[register_file];
            &&& b.ops.len() <= after.ops.len() <= b.ops.len() + 3 * n
            &&& after.tries == b.tries
            &&& does(after, from, start) matches Flow::Running(k) && only_stored(
                m,
                k,
                b.ops.len() as int,
            ) && all_fit(after.types, k.memory, base) && same_terms(
                b.types,
                m.memory,
                after.types,
                k.memory,
                base,
            )
        }),
    decreases n,
{
    if n > 0 {
        let before = (n - 1) as nat;
        lemma_materialize_registers(b, register_file, registers, before, from, start, m);
        let b1 = materialize_registers_ir(b, register_file, registers, before);
        let k = does(b1, from, start)->Running_0;
        lemma_materialize(b1, register_file, registers[n - 1], from, start, k);
        let after = materialize_registers_ir(b, register_file, registers, n);
        let last = does(after, from, start)->Running_0;
        let base = m.values[register_file];
        assert forall|other: Register| has_place(other) implies #[trigger] standing_term(
            after.types,
            last.memory,
            base,
            other,
        ) == standing_term(b.types, m.memory, base, other) by {
            assert(standing_term(b1.types, k.memory, base, other) == standing_term(
                b.types,
                m.memory,
                base,
                other,
            ));
        }
    }
}

/// Making what every register holds a term leaves each register with the term
/// that it stood for, and calls nothing: this is what code sees that knows nothing
/// of types.
pub proof fn law_materializing_all_stores_the_terms(
    b: LoweringView,
    register_file: Value,
    m: Machine,
    register: Register,
)
    requires
        b.ops.len() + 3 * b.types.len() <= usize::MAX,
        register_file < b.ops.len(),
        have_places(b.types),
        has_place(register),
        all_fit(b.types, m.memory, m.values[register_file]),
    ensures
        ({
            let after = materialize_all_ir(b, register_file);
            let base = m.values[register_file];
            &&& b.ops.len() <= after.ops.len() <= b.ops.len() + 3 * b.types.len()
            &&& after.tries == b.tries
            &&& does(after, b.ops.len() as int, Flow::Running(m)) matches Flow::Running(n)
                && only_stored(m, n, b.ops.len() as int) && n.memory[register_address(base, register)] == standing_term(
                b.types,
                m.memory,
                base,
                register,
            )
        }),
{
    let from = b.ops.len() as int;
    let start = Flow::Running(m);
    lemma_materialize_registers(
        b,
        register_file,
        typed_registers(b.types),
        b.types.len(),
        from,
        start,
        m,
    );
    super::typed::law_nothing_is_known_after_all_are_materialized(b, register_file);
    let after = materialize_all_ir(b, register_file);
    let n = does(after, from, start)->Running_0;
    assert(standing_term(after.types, n.memory, m.values[register_file], register)
        == standing_term(b.types, m.memory, m.values[register_file], register));
    assert(known(after.types, register) is None);
}

proof fn lemma_untag(
    b: LoweringView,
    register_file: Value,
    register: Register,
    from: int,
    start: Flow,
    m: Machine,
)
    requires
        b.ops.len() + 3 <= usize::MAX,
        0 <= from <= b.ops.len(),
        register_file < b.ops.len(),
        does(b, from, start) == Flow::Running(m),
    ensures
        ({
            let after = untag_register_ir(b, register_file, register);
            let address = register_address(m.values[register_file], register);
            &&& after.ops.len() == b.ops.len() + 3
            &&& after.current == b.current
            &&& forall|block: Block| #[trigger] adds(b, after, block)
            &&& does(after, from, start) matches Flow::Running(n) && only_stored(
                m,
                n,
                b.ops.len() as int,
            ) && n.memory == m.memory.insert(
                address,
                (m.memory[address] as int / 8) as i64,
            )
        }),
{
    let offset = register_offset_of(register);
    let op1 = IrOp::Load { ty: IrType::I64, base: register_file, offset };
    lemma_emit(b, op1, from, start);
    let (tagged, b1) = b.emit(op1);
    let op2 = IrOp::BinaryImm { code: ImmCode::Sshr, left: tagged, imm: SMALL_INT_SHIFT };
    lemma_emit(b1, op2, from, start);
    let (payload, b2) = b1.emit(op2);
    lemma_emit(b2, IrOp::Store { value: payload, base: register_file, offset }, from, start);
    lemma_shift_divides(m.memory[register_address(m.values[register_file], register)]);
}

/// A term that was loaded to an operand is what the operand stands for after its
/// type became known, as long as it has that type; every other register stands
/// for what it stood for.
pub proof fn law_loaded_term_stands(
    b: LoweringView,
    register_file: Value,
    operand: OperandView,
    type_: Option<TypeView>,
    m: Machine,
    other: Register,
)
    requires
        has_room(b),
        register_file < b.ops.len(),
        register_operand_of(operand) is Ok,
        has_place(other),
        type_ == Some(TypeView::Int) ==> m.memory[register_address(
            m.values[register_file],
            register_operand_of(operand)->Ok_0,
        )] as int % 8 == 0,
    ensures
        ({
            let after = mark_loaded_ir(b, register_file, operand, type_);
            let base = m.values[register_file];
            does(after, b.ops.len() as int, Flow::Running(m)) matches Flow::Running(n)
                && standing_term(after.types, n.memory, base, other) == if other
                == register_operand_of(operand)->Ok_0 {
                m.memory[register_address(base, other)]
            } else {
                standing_term(b.types, m.memory, base, other)
            }
        }),
{
    let from = b.ops.len() as int;
    let start = Flow::Running(m);
    let register = register_operand_of(operand)->Ok_0;
    lemma_operand_has_place(operand);
    law_types_are_per_register(b.types, register, TypeView::Int, other);
    lemma_untag(b, register_file, register, from, start, m);
    if other != register {
        law_registers_are_apart(other, register);
    }
    if let Some(type_) = type_ {
        law_types_are_per_register(b.types, register, type_, other);
    }
    let after = mark_loaded_ir(b, register_file, operand, type_);
    if type_ == Some(TypeView::Int) {
        assert(after.ops == untag_register_ir(b, register_file, register).ops);
        assert(untag_register_ir(b, register_file, register).types == b.types);
    } else {
        assert(after.ops == b.ops);
    }
}

/// Whether each register has one type at most.
pub open spec fn one_type_each(types: Types) -> bool {
    forall|i: int, j: int|
        0 <= i < j < types.len() ==> #[trigger] types[i].0 != #[trigger] types[j].0
}

pub proof fn lemma_untag_registers(
    b: LoweringView,
    register_file: Value,
    n: nat,
    from: int,
    start: Flow,
    m: Machine,
)
    requires
        n <= b.types.len(),
        b.ops.len() + 3 * n <= usize::MAX,
        0 <= from <= b.ops.len(),
        register_file < b.ops.len(),
        have_places(b.types),
        one_type_each(b.types),
        does(b, from, start) == Flow::Running(m),
    ensures
        ({
            let registers = typed_registers(b.types);
            let after = untag_registers_ir(b, register_file, registers, n);
            let base = m.values[register_file];
            &&& b.ops.len() <= after.ops.len() <= b.ops.len() + 3 * n
            &&& after.types == b.types
            &&& after.current == b.current
            &&& forall|block: Block| #[trigger] adds(b, after, block)
            &&& does(after, from, start) matches Flow::Running(k) && only_stored(
                m,
                k,
                b.ops.len() as int,
            ) && forall|other: Register|
                has_place(other) ==> k.memory[#[trigger] register_address(base, other)] == if is_bare(
                    b.types,
                    other,
                ) && registers.take(n as int).contains(other) {
                    (m.memory[register_address(base, other)] as int / 8) as i64
                } else {
                    m.memory[register_address(base, other)]
                }
        }),
    decreases n,
{
    let registers = typed_registers(b.types);
    let base = m.values[register_file];
    if n > 0 {
        let before = (n - 1) as nat;
        lemma_untag_registers(b, register_file, before, from, start, m);
        let b1 = untag_registers_ir(b, register_file, registers, before);
        let k1 = does(b1, from, start)->Running_0;
        let register = registers[n - 1];
        assert(has_place(b.types[n - 1].0));
        if is_bare(b.types, register) {
            lemma_untag(b1, register_file, register, from, start, k1);
            assert(untag_register_ir(b1, register_file, register).types == b1.types);
        }
        let after = untag_registers_ir(b, register_file, registers, n);
        assert forall|block: Block| #[trigger] adds(b, after, block) by {
            assert(adds(b, b1, block));
            if is_bare(b.types, register) {
                assert(adds(b1, after, block));
            }
        }
        let k = does(after, from, start)->Running_0;
        assert forall|other: Register| has_place(other) implies k.memory[#[trigger] register_address(
            base,
            other,
        )] == if is_bare(b.types, other) && registers.take(n as int).contains(other) {
            (m.memory[register_address(base, other)] as int / 8) as i64
        } else {
            m.memory[register_address(base, other)]
        } by {
            let earlier = registers.take(before as int);
            let all = registers.take(n as int);
            assert(all =~= earlier.push(register));
            if other == register {
                assert(all[n - 1] == register);
                if earlier.contains(other) {
                    let i = choose|i: int| 0 <= i < earlier.len() && earlier[i] == other;
                    assert(b.types[i].0 == b.types[n - 1].0);
                }
            } else {
                law_registers_are_apart(other, register);
                if all.contains(other) {
                    let i = choose|i: int| 0 <= i < all.len() && all[i] == other;
                    assert(earlier[i] == other);
                }
                if earlier.contains(other) {
                    let i = choose|i: int| 0 <= i < earlier.len() && earlier[i] == other;
                    assert(all[i] == other);
                }
            }
        }
    } else {
        assert forall|other: Register| !(#[trigger] registers.take(0).contains(other)) by {}
    }
}

pub proof fn lemma_known_is_listed(types: Types, register: Register)
    requires
        known(types, register) is Some,
    ensures
        typed_registers(types).contains(register),
    decreases types.len(),
{
    if types.last().0 == register {
        assert(typed_registers(types)[types.len() - 1] == register);
    } else {
        let rest = types.drop_last();
        lemma_known_is_listed(rest, register);
        let i = choose|i: int|
            0 <= i < typed_registers(rest).len() && typed_registers(rest)[i] == register;
        assert(typed_registers(types)[i] == register);
    }
}

/// When a function is entered, its registers hold terms. After those of known
/// integers were made bare numbers, every register stands for the term that it
/// held.
pub proof fn law_entry_values_stand(
    b: LoweringView,
    register_file: Value,
    m: Machine,
    register: Register,
)
    requires
        b.ops.len() + 3 * b.types.len() <= usize::MAX,
        register_file < b.ops.len(),
        have_places(b.types),
        one_type_each(b.types),
        has_place(register),
        is_bare(b.types, register) ==> m.memory[register_address(
            m.values[register_file],
            register,
        )] as int % 8 == 0,
    ensures
        ({
            let after = initialize_entry_values_ir(b, register_file);
            let base = m.values[register_file];
            does(after, b.ops.len() as int, Flow::Running(m)) matches Flow::Running(n)
                && standing_term(after.types, n.memory, base, register) == m.memory[register_address(
                base,
                register,
            )]
        }),
{
    let from = b.ops.len() as int;
    lemma_untag_registers(b, register_file, b.types.len(), from, Flow::Running(m), m);
    let registers = typed_registers(b.types);
    assert(registers.take(registers.len() as int) =~= registers);
    if is_bare(b.types, register) {
        lemma_known_is_listed(b.types, register);
    }
    let base = m.values[register_file];
    assert(register_address(base, register) == register_address(base, register));
}

proof fn lemma_param_registers(params: Seq<TypeView>, n: nat)
    requires
        n <= params.len(),
    ensures
        one_type_each(param_registers(params, n)),
        forall|i: int|
            0 <= i < param_registers(params, n).len() ==> (#[trigger] param_registers(
                params,
                n,
            )[i].0 matches Register::X(index) && index < n),
    decreases n,
{
    if n > 0 {
        lemma_param_registers(params, (n - 1) as nat);
    }
}

/// The types that a function of up to 255 parameters starts with are such as
/// entering it needs.
pub proof fn law_entry_types_are_in_order(params: Seq<TypeView>)
    requires
        params.len() <= 255,
    ensures
        one_type_each(param_registers(params, params.len())),
        have_places(param_registers(params, params.len())),
{
    lemma_param_registers(params, params.len());
    let types = param_registers(params, params.len());
    assert forall|i: int| 0 <= i < types.len() implies has_place(#[trigger] types[i].0) by {
        assert(types[i].0 is X);
    }
}

/// Whether nothing is known of the register that an operand names, if it names one.
pub open spec fn is_plain(types: Types, operand: OperandView) -> bool {
    register_operand_of(operand) matches Ok(register) ==> known(types, register) is None
}

/// Whether registers of which nothing was known stay so.
pub open spec fn stay_plain(before: Types, after: Types) -> bool {
    forall|operand: OperandView| is_plain(before, operand) ==> #[trigger] is_plain(after, operand)
}

/// Whether code came from one machine to another by storing terms in place of the
/// bare numbers that stand for them.
pub open spec fn stored_terms(
    b: LoweringView,
    after: LoweringView,
    register_file: Value,
    m: Machine,
    k: Machine,
) -> bool {
    let base = m.values[register_file];
    &&& does(after, b.ops.len() as int, Flow::Running(m)) == Flow::Running(k)
    &&& only_stored(m, k, b.ops.len() as int)
    &&& all_fit(after.types, k.memory, base)
    &&& same_terms(b.types, m.memory, after.types, k.memory, base)
    &&& stay_plain(b.types, after.types)
    &&& after.tries == b.tries
    &&& b.ops.len() <= after.ops.len()
}

pub proof fn lemma_stored_nothing(b: LoweringView, register_file: Value, m: Machine)
    requires
        all_fit(b.types, m.memory, m.values[register_file]),
    ensures
        stored_terms(b, b, register_file, m, m),
{
}

pub proof fn lemma_materialize_operand(
    b: LoweringView,
    before: LoweringView,
    register_file: Value,
    operand: OperandView,
    m: Machine,
    l: Machine,
)
    requires
        before.ops.len() + 3 <= usize::MAX,
        register_file < b.ops.len(),
        stored_terms(b, before, register_file, m, l),
    ensures
        ({
            let after = materialize_operand_ir(before, register_file, operand);
            let end = does(after, b.ops.len() as int, Flow::Running(m));
            &&& after.ops.len() <= before.ops.len() + 3
            &&& is_plain(after.types, operand)
            &&& stay_plain(before.types, after.types)
            &&& end is Running
            &&& stored_terms(b, after, register_file, m, end->Running_0)
        }),
{
    let from = b.ops.len() as int;
    let start = Flow::Running(m);
    let base = m.values[register_file];
    let after = materialize_operand_ir(before, register_file, operand);
    lemma_operand_has_place(operand);
    assert(l.values[register_file] == base);
    if let Ok(register) = register_operand_of(operand) {
        lemma_materialize(before, register_file, register, from, start, l);
        let k = does(after, from, start)->Running_0;
        assert forall|other: Register| has_place(other) implies #[trigger] standing_term(
            after.types,
            k.memory,
            base,
            other,
        ) == standing_term(b.types, m.memory, base, other) by {
            assert(standing_term(before.types, l.memory, base, other) == standing_term(
                b.types,
                m.memory,
                base,
                other,
            ));
        }
        law_types_are_per_register(before.types, register, TypeView::Int, register);
        assert forall|other: OperandView| is_plain(before.types, other) implies #[trigger] is_plain(
            after.types,
            other,
        ) by {
            if let Ok(r) = register_operand_of(other) {
                law_types_are_per_register(before.types, register, TypeView::Int, r);
            }
        }
        assert forall|other: OperandView| is_plain(b.types, other) implies #[trigger] is_plain(
            after.types,
            other,
        ) by {
            assert(is_plain(before.types, other));
        }
    }
}

pub proof fn lemma_materialize_operands(
    b: LoweringView,
    before: LoweringView,
    register_file: Value,
    operands: Seq<OperandView>,
    n: nat,
    m: Machine,
    l: Machine,
)
    requires
        n <= operands.len(),
        before.ops.len() + 3 * n <= usize::MAX,
        register_file < b.ops.len(),
        stored_terms(b, before, register_file, m, l),
    ensures
        ({
            let after = materialize_operands_ir(before, register_file, operands, n);
            let end = does(after, b.ops.len() as int, Flow::Running(m));
            &&& after.ops.len() <= before.ops.len() + 3 * n
            &&& forall|i: int| 0 <= i < n ==> is_plain(after.types, #[trigger] operands[i])
            &&& stay_plain(before.types, after.types)
            &&& end is Running
            &&& stored_terms(b, after, register_file, m, end->Running_0)
        }),
    decreases n,
{
    if n > 0 {
        let less = (n - 1) as nat;
        lemma_materialize_operands(b, before, register_file, operands, less, m, l);
        let b1 = materialize_operands_ir(before, register_file, operands, less);
        let k = does(b1, b.ops.len() as int, Flow::Running(m))->Running_0;
        lemma_materialize_operand(b, b1, register_file, operands[n - 1], m, k);
        let after = materialize_operands_ir(before, register_file, operands, n);
        assert forall|other: OperandView| is_plain(before.types, other) implies #[trigger] is_plain(
            after.types,
            other,
        ) by {
            assert(is_plain(b1.types, other));
        }
        assert forall|i: int| 0 <= i < n implies is_plain(after.types, #[trigger] operands[i]) by {
            if i < less {
                assert(is_plain(b1.types, operands[i]));
            }
        }
    }
}

pub proof fn lemma_plain_operand(
    b: LoweringView,
    after: LoweringView,
    register_file: Value,
    m: Machine,
    k: Machine,
    operand: OperandView,
)
    requires
        register_file < b.ops.len(),
        stored_terms(b, after, register_file, m, k),
        is_plain(after.types, operand),
        is_register_of(operand) ==> register_operand_of(operand) is Ok,
    ensures
        operand_value(k, register_file, operand) == standing_operand(
            b.types,
            m,
            register_file,
            operand,
        ),
{
    lemma_operand_has_place(operand);
    assert(k.values[register_file] == m.values[register_file]);
    if let Ok(register) = register_operand_of(operand) {
        let base = m.values[register_file];
        assert(standing_term(after.types, k.memory, base, register) == standing_term(
            b.types,
            m.memory,
            base,
            register,
        ));
    }
}

} // verus!

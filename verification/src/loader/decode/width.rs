//! Laws of integer operands: what is read of an integer does not depend on how many
//! bytes it was written with.

use vstd::prelude::*;
use crate::atom::Atom;
use crate::error::LoadFault;
use crate::term::is_small;
use super::compact::{
    big_literal, lemma_tagged_advances, operand_at, tagged_at, unsigned_at, CompactState,
    OperandView, Payload,
};
use super::literal::LiteralView;
use super::numbers::{
    lemma_pow256_grows, lemma_pow256_values, lemma_twos_complement_range, twos_complement,
    word_value,
};

verus! {

/// Whether the bytes from one place to another are an integer operand with a payload
/// in two's complement: up to eight bytes are counted in the first byte, more by a
/// compact number after it.
pub open spec fn writes_integer(b: Seq<u8>, at: nat, end: nat, value: int) -> bool {
    &&& at < end <= b.len() <= usize::MAX
    &&& {
        ||| exists|width: nat| #[trigger] writes_short(b, at, end, value, width)
        ||| exists|extra: u32, from: nat| #[trigger] writes_long(b, at, end, value, extra, from)
    }
}

/// An integer of two to eight bytes.
pub open spec fn writes_short(b: Seq<u8>, at: nat, end: nat, value: int, width: nat) -> bool {
    &&& 2 <= width <= 8
    &&& b[at as int] == 0b1_1001 + 32 * (width - 2)
    &&& end == at + 1 + width
    &&& twos_complement(b.subrange(at as int + 1, end as int)) == value
}

/// An integer of nine bytes or more: as many more than nine as the number says that
/// follows the first byte.
pub open spec fn writes_long(
    b: Seq<u8>,
    at: nat,
    end: nat,
    value: int,
    extra: u32,
    from: nat,
) -> bool {
    &&& b[at as int] == 0b1111_1001
    &&& unsigned_at(b, at + 1).0 == Ok::<u32, LoadFault>(extra)
    &&& unsigned_at(b, at + 1).1 == from
    &&& end == from + extra + 9
    &&& twos_complement(b.subrange(from as int, end as int)) == value
}

/// The literal that an integer needs which a term cannot hold.
pub open spec fn integer_literal(value: int) -> LiteralView {
    if i64::MIN <= value <= i64::MAX {
        LiteralView::Integer(value as i64)
    } else {
        LiteralView::BigInteger(big_literal(value))
    }
}

/// The operand for an integer, and the literals after it: an integer that a term can
/// hold is in the operand, and any other is the next literal.
pub open spec fn integer_read(value: int, known: nat, extras: Seq<LiteralView>) -> (
    OperandView,
    Seq<LiteralView>,
) {
    if is_small(value) {
        (OperandView::Integer(value as i64), extras)
    } else {
        (
            OperandView::Literal((known + extras.len()) as usize),
            extras.push(integer_literal(value)),
        )
    }
}

proof fn lemma_short_fits(run: Seq<u8>)
    requires
        2 <= run.len() <= 8,
    ensures
        i64::MIN <= twos_complement(run) <= i64::MAX,
        word_value(run, true) == twos_complement(run),
{
    lemma_twos_complement_range(run);
    lemma_pow256_values();
    lemma_pow256_grows((run.len() - 1) as nat, 7);
}

/// The operand for an integer depends on the integer alone, not on how many bytes it
/// was written with; all of these are read. One of more than eight bytes is paid for
/// with a node and its bytes.
pub proof fn law_operand_does_not_depend_on_width(
    b: Seq<u8>,
    atoms: Seq<Atom>,
    known: nat,
    s: CompactState,
    end: nat,
    value: int,
)
    requires
        writes_integer(b, s.pos, end, value),
        s.budget.nodes_remaining > 0,
        end - s.pos <= s.budget.bytes_remaining,
    ensures
        ({
            let (operand, after) = operand_at(b, atoms, known, s);
            let (expected, extras) = integer_read(value, known, s.extras);
            &&& operand == Ok::<OperandView, LoadFault>(expected)
            &&& after.pos == end
            &&& after.extras == extras
        }),
{
    let at = s.pos;
    if exists|width: nat| #[trigger] writes_short(b, at, end, value, width) {
        let width = choose|width: nat| #[trigger] writes_short(b, at, end, value, width);
        let first = b[at as int];
        let run = b.subrange(at as int + 1, end as int);
        assert(first % 8 == 1 && (first / 8) % 2 == 1 && (first / 16) % 2 == 1 && first / 32
            == width - 2);
        lemma_short_fits(run);
        assert(tagged_at(b, at).0 == Ok::<(u8, Payload), LoadFault>(
            (1u8, Payload::Small(value as i64)),
        ));
    } else {
        let (extra, from) = choose|extra: u32, from: nat|
            #[trigger] writes_long(b, at, end, value, extra, from);
        let run = b.subrange(from as int, end as int);
        lemma_tagged_advances(b, at + 1);
        assert(tagged_at(b, at).0 == Ok::<(u8, Payload), LoadFault>(
            (1u8, Payload::Big(run)),
        ));
    }
}

} // verus!

//! Laws of literal operands: each names a literal that the module has.

use vstd::prelude::*;
use crate::atom::Atom;
use crate::loader::validate::operands_of;
use super::code::{code_start, item_at, items_at, Item};
use super::compact::{
    allocation, allocations_at, extended_at, lemma_tagged_advances, moved, operand_at, operands_at,
    tagged_at, unsigned64_at, unsigned_at, Allocation, CompactState, OperandView, Payload,
};
use super::instruction::{encodes, Instruction};
use super::opcode::operand_count;

verus! {

/// Whether an operand names none but the first literals.
pub open spec fn names_literals(operand: OperandView, literals: nat) -> bool
    decreases operand, 0nat,
{
    match operand {
        OperandView::Literal(index) => index < literals,
        OperandView::List(items) => forall|i: int|
            0 <= i < items.len() ==> names_literals(#[trigger] items[i], literals),
        OperandView::TypedRegister { register, .. } => names_literals(*register, literals),
        _ => true,
    }
}

/// Whether all operands of an instruction name none but the first literals.
pub open spec fn all_name_literals(operands: Seq<OperandView>, literals: nat) -> bool {
    forall|i: int| 0 <= i < operands.len() ==> names_literals(#[trigger] operands[i], literals)
}

proof fn lemma_more_literals(operand: OperandView, fewer: nat, literals: nat)
    requires
        fewer <= literals,
        names_literals(operand, fewer),
    ensures
        names_literals(operand, literals),
    decreases operand,
{
    match operand {
        OperandView::List(items) => {
            assert forall|i: int| 0 <= i < items.len() implies names_literals(
                #[trigger] items[i],
                literals,
            ) by {
                assert(names_literals(items[i], fewer));
                lemma_more_literals(items[i], fewer, literals);
            }
        },
        OperandView::TypedRegister { register, .. } => {
            lemma_more_literals(*register, fewer, literals);
        },
        _ => {},
    }
}

/// Whether there are no more literals than bytes that were read.
spec fn few(s: CompactState) -> bool {
    s.extras.len() <= s.pos
}

proof fn lemma_operand(b: Seq<u8>, atoms: Seq<Atom>, known: nat, s: CompactState)
    requires
        few(s),
        known + b.len() <= usize::MAX,
        operand_at(b, atoms, known, s).0 is Ok,
    ensures
        ({
            let (operand, t) = operand_at(b, atoms, known, s);
            &&& few(t)
            &&& s.pos < t.pos <= b.len()
            &&& s.extras.len() <= t.extras.len()
            &&& names_literals(operand->Ok_0, known + t.extras.len())
        }),
    decreases b.len() - s.pos, 0nat,
{
    lemma_tagged_advances(b, s.pos);
    if let (Ok((tag, Payload::Small(value))), p) = tagged_at(b, s.pos) {
        if tag == 7 {
            lemma_extended(b, atoms, known, value, moved(s, p));
        }
    }
}

proof fn lemma_allocations_advance(b: Seq<u8>, at: nat, n: nat, found: Seq<Allocation>)
    requires
        at <= b.len(),
        allocations_at(b, at, n, found).0 is Ok,
    ensures
        at <= allocations_at(b, at, n, found).1 <= b.len(),
    decreases n,
{
    if n > 0 {
        lemma_tagged_advances(b, at);
        let (tag, p) = unsigned64_at(b, at);
        lemma_tagged_advances(b, p);
        let (value, q) = unsigned64_at(b, p);
        lemma_allocations_advance(
            b,
            q,
            (n - 1) as nat,
            found.push(allocation(tag->Ok_0, value->Ok_0)),
        );
    }
}

proof fn lemma_extended(b: Seq<u8>, atoms: Seq<Atom>, known: nat, subtag: i64, s: CompactState)
    requires
        few(s),
        s.pos <= b.len(),
        known + b.len() <= usize::MAX,
        extended_at(b, atoms, known, subtag, s).0 is Ok,
    ensures
        ({
            let (operand, t) = extended_at(b, atoms, known, subtag, s);
            &&& few(t)
            &&& s.pos <= t.pos <= b.len()
            &&& s.extras.len() <= t.extras.len()
            &&& names_literals(operand->Ok_0, known + t.extras.len())
        }),
    decreases b.len() - s.pos, 1nat,
{
    lemma_tagged_advances(b, s.pos);
    if subtag == 1 {
        let (len, p) = unsigned_at(b, s.pos);
        lemma_operands(b, atoms, known, len->Ok_0 as nat, Seq::empty(), moved(s, p));
    } else if subtag == 3 {
        let (len, p) = unsigned_at(b, s.pos);
        lemma_allocations_advance(b, p, len->Ok_0 as nat, Seq::empty());
    } else if subtag == 5 {
        lemma_operand(b, atoms, known, s);
        let (_, t) = operand_at(b, atoms, known, s);
        lemma_tagged_advances(b, t.pos);
    }
}

proof fn lemma_operands(
    b: Seq<u8>,
    atoms: Seq<Atom>,
    known: nat,
    n: nat,
    found: Seq<OperandView>,
    s: CompactState,
)
    requires
        few(s),
        s.pos <= b.len(),
        known + b.len() <= usize::MAX,
        operands_at(b, atoms, known, n, found, s).0 is Ok,
        all_name_literals(found, known + s.extras.len()),
    ensures
        ({
            let (operands, t) = operands_at(b, atoms, known, n, found, s);
            &&& few(t)
            &&& s.pos <= t.pos <= b.len()
            &&& s.extras.len() <= t.extras.len()
            &&& operands->Ok_0.len() == found.len() + n
            &&& all_name_literals(operands->Ok_0, known + t.extras.len())
        }),
    decreases b.len() - s.pos, n + 1,
{
    if n > 0 {
        lemma_operand(b, atoms, known, s);
        let (operand, t) = operand_at(b, atoms, known, s);
        let more = found.push(operand->Ok_0);
        assert forall|i: int| 0 <= i < more.len() implies names_literals(
            #[trigger] more[i],
            known + t.extras.len(),
        ) by {
            if i < found.len() {
                assert(names_literals(found[i], known + s.extras.len()));
                lemma_more_literals(found[i], known + s.extras.len(), known + t.extras.len());
            }
        }
        lemma_operands(b, atoms, known, (n - 1) as nat, more, t);
    }
}

/// Whether an opcode has as many operands as it takes, and these name none but the
/// first literals.
pub open spec fn item_names_literals(item: Item, literals: nat) -> bool {
    operand_count(item.opcode) == Some(item.operands.len()) && all_name_literals(
        item.operands,
        literals,
    )
}

proof fn lemma_items(b: Seq<u8>, atoms: Seq<Atom>, known: nat, found: Seq<Item>, s: CompactState)
    requires
        few(s),
        known + b.len() <= usize::MAX,
        items_at(b, atoms, known, found, s).0 is Ok,
        forall|i: int|
            0 <= i < found.len() ==> item_names_literals(
                #[trigger] found[i],
                known + s.extras.len(),
            ),
    ensures
        ({
            let (items, t) = items_at(b, atoms, known, found, s);
            forall|i: int|
                0 <= i < items->Ok_0.len() ==> item_names_literals(
                    #[trigger] items->Ok_0[i],
                    known + t.extras.len(),
                )
        }),
    decreases b.len() - s.pos,
{
    if s.pos < b.len() {
        let opcode = b[s.pos as int];
        let t = moved(s, s.pos + 1);
        if opcode != 3 {
            let (item, u) = item_at(b, atoms, known, opcode, t);
            if let Some(n) = operand_count(opcode) {
                lemma_operands(b, atoms, known, n, Seq::empty(), t);
            }
            let more = found.push(item->Ok_0);
            assert forall|i: int| 0 <= i < more.len() implies item_names_literals(
                #[trigger] more[i],
                known + u.extras.len(),
            ) by {
                if i < found.len() {
                    let operands = found[i].operands;
                    assert(item_names_literals(found[i], known + s.extras.len()));
                    assert forall|j: int| 0 <= j < operands.len() implies names_literals(
                        #[trigger] operands[j],
                        known + u.extras.len(),
                    ) by {
                        assert(names_literals(operands[j], known + s.extras.len()));
                        lemma_more_literals(
                            operands[j],
                            known + s.extras.len(),
                            known + u.extras.len(),
                        );
                    }
                }
            }
            lemma_items(b, atoms, known, more, u);
        }
    }
}

/// The operands of decoded code name literals that were known or that the code brought
/// with it.
pub proof fn law_decoded_operands_name_literals(b: Seq<u8>, atoms: Seq<Atom>, known: nat, i: int)
    requires
        known + b.len() <= usize::MAX,
        items_at(b, atoms, known, Seq::empty(), code_start()).0 is Ok,
        0 <= i < items_at(b, atoms, known, Seq::empty(), code_start()).0->Ok_0.len(),
    ensures
        ({
            let (items, s) = items_at(b, atoms, known, Seq::empty(), code_start());
            item_names_literals(items->Ok_0[i], known + s.extras.len())
        }),
{
    lemma_items(b, atoms, known, Seq::empty(), code_start());
}

/// An instruction names the literals that its operands in the code name.
#[verifier::rlimit(40)]
pub proof fn lemma_instruction_names_literals(instruction: Instruction, item: Item, literals: nat)
    requires
        encodes(instruction, item.opcode, item.operands),
        item_names_literals(item, literals),
    ensures
        all_name_literals(operands_of(instruction.view()), literals),
{
    let operands = operands_of(instruction.view());
    if instruction is TypeTest {
        assert(operands[0] == item.operands[0] && operands[1] == item.operands[1]);
    } else if !(instruction is Label) && operands.len() > 0 {
        assert(operands =~= item.operands);
    }
}

} // verus!

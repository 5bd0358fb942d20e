//! Laws of decoding code: what was decoded does not depend on what follows it.

use vstd::prelude::*;
use crate::atom::Atom;
use crate::loader::validate::law_code_is_unambiguous;
use super::code::{all_encode, code_start, item_at, items_at, Item};
use super::compact::{
    allocation, allocations_at, extended_at, integer_at, lemma_tagged_advances, moved, operand_at,
    operands_at, tagged_at, unsigned64_at, unsigned_at, Allocation, CompactState, OperandView,
    Payload,
};
use super::instruction::{instruction_views, Instruction};
use super::opcode::operand_count;

verus! {

/// Whether bytes start with other bytes.
pub open spec fn starts_with(all: Seq<u8>, b: Seq<u8>) -> bool {
    &&& b.len() <= all.len()
    &&& forall|i: int| 0 <= i < b.len() ==> #[trigger] b[i] == all[i]
}

proof fn lemma_numbers(b: Seq<u8>, all: Seq<u8>, at: nat)
    requires
        starts_with(all, b),
    ensures
        tagged_at(b, at).0 is Ok ==> tagged_at(all, at) == tagged_at(b, at),
        integer_at(b, at).0 is Ok ==> integer_at(all, at) == integer_at(b, at),
        unsigned_at(b, at).0 is Ok ==> unsigned_at(all, at) == unsigned_at(b, at),
        unsigned64_at(b, at).0 is Ok ==> unsigned64_at(all, at) == unsigned64_at(b, at),
    decreases b.len() - at,
{
    if at < b.len() {
        assert(b[at as int] == all[at as int]);
        if at + 1 < b.len() {
            assert(b[at as int + 1] == all[at as int + 1]);
        }
        lemma_numbers(b, all, at + 1);
        let upper = (b[at as int] / 32) as nat;
        if at + 1 + upper + 2 <= b.len() {
            assert(b.subrange(at as int + 1, (at + 1 + upper + 2) as int) =~= all.subrange(
                at as int + 1,
                (at + 1 + upper + 2) as int,
            ));
        }
        if let (Ok(extra), q) = unsigned_at(b, at + 1) {
            if q + extra + 9 <= b.len() {
                assert(b.subrange(q as int, (q + extra + 9) as int) =~= all.subrange(
                    q as int,
                    (q + extra + 9) as int,
                ));
            }
        }
    }
}

proof fn lemma_allocations(b: Seq<u8>, all: Seq<u8>, at: nat, n: nat, found: Seq<Allocation>)
    requires
        starts_with(all, b),
        allocations_at(b, at, n, found).0 is Ok,
    ensures
        allocations_at(all, at, n, found) == allocations_at(b, at, n, found),
    decreases n,
{
    if n > 0 {
        lemma_numbers(b, all, at);
        let (tag, p) = unsigned64_at(b, at);
        lemma_numbers(b, all, p);
        let (value, q) = unsigned64_at(b, p);
        lemma_allocations(b, all, q, (n - 1) as nat, found.push(allocation(tag->Ok_0, value->Ok_0)));
    }
}

proof fn lemma_operand(b: Seq<u8>, all: Seq<u8>, atoms: Seq<Atom>, known: nat, s: CompactState)
    requires
        starts_with(all, b),
        operand_at(b, atoms, known, s).0 is Ok,
    ensures
        operand_at(all, atoms, known, s) == operand_at(b, atoms, known, s),
    decreases b.len() - s.pos, 0nat,
{
    lemma_tagged_advances(b, s.pos);
    lemma_numbers(b, all, s.pos);
    if let (Ok((tag, Payload::Small(value))), p) = tagged_at(b, s.pos) {
        if tag == 7 {
            lemma_extended(b, all, atoms, known, value, moved(s, p));
        }
    }
}

proof fn lemma_extended(
    b: Seq<u8>,
    all: Seq<u8>,
    atoms: Seq<Atom>,
    known: nat,
    subtag: i64,
    s: CompactState,
)
    requires
        starts_with(all, b),
        extended_at(b, atoms, known, subtag, s).0 is Ok,
    ensures
        extended_at(all, atoms, known, subtag, s) == extended_at(b, atoms, known, subtag, s),
    decreases b.len() - s.pos, 1nat,
{
    lemma_tagged_advances(b, s.pos);
    lemma_numbers(b, all, s.pos);
    if subtag == 1 {
        let (len, p) = unsigned_at(b, s.pos);
        lemma_operands(b, all, atoms, known, len->Ok_0 as nat, Seq::empty(), moved(s, p));
    } else if subtag == 3 {
        let (len, p) = unsigned_at(b, s.pos);
        lemma_allocations(b, all, p, len->Ok_0 as nat, Seq::empty());
    } else if subtag == 5 {
        lemma_operand(b, all, atoms, known, s);
        let (_, t) = operand_at(b, atoms, known, s);
        lemma_numbers(b, all, t.pos);
    }
}

proof fn lemma_operands(
    b: Seq<u8>,
    all: Seq<u8>,
    atoms: Seq<Atom>,
    known: nat,
    n: nat,
    found: Seq<OperandView>,
    s: CompactState,
)
    requires
        starts_with(all, b),
        operands_at(b, atoms, known, n, found, s).0 is Ok,
    ensures
        operands_at(all, atoms, known, n, found, s) == operands_at(b, atoms, known, n, found, s),
    decreases b.len() - s.pos, n + 1,
{
    if n > 0 {
        lemma_operand(b, all, atoms, known, s);
        let (operand, t) = operand_at(b, atoms, known, s);
        lemma_operands(b, all, atoms, known, (n - 1) as nat, found.push(operand->Ok_0), t);
    }
}

proof fn lemma_items(
    b: Seq<u8>,
    rest: Seq<u8>,
    atoms: Seq<Atom>,
    known: nat,
    found: Seq<Item>,
    s: CompactState,
)
    requires
        s.pos <= b.len(),
        items_at(b, atoms, known, found, s).0 is Ok,
    ensures
        items_at(b + seq![3u8] + rest, atoms, known, found, s).0 == items_at(
            b,
            atoms,
            known,
            found,
            s,
        ).0,
    decreases b.len() - s.pos,
{
    let all = b + seq![3u8] + rest;
    assert(starts_with(all, b));
    assert(all[b.len() as int] == 3);
    if s.pos < b.len() {
        let opcode = b[s.pos as int];
        let t = moved(s, s.pos + 1);
        if opcode != 3 {
            let (item, u) = item_at(b, atoms, known, opcode, t);
            if let Some(n) = operand_count(opcode) {
                lemma_operands(b, all, atoms, known, n, Seq::empty(), t);
            }
            lemma_items(b, rest, atoms, known, found.push(item->Ok_0), u);
        }
    }
}

/// Decoding ends at the opcode that ends the code: what follows it is neither
/// decoded nor rejected, and the opcode adds no instruction.
pub proof fn law_decoding_ends_at_the_end(
    code: Seq<u8>,
    rest: Seq<u8>,
    atoms: Seq<Atom>,
    known: nat,
)
    requires
        items_at(code, atoms, known, Seq::empty(), code_start()).0 is Ok,
    ensures
        items_at(code + seq![3u8] + rest, atoms, known, Seq::empty(), code_start()).0 == items_at(
            code,
            atoms,
            known,
            Seq::empty(),
            code_start(),
        ).0,
{
    lemma_items(code, rest, atoms, known, Seq::empty(), code_start());
}

/// Instructions that are followed by the opcode that ends the code, and by anything
/// else, are decoded as they are without.
pub proof fn law_what_follows_the_end_adds_nothing(
    code: Seq<u8>,
    rest: Seq<u8>,
    atoms: Seq<Atom>,
    known: nat,
    instructions: Seq<Instruction>,
    followed: Seq<Instruction>,
)
    requires
        items_at(code, atoms, known, Seq::empty(), code_start()).0 matches Ok(items) && all_encode(
            instructions,
            items,
        ),
        items_at(code + seq![3u8] + rest, atoms, known, Seq::empty(), code_start()).0 matches Ok(
            items,
        ) ==> all_encode(followed, items),
    ensures
        items_at(code + seq![3u8] + rest, atoms, known, Seq::empty(), code_start()).0 is Ok,
        instruction_views(followed) == instruction_views(instructions),
{
    law_decoding_ends_at_the_end(code, rest, atoms, known);
    let items = items_at(code, atoms, known, Seq::empty(), code_start()).0->Ok_0;
    law_code_is_unambiguous(instructions, items);
    law_code_is_unambiguous(followed, items);
}

} // verus!

//! How the chunks of atoms and code are written, and laws that decoding gives them back.

use vstd::layout::size_of;
use vstd::prelude::*;
use vstd::utf8::encode_utf8;
use crate::atom::Atom;
use crate::error::LoadFault;
use super::bounded::{be_u32, bytes_at, i32_at};
use super::budget::{DecodeBudget, MAX_TABLE_ENTRIES};
use super::chunks::{atom_chunk, atom_entries, atom_entry, number_at};
use super::code::{code_chunk, label_above, largest_opcode, Item};
use super::compact::{integer_at, label_number};
use super::etf::EtfState;
use super::numbers::lemma_pow256_values;
use super::written::{has_part, lemma_parts, lemma_word, word};
use super::written_code::{
    code_bytes, item_fits, law_code_is_read_back, law_number_is_read_back, plain_bytes, width_for,
};
use super::written_terms::wrapped;

verus! {

/// The names of an atom chunk from one on: of each its length and its bytes. The length
/// is a byte, or a compact number.
pub open spec fn names_bytes(names: Seq<Seq<char>>, compact: bool, i: nat) -> Seq<u8>
    decreases names.len() - i,
{
    if i >= names.len() {
        Seq::empty()
    } else {
        let name = encode_utf8(names[i as int]);
        length_bytes(name.len(), compact) + name + names_bytes(names, compact, i + 1)
    }
}

/// The length of a name.
pub open spec fn length_bytes(length: nat, compact: bool) -> Seq<u8> {
    if compact {
        plain_bytes(0, length)
    } else {
        seq![length as u8]
    }
}

/// An atom chunk: how many names there are, as a negative number when their lengths are
/// compact, and the names.
pub open spec fn atoms_bytes(names: Seq<Seq<char>>, compact: bool) -> Seq<u8> {
    let count = if compact {
        -(names.len() as int)
    } else {
        names.len() as int
    };
    word(wrapped(count as i32)) + names_bytes(names, compact, 0)
}

/// Whether atoms are those of names.
pub open spec fn are_named(atoms: Seq<Atom>, names: Seq<Seq<char>>, table: Seq<Seq<char>>) -> bool {
    &&& atoms.len() == names.len()
    &&& forall|i: int|
        0 <= i < atoms.len() ==> (#[trigger] atoms[i]).0 < table.len() && table[atoms[i].0 as int]
            == names[i]
}

/// Whether names can be written with lengths of a kind.
pub open spec fn lengths_fit(names: Seq<Seq<char>>, compact: bool) -> bool {
    forall|i: int|
        0 <= i < names.len() ==> encode_utf8(#[trigger] names[i]).len() <= if compact {
            0x7fff_ffffnat
        } else {
            255nat
        }
}

proof fn lemma_number_in_part(b: Seq<u8>, place: nat, tag: u8, n: nat)
    requires
        tag < 8,
        n <= i64::MAX,
        has_part(b, place, plain_bytes(tag, n)),
    ensures
        integer_at(b.subrange(place as int, b.len() as int), 0) == (
            Ok::<(u8, i64), LoadFault>((tag, n as i64)),
            plain_bytes(tag, n).len(),
        ),
        bytes_at(b, place, plain_bytes(tag, n).len()).0 is Ok,
        bytes_at(b, place, plain_bytes(tag, n).len()).1 == place + plain_bytes(tag, n).len(),
        number_at(b, place) == (
            Ok::<(u8, i64), LoadFault>((tag, n as i64)),
            place + plain_bytes(tag, n).len(),
        ),
        plain_bytes(tag, n).len() > 0,
{
    let rest = b.subrange(place as int, b.len() as int);
    let part = plain_bytes(tag, n);
    assert forall|i: int| 0 <= i < part.len() implies #[trigger] rest[0 + i] == part[i] by {
        assert(b[place + i] == part[i]);
    }
    lemma_pow256_values();
    law_number_is_read_back(rest, 0, tag, n, width_for(n));
}

proof fn lemma_run_of(b: Seq<u8>, place: nat, run: Seq<u8>)
    requires
        has_part(b, place, run),
    ensures
        bytes_at(b, place, run.len()) == (Ok::<Seq<u8>, LoadFault>(run), place + run.len()),
{
    let found = b.subrange(place as int, (place + run.len()) as int);
    assert forall|i: int| 0 <= i < run.len() implies found[i] == run[i] by {
        assert(b[place + i] == run[i]);
    }
    assert(found =~= run);
}

proof fn lemma_name(b: Seq<u8>, compact: bool, name: Seq<char>, s: EtfState)
    requires
        has_part(b, s.pos, length_bytes(encode_utf8(name).len(), compact) + encode_utf8(name)),
        encode_utf8(name).len() <= if compact {
            0x7fff_ffffnat
        } else {
            255nat
        },
        s.budget.nodes_remaining > 0,
        s.budget.atoms_remaining > 0,
        s.names.len() < 0xffff_ffff,
    ensures
        ({
            let (atom, t) = atom_entry(b, compact, s);
            &&& atom matches Ok(atom) && atom.0 < t.names.len() && t.names[atom.0 as int] == name
            &&& t.pos == s.pos + length_bytes(encode_utf8(name).len(), compact).len()
                + encode_utf8(name).len()
            &&& t.budget.nodes_remaining == s.budget.nodes_remaining - 1
            &&& t.budget.atoms_remaining >= s.budget.atoms_remaining - 1
            &&& s.names.len() <= t.names.len() <= s.names.len() + 1
            &&& forall|i: int| 0 <= i < s.names.len() ==> #[trigger] t.names[i] == s.names[i]
        }),
{
    vstd::utf8::encode_utf8_valid_utf8(name);
    vstd::utf8::encode_utf8_decode_utf8(name);
    let bytes = encode_utf8(name);
    let length = length_bytes(bytes.len(), compact);
    lemma_parts(b, s.pos, length, bytes);
    lemma_run_of(b, s.pos + length.len(), bytes);
    if compact {
        lemma_number_in_part(b, s.pos, 0, bytes.len());
    } else {
        assert(b[s.pos as int + 0] == length[0]);
    }
    if s.names.contains(name) {
        let i = s.names.index_of(name);
        assert(0 <= i < s.names.len() && s.names[i] == name);
    }
}

proof fn lemma_names(
    b: Seq<u8>,
    compact: bool,
    names: Seq<Seq<char>>,
    i: nat,
    found: Seq<Atom>,
    s: EtfState,
)
    requires
        i <= names.len(),
        has_part(b, s.pos, names_bytes(names, compact, i)),
        lengths_fit(names, compact),
        are_named(found, names.take(i as int), s.names),
        names.len() - i <= s.budget.nodes_remaining,
        names.len() - i <= s.budget.atoms_remaining,
        s.names.len() + names.len() - i < 0xffff_ffff,
    ensures
        ({
            let (atoms, t) = atom_entries(b, compact, (names.len() - i) as nat, found, s);
            &&& atoms matches Ok(atoms) && are_named(atoms, names, t.names)
            &&& t.pos == s.pos + names_bytes(names, compact, i).len()
            &&& names_bytes(names, compact, i).len() >= names.len() - i
        }),
    decreases names.len() - i,
{
    if i == names.len() {
        assert(names.take(i as int) =~= names);
    } else {
        let name = names[i as int];
        let bytes = encode_utf8(name);
        let length = length_bytes(bytes.len(), compact);
        lemma_parts(b, s.pos, length + bytes, names_bytes(names, compact, i + 1));
        lemma_name(b, compact, name, s);
        let (atom, t) = atom_entry(b, compact, s);
        let more = found.push(atom->Ok_0);
        let later = names.take(i as int + 1);
        assert(length.len() > 0) by {
            if compact {
                lemma_parts(b, s.pos, length, bytes);
                lemma_number_in_part(b, s.pos, 0, bytes.len());
            }
        }
        assert forall|j: int| 0 <= j < more.len() implies (#[trigger] more[j]).0 < t.names.len()
            && t.names[more[j].0 as int] == later[j] by {
            if j < i {
                assert(found[j].0 < s.names.len() && s.names[found[j].0 as int] == names.take(
                    i as int,
                )[j]);
            }
        }
        lemma_names(b, compact, names, i + 1, more, t);
    }
}

/// The atoms of a chunk are those of the names that were written, in their order.
pub proof fn law_atom_chunk_is_read_back(
    names: Seq<Seq<char>>,
    compact: bool,
    table: Seq<Seq<char>>,
    budget: DecodeBudget,
)
    requires
        compact ==> names.len() > 0,
        names.len() <= MAX_TABLE_ENTRIES,
        lengths_fit(names, compact),
        names.len() <= budget.nodes_remaining,
        names.len() <= budget.atoms_remaining,
        names.len() * size_of::<Atom>() <= budget.bytes_remaining,
        table.len() + names.len() < 0xffff_ffff,
        atoms_bytes(names, compact).len() <= usize::MAX,
    ensures
        ({
            let (atoms, t) = atom_chunk(atoms_bytes(names, compact), table, budget);
            atoms matches Ok(atoms) && are_named(atoms, names, t.names)
        }),
{
    let b = atoms_bytes(names, compact);
    let count = if compact {
        -(names.len() as int)
    } else {
        names.len() as int
    };
    let rest = names_bytes(names, compact, 0);
    lemma_parts(b, 0, word(wrapped(count as i32)), rest);
    lemma_word(b, 0, wrapped(count as i32));
    assert(i32_at(b, 0) == (Ok::<i32, LoadFault>(count as i32), 4nat));
    let left = (budget.bytes_remaining - names.len() * size_of::<Atom>()) as usize;
    let paid = DecodeBudget { bytes_remaining: left, ..budget };
    let s = EtfState { pos: 4, names: table, budget: paid };
    assert(names.take(0) =~= Seq::empty());
    lemma_names(b, compact, names, 0, Seq::empty(), s);
}

/// A code chunk: the size of its header after that number, the instruction set, the
/// largest opcode, how many labels and how many functions there are, and the code.
pub open spec fn code_chunk_bytes(
    largest: u32,
    labels: u32,
    functions: u32,
    code: Seq<u8>,
) -> Seq<u8> {
    word(16) + word(0) + word(largest) + word(labels) + word(functions) + code
}

proof fn lemma_code_header(b: Seq<u8>, largest: u32, labels: u32, functions: u32, code: Seq<u8>)
    requires
        b == code_chunk_bytes(largest, labels, functions, code),
        b.len() <= usize::MAX,
    ensures
        b.len() == 20 + code.len(),
        be_u32(b, 0) == 16,
        be_u32(b, 4) == 0,
        be_u32(b, 8) == largest,
        be_u32(b, 12) == labels,
        b.subrange(20, b.len() as int) == code,
{
    let four = word(16) + word(0) + word(largest) + word(labels);
    assert(has_part(b, 0, b));
    lemma_parts(b, 0, four + word(functions), code);
    lemma_parts(b, 0, four, word(functions));
    lemma_parts(b, 0, word(16) + word(0) + word(largest), word(labels));
    lemma_parts(b, 0, word(16) + word(0), word(largest));
    lemma_parts(b, 0, word(16), word(0));
    lemma_word(b, 0, 16);
    lemma_word(b, 4, 0);
    lemma_word(b, 8, largest);
    lemma_word(b, 12, labels);
    assert(b.subrange(20, b.len() as int) =~= code);
}

/// The number of a label instruction.
pub open spec fn label_of(item: Item) -> Option<u32> {
    if item.opcode == 1 {
        match label_number(item.operands[0]) {
            Ok(label) => Some(label),
            Err(_) => None,
        }
    } else {
        None
    }
}

proof fn lemma_label_above(items: Seq<Item>, limit: u32, from: nat)
    ensures
        label_above(items, limit, from) is None <==> forall|i: int|
            from <= i < items.len() ==> (label_of(#[trigger] items[i]) matches Some(label) ==> label
                <= limit),
    decreases items.len() - from,
{
    if from < items.len() {
        lemma_label_above(items, limit, from + 1);
        if label_above(items, limit, from) is None {
            assert forall|i: int| from <= i < items.len() implies (label_of(
                #[trigger] items[i],
            ) matches Some(label) ==> label <= limit) by {
                if i == from {
                }
            }
        } else if label_above(items, limit, from + 1) is None {
            assert(label_of(items[from as int]) is Some);
        }
    }
}

proof fn lemma_largest_opcode(items: Seq<Item>, n: nat, largest: u32)
    requires
        n <= items.len(),
        forall|i: int| 0 <= i < n ==> (#[trigger] items[i]).opcode <= largest,
    ensures
        largest_opcode(items, n) matches Some(opcode) ==> opcode <= largest,
    decreases n,
{
    if n > 0 {
        lemma_largest_opcode(items, (n - 1) as nat, largest);
        assert(items[n - 1].opcode <= largest);
    }
}

/// The instructions of a code chunk are those of its code, as long as its labels and
/// opcodes are within what its header says; the number of functions is not looked at.
pub proof fn law_code_chunk_is_read_back(
    largest: u32,
    labels: u32,
    functions: u32,
    items: Seq<Item>,
    atoms: Seq<Atom>,
    known: nat,
)
    requires
        forall|i: int| 0 <= i < items.len() ==> item_fits(#[trigger] items[i], atoms, known),
        forall|i: int| 0 <= i < items.len() ==> (#[trigger] items[i]).opcode <= largest,
        forall|i: int|
            0 <= i < items.len() ==> (label_of(#[trigger] items[i]) matches Some(label) ==> label
                <= labels),
        code_chunk_bytes(largest, labels, functions, code_bytes(items, atoms, 0)).len()
            <= usize::MAX,
    ensures
        code_chunk(
            code_chunk_bytes(largest, labels, functions, code_bytes(items, atoms, 0)),
            atoms,
            known,
        ) matches Ok(decoded) && decoded.0 == items,
{
    let code = code_bytes(items, atoms, 0);
    let b = code_chunk_bytes(largest, labels, functions, code);
    lemma_code_header(b, largest, labels, functions, code);
    law_code_is_read_back(items, atoms, known);
    lemma_label_above(items, labels, 0);
    lemma_largest_opcode(items, items.len(), largest);
}

/// A code chunk is refused when it has a label above the number in its header.
pub proof fn law_labels_are_within_their_count(
    largest: u32,
    labels: u32,
    functions: u32,
    items: Seq<Item>,
    atoms: Seq<Atom>,
    known: nat,
    i: int,
)
    requires
        forall|j: int| 0 <= j < items.len() ==> item_fits(#[trigger] items[j], atoms, known),
        0 <= i < items.len(),
        label_of(items[i]) matches Some(label) && label > labels,
        code_chunk_bytes(largest, labels, functions, code_bytes(items, atoms, 0)).len()
            <= usize::MAX,
    ensures
        code_chunk(
            code_chunk_bytes(largest, labels, functions, code_bytes(items, atoms, 0)),
            atoms,
            known,
        ) is Err,
{
    let code = code_bytes(items, atoms, 0);
    let b = code_chunk_bytes(largest, labels, functions, code);
    lemma_code_header(b, largest, labels, functions, code);
    law_code_is_read_back(items, atoms, known);
    lemma_label_above(items, labels, 0);
}

} // verus!

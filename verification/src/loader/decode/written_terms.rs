//! How terms are written in the External Term Format, and laws that decoding gives them
//! back.

use vstd::layout::size_of;
use vstd::prelude::*;
use vstd::utf8::encode_utf8;
use crate::atom::Atom;
use crate::error::LoadFault;
use super::bounded::{be_u16, be_u32, be_u64, bytes_at, i32_at, u16_at, u32_at, u8_at};
use super::budget::{DecodeBudget, MAX_TABLE_ENTRIES};
use super::etf::{
    big_term, list_term, map_term, pairs_at, tagged_term, term_at, terms_at, tuple_term, EtfState,
};
use super::literal::{Literal, LiteralView};
use super::numbers::{le_value, lemma_pow256_values, pow256};
use super::written::{has_part, lemma_parts, lemma_word, word};

verus! {

/// A number of 16 bits, most significant byte first.
pub open spec fn half_word(n: u16) -> Seq<u8> {
    seq![(n as int / 256) as u8, (n as int % 256) as u8]
}

/// A number of 64 bits, most significant byte first.
pub open spec fn double_word(n: u64) -> Seq<u8> {
    word((n as int / 4294967296) as u32) + word((n as int % 4294967296) as u32)
}

/// A number in two's complement of 32 bits, as a number without a sign.
pub open spec fn wrapped(n: i32) -> u32 {
    if n < 0 {
        (n + 4294967296) as u32
    } else {
        n as u32
    }
}

proof fn lemma_half_word(b: Seq<u8>, place: nat, n: u16)
    requires
        has_part(b, place, half_word(n)),
    ensures
        u16_at(b, place) == (Ok::<u16, LoadFault>(n), place + 2),
{
    let part = half_word(n);
    assert(b[place as int + 0] == part[0]);
    assert(b[place as int + 1] == part[1]);
    assert(be_u16(b, place as int) == n);
}

proof fn lemma_byte(b: Seq<u8>, place: nat, n: u8)
    requires
        has_part(b, place, seq![n]),
    ensures
        u8_at(b, place) == (Ok::<u8, LoadFault>(n), place + 1),
{
    assert(b[place as int + 0] == seq![n][0]);
}

proof fn lemma_run(b: Seq<u8>, place: nat, run: Seq<u8>)
    requires
        has_part(b, place, run),
    ensures
        bytes_at(b, place, run.len()) == (Ok::<Seq<u8>, LoadFault>(run), place + run.len()),
{
    let found = b.subrange(place as int, (place + run.len()) as int);
    assert forall|i: int| 0 <= i < run.len() implies found[i] == run[i] by {
        assert(b[place + i] == run[i]);
    }
    assert(found =~= run);
}

/// A state further on, after as many nodes and bytes were paid for.
pub open spec fn after(s: EtfState, length: nat, nodes: nat, bytes: nat) -> EtfState {
    EtfState {
        pos: s.pos + length,
        names: s.names,
        budget: DecodeBudget {
            nodes_remaining: (s.budget.nodes_remaining - nodes) as usize,
            bytes_remaining: (s.budget.bytes_remaining - bytes) as usize,
            ..s.budget
        },
    }
}

/// A byte is an integer without a sign.
pub proof fn law_small_integer_is_read_back(b: Seq<u8>, depth: nat, s: EtfState, n: u8)
    requires
        has_part(b, s.pos, seq![97u8, n]),
        s.budget.nodes_remaining > 0,
    ensures
        term_at(b, depth, s) == (
            Ok::<LiteralView, LoadFault>(LiteralView::Integer(n as i64)),
            after(s, 2, 1, 0),
        ),
{
    assert(seq![97u8, n] =~= seq![97u8] + seq![n]);
    lemma_parts(b, s.pos, seq![97u8], seq![n]);
    lemma_byte(b, s.pos, 97);
    lemma_byte(b, s.pos + 1, n);
}

/// Four bytes are an integer in two's complement.
pub proof fn law_integer_is_read_back(b: Seq<u8>, depth: nat, s: EtfState, n: i32)
    requires
        has_part(b, s.pos, seq![98u8] + word(wrapped(n))),
        s.budget.nodes_remaining > 0,
    ensures
        term_at(b, depth, s) == (
            Ok::<LiteralView, LoadFault>(LiteralView::Integer(n as i64)),
            after(s, 5, 1, 0),
        ),
{
    lemma_parts(b, s.pos, seq![98u8], word(wrapped(n)));
    lemma_byte(b, s.pos, 98);
    lemma_word(b, s.pos + 1, wrapped(n));
    assert(be_u32(b, s.pos as int + 1) as u32 == wrapped(n));
    assert(0 <= be_u32(b, s.pos as int + 1) < 4294967296);
    assert(i32_at(b, s.pos + 1).0 == Ok::<i32, LoadFault>(n));
}

/// An integer of a sign and a magnitude of up to eight bytes, least significant first,
/// is the magnitude, or minus the magnitude when the sign is one.
pub proof fn law_signed_magnitude_is_read_back(
    b: Seq<u8>,
    depth: nat,
    s: EtfState,
    negative: bool,
    magnitude: Seq<u8>,
    value: int,
    wide: bool,
)
    requires
        magnitude.len() <= 8,
        negative ==> value == -(le_value(magnitude) as int),
        !negative ==> value == le_value(magnitude),
        i64::MIN <= value <= i64::MAX,
        has_part(b, s.pos, big_head(wide, magnitude.len(), negative) + magnitude),
        s.budget.nodes_remaining > 0,
    ensures
        term_at(b, depth, s) == (
            Ok::<LiteralView, LoadFault>(LiteralView::Integer(value as i64)),
            after(s, big_head(wide, magnitude.len(), negative).len() + magnitude.len(), 1, 0),
        ),
{
    lemma_big(b, depth, s, negative, magnitude, wide);
}

/// The start of an integer of a sign and a magnitude: the tag, the length of the
/// magnitude in one byte or in four, and the sign.
pub open spec fn big_head(wide: bool, length: nat, negative: bool) -> Seq<u8> {
    let sign: u8 = if negative {
        1
    } else {
        0
    };
    if wide {
        seq![111u8] + word(length as u32) + seq![sign]
    } else {
        seq![110u8] + seq![length as u8] + seq![sign]
    }
}

proof fn lemma_big(
    b: Seq<u8>,
    depth: nat,
    s: EtfState,
    negative: bool,
    magnitude: Seq<u8>,
    wide: bool,
)
    requires
        magnitude.len() <= if wide {
            0xffff_ffffnat
        } else {
            255nat
        },
        has_part(b, s.pos, big_head(wide, magnitude.len(), negative) + magnitude),
        s.budget.nodes_remaining > 0,
    ensures
        ({
            let head = big_head(wide, magnitude.len(), negative).len();
            let sign: u8 = if negative {
                1
            } else {
                0
            };
            let t = after(s, (head - 1) as nat, 1, 0);
            &&& term_at(b, depth, s) == big_term(b, magnitude.len(), t)
            &&& head == if wide {
                6nat
            } else {
                3nat
            }
            &&& u8_at(b, t.pos) == (Ok::<u8, LoadFault>(sign), t.pos + 1)
            &&& bytes_at(b, t.pos + 1, magnitude.len()) == (
                Ok::<Seq<u8>, LoadFault>(magnitude),
                s.pos + head + magnitude.len(),
            )
        }),
{
    let head = big_head(wide, magnitude.len(), negative);
    let sign: u8 = if negative {
        1
    } else {
        0
    };
    lemma_parts(b, s.pos, head, magnitude);
    lemma_run(b, s.pos + head.len(), magnitude);
    if wide {
        lemma_parts(b, s.pos, seq![111u8] + word(magnitude.len() as u32), seq![sign]);
        lemma_parts(b, s.pos, seq![111u8], word(magnitude.len() as u32));
        lemma_byte(b, s.pos, 111);
        lemma_word(b, s.pos + 1, magnitude.len() as u32);
        lemma_byte(b, s.pos + 5, sign);
    } else {
        lemma_parts(b, s.pos, seq![110u8] + seq![magnitude.len() as u8], seq![sign]);
        lemma_parts(b, s.pos, seq![110u8], seq![magnitude.len() as u8]);
        lemma_byte(b, s.pos, 110);
        lemma_byte(b, s.pos + 1, magnitude.len() as u8);
        lemma_byte(b, s.pos + 2, sign);
    }
}

/// An integer of more than eight bytes keeps its sign and its magnitude.
pub proof fn law_long_magnitude_is_kept(
    b: Seq<u8>,
    depth: nat,
    s: EtfState,
    negative: bool,
    magnitude: Seq<u8>,
    wide: bool,
)
    requires
        8 < magnitude.len() <= if wide {
            0xffff_ffffnat
        } else {
            255nat
        },
        has_part(b, s.pos, big_head(wide, magnitude.len(), negative) + magnitude),
        s.budget.nodes_remaining > 0,
        magnitude.len() < s.budget.bytes_remaining,
    ensures
        ({
            let sign: u8 = if negative {
                1
            } else {
                0
            };
            term_at(b, depth, s) == (
                Ok::<LiteralView, LoadFault>(LiteralView::BigInteger(seq![sign] + magnitude)),
                after(
                    s,
                    big_head(wide, magnitude.len(), negative).len() + magnitude.len(),
                    1,
                    magnitude.len() + 1,
                ),
            )
        }),
{
    lemma_big(b, depth, s, negative, magnitude, wide);
}

/// Eight bytes are a float, by its bits.
pub proof fn law_float_is_read_back(b: Seq<u8>, depth: nat, s: EtfState, bits: u64)
    requires
        has_part(b, s.pos, seq![70u8] + double_word(bits)),
        s.budget.nodes_remaining > 0,
    ensures
        term_at(b, depth, s) == (
            Ok::<LiteralView, LoadFault>(LiteralView::Float(bits)),
            after(s, 9, 1, 0),
        ),
{
    let high = (bits as int / 4294967296) as u32;
    let low = (bits as int % 4294967296) as u32;
    lemma_parts(b, s.pos, seq![70u8], double_word(bits));
    lemma_byte(b, s.pos, 70);
    lemma_run(b, s.pos + 1, double_word(bits));
    lemma_parts(b, s.pos + 1, word(high), word(low));
    lemma_word(b, s.pos + 1, high);
    lemma_word(b, s.pos + 5, low);
    assert(be_u32(b, s.pos as int + 1) == high);
    assert(be_u32(b, s.pos as int + 5) == low);
    assert(be_u64(b, s.pos as int + 1) == bits);
}

/// The start of an atom: one of three tags, and the length of its name in one byte or in
/// two.
pub open spec fn atom_head(tag: u8, length: nat) -> Seq<u8> {
    if tag == 119 {
        seq![119u8] + seq![length as u8]
    } else {
        seq![tag] + half_word(length as u16)
    }
}

/// An atom is the one of its name, which is in the table afterwards.
pub proof fn law_atom_is_read_back(
    b: Seq<u8>,
    depth: nat,
    s: EtfState,
    name: Seq<char>,
    tag: u8,
)
    requires
        tag == 100 || tag == 118 || tag == 119,
        encode_utf8(name).len() <= if tag == 119 {
            255nat
        } else {
            65535nat
        },
        has_part(b, s.pos, atom_head(tag, encode_utf8(name).len()) + encode_utf8(name)),
        s.budget.nodes_remaining > 0,
        s.budget.atoms_remaining > 0 || s.names.contains(name),
        s.names.len() < 0xffff_ffff,
    ensures
        ({
            let (literal, t) = term_at(b, depth, s);
            let head = atom_head(tag, encode_utf8(name).len());
            &&& literal matches Ok(LiteralView::Atom(atom)) && atom.0 < t.names.len()
                && t.names[atom.0 as int] == name
            &&& t.pos == s.pos + head.len() + encode_utf8(name).len()
            &&& s.names.contains(name) ==> t == after(
                s,
                head.len() + encode_utf8(name).len(),
                1,
                0,
            )
            &&& !s.names.contains(name) ==> t.names == s.names.push(name)
        }),
{
    vstd::utf8::encode_utf8_valid_utf8(name);
    vstd::utf8::encode_utf8_decode_utf8(name);
    let bytes = encode_utf8(name);
    let head = atom_head(tag, bytes.len());
    lemma_parts(b, s.pos, head, bytes);
    lemma_run(b, s.pos + head.len(), bytes);
    if tag == 119 {
        lemma_parts(b, s.pos, seq![119u8], seq![bytes.len() as u8]);
        lemma_byte(b, s.pos, 119);
        lemma_byte(b, s.pos + 1, bytes.len() as u8);
    } else {
        lemma_parts(b, s.pos, seq![tag], half_word(bytes.len() as u16));
        lemma_byte(b, s.pos, tag);
        lemma_half_word(b, s.pos + 1, bytes.len() as u16);
    }
    if s.names.contains(name) {
        let i = s.names.index_of(name);
        assert(0 <= i < s.names.len() && s.names[i] == name);
    }
}

/// The bytes of a term. Atoms are written by their names.
pub open spec fn term_bytes(term: LiteralView, names: Seq<Seq<char>>) -> Seq<u8>
    decreases term, 0nat,
{
    match term {
        LiteralView::Integer(n) => if 0 <= n <= 255 {
            seq![97u8, n as u8]
        } else if -2147483648 <= n <= 2147483647 {
            seq![98u8] + word(wrapped(n as i32))
        } else {
            big_head(false, 8, n < 0) + le_run(magnitude_of(n), 8)
        },
        LiteralView::Float(bits) => seq![70u8] + double_word(bits),
        LiteralView::BigInteger(bytes) => big_head(true, (bytes.len() - 1) as nat, bytes[0] == 1)
            + bytes.skip(1),
        LiteralView::Atom(atom) => atom_head(118, encode_utf8(names[atom.0 as int]).len())
            + encode_utf8(names[atom.0 as int]),
        LiteralView::Binary(bytes) => seq![109u8] + word(bytes.len() as u32) + bytes,
        LiteralView::String(bytes) => seq![107u8] + half_word(bytes.len() as u16) + bytes,
        LiteralView::Nil => seq![106u8],
        LiteralView::Tuple(items) => if items.len() <= 255 {
            seq![104u8] + seq![items.len() as u8] + terms_bytes(items, names, 0)
        } else {
            seq![105u8] + word(items.len() as u32) + terms_bytes(items, names, 0)
        },
        LiteralView::List(items, tail) => seq![108u8] + word(items.len() as u32) + (terms_bytes(
            items,
            names,
            0,
        ) + term_bytes(*tail, names)),
        LiteralView::MapPairs(pairs) => seq![116u8] + word(pairs.len() as u32) + pairs_bytes(
            pairs,
            names,
            0,
        ),
    }
}

/// The bytes of the terms from one on.
pub open spec fn terms_bytes(items: Seq<LiteralView>, names: Seq<Seq<char>>, i: nat) -> Seq<u8>
    decreases items, items.len() - i,
{
    if i >= items.len() {
        Seq::empty()
    } else {
        term_bytes(items[i as int], names) + terms_bytes(items, names, i + 1)
    }
}

/// The bytes of the pairs from one on: of each the key, then the value.
pub open spec fn pairs_bytes(
    pairs: Seq<(LiteralView, LiteralView)>,
    names: Seq<Seq<char>>,
    i: nat,
) -> Seq<u8>
    decreases pairs, pairs.len() - i,
{
    if i >= pairs.len() {
        Seq::empty()
    } else {
        term_bytes(pairs[i as int].0, names) + (term_bytes(pairs[i as int].1, names) + pairs_bytes(
            pairs,
            names,
            i + 1,
        ))
    }
}

/// How far an integer is from zero.
pub open spec fn magnitude_of(n: i64) -> nat {
    if n < 0 {
        (-n) as nat
    } else {
        n as nat
    }
}

/// A number in as many bytes, least significant first.
pub open spec fn le_run(n: nat, width: nat) -> Seq<u8>
    decreases width,
{
    if width == 0 {
        Seq::empty()
    } else {
        seq![(n % 256) as u8] + le_run(n / 256, (width - 1) as nat)
    }
}

proof fn lemma_le_run(n: nat, width: nat)
    requires
        n < pow256(width),
    ensures
        le_run(n, width).len() == width,
        le_value(le_run(n, width)) == n,
    decreases width,
{
    if width > 0 {
        lemma_le_run(n / 256, (width - 1) as nat);
        assert(le_run(n, width).skip(1) =~= le_run(n / 256, (width - 1) as nat));
    }
}

/// Whether a term can be written: its lengths fit in the words that hold them, and its
/// atoms are in the table, each once.
pub open spec fn can_be_written(term: LiteralView, names: Seq<Seq<char>>) -> bool
    decreases term, 0nat,
{
    match term {
        LiteralView::BigInteger(bytes) => 9 < bytes.len() <= 0x1_0000_0000 && bytes[0] <= 1,
        LiteralView::Atom(atom) => {
            &&& atom.0 < names.len()
            &&& names.index_of(names[atom.0 as int]) == atom.0
            &&& encode_utf8(names[atom.0 as int]).len() <= 65535
        },
        LiteralView::Binary(bytes) => bytes.len() <= 0xffff_ffff,
        LiteralView::String(bytes) => bytes.len() <= 65535,
        LiteralView::Tuple(items) => items.len() <= MAX_TABLE_ENTRIES && forall|i: int|
            0 <= i < items.len() ==> can_be_written(#[trigger] items[i], names),
        LiteralView::List(items, tail) => items.len() <= MAX_TABLE_ENTRIES && can_be_written(
            *tail,
            names,
        ) && forall|i: int|
            0 <= i < items.len() ==> can_be_written(#[trigger] items[i], names),
        LiteralView::MapPairs(pairs) => pairs.len() <= MAX_TABLE_ENTRIES && forall|i: int|
            0 <= i < pairs.len() ==> can_be_written((#[trigger] pairs[i]).0, names)
                && can_be_written(pairs[i].1, names),
        _ => true,
    }
}

/// What decoding a term costs: nodes, bytes, and levels of nesting.
pub struct Cost {
    pub nodes: nat,
    pub bytes: nat,
    pub depth: nat,
}

/// The cost of two terms, one after the other.
pub open spec fn both(one: Cost, other: Cost) -> Cost {
    Cost {
        nodes: one.nodes + other.nodes,
        bytes: one.bytes + other.bytes,
        depth: if one.depth < other.depth {
            other.depth
        } else {
            one.depth
        },
    }
}

/// The cost of a term around others, with a row of `count` of `size` bytes each.
pub open spec fn around(inner: Cost, count: nat, size: nat) -> Cost {
    Cost { nodes: inner.nodes + 1, bytes: inner.bytes + count * size, depth: inner.depth + 1 }
}

/// The cost of a term.
pub open spec fn cost(term: LiteralView) -> Cost
    decreases term, 0nat,
{
    match term {
        LiteralView::BigInteger(bytes) => Cost { nodes: 1, bytes: bytes.len(), depth: 0 },
        LiteralView::Binary(bytes) => Cost { nodes: 1, bytes: bytes.len(), depth: 0 },
        LiteralView::String(bytes) => Cost { nodes: 1, bytes: bytes.len(), depth: 0 },
        LiteralView::Tuple(items) => around(
            costs(items, 0),
            items.len(),
            size_of::<Literal>(),
        ),
        LiteralView::List(items, tail) => around(
            both(costs(items, 0), cost(*tail)),
            items.len(),
            size_of::<Literal>(),
        ),
        LiteralView::MapPairs(pairs) => around(
            pair_costs(pairs, 0),
            pairs.len(),
            size_of::<(Literal, Literal)>(),
        ),
        _ => Cost { nodes: 1, bytes: 0, depth: 0 },
    }
}

/// The cost of the terms from one on.
pub open spec fn costs(items: Seq<LiteralView>, i: nat) -> Cost
    decreases items, items.len() - i,
{
    if i >= items.len() {
        Cost { nodes: 0, bytes: 0, depth: 0 }
    } else {
        both(cost(items[i as int]), costs(items, i + 1))
    }
}

/// The cost of the pairs from one on.
pub open spec fn pair_costs(pairs: Seq<(LiteralView, LiteralView)>, i: nat) -> Cost
    decreases pairs, pairs.len() - i,
{
    if i >= pairs.len() {
        Cost { nodes: 0, bytes: 0, depth: 0 }
    } else {
        both(
            cost(pairs[i as int].0),
            both(cost(pairs[i as int].1), pair_costs(pairs, i + 1)),
        )
    }
}

/// Whether a budget is enough.
pub open spec fn affords(s: EtfState, depth: nat, price: Cost) -> bool {
    &&& price.nodes <= s.budget.nodes_remaining
    &&& price.bytes <= s.budget.bytes_remaining
    &&& price.depth <= depth
}

proof fn lemma_term_is_not_empty(term: LiteralView, names: Seq<Seq<char>>)
    ensures
        term_bytes(term, names).len() > 0,
{
}

proof fn lemma_terms_take_bytes(items: Seq<LiteralView>, names: Seq<Seq<char>>, i: nat)
    ensures
        i <= items.len() ==> terms_bytes(items, names, i).len() >= items.len() - i,
    decreases items.len() - i,
{
    if i < items.len() {
        lemma_term_is_not_empty(items[i as int], names);
        lemma_terms_take_bytes(items, names, i + 1);
    }
}

proof fn lemma_pairs_take_bytes(
    pairs: Seq<(LiteralView, LiteralView)>,
    names: Seq<Seq<char>>,
    i: nat,
)
    ensures
        i <= pairs.len() ==> pairs_bytes(pairs, names, i).len() >= 2 * (pairs.len() - i),
    decreases pairs.len() - i,
{
    if i < pairs.len() {
        lemma_term_is_not_empty(pairs[i as int].0, names);
        lemma_term_is_not_empty(pairs[i as int].1, names);
        lemma_pairs_take_bytes(pairs, names, i + 1);
    }
}

/// The start of a term with a tag and a number of 32 bits.
proof fn lemma_counted(b: Seq<u8>, s: EtfState, tag: u8, n: u32, rest: Seq<u8>)
    requires
        has_part(b, s.pos, seq![tag] + word(n) + rest),
    ensures
        u8_at(b, s.pos) == (Ok::<u8, LoadFault>(tag), s.pos + 1),
        u32_at(b, s.pos + 1) == (Ok::<u32, LoadFault>(n), s.pos + 5),
        has_part(b, s.pos + 5, rest),
{
    lemma_parts(b, s.pos, seq![tag] + word(n), rest);
    lemma_parts(b, s.pos, seq![tag], word(n));
    lemma_byte(b, s.pos, tag);
    lemma_word(b, s.pos + 1, n);
}

proof fn lemma_tag(b: Seq<u8>, depth: nat, s: EtfState, tag: u8)
    requires
        u8_at(b, s.pos) == (Ok::<u8, LoadFault>(tag), s.pos + 1),
        s.budget.nodes_remaining > 0,
    ensures
        term_at(b, depth, s) == tagged_term(b, tag, depth, after(s, 1, 1, 0)),
{
}

proof fn lemma_binary_term(b: Seq<u8>, depth: nat, s: EtfState, bytes: Seq<u8>)
    requires
        bytes.len() <= 0xffff_ffff,
        has_part(b, s.pos, seq![109u8] + word(bytes.len() as u32) + bytes),
        s.budget.nodes_remaining > 0,
        bytes.len() <= s.budget.bytes_remaining,
    ensures
        term_at(b, depth, s) == (
            Ok::<LiteralView, LoadFault>(LiteralView::Binary(bytes)),
            after(s, 5 + bytes.len(), 1, bytes.len()),
        ),
{
    lemma_counted(b, s, 109, bytes.len() as u32, bytes);
    lemma_tag(b, depth, s, 109);
    lemma_run(b, s.pos + 5, bytes);
}

proof fn lemma_string_term(b: Seq<u8>, depth: nat, s: EtfState, bytes: Seq<u8>)
    requires
        bytes.len() <= 65535,
        has_part(b, s.pos, seq![107u8] + half_word(bytes.len() as u16) + bytes),
        s.budget.nodes_remaining > 0,
        bytes.len() <= s.budget.bytes_remaining,
    ensures
        term_at(b, depth, s) == (
            Ok::<LiteralView, LoadFault>(LiteralView::String(bytes)),
            after(s, 3 + bytes.len(), 1, bytes.len()),
        ),
{
    let length = bytes.len() as u16;
    lemma_parts(b, s.pos, seq![107u8] + half_word(length), bytes);
    lemma_parts(b, s.pos, seq![107u8], half_word(length));
    lemma_byte(b, s.pos, 107);
    lemma_half_word(b, s.pos + 1, length);
    lemma_tag(b, depth, s, 107);
    lemma_run(b, s.pos + 3, bytes);
}

proof fn lemma_atom_term(b: Seq<u8>, depth: nat, s: EtfState, atom: Atom)
    requires
        can_be_written(LiteralView::Atom(atom), s.names),
        has_part(b, s.pos, term_bytes(LiteralView::Atom(atom), s.names)),
        s.budget.nodes_remaining > 0,
        s.names.len() < 0xffff_ffff,
    ensures
        term_at(b, depth, s) == (
            Ok::<LiteralView, LoadFault>(LiteralView::Atom(atom)),
            after(s, term_bytes(LiteralView::Atom(atom), s.names).len(), 1, 0),
        ),
{
    let name = s.names[atom.0 as int];
    assert(s.names.contains(name));
    law_atom_is_read_back(b, depth, s, name, 118);
    lemma_same_atom(b, depth, s, atom);
}

#[verifier::rlimit(40)]
#[verifier::spinoff_prover]
proof fn lemma_flat_term(term: LiteralView, b: Seq<u8>, depth: nat, s: EtfState)
    requires
        !(term is Tuple) && !(term is List) && !(term is MapPairs),
        can_be_written(term, s.names),
        has_part(b, s.pos, term_bytes(term, s.names)),
        affords(s, depth, cost(term)),
        s.names.len() < 0xffff_ffff,
    ensures
        term_at(b, depth, s) == (
            Ok::<LiteralView, LoadFault>(term),
            after(s, term_bytes(term, s.names).len(), cost(term).nodes, cost(term).bytes),
        ),
{
    match term {
        LiteralView::Integer(n) => {
            if 0 <= n <= 255 {
                law_small_integer_is_read_back(b, depth, s, n as u8);
            } else if -2147483648 <= n <= 2147483647 {
                law_integer_is_read_back(b, depth, s, n as i32);
            } else {
                lemma_pow256_values();
                lemma_le_run(magnitude_of(n), 8);
                law_signed_magnitude_is_read_back(
                    b,
                    depth,
                    s,
                    n < 0,
                    le_run(magnitude_of(n), 8),
                    n as int,
                    false,
                );
            }
        },
        LiteralView::Float(bits) => law_float_is_read_back(b, depth, s, bits),
        LiteralView::BigInteger(bytes) => {
            let magnitude = bytes.skip(1);
            law_long_magnitude_is_kept(b, depth, s, bytes[0] == 1, magnitude, true);
            assert(seq![bytes[0]] + magnitude =~= bytes);
        },
        LiteralView::Atom(atom) => lemma_atom_term(b, depth, s, atom),
        LiteralView::Binary(bytes) => lemma_binary_term(b, depth, s, bytes),
        LiteralView::String(bytes) => lemma_string_term(b, depth, s, bytes),
        _ => {
            lemma_byte(b, s.pos, 106);
        },
    }
}

proof fn lemma_same_atom(b: Seq<u8>, depth: nat, s: EtfState, atom: Atom)
    requires
        can_be_written(LiteralView::Atom(atom), s.names),
        has_part(b, s.pos, term_bytes(LiteralView::Atom(atom), s.names)),
        s.budget.nodes_remaining > 0,
        s.names.len() < 0xffff_ffff,
    ensures
        term_at(b, depth, s).0 == Ok::<LiteralView, LoadFault>(LiteralView::Atom(atom)),
{
    let name = s.names[atom.0 as int];
    assert(s.names.contains(name));
    let bytes = encode_utf8(name);
    vstd::utf8::encode_utf8_valid_utf8(name);
    vstd::utf8::encode_utf8_decode_utf8(name);
    let head = atom_head(118, bytes.len());
    lemma_parts(b, s.pos, head, bytes);
    lemma_run(b, s.pos + head.len(), bytes);
    lemma_parts(b, s.pos, seq![118u8], half_word(bytes.len() as u16));
    lemma_byte(b, s.pos, 118);
    lemma_half_word(b, s.pos + 1, bytes.len() as u16);
}

/// Decoding a term that was written gives the term back, reads as many bytes as were
/// written, and costs what the term costs.
pub proof fn law_written_term_is_read_back(term: LiteralView, b: Seq<u8>, depth: nat, s: EtfState)
    requires
        can_be_written(term, s.names),
        has_part(b, s.pos, term_bytes(term, s.names)),
        affords(s, depth, cost(term)),
        s.names.len() < 0xffff_ffff,
    ensures
        term_at(b, depth, s) == (
            Ok::<LiteralView, LoadFault>(term),
            after(s, term_bytes(term, s.names).len(), cost(term).nodes, cost(term).bytes),
        ),
    decreases term, 1nat,
{
    match term {
        LiteralView::Tuple(items) => lemma_written_tuple(term, items, b, depth, s),
        LiteralView::List(items, tail) => lemma_written_list(term, items, *tail, b, depth, s),
        LiteralView::MapPairs(pairs) => lemma_written_map(term, pairs, b, depth, s),
        _ => lemma_flat_term(term, b, depth, s),
    }
}

#[verifier::rlimit(40)]
#[verifier::spinoff_prover]
proof fn lemma_written_tuple(
    term: LiteralView,
    items: Seq<LiteralView>,
    b: Seq<u8>,
    depth: nat,
    s: EtfState,
)
    requires
        term == LiteralView::Tuple(items),
        can_be_written(term, s.names),
        has_part(b, s.pos, term_bytes(term, s.names)),
        affords(s, depth, cost(term)),
        s.names.len() < 0xffff_ffff,
    ensures
        term_at(b, depth, s) == (
            Ok::<LiteralView, LoadFault>(term),
            after(s, term_bytes(term, s.names).len(), cost(term).nodes, cost(term).bytes),
        ),
    decreases term, 0nat,
{
    let names = s.names;
    let rest = terms_bytes(items, names, 0);
    let row = items.len() * size_of::<Literal>();
    lemma_terms_take_bytes(items, names, 0);
    let head: nat = if items.len() <= 255 {
        let n = items.len() as u8;
        lemma_parts(b, s.pos, seq![104u8] + seq![n], rest);
        lemma_parts(b, s.pos, seq![104u8], seq![n]);
        lemma_byte(b, s.pos, 104);
        lemma_byte(b, s.pos + 1, n);
        lemma_tag(b, depth, s, 104);
        2
    } else {
        lemma_counted(b, s, 105, items.len() as u32, rest);
        lemma_tag(b, depth, s, 105);
        5
    };
    let t = after(s, head, 1, row);
    assert(term_at(b, depth, s) == tuple_term(b, items.len(), depth, after(s, head, 1, 0)));
    lemma_written_terms(items, 0, b, (depth - 1) as nat, t);
    assert(items.take(0) =~= Seq::empty());
}

#[verifier::rlimit(40)]
#[verifier::spinoff_prover]
proof fn lemma_written_list(
    term: LiteralView,
    items: Seq<LiteralView>,
    tail: LiteralView,
    b: Seq<u8>,
    depth: nat,
    s: EtfState,
)
    requires
        term == LiteralView::List(items, Box::new(tail)),
        can_be_written(term, s.names),
        has_part(b, s.pos, term_bytes(term, s.names)),
        affords(s, depth, cost(term)),
        s.names.len() < 0xffff_ffff,
    ensures
        term_at(b, depth, s) == (
            Ok::<LiteralView, LoadFault>(term),
            after(s, term_bytes(term, s.names).len(), cost(term).nodes, cost(term).bytes),
        ),
    decreases term, 0nat,
{
    let names = s.names;
    let rest = terms_bytes(items, names, 0);
    let row = items.len() * size_of::<Literal>();
    lemma_terms_take_bytes(items, names, 0);
    lemma_counted(b, s, 108, items.len() as u32, rest + term_bytes(tail, names));
    lemma_parts(b, s.pos + 5, rest, term_bytes(tail, names));
    lemma_tag(b, depth, s, 108);
    let t = after(s, 5, 1, row);
    assert(term_at(b, depth, s) == list_term(b, items.len(), depth, after(s, 5, 1, 0)));
    lemma_written_terms(items, 0, b, (depth - 1) as nat, t);
    assert(items.take(0) =~= Seq::empty());
    let inner = costs(items, 0);
    let u = after(t, rest.len(), inner.nodes, inner.bytes);
    law_written_term_is_read_back(tail, b, (depth - 1) as nat, u);
}

#[verifier::rlimit(40)]
#[verifier::spinoff_prover]
proof fn lemma_written_map(
    term: LiteralView,
    pairs: Seq<(LiteralView, LiteralView)>,
    b: Seq<u8>,
    depth: nat,
    s: EtfState,
)
    requires
        term == LiteralView::MapPairs(pairs),
        can_be_written(term, s.names),
        has_part(b, s.pos, term_bytes(term, s.names)),
        affords(s, depth, cost(term)),
        s.names.len() < 0xffff_ffff,
    ensures
        term_at(b, depth, s) == (
            Ok::<LiteralView, LoadFault>(term),
            after(s, term_bytes(term, s.names).len(), cost(term).nodes, cost(term).bytes),
        ),
    decreases term, 0nat,
{
    let names = s.names;
    let rest = pairs_bytes(pairs, names, 0);
    let row = pairs.len() * size_of::<(Literal, Literal)>();
    lemma_pairs_take_bytes(pairs, names, 0);
    lemma_counted(b, s, 116, pairs.len() as u32, rest);
    lemma_tag(b, depth, s, 116);
    let t = after(s, 5, 1, row);
    assert(term_at(b, depth, s) == map_term(b, pairs.len(), depth, after(s, 5, 1, 0)));
    lemma_written_pairs(pairs, 0, b, (depth - 1) as nat, t);
    assert(pairs.take(0) =~= Seq::empty());
}

proof fn lemma_written_terms(items: Seq<LiteralView>, i: nat, b: Seq<u8>, depth: nat, s: EtfState)
    requires
        i <= items.len(),
        forall|j: int| 0 <= j < items.len() ==> can_be_written(#[trigger] items[j], s.names),
        has_part(b, s.pos, terms_bytes(items, s.names, i)),
        affords(s, depth, costs(items, i)),
        s.names.len() < 0xffff_ffff,
    ensures
        terms_at(b, (items.len() - i) as nat, items.take(i as int), depth, s) == (
            Ok::<Seq<LiteralView>, LoadFault>(items),
            after(
                s,
                terms_bytes(items, s.names, i).len(),
                costs(items, i).nodes,
                costs(items, i).bytes,
            ),
        ),
    decreases items, items.len() - i,
{
    if i == items.len() {
        assert(items.take(i as int) =~= items);
    } else {
        let term = items[i as int];
        let bytes = term_bytes(term, s.names);
        assert(decreases_to!(items => items[i as int]));
        lemma_parts(b, s.pos, bytes, terms_bytes(items, s.names, i + 1));
        law_written_term_is_read_back(term, b, depth, s);
        let t = after(s, bytes.len(), cost(term).nodes, cost(term).bytes);
        lemma_written_terms(items, i + 1, b, depth, t);
        assert(items.take(i as int).push(term) =~= items.take(i as int + 1));
    }
}

#[verifier::rlimit(40)]
#[verifier::spinoff_prover]
proof fn lemma_written_pairs(
    pairs: Seq<(LiteralView, LiteralView)>,
    i: nat,
    b: Seq<u8>,
    depth: nat,
    s: EtfState,
)
    requires
        i <= pairs.len(),
        forall|j: int|
            0 <= j < pairs.len() ==> can_be_written((#[trigger] pairs[j]).0, s.names)
                && can_be_written(pairs[j].1, s.names),
        has_part(b, s.pos, pairs_bytes(pairs, s.names, i)),
        affords(s, depth, pair_costs(pairs, i)),
        s.names.len() < 0xffff_ffff,
    ensures
        pairs_at(b, (pairs.len() - i) as nat, pairs.take(i as int), depth, s) == (
            Ok::<Seq<(LiteralView, LiteralView)>, LoadFault>(pairs),
            after(
                s,
                pairs_bytes(pairs, s.names, i).len(),
                pair_costs(pairs, i).nodes,
                pair_costs(pairs, i).bytes,
            ),
        ),
    decreases pairs, pairs.len() - i,
{
    if i == pairs.len() {
        assert(pairs.take(i as int) =~= pairs);
    } else {
        let (key, value) = pairs[i as int];
        assert(decreases_to!(pairs => pairs[i as int]));
        let first = term_bytes(key, s.names);
        let second = term_bytes(value, s.names);
        let rest = pairs_bytes(pairs, s.names, i + 1);
        lemma_parts(b, s.pos, first, second + rest);
        lemma_parts(b, s.pos + first.len(), second, rest);
        law_written_term_is_read_back(key, b, depth, s);
        let t = after(s, first.len(), cost(key).nodes, cost(key).bytes);
        law_written_term_is_read_back(value, b, depth, t);
        let u = after(t, second.len(), cost(value).nodes, cost(value).bytes);
        lemma_written_pairs(pairs, i + 1, b, depth, u);
        assert(pairs.take(i as int).push((key, value)) =~= pairs.take(i as int + 1));
    }
}

} // verus!

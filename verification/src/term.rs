//! The immediate part of the term encoding.

use vstd::prelude::*;
use crate::atom::Atom;

verus! {

/// Smallest integer that a term holds in its own word.
pub const SMALL_INT_MIN: i64 = -1_152_921_504_606_846_976;

/// Largest integer that a term holds in its own word.
pub const SMALL_INT_MAX: i64 = 1_152_921_504_606_846_975;

/// Whether a term can hold `value` in its own word.
pub open spec fn is_small(value: int) -> bool {
    SMALL_INT_MIN <= value <= SMALL_INT_MAX
}

/// By how many bits an integer is shifted in its term.
pub const SMALL_INT_SHIFT: i64 = 3;

/// The bits of a term that say what it is.
pub const TERM_TAG_MASK: i64 = 7;

/// The bits of a term that [`TERM_TAG_MASK`] leaves.
pub const POINTER_MASK: i64 = -8;

pub const SMALL_INT_TAG: i64 = 0;

pub const ATOM_TAG: i64 = 1;

pub const PID_TAG: i64 = 2;

pub const BOXED_TAG: i64 = 4;

pub const LIST_TAG: i64 = 5;

/// The empty list.
pub const NIL_TERM: i64 = 3;

/// The bits of a header that say what follows it.
pub const HEADER_TAG_MASK: i64 = 255;

/// By how many bits the size is shifted in a header.
pub const HEADER_SIZE_SHIFT: i64 = 8;

pub const TUPLE_HEADER_TAG: i64 = 16;

pub const FLOAT_HEADER_TAG: i64 = 17;

pub const BIGINT_HEADER_TAG: i64 = 18;

pub const CLOSURE_HEADER_TAG: i64 = 19;

pub const MAP_HEADER_TAG: i64 = 20;

pub const REFERENCE_HEADER_TAG: i64 = 21;

pub const BINARY_HEADER_TAG: i64 = 22;

pub const PROC_BIN_HEADER_TAG: i64 = 25;

pub const SUB_BINARY_HEADER_TAG: i64 = 26;

pub const EXTERNAL_PID_HEADER_TAG: i64 = 28;

/// The term of an integer, if it fits.
pub open spec fn small_term_of(value: i64) -> Option<i64> {
    if is_small(value as int) {
        Some((value * 8) as i64)
    } else {
        None
    }
}

/// The term of an integer, if it fits.
pub fn small_term(value: i64) -> (r: Option<i64>)
    ensures
        r == small_term_of(value),
{
    if SMALL_INT_MIN <= value && value <= SMALL_INT_MAX {
        Some(value * 8)
    } else {
        None
    }
}

/// The term of an atom.
pub open spec fn atom_term_of(atom: Atom) -> i64 {
    (atom.0 * 8 + 1) as i64
}

/// The term of an atom.
pub fn atom_term(atom: Atom) -> (r: i64)
    ensures
        r == atom_term_of(atom),
{
    atom.0 as i64 * 8 + 1
}

/// The integer in a term, if it holds one.
pub open spec fn small_value_of(term: i64) -> Option<i64> {
    if term % 8 == 0 {
        Some((term / 8) as i64)
    } else {
        None
    }
}

/// The integer in a term, if it holds one.
pub fn small_value(term: i64) -> (r: Option<i64>)
    ensures
        r == small_value_of(term),
{
    let shifted: i64 = term >> 3;
    assert(shifted as int == term as int / 8 && -0x1000_0000_0000_0000 <= shifted
        <= 0x0fff_ffff_ffff_ffff) by {
        assert(shifted == term >> 3);
        lemma_shift_divides(term);
    }
    if shifted * 8 == term {
        Some(shifted)
    } else {
        None
    }
}

/// Shifting a word by three bits divides it by eight, and its lowest three bits
/// are what is left.
pub proof fn lemma_shift_divides(term: i64)
    ensures
        term >> 3 == term as int / 8,
        term & 7 == term as int % 8,
        -0x1000_0000_0000_0000 <= term >> 3 <= 0x0fff_ffff_ffff_ffff,
{
    let shifted = term >> 3;
    let low = term & 7;
    assert(term == shifted * 8 + low && 0 <= low < 8 && -0x1000_0000_0000_0000 <= shifted
        <= 0x0fff_ffff_ffff_ffff) by (bit_vector)
        requires
            shifted == term >> 3,
            low == term & 7,
    ;
}

/// What a word is, and what it holds besides: its lowest bits, and the rest.
pub fn split_word(word: i64) -> (r: (i64, i64))
    ensures
        r.0 == word as int % 8,
        r.1 == word as int / 8,
{
    proof {
        lemma_shift_divides(word);
    }
    let rest: i64 = word >> 3;
    (word - rest * 8, rest)
}

/// The integer of a term is the one that it was made of.
pub proof fn law_small_term_holds_its_value(value: i64)
    ensures
        small_term_of(value) matches Some(term) ==> small_value_of(term) == Some(value),
{
}

/// Terms of different integers and atoms differ, and none is the empty list.
pub proof fn law_immediate_terms_differ(value: i64, other: i64, atom: Atom, other_atom: Atom)
    ensures
        value != other && small_term_of(value) is Some ==> small_term_of(value) != small_term_of(
            other,
        ),
        small_term_of(value) != Some(atom_term_of(atom)),
        atom != other_atom ==> atom_term_of(atom) != atom_term_of(other_atom),
        small_term_of(value) != Some(NIL_TERM),
        atom_term_of(atom) != NIL_TERM,
{
}

} // verus!

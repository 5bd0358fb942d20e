//! Laws of bundles of compiled modules: where what they say stands in their bytes, what ties
//! them to their target, and which instructions an exported function has.

use vstd::prelude::*;
use vstd::utf8::encode_utf8;
use crate::atom::Atom;
use crate::loader::decode::chunks::ExportEntry;
use crate::loader::decode::instruction::InstructionView;
use crate::loader::load::hash_bytes;
use crate::loader::loaded::fnv;
use super::aot::{exported_code, last_export, last_label, next_function, target_hash_of};
use super::aot_format::{
    bundle_bytes, entries_bytes, entry_bytes, hex_digit, hex_text, BundleView, EntryView,
};
use super::little_endian::{law_bytes_hold_their_number, le_bytes, le_value, lemma_powers};

verus! {

proof fn lemma_word(value: nat, n: nat)
    requires
        n == 4 && value < 0x1_0000_0000 || n == 8 && value < 0x1_0000_0000_0000_0000,
    ensures
        le_bytes(value, n).len() == n,
        le_value(le_bytes(value, n)) == value,
{
    lemma_powers();
    law_bytes_hold_their_number(value, n);
}

/// A bundle starts with the text `BEAMR_AOT`, a zero and the version 1. Then come the hash of the
/// target, the checksum, the module and the length of its bytes, in eight, eight, four and eight
/// bytes, the lowest first; then these bytes, how many functions there are in four bytes, and
/// the functions.
#[verifier::rlimit(40)]
pub proof fn law_bundles_start_with_their_name(target: u64, module: Atom, bundle: BundleView)
    requires
        bundle.module_bytes.len() < 0x1_0000_0000_0000_0000,
        bundle.entries.len() < 0x1_0000_0000,
    ensures
        ({
            let b = bundle_bytes(target, module, bundle);
            let at = 39 + bundle.module_bytes.len() as int;
            &&& b.len() >= at + 4
            &&& b.take(10) == seq![
                'B' as u8,
                'E' as u8,
                'A' as u8,
                'M' as u8,
                'R' as u8,
                '_' as u8,
                'A' as u8,
                'O' as u8,
                'T' as u8,
                0u8,
            ]
            &&& b[10] == 1
            &&& le_value(b.subrange(11, 19)) == target
            &&& le_value(b.subrange(19, 27)) == bundle.module_checksum
            &&& le_value(b.subrange(27, 31)) == module.0
            &&& le_value(b.subrange(31, 39)) == bundle.module_bytes.len()
            &&& b.subrange(39, at) == bundle.module_bytes
            &&& le_value(b.subrange(at, at + 4)) == bundle.entries.len()
            &&& b.skip(at + 4) == entries_bytes(bundle.entries, bundle.entries.len())
        }),
{
    let b = bundle_bytes(target, module, bundle);
    let at = 39 + bundle.module_bytes.len() as int;
    let t = le_bytes(target as nat, 8);
    let c = le_bytes(bundle.module_checksum as nat, 8);
    let m = le_bytes(module.0 as nat, 4);
    let l = le_bytes(bundle.module_bytes.len(), 8);
    let n = le_bytes(bundle.entries.len(), 4);
    lemma_word(target as nat, 8);
    lemma_word(bundle.module_checksum as nat, 8);
    lemma_word(module.0 as nat, 4);
    lemma_word(bundle.module_bytes.len(), 8);
    lemma_word(bundle.entries.len(), 4);
    assert(b.take(10) =~= seq![
        'B' as u8,
        'E' as u8,
        'A' as u8,
        'M' as u8,
        'R' as u8,
        '_' as u8,
        'A' as u8,
        'O' as u8,
        'T' as u8,
        0u8,
    ]);
    assert(b.subrange(11, 19) =~= t);
    assert(b.subrange(19, 27) =~= c);
    assert(b.subrange(27, 31) =~= m);
    assert(b.subrange(31, 39) =~= l);
    assert(b.subrange(39, at) =~= bundle.module_bytes);
    assert(b.subrange(at, at + 4) =~= n);
    assert(b.skip(at + 4) =~= entries_bytes(bundle.entries, bundle.entries.len()));
}

/// A function of a bundle gives its name in four bytes, the lowest first, its arity in one, and
/// how many stack maps it has in four.
pub proof fn law_functions_of_bundles_give_their_names(entry: EntryView)
    requires
        entry.stack_maps.len() < 0x1_0000_0000,
    ensures
        ({
            let b = entry_bytes(entry);
            &&& b.len() >= 9
            &&& le_value(b.subrange(0, 4)) == entry.function.0
            &&& b[4] == entry.arity
            &&& le_value(b.subrange(5, 9)) == entry.stack_maps.len()
        }),
{
    let b = entry_bytes(entry);
    lemma_word(entry.function.0 as nat, 4);
    lemma_word(entry.stack_maps.len(), 4);
    assert(b.subrange(0, 4) =~= le_bytes(entry.function.0 as nat, 4));
    assert(b.subrange(5, 9) =~= le_bytes(entry.stack_maps.len(), 4));
}

/// A bundle is tied to the hash of the name of its target.
pub proof fn law_targets_are_hashed(target: Seq<char>)
    ensures
        target_hash_of(target) == fnv(encode_utf8(target)),
{
    lemma_hash_is_fnv(encode_utf8(target));
}

proof fn lemma_hash_is_fnv(bytes: Seq<u8>)
    ensures
        hash_bytes(0xcbf2_9ce4_8422_2325, bytes) == fnv(bytes),
    decreases bytes.len(),
{
    if bytes.len() > 0 {
        lemma_hash_is_fnv(bytes.drop_last());
    }
}

proof fn lemma_last_label(instructions: Seq<InstructionView>, label: u32, n: nat)
    requires
        n <= instructions.len(),
    ensures
        match last_label(instructions, label, n) {
            Some(at) => at < n && instructions[at as int] == (InstructionView::Label { label })
                && forall|i: int|
                at < i < n ==> #[trigger] instructions[i] != (InstructionView::Label { label }),
            None => forall|i: int|
                0 <= i < n ==> #[trigger] instructions[i] != (InstructionView::Label { label }),
        },
    decreases n,
{
    if n > 0 && instructions[n - 1] != (InstructionView::Label { label }) {
        lemma_last_label(instructions, label, (n - 1) as nat);
    }
}

proof fn lemma_next_function(instructions: Seq<InstructionView>, from: nat)
    ensures
        ({
            let end = next_function(instructions, from);
            &&& end <= instructions.len()
            &&& from <= instructions.len() ==> from <= end
            &&& end < instructions.len() ==> instructions[end as int] is FuncInfo
            &&& forall|i: int|
                from <= i < end ==> !((#[trigger] instructions[i]) is FuncInfo)
        }),
    decreases instructions.len() - from,
{
    if from < instructions.len() && !(instructions[from as int] is FuncInfo) {
        lemma_next_function(instructions, from + 1);
    }
}

/// An exported function has the instructions behind the last definition of its label, up to the
/// header of the next function. Only a label that nothing defines has none.
pub proof fn law_exported_code_is_behind_its_label(instructions: Seq<InstructionView>, label: u32)
    ensures
        match exported_code(instructions, label) {
            Ok(code) => exists|at: int, end: int|
                0 <= at < end <= instructions.len() && instructions[at] == (InstructionView::Label {
                    label,
                }) && (forall|i: int|
                    at < i < instructions.len() ==> #[trigger] instructions[i] != (
                    InstructionView::Label { label })) && #[trigger] instructions.subrange(
                    at + 1,
                    end,
                ) == code && (forall|i: int|
                    at + 1 < i < end ==> !((#[trigger] instructions[i]) is FuncInfo)) && (end
                    < instructions.len() ==> instructions[end] is FuncInfo),
            Err(_) => forall|i: int|
                0 <= i < instructions.len() ==> #[trigger] instructions[i] != (
                InstructionView::Label { label }),
        },
{
    lemma_last_label(instructions, label, instructions.len());
    if let Some(at) = last_label(instructions, label, instructions.len()) {
        lemma_next_function(instructions, at + 2);
        let end = next_function(instructions, at + 2) as int;
        let code = exported_code(instructions, label)->Ok_0;
        assert(instructions.subrange(at as int + 1, end) == code);
    }
}

/// The export of a function is the last entry that names it.
pub proof fn law_last_export_is_found(
    exports: Seq<ExportEntry>,
    function: Atom,
    arity: u8,
    n: nat,
)
    requires
        n <= exports.len(),
    ensures
        match last_export(exports, function, arity, n) {
            Some(found) => exists|i: int|
                0 <= i < n && #[trigger] exports[i] == found && found.function == function
                    && found.arity == arity && forall|j: int|
                    i < j < n ==> !((#[trigger] exports[j]).function == function && exports[j].arity
                        == arity),
            None => forall|i: int|
                0 <= i < n ==> !((#[trigger] exports[i]).function == function && exports[i].arity
                    == arity),
        },
    decreases n,
{
    if n > 0 {
        if exports[n - 1].function == function && exports[n - 1].arity == arity {
            assert(exports[n - 1] == exports[n - 1]);
        } else {
            law_last_export_is_found(exports, function, arity, (n - 1) as nat);
        }
    }
}

/// The value of a hexadecimal digit.
pub open spec fn hex_value_of(digit: char) -> int {
    if '0' <= digit <= '9' {
        digit as int - '0' as int
    } else {
        digit as int - 'a' as int + 10
    }
}

/// The number that hexadecimal digits stand for.
pub open spec fn hex_value(text: Seq<char>) -> int
    decreases text.len(),
{
    if text.len() == 0 {
        0
    } else {
        16 * hex_value(text.drop_last()) + hex_value_of(text.last())
    }
}

/// The hexadecimal text of a number stands for it, in digits and small letters.
pub proof fn law_hexadecimal_text_is_read_back(n: nat)
    ensures
        hex_value(hex_text(n)) == n,
        hex_text(n).len() > 0,
        forall|i: int|
            0 <= i < hex_text(n).len() ==> '0' <= #[trigger] hex_text(n)[i] <= '9' || 'a' <= hex_text(
                n,
            )[i] <= 'f',
    decreases n,
{
    let last = hex_digit(n % 16);
    if n >= 16 {
        law_hexadecimal_text_is_read_back(n / 16);
        assert(hex_text(n).drop_last() =~= hex_text(n / 16));
    } else {
        assert(hex_text(n) =~= seq![last]);
        assert(seq![last].drop_last() =~= Seq::empty());
        assert(hex_value(seq![last]) == 16 * hex_value(Seq::empty()) + hex_value_of(last));
    }
}

} // verus!

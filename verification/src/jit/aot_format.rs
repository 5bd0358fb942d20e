//! The file format of compiled modules.
//!
//! A bundle holds the bytes of a module and says which of its functions were
//! compiled, with what is live where they allocate. Code itself is not kept: it
//! is compiled anew from the bytes.

use vstd::prelude::*;
use crate::atom::{common_names, Atom, AtomTable};
use crate::error::{LoadError, LoadFault};
use crate::loader::decode::budget::MAX_TABLE_ENTRIES;
use crate::loader::decode::chunks::ExportEntry;
use crate::loader::load::{decoded_module, load_beam_chunks};
use crate::text::{decimal_u64, nat_text};
use super::error::{fault_text, JitError, JitFault};
use super::little_endian::{
    law_bytes_hold_their_number, le_bytes, le_value, lemma_bytes_len, lemma_powers,
    lemma_value_fits, push_le, read_le,
};
use super::types::{stack_map_views, RootLocation, StackMapEntry, StackMapView};

verus! {

/// The version of the format.
pub const VERSION: u8 = 1;

/// The first bytes of a bundle: the text `BEAMR_AOT` and a zero.
pub open spec fn magic() -> Seq<u8> {
    seq![66u8, 69, 65, 77, 82, 95, 65, 79, 84, 0]
}

/// Why a module could not be compiled ahead of time, or a bundle not be read.
#[derive(Debug)]
pub enum AotError {
    /// A file could not be read.
    Io { path: String, source: String },
    Load(LoadError),
    Jit(JitError),
    InvalidMagic,
    UnsupportedVersion(u8),
    /// The bundle is for another target.
    TargetMismatch { expected: u64, actual: u64 },
    /// The bundle is of other bytes.
    ChecksumMismatch { expected: u64, actual: u64 },
    Malformed(String),
    /// The bundle names a function that its module does not export.
    MissingFunction { function: Atom, arity: u8 },
    /// The types of the module could not be read.
    TypeInfo(String),
}

/// An [`AotError`] with its texts as sequences of characters.
#[verifier::ext_equal]
pub enum AotFault {
    Io { path: Seq<char>, source: Seq<char> },
    Load(LoadFault),
    Jit(JitFault),
    InvalidMagic,
    UnsupportedVersion(u8),
    TargetMismatch { expected: u64, actual: u64 },
    ChecksumMismatch { expected: u64, actual: u64 },
    Malformed(Seq<char>),
    MissingFunction { function: Atom, arity: u8 },
    TypeInfo(Seq<char>),
}

impl View for AotError {
    type V = AotFault;

    open spec fn view(&self) -> AotFault {
        match self {
            AotError::Io { path, source } => AotFault::Io { path: path@, source: source@ },
            AotError::Load(e) => AotFault::Load(e@),
            AotError::Jit(e) => AotFault::Jit(e@),
            AotError::InvalidMagic => AotFault::InvalidMagic,
            AotError::UnsupportedVersion(version) => AotFault::UnsupportedVersion(*version),
            AotError::TargetMismatch { expected, actual } => AotFault::TargetMismatch {
                expected: *expected,
                actual: *actual,
            },
            AotError::ChecksumMismatch { expected, actual } => AotFault::ChecksumMismatch {
                expected: *expected,
                actual: *actual,
            },
            AotError::Malformed(text) => AotFault::Malformed(text@),
            AotError::MissingFunction { function, arity } => AotFault::MissingFunction {
                function: *function,
                arity: *arity,
            },
            AotError::TypeInfo(text) => AotFault::TypeInfo(text@),
        }
    }
}

/// The digit of a number below sixteen.
pub open spec fn hex_digit(digit: nat) -> char {
    if digit < 10 {
        (digit + 48) as char
    } else {
        (digit + 87) as char
    }
}

/// A number in hexadecimal digits.
pub open spec fn hex_text(n: nat) -> Seq<char>
    decreases n,
{
    if n < 16 {
        seq![hex_digit(n)]
    } else {
        hex_text(n / 16).push(hex_digit(n % 16))
    }
}

fn hex_digit_text(digit: u64) -> (r: &'static str)
    requires
        digit < 16,
    ensures
        r@ == seq![hex_digit(digit as nat)],
{
    proof {
        reveal_strlit("0");
        reveal_strlit("1");
        reveal_strlit("2");
        reveal_strlit("3");
        reveal_strlit("4");
        reveal_strlit("5");
        reveal_strlit("6");
        reveal_strlit("7");
        reveal_strlit("8");
        reveal_strlit("9");
        reveal_strlit("a");
        reveal_strlit("b");
        reveal_strlit("c");
        reveal_strlit("d");
        reveal_strlit("e");
        reveal_strlit("f");
    }
    let text = if digit == 0 {
        "0"
    } else if digit == 1 {
        "1"
    } else if digit == 2 {
        "2"
    } else if digit == 3 {
        "3"
    } else if digit == 4 {
        "4"
    } else if digit == 5 {
        "5"
    } else if digit == 6 {
        "6"
    } else if digit == 7 {
        "7"
    } else if digit == 8 {
        "8"
    } else if digit == 9 {
        "9"
    } else if digit == 10 {
        "a"
    } else if digit == 11 {
        "b"
    } else if digit == 12 {
        "c"
    } else if digit == 13 {
        "d"
    } else if digit == 14 {
        "e"
    } else {
        "f"
    };
    assert(text@ =~= seq![hex_digit(digit as nat)]);
    text
}

fn hex_u64(n: u64) -> (r: String)
    ensures
        r@ == hex_text(n as nat),
    decreases n,
{
    if n < 16 {
        hex_digit_text(n).to_owned()
    } else {
        let mut text = hex_u64(n / 16);
        text.append(hex_digit_text(n % 16));
        assert(text@ =~= hex_text((n / 16) as nat).push(hex_digit((n % 16) as nat)));
        text
    }
}

/// What an error says.
pub open spec fn aot_text(fault: AotFault) -> Seq<char> {
    match fault {
        AotFault::Io { path, source } => "cannot read '"@ + path + "': "@ + source,
        AotFault::Load(e) => "load: "@ + load_text(e),
        AotFault::Jit(e) => "jit: "@ + fault_text(e),
        AotFault::InvalidMagic => "invalid AOT bundle magic"@,
        AotFault::UnsupportedVersion(version) => "unsupported AOT version "@ + nat_text(
            version as nat,
        ),
        AotFault::TargetMismatch { expected, actual } => "AOT target mismatch: expected hash 0x"@
            + hex_text(expected as nat) + ", got 0x"@ + hex_text(actual as nat),
        AotFault::ChecksumMismatch { expected, actual } =>
        "AOT module checksum mismatch: expected 0x"@ + hex_text(expected as nat) + ", got 0x"@
            + hex_text(actual as nat),
        AotFault::Malformed(text) => "malformed AOT bundle: "@ + text,
        AotFault::MissingFunction { function, arity } =>
        "AOT bundle references missing function Atom("@ + nat_text(function.0 as nat) + ")/"@
            + nat_text(arity as nat),
        AotFault::TypeInfo(text) => "type info: "@ + text,
    }
}

/// What an error of the loader says.
pub open spec fn load_text(fault: LoadFault) -> Seq<char> {
    match fault {
        LoadFault::InvalidFormat => "invalid BEAM format"@,
        LoadFault::MissingChunk(name) => "missing chunk: "@ + name,
        LoadFault::DecodeError(text) => "decode error: "@ + text,
    }
}

fn describe_load(error: &LoadError) -> (r: String)
    ensures
        r@ == load_text(error@),
{
    match error {
        LoadError::InvalidFormat => "invalid BEAM format".to_owned(),
        LoadError::MissingChunk(name) => {
            let mut text = "missing chunk: ".to_owned();
            text.append(name.as_str());
            text
        },
        LoadError::DecodeError(message) => {
            let mut text = "decode error: ".to_owned();
            text.append(message.as_str());
            text
        },
    }
}

impl AotError {
    /// What the error says.
    pub fn describe(&self) -> (r: String)
        ensures
            r@ == aot_text(self@),
    {
        match self {
            AotError::Io { path, source } => {
                let mut text = "cannot read '".to_owned();
                text.append(path.as_str());
                text.append("': ");
                text.append(source.as_str());
                text
            },
            AotError::Load(error) => {
                let mut text = "load: ".to_owned();
                text.append(describe_load(error).as_str());
                text
            },
            AotError::Jit(error) => {
                let mut text = "jit: ".to_owned();
                text.append(error.describe().as_str());
                text
            },
            AotError::InvalidMagic => "invalid AOT bundle magic".to_owned(),
            AotError::UnsupportedVersion(version) => {
                let mut text = "unsupported AOT version ".to_owned();
                text.append(decimal_u64(*version as u64).as_str());
                text
            },
            AotError::TargetMismatch { expected, actual } => {
                let mut text = "AOT target mismatch: expected hash 0x".to_owned();
                text.append(hex_u64(*expected).as_str());
                text.append(", got 0x");
                text.append(hex_u64(*actual).as_str());
                text
            },
            AotError::ChecksumMismatch { expected, actual } => {
                let mut text = "AOT module checksum mismatch: expected 0x".to_owned();
                text.append(hex_u64(*expected).as_str());
                text.append(", got 0x");
                text.append(hex_u64(*actual).as_str());
                text
            },
            AotError::Malformed(message) => {
                let mut text = "malformed AOT bundle: ".to_owned();
                text.append(message.as_str());
                text
            },
            AotError::MissingFunction { function, arity } => {
                let mut text = "AOT bundle references missing function Atom(".to_owned();
                text.append(decimal_u64(function.0 as u64).as_str());
                text.append(")/");
                text.append(decimal_u64(*arity as u64).as_str());
                text
            },
            AotError::TypeInfo(message) => {
                let mut text = "type info: ".to_owned();
                text.append(message.as_str());
                text
            },
        }
    }
}

/// A compiled function in a bundle.
#[derive(Debug)]
pub struct BundleEntry {
    pub function: Atom,
    pub arity: u8,
    pub stack_maps: Vec<StackMapEntry>,
}

/// A [`BundleEntry`] with sequences in place of its containers.
#[verifier::ext_equal]
pub struct EntryView {
    pub function: Atom,
    pub arity: u8,
    pub stack_maps: Seq<StackMapView>,
}

impl View for BundleEntry {
    type V = EntryView;

    open spec fn view(&self) -> EntryView {
        EntryView {
            function: self.function,
            arity: self.arity,
            stack_maps: stack_map_views(self.stack_maps@),
        }
    }
}

/// The views of entries.
pub open spec fn entry_views(entries: Seq<BundleEntry>) -> Seq<EntryView> {
    Seq::new(entries.len(), |i: int| entries[i]@)
}

/// What a bundle says.
#[derive(Debug)]
pub struct DecodedBundle {
    pub module_checksum: u64,
    pub module_bytes: Vec<u8>,
    pub entries: Vec<BundleEntry>,
}

/// A [`DecodedBundle`] with sequences in place of its containers.
#[verifier::ext_equal]
pub struct BundleView {
    pub module_checksum: u64,
    pub module_bytes: Seq<u8>,
    pub entries: Seq<EntryView>,
}

impl View for DecodedBundle {
    type V = BundleView;

    open spec fn view(&self) -> BundleView {
        BundleView {
            module_checksum: self.module_checksum,
            module_bytes: self.module_bytes@,
            entries: entry_views(self.entries@),
        }
    }
}

// ---------------------------------------------------------------------------
// Writing
// ---------------------------------------------------------------------------

/// A signed number as an unsigned one of the same bits.
pub open spec fn unsigned(value: i32) -> nat {
    if value < 0 {
        (value + 0x1_0000_0000) as nat
    } else {
        value as nat
    }
}

/// The bytes of a live root.
pub open spec fn root_bytes(root: RootLocation) -> Seq<u8> {
    match root {
        RootLocation::Register(register) => seq![0u8] + le_bytes(register as nat, 2),
        RootLocation::StackSlot(slot) => seq![1u8] + le_bytes(unsigned(slot), 4),
    }
}

/// The bytes of the first `n` live roots.
pub open spec fn roots_bytes(roots: Seq<RootLocation>, n: nat) -> Seq<u8>
    decreases n,
{
    if n == 0 {
        Seq::empty()
    } else {
        roots_bytes(roots, (n - 1) as nat) + root_bytes(roots[n - 1])
    }
}

/// The lowest 32 bits of a length.
pub open spec fn length_word(n: nat) -> nat {
    n % 0x1_0000_0000
}

/// The bytes of a stack map.
pub open spec fn map_bytes(map: StackMapView) -> Seq<u8> {
    le_bytes(map.offset_from_entry as nat, 4) + (le_bytes(length_word(map.live_roots.len()), 4)
        + roots_bytes(map.live_roots, map.live_roots.len()))
}

/// The bytes of the first `n` stack maps.
pub open spec fn maps_bytes(maps: Seq<StackMapView>, n: nat) -> Seq<u8>
    decreases n,
{
    if n == 0 {
        Seq::empty()
    } else {
        maps_bytes(maps, (n - 1) as nat) + map_bytes(maps[n - 1])
    }
}

/// The bytes of stack maps, after how many there are.
pub open spec fn stack_maps_bytes(maps: Seq<StackMapView>) -> Seq<u8> {
    le_bytes(length_word(maps.len()), 4) + maps_bytes(maps, maps.len())
}

/// The bytes of a compiled function.
pub open spec fn entry_bytes(entry: EntryView) -> Seq<u8> {
    le_bytes(entry.function.0 as nat, 4) + (seq![entry.arity] + stack_maps_bytes(
        entry.stack_maps,
    ))
}

/// The bytes of the first `n` compiled functions.
pub open spec fn entries_bytes(entries: Seq<EntryView>, n: nat) -> Seq<u8>
    decreases n,
{
    if n == 0 {
        Seq::empty()
    } else {
        entries_bytes(entries, (n - 1) as nat) + entry_bytes(entries[n - 1])
    }
}

/// The bytes of a bundle.
pub open spec fn bundle_bytes(target: u64, module: Atom, bundle: BundleView) -> Seq<u8> {
    magic() + (seq![VERSION] + (le_bytes(target as nat, 8) + (le_bytes(
        bundle.module_checksum as nat,
        8,
    ) + (le_bytes(module.0 as nat, 4) + (le_bytes(bundle.module_bytes.len(), 8) + (
    bundle.module_bytes + (le_bytes(length_word(bundle.entries.len()), 4) + entries_bytes(
        bundle.entries,
        bundle.entries.len(),
    ))))))))
}

fn write_u16(output: &mut Vec<u8>, value: u16)
    ensures
        final(output)@ == old(output)@ + le_bytes(value as nat, 2),
{
    push_le(output, value as u64, 2);
}

fn write_u32(output: &mut Vec<u8>, value: u32)
    ensures
        final(output)@ == old(output)@ + le_bytes(value as nat, 4),
{
    push_le(output, value as u64, 4);
}

fn write_u64(output: &mut Vec<u8>, value: u64)
    ensures
        final(output)@ == old(output)@ + le_bytes(value as nat, 8),
{
    push_le(output, value, 8);
}

fn write_i32(output: &mut Vec<u8>, value: i32)
    ensures
        final(output)@ == old(output)@ + le_bytes(unsigned(value), 4),
{
    let bits: u64 = if value < 0 {
        (value as i64 + 0x1_0000_0000) as u64
    } else {
        value as u64
    };
    push_le(output, bits, 4);
}

fn write_length(output: &mut Vec<u8>, length: usize)
    ensures
        final(output)@ == old(output)@ + le_bytes(length_word(length as nat), 4),
{
    push_le(output, length as u64 % 0x1_0000_0000, 4);
}

fn write_atom(output: &mut Vec<u8>, atom: Atom)
    ensures
        final(output)@ == old(output)@ + le_bytes(atom.0 as nat, 4),
{
    write_u32(output, atom.0);
}

fn write_raw(output: &mut Vec<u8>, bytes: &[u8])
    ensures
        final(output)@ == old(output)@ + bytes@,
{
    let ghost start = output@;
    let mut i: usize = 0;
    assert(output@ =~= start + bytes@.take(0));
    while i < bytes.len()
        invariant
            i <= bytes@.len(),
            output@ == start + bytes@.take(i as int),
        decreases bytes@.len() - i,
    {
        output.push(bytes[i]);
        i += 1;
        assert(output@ =~= start + bytes@.take(i as int));
    }
    assert(bytes@.take(i as int) =~= bytes@);
}

fn write_bytes(output: &mut Vec<u8>, bytes: &[u8])
    ensures
        final(output)@ == old(output)@ + (le_bytes(bytes@.len(), 8) + bytes@),
{
    let ghost start = output@;
    write_u64(output, bytes.len() as u64);
    write_raw(output, bytes);
    assert(output@ =~= start + (le_bytes(bytes@.len(), 8) + bytes@));
}

fn write_root(output: &mut Vec<u8>, root: RootLocation)
    ensures
        final(output)@ == old(output)@ + root_bytes(root),
{
    let ghost start = output@;
    match root {
        RootLocation::Register(register) => {
            output.push(0);
            write_u16(output, register);
        },
        RootLocation::StackSlot(slot) => {
            output.push(1);
            write_i32(output, slot);
        },
    }
    assert(output@ =~= start + root_bytes(root));
}

fn write_map(output: &mut Vec<u8>, map: &StackMapEntry)
    ensures
        final(output)@ == old(output)@ + map_bytes(map@),
{
    let ghost start = output@;
    let ghost roots = map.live_roots@;
    write_u32(output, map.offset_from_entry);
    write_length(output, map.live_roots.len());
    let ghost head = output@;
    let mut i: usize = 0;
    assert(output@ =~= head + roots_bytes(roots, 0));
    while i < map.live_roots.len()
        invariant
            i <= roots.len(),
            roots == map.live_roots@,
            output@ == head + roots_bytes(roots, i as nat),
        decreases roots.len() - i,
    {
        write_root(output, map.live_roots[i]);
        i += 1;
        assert(output@ =~= head + roots_bytes(roots, i as nat));
    }
    assert(output@ =~= start + map_bytes(map@));
}

/// Writes a row of stack maps, after how many they are.
pub fn write_stack_maps(output: &mut Vec<u8>, maps: &Vec<StackMapEntry>)
    ensures
        final(output)@ == old(output)@ + stack_maps_bytes(stack_map_views(maps@)),
{
    let ghost start = output@;
    let ghost views = stack_map_views(maps@);
    write_length(output, maps.len());
    let ghost head = output@;
    let mut i: usize = 0;
    assert(output@ =~= head + maps_bytes(views, 0));
    while i < maps.len()
        invariant
            i <= maps@.len(),
            views == stack_map_views(maps@),
            output@ == head + maps_bytes(views, i as nat),
        decreases maps@.len() - i,
    {
        write_map(output, &maps[i]);
        i += 1;
        assert(output@ =~= head + maps_bytes(views, i as nat));
    }
    assert(output@ =~= start + stack_maps_bytes(views));
}

fn write_entry(output: &mut Vec<u8>, entry: &BundleEntry)
    ensures
        final(output)@ == old(output)@ + entry_bytes(entry@),
{
    let ghost start = output@;
    write_atom(output, entry.function);
    output.push(entry.arity);
    write_stack_maps(output, &entry.stack_maps);
    assert(output@ =~= start + entry_bytes(entry@));
}

/// The bytes of a bundle for a target.
pub fn write_bundle(target: u64, module: Atom, bundle: &DecodedBundle) -> (r: Vec<u8>)
    ensures
        r@ == bundle_bytes(target, module, bundle@),
{
    let ghost views = entry_views(bundle.entries@);
    let mut output: Vec<u8> = vec![66, 69, 65, 77, 82, 95, 65, 79, 84, 0];
    assert(output@ =~= magic());
    output.push(VERSION);
    write_u64(&mut output, target);
    write_u64(&mut output, bundle.module_checksum);
    write_atom(&mut output, module);
    write_bytes(&mut output, bundle.module_bytes.as_slice());
    write_length(&mut output, bundle.entries.len());
    let ghost head = output@;
    let mut i: usize = 0;
    assert(output@ =~= head + entries_bytes(views, 0));
    while i < bundle.entries.len()
        invariant
            i <= bundle.entries@.len(),
            views == entry_views(bundle.entries@),
            output@ == head + entries_bytes(views, i as nat),
        decreases bundle.entries@.len() - i,
    {
        write_entry(&mut output, &bundle.entries[i]);
        i += 1;
        assert(output@ =~= head + entries_bytes(views, i as nat));
    }
    assert(output@ =~= bundle_bytes(target, module, bundle@));
    output
}

// ---------------------------------------------------------------------------
// Reading
// ---------------------------------------------------------------------------

/// The malformed-bundle fault with the given text.
pub open spec fn malformed(text: Seq<char>) -> AotFault {
    AotFault::Malformed(text)
}

fn malformed_error(text: &str) -> (r: AotError)
    ensures
        r@ == malformed(text@),
{
    AotError::Malformed(text.to_owned())
}

/// The next `n` bytes.
pub open spec fn take_bytes(b: Seq<u8>, at: nat, n: nat) -> Result<Seq<u8>, AotFault> {
    if at + n > usize::MAX {
        Err(malformed("bundle offset overflow"@))
    } else if at + n > b.len() {
        Err(malformed("truncated AOT bundle"@))
    } else {
        Ok(b.subrange(at as int, (at + n) as int))
    }
}

/// The number in the next `n` bytes.
pub open spec fn take_number(b: Seq<u8>, at: nat, n: nat) -> Result<nat, AotFault> {
    match take_bytes(b, at, n) {
        Err(e) => Err(e),
        Ok(bytes) => Ok(le_value(bytes)),
    }
}

/// The signed number of the same bits.
pub open spec fn signed(value: nat) -> i32 {
    if value >= 0x8000_0000 {
        (value - 0x1_0000_0000) as i32
    } else {
        value as i32
    }
}

/// The next live root, and what follows it.
pub open spec fn take_root(b: Seq<u8>, at: nat) -> Result<(RootLocation, nat), AotFault> {
    match take_number(b, at, 1) {
        Err(e) => Err(e),
        Ok(tag) => if tag == 0 {
            match take_number(b, at + 1, 2) {
                Err(e) => Err(e),
                Ok(register) => Ok((RootLocation::Register(register as u16), at + 3)),
            }
        } else if tag == 1 {
            match take_number(b, at + 1, 4) {
                Err(e) => Err(e),
                Ok(slot) => Ok((RootLocation::StackSlot(signed(slot)), at + 5)),
            }
        } else {
            Err(malformed("unknown stack-map root tag "@ + nat_text(tag)))
        },
    }
}

/// The next `n` live roots, and what follows them.
pub open spec fn take_roots(b: Seq<u8>, at: nat, n: nat) -> Result<
    (Seq<RootLocation>, nat),
    AotFault,
>
    decreases n,
{
    if n == 0 {
        Ok((Seq::empty(), at))
    } else {
        match take_roots(b, at, (n - 1) as nat) {
            Err(e) => Err(e),
            Ok((before, at)) => match take_root(b, at) {
                Err(e) => Err(e),
                Ok((root, at)) => Ok((before.push(root), at)),
            },
        }
    }
}

/// The next stack map, and what follows it.
pub open spec fn take_map(b: Seq<u8>, at: nat) -> Result<(StackMapView, nat), AotFault> {
    match take_number(b, at, 4) {
        Err(e) => Err(e),
        Ok(offset) => match take_number(b, at + 4, 4) {
            Err(e) => Err(e),
            Ok(count) => match take_roots(b, at + 8, count) {
                Err(e) => Err(e),
                Ok((live_roots, at)) => Ok(
                    (StackMapView { offset_from_entry: offset as u32, live_roots }, at),
                ),
            },
        },
    }
}

/// The next `n` stack maps, and what follows them.
pub open spec fn take_maps(b: Seq<u8>, at: nat, n: nat) -> Result<
    (Seq<StackMapView>, nat),
    AotFault,
>
    decreases n,
{
    if n == 0 {
        Ok((Seq::empty(), at))
    } else {
        match take_maps(b, at, (n - 1) as nat) {
            Err(e) => Err(e),
            Ok((before, at)) => match take_map(b, at) {
                Err(e) => Err(e),
                Ok((map, at)) => Ok((before.push(map), at)),
            },
        }
    }
}

/// The next row of stack maps, which starts with how many they are, and what follows
/// it.
pub open spec fn take_stack_maps(b: Seq<u8>, at: nat) -> Result<
    (Seq<StackMapView>, nat),
    AotFault,
> {
    match take_number(b, at, 4) {
        Err(e) => Err(e),
        Ok(count) => take_maps(b, at + 4, count),
    }
}

/// Whether a module exports a function of the name, of any arity.
pub open spec fn exports_name(exports: Seq<ExportEntry>, index: u32) -> bool {
    exists|i: int| 0 <= i < exports.len() && #[trigger] exports[i].function.0 == index
}

/// The next compiled function, and what follows it.
pub open spec fn take_entry(b: Seq<u8>, at: nat, exports: Seq<ExportEntry>) -> Result<
    (EntryView, nat),
    AotFault,
> {
    match take_number(b, at, 4) {
        Err(e) => Err(e),
        Ok(index) => if !exports_name(exports, index as u32) {
            Err(malformed("unknown function atom index "@ + nat_text(index)))
        } else {
            match take_number(b, at + 4, 1) {
                Err(e) => Err(e),
                Ok(arity) => match take_stack_maps(b, at + 5) {
                    Err(e) => Err(e),
                    Ok((stack_maps, at)) => Ok(
                        (
                            EntryView {
                                function: Atom(index as u32),
                                arity: arity as u8,
                                stack_maps,
                            },
                            at,
                        ),
                    ),
                },
            }
        },
    }
}

/// The next `n` compiled functions, and what follows them.
pub open spec fn take_entries(b: Seq<u8>, at: nat, exports: Seq<ExportEntry>, n: nat) -> Result<
    (Seq<EntryView>, nat),
    AotFault,
>
    decreases n,
{
    if n == 0 {
        Ok((Seq::empty(), at))
    } else {
        match take_entries(b, at, exports, (n - 1) as nat) {
            Err(e) => Err(e),
            Ok((before, at)) => match take_entry(b, at, exports) {
                Err(e) => Err(e),
                Ok((entry, at)) => Ok((before.push(entry), at)),
            },
        }
    }
}

/// What the first part of a bundle says: the checksum, the bytes of the module,
/// and what follows them.
pub open spec fn take_header(b: Seq<u8>, target: u64) -> Result<(u64, Seq<u8>, nat), AotFault> {
    match take_bytes(b, 0, 10) {
        Err(e) => Err(e),
        Ok(found) => if found != magic() {
            Err(AotFault::InvalidMagic)
        } else {
            match take_number(b, 10, 1) {
                Err(e) => Err(e),
                Ok(version) => if version != VERSION {
                    Err(AotFault::UnsupportedVersion(version as u8))
                } else {
                    match take_number(b, 11, 8) {
                        Err(e) => Err(e),
                        Ok(actual) => if actual != target {
                            Err(
                                AotFault::TargetMismatch {
                                    expected: target,
                                    actual: actual as u64,
                                },
                            )
                        } else {
                            match take_number(b, 19, 8) {
                                Err(e) => Err(e),
                                Ok(checksum) => match take_number(b, 27, 4) {
                                    Err(e) => Err(e),
                                    Ok(_) => match take_number(b, 31, 8) {
                                        Err(e) => Err(e),
                                        Ok(length) => if length > usize::MAX {
                                            Err(
                                                malformed("byte section length overflows usize"@),
                                            )
                                        } else {
                                            match take_bytes(b, 39, length) {
                                                Err(e) => Err(e),
                                                Ok(bytes) => Ok(
                                                    (checksum as u64, bytes, 39 + length),
                                                ),
                                            }
                                        },
                                    },
                                },
                            }
                        },
                    }
                },
            }
        },
    }
}

/// The functions that a module exports, or why its bytes cannot be decoded.
#[verifier::opaque]
pub open spec fn exports_of(module_bytes: Seq<u8>) -> Result<Seq<ExportEntry>, LoadFault> {
    match decoded_module(module_bytes, common_names()).0 {
        Err(e) => Err(e),
        Ok(parsed) => Ok(parsed.exports),
    }
}

fn read_exports(module_bytes: &[u8]) -> (r: Result<Vec<ExportEntry>, LoadError>)
    requires
        module_bytes@.len() + MAX_TABLE_ENTRIES <= usize::MAX,
    ensures
        match r {
            Ok(exports) => exports_of(module_bytes@) == Ok::<Seq<ExportEntry>, LoadFault>(exports@),
            Err(e) => exports_of(module_bytes@) == Err::<Seq<ExportEntry>, LoadFault>(e@),
        },
{
    proof {
        reveal(exports_of);
    }
    let mut table = AtomTable::with_common_atoms();
    match load_beam_chunks(module_bytes, &mut table) {
        Ok(parsed) => Ok(parsed.exports),
        Err(e) => Err(e),
    }
}

/// What a bundle for a target says.
pub open spec fn bundle_of(b: Seq<u8>, target: u64) -> Result<BundleView, AotFault> {
    match take_header(b, target) {
        Err(e) => Err(e),
        Ok((module_checksum, module_bytes, at)) => match exports_of(module_bytes) {
            Err(e) => Err(AotFault::Load(e)),
            Ok(exports) => match take_number(b, at, 4) {
                Err(e) => Err(e),
                Ok(count) => match take_entries(b, at + 4, exports, count) {
                    Err(e) => Err(e),
                    Ok((entries, at)) => if at != b.len() {
                        Err(malformed("trailing bytes after AOT bundle"@))
                    } else {
                        Ok(BundleView { module_checksum, module_bytes, entries })
                    },
                },
            },
        },
    }
}

/// Reads bytes one after another.
#[derive(Debug)]
pub struct Reader<'a> {
    bytes: &'a [u8],
    offset: usize,
}

/// What reading a value answers, with what follows it.
spec fn read_outcome<T>(r: Result<T, AotError>, at: usize) -> Result<(T, nat), AotFault> {
    match r {
        Ok(value) => Ok((value, at as nat)),
        Err(e) => Err(e@),
    }
}

/// What reading a number answers.
spec fn number_outcome(r: Result<u64, AotError>) -> Result<nat, AotFault> {
    match r {
        Ok(value) => Ok(value as nat),
        Err(e) => Err(e@),
    }
}

proof fn lemma_roots_fail(b: Seq<u8>, at: nat, n: nat, total: nat)
    requires
        n <= total,
    ensures
        take_roots(b, at, n) matches Err(e) ==> take_roots(b, at, total) == Err::<
            (Seq<RootLocation>, nat),
            AotFault,
        >(e),
    decreases total - n,
{
    if n < total {
        lemma_roots_fail(b, at, n + 1, total);
    }
}

proof fn lemma_maps_fail(b: Seq<u8>, at: nat, n: nat, total: nat)
    requires
        n <= total,
    ensures
        take_maps(b, at, n) matches Err(e) ==> take_maps(b, at, total) == Err::<
            (Seq<StackMapView>, nat),
            AotFault,
        >(e),
    decreases total - n,
{
    if n < total {
        lemma_maps_fail(b, at, n + 1, total);
    }
}

proof fn lemma_entries_fail(b: Seq<u8>, at: nat, exports: Seq<ExportEntry>, n: nat, total: nat)
    requires
        n <= total,
    ensures
        take_entries(b, at, exports, n) matches Err(e) ==> take_entries(b, at, exports, total)
            == Err::<(Seq<EntryView>, nat), AotFault>(e),
    decreases total - n,
{
    if n < total {
        lemma_entries_fail(b, at, exports, n + 1, total);
    }
}

impl<'a> Reader<'a> {
    /// The bytes, those that were read and those that are left.
    pub closed spec fn all(&self) -> Seq<u8> {
        self.bytes@
    }

    /// How many bytes were read.
    pub closed spec fn place(&self) -> nat {
        self.offset as nat
    }

    /// No more bytes were read than there are.
    pub open spec fn wf(&self) -> bool {
        self.place() <= self.all().len()
    }

    spec fn inv(&self) -> bool {
        self.offset <= self.bytes@.len()
    }

    /// A reader at the first of the bytes.
    pub fn new(bytes: &'a [u8]) -> (r: Reader<'a>)
        ensures
            r.wf(),
            r.all() == bytes@,
            r.place() == 0,
    {
        Reader { bytes, offset: 0 }
    }

    /// Whether all bytes were read.
    pub fn is_empty(&self) -> (r: bool)
        ensures
            r == (self.place() == self.all().len()),
    {
        self.offset == self.bytes.len()
    }

    /// Reads a row of stack maps.
    pub fn read_stack_maps(&mut self) -> (r: Result<Vec<StackMapEntry>, AotError>)
        requires
            old(self).wf(),
        ensures
            final(self).wf(),
            final(self).all() == old(self).all(),
            match r {
                Ok(maps) => take_stack_maps(old(self).all(), old(self).place()) == Ok::<
                    (Seq<StackMapView>, nat),
                    AotFault,
                >((stack_map_views(maps@), final(self).place())),
                Err(e) => take_stack_maps(old(self).all(), old(self).place()) == Err::<
                    (Seq<StackMapView>, nat),
                    AotFault,
                >(e@),
            },
    {
        let count: u64 = self.read_number(4)?;
        self.read_maps(count)
    }

    fn read_exact(&mut self, n: usize) -> (r: Result<&'a [u8], AotError>)
        requires
            old(self).inv(),
        ensures
            final(self).bytes == old(self).bytes,
            final(self).inv(),
            match r {
                Ok(part) => take_bytes(old(self).bytes@, old(self).offset as nat, n as nat) == Ok::<
                    Seq<u8>,
                    AotFault,
                >(part@) && final(self).offset == old(self).offset + n,
                Err(e) => take_bytes(old(self).bytes@, old(self).offset as nat, n as nat) == Err::<
                    Seq<u8>,
                    AotFault,
                >(e@),
            },
    {
        let end: usize = match self.offset.checked_add(n) {
            Some(end) => end,
            None => {
                return Err(malformed_error("bundle offset overflow"));
            },
        };
        if end > self.bytes.len() {
            return Err(malformed_error("truncated AOT bundle"));
        }
        let part = vstd::slice::slice_subrange(self.bytes, self.offset, end);
        self.offset = end;
        Ok(part)
    }

    fn read_number(&mut self, n: usize) -> (r: Result<u64, AotError>)
        requires
            old(self).inv(),
            n <= 8,
        ensures
            final(self).bytes == old(self).bytes,
            final(self).inv(),
            number_outcome(r) == take_number(old(self).bytes@, old(self).offset as nat, n as nat),
            r is Ok ==> final(self).offset == old(self).offset + n,
            n == 1 ==> (r matches Ok(value) ==> value < 0x100),
            n == 2 ==> (r matches Ok(value) ==> value < 0x1_0000),
            n == 4 ==> (r matches Ok(value) ==> value < 0x1_0000_0000),
    {
        let part = self.read_exact(n)?;
        let value: u64 = read_le(part, 0, n);
        assert(part@.subrange(0, n as int) =~= part@);
        proof {
            lemma_value_fits(part@);
            lemma_powers();
        }
        Ok(value)
    }

    fn read_root(&mut self) -> (r: Result<RootLocation, AotError>)
        requires
            old(self).inv(),
        ensures
            final(self).bytes == old(self).bytes,
            final(self).inv(),
            read_outcome(r, final(self).offset) == take_root(
                old(self).bytes@,
                old(self).offset as nat,
            ),
    {
        let tag: u64 = self.read_number(1)?;
        if tag == 0 {
            let register: u64 = self.read_number(2)?;
            Ok(RootLocation::Register(register as u16))
        } else if tag == 1 {
            let slot: u64 = self.read_number(4)?;
            let slot: i32 = if slot >= 0x8000_0000 {
                (slot as i64 - 0x1_0000_0000) as i32
            } else {
                slot as i32
            };
            Ok(RootLocation::StackSlot(slot))
        } else {
            let mut text = "unknown stack-map root tag ".to_owned();
            text.append(decimal_u64(tag).as_str());
            Err(AotError::Malformed(text))
        }
    }

    fn read_map(&mut self) -> (r: Result<StackMapEntry, AotError>)
        requires
            old(self).inv(),
        ensures
            final(self).bytes == old(self).bytes,
            final(self).inv(),
            match r {
                Ok(map) => take_map(old(self).bytes@, old(self).offset as nat) == Ok::<
                    (StackMapView, nat),
                    AotFault,
                >((map@, final(self).offset as nat)),
                Err(e) => take_map(old(self).bytes@, old(self).offset as nat) == Err::<
                    (StackMapView, nat),
                    AotFault,
                >(e@),
            },
    {
        let offset_from_entry: u64 = self.read_number(4)?;
        let count: u64 = self.read_number(4)?;
        let ghost start = self.offset as nat;
        let ghost b = self.bytes@;
        let mut live_roots: Vec<RootLocation> = Vec::new();
        let mut i: u64 = 0;
        assert(live_roots@ =~= Seq::empty());
        while i < count
            invariant
                i <= count,
                self.inv(),
                self.bytes == old(self).bytes,
                self.bytes@ == b,
                take_number(b, old(self).offset as nat, 4) == Ok::<nat, AotFault>(
                    offset_from_entry as nat,
                ),
                take_number(b, (old(self).offset + 4) as nat, 4) == Ok::<nat, AotFault>(
                    count as nat,
                ),
                start == old(self).offset + 8,
                take_roots(b, start, i as nat) == Ok::<(Seq<RootLocation>, nat), AotFault>(
                    (live_roots@, self.offset as nat),
                ),
            decreases count - i,
        {
            proof {
                lemma_roots_fail(b, start, (i + 1) as nat, count as nat);
            }
            let root = self.read_root()?;
            live_roots.push(root);
            i += 1;
        }
        Ok(StackMapEntry { offset_from_entry: offset_from_entry as u32, live_roots })
    }

    fn read_maps(&mut self, count: u64) -> (r: Result<Vec<StackMapEntry>, AotError>)
        requires
            old(self).inv(),
        ensures
            final(self).bytes == old(self).bytes,
            final(self).inv(),
            match r {
                Ok(maps) => take_maps(old(self).bytes@, old(self).offset as nat, count as nat)
                    == Ok::<(Seq<StackMapView>, nat), AotFault>(
                    (stack_map_views(maps@), final(self).offset as nat),
                ),
                Err(e) => take_maps(old(self).bytes@, old(self).offset as nat, count as nat)
                    == Err::<(Seq<StackMapView>, nat), AotFault>(e@),
            },
    {
        let ghost start = self.offset as nat;
        let ghost b = self.bytes@;
        let mut maps: Vec<StackMapEntry> = Vec::new();
        let mut i: u64 = 0;
        assert(stack_map_views(maps@) =~= Seq::empty());
        while i < count
            invariant
                i <= count,
                self.inv(),
                self.bytes == old(self).bytes,
                self.bytes@ == b,
                start == old(self).offset,
                take_maps(b, start, i as nat) == Ok::<(Seq<StackMapView>, nat), AotFault>(
                    (stack_map_views(maps@), self.offset as nat),
                ),
            decreases count - i,
        {
            proof {
                lemma_maps_fail(b, start, (i + 1) as nat, count as nat);
            }
            let map = self.read_map()?;
            let ghost before = maps@;
            maps.push(map);
            assert(stack_map_views(maps@) =~= stack_map_views(before).push(map@));
            i += 1;
        }
        Ok(maps)
    }

    fn read_entry(&mut self, exports: &Vec<ExportEntry>) -> (r: Result<BundleEntry, AotError>)
        requires
            old(self).inv(),
        ensures
            final(self).bytes == old(self).bytes,
            final(self).inv(),
            match r {
                Ok(entry) => take_entry(old(self).bytes@, old(self).offset as nat, exports@)
                    == Ok::<(EntryView, nat), AotFault>((entry@, final(self).offset as nat)),
                Err(e) => take_entry(old(self).bytes@, old(self).offset as nat, exports@) == Err::<
                    (EntryView, nat),
                    AotFault,
                >(e@),
            },
    {
        let index: u64 = self.read_number(4)?;
        if !name_is_exported(exports, index as u32) {
            let mut text = "unknown function atom index ".to_owned();
            text.append(decimal_u64(index).as_str());
            return Err(AotError::Malformed(text));
        }
        let arity: u64 = self.read_number(1)?;
        let stack_maps = self.read_stack_maps()?;
        Ok(BundleEntry { function: Atom(index as u32), arity: arity as u8, stack_maps })
    }

    fn read_entries(&mut self, exports: &Vec<ExportEntry>, count: u64) -> (r: Result<
        Vec<BundleEntry>,
        AotError,
    >)
        requires
            old(self).inv(),
        ensures
            final(self).bytes == old(self).bytes,
            final(self).inv(),
            match r {
                Ok(entries) => take_entries(
                    old(self).bytes@,
                    old(self).offset as nat,
                    exports@,
                    count as nat,
                ) == Ok::<(Seq<EntryView>, nat), AotFault>(
                    (entry_views(entries@), final(self).offset as nat),
                ),
                Err(e) => take_entries(
                    old(self).bytes@,
                    old(self).offset as nat,
                    exports@,
                    count as nat,
                ) == Err::<(Seq<EntryView>, nat), AotFault>(e@),
            },
    {
        let ghost start = self.offset as nat;
        let ghost b = self.bytes@;
        let mut entries: Vec<BundleEntry> = Vec::new();
        let mut i: u64 = 0;
        assert(entry_views(entries@) =~= Seq::empty());
        while i < count
            invariant
                i <= count,
                self.inv(),
                self.bytes == old(self).bytes,
                self.bytes@ == b,
                start == old(self).offset,
                take_entries(b, start, exports@, i as nat) == Ok::<
                    (Seq<EntryView>, nat),
                    AotFault,
                >((entry_views(entries@), self.offset as nat)),
            decreases count - i,
        {
            proof {
                lemma_entries_fail(b, start, exports@, (i + 1) as nat, count as nat);
            }
            let entry = self.read_entry(exports)?;
            let ghost before = entries@;
            entries.push(entry);
            assert(entry_views(entries@) =~= entry_views(before).push(entry@));
            i += 1;
        }
        Ok(entries)
    }
}

fn name_is_exported(exports: &Vec<ExportEntry>, index: u32) -> (r: bool)
    ensures
        r == exports_name(exports@, index),
{
    let mut i: usize = 0;
    while i < exports.len()
        invariant
            i <= exports@.len(),
            forall|j: int| 0 <= j < i ==> #[trigger] exports@[j].function.0 != index,
        decreases exports@.len() - i,
    {
        if exports[i].function.0 == index {
            return true;
        }
        i += 1;
    }
    false
}

fn is_magic(bytes: &[u8]) -> (r: bool)
    requires
        bytes@.len() == 10,
    ensures
        r == (bytes@ == magic()),
{
    let r = bytes[0] == 66 && bytes[1] == 69 && bytes[2] == 65 && bytes[3] == 77 && bytes[4] == 82
        && bytes[5] == 95 && bytes[6] == 65 && bytes[7] == 79 && bytes[8] == 84 && bytes[9] == 0;
    if r {
        assert(bytes@ =~= magic());
    }
    r
}

/// What reading a bundle answers.
pub open spec fn bundle_outcome(r: Result<DecodedBundle, AotError>) -> Result<BundleView, AotFault> {
    match r {
        Ok(bundle) => Ok(bundle@),
        Err(e) => Err(e@),
    }
}

impl<'a> Reader<'a> {
    fn read_header(&mut self, target: u64) -> (r: Result<(u64, &'a [u8]), AotError>)
        requires
            old(self).inv(),
            old(self).offset == 0,
        ensures
            final(self).bytes == old(self).bytes,
            final(self).inv(),
            match r {
                Ok((module_checksum, part)) => take_header(old(self).bytes@, target) == Ok::<
                    (u64, Seq<u8>, nat),
                    AotFault,
                >((module_checksum, part@, final(self).offset as nat)) && part@.len()
                    <= old(self).bytes@.len(),
                Err(e) => take_header(old(self).bytes@, target) == Err::<
                    (u64, Seq<u8>, nat),
                    AotFault,
                >(e@),
            },
    {
        let found = self.read_exact(10)?;
        if !is_magic(found) {
            return Err(AotError::InvalidMagic);
        }
        let version: u64 = self.read_number(1)?;
        if version != VERSION as u64 {
            return Err(AotError::UnsupportedVersion(version as u8));
        }
        let actual: u64 = self.read_number(8)?;
        if actual != target {
            return Err(AotError::TargetMismatch { expected: target, actual });
        }
        let module_checksum: u64 = self.read_number(8)?;
        let _module: u64 = self.read_number(4)?;
        let length: u64 = self.read_number(8)?;
        if length > usize::MAX as u64 {
            return Err(malformed_error("byte section length overflows usize"));
        }
        let part = self.read_exact(length as usize)?;
        Ok((module_checksum, part))
    }
}

impl DecodedBundle {
    /// Reads a bundle for a target.
    pub fn read(bytes: &[u8], target: u64) -> (r: Result<DecodedBundle, AotError>)
        requires
            bytes@.len() + MAX_TABLE_ENTRIES <= usize::MAX,
        ensures
            bundle_outcome(r) == bundle_of(bytes@, target),
    {
        let mut reader = Reader::new(bytes);
        let (module_checksum, part) = reader.read_header(target)?;
        let mut module_bytes: Vec<u8> = Vec::new();
        write_raw(&mut module_bytes, part);
        assert(module_bytes@ =~= part@);
        let exports = match read_exports(part) {
            Ok(exports) => exports,
            Err(e) => {
                return Err(AotError::Load(e));
            },
        };
        let count: u64 = reader.read_number(4)?;
        let entries = reader.read_entries(&exports, count)?;
        if !reader.is_empty() {
            return Err(malformed_error("trailing bytes after AOT bundle"));
        }
        Ok(DecodedBundle { module_checksum, module_bytes, entries })
    }
}

// ---------------------------------------------------------------------------
// Laws
// ---------------------------------------------------------------------------

/// Whether the bytes from a place on are the given ones.
spec fn holds_at(b: Seq<u8>, at: nat, part: Seq<u8>) -> bool {
    at + part.len() <= b.len() && b.subrange(at as int, (at + part.len()) as int) == part
}

proof fn lemma_split(b: Seq<u8>, at: nat, first: Seq<u8>, second: Seq<u8>)
    requires
        holds_at(b, at, first + second),
    ensures
        holds_at(b, at, first),
        holds_at(b, at + first.len(), second),
{
    let all = b.subrange(at as int, (at + first.len() + second.len()) as int);
    assert(all == first + second);
    assert(b.subrange(at as int, (at + first.len()) as int) =~= all.subrange(
        0,
        first.len() as int,
    ));
    assert((first + second).subrange(0, first.len() as int) =~= first);
    assert(b.subrange(
        (at + first.len()) as int,
        (at + first.len() + second.len()) as int,
    ) =~= all.subrange(first.len() as int, (first.len() + second.len()) as int));
    assert((first + second).subrange(
        first.len() as int,
        (first.len() + second.len()) as int,
    ) =~= second);
}

proof fn lemma_number(b: Seq<u8>, at: nat, value: nat, n: nat)
    requires
        holds_at(b, at, le_bytes(value, n)),
        value < super::little_endian::pow256(n),
        b.len() <= usize::MAX,
    ensures
        take_number(b, at, n) == Ok::<nat, AotFault>(value),
        le_bytes(value, n).len() == n,
{
    law_bytes_hold_their_number(value, n);
}

proof fn lemma_byte(b: Seq<u8>, at: nat, value: u8)
    requires
        holds_at(b, at, seq![value]),
        b.len() <= usize::MAX,
    ensures
        take_number(b, at, 1) == Ok::<nat, AotFault>(value as nat),
{
    let part = b.subrange(at as int, (at + 1) as int);
    assert(part == seq![value]);
    reveal_with_fuel(le_value, 2);
    assert(part.skip(1) =~= Seq::empty());
}

proof fn lemma_root(b: Seq<u8>, at: nat, root: RootLocation)
    requires
        holds_at(b, at, root_bytes(root)),
        b.len() <= usize::MAX,
    ensures
        take_root(b, at) == Ok::<(RootLocation, nat), AotFault>((root, at + root_bytes(root).len())),
{
    lemma_powers();
    match root {
        RootLocation::Register(register) => {
            lemma_split(b, at, seq![0u8], le_bytes(register as nat, 2));
            lemma_byte(b, at, 0);
            lemma_number(b, at + 1, register as nat, 2);
        },
        RootLocation::StackSlot(slot) => {
            lemma_split(b, at, seq![1u8], le_bytes(unsigned(slot), 4));
            lemma_byte(b, at, 1);
            lemma_number(b, at + 1, unsigned(slot), 4);
        },
    }
}

proof fn lemma_roots(b: Seq<u8>, at: nat, roots: Seq<RootLocation>, n: nat)
    requires
        n <= roots.len(),
        holds_at(b, at, roots_bytes(roots, n)),
        b.len() <= usize::MAX,
    ensures
        take_roots(b, at, n) == Ok::<(Seq<RootLocation>, nat), AotFault>(
            (roots.take(n as int), at + roots_bytes(roots, n).len()),
        ),
    decreases n,
{
    if n == 0 {
        assert(roots.take(0) =~= Seq::empty());
    } else {
        let before = roots_bytes(roots, (n - 1) as nat);
        lemma_split(b, at, before, root_bytes(roots[n - 1]));
        lemma_roots(b, at, roots, (n - 1) as nat);
        lemma_root(b, at + before.len(), roots[n - 1]);
        assert(roots.take(n as int) =~= roots.take(n - 1).push(roots[n - 1]));
    }
}

proof fn lemma_map(b: Seq<u8>, at: nat, map: StackMapView)
    requires
        holds_at(b, at, map_bytes(map)),
        map.live_roots.len() < 0x1_0000_0000,
        b.len() <= usize::MAX,
    ensures
        take_map(b, at) == Ok::<(StackMapView, nat), AotFault>((map, at + map_bytes(map).len())),
{
    lemma_powers();
    let roots = roots_bytes(map.live_roots, map.live_roots.len());
    let length = le_bytes(length_word(map.live_roots.len()), 4);
    let offset = le_bytes(map.offset_from_entry as nat, 4);
    lemma_split(b, at, offset, length + roots);
    lemma_number(b, at, map.offset_from_entry as nat, 4);
    lemma_split(b, at + 4, length, roots);
    lemma_number(b, at + 4, map.live_roots.len(), 4);
    lemma_roots(b, at + 8, map.live_roots, map.live_roots.len());
    assert(map.live_roots.take(map.live_roots.len() as int) =~= map.live_roots);
}

/// Whether the lengths in stack maps fit in the words that hold them.
pub open spec fn maps_fit(maps: Seq<StackMapView>) -> bool {
    &&& maps.len() < 0x1_0000_0000
    &&& forall|i: int|
        0 <= i < maps.len() ==> (#[trigger] maps[i]).live_roots.len() < 0x1_0000_0000
}

proof fn lemma_maps(b: Seq<u8>, at: nat, maps: Seq<StackMapView>, n: nat)
    requires
        n <= maps.len(),
        maps_fit(maps),
        holds_at(b, at, maps_bytes(maps, n)),
        b.len() <= usize::MAX,
    ensures
        take_maps(b, at, n) == Ok::<(Seq<StackMapView>, nat), AotFault>(
            (maps.take(n as int), at + maps_bytes(maps, n).len()),
        ),
    decreases n,
{
    if n == 0 {
        assert(maps.take(0) =~= Seq::empty());
    } else {
        let before = maps_bytes(maps, (n - 1) as nat);
        lemma_split(b, at, before, map_bytes(maps[n - 1]));
        lemma_maps(b, at, maps, (n - 1) as nat);
        lemma_map(b, at + before.len(), maps[n - 1]);
        assert(maps.take(n as int) =~= maps.take(n - 1).push(maps[n - 1]));
    }
}

/// Stack maps that were written are read back, whatever follows them, and reading
/// ends where they end.
pub proof fn law_written_stack_maps_are_read_back(
    maps: Seq<StackMapView>,
    before: Seq<u8>,
    tail: Seq<u8>,
)
    requires
        maps_fit(maps),
        before.len() + stack_maps_bytes(maps).len() + tail.len() <= usize::MAX,
    ensures
        ({
            let b = before + stack_maps_bytes(maps) + tail;
            let at = before.len();
            take_stack_maps(b, at) == Ok::<(Seq<StackMapView>, nat), AotFault>(
                (maps, at + stack_maps_bytes(maps).len()),
            )
        }),
{
    lemma_powers();
    let b = before + stack_maps_bytes(maps) + tail;
    let at = before.len();
    let length = le_bytes(length_word(maps.len()), 4);
    let rest = maps_bytes(maps, maps.len());
    assert(holds_at(b, at, stack_maps_bytes(maps))) by {
        assert(b.subrange(at as int, (at + stack_maps_bytes(maps).len()) as int)
            =~= stack_maps_bytes(maps));
    }
    lemma_split(b, at, length, rest);
    lemma_number(b, at, maps.len(), 4);
    lemma_maps(b, at + 4, maps, maps.len());
    assert(maps.take(maps.len() as int) =~= maps);
}

proof fn lemma_entry(b: Seq<u8>, at: nat, exports: Seq<ExportEntry>, entry: EntryView)
    requires
        holds_at(b, at, entry_bytes(entry)),
        maps_fit(entry.stack_maps),
        exports_name(exports, entry.function.0),
        b.len() <= usize::MAX,
    ensures
        take_entry(b, at, exports) == Ok::<(EntryView, nat), AotFault>(
            (entry, at + entry_bytes(entry).len()),
        ),
{
    lemma_powers();
    let name = le_bytes(entry.function.0 as nat, 4);
    let maps = maps_bytes(entry.stack_maps, entry.stack_maps.len());
    let length = le_bytes(length_word(entry.stack_maps.len()), 4);
    lemma_split(b, at, name, seq![entry.arity] + stack_maps_bytes(entry.stack_maps));
    lemma_number(b, at, entry.function.0 as nat, 4);
    lemma_split(b, at + 4, seq![entry.arity], stack_maps_bytes(entry.stack_maps));
    lemma_byte(b, at + 4, entry.arity);
    lemma_split(b, at + 5, length, maps);
    lemma_number(b, at + 5, entry.stack_maps.len(), 4);
    lemma_maps(b, at + 9, entry.stack_maps, entry.stack_maps.len());
    assert(entry.stack_maps.take(entry.stack_maps.len() as int) =~= entry.stack_maps);
}

proof fn lemma_entries(b: Seq<u8>, at: nat, exports: Seq<ExportEntry>, entries: Seq<EntryView>, n: nat)
    requires
        n <= entries.len(),
        entries_fit(entries, exports),
        holds_at(b, at, entries_bytes(entries, n)),
        b.len() <= usize::MAX,
    ensures
        take_entries(b, at, exports, n) == Ok::<(Seq<EntryView>, nat), AotFault>(
            (entries.take(n as int), at + entries_bytes(entries, n).len()),
        ),
    decreases n,
{
    if n == 0 {
        assert(entries.take(0) =~= Seq::empty());
    } else {
        let before = entries_bytes(entries, (n - 1) as nat);
        lemma_split(b, at, before, entry_bytes(entries[n - 1]));
        lemma_entries(b, at, exports, entries, (n - 1) as nat);
        lemma_entry(b, at + before.len(), exports, entries[n - 1]);
        assert(entries.take(n as int) =~= entries.take(n - 1).push(entries[n - 1]));
    }
}

/// Whether entries name functions that are exported, and their lengths fit in
/// the words that hold them.
pub open spec fn entries_fit(entries: Seq<EntryView>, exports: Seq<ExportEntry>) -> bool {
    &&& entries.len() < 0x1_0000_0000
    &&& forall|i: int|
        0 <= i < entries.len() ==> maps_fit((#[trigger] entries[i]).stack_maps) && exports_name(
            exports,
            entries[i].function.0,
        )
}

/// Reading a bundle that was written gives back what was written.
pub proof fn law_written_bundle_is_read_back(target: u64, module: Atom, bundle: BundleView)
    requires
        bundle_bytes(target, module, bundle).len() <= usize::MAX,
        exports_of(bundle.module_bytes) matches Ok(exports) && entries_fit(bundle.entries, exports),
    ensures
        bundle_of(bundle_bytes(target, module, bundle), target) == Ok::<BundleView, AotFault>(
            bundle,
        ),
{
    let b = bundle_bytes(target, module, bundle);
    lemma_header(b, target, module, bundle);
    lemma_rest(b, target, bundle);
}

proof fn lemma_rest(b: Seq<u8>, target: u64, bundle: BundleView)
    requires
        b.len() <= usize::MAX,
        exports_of(bundle.module_bytes) matches Ok(exports) && entries_fit(bundle.entries, exports),
        take_header(b, target) == Ok::<(u64, Seq<u8>, nat), AotFault>(
            (bundle.module_checksum, bundle.module_bytes, 39 + bundle.module_bytes.len()),
        ),
        holds_at(
            b,
            39 + bundle.module_bytes.len(),
            le_bytes(length_word(bundle.entries.len()), 4) + entries_bytes(
                bundle.entries,
                bundle.entries.len(),
            ),
        ),
        b.len() == 39 + bundle.module_bytes.len() + 4 + entries_bytes(
            bundle.entries,
            bundle.entries.len(),
        ).len(),
    ensures
        bundle_of(b, target) == Ok::<BundleView, AotFault>(bundle),
{
    let at = 39 + bundle.module_bytes.len();
    let exports = exports_of(bundle.module_bytes)->Ok_0;
    let entries = entries_bytes(bundle.entries, bundle.entries.len());
    let length = le_bytes(length_word(bundle.entries.len()), 4);
    lemma_powers();
    lemma_split(b, at, length, entries);
    lemma_number(b, at, bundle.entries.len(), 4);
    lemma_entries(b, at + 4, exports, bundle.entries, bundle.entries.len());
    assert(bundle.entries.take(bundle.entries.len() as int) =~= bundle.entries);
}

/// A bundle is read only for the target that it was written for.
pub proof fn law_bundle_is_for_its_target(target: u64, other: u64, module: Atom, bundle: BundleView)
    requires
        bundle_bytes(target, module, bundle).len() <= usize::MAX,
        other != target,
    ensures
        bundle_of(bundle_bytes(target, module, bundle), other) == Err::<BundleView, AotFault>(
            AotFault::TargetMismatch { expected: other, actual: target },
        ),
{
    let b = bundle_bytes(target, module, bundle);
    lemma_start(b, target, module, bundle);
}

/// What follows the target in a bundle.
spec fn after_target(module: Atom, bundle: BundleView) -> Seq<u8> {
    le_bytes(bundle.module_checksum as nat, 8) + (le_bytes(module.0 as nat, 4) + (le_bytes(
        bundle.module_bytes.len(),
        8,
    ) + (bundle.module_bytes + (le_bytes(length_word(bundle.entries.len()), 4) + entries_bytes(
        bundle.entries,
        bundle.entries.len(),
    )))))
}

proof fn lemma_start(b: Seq<u8>, target: u64, module: Atom, bundle: BundleView)
    requires
        b == bundle_bytes(target, module, bundle),
        b.len() <= usize::MAX,
    ensures
        take_bytes(b, 0, 10) == Ok::<Seq<u8>, AotFault>(magic()),
        take_number(b, 10, 1) == Ok::<nat, AotFault>(VERSION as nat),
        take_number(b, 11, 8) == Ok::<nat, AotFault>(target as nat),
        holds_at(b, 19, after_target(module, bundle)),
{
    lemma_powers();
    let after = after_target(module, bundle);
    let word = le_bytes(target as nat, 8);
    assert(b == magic() + (seq![VERSION] + (word + after)));
    assert(b.subrange(0, b.len() as int) =~= b);
    lemma_split(b, 0, magic(), seq![VERSION] + (word + after));
    lemma_split(b, 10, seq![VERSION], word + after);
    lemma_byte(b, 10, VERSION);
    lemma_split(b, 11, word, after);
    lemma_number(b, 11, target as nat, 8);
}

proof fn lemma_header(b: Seq<u8>, target: u64, module: Atom, bundle: BundleView)
    requires
        b == bundle_bytes(target, module, bundle),
        b.len() <= usize::MAX,
    ensures
        take_header(b, target) == Ok::<(u64, Seq<u8>, nat), AotFault>(
            (bundle.module_checksum, bundle.module_bytes, 39 + bundle.module_bytes.len()),
        ),
        holds_at(
            b,
            39 + bundle.module_bytes.len(),
            le_bytes(length_word(bundle.entries.len()), 4) + entries_bytes(
                bundle.entries,
                bundle.entries.len(),
            ),
        ),
        b.len() == 39 + bundle.module_bytes.len() + 4 + entries_bytes(
            bundle.entries,
            bundle.entries.len(),
        ).len(),
{
    lemma_powers();
    lemma_start(b, target, module, bundle);
    let tail = le_bytes(length_word(bundle.entries.len()), 4) + entries_bytes(
        bundle.entries,
        bundle.entries.len(),
    );
    let sum = le_bytes(bundle.module_checksum as nat, 8);
    let name = le_bytes(module.0 as nat, 4);
    let length = le_bytes(bundle.module_bytes.len(), 8);
    lemma_bytes_len(target as nat, 8);
    lemma_bytes_len(length_word(bundle.entries.len()), 4);
    lemma_split(b, 19, sum, name + (length + (bundle.module_bytes + tail)));
    lemma_number(b, 19, bundle.module_checksum as nat, 8);
    lemma_split(b, 27, name, length + (bundle.module_bytes + tail));
    lemma_number(b, 27, module.0 as nat, 4);
    lemma_split(b, 31, length, bundle.module_bytes + tail);
    lemma_number(b, 31, bundle.module_bytes.len(), 8);
    lemma_split(b, 39, bundle.module_bytes, tail);
}

} // verus!

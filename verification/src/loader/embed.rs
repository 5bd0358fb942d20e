//! Archives of compressed modules that are linked into a program.

use std::sync::Arc;

use vstd::prelude::*;
use vstd::std_specs::cmp::PartialEqSpecImpl;
use vstd::string::*;
use vstd::utf8::{decode_utf8, encode_utf8, valid_utf8};
use crate::atom::{AtomTable, ATOM_LIMIT};
use crate::error::LoadError;
use crate::module::{Module, ModuleOrigin, ModuleRegistry, ModuleVersions};
use crate::native::{AllCapabilitiesPolicy, BifRegistry, CapabilityPolicy};
use crate::text::{decimal_u64, nat_text, quoted, quoted_text, same_text, utf8_text};
use super::decode::budget::{DEFAULT_DECODE_NODE_BUDGET, MAX_TABLE_ENTRIES};
use super::load::{
    decoded_module, load_module_with_origin, load_module_with_origin_and_policy, load_outcome,
};
use super::report::UnresolvedImportReport;

verus! {

/// How many bytes the magic number has.
pub const MAGIC_LEN: usize = 12;

/// Version of the archive format.
pub const VERSION: u8 = 1;

/// Number of bytes before the first entry.
pub const HEADER_LEN: usize = 17;

/// How hard modules are compressed.
pub const ZSTD_LEVEL: i32 = 3;

/// The magic number: `BEAMR_EMBED` and a zero byte.
pub open spec fn magic_bytes() -> Seq<u8> {
    seq![66u8, 69u8, 65u8, 77u8, 82u8, 95u8, 69u8, 77u8, 66u8, 69u8, 68u8, 0u8]
}

/// The magic number: `BEAMR_EMBED` and a zero byte.
pub fn magic() -> (r: [u8; 12])
    ensures
        r@ == magic_bytes(),
{
    let bytes: [u8; 12] = [66, 69, 65, 77, 82, 95, 69, 77, 66, 69, 68, 0];
    assert(bytes@ =~= magic_bytes());
    bytes
}

/// A failure of a reader or a writer: the name of its kind, and what it says.
#[derive(Debug, Clone)]
pub struct IoFailure {
    pub kind: String,
    pub text: String,
}

/// An [`IoFailure`] with texts as sequences.
#[verifier::ext_equal]
pub struct IoFault {
    pub kind: Seq<char>,
    pub text: Seq<char>,
}

impl View for IoFailure {
    type V = IoFault;

    open spec fn view(&self) -> IoFault {
        IoFault { kind: self.kind@, text: self.text@ }
    }
}

/// What can go wrong with an archive.
#[derive(Debug, Clone)]
pub enum EmbedError {
    /// The header, version, lengths, count, or names are invalid.
    InvalidArchive,
    /// Reading files failed.
    Io(IoFailure),
    /// Compression failed.
    Compression(IoFailure),
    /// A module name is too long for the format.
    ModuleNameTooLong { name: String, len: usize },
    /// A compressed module is too long for the format.
    BeamDataTooLong { module: String, len: usize },
    /// There are too many modules for the format.
    TooManyModules { count: usize },
}

/// An [`EmbedError`] with texts as sequences.
#[verifier::ext_equal]
pub enum EmbedFault {
    InvalidArchive,
    Io(IoFault),
    Compression(IoFault),
    ModuleNameTooLong { name: Seq<char>, len: usize },
    BeamDataTooLong { module: Seq<char>, len: usize },
    TooManyModules { count: usize },
}

impl View for EmbedError {
    type V = EmbedFault;

    open spec fn view(&self) -> EmbedFault {
        match self {
            EmbedError::InvalidArchive => EmbedFault::InvalidArchive,
            EmbedError::Io(failure) => EmbedFault::Io(failure@),
            EmbedError::Compression(failure) => EmbedFault::Compression(failure@),
            EmbedError::ModuleNameTooLong { name, len } => EmbedFault::ModuleNameTooLong {
                name: name@,
                len: *len,
            },
            EmbedError::BeamDataTooLong { module, len } => EmbedFault::BeamDataTooLong {
                module: module@,
                len: *len,
            },
            EmbedError::TooManyModules { count } => EmbedFault::TooManyModules { count: *count },
        }
    }
}

/// Whether two errors are the same. Failures of readers and writers are the same if
/// they are of the same kind, whatever they say.
pub open spec fn same_fault(left: EmbedFault, right: EmbedFault) -> bool {
    match (left, right) {
        (EmbedFault::Io(left), EmbedFault::Io(right)) => left.kind == right.kind,
        (EmbedFault::Compression(left), EmbedFault::Compression(right)) => left.kind
            == right.kind,
        _ => left == right,
    }
}

impl PartialEq for EmbedError {
    fn eq(&self, other: &Self) -> (r: bool) {
        match (self, other) {
            (EmbedError::InvalidArchive, EmbedError::InvalidArchive) => true,
            (EmbedError::Io(left), EmbedError::Io(right)) => same_text(
                left.kind.as_str(),
                right.kind.as_str(),
            ),
            (EmbedError::Compression(left), EmbedError::Compression(right)) => same_text(
                left.kind.as_str(),
                right.kind.as_str(),
            ),
            (
                EmbedError::ModuleNameTooLong { name: left, len: left_len },
                EmbedError::ModuleNameTooLong { name: right, len: right_len },
            ) => same_text(left.as_str(), right.as_str()) && *left_len == *right_len,
            (
                EmbedError::BeamDataTooLong { module: left, len: left_len },
                EmbedError::BeamDataTooLong { module: right, len: right_len },
            ) => same_text(left.as_str(), right.as_str()) && *left_len == *right_len,
            (
                EmbedError::TooManyModules { count: left },
                EmbedError::TooManyModules { count: right },
            ) => *left == *right,
            _ => false,
        }
    }
}

impl Eq for EmbedError {
}

impl PartialEqSpecImpl for EmbedError {
    open spec fn obeys_eq_spec() -> bool {
        true
    }

    open spec fn eq_spec(&self, other: &Self) -> bool {
        same_fault(self@, other@)
    }
}

/// What an error says.
pub open spec fn embed_text(fault: EmbedFault) -> Seq<char> {
    match fault {
        EmbedFault::InvalidArchive => "invalid embedded BEAM archive"@,
        EmbedFault::Io(failure) => "embedded archive IO error: "@ + failure.text,
        EmbedFault::Compression(failure) => "embedded archive zstd error: "@ + failure.text,
        EmbedFault::ModuleNameTooLong { name, len } => "embedded module name "@ + quoted_text(name)
            + " is too long ("@ + nat_text(len as nat) + " bytes)"@,
        EmbedFault::BeamDataTooLong { module, len } => "embedded module "@ + quoted_text(module)
            + " compressed payload is too long ("@ + nat_text(len as nat) + " bytes)"@,
        EmbedFault::TooManyModules { count } => "too many embedded modules ("@ + nat_text(
            count as nat,
        ) + ")"@,
    }
}

impl EmbedError {
    /// What the error says.
    pub fn describe(&self) -> (r: String)
        ensures
            r@ == embed_text(self@),
    {
        match self {
            EmbedError::InvalidArchive => "invalid embedded BEAM archive".to_owned(),
            EmbedError::Io(failure) => {
                let mut text = "embedded archive IO error: ".to_owned();
                text.append(failure.text.as_str());
                text
            },
            EmbedError::Compression(failure) => {
                let mut text = "embedded archive zstd error: ".to_owned();
                text.append(failure.text.as_str());
                text
            },
            EmbedError::ModuleNameTooLong { name, len } => {
                let mut text = "embedded module name ".to_owned();
                text.append(quoted(name.as_str()).as_str());
                text.append(" is too long (");
                text.append(decimal_u64(*len as u64).as_str());
                text.append(" bytes)");
                text
            },
            EmbedError::BeamDataTooLong { module, len } => {
                let mut text = "embedded module ".to_owned();
                text.append(quoted(module.as_str()).as_str());
                text.append(" compressed payload is too long (");
                text.append(decimal_u64(*len as u64).as_str());
                text.append(" bytes)");
                text
            },
            EmbedError::TooManyModules { count } => {
                let mut text = "too many embedded modules (".to_owned();
                text.append(decimal_u64(*count as u64).as_str());
                text.append(")");
                text
            },
        }
    }
}

/// An entry: the name of a module and its compressed bytes.
#[verifier::ext_equal]
pub struct EntryView {
    pub name: Seq<char>,
    pub compressed: Seq<u8>,
}

/// The 16-bit number at the start of `s`, least significant byte first.
pub open spec fn le_u16(s: Seq<u8>) -> nat {
    (s[0] + s[1] * 256) as nat
}

/// The 32-bit number at the start of `s`, least significant byte first.
pub open spec fn le_u32(s: Seq<u8>) -> nat {
    (s[0] + s[1] * 0x100 + s[2] * 0x1_0000 + s[3] * 0x100_0000) as nat
}

/// The entry at the start of `s` and what follows it.
///
/// An entry is the length of a name in 16 bits, the name, the length of the
/// compressed module in 32 bits, and the compressed module.
#[verifier::opaque]
pub open spec fn first_entry(s: Seq<u8>) -> Option<(EntryView, Seq<u8>)> {
    if s.len() < 2 {
        None
    } else {
        let name_len = le_u16(s);
        let t = s.skip(2);
        if t.len() < name_len || !valid_utf8(t.take(name_len as int)) {
            None
        } else {
            let u = t.skip(name_len as int);
            if u.len() < 4 {
                None
            } else {
                let beam_len = le_u32(u);
                let v = u.skip(4);
                if v.len() < beam_len {
                    None
                } else {
                    Some(
                        (
                            EntryView {
                                name: decode_utf8(t.take(name_len as int)),
                                compressed: v.take(beam_len as int),
                            },
                            v.skip(beam_len as int),
                        ),
                    )
                }
            }
        }
    }
}

/// The `n` entries that `s` consists of, after those in `found`.
pub open spec fn entries_of(s: Seq<u8>, n: nat, found: Seq<EntryView>) -> Option<Seq<EntryView>>
    decreases n,
{
    if n == 0 {
        if s.len() == 0 {
            Some(found)
        } else {
            None
        }
    } else {
        match first_entry(s) {
            None => None,
            Some((entry, rest)) => entries_of(rest, (n - 1) as nat, found.push(entry)),
        }
    }
}

/// The entries of an archive, or nothing when the bytes are no archive.
///
/// An archive is the magic number, the version, the number of entries, and the
/// entries, with nothing after them.
pub open spec fn archive(b: Seq<u8>) -> Option<Seq<EntryView>> {
    if b.len() < HEADER_LEN || b.take(12) != magic_bytes() || b[12] != VERSION {
        None
    } else {
        entries_of(b.skip(17), le_u32(b.skip(13)), Seq::empty())
    }
}

#[derive(Debug, Clone, PartialEq, Eq)]
struct EmbeddedEntry<'a> {
    name: &'a str,
    compressed_beam: &'a [u8],
}

/// An archive over borrowed bytes.
#[derive(Debug, Clone, PartialEq, Eq)]
pub struct EmbeddedArchive<'a> {
    entries: Vec<EmbeddedEntry<'a>>,
}

spec fn entry_view(entry: EmbeddedEntry<'_>) -> EntryView {
    EntryView { name: entry.name@, compressed: entry.compressed_beam@ }
}

spec fn entry_views(entries: Seq<EmbeddedEntry<'_>>) -> Seq<EntryView> {
    Seq::new(entries.len(), |i: int| entry_view(entries[i]))
}

/// The first entry with the given name.
pub open spec fn entry_named(entries: Seq<EntryView>, name: Seq<char>) -> Option<EntryView>
    decreases entries.len(),
{
    if entries.len() == 0 {
        None
    } else if entries[0].name == name {
        Some(entries[0])
    } else {
        entry_named(entries.skip(1), name)
    }
}

/// What [`zstd_decode`] answers: the bytes that a zstd stream holds, or nothing
/// when it cannot be read.
pub uninterp spec fn zstd_decoded(stream: Seq<u8>) -> Option<Seq<u8>>;

/// What [`zstd_encode`] answers: a zstd stream that holds the bytes, or the kind and
/// the text of why there is none.
pub uninterp spec fn zstd_encoded(bytes: Seq<u8>, level: i32) -> Result<
    Seq<u8>,
    (Seq<char>, Seq<char>),
>;

/// `zstd::stream::decode_all`: the bytes that the stream holds, or nothing when
/// it is no complete zstd stream.
#[verifier::external_body]
fn zstd_decode(stream: &[u8]) -> (r: Option<Vec<u8>>)
    ensures
        match r {
            Some(bytes) => zstd_decoded(stream@) == Some(bytes@),
            None => zstd_decoded(stream@) is None,
        },
{
    zstd::stream::decode_all(std::io::Cursor::new(stream)).ok()
}

/// `zstd::stream::encode_all`: a zstd stream that `zstd::stream::decode_all`
/// reads back to the same bytes, or the kind and the text of the error.
#[verifier::external_body]
fn zstd_encode(bytes: &[u8], level: i32) -> (r: Result<Vec<u8>, (String, String)>)
    ensures
        match r {
            Ok(stream) => zstd_encoded(bytes@, level) == Ok::<
                Seq<u8>,
                (Seq<char>, Seq<char>),
            >(stream@) && zstd_decoded(stream@) == Some(bytes@),
            Err((kind, text)) => zstd_encoded(bytes@, level) == Err::<
                Seq<u8>,
                (Seq<char>, Seq<char>),
            >((kind@, text@)),
        },
{
    zstd::stream::encode_all(std::io::Cursor::new(bytes), level)
        .map_err(|error| (format!("{:?}", error.kind()), error.to_string()))
}

fn read_u16(bytes: &[u8], at: usize) -> (r: u16)
    requires
        at + 2 <= bytes@.len(),
    ensures
        r == le_u16(bytes@.skip(at as int)),
{
    bytes[at] as u16 + (bytes[at + 1] as u16) * 256
}

fn read_u32(bytes: &[u8], at: usize) -> (r: u32)
    requires
        at + 4 <= bytes@.len(),
    ensures
        r == le_u32(bytes@.skip(at as int)),
{
    bytes[at] as u32 + (bytes[at + 1] as u32) * 0x100 + (bytes[at + 2] as u32) * 0x1_0000 + (
    bytes[at + 3] as u32) * 0x100_0000
}

fn read_entry<'a>(bytes: &'a [u8], at: usize) -> (r: Option<(EmbeddedEntry<'a>, usize)>)
    requires
        at <= bytes@.len(),
    ensures
        match first_entry(bytes@.skip(at as int)) {
            Some((entry, rest)) => r matches Some((found, end)) && entry_view(found) == entry && at
                < end <= bytes@.len() && bytes@.skip(end as int) == rest,
            None => r is None,
        },
{
    reveal(first_entry);
    let total: usize = bytes.len();
    let ghost s = bytes@.skip(at as int);
    if total - at < 2 {
        return None;
    }
    let name_len: usize = read_u16(bytes, at) as usize;
    let name_at: usize = at + 2;
    assert(s.skip(2) =~= bytes@.skip(name_at as int));
    if total - name_at < name_len {
        return None;
    }
    let name_end: usize = name_at + name_len;
    let name_bytes = vstd::slice::slice_subrange(bytes, name_at, name_end);
    assert(s.skip(2).take(name_len as int) =~= name_bytes@);
    let name = match utf8_text(name_bytes) {
        Some(name) => name,
        None => {
            return None;
        },
    };
    assert(s.skip(2).skip(name_len as int) =~= bytes@.skip(name_end as int));
    if total - name_end < 4 {
        return None;
    }
    let beam_len: usize = read_u32(bytes, name_end) as usize;
    let beam_at: usize = name_end + 4;
    assert(bytes@.skip(name_end as int).skip(4) =~= bytes@.skip(beam_at as int));
    if total - beam_at < beam_len {
        return None;
    }
    let beam_end: usize = beam_at + beam_len;
    let compressed_beam = vstd::slice::slice_subrange(bytes, beam_at, beam_end);
    assert(bytes@.skip(beam_at as int).take(beam_len as int) =~= compressed_beam@);
    assert(bytes@.skip(beam_at as int).skip(beam_len as int) =~= bytes@.skip(beam_end as int));
    Some((EmbeddedEntry { name, compressed_beam }, beam_end))
}

fn starts_with_magic(bytes: &[u8]) -> (r: bool)
    requires
        bytes@.len() >= 12,
    ensures
        r == (bytes@.take(12) == magic_bytes()),
{
    let expected = magic();
    let mut i: usize = 0;
    while i < 12
        invariant
            i <= 12 <= bytes@.len(),
            expected@ == magic_bytes(),
            expected@.len() == 12,
            forall|j: int| 0 <= j < i ==> bytes@[j] == magic_bytes()[j],
        decreases 12 - i,
    {
        if bytes[i] != expected[i] {
            proof {
                assert(bytes@.take(12)[i as int] != magic_bytes()[i as int]);
            }
            return false;
        }
        i += 1;
    }
    assert(bytes@.take(12) =~= magic_bytes());
    true
}

impl<'a> EmbeddedArchive<'a> {
    /// The entries of the archive, in order.
    pub closed spec fn view(&self) -> Seq<EntryView> {
        entry_views(self.entries@)
    }

    /// Reads an archive.
    pub fn parse(bytes: &'a [u8]) -> (r: Result<Self, EmbedError>)
        ensures
            match archive(bytes@) {
                Some(entries) => r matches Ok(found) && found.view() == entries,
                None => r matches Err(e) && e@ == EmbedFault::InvalidArchive,
            },
    {
        let total: usize = bytes.len();
        if total < HEADER_LEN || !starts_with_magic(bytes) || bytes[12] != VERSION {
            return Err(EmbedError::InvalidArchive);
        }
        let count: u32 = read_u32(bytes, 13);
        let mut at: usize = 17;
        let mut left: u32 = count;
        let mut entries: Vec<EmbeddedEntry<'a>> = Vec::new();
        assert(entry_views(entries@) =~= Seq::empty());
        while left > 0
            invariant
                17 <= at <= bytes@.len(),
                archive(bytes@) == entries_of(
                    bytes@.skip(at as int),
                    left as nat,
                    entry_views(entries@),
                ),
            decreases left,
        {
            match read_entry(bytes, at) {
                None => {
                    return Err(EmbedError::InvalidArchive);
                },
                Some((entry, end)) => {
                    assert(entry_views(entries@.push(entry)) =~= entry_views(entries@).push(
                        entry_view(entry),
                    ));
                    entries.push(entry);
                    at = end;
                },
            }
            left -= 1;
        }
        if at != total {
            return Err(EmbedError::InvalidArchive);
        }
        Ok(EmbeddedArchive { entries })
    }

    /// The names and compressed bytes of all modules, in order.
    pub fn modules(&self) -> (r: Vec<(&str, &[u8])>)
        ensures
            r@.len() == self.view().len(),
            forall|i: int|
                0 <= i < r@.len() ==> (#[trigger] r@[i]).0@ == self.view()[i].name && r@[i].1@
                    == self.view()[i].compressed,
    {
        let mut modules: Vec<(&str, &[u8])> = Vec::new();
        let mut i: usize = 0;
        while i < self.entries.len()
            invariant
                i <= self.entries@.len(),
                modules@.len() == i,
                forall|j: int|
                    0 <= j < i ==> (#[trigger] modules@[j]).0@ == self.view()[j].name
                        && modules@[j].1@ == self.view()[j].compressed,
            decreases self.entries@.len() - i,
        {
            modules.push((self.entries[i].name, self.entries[i].compressed_beam));
            i += 1;
        }
        modules
    }

    /// The names of all modules, in order.
    pub fn module_names(&self) -> (r: Vec<&str>)
        ensures
            r@.len() == self.view().len(),
            forall|i: int| 0 <= i < r@.len() ==> (#[trigger] r@[i])@ == self.view()[i].name,
    {
        let mut names: Vec<&str> = Vec::new();
        let mut i: usize = 0;
        while i < self.entries.len()
            invariant
                i <= self.entries@.len(),
                names@.len() == i,
                forall|j: int| 0 <= j < i ==> (#[trigger] names@[j])@ == self.view()[j].name,
            decreases self.entries@.len() - i,
        {
            names.push(self.entries[i].name);
            i += 1;
        }
        names
    }

    /// The compressed bytes of the first module with the given name.
    pub fn find(&self, module_name: &str) -> (r: Option<&[u8]>)
        ensures
            match entry_named(self.view(), module_name@) {
                Some(entry) => r matches Some(bytes) && bytes@ == entry.compressed,
                None => r is None,
            },
    {
        let mut i: usize = 0;
        assert(self.view().skip(0) =~= self.view());
        while i < self.entries.len()
            invariant
                i <= self.entries@.len(),
                entry_named(self.view(), module_name@) == entry_named(
                    self.view().skip(i as int),
                    module_name@,
                ),
            decreases self.entries@.len() - i,
        {
            assert(self.view().skip(i as int)[0] == entry_view(self.entries@[i as int]));
            assert(self.view().skip(i as int).skip(1) =~= self.view().skip(i + 1));
            if same_text(self.entries[i].name, module_name) {
                return Some(self.entries[i].compressed_beam);
            }
            i += 1;
        }
        None
    }

    /// The bytes of the module with the given name, when its compressed bytes
    /// can be read.
    pub fn get(&self, module_name: &str) -> (r: Option<Vec<u8>>)
        ensures
            match entry_named(self.view(), module_name@) {
                Some(entry) => match zstd_decoded(entry.compressed) {
                    Some(bytes) => r matches Some(found) && found@ == bytes,
                    None => r is None,
                },
                None => r is None,
            },
    {
        match self.find(module_name) {
            Some(compressed) => zstd_decode(compressed),
            None => None,
        }
    }
}

/// Reads the archive that is linked into a program.
pub fn embedded_archive<'a>(linked: &'a [u8]) -> (r: Result<EmbeddedArchive<'a>, EmbedError>)
    ensures
        match archive(linked@) {
            Some(entries) => r matches Ok(found) && found.view() == entries,
            None => r matches Err(e) && e@ == EmbedFault::InvalidArchive,
        },
{
    EmbeddedArchive::parse(linked)
}

/// The names of the modules that are linked into a program; none when the
/// archive is invalid.
pub fn embedded_module_names(linked: &[u8]) -> (r: Vec<String>)
    ensures
        match archive(linked@) {
            Some(entries) => r@.len() == entries.len() && forall|i: int|
                0 <= i < r@.len() ==> (#[trigger] r@[i])@ == entries[i].name,
            None => r@.len() == 0,
        },
{
    let mut owned: Vec<String> = Vec::new();
    match embedded_archive(linked) {
        Err(_) => {},
        Ok(found) => {
            let names = found.module_names();
            let mut i: usize = 0;
            while i < names.len()
                invariant
                    i <= names@.len(),
                    names@.len() == found.view().len(),
                    owned@.len() == i,
                    forall|j: int|
                        0 <= j < names@.len() ==> (#[trigger] names@[j])@ == found.view()[j].name,
                    forall|j: int| 0 <= j < i ==> (#[trigger] owned@[j])@ == found.view()[j].name,
                decreases names@.len() - i,
            {
                assert(names@[i as int]@ == found.view()[i as int].name);
                owned.push(names[i].to_owned());
                i += 1;
            }
        },
    }
    owned
}

/// The bytes of the module of the given name in an archive, when there is one and
/// its compressed bytes can be read.
pub open spec fn embedded_bytes(linked: Seq<u8>, module_name: Seq<char>) -> Option<Seq<u8>> {
    match archive(linked) {
        Some(entries) => match entry_named(entries, module_name) {
            Some(entry) => zstd_decoded(entry.compressed),
            None => None,
        },
        None => None,
    }
}

/// The bytes of a module that is linked into a program, if there is one.
pub fn embedded_module_bytes(linked: &[u8], module_name: &str) -> (r: Option<Vec<u8>>)
    ensures
        match embedded_bytes(linked@, module_name@) {
            Some(bytes) => r matches Some(found) && found@ == bytes,
            None => r is None,
        },
{
    match embedded_archive(linked) {
        Ok(found) => found.get(module_name),
        Err(_) => None,
    }
}

/// Whether the loader can count through the module of the given name: a machine
/// holds no module for which it cannot.
pub open spec fn embedded_fits(linked: Seq<u8>, module_name: Seq<char>) -> bool {
    embedded_bytes(linked, module_name) matches Some(bytes) ==> bytes.len() + MAX_TABLE_ENTRIES
        <= usize::MAX
}

/// What loading a linked module answers, and the atoms and modules after it:
/// nothing, with both as they were, when there is no such module; otherwise what
/// loading its bytes answers.
pub open spec fn embedded_outcome<B: BifRegistry, P: CapabilityPolicy>(
    linked: Seq<u8>,
    module_name: Seq<char>,
    names: Seq<Seq<char>>,
    modules: Map<u32, ModuleVersions>,
    bifs: &B,
    policy: &P,
    r: Result<Option<(Arc<Module>, UnresolvedImportReport)>, LoadError>,
    names_after: Seq<Seq<char>>,
    modules_after: Map<u32, ModuleVersions>,
) -> bool {
    match embedded_bytes(linked, module_name) {
        None => (r matches Ok(found) && found is None) && names_after == names && modules_after
            == modules,
        Some(bytes) => {
            let loaded = match r {
                Ok(Some(found)) => Some(Ok(found)),
                Ok(None) => None,
                Err(e) => Some(Err(e)),
            };
            &&& names_after == decoded_module(bytes, names).1
            &&& loaded is Some
            &&& load_outcome(
                bytes,
                names,
                modules,
                bifs,
                policy,
                ModuleOrigin::Embedded,
                loaded->Some_0,
                modules_after,
            )
        },
    }
}

/// Loads a module that is linked into a program, if there is one.
pub fn load_embedded_module_with_policy<B: BifRegistry, P: CapabilityPolicy>(
    linked: &[u8],
    module_name: &str,
    atom_table: &mut AtomTable,
    module_registry: &mut ModuleRegistry,
    bif_registry: &B,
    capability_policy: &P,
) -> (r: Result<Option<(Arc<Module>, UnresolvedImportReport)>, LoadError>)
    requires
        old(atom_table).wf(),
        old(atom_table)@.len() + DEFAULT_DECODE_NODE_BUDGET <= ATOM_LIMIT,
        embedded_fits(linked@, module_name@),
    ensures
        final(atom_table).wf(),
        embedded_outcome(
            linked@,
            module_name@,
            old(atom_table)@,
            old(module_registry)@,
            bif_registry,
            capability_policy,
            r,
            final(atom_table)@,
            final(module_registry)@,
        ),
{
    match embedded_module_bytes(linked, module_name) {
        None => Ok(None),
        Some(bytes) => {
            let loaded = load_module_with_origin_and_policy(
                bytes.as_slice(),
                atom_table,
                module_registry,
                bif_registry,
                capability_policy,
                ModuleOrigin::Embedded,
            );
            match loaded {
                Ok(found) => Ok(Some(found)),
                Err(e) => Err(e),
            }
        },
    }
}

/// Loads a module that is linked into a program, if there is one, with every
/// capability granted.
pub fn load_embedded_module<B: BifRegistry>(
    linked: &[u8],
    module_name: &str,
    atom_table: &mut AtomTable,
    module_registry: &mut ModuleRegistry,
    bif_registry: &B,
) -> (r: Result<Option<(Arc<Module>, UnresolvedImportReport)>, LoadError>)
    requires
        old(atom_table).wf(),
        old(atom_table)@.len() + DEFAULT_DECODE_NODE_BUDGET <= ATOM_LIMIT,
        embedded_fits(linked@, module_name@),
    ensures
        final(atom_table).wf(),
        embedded_outcome(
            linked@,
            module_name@,
            old(atom_table)@,
            old(module_registry)@,
            bif_registry,
            &AllCapabilitiesPolicy,
            r,
            final(atom_table)@,
            final(module_registry)@,
        ),
{
    match embedded_module_bytes(linked, module_name) {
        None => Ok(None),
        Some(bytes) => {
            let loaded = load_module_with_origin(
                bytes.as_slice(),
                atom_table,
                module_registry,
                bif_registry,
                ModuleOrigin::Embedded,
            );
            match loaded {
                Ok(found) => Ok(Some(found)),
                Err(e) => Err(e),
            }
        },
    }
}

/// Whether the loader can count through the module of the given name.
pub fn embedded_module_fits(linked: &[u8], module_name: &str) -> (r: bool)
    ensures
        r == embedded_fits(linked@, module_name@),
{
    match embedded_module_bytes(linked, module_name) {
        None => true,
        Some(bytes) => bytes.len() <= usize::MAX - MAX_TABLE_ENTRIES,
    }
}

/// [`load_embedded_module_with_policy`], or nothing, with nothing changed, when
/// the module is too large for the loader to count through.
pub fn try_load_embedded_module_with_policy<B: BifRegistry, P: CapabilityPolicy>(
    linked: &[u8],
    module_name: &str,
    atom_table: &mut AtomTable,
    module_registry: &mut ModuleRegistry,
    bif_registry: &B,
    capability_policy: &P,
) -> (r: Option<Result<Option<(Arc<Module>, UnresolvedImportReport)>, LoadError>>)
    requires
        old(atom_table).wf(),
        old(atom_table)@.len() + DEFAULT_DECODE_NODE_BUDGET <= ATOM_LIMIT,
    ensures
        final(atom_table).wf(),
        match r {
            Some(answer) => embedded_fits(linked@, module_name@) && embedded_outcome(
                linked@,
                module_name@,
                old(atom_table)@,
                old(module_registry)@,
                bif_registry,
                capability_policy,
                answer,
                final(atom_table)@,
                final(module_registry)@,
            ),
            None => !embedded_fits(linked@, module_name@) && final(atom_table)@ == old(atom_table)@ && final(module_registry)@ == old(module_registry)@,
        },
{
    if !embedded_module_fits(linked, module_name) {
        return None;
    }
    Some(
        load_embedded_module_with_policy(
            linked,
            module_name,
            atom_table,
            module_registry,
            bif_registry,
            capability_policy,
        ),
    )
}

/// [`load_embedded_module`], or nothing, with nothing changed, when the module is
/// too large for the loader to count through.
pub fn try_load_embedded_module<B: BifRegistry>(
    linked: &[u8],
    module_name: &str,
    atom_table: &mut AtomTable,
    module_registry: &mut ModuleRegistry,
    bif_registry: &B,
) -> (r: Option<Result<Option<(Arc<Module>, UnresolvedImportReport)>, LoadError>>)
    requires
        old(atom_table).wf(),
        old(atom_table)@.len() + DEFAULT_DECODE_NODE_BUDGET <= ATOM_LIMIT,
    ensures
        final(atom_table).wf(),
        match r {
            Some(answer) => embedded_fits(linked@, module_name@) && embedded_outcome(
                linked@,
                module_name@,
                old(atom_table)@,
                old(module_registry)@,
                bif_registry,
                &AllCapabilitiesPolicy,
                answer,
                final(atom_table)@,
                final(module_registry)@,
            ),
            None => !embedded_fits(linked@, module_name@) && final(atom_table)@ == old(atom_table)@ && final(module_registry)@ == old(module_registry)@,
        },
{
    if !embedded_module_fits(linked, module_name) {
        return None;
    }
    Some(
        load_embedded_module(linked, module_name, atom_table, module_registry, bif_registry),
    )
}

// ---------------------------------------------------------------------------
// Writing an archive
// ---------------------------------------------------------------------------

/// A number as two bytes, least significant first.
pub open spec fn le16(n: nat) -> Seq<u8> {
    seq![(n % 256) as u8, ((n / 256) % 256) as u8]
}

/// A number as four bytes, least significant first.
pub open spec fn le32(n: nat) -> Seq<u8> {
    seq![
        (n % 256) as u8,
        ((n / 0x100) % 256) as u8,
        ((n / 0x1_0000) % 256) as u8,
        ((n / 0x100_0000) % 256) as u8,
    ]
}

/// The bytes of an entry.
pub open spec fn entry_bytes(entry: EntryView) -> Seq<u8> {
    le16(encode_utf8(entry.name).len()) + encode_utf8(entry.name) + le32(entry.compressed.len())
        + entry.compressed
}

/// The bytes of entries, one after the other.
pub open spec fn entries_bytes(entries: Seq<EntryView>) -> Seq<u8>
    decreases entries.len(),
{
    if entries.len() == 0 {
        Seq::empty()
    } else {
        entries_bytes(entries.drop_last()) + entry_bytes(entries.last())
    }
}

/// The bytes before the entries.
pub open spec fn header_bytes(count: nat) -> Seq<u8> {
    magic_bytes() + seq![VERSION] + le32(count)
}

/// The bytes of an archive with the given entries.
pub open spec fn archive_bytes(entries: Seq<EntryView>) -> Seq<u8> {
    header_bytes(entries.len()) + entries_bytes(entries)
}

/// Whether the format can hold an entry.
pub open spec fn entry_fits(entry: EntryView) -> bool {
    encode_utf8(entry.name).len() <= u16::MAX && entry.compressed.len() <= u32::MAX
}

fn push_bytes(output: &mut Vec<u8>, bytes: &[u8])
    ensures
        final(output)@ == old(output)@ + bytes@,
{
    let mut i: usize = 0;
    assert(output@ =~= old(output)@ + bytes@.take(0));
    while i < bytes.len()
        invariant
            i <= bytes@.len(),
            output@ == old(output)@ + bytes@.take(i as int),
        decreases bytes@.len() - i,
    {
        output.push(bytes[i]);
        i += 1;
        assert(output@ =~= old(output)@ + bytes@.take(i as int));
    }
    assert(bytes@.take(bytes@.len() as int) =~= bytes@);
}

fn push_le16(output: &mut Vec<u8>, n: u16)
    ensures
        final(output)@ == old(output)@ + le16(n as nat),
{
    output.push((n % 256) as u8);
    output.push(((n / 256) % 256) as u8);
    assert(output@ =~= old(output)@ + le16(n as nat));
}

fn push_le32(output: &mut Vec<u8>, n: u32)
    ensures
        final(output)@ == old(output)@ + le32(n as nat),
{
    output.push((n % 256) as u8);
    output.push(((n / 0x100) % 256) as u8);
    output.push(((n / 0x1_0000) % 256) as u8);
    output.push(((n / 0x100_0000) % 256) as u8);
    assert(output@ =~= old(output)@ + le32(n as nat));
}

fn archive_header(count: u32) -> (r: Vec<u8>)
    ensures
        r@ == header_bytes(count as nat),
{
    let mut bytes: Vec<u8> = Vec::new();
    let start = magic();
    push_bytes(&mut bytes, &start);
    bytes.push(VERSION);
    assert(bytes@ =~= magic_bytes() + seq![VERSION]);
    push_le32(&mut bytes, count);
    bytes
}

/// An archive without modules.
pub fn empty_archive_bytes() -> (r: Vec<u8>)
    ensures
        r@ == archive_bytes(Seq::empty()),
{
    let bytes = archive_header(0);
    assert(bytes@ =~= archive_bytes(Seq::empty()));
    bytes
}

/// What writing an entry answers.
pub open spec fn write_outcome(entry: EntryView) -> Result<(), EmbedFault> {
    let name_len = encode_utf8(entry.name).len();
    if name_len > u16::MAX {
        Err(EmbedFault::ModuleNameTooLong { name: entry.name, len: name_len as usize })
    } else if entry.compressed.len() > u32::MAX {
        Err(
            EmbedFault::BeamDataTooLong {
                module: entry.name,
                len: entry.compressed.len() as usize,
            },
        )
    } else {
        Ok(())
    }
}

/// The outcome of a function that answers nothing or an error.
pub open spec fn embed_outcome(r: Result<(), EmbedError>) -> Result<(), EmbedFault> {
    match r {
        Ok(_) => Ok(()),
        Err(e) => Err(e@),
    }
}

/// Appends an entry, or appends nothing when the format cannot hold it.
pub fn write_entry(output: &mut Vec<u8>, name: &str, compressed: &[u8]) -> (r: Result<
    (),
    EmbedError,
>)
    ensures
        embed_outcome(r) == write_outcome(EntryView { name: name@, compressed: compressed@ }),
        final(output)@ == if r is Ok {
            old(output)@ + entry_bytes(EntryView { name: name@, compressed: compressed@ })
        } else {
            old(output)@
        },
{
    let name_bytes = name.as_bytes();
    let name_len: usize = name_bytes.len();
    let beam_len: usize = compressed.len();
    if name_len > 0xffff {
        return Err(EmbedError::ModuleNameTooLong { name: name.to_owned(), len: name_len });
    }
    if beam_len as u64 > 0xffff_ffff {
        return Err(EmbedError::BeamDataTooLong { module: name.to_owned(), len: beam_len });
    }
    push_le16(output, name_len as u16);
    push_bytes(output, name_bytes);
    push_le32(output, beam_len as u32);
    push_bytes(output, compressed);
    proof {
        let entry = EntryView { name: name@, compressed: compressed@ };
        assert(output@ =~= old(output)@ + entry_bytes(entry));
    }
    Ok(())
}

/// A module to be packed.
#[verifier::ext_equal]
pub struct ModuleView {
    pub name: Seq<char>,
    pub beam: Seq<u8>,
}

/// The name of the module in a file of the given name: what stands before the
/// extension `.beam`. Other files hold no module.
pub open spec fn module_name(file_name: Seq<char>) -> Option<Seq<char>> {
    let stem = file_name.len() - 5;
    if stem > 0 && file_name.skip(stem) == ".beam"@ {
        Some(file_name.take(stem))
    } else {
        None
    }
}

/// The name of the module in a file of the given name, if it holds one.
pub fn module_name_of(file_name: &str) -> (r: Option<String>)
    ensures
        match r {
            Some(name) => module_name(file_name@) == Some(name@),
            None => module_name(file_name@) is None,
        },
{
    let len: usize = file_name.unicode_len();
    if len <= 5 {
        return None;
    }
    let stem: usize = len - 5;
    let extension = file_name.substring_char(stem, len);
    assert(extension@ =~= file_name@.skip(stem as int));
    if same_text(extension, ".beam") {
        let name = file_name.substring_char(0, stem);
        assert(name@ =~= file_name@.take(stem as int));
        Some(name.to_owned())
    } else {
        None
    }
}

/// A module to be packed: its name and the bytes of its file.
#[derive(Debug)]
pub struct ModuleFile {
    pub name: String,
    pub beam: Vec<u8>,
}

impl View for ModuleFile {
    type V = ModuleView;

    open spec fn view(&self) -> ModuleView {
        ModuleView { name: self.name@, beam: self.beam@ }
    }
}

/// The views of modules.
pub open spec fn module_views(modules: Seq<ModuleFile>) -> Seq<ModuleView> {
    Seq::new(modules.len(), |i: int| modules[i]@)
}

/// Whether `a` comes before `b`, or is the same, in the order of their bytes.
pub open spec fn bytes_le(a: Seq<u8>, b: Seq<u8>) -> bool
    decreases a.len(),
{
    if a.len() == 0 {
        true
    } else if b.len() == 0 {
        false
    } else if a[0] != b[0] {
        a[0] < b[0]
    } else {
        bytes_le(a.skip(1), b.skip(1))
    }
}

proof fn lemma_bytes_le_total(a: Seq<u8>, b: Seq<u8>)
    ensures
        bytes_le(a, b) || bytes_le(b, a),
    decreases a.len(),
{
    if a.len() > 0 && b.len() > 0 && a[0] == b[0] {
        lemma_bytes_le_total(a.skip(1), b.skip(1));
    }
}

proof fn lemma_bytes_le_transitive(a: Seq<u8>, b: Seq<u8>, c: Seq<u8>)
    requires
        bytes_le(a, b),
        bytes_le(b, c),
    ensures
        bytes_le(a, c),
    decreases a.len(),
{
    if a.len() > 0 && b.len() > 0 && c.len() > 0 && a[0] == b[0] && b[0] == c[0] {
        lemma_bytes_le_transitive(a.skip(1), b.skip(1), c.skip(1));
    }
}

fn le_bytes_of(a: &[u8], b: &[u8]) -> (r: bool)
    ensures
        r == bytes_le(a@, b@),
{
    let mut i: usize = 0;
    assert(a@.skip(0) =~= a@ && b@.skip(0) =~= b@);
    while i < a.len() && i < b.len()
        invariant
            i <= a@.len(),
            i <= b@.len(),
            bytes_le(a@, b@) == bytes_le(a@.skip(i as int), b@.skip(i as int)),
        decreases a@.len() - i,
    {
        if a[i] != b[i] {
            return a[i] < b[i];
        }
        assert(a@.skip(i as int).skip(1) =~= a@.skip(i + 1));
        assert(b@.skip(i as int).skip(1) =~= b@.skip(i + 1));
        i += 1;
    }
    i == a.len()
}

/// Whether modules are in the order of the bytes of their names.
pub open spec fn sorted_by_name(modules: Seq<ModuleView>) -> bool {
    forall|i: int, j: int|
        0 <= i <= j < modules.len() ==> bytes_le(
            encode_utf8((#[trigger] modules[i]).name),
            encode_utf8((#[trigger] modules[j]).name),
        )
}

/// The modules in the order of their names.
pub fn sort_modules(modules: Vec<ModuleFile>) -> (r: Vec<ModuleFile>)
    ensures
        sorted_by_name(module_views(r@)),
        module_views(r@).to_multiset() == module_views(modules@).to_multiset(),
{
    let mut rest = modules;
    let mut sorted: Vec<ModuleFile> = Vec::new();
    let ghost all = module_views(modules@).to_multiset();
    proof {
        assert(module_views(sorted@) =~= Seq::empty());
        vstd::seq_lib::to_multiset_len(module_views(sorted@));
        assert(module_views(sorted@).to_multiset() =~= vstd::multiset::Multiset::empty());
        assert(all =~= module_views(rest@).to_multiset().add(module_views(sorted@).to_multiset()));
    }
    while rest.len() > 0
        invariant
            sorted_by_name(module_views(sorted@)),
            all == module_views(rest@).to_multiset().add(module_views(sorted@).to_multiset()),
        decreases rest@.len(),
    {
        let ghost rest_before = module_views(rest@);
        let ghost sorted_before = module_views(sorted@);
        let module = rest.pop().unwrap();
        let mut at: usize = 0;
        while at < sorted.len() && !le_bytes_of(
            module.name.as_str().as_bytes(),
            sorted[at].name.as_str().as_bytes(),
        )
            invariant
                at <= sorted@.len(),
                sorted_before == module_views(sorted@),
                forall|i: int|
                    0 <= i < at ==> !bytes_le(
                        encode_utf8(module@.name),
                        encode_utf8((#[trigger] sorted_before[i]).name),
                    ),
            decreases sorted@.len() - at,
        {
            at += 1;
        }
        proof {
            broadcast use vstd::seq_lib::group_to_multiset_ensures;
            let after = sorted_before.insert(at as int, module@);
            assert(rest_before.drop_last() =~= module_views(rest@));
            assert(rest_before =~= module_views(rest@).push(module@));
            assert forall|i: int, j: int| 0 <= i <= j < after.len() implies bytes_le(
                encode_utf8((#[trigger] after[i]).name),
                encode_utf8((#[trigger] after[j]).name),
            ) by {
                let x = encode_utf8(module@.name);
                let a = encode_utf8(after[i].name);
                let b = encode_utf8(after[j].name);
                lemma_bytes_le_total(a, b);
                if i == j {
                } else if j < at {
                    assert(after[i] == sorted_before[i] && after[j] == sorted_before[j]);
                } else if i > at {
                    assert(after[i] == sorted_before[i - 1] && after[j] == sorted_before[j - 1]);
                } else if j == at {
                    assert(after[i] == sorted_before[i]);
                } else if i < at {
                    assert(after[i] == sorted_before[i] && after[j] == sorted_before[j - 1]);
                } else {
                    assert(after[j] == sorted_before[j - 1]);
                    let first = encode_utf8(sorted_before[at as int].name);
                    assert(bytes_le(x, first));
                    assert(sorted_before[at as int] == sorted_before[i]);
                    lemma_bytes_le_transitive(x, first, b);
                }
            }
            assert(all =~= module_views(rest@).to_multiset().add(after.to_multiset()));
        }
        let ghost files_before = sorted@;
        sorted.insert(at, module);
        assert(module_views(sorted@) =~= sorted_before.insert(at as int, module@));
    }
    proof {
        assert(module_views(rest@) =~= Seq::empty());
        vstd::seq_lib::to_multiset_len(module_views(rest@));
        assert(module_views(rest@).to_multiset() =~= vstd::multiset::Multiset::empty());
        assert(all =~= module_views(sorted@).to_multiset());
    }
    sorted
}

/// Writes modules after the `done` bytes: each is compressed and becomes an
/// entry.
pub open spec fn packed(modules: Seq<ModuleView>, done: Seq<u8>) -> Result<Seq<u8>, EmbedFault>
    decreases modules.len(),
{
    if modules.len() == 0 {
        Ok(done)
    } else {
        match zstd_encoded(modules[0].beam, ZSTD_LEVEL) {
            Err((kind, text)) => Err(EmbedFault::Compression(IoFault { kind, text })),
            Ok(compressed) => {
                let entry = EntryView { name: modules[0].name, compressed };
                match write_outcome(entry) {
                    Err(e) => Err(e),
                    Ok(_) => packed(modules.skip(1), done + entry_bytes(entry)),
                }
            },
        }
    }
}

/// The outcome of a function that answers bytes.
pub open spec fn bytes_outcome(r: Result<Vec<u8>, EmbedError>) -> Result<Seq<u8>, EmbedFault> {
    match r {
        Ok(bytes) => Ok(bytes@),
        Err(e) => Err(e@),
    }
}

/// What packing modules in the given order answers.
pub open spec fn pack_outcome(modules: Seq<ModuleView>) -> Result<Seq<u8>, EmbedFault> {
    if modules.len() > u32::MAX {
        Err(EmbedFault::TooManyModules { count: modules.len() as usize })
    } else {
        packed(modules, header_bytes(modules.len()))
    }
}

/// The entries that modules become, when all of them can be compressed.
pub open spec fn module_entries(modules: Seq<ModuleView>) -> Seq<EntryView> {
    Seq::new(
        modules.len(),
        |i: int|
            EntryView {
                name: modules[i].name,
                compressed: zstd_encoded(modules[i].beam, ZSTD_LEVEL)->Ok_0,
            },
    )
}

/// Whether the compressed bytes of each module read back to the module.
pub open spec fn read_back(modules: Seq<ModuleView>) -> bool {
    forall|i: int|
        0 <= i < modules.len() ==> zstd_decoded((#[trigger] module_entries(modules)[i]).compressed)
            == Some(modules[i].beam)
}

/// Packs modules into an archive, in the given order.
pub fn pack_in_order(modules: &Vec<ModuleFile>) -> (r: Result<Vec<u8>, EmbedError>)
    ensures
        bytes_outcome(r) == pack_outcome(module_views(modules@)),
        r is Ok ==> read_back(module_views(modules@)),
{
    let count: usize = modules.len();
    if count as u64 > 0xffff_ffff {
        return Err(EmbedError::TooManyModules { count });
    }
    let mut output = archive_header(count as u32);
    let mut i: usize = 0;
    let ghost views = module_views(modules@);
    assert(views.skip(0) =~= views);
    while i < modules.len()
        invariant
            i <= modules@.len(),
            views == module_views(modules@),
            pack_outcome(views) == packed(views.skip(i as int), output@),
            forall|j: int|
                0 <= j < i ==> zstd_decoded((#[trigger] module_entries(views)[j]).compressed)
                    == Some(views[j].beam),
        decreases modules@.len() - i,
    {
        assert(views.skip(i as int)[0] == modules@[i as int]@);
        assert(views.skip(i as int).skip(1) =~= views.skip(i + 1));
        let compressed = match zstd_encode(modules[i].beam.as_slice(), ZSTD_LEVEL) {
            Ok(compressed) => compressed,
            Err((kind, text)) => {
                return Err(EmbedError::Compression(IoFailure { kind, text }));
            },
        };
        match write_entry(&mut output, modules[i].name.as_str(), compressed.as_slice()) {
            Ok(_) => {},
            Err(e) => {
                return Err(e);
            },
        }
        i += 1;
    }
    Ok(output)
}

/// Packs modules into an archive, in the order of their names.
pub fn archive_pack(modules: Vec<ModuleFile>) -> (r: Result<Vec<u8>, EmbedError>)
    ensures
        exists|order: Seq<ModuleView>|
            #![trigger pack_outcome(order)]
            sorted_by_name(order) && order.to_multiset() == module_views(modules@).to_multiset()
                && bytes_outcome(r) == pack_outcome(order) && (r is Ok ==> read_back(order)),
{
    let sorted = sort_modules(modules);
    pack_in_order(&sorted)
}

// ---------------------------------------------------------------------------
// Reading back what was written
// ---------------------------------------------------------------------------

proof fn lemma_le16(n: nat, rest: Seq<u8>)
    requires
        n <= u16::MAX,
    ensures
        le_u16(le16(n) + rest) == n,
{
}

proof fn lemma_le32(n: nat, rest: Seq<u8>)
    requires
        n <= u32::MAX,
    ensures
        le_u32(le32(n) + rest) == n,
{
}

#[verifier::spinoff_prover]
#[verifier::rlimit(40)]
proof fn lemma_first_entry(entry: EntryView, rest: Seq<u8>)
    requires
        entry_fits(entry),
    ensures
        first_entry(entry_bytes(entry) + rest) == Some((entry, rest)),
{
    reveal(first_entry);
    vstd::utf8::encode_utf8_valid_utf8(entry.name);
    vstd::utf8::encode_utf8_decode_utf8(entry.name);
    let name = encode_utf8(entry.name);
    let data = entry.compressed;
    let s = entry_bytes(entry) + rest;
    let v = data + rest;
    let u = le32(data.len()) + v;
    let t = name + u;
    assert(s =~= le16(name.len()) + t);
    lemma_le16(name.len(), t);
    assert(s.skip(2) =~= t);
    assert(t.take(name.len() as int) =~= name);
    assert(t.skip(name.len() as int) =~= u);
    lemma_le32(data.len(), v);
    assert(u.skip(4) =~= v);
    assert(v.take(data.len() as int) =~= data);
    assert(v.skip(data.len() as int) =~= rest);
}

proof fn lemma_entries_front(entries: Seq<EntryView>)
    requires
        entries.len() > 0,
    ensures
        entries_bytes(entries) == entry_bytes(entries[0]) + entries_bytes(entries.skip(1)),
    decreases entries.len(),
{
    if entries.len() == 1 {
        assert(entries.drop_last() =~= Seq::empty());
        assert(entries.skip(1) =~= Seq::empty());
        assert(entries_bytes(entries.drop_last()) =~= Seq::<u8>::empty());
        assert(entries_bytes(entries.skip(1)) =~= Seq::<u8>::empty());
        assert(entries.last() == entries[0]);
        assert(entries_bytes(entries) =~= entry_bytes(entries[0]) + entries_bytes(
            entries.skip(1),
        ));
    } else {
        lemma_entries_front(entries.drop_last());
        assert(entries.drop_last().skip(1) =~= entries.skip(1).drop_last());
        assert(entries.skip(1).last() == entries.last());
        assert(entries.drop_last()[0] == entries[0]);
        assert(entries_bytes(entries) =~= entry_bytes(entries[0]) + entries_bytes(
            entries.skip(1),
        ));
    }
}

proof fn lemma_entries_of(entries: Seq<EntryView>, found: Seq<EntryView>)
    requires
        forall|i: int| 0 <= i < entries.len() ==> entry_fits(#[trigger] entries[i]),
    ensures
        entries_of(entries_bytes(entries), entries.len(), found) == Some(found + entries),
    decreases entries.len(),
{
    if entries.len() == 0 {
        assert(found + entries =~= found);
    } else {
        lemma_entries_front(entries);
        lemma_first_entry(entries[0], entries_bytes(entries.skip(1)));
        lemma_entries_of(entries.skip(1), found.push(entries[0]));
        assert(found.push(entries[0]) + entries.skip(1) =~= found + entries);
    }
}

/// Reading an archive gives back the entries it was written from.
pub proof fn law_archive_round_trip(entries: Seq<EntryView>)
    requires
        forall|i: int| 0 <= i < entries.len() ==> entry_fits(#[trigger] entries[i]),
        entries.len() <= u32::MAX,
    ensures
        archive(archive_bytes(entries)) == Some(entries),
{
    let body = entries_bytes(entries);
    let b = archive_bytes(entries);
    assert(b == magic_bytes() + seq![VERSION] + le32(entries.len()) + body);
    assert(b.take(12) =~= magic_bytes());
    assert(b[12] == VERSION);
    assert(b.skip(13) =~= le32(entries.len()) + body);
    lemma_le32(entries.len(), body);
    assert(b.skip(17) =~= body);
    lemma_entries_of(entries, Seq::empty());
    assert(Seq::<EntryView>::empty() + entries =~= entries);
}

proof fn lemma_packed(modules: Seq<ModuleView>, done: Seq<u8>)
    ensures
        packed(modules, done) matches Ok(bytes) ==> bytes == done + entries_bytes(
            module_entries(modules),
        ) && forall|i: int|
            0 <= i < modules.len() ==> entry_fits(#[trigger] module_entries(modules)[i]),
    decreases modules.len(),
{
    let entries = module_entries(modules);
    if modules.len() == 0 {
        assert(done + entries_bytes(entries) =~= done);
    } else {
        match zstd_encoded(modules[0].beam, ZSTD_LEVEL) {
            Err(_) => {},
            Ok(compressed) => {
                let entry = EntryView { name: modules[0].name, compressed };
                let more = done + entry_bytes(entry);
                lemma_packed(modules.skip(1), more);
                assert(module_entries(modules.skip(1)) =~= entries.skip(1));
                lemma_entries_front(entries);
                assert(entries[0] == entry);
                assert(more + entries_bytes(entries.skip(1)) =~= done + entries_bytes(entries));
                if packed(modules, done) is Ok {
                    assert forall|i: int| 0 <= i < modules.len() implies entry_fits(
                        #[trigger] entries[i],
                    ) by {
                        if i > 0 {
                            assert(entries.skip(1)[i - 1] == entries[i]);
                        }
                    }
                }
            },
        }
    }
}

/// Packing modules and reading the archive gives an entry for each module, in
/// order, under its name and with its compressed bytes.
pub proof fn law_pack_then_read(modules: Seq<ModuleView>)
    requires
        pack_outcome(modules) is Ok,
    ensures
        archive(pack_outcome(modules)->Ok_0) == Some(module_entries(modules)),
{
    lemma_packed(modules, header_bytes(modules.len()));
    law_archive_round_trip(module_entries(modules));
}

proof fn lemma_entry_named(entries: Seq<EntryView>, i: int)
    requires
        0 <= i < entries.len(),
        forall|j: int| 0 <= j < i ==> (#[trigger] entries[j]).name != entries[i].name,
    ensures
        entry_named(entries, entries[i].name) == Some(entries[i]),
    decreases entries.len(),
{
    if i > 0 {
        assert(entries[0].name != entries[i].name);
        assert forall|j: int| 0 <= j < i - 1 implies (#[trigger] entries.skip(1)[j]).name
            != entries.skip(1)[i - 1].name by {
            assert(entries.skip(1)[j] == entries[j + 1]);
        }
        lemma_entry_named(entries.skip(1), i - 1);
    }
}

/// A module that was packed, and whose name no module before it has, is found
/// in the archive by its name, and its bytes are the ones that were packed.
pub proof fn law_packed_module_reads_back(modules: Seq<ModuleView>, i: int)
    requires
        pack_outcome(modules) is Ok,
        read_back(modules),
        0 <= i < modules.len(),
        forall|j: int| 0 <= j < i ==> (#[trigger] modules[j]).name != modules[i].name,
    ensures
        ({
            let entries = archive(pack_outcome(modules)->Ok_0)->Some_0;
            let found = entry_named(entries, modules[i].name);
            found is Some && zstd_decoded(found->Some_0.compressed) == Some(modules[i].beam)
        }),
{
    law_pack_then_read(modules);
    let entries = module_entries(modules);
    assert forall|j: int| 0 <= j < i implies (#[trigger] entries[j]).name != entries[i].name by {
        assert(modules[j].name != modules[i].name);
    }
    lemma_entry_named(entries, i);
    assert(zstd_decoded(entries[i].compressed) == Some(modules[i].beam));
}

} // verus!

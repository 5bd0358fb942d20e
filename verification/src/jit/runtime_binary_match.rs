//! Matching binaries: what compiled code calls for it.

use vstd::prelude::*;
use crate::term::{small_term, small_term_of, BOXED_TAG};
use super::little_endian::{le_value, lemma_powers, lemma_value_fits, pow256, read_le};

verus! {

/// In which order the bytes of a number are.
#[derive(Debug, Clone, Copy, PartialEq, Eq, Structural)]
pub enum Endian {
    Big,
    Little,
}

/// The order of bytes that flags ask for: the two lowest bits ask for the lowest
/// byte first.
pub open spec fn endian_of(flags: u64) -> Endian {
    if flags % 4 != 0 {
        Endian::Little
    } else {
        Endian::Big
    }
}

impl Endian {
    /// The order of bytes that flags ask for.
    pub fn from_raw(flags: u64) -> (r: Endian)
        ensures
            r == endian_of(flags),
    {
        if flags % 4 != 0 {
            Endian::Little
        } else {
            Endian::Big
        }
    }
}

/// Whether flags ask for a signed number: the third lowest bit does.
pub open spec fn signed_of(flags: u64) -> bool {
    (flags / 4) % 2 == 1
}

/// How the bytes of a segment are read.
#[derive(Debug, Clone, Copy, PartialEq, Eq, Structural)]
pub struct SegmentFlags {
    pub endian: Endian,
    pub signed: bool,
}

impl SegmentFlags {
    /// What flags ask for.
    pub fn from_raw(flags: u64) -> (r: SegmentFlags)
        ensures
            r == (SegmentFlags { endian: endian_of(flags), signed: signed_of(flags) }),
    {
        SegmentFlags { endian: Endian::from_raw(flags), signed: (flags / 4) % 2 == 1 }
    }
}

/// The number that bytes stand for, the highest byte first.
pub open spec fn be_value(bytes: Seq<u8>) -> nat {
    le_value(bytes.reverse())
}

/// The number that bytes stand for.
pub open spec fn unsigned_value(bytes: Seq<u8>, endian: Endian) -> nat {
    match endian {
        Endian::Big => be_value(bytes),
        Endian::Little => le_value(bytes),
    }
}

/// The number that at most eight bytes stand for, as a word. A signed one is
/// negative when its highest bit is set; an unsigned one that is too large for a
/// word is negative, too.
pub open spec fn integer_of(bytes: Seq<u8>, flags: SegmentFlags) -> Option<i64> {
    let value = unsigned_value(bytes, flags.endian);
    if bytes.len() > 8 {
        None
    } else if flags.signed && 2 * value >= pow256(bytes.len()) && bytes.len() > 0 {
        Some((value - pow256(bytes.len())) as i64)
    } else if value > i64::MAX {
        Some((value - pow256(8)) as i64)
    } else {
        Some(value as i64)
    }
}

fn reversed(bytes: &[u8]) -> (r: Vec<u8>)
    ensures
        r@ == bytes@.reverse(),
{
    let mut copy: Vec<u8> = Vec::new();
    let mut i: usize = bytes.len();
    while i > 0
        invariant
            i <= bytes@.len(),
            copy@.len() == bytes@.len() - i,
            forall|j: int| 0 <= j < copy@.len() ==> copy@[j] == bytes@[bytes@.len() - 1 - j],
        decreases i,
    {
        i -= 1;
        copy.push(bytes[i]);
    }
    assert(copy@ =~= bytes@.reverse());
    copy
}

fn read_unsigned(bytes: &[u8], endian: Endian) -> (r: u64)
    requires
        bytes@.len() <= 8,
    ensures
        r == unsigned_value(bytes@, endian),
{
    match endian {
        Endian::Big => {
            let turned = reversed(bytes);
            assert(turned@.subrange(0, turned@.len() as int) =~= turned@);
            read_le(turned.as_slice(), 0, turned.len())
        },
        Endian::Little => {
            assert(bytes@.subrange(0, bytes@.len() as int) =~= bytes@);
            read_le(bytes, 0, bytes.len())
        },
    }
}

/// The number that bytes stand for, as a word, if there are not too many.
pub fn decode_integer(bytes: &[u8], flags: SegmentFlags) -> (r: Option<i64>)
    ensures
        r == integer_of(bytes@, flags),
{
    let n: usize = bytes.len();
    if n > 8 {
        return None;
    }
    let value: u64 = read_unsigned(bytes, flags.endian);
    proof {
        lemma_powers();
        lemma_value_fits(bytes@);
        lemma_value_fits(bytes@.reverse());
    }
    if n == 0 {
        assert(bytes@ =~= Seq::empty());
        assert(bytes@.reverse() =~= Seq::empty());
        return Some(0);
    }
    if n == 8 {
        if value > i64::MAX as u64 {
            let word: i128 = value as i128 - 0x1_0000_0000_0000_0000;
            return Some(word as i64);
        }
        return Some(value as i64);
    }
    let limit: u64 = if n == 1 {
        0x100
    } else if n == 2 {
        0x1_0000
    } else if n == 3 {
        0x100_0000
    } else if n == 4 {
        0x1_0000_0000
    } else if n == 5 {
        0x100_0000_0000
    } else if n == 6 {
        0x1_0000_0000_0000
    } else {
        0x100_0000_0000_0000
    };
    assert(limit == pow256(n as nat));
    if flags.signed && 2 * value >= limit {
        Some(value as i64 - limit as i64)
    } else {
        Some(value as i64)
    }
}

/// Whether there is a character of the number.
pub open spec fn is_codepoint(codepoint: int) -> bool {
    0 <= codepoint <= 0x10ffff && !(0xd800 <= codepoint <= 0xdfff)
}

/// Whether there is a character of the number.
pub fn valid_codepoint(codepoint: u32) -> (r: bool)
    ensures
        r == is_codepoint(codepoint as int),
{
    codepoint <= 0x10ffff && !(0xd800 <= codepoint && codepoint <= 0xdfff)
}

/// Whether a byte continues a character.
pub open spec fn continues(byte: u8) -> bool {
    0x80 <= byte < 0xc0
}

/// A character that is encoded in the first bytes, and how many these are. There
/// is none when fewer bytes would have done.
pub open spec fn utf8_of(b: Seq<u8>) -> Option<(u32, nat)> {
    if b.len() == 0 {
        None
    } else if b[0] <= 0x7f {
        Some((b[0] as u32, 1))
    } else if 0xc2 <= b[0] <= 0xdf {
        if b.len() >= 2 && continues(b[1]) {
            Some((((b[0] - 0xc0) * 64 + (b[1] - 0x80)) as u32, 2))
        } else {
            None
        }
    } else if 0xe0 <= b[0] <= 0xef {
        if b.len() >= 3 && continues(b[1]) && continues(b[2]) {
            let codepoint = (b[0] - 0xe0) * 4096 + (b[1] - 0x80) * 64 + (b[2] - 0x80);
            if codepoint >= 0x800 && is_codepoint(codepoint) {
                Some((codepoint as u32, 3))
            } else {
                None
            }
        } else {
            None
        }
    } else if 0xf0 <= b[0] <= 0xf4 {
        if b.len() >= 4 && continues(b[1]) && continues(b[2]) && continues(b[3]) {
            let codepoint = (b[0] - 0xf0) * 262144 + (b[1] - 0x80) * 4096 + (b[2] - 0x80) * 64 + (
            b[3] - 0x80);
            if codepoint >= 0x10000 && is_codepoint(codepoint) {
                Some((codepoint as u32, 4))
            } else {
                None
            }
        } else {
            None
        }
    } else {
        None
    }
}

/// A character that is encoded in one or two pairs of bytes, and how many bytes
/// these are.
pub open spec fn utf16_of(b: Seq<u8>, endian: Endian) -> Option<(u32, nat)> {
    if b.len() < 2 {
        None
    } else {
        let first = unsigned_value(b.take(2), endian);
        if 0xd800 <= first <= 0xdbff {
            if b.len() < 4 {
                None
            } else {
                let second = unsigned_value(b.subrange(2, 4), endian);
                if 0xdc00 <= second <= 0xdfff {
                    Some(((0x10000 + (first - 0xd800) * 1024 + (second - 0xdc00)) as u32, 4))
                } else {
                    None
                }
            }
        } else if 0xdc00 <= first <= 0xdfff {
            None
        } else {
            Some((first as u32, 2))
        }
    }
}

/// A character that is encoded in four bytes.
pub open spec fn utf32_of(b: Seq<u8>, endian: Endian) -> Option<(u32, nat)> {
    if b.len() < 4 {
        None
    } else {
        let codepoint = unsigned_value(b.take(4), endian);
        if is_codepoint(codepoint as int) {
            Some((codepoint as u32, 4))
        } else {
            None
        }
    }
}

/// How a character is encoded.
#[derive(Debug, Clone, Copy, PartialEq, Eq, Structural)]
pub enum Encoding {
    Utf8,
    Utf16,
    Utf32,
}

/// A character that is encoded in the first bytes, and how many these are.
pub open spec fn character_of(b: Seq<u8>, encoding: Encoding, endian: Endian) -> Option<(u32, nat)> {
    match encoding {
        Encoding::Utf8 => utf8_of(b),
        Encoding::Utf16 => utf16_of(b, endian),
        Encoding::Utf32 => utf32_of(b, endian),
    }
}

fn decode_utf8(b: &[u8]) -> (r: Option<(u32, usize)>)
    ensures
        match utf8_of(b@) {
            Some(found) => r matches Some(given) && given.0 == found.0 && given.1 == found.1,
            None => r is None,
        },
{
    let n: usize = b.len();
    if n == 0 {
        return None;
    }
    let first: u32 = b[0] as u32;
    if first <= 0x7f {
        return Some((first, 1));
    }
    if 0xc2 <= first && first <= 0xdf {
        if n < 2 || !is_continuation(b[1]) {
            return None;
        }
        return Some(((first - 0xc0) * 64 + (b[1] as u32 - 0x80), 2));
    }
    if 0xe0 <= first && first <= 0xef {
        if n < 3 || !is_continuation(b[1]) || !is_continuation(b[2]) {
            return None;
        }
        let codepoint: u32 = (first - 0xe0) * 4096 + (b[1] as u32 - 0x80) * 64 + (b[2] as u32
            - 0x80);
        if codepoint >= 0x800 && valid_codepoint(codepoint) {
            return Some((codepoint, 3));
        }
        return None;
    }
    if 0xf0 <= first && first <= 0xf4 {
        if n < 4 || !is_continuation(b[1]) || !is_continuation(b[2]) || !is_continuation(b[3]) {
            return None;
        }
        let codepoint: u32 = (first - 0xf0) * 262144 + (b[1] as u32 - 0x80) * 4096 + (b[2] as u32
            - 0x80) * 64 + (b[3] as u32 - 0x80);
        if codepoint >= 0x10000 && valid_codepoint(codepoint) {
            return Some((codepoint, 4));
        }
        return None;
    }
    None
}

fn is_continuation(byte: u8) -> (r: bool)
    ensures
        r == continues(byte),
{
    0x80 <= byte && byte < 0xc0
}

fn read_part(b: &[u8], from: usize, to: usize, endian: Endian) -> (r: u64)
    requires
        from <= to <= b@.len(),
        to - from <= 4,
    ensures
        r == unsigned_value(b@.subrange(from as int, to as int), endian),
        to - from == 2 ==> r < 0x1_0000,
        to - from == 4 ==> r < 0x1_0000_0000,
{
    let part = vstd::slice::slice_subrange(b, from, to);
    proof {
        lemma_powers();
        lemma_value_fits(part@);
        lemma_value_fits(part@.reverse());
    }
    read_unsigned(part, endian)
}

fn decode_utf16(b: &[u8], endian: Endian) -> (r: Option<(u32, usize)>)
    ensures
        match utf16_of(b@, endian) {
            Some(found) => r matches Some(given) && given.0 == found.0 && given.1 == found.1,
            None => r is None,
        },
{
    if b.len() < 2 {
        return None;
    }
    assert(b@.subrange(0, 2) =~= b@.take(2));
    let first: u64 = read_part(b, 0, 2, endian);
    if 0xd800 <= first && first <= 0xdbff {
        if b.len() < 4 {
            return None;
        }
        let second: u64 = read_part(b, 2, 4, endian);
        if 0xdc00 <= second && second <= 0xdfff {
            return Some(((0x10000 + (first - 0xd800) * 1024 + (second - 0xdc00)) as u32, 4));
        }
        return None;
    }
    if 0xdc00 <= first && first <= 0xdfff {
        None
    } else {
        Some((first as u32, 2))
    }
}

fn decode_utf32(b: &[u8], endian: Endian) -> (r: Option<(u32, usize)>)
    ensures
        match utf32_of(b@, endian) {
            Some(found) => r matches Some(given) && given.0 == found.0 && given.1 == found.1,
            None => r is None,
        },
{
    if b.len() < 4 {
        return None;
    }
    assert(b@.subrange(0, 4) =~= b@.take(4));
    let codepoint: u64 = read_part(b, 0, 4, endian);
    if valid_codepoint(codepoint as u32) {
        Some((codepoint as u32, 4))
    } else {
        None
    }
}

/// How many words a binary that is matched takes: a header, the bits that were
/// matched, the bits that there are, and the binary.
pub const MATCH_CONTEXT_WORDS: usize = 4;

/// How the start of a match goes on.
#[derive(Debug, Clone, Copy, PartialEq, Eq, Structural)]
pub enum MatchStart {
    /// It is over, with an answer.
    Answer(u64),
    /// Words are asked for; as many bits are to be matched.
    Allocate { words: usize, total_bits: usize },
}

/// What stands behind the header of a binary that is matched, and the term for it.
#[derive(Debug, Clone, Copy, PartialEq, Eq, Structural)]
pub struct MatchWords {
    pub position_bits: u64,
    pub total_bits: u64,
    pub source: u64,
    pub term: u64,
}

/// How a match starts. It answers zero without a process, for what is no binary, and
/// for a binary whose bits cannot be counted.
pub open spec fn match_start(has_process: bool, length: Option<usize>) -> MatchStart {
    match length {
        _ if !has_process => MatchStart::Answer(0),
        Some(length) if 8 * length <= usize::MAX => MatchStart::Allocate {
            words: MATCH_CONTEXT_WORDS,
            total_bits: (8 * length) as usize,
        },
        _ => MatchStart::Answer(0),
    }
}

/// Starts a match of a term: `length` is how many bytes it has, if it is a binary.
pub fn start_match(has_process: bool, length: Option<usize>) -> (r: MatchStart)
    ensures
        r == match_start(has_process, length),
{
    if !has_process {
        return MatchStart::Answer(0);
    }
    match length {
        Some(length) => match length.checked_mul(8) {
            Some(total_bits) => MatchStart::Allocate { words: MATCH_CONTEXT_WORDS, total_bits },
            None => MatchStart::Answer(0),
        },
        None => MatchStart::Answer(0),
    }
}

/// What is written to the words that were asked for, if there are any: nothing was
/// matched yet. The term points at the words. Without words, nothing is written and
/// the match answers zero.
pub fn started_match(address: u64, total_bits: usize, source: u64) -> (r: Option<MatchWords>)
    requires
        address % 8 == 0,
    ensures
        r == if address == 0 {
            None::<MatchWords>
        } else {
            Some(
                MatchWords {
                    position_bits: 0,
                    total_bits: total_bits as u64,
                    source,
                    term: (address + BOXED_TAG) as u64,
                },
            )
        },
{
    if address == 0 {
        None
    } else {
        Some(
            MatchWords {
                position_bits: 0,
                total_bits: total_bits as u64,
                source,
                term: address + BOXED_TAG as u64,
            },
        )
    }
}

/// A binary that is matched from its start on.
#[derive(Debug)]
pub struct MatchContext {
    position_bits: usize,
    total_bits: usize,
    source: Vec<u8>,
}

/// A [`MatchContext`] with a sequence in place of its bytes.
#[verifier::ext_equal]
pub struct MatchView {
    /// How many bits were matched.
    pub position: nat,
    pub source: Seq<u8>,
}

impl MatchView {
    /// How many bits are left.
    pub open spec fn remaining(self) -> nat {
        (8 * self.source.len() - self.position) as nat
    }

    /// Whether as many bits are left, and what is matched and what is to be
    /// matched are whole bytes.
    pub open spec fn has_bytes(self, bits: int) -> bool {
        bits % 8 == 0 && self.position % 8 == 0 && self.position + bits <= 8 * self.source.len()
    }

    /// The next bytes.
    pub open spec fn bytes(self, bits: int) -> Seq<u8> {
        self.source.subrange(self.position as int / 8, (self.position + bits) / 8)
    }

    /// After more bits were matched.
    pub open spec fn advanced(self, bits: int) -> MatchView {
        MatchView { position: (self.position + bits) as nat, ..self }
    }

    /// The integer in the next bits, as a term, if it fits.
    pub open spec fn integer(self, bits: int, flags: u64) -> Option<i64> {
        if !self.has_bytes(bits) {
            None
        } else {
            match integer_of(
                self.bytes(bits),
                SegmentFlags { endian: endian_of(flags), signed: signed_of(flags) },
            ) {
                None => None,
                Some(value) => small_term_of(value),
            }
        }
    }

    /// The next character, and how many bytes it takes.
    pub open spec fn character(self, encoding: Encoding, flags: u64) -> Option<(u32, nat)> {
        if self.position % 8 != 0 {
            None
        } else {
            character_of(
                self.source.skip(self.position as int / 8),
                encoding,
                endian_of(flags),
            )
        }
    }
}

impl View for MatchContext {
    type V = MatchView;

    closed spec fn view(&self) -> MatchView {
        MatchView { position: self.position_bits as nat, source: self.source@ }
    }
}

/// Where a binary that was matched is in the one that it was matched of, in
/// bytes.
#[derive(Debug, Clone, Copy, PartialEq, Eq, Structural)]
pub struct Extracted {
    pub start: usize,
    pub length: usize,
}

impl MatchContext {
    /// No more bits were matched than there are.
    pub closed spec fn wf(&self) -> bool {
        &&& self.total_bits == 8 * self.source@.len()
        &&& self.position_bits <= self.total_bits
    }

    /// Starts to match a binary, if its bits can be counted.
    pub fn start(source: Vec<u8>) -> (r: Option<MatchContext>)
        ensures
            match r {
                Some(context) => context.wf() && context@ == (MatchView {
                    position: 0,
                    source: source@,
                }),
                None => 8 * source@.len() > usize::MAX,
            },
    {
        if source.len() > usize::MAX / 8 {
            return None;
        }
        let total_bits: usize = source.len() * 8;
        Some(MatchContext { position_bits: 0, total_bits, source })
    }

    /// How many bits are left.
    pub fn remaining_bits(&self) -> (r: usize)
        requires
            self.wf(),
        ensures
            r == self@.remaining(),
    {
        self.total_bits - self.position_bits
    }

    fn has_bytes(&self, bits: u64) -> (r: bool)
        requires
            self.wf(),
        ensures
            r == self@.has_bytes(bits as int),
    {
        bits % 8 == 0 && self.position_bits % 8 == 0 && bits <= self.remaining_bits() as u64
    }

    /// Matches an integer of as many bits; answers its term. Nothing is matched
    /// when there is none.
    pub fn get_integer(&mut self, size_bits: u64, flags: u64) -> (r: Option<i64>)
        requires
            old(self).wf(),
        ensures
            final(self).wf(),
            r == old(self)@.integer(size_bits as int, flags),
            final(self)@ == if r is Some {
                old(self)@.advanced(size_bits as int)
            } else {
                old(self)@
            },
    {
        if !self.has_bytes(size_bits) {
            return None;
        }
        let start: usize = self.position_bits / 8;
        let end: usize = (self.position_bits + size_bits as usize) / 8;
        let part = vstd::slice::slice_subrange(self.source.as_slice(), start, end);
        assert(part@ == self@.bytes(size_bits as int));
        let value: i64 = match decode_integer(part, SegmentFlags::from_raw(flags)) {
            Some(value) => value,
            None => {
                return None;
            },
        };
        match small_term(value) {
            Some(term) => {
                self.position_bits = self.position_bits + size_bits as usize;
                Some(term)
            },
            None => None,
        }
    }

    /// Where the binary of as many bits is, or of all that are left when `size_bits`
    /// is the largest number. Nothing is matched yet.
    pub fn find_binary(&self, size_bits: u64) -> (r: Option<Extracted>)
        requires
            self.wf(),
        ensures
            ({
                let bits = if size_bits == u64::MAX {
                    self@.remaining() as int
                } else {
                    size_bits as int
                };
                match r {
                    Some(found) => {
                        &&& self@.has_bytes(bits)
                        &&& found.start == self@.position / 8
                        &&& 8 * found.length == bits
                    },
                    None => !self@.has_bytes(bits),
                }
            }),
    {
        let bits: u64 = if size_bits == u64::MAX {
            self.remaining_bits() as u64
        } else {
            size_bits
        };
        if !self.has_bytes(bits) {
            return None;
        }
        Some(Extracted { start: self.position_bits / 8, length: bits as usize / 8 })
    }

    /// The bytes of a binary that was found.
    pub fn extracted(&self, found: Extracted) -> (r: Vec<u8>)
        requires
            found.start + found.length <= self@.source.len(),
        ensures
            r@ == self@.source.subrange(found.start as int, found.start + found.length),
    {
        let count: usize = self.source.len();
        let mut bytes: Vec<u8> = Vec::new();
        let mut i: usize = 0;
        assert(bytes@ =~= self@.source.subrange(found.start as int, found.start as int));
        while i < found.length
            invariant
                i <= found.length,
                found.start + found.length <= self.source@.len() == count,
                bytes@ == self.source@.subrange(found.start as int, found.start + i),
            decreases found.length - i,
        {
            bytes.push(self.source[found.start + i]);
            i += 1;
            assert(bytes@ =~= self.source@.subrange(found.start as int, found.start + i));
        }
        bytes
    }

    /// Matches a binary that was found and copied.
    pub fn accept_binary(&mut self, found: Extracted)
        requires
            old(self).wf(),
            old(self)@.has_bytes(8 * found.length),
        ensures
            final(self).wf(),
            final(self)@ == old(self)@.advanced(8 * found.length),
    {
        self.position_bits = self.position_bits + 8 * found.length;
    }

    /// Whether as many bits are left.
    pub fn test_tail(&self, expected_bits: u64) -> (r: bool)
        requires
            self.wf(),
        ensures
            r == (self@.remaining() == expected_bits),
    {
        self.remaining_bits() as u64 == expected_bits
    }

    /// Whether a multiple of as many bits is left.
    pub fn test_unit(&self, unit: u64) -> (r: bool)
        requires
            self.wf(),
        ensures
            r == (unit != 0 && self@.remaining() as int % unit as int == 0),
    {
        unit != 0 && self.remaining_bits() as u64 % unit == 0
    }

    /// Matches a character; answers its term. Nothing is matched when there is
    /// none.
    pub fn get_character(&mut self, encoding: Encoding, flags: u64) -> (r: Option<i64>)
        requires
            old(self).wf(),
        ensures
            final(self).wf(),
            match old(self)@.character(encoding, flags) {
                Some((codepoint, length)) => {
                    &&& r == small_term_of(codepoint as i64)
                    &&& r is Some
                    &&& final(self)@ == old(self)@.advanced(8 * length as int)
                },
                None => r is None && final(self)@ == old(self)@,
            },
    {
        if self.position_bits % 8 != 0 {
            return None;
        }
        let start: usize = self.position_bits / 8;
        let end: usize = self.source.len();
        let rest = vstd::slice::slice_subrange(self.source.as_slice(), start, end);
        assert(rest@ =~= self@.source.skip(self@.position as int / 8));
        let endian = Endian::from_raw(flags);
        let found = match encoding {
            Encoding::Utf8 => decode_utf8(rest),
            Encoding::Utf16 => decode_utf16(rest, endian),
            Encoding::Utf32 => decode_utf32(rest, endian),
        };
        match found {
            None => None,
            Some((codepoint, length)) => {
                self.position_bits = self.position_bits + 8 * length;
                small_term(codepoint as i64)
            },
        }
    }
}

/// The lowest two bits of flags ask for the lowest byte first, and the third lowest for a
/// signed number.
pub proof fn law_flags_are_bits(flags: u64)
    ensures
        endian_of(flags) is Little <==> flags & 3 != 0,
        signed_of(flags) <==> flags & 4 != 0,
{
    assert(flags % 4 == flags & 3) by (bit_vector);
    assert((flags / 4) % 2 == 1 <==> flags & 4 != 0) by (bit_vector);
}

proof fn lemma_last_byte(bytes: Seq<u8>, byte: u8)
    ensures
        bytes.push(byte).reverse().skip(1) == bytes.reverse(),
        bytes.push(byte).reverse()[0] == byte,
{
    assert(bytes.push(byte).reverse().skip(1) =~= bytes.reverse());
}

/// A byte behind a number whose highest byte is first is worth one, and what stands
/// before it 256 times as much as it was; a byte before a number whose lowest byte is
/// first is worth one, and what stands behind it 256 times as much. No bytes are zero.
pub proof fn law_bytes_are_digits(bytes: Seq<u8>, byte: u8)
    ensures
        unsigned_value(bytes.push(byte), Endian::Big) == 256 * unsigned_value(bytes, Endian::Big)
            + byte,
        unsigned_value(seq![byte] + bytes, Endian::Little) == byte + 256 * unsigned_value(
            bytes,
            Endian::Little,
        ),
        unsigned_value(Seq::empty(), Endian::Big) == 0,
        unsigned_value(Seq::empty(), Endian::Little) == 0,
{
    lemma_last_byte(bytes, byte);
    assert((seq![byte] + bytes).skip(1) =~= bytes);
    assert(Seq::<u8>::empty().reverse() =~= Seq::empty());
}

/// A signed number of one to eight bytes is the one in the middle range that differs from
/// the unsigned one by a multiple of the range. An unsigned one of less than eight bytes is
/// what its bytes say. More than eight bytes are no number.
pub proof fn law_signed_numbers_are_in_the_middle(bytes: Seq<u8>, endian: Endian, signed: bool)
    ensures
        bytes.len() > 8 <==> integer_of(bytes, SegmentFlags { endian, signed }) is None,
        1 <= bytes.len() <= 8 ==> (integer_of(bytes, SegmentFlags { endian, signed: true })
            matches Some(number) && -pow256(bytes.len()) <= 2 * number < pow256(bytes.len()) && (
        number == unsigned_value(bytes, endian) || number == unsigned_value(bytes, endian)
            - pow256(bytes.len()))),
        bytes.len() < 8 ==> (integer_of(bytes, SegmentFlags { endian, signed: false }) matches Some(
            number,
        ) && number == unsigned_value(bytes, endian)),
{
    lemma_powers();
    lemma_value_fits(bytes);
    lemma_value_fits(bytes.reverse());
    assert(pow256(0) == 1);
}

/// A character in UTF-8 is read by its bits: seven of one byte, five and six of two, four and
/// six and six of three, and three and six and six and six of four. Each byte behind the
/// first has the highest bit set and the next one clear.
pub proof fn law_utf8_is_read_by_its_bits(b: Seq<u8>)
    ensures
        utf8_of(b) matches Some((codepoint, length)) ==> {
            &&& 1 <= length <= 4
            &&& length <= b.len()
            &&& forall|i: int| 1 <= i < length ==> 0x80 <= #[trigger] b[i] < 0xc0
            &&& length == 1 ==> b[0] < 0x80 && codepoint == b[0]
            &&& length == 2 ==> 0xc0 <= b[0] < 0xe0 && codepoint == (b[0] % 32) * 64 + b[1] % 64
                && codepoint >= 0x80
            &&& length == 3 ==> 0xe0 <= b[0] < 0xf0 && codepoint == ((b[0] % 16) * 64 + b[1] % 64)
                * 64 + b[2] % 64 && codepoint >= 0x800
            &&& length == 4 ==> 0xf0 <= b[0] < 0xf8 && codepoint == (((b[0] % 8) * 64 + b[1] % 64)
                * 64 + b[2] % 64) * 64 + b[3] % 64 && codepoint >= 0x10000
            &&& codepoint <= 0x10ffff
            &&& !(0xd800 <= codepoint <= 0xdfff)
        },
        b.len() > 0 && b[0] < 0x80 ==> utf8_of(b) is Some,
{
}

/// A character in UTF-16 is two bytes outside the range of surrogates, or a high and a low
/// surrogate with ten bits each; in UTF-32 it is the number of its four bytes.
pub proof fn law_utf16_and_utf32_are_read_as_numbers(b: Seq<u8>, endian: Endian)
    requires
        b.len() >= 4,
    ensures
        ({
            let first = unsigned_value(b.take(2), endian);
            let second = unsigned_value(b.subrange(2, 4), endian);
            let whole = unsigned_value(b.take(4), endian);
            &&& first < 0xd800 || 0xe000 <= first ==> (utf16_of(b, endian) matches Some((c, n)) && n
                == 2 && c == first)
            &&& 0xd800 <= first < 0xdc00 && 0xdc00 <= second < 0xe000 ==> (utf16_of(b, endian)
                matches Some((c, n)) && n == 4 && c == 0x10000 + (first - 0xd800) * 0x400 + (second
                - 0xdc00))
            &&& 0xd800 <= first < 0xdc00 && !(0xdc00 <= second < 0xe000) ==> utf16_of(b, endian)
                is None
            &&& 0xdc00 <= first < 0xe000 ==> utf16_of(b, endian) is None
            &&& utf32_of(b, endian) is Some <==> (whole < 0xd800 || 0xe000 <= whole <= 0x10ffff)
            &&& utf32_of(b, endian) matches Some((c, n)) ==> n == 4 && c == whole
        }),
{
    lemma_powers();
    lemma_value_fits(b.take(2));
    lemma_value_fits(b.take(2).reverse());
}

/// What is matched comes out in the order of the bytes: two parts matched one after the
/// other are what one part of both lengths is, and what is left shrinks by what was
/// matched.
pub proof fn law_matches_go_on_where_the_last_ended(held: MatchView, first: int, second: int)
    requires
        0 <= first,
        0 <= second,
        held.has_bytes(first),
        held.advanced(first).has_bytes(second),
    ensures
        held.bytes(first) + held.advanced(first).bytes(second) == held.bytes(first + second),
        held.bytes(first).len() * 8 == first,
        held.advanced(first).remaining() == held.remaining() - first,
        held.advanced(first).advanced(second) == held.advanced(first + second),
        held.position == 0 && first == 8 * held.source.len() ==> held.bytes(first) == held.source,
{
    assert(held.bytes(first) + held.advanced(first).bytes(second) =~= held.bytes(first + second));
    if held.position == 0 && first == 8 * held.source.len() {
        assert(held.bytes(first) =~= held.source);
    }
}

} // verus!

//! Building binaries: what compiled code calls for it.

use vstd::prelude::*;
use crate::term::{small_value, small_value_of};
use super::little_endian::{
    law_bytes_hold_their_number, le_bytes, lemma_bytes_len, lemma_powers, pow256, push_le,
};
use super::runtime_binary_match::{
    character_of, endian_of, integer_of, is_codepoint, unsigned_value, utf8_of, valid_codepoint,
    Encoding, Endian, SegmentFlags,
};

verus! {

/// The lowest `n` bytes of a number.
pub open spec fn number_bytes(value: nat, n: nat, endian: Endian) -> Seq<u8> {
    match endian {
        Endian::Big => le_bytes(value, n).reverse(),
        Endian::Little => le_bytes(value, n),
    }
}

/// The word of a signed number.
pub open spec fn word_of(value: i64) -> nat {
    if value < 0 {
        (value + 0x1_0000_0000_0000_0000) as nat
    } else {
        value as nat
    }
}

/// The bytes of an integer. It has to fit: only in eight bytes can it be
/// negative.
pub open spec fn integer_bytes(value: i64, n: nat, endian: Endian) -> Option<Seq<u8>> {
    if n > 8 || (n < 8 && (value < 0 || value >= pow256(n))) {
        None
    } else {
        Some(number_bytes(word_of(value), n, endian))
    }
}

fn push_number(output: &mut Vec<u8>, value: u64, n: usize, endian: Endian)
    ensures
        final(output)@ == old(output)@ + number_bytes(value as nat, n as nat, endian),
{
    match endian {
        Endian::Little => {
            push_le(output, value, n);
        },
        Endian::Big => {
            let ghost start = output@;
            let mut bytes: Vec<u8> = Vec::new();
            push_le(&mut bytes, value, n);
            proof {
                lemma_bytes_len(value as nat, n as nat);
            }
            assert(bytes@ =~= le_bytes(value as nat, n as nat));
            let ghost turned = bytes@.reverse();
            let mut i: usize = bytes.len();
            assert(output@ =~= start + turned.take(0));
            while i > 0
                invariant
                    i <= bytes@.len(),
                    turned == bytes@.reverse(),
                    output@ == start + turned.take(bytes@.len() - i),
                decreases i,
            {
                i -= 1;
                output.push(bytes[i]);
                assert(output@ =~= start + turned.take(bytes@.len() - i));
            }
            assert(turned.take(bytes@.len() as int) =~= turned);
            assert(output@ =~= start + bytes@.reverse());
        },
    }
}

/// The bytes of an integer, if it fits.
pub fn encode_integer(value: i64, byte_count: usize, endian: Endian) -> (r: Option<Vec<u8>>)
    ensures
        match integer_bytes(value, byte_count as nat, endian) {
            Some(bytes) => r matches Some(given) && given@ == bytes,
            None => r is None,
        },
{
    proof {
        lemma_powers();
    }
    if byte_count > 8 {
        return None;
    }
    let word: u64 = if value < 0 {
        (value as i128 + 0x1_0000_0000_0000_0000) as u64
    } else {
        value as u64
    };
    if byte_count < 8 {
        let limit: i64 = if byte_count == 0 {
            1
        } else if byte_count == 1 {
            0x100
        } else if byte_count == 2 {
            0x1_0000
        } else if byte_count == 3 {
            0x100_0000
        } else if byte_count == 4 {
            0x1_0000_0000
        } else if byte_count == 5 {
            0x100_0000_0000
        } else if byte_count == 6 {
            0x1_0000_0000_0000
        } else {
            0x100_0000_0000_0000
        };
        assert(limit == pow256(byte_count as nat));
        if value < 0 || value >= limit {
            return None;
        }
    }
    let mut bytes: Vec<u8> = Vec::new();
    push_number(&mut bytes, word, byte_count, endian);
    assert(bytes@ =~= number_bytes(word_of(value), byte_count as nat, endian));
    Some(bytes)
}

/// The bytes of a character in UTF-8.
pub open spec fn utf8_bytes(codepoint: int) -> Seq<u8> {
    if codepoint < 0x80 {
        seq![codepoint as u8]
    } else if codepoint < 0x800 {
        seq![(0xc0 + codepoint / 64) as u8, (0x80 + codepoint % 64) as u8]
    } else if codepoint < 0x10000 {
        seq![
            (0xe0 + codepoint / 4096) as u8,
            (0x80 + (codepoint / 64) % 64) as u8,
            (0x80 + codepoint % 64) as u8,
        ]
    } else {
        seq![
            (0xf0 + codepoint / 262144) as u8,
            (0x80 + (codepoint / 4096) % 64) as u8,
            (0x80 + (codepoint / 64) % 64) as u8,
            (0x80 + codepoint % 64) as u8,
        ]
    }
}

/// The bytes of a character in UTF-16.
pub open spec fn utf16_bytes(codepoint: int, endian: Endian) -> Seq<u8> {
    if codepoint < 0x10000 {
        number_bytes(codepoint as nat, 2, endian)
    } else {
        number_bytes((0xd800 + (codepoint - 0x10000) / 1024) as nat, 2, endian) + number_bytes(
            (0xdc00 + (codepoint - 0x10000) % 1024) as nat,
            2,
            endian,
        )
    }
}

/// The bytes of a character.
pub open spec fn character_bytes(codepoint: int, encoding: Encoding, endian: Endian) -> Seq<u8> {
    match encoding {
        Encoding::Utf8 => utf8_bytes(codepoint),
        Encoding::Utf16 => utf16_bytes(codepoint, endian),
        Encoding::Utf32 => number_bytes(codepoint as nat, 4, endian),
    }
}

fn encode_character(codepoint: u32, encoding: Encoding, endian: Endian) -> (r: Vec<u8>)
    requires
        is_codepoint(codepoint as int),
    ensures
        r@ == character_bytes(codepoint as int, encoding, endian),
        r@.len() <= 4,
{
    let mut bytes: Vec<u8> = Vec::new();
    match encoding {
        Encoding::Utf8 => {
            if codepoint < 0x80 {
                bytes.push(codepoint as u8);
            } else if codepoint < 0x800 {
                bytes.push((0xc0 + codepoint / 64) as u8);
                bytes.push((0x80 + codepoint % 64) as u8);
            } else if codepoint < 0x10000 {
                bytes.push((0xe0 + codepoint / 4096) as u8);
                bytes.push((0x80 + (codepoint / 64) % 64) as u8);
                bytes.push((0x80 + codepoint % 64) as u8);
            } else {
                bytes.push((0xf0 + codepoint / 262144) as u8);
                bytes.push((0x80 + (codepoint / 4096) % 64) as u8);
                bytes.push((0x80 + (codepoint / 64) % 64) as u8);
                bytes.push((0x80 + codepoint % 64) as u8);
            }
            assert(bytes@ =~= utf8_bytes(codepoint as int));
        },
        Encoding::Utf16 => {
            proof {
                lemma_number_len(codepoint as nat, 2, endian);
                lemma_number_len((0xd800 + (codepoint - 0x10000) / 1024) as nat, 2, endian);
                lemma_number_len((0xdc00 + (codepoint - 0x10000) % 1024) as nat, 2, endian);
            }
            if codepoint < 0x10000 {
                push_number(&mut bytes, codepoint as u64, 2, endian);
            } else {
                let rest: u32 = codepoint - 0x10000;
                push_number(&mut bytes, (0xd800 + rest / 1024) as u64, 2, endian);
                push_number(&mut bytes, (0xdc00 + rest % 1024) as u64, 2, endian);
            }
            assert(bytes@ =~= utf16_bytes(codepoint as int, endian));
        },
        Encoding::Utf32 => {
            proof {
                lemma_number_len(codepoint as nat, 4, endian);
            }
            push_number(&mut bytes, codepoint as u64, 4, endian);
            assert(bytes@ =~= number_bytes(codepoint as nat, 4, endian));
        },
    }
    bytes
}

proof fn lemma_number_len(value: nat, n: nat, endian: Endian)
    ensures
        number_bytes(value, n, endian).len() == n,
{
    lemma_bytes_len(value, n);
}

/// A binary that is built from its start on.
#[derive(Debug)]
pub struct BinaryBuilder {
    position_bits: usize,
    payload: Vec<u8>,
}

/// A [`BinaryBuilder`] with a sequence in place of its bytes.
#[verifier::ext_equal]
pub struct BuilderView {
    /// How many bits were written.
    pub position: nat,
    /// As many bytes as can be written.
    pub payload: Seq<u8>,
}

impl BuilderView {
    /// Whether as many bytes can be written.
    pub open spec fn has_room(self, bytes: nat) -> bool {
        self.position % 8 == 0 && self.position + 8 * bytes <= 8 * self.payload.len()
    }

    /// After bytes were written.
    pub open spec fn written(self, bytes: Seq<u8>) -> BuilderView {
        let start = self.position as int / 8;
        BuilderView {
            position: self.position + 8 * bytes.len(),
            payload: self.payload.take(start) + bytes + self.payload.skip(start + bytes.len()),
        }
    }

    /// The binary that was written.
    pub open spec fn binary(self) -> Seq<u8> {
        self.payload.take(self.position as int / 8)
    }
}

impl View for BinaryBuilder {
    type V = BuilderView;

    closed spec fn view(&self) -> BuilderView {
        BuilderView { position: self.position_bits as nat, payload: self.payload@ }
    }
}

/// How many words a builder of as many bytes takes: three, and one for each
/// eight bytes.
pub open spec fn builder_words_of(capacity: usize) -> Option<usize> {
    let words = 3 + (capacity + 7) / 8;
    if words > usize::MAX {
        None
    } else {
        Some(words as usize)
    }
}

/// How many words a builder of as many bytes takes.
pub fn builder_words(capacity: usize) -> (r: Option<usize>)
    ensures
        r == builder_words_of(capacity),
{
    let packed: usize = if capacity % 8 == 0 {
        capacity / 8
    } else {
        capacity / 8 + 1
    };
    packed.checked_add(3)
}

impl BinaryBuilder {
    /// No more bits were written than can be, and these can be counted.
    pub closed spec fn wf(&self) -> bool {
        &&& 8 * self.payload@.len() <= usize::MAX
        &&& self.position_bits <= 8 * self.payload@.len()
    }

    /// A builder of a binary of at most as many bytes.
    pub fn new(capacity: usize) -> (r: BinaryBuilder)
        requires
            8 * capacity <= usize::MAX,
        ensures
            r.wf(),
            r@.position == 0,
            r@.payload.len() == capacity,
    {
        let mut payload: Vec<u8> = Vec::new();
        let mut i: usize = 0;
        while i < capacity
            invariant
                i <= capacity,
                payload@.len() == i,
            decreases capacity - i,
        {
            payload.push(0);
            i += 1;
        }
        BinaryBuilder { position_bits: 0, payload }
    }

    fn has_room(&self, bytes: usize) -> (r: bool)
        requires
            self.wf(),
        ensures
            r == self@.has_room(bytes as nat),
    {
        if self.position_bits % 8 != 0 {
            return false;
        }
        bytes <= self.payload.len() - self.position_bits / 8
    }

    fn write_bytes(&mut self, bytes: &Vec<u8>)
        requires
            old(self).wf(),
            old(self)@.has_room(bytes@.len()),
        ensures
            final(self).wf(),
            final(self)@ == old(self)@.written(bytes@),
    {
        let start: usize = self.position_bits / 8;
        let ghost before = self.payload@;
        let count: usize = self.payload.len();
        let mut i: usize = 0;
        while i < bytes.len()
            invariant
                i <= bytes@.len(),
                start + bytes@.len() <= before.len(),
                self.payload@.len() == before.len() == count,
                self.position_bits == old(self).position_bits,
                forall|j: int| 0 <= j < i ==> self.payload@[start + j] == bytes@[j],
                forall|j: int|
                    0 <= j < before.len() && !(start <= j < start + i) ==> self.payload@[j]
                        == before[j],
            decreases bytes@.len() - i,
        {
            self.payload.set(start + i, bytes[i]);
            i += 1;
        }
        self.position_bits = self.position_bits + 8 * bytes.len();
        assert(self@.payload =~= old(self)@.written(bytes@).payload);
    }

    /// Writes an integer that is given as a term; answers whether it could. Its
    /// bits must be whole bytes, and at least one.
    pub fn put_integer(&mut self, value: i64, size_bits: u64, flags: u64) -> (r: bool)
        requires
            old(self).wf(),
        ensures
            final(self).wf(),
            match integer_to_write(old(self)@, value, size_bits, flags) {
                Some(bytes) => r && final(self)@ == old(self)@.written(bytes),
                None => !r && final(self)@ == old(self)@,
            },
    {
        let number: i64 = match small_value(value) {
            Some(number) => number,
            None => {
                return false;
            },
        };
        if size_bits == 0 || size_bits % 8 != 0 || size_bits / 8 > 8 {
            return false;
        }
        let byte_count: usize = (size_bits / 8) as usize;
        if !self.has_room(byte_count) {
            return false;
        }
        match encode_integer(number, byte_count, Endian::from_raw(flags)) {
            None => false,
            Some(bytes) => {
                proof {
                    lemma_number_len(word_of(number), byte_count as nat, endian_of(flags));
                }
                self.write_bytes(&bytes);
                true
            },
        }
    }

    /// Writes a binary; answers whether it could.
    pub fn put_binary(&mut self, source: &Vec<u8>) -> (r: bool)
        requires
            old(self).wf(),
        ensures
            final(self).wf(),
            r == old(self)@.has_room(source@.len()),
            final(self)@ == if r {
                old(self)@.written(source@)
            } else {
                old(self)@
            },
    {
        if !self.has_room(source.len()) {
            return false;
        }
        self.write_bytes(source);
        true
    }

    /// Writes a character whose number is given as a term; answers whether it
    /// could.
    pub fn put_character(&mut self, codepoint: i64, encoding: Encoding, flags: u64) -> (r: bool)
        requires
            old(self).wf(),
        ensures
            final(self).wf(),
            match character_to_write(old(self)@, codepoint, encoding, flags) {
                Some(bytes) => r && final(self)@ == old(self)@.written(bytes),
                None => !r && final(self)@ == old(self)@,
            },
    {
        let number: i64 = match small_value(codepoint) {
            Some(number) => number,
            None => {
                return false;
            },
        };
        if number < 0 || number > 0x10ffff || !valid_codepoint(number as u32) {
            return false;
        }
        let bytes = encode_character(number as u32, encoding, Endian::from_raw(flags));
        if !self.has_room(bytes.len()) {
            return false;
        }
        self.write_bytes(&bytes);
        true
    }

    /// The binary that was written, unless it ends within a byte.
    pub fn finish(&self) -> (r: Option<Vec<u8>>)
        requires
            self.wf(),
        ensures
            match r {
                Some(bytes) => self@.position % 8 == 0 && bytes@ == self@.binary(),
                None => self@.position % 8 != 0,
            },
    {
        if self.position_bits % 8 != 0 {
            return None;
        }
        let length: usize = self.position_bits / 8;
        let mut bytes: Vec<u8> = Vec::new();
        let mut i: usize = 0;
        assert(bytes@ =~= self.payload@.take(0));
        while i < length
            invariant
                i <= length <= self.payload@.len(),
                bytes@ == self.payload@.take(i as int),
            decreases length - i,
        {
            bytes.push(self.payload[i]);
            i += 1;
            assert(bytes@ =~= self.payload@.take(i as int));
        }
        Some(bytes)
    }
}

/// The bytes of an integer that is to be written, if it is one, fits in its bits
/// and there is room for it.
pub open spec fn integer_to_write(builder: BuilderView, value: i64, size_bits: u64, flags: u64) -> Option<
    Seq<u8>,
> {
    match small_value_of(value) {
        None => None,
        Some(number) => if size_bits == 0 || size_bits % 8 != 0 || !builder.has_room(
            (size_bits / 8) as nat,
        ) {
            None
        } else {
            integer_bytes(number, (size_bits / 8) as nat, endian_of(flags))
        },
    }
}

/// The bytes of a character that is to be written, if there is one and room for
/// it.
pub open spec fn character_to_write(
    builder: BuilderView,
    codepoint: i64,
    encoding: Encoding,
    flags: u64,
) -> Option<Seq<u8>> {
    match small_value_of(codepoint) {
        None => None,
        Some(number) => {
            let bytes = character_bytes(number as int, encoding, endian_of(flags));
            if is_codepoint(number as int) && builder.has_room(bytes.len()) {
                Some(bytes)
            } else {
                None
            }
        },
    }
}

/// What is written after a binary follows it and leaves it as it was.
pub proof fn law_writing_appends(builder: BuilderView, bytes: Seq<u8>)
    requires
        builder.has_room(bytes.len()),
    ensures
        builder.written(bytes).binary() == builder.binary() + bytes,
        builder.written(bytes).payload.len() == builder.payload.len(),
{
    assert(builder.written(bytes).binary() =~= builder.binary() + bytes);
}

/// The bytes of a number stand for it.
proof fn lemma_number_read_back(value: nat, n: nat, endian: Endian)
    requires
        value < pow256(n),
    ensures
        unsigned_value(number_bytes(value, n, endian), endian) == value,
        number_bytes(value, n, endian).len() == n,
{
    law_bytes_hold_their_number(value, n);
    let bytes = le_bytes(value, n);
    assert(bytes.reverse().reverse() =~= bytes);
}

/// The groups of six bits of a number.
proof fn lemma_sextets(number: int)
    requires
        0 <= number < 0x110000,
    ensures
        number == (number / 64) * 64 + number % 64,
        number / 64 == (number / 4096) * 64 + (number / 64) % 64,
        number / 4096 == (number / 262144) * 64 + (number / 4096) % 64,
        0 <= number % 64 < 64,
        0 <= (number / 64) % 64 < 64,
        0 <= (number / 4096) % 64 < 64,
        0 <= number / 262144 <= 4,
{
    assert(number / 4096 == (number / 64) / 64);
    assert(number / 262144 == (number / 4096) / 64);
}

#[verifier::spinoff_prover]
proof fn lemma_three_bytes_are_matched(all: Seq<u8>, a: int, b: int, c: int)
    requires
        0 <= a < 16,
        0 <= b < 64,
        0 <= c < 64,
        all.len() >= 3,
        all[0] == 0xe0 + a,
        all[1] == 0x80 + b,
        all[2] == 0x80 + c,
        a * 4096 + b * 64 + c >= 0x800,
        is_codepoint(a * 4096 + b * 64 + c),
    ensures
        utf8_of(all) == Some(((a * 4096 + b * 64 + c) as u32, 3nat)),
{
    assert((all[0] - 0xe0) * 4096 + (all[1] - 0x80) * 64 + (all[2] - 0x80) == a * 4096 + b * 64
        + c);
}

#[verifier::spinoff_prover]
proof fn lemma_four_bytes_are_matched(all: Seq<u8>, a: int, b: int, c: int, d: int)
    requires
        0 <= a <= 4,
        0 <= b < 64,
        0 <= c < 64,
        0 <= d < 64,
        all.len() >= 4,
        all[0] == 0xf0 + a,
        all[1] == 0x80 + b,
        all[2] == 0x80 + c,
        all[3] == 0x80 + d,
        a * 262144 + b * 4096 + c * 64 + d >= 0x10000,
        is_codepoint(a * 262144 + b * 4096 + c * 64 + d),
    ensures
        utf8_of(all) == Some(((a * 262144 + b * 4096 + c * 64 + d) as u32, 4nat)),
{
    assert((all[0] - 0xf0) * 262144 + (all[1] - 0x80) * 4096 + (all[2] - 0x80) * 64 + (all[3]
        - 0x80) == a * 262144 + b * 4096 + c * 64 + d);
}

#[verifier::spinoff_prover]
proof fn lemma_utf8_is_matched(codepoint: int, rest: Seq<u8>)
    requires
        is_codepoint(codepoint),
    ensures
        utf8_of(utf8_bytes(codepoint) + rest) == Some(
            (codepoint as u32, utf8_bytes(codepoint).len()),
        ),
{
    let bytes = utf8_bytes(codepoint);
    let all = bytes + rest;
    let (a, b, c, d) = (
        codepoint / 262144,
        (codepoint / 4096) % 64,
        (codepoint / 64) % 64,
        codepoint % 64,
    );
    lemma_sextets(codepoint);
    if codepoint < 0x80 {
        assert(all[0] == bytes[0]);
    } else if codepoint < 0x800 {
        assert(all[0] == bytes[0] && all[1] == bytes[1]);
    } else if codepoint < 0x10000 {
        assert(all[0] == bytes[0] && all[1] == bytes[1] && all[2] == bytes[2]);
        lemma_three_bytes_are_matched(all, codepoint / 4096, c, d);
    } else {
        assert(all[0] == bytes[0] && all[1] == bytes[1] && all[2] == bytes[2] && all[3]
            == bytes[3]);
        lemma_four_bytes_are_matched(all, a, b, c, d);
    }
}

proof fn lemma_utf16_is_matched(codepoint: int, endian: Endian, rest: Seq<u8>)
    requires
        is_codepoint(codepoint),
    ensures
        character_of(
            character_bytes(codepoint, Encoding::Utf16, endian) + rest,
            Encoding::Utf16,
            endian,
        ) == Some(
            (codepoint as u32, character_bytes(codepoint, Encoding::Utf16, endian).len()),
        ),
{
    let bytes = character_bytes(codepoint, Encoding::Utf16, endian);
    let all = bytes + rest;
    lemma_powers();
    if codepoint < 0x10000 {
        lemma_number_read_back(codepoint as nat, 2, endian);
        assert(all.take(2) =~= bytes);
    } else {
        let high = (0xd800 + (codepoint - 0x10000) / 1024) as nat;
        let low = (0xdc00 + (codepoint - 0x10000) % 1024) as nat;
        lemma_number_read_back(high, 2, endian);
        lemma_number_read_back(low, 2, endian);
        assert(all.take(2) =~= number_bytes(high, 2, endian));
        assert(all.subrange(2, 4) =~= number_bytes(low, 2, endian));
    }
}

proof fn lemma_utf32_is_matched(codepoint: int, endian: Endian, rest: Seq<u8>)
    requires
        is_codepoint(codepoint),
    ensures
        character_of(
            character_bytes(codepoint, Encoding::Utf32, endian) + rest,
            Encoding::Utf32,
            endian,
        ) == Some(
            (codepoint as u32, character_bytes(codepoint, Encoding::Utf32, endian).len()),
        ),
{
    let bytes = character_bytes(codepoint, Encoding::Utf32, endian);
    let all = bytes + rest;
    lemma_powers();
    lemma_number_read_back(codepoint as nat, 4, endian);
    assert(all.take(4) =~= bytes);
}

/// A character that was written is matched again, whatever follows it, and takes
/// as many bytes as were written.
pub proof fn law_written_character_is_matched(
    codepoint: int,
    encoding: Encoding,
    endian: Endian,
    rest: Seq<u8>,
)
    requires
        is_codepoint(codepoint),
    ensures
        character_of(character_bytes(codepoint, encoding, endian) + rest, encoding, endian) == Some(
            (codepoint as u32, character_bytes(codepoint, encoding, endian).len()),
        ),
{
    match encoding {
        Encoding::Utf8 => lemma_utf8_is_matched(codepoint, rest),
        Encoding::Utf16 => lemma_utf16_is_matched(codepoint, endian, rest),
        Encoding::Utf32 => lemma_utf32_is_matched(codepoint, endian, rest),
    }
}

/// The bytes of an integer are read back as the integer: as an unsigned number, and,
/// when they are eight, as a signed one.
pub proof fn law_written_integer_is_matched(value: i64, n: nat, endian: Endian)
    requires
        integer_bytes(value, n, endian) is Some,
    ensures
        integer_of(
            integer_bytes(value, n, endian)->Some_0,
            SegmentFlags { endian, signed: false },
        ) == Some(value),
        n == 8 ==> integer_of(
            integer_bytes(value, n, endian)->Some_0,
            SegmentFlags { endian, signed: true },
        ) == Some(value),
{
    lemma_powers();
    lemma_number_read_back(word_of(value), n, endian);
}

} // verus!

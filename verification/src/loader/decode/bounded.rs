//! Bounds-checked reading of big-endian integers and byte runs.

use vstd::prelude::*;
use vstd::string::*;
use crate::error::{decode_error, decode_fault, outcome, LoadError, LoadFault};
use super::budget::MAX_TABLE_ENTRIES;

verus! {

/// An answer read at a position, and the position after it.
pub type Read<T> = (Result<T, LoadFault>, nat);

/// The big-endian 16-bit number at `at`.
pub open spec fn be_u16(b: Seq<u8>, at: int) -> int {
    b[at] * 256 + b[at + 1]
}

/// The big-endian 32-bit number at `at`.
pub open spec fn be_u32(b: Seq<u8>, at: int) -> int {
    be_u16(b, at) * 65536 + be_u16(b, at + 2)
}

/// The big-endian 64-bit number at `at`.
pub open spec fn be_u64(b: Seq<u8>, at: int) -> int {
    be_u32(b, at) * 0x1_0000_0000 + be_u32(b, at + 4)
}

/// The number that 32 bits stand for in two's complement.
pub open spec fn signed_32(n: int) -> int {
    if n >= 0x8000_0000 {
        n - 0x1_0000_0000
    } else {
        n
    }
}

pub open spec fn truncated() -> LoadFault {
    decode_fault("truncated chunk data"@)
}

/// Reads one byte.
pub open spec fn u8_at(b: Seq<u8>, at: nat) -> Read<u8> {
    if at < b.len() {
        (Ok(b[at as int]), at + 1)
    } else {
        (Err(truncated()), at)
    }
}

/// Reads `len` bytes.
pub open spec fn bytes_at(b: Seq<u8>, at: nat, len: nat) -> Read<Seq<u8>> {
    if at + len > usize::MAX {
        (Err(decode_fault("cursor offset overflow"@)), at)
    } else if at + len > b.len() {
        (Err(truncated()), at)
    } else {
        (Ok(b.subrange(at as int, (at + len) as int)), at + len)
    }
}

/// Reads a big-endian 16-bit number.
pub open spec fn u16_at(b: Seq<u8>, at: nat) -> Read<u16> {
    match bytes_at(b, at, 2) {
        (Ok(_), end) => (Ok(be_u16(b, at as int) as u16), end),
        (Err(e), end) => (Err(e), end),
    }
}

/// Reads a big-endian 32-bit number.
pub open spec fn u32_at(b: Seq<u8>, at: nat) -> Read<u32> {
    match bytes_at(b, at, 4) {
        (Ok(_), end) => (Ok(be_u32(b, at as int) as u32), end),
        (Err(e), end) => (Err(e), end),
    }
}

/// Reads a big-endian 32-bit number in two's complement.
pub open spec fn i32_at(b: Seq<u8>, at: nat) -> Read<i32> {
    match bytes_at(b, at, 4) {
        (Ok(_), end) => (Ok(signed_32(be_u32(b, at as int)) as i32), end),
        (Err(e), end) => (Err(e), end),
    }
}

/// Why `count` elements of at least `min` bytes cannot follow in `left` bytes,
/// if they cannot.
pub open spec fn count_fault(left: nat, count: nat, min: nat, label: Seq<char>) -> Option<
    LoadFault,
> {
    if count > MAX_TABLE_ENTRIES {
        Some(decode_fault(label + " exceeds limit"@))
    } else if count * min > usize::MAX {
        Some(decode_fault(label + " byte requirement overflows"@))
    } else if count * min > left {
        Some(decode_fault(label + " impossible for payload size"@))
    } else {
        None
    }
}

/// The fault of data left over after the chunk `name`.
pub open spec fn trailing(name: Seq<char>) -> LoadFault {
    decode_fault("trailing "@ + name + " chunk data"@)
}

/// Bounds-checked byte cursor shared by chunk decoders and the ETF sub-decoder.
pub struct BoundedCursor<'a> {
    bytes: &'a [u8],
    offset: usize,
}

pub fn labelled(label: &str, rest: &str) -> (e: LoadError)
    ensures
        e@ == decode_fault(label@ + rest@),
{
    let mut text = label.to_owned();
    text.append(rest);
    LoadError::DecodeError(text)
}

impl<'a> BoundedCursor<'a> {
    /// The bytes being read.
    pub closed spec fn all(&self) -> Seq<u8> {
        self.bytes@
    }

    /// The position of the next byte.
    pub closed spec fn pos(&self) -> nat {
        self.offset as nat
    }

    /// The position lies within the bytes.
    pub open spec fn wf(&self) -> bool {
        self.pos() <= self.all().len()
    }

    pub fn new(bytes: &'a [u8]) -> (r: Self)
        ensures
            r.wf(),
            r.all() == bytes@,
            r.pos() == 0,
    {
        BoundedCursor { bytes, offset: 0 }
    }

    pub fn remaining(&self) -> (r: &'a [u8])
        requires
            self.wf(),
        ensures
            r@ == self.all().subrange(self.pos() as int, self.all().len() as int),
    {
        vstd::slice::slice_subrange(self.bytes, self.offset, self.bytes.len())
    }

    pub fn remaining_len(&self) -> (r: usize)
        requires
            self.wf(),
        ensures
            r == self.all().len() - self.pos(),
    {
        self.bytes.len() - self.offset
    }

    pub fn ensure_count(&self, count: usize, min_elem_bytes: usize, label: &str) -> (r: Result<
        (),
        LoadError,
    >)
        requires
            self.wf(),
        ensures
            outcome(r) == (match count_fault(
                (self.all().len() - self.pos()) as nat,
                count as nat,
                min_elem_bytes as nat,
                label@,
            ) {
                Some(fault) => Err(fault),
                None => Ok(()),
            }),
    {
        if count > MAX_TABLE_ENTRIES {
            return Err(labelled(label, " exceeds limit"));
        }
        let required: usize = match count.checked_mul(min_elem_bytes) {
            Some(required) => required,
            None => {
                return Err(labelled(label, " byte requirement overflows"));
            },
        };
        if required > self.remaining_len() {
            return Err(labelled(label, " impossible for payload size"));
        }
        Ok(())
    }

    pub fn advance(&mut self, len: usize) -> (r: Result<(), LoadError>)
        requires
            old(self).wf(),
        ensures
            final(self).wf(),
            final(self).all() == old(self).all(),
            match bytes_at(old(self).all(), old(self).pos(), len as nat) {
                (Ok(_), end) => r is Ok && final(self).pos() == end,
                (Err(e), end) => r matches Err(x) && x@ == e && final(self).pos() == end,
            },
    {
        let end: usize = match self.offset.checked_add(len) {
            Some(end) => end,
            None => {
                return Err(decode_error("cursor offset overflow"));
            },
        };
        if end > self.bytes.len() {
            return Err(decode_error("truncated chunk data"));
        }
        self.offset = end;
        Ok(())
    }

    pub fn expect_empty(&self, name: &str) -> (r: Result<(), LoadError>)
        requires
            self.wf(),
        ensures
            outcome(r) == if self.pos() == self.all().len() {
                Ok::<(), LoadFault>(())
            } else {
                Err(trailing(name@))
            },
    {
        if self.offset == self.bytes.len() {
            Ok(())
        } else {
            let mut text = "trailing ".to_owned();
            text.append(name);
            text.append(" chunk data");
            Err(LoadError::DecodeError(text))
        }
    }

    pub fn read_u8(&mut self) -> (r: Result<u8, LoadError>)
        requires
            old(self).wf(),
        ensures
            final(self).wf(),
            final(self).all() == old(self).all(),
            (outcome(r), final(self).pos()) == u8_at(old(self).all(), old(self).pos()),
    {
        if self.offset < self.bytes.len() {
            let byte: u8 = self.bytes[self.offset];
            self.offset += 1;
            Ok(byte)
        } else {
            Err(decode_error("truncated chunk data"))
        }
    }

    pub fn read_bytes(&mut self, len: usize) -> (r: Result<&'a [u8], LoadError>)
        requires
            old(self).wf(),
        ensures
            final(self).wf(),
            final(self).all() == old(self).all(),
            match bytes_at(old(self).all(), old(self).pos(), len as nat) {
                (Ok(run), end) => r matches Ok(x) && x@ == run && final(self).pos() == end,
                (Err(e), end) => r matches Err(x) && x@ == e && final(self).pos() == end,
            },
    {
        let end: usize = match self.offset.checked_add(len) {
            Some(end) => end,
            None => {
                return Err(decode_error("cursor offset overflow"));
            },
        };
        if end > self.bytes.len() {
            return Err(decode_error("truncated chunk data"));
        }
        let run = vstd::slice::slice_subrange(self.bytes, self.offset, end);
        self.offset = end;
        Ok(run)
    }

    pub fn read_u16(&mut self) -> (r: Result<u16, LoadError>)
        requires
            old(self).wf(),
        ensures
            final(self).wf(),
            final(self).all() == old(self).all(),
            (outcome(r), final(self).pos()) == u16_at(old(self).all(), old(self).pos()),
    {
        let run = self.read_bytes(2)?;
        Ok((run[0] as u16) * 256 + run[1] as u16)
    }

    pub fn read_u32(&mut self) -> (r: Result<u32, LoadError>)
        requires
            old(self).wf(),
        ensures
            final(self).wf(),
            final(self).all() == old(self).all(),
            (outcome(r), final(self).pos()) == u32_at(old(self).all(), old(self).pos()),
    {
        let run = self.read_bytes(4)?;
        let high: u32 = (run[0] as u32) * 256 + run[1] as u32;
        let low: u32 = (run[2] as u32) * 256 + run[3] as u32;
        Ok(high * 65536 + low)
    }

    pub fn read_i32(&mut self) -> (r: Result<i32, LoadError>)
        requires
            old(self).wf(),
        ensures
            final(self).wf(),
            final(self).all() == old(self).all(),
            (outcome(r), final(self).pos()) == i32_at(old(self).all(), old(self).pos()),
    {
        let run = self.read_bytes(4)?;
        let high: i64 = (run[0] as i64) * 256 + run[1] as i64;
        let low: i64 = (run[2] as i64) * 256 + run[3] as i64;
        let value: i64 = high * 65536 + low;
        if value >= 0x8000_0000 {
            Ok((value - 0x1_0000_0000) as i32)
        } else {
            Ok(value as i32)
        }
    }
}

} // verus!

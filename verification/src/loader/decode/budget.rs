//! Work budgets: how much one module load may spend on untrusted input.

use vstd::prelude::*;
use crate::error::{decode_error, decode_fault, outcome, LoadError, LoadFault};

verus! {

/// Maximum recursion depth for the External Term Format literal decoder.
pub const MAX_ETF_DEPTH: usize = 256;

/// Hard ceiling on any length-prefixed table/collection count read from untrusted bytes.
pub const MAX_TABLE_ENTRIES: usize = 16_777_216;

/// Maximum newly interned atoms allowed while loading one module.
pub const MAX_ATOMS_PER_MODULE: usize = 65_536;

/// Default decoded-node budget for one module load.
pub const DEFAULT_DECODE_NODE_BUDGET: usize = 1_000_000;

/// Default decoded/allocation byte budget for one module load.
pub const DEFAULT_DECODE_BYTE_BUDGET: usize = 67_108_864;

/// What decoding may still spend.
#[derive(Debug, Clone, Copy, PartialEq, Eq, Structural)]
pub struct DecodeBudget {
    pub depth_remaining: usize,
    pub nodes_remaining: usize,
    pub bytes_remaining: usize,
    pub atoms_remaining: usize,
}

/// An answer together with the budget left after it.
pub type Charged<T> = (Result<T, LoadFault>, DecodeBudget);

/// One node fewer, or a fault when none is left.
pub open spec fn node_charged(b: DecodeBudget) -> Charged<()> {
    if b.nodes_remaining == 0 {
        (Err(decode_fault("decode node budget exhausted"@)), b)
    } else {
        (Ok(()), DecodeBudget { nodes_remaining: (b.nodes_remaining - 1) as usize, ..b })
    }
}

/// `n` bytes fewer, or a fault when fewer are left.
pub open spec fn bytes_charged(b: DecodeBudget, n: nat) -> Charged<()> {
    if n > b.bytes_remaining {
        (Err(decode_fault("decode byte budget exhausted"@)), b)
    } else {
        (Ok(()), DecodeBudget { bytes_remaining: (b.bytes_remaining - n) as usize, ..b })
    }
}

/// One new atom fewer, or a fault when none is left.
pub open spec fn atom_charged(b: DecodeBudget) -> Charged<()> {
    if b.atoms_remaining == 0 {
        (Err(decode_fault("decode atom budget exhausted"@)), b)
    } else {
        (Ok(()), DecodeBudget { atoms_remaining: (b.atoms_remaining - 1) as usize, ..b })
    }
}

/// Bytes for `count` elements of `size` bytes, or a fault when the product is
/// no machine word or the bytes are not left.
pub open spec fn table_charged(
    b: DecodeBudget,
    count: nat,
    size: nat,
    overflow: Seq<char>,
) -> Charged<()> {
    if count * size > usize::MAX {
        (Err(decode_fault(overflow)), b)
    } else {
        bytes_charged(b, count * size)
    }
}

impl DecodeBudget {
    pub fn new(
        depth_remaining: usize,
        nodes_remaining: usize,
        bytes_remaining: usize,
        atoms_remaining: usize,
    ) -> (r: Self)
        ensures
            r == (DecodeBudget { depth_remaining, nodes_remaining, bytes_remaining, atoms_remaining }),
    {
        DecodeBudget { depth_remaining, nodes_remaining, bytes_remaining, atoms_remaining }
    }

    pub fn charge_node(&mut self) -> (r: Result<(), LoadError>)
        ensures
            (outcome(r), *final(self)) == node_charged(*old(self)),
    {
        if self.nodes_remaining == 0 {
            return Err(decode_error("decode node budget exhausted"));
        }
        self.nodes_remaining -= 1;
        Ok(())
    }

    pub fn charge_bytes(&mut self, n: usize) -> (r: Result<(), LoadError>)
        ensures
            (outcome(r), *final(self)) == bytes_charged(*old(self), n as nat),
    {
        if n > self.bytes_remaining {
            return Err(decode_error("decode byte budget exhausted"));
        }
        self.bytes_remaining -= n;
        Ok(())
    }

    pub fn charge_atom(&mut self) -> (r: Result<(), LoadError>)
        ensures
            (outcome(r), *final(self)) == atom_charged(*old(self)),
    {
        if self.atoms_remaining == 0 {
            return Err(decode_error("decode atom budget exhausted"));
        }
        self.atoms_remaining -= 1;
        Ok(())
    }

    /// Charges the bytes of a table of `count` elements of `size` bytes each.
    pub fn charge_table(&mut self, count: usize, size: usize, overflow: &str) -> (r: Result<
        (),
        LoadError,
    >)
        ensures
            (outcome(r), *final(self)) == table_charged(
                *old(self),
                count as nat,
                size as nat,
                overflow@,
            ),
    {
        match count.checked_mul(size) {
            None => Err(decode_error(overflow)),
            Some(bytes) => self.charge_bytes(bytes),
        }
    }

    /// One nesting level fewer.
    pub fn descend(&mut self) -> (r: Result<(), LoadError>)
        ensures
            old(self).depth_remaining == 0 ==> outcome(r) == Err::<(), LoadFault>(
                decode_fault("ETF nesting exceeds limit"@),
            ) && *final(self) == *old(self),
            old(self).depth_remaining > 0 ==> r is Ok && *final(self) == (DecodeBudget {
                depth_remaining: (old(self).depth_remaining - 1) as usize,
                ..*old(self)
            }),
    {
        if self.depth_remaining == 0 {
            return Err(decode_error("ETF nesting exceeds limit"));
        }
        self.depth_remaining -= 1;
        Ok(())
    }

    /// One nesting level more, up to the machine's limit.
    pub fn ascend(&mut self)
        ensures
            *final(self) == (DecodeBudget {
                depth_remaining: if old(self).depth_remaining == usize::MAX {
                    usize::MAX
                } else {
                    (old(self).depth_remaining + 1) as usize
                },
                ..*old(self)
            }),
    {
        self.depth_remaining = self.depth_remaining.saturating_add(1);
    }
}

/// The budget that a module load starts with.
pub open spec fn default_budget() -> DecodeBudget {
    DecodeBudget {
        depth_remaining: MAX_ETF_DEPTH,
        nodes_remaining: DEFAULT_DECODE_NODE_BUDGET,
        bytes_remaining: DEFAULT_DECODE_BYTE_BUDGET,
        atoms_remaining: MAX_ATOMS_PER_MODULE,
    }
}

impl Default for DecodeBudget {
    fn default() -> (r: Self)
        ensures
            r == default_budget(),
    {
        DecodeBudget::new(
            MAX_ETF_DEPTH,
            DEFAULT_DECODE_NODE_BUDGET,
            DEFAULT_DECODE_BYTE_BUDGET,
            MAX_ATOMS_PER_MODULE,
        )
    }
}

/// What a module load may spend at first: 256 levels of nesting, a million nodes, 64 mebibytes and
/// 65,536 new atoms.
pub proof fn law_first_budget()
    ensures
        default_budget().depth_remaining == 256,
        default_budget().nodes_remaining == 1_000_000,
        default_budget().bytes_remaining == 64 * 1024 * 1024,
        default_budget().atoms_remaining == 65_536,
{
}

/// What is charged is taken from what is left of its own kind, and nothing else changes; what is
/// not left is refused, and takes nothing. Two charges of bytes are one of both.
pub proof fn law_charges_are_taken_from_what_is_left(b: DecodeBudget, n: nat, m: nat)
    ensures
        match node_charged(b) {
            (Ok(()), left) => left.nodes_remaining + 1 == b.nodes_remaining && left == (DecodeBudget {
                nodes_remaining: left.nodes_remaining,
                ..b
            }),
            (Err(_), left) => b.nodes_remaining == 0 && left == b,
        },
        match atom_charged(b) {
            (Ok(()), left) => left.atoms_remaining + 1 == b.atoms_remaining && left == (DecodeBudget {
                atoms_remaining: left.atoms_remaining,
                ..b
            }),
            (Err(_), left) => b.atoms_remaining == 0 && left == b,
        },
        match bytes_charged(b, n) {
            (Ok(()), left) => left.bytes_remaining + n == b.bytes_remaining && left == (DecodeBudget {
                bytes_remaining: left.bytes_remaining,
                ..b
            }),
            (Err(_), left) => b.bytes_remaining < n && left == b,
        },
        bytes_charged(b, n).0 is Ok && bytes_charged(bytes_charged(b, n).1, m).0 is Ok
            ==> bytes_charged(bytes_charged(b, n).1, m) == bytes_charged(b, n + m),
        bytes_charged(b, n + m).0 is Ok ==> bytes_charged(b, n).0 is Ok,
{
}

} // verus!

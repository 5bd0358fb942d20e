//! Numbers as bytes, the lowest byte first.

use vstd::prelude::*;

verus! {

/// How many numbers fit in `n` bytes.
pub open spec fn pow256(n: nat) -> nat
    decreases n,
{
    if n == 0 {
        1
    } else {
        256 * pow256((n - 1) as nat)
    }
}

/// The lowest `n` bytes of a number.
pub open spec fn le_bytes(value: nat, n: nat) -> Seq<u8>
    decreases n,
{
    if n == 0 {
        Seq::empty()
    } else {
        seq![(value % 256) as u8] + le_bytes(value / 256, (n - 1) as nat)
    }
}

/// The number that bytes stand for.
pub open spec fn le_value(bytes: Seq<u8>) -> nat
    decreases bytes.len(),
{
    if bytes.len() == 0 {
        0
    } else {
        bytes[0] as nat + 256 * le_value(bytes.skip(1))
    }
}

/// The bytes of a number have the length asked for and stand for the number, if
/// it fits.
pub proof fn law_bytes_hold_their_number(value: nat, n: nat)
    requires
        value < pow256(n),
    ensures
        le_bytes(value, n).len() == n,
        le_value(le_bytes(value, n)) == value,
    decreases n,
{
    if n > 0 {
        law_bytes_hold_their_number(value / 256, (n - 1) as nat);
        assert(le_bytes(value, n).skip(1) =~= le_bytes(value / 256, (n - 1) as nat));
    }
}

/// The bytes of a number are as many as asked for.
pub proof fn lemma_bytes_len(value: nat, n: nat)
    ensures
        le_bytes(value, n).len() == n,
    decreases n,
{
    if n > 0 {
        lemma_bytes_len(value / 256, (n - 1) as nat);
    }
}

/// The number that bytes stand for fits in as many bytes.
pub proof fn lemma_value_fits(bytes: Seq<u8>)
    ensures
        le_value(bytes) < pow256(bytes.len()),
    decreases bytes.len(),
{
    if bytes.len() > 0 {
        lemma_value_fits(bytes.skip(1));
    }
}

/// How many numbers fit in one to eight bytes.
pub proof fn lemma_powers()
    ensures
        pow256(1) == 0x100,
        pow256(2) == 0x1_0000,
        pow256(3) == 0x100_0000,
        pow256(4) == 0x1_0000_0000,
        pow256(5) == 0x100_0000_0000,
        pow256(6) == 0x1_0000_0000_0000,
        pow256(7) == 0x100_0000_0000_0000,
        pow256(8) == 0x1_0000_0000_0000_0000,
{
    reveal_with_fuel(pow256, 9);
}

/// Adds the lowest `n` bytes of a number.
pub fn push_le(output: &mut Vec<u8>, value: u64, n: usize)
    ensures
        final(output)@ == old(output)@ + le_bytes(value as nat, n as nat),
{
    let mut rest: u64 = value;
    let mut i: usize = 0;
    assert(output@ + le_bytes(rest as nat, n as nat) =~= old(output)@ + le_bytes(
        value as nat,
        n as nat,
    ));
    while i < n
        invariant
            i <= n,
            output@ + le_bytes(rest as nat, (n - i) as nat) == old(output)@ + le_bytes(
                value as nat,
                n as nat,
            ),
        decreases n - i,
    {
        let ghost before = output@;
        output.push((rest % 256) as u8);
        assert(before + le_bytes(rest as nat, (n - i) as nat) =~= output@ + le_bytes(
            (rest / 256) as nat,
            (n - i - 1) as nat,
        ));
        rest = rest / 256;
        i += 1;
    }
    assert(output@ + le_bytes(rest as nat, 0) =~= output@);
}

/// The number that `n` bytes stand for.
pub fn read_le(bytes: &[u8], at: usize, n: usize) -> (r: u64)
    requires
        at + n <= bytes@.len(),
        n <= 8,
    ensures
        r == le_value(bytes@.subrange(at as int, at + n)),
{
    let ghost part = bytes@.subrange(at as int, at + n);
    let count: usize = bytes.len();
    let mut value: u64 = 0;
    let mut i: usize = n;
    assert(part.skip(n as int) =~= Seq::empty());
    while i > 0
        invariant
            i <= n <= 8,
            at + n <= bytes@.len() == count,
            part == bytes@.subrange(at as int, at + n),
            value == le_value(part.skip(i as int)),
        decreases i,
    {
        let ghost rest = part.skip(i - 1);
        assert(rest.skip(1) =~= part.skip(i as int));
        proof {
            lemma_value_fits(rest);
            lemma_value_fits(rest.skip(1));
            lemma_powers();
        }
        value = value * 256 + bytes[at + (i - 1)] as u64;
        i -= 1;
    }
    assert(part.skip(0) =~= part);
    value
}

} // verus!

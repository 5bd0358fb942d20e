//! Numbers written as runs of bytes.

use vstd::prelude::*;

verus! {

/// `256` to the power `n`.
pub open spec fn pow256(n: nat) -> nat
    decreases n,
{
    if n == 0 {
        1
    } else {
        256 * pow256((n - 1) as nat)
    }
}

/// The number that `s` writes with its most significant byte first.
pub open spec fn be_value(s: Seq<u8>) -> nat
    decreases s.len(),
{
    if s.len() == 0 {
        0
    } else {
        be_value(s.drop_last()) * 256 + s.last() as nat
    }
}

/// The number that `s` writes with its least significant byte first.
pub open spec fn le_value(s: Seq<u8>) -> nat
    decreases s.len(),
{
    if s.len() == 0 {
        0
    } else {
        s[0] as nat + 256 * le_value(s.skip(1))
    }
}

/// The number that `s` writes in two's complement, most significant byte first.
pub open spec fn twos_complement(s: Seq<u8>) -> int {
    if s.len() > 0 && s[0] >= 128 {
        be_value(s) - pow256(s.len())
    } else {
        be_value(s) as int
    }
}

/// The bytes of `n`, least significant first, without a zero at the end.
pub open spec fn le_bytes(n: nat) -> Seq<u8>
    decreases n,
{
    if n == 0 {
        Seq::empty()
    } else {
        seq![(n % 256) as u8] + le_bytes(n / 256)
    }
}

pub proof fn lemma_pow256_values()
    ensures
        pow256(0) == 1,
        pow256(1) == 0x100,
        pow256(2) == 0x1_0000,
        pow256(4) == 0x1_0000_0000,
        pow256(7) == 0x100_0000_0000_0000,
        pow256(8) == 0x1_0000_0000_0000_0000,
{
    reveal_with_fuel(pow256, 9);
}

pub proof fn lemma_pow256_positive(n: nat)
    ensures
        pow256(n) > 0,
    decreases n,
{
    if n > 0 {
        lemma_pow256_positive((n - 1) as nat);
    }
}

pub proof fn lemma_pow256_grows(a: nat, b: nat)
    requires
        a <= b,
    ensures
        pow256(a) <= pow256(b),
    decreases b,
{
    if a < b {
        lemma_pow256_grows(a, (b - 1) as nat);
        lemma_pow256_positive((b - 1) as nat);
    }
}

pub proof fn lemma_be_value_bound(s: Seq<u8>)
    ensures
        be_value(s) < pow256(s.len()),
    decreases s.len(),
{
    if s.len() > 0 {
        lemma_be_value_bound(s.drop_last());
    }
}

/// Every value of `n` digits to base 256 is written by its least significant
/// byte first digits.
pub proof fn lemma_le_bytes_value(n: nat)
    ensures
        le_value(le_bytes(n)) == n,
        n > 0 ==> le_bytes(n).len() > 0 && le_bytes(n).last() != 0,
    decreases n,
{
    if n > 0 {
        lemma_le_bytes_value(n / 256);
        let s = le_bytes(n);
        assert(s.skip(1) =~= le_bytes(n / 256));
        if n / 256 == 0 {
            assert(le_bytes(0) =~= Seq::<u8>::empty());
            assert(s.last() == (n % 256) as u8);
        } else {
            assert(s.last() == le_bytes(n / 256).last());
        }
    }
}

/// The number that up to eight bytes write, most significant first. It is in
/// two's complement when `signed` says so or when all eight bytes are there.
pub open spec fn word_value(s: Seq<u8>, signed: bool) -> int {
    if s.len() > 0 && s[0] >= 128 && (signed || s.len() == 8) {
        be_value(s) - pow256(s.len())
    } else {
        be_value(s) as int
    }
}

pub proof fn lemma_be_value_prepend(first: u8, s: Seq<u8>)
    ensures
        be_value(seq![first] + s) == first * pow256(s.len()) + be_value(s),
    decreases s.len(),
{
    let whole = seq![first] + s;
    if s.len() == 0 {
        assert(whole.drop_last() =~= Seq::<u8>::empty());
        assert(be_value(whole.drop_last()) == 0);
        assert(whole.last() == first);
        assert(first * pow256(0) == first) by (nonlinear_arith)
            requires
                pow256(0) == 1,
        ;
    } else {
        assert(whole.drop_last() =~= seq![first] + s.drop_last());
        assert(whole.last() == s.last());
        lemma_be_value_prepend(first, s.drop_last());
        let p = pow256((s.len() - 1) as nat);
        assert((first * p + be_value(s.drop_last())) * 256 + s.last() == first * (256 * p)
            + be_value(s.drop_last()) * 256 + s.last()) by (nonlinear_arith);
    }
}

proof fn lemma_le_value_push(s: Seq<u8>, last: u8)
    ensures
        le_value(s.push(last)) == le_value(s) + last * pow256(s.len()),
    decreases s.len(),
{
    let whole = s.push(last);
    if s.len() == 0 {
        assert(whole.skip(1) =~= Seq::<u8>::empty());
        assert(le_value(whole.skip(1)) == 0);
        assert(last * pow256(0) == last) by (nonlinear_arith)
            requires
                pow256(0) == 1,
        ;
    } else {
        assert(whole.skip(1) =~= s.skip(1).push(last));
        lemma_le_value_push(s.skip(1), last);
        let p = pow256((s.len() - 1) as nat);
        assert(256 * (le_value(s.skip(1)) + last * p) == 256 * le_value(s.skip(1)) + last * (256
            * p)) by (nonlinear_arith);
    }
}

pub proof fn lemma_le_value_bound(s: Seq<u8>)
    ensures
        le_value(s) < pow256(s.len()),
    decreases s.len(),
{
    if s.len() > 0 {
        lemma_le_value_bound(s.skip(1));
    }
}

proof fn lemma_le_value_positive(s: Seq<u8>)
    requires
        s.len() > 0,
        s.last() != 0,
    ensures
        le_value(s) >= pow256((s.len() - 1) as nat),
    decreases s.len(),
{
    if s.len() > 1 {
        assert(s.skip(1).last() == s.last());
        lemma_le_value_positive(s.skip(1));
    } else {
        assert(s.skip(1) =~= Seq::<u8>::empty());
        assert(s[0] == s.last());
    }
}

/// A run of bytes that does not end in zero is the one that writes its value.
pub proof fn lemma_le_bytes_unique(s: Seq<u8>)
    requires
        s.len() > 0 ==> s.last() != 0,
    ensures
        le_bytes(le_value(s)) == s,
    decreases s.len(),
{
    if s.len() > 0 {
        lemma_le_value_positive(s);
        lemma_pow256_positive((s.len() - 1) as nat);
        let rest = s.skip(1);
        if rest.len() > 0 {
            assert(rest.last() == s.last());
        }
        lemma_le_bytes_unique(rest);
        let n = le_value(s);
        assert(n % 256 == s[0] as nat);
        assert(n / 256 == le_value(rest));
        assert(le_bytes(n) =~= s);
    }
}

/// Reads a word of at most eight bytes.
pub fn read_word(bytes: &[u8], signed: bool) -> (r: i64)
    requires
        bytes@.len() <= 8,
    ensures
        r == word_value(bytes@, signed),
{
    let mut acc: i128 = 0;
    let mut scale: i128 = 1;
    let mut i: usize = 0;
    proof {
        lemma_pow256_values();
    }
    while i < bytes.len()
        invariant
            i <= bytes@.len() <= 8,
            acc == be_value(bytes@.take(i as int)),
            scale == pow256(i as nat),
            0 <= acc < scale <= 0x1_0000_0000_0000_0000,
            pow256(8) == 0x1_0000_0000_0000_0000,
        decreases bytes@.len() - i,
    {
        proof {
            assert(bytes@.take(i + 1).drop_last() =~= bytes@.take(i as int));
            lemma_pow256_grows((i + 1) as nat, 8);
        }
        acc = acc * 256 + bytes[i] as i128;
        scale = scale * 256;
        i += 1;
    }
    assert(bytes@.take(bytes@.len() as int) =~= bytes@);
    if bytes.len() > 0 && bytes[0] >= 128 && (signed || bytes.len() == 8) {
        proof {
            lemma_top_byte(bytes@);
            lemma_pow256_grows(bytes@.len(), 8);
        }
        (acc - scale) as i64
    } else {
        proof {
            if bytes@.len() == 8 {
                lemma_top_byte(bytes@);
            } else {
                lemma_pow256_grows(bytes@.len(), 7);
            }
        }
        acc as i64
    }
}

/// The top bit of the first byte says on which side of the middle a value lies.
proof fn lemma_top_byte(s: Seq<u8>)
    requires
        s.len() > 0,
    ensures
        s[0] >= 128 <==> be_value(s) * 2 >= pow256(s.len()),
        be_value(s) < pow256(s.len()),
{
    let rest = s.skip(1);
    assert(s =~= seq![s[0]] + rest);
    lemma_be_value_prepend(s[0], rest);
    lemma_be_value_bound(rest);
    lemma_be_value_bound(s);
    let p = pow256(rest.len());
    let first = s[0] as int;
    if first >= 128 {
        assert(first * p >= 128 * p) by (nonlinear_arith)
            requires
                first >= 128,
                p >= 0,
        ;
    } else {
        assert(first * p <= 127 * p) by (nonlinear_arith)
            requires
                first <= 127,
                p >= 0,
        ;
    }
}

pub proof fn lemma_twos_complement_sign(s: Seq<u8>)
    requires
        s.len() > 0,
    ensures
        twos_complement(s) < 0 <==> s[0] >= 128,
{
    lemma_top_byte(s);
}

/// The magnitude of a number in two's complement, least significant byte first
/// and without a zero at the end.
pub fn magnitude_le(payload: &[u8]) -> (r: Vec<u8>)
    ensures
        r@ == le_bytes(
            if twos_complement(payload@) < 0 {
                (-twos_complement(payload@)) as nat
            } else {
                twos_complement(payload@) as nat
            },
        ),
{
    let n: usize = payload.len();
    let negative = n > 0 && payload[0] >= 128;
    let mut out: Vec<u8> = Vec::new();
    let mut carry: u16 = if negative {
        1
    } else {
        0
    };
    let mut i: usize = 0;
    proof {
        assert(payload@.skip(n as int) =~= Seq::<u8>::empty());
    }
    while i < n
        invariant
            i <= n == payload@.len(),
            out@.len() == i,
            carry <= 1,
            !negative ==> carry == 0 && le_value(out@) == be_value(payload@.skip(n - i)),
            negative ==> le_value(out@) + carry * pow256(i as nat) == pow256(i as nat) - be_value(
                payload@.skip(n - i),
            ),
        decreases n - i,
    {
        let byte: u8 = payload[n - 1 - i];
        let total: u16 = if negative {
            255 - byte as u16 + carry
        } else {
            byte as u16
        };
        let digit: u8 = (total % 256) as u8;
        let next: u16 = total / 256;
        proof {
            let tail = payload@.skip(n - i);
            assert(payload@.skip(n - 1 - i) =~= seq![byte] + tail);
            lemma_be_value_prepend(byte, tail);
            lemma_le_value_push(out@, digit);
            let p = pow256(i as nat);
            assert(pow256((i + 1) as nat) == 256 * p);
            if negative {
                let le = le_value(out@) as int;
                let low = be_value(tail) as int;
                let d = digit as int;
                let c = carry as int;
                let c2 = next as int;
                let x = byte as int;
                assert(d + 256 * c2 == 255 - x + c);
                assert(le + d * p + c2 * (256 * p) == 256 * p - (x * p + low)) by (nonlinear_arith)
                    requires
                        d + 256 * c2 == 255 - x + c,
                        le + c * p == p - low,
                ;
            } else {
                assert(digit == byte);
            }
        }
        out.push(digit);
        carry = next;
        i += 1;
    }
    proof {
        assert(payload@.skip(0) =~= payload@);
        if negative {
            lemma_top_byte(payload@);
            lemma_pow256_positive(n as nat);
            assert(carry == 0) by {
                if carry == 1 {
                    assert(1 * pow256(n as nat) == pow256(n as nat));
                }
            }
            assert(carry * pow256(n as nat) == 0) by (nonlinear_arith)
                requires
                    carry == 0,
            ;
        }
    }
    let ghost value = le_value(out@);
    while out.len() > 0 && out[out.len() - 1] == 0
        invariant
            le_value(out@) == value,
        decreases out@.len(),
    {
        proof {
            let shorter = out@.drop_last();
            lemma_le_value_push(shorter, 0);
            assert(shorter.push(0) =~= out@);
            assert(0 * pow256(shorter.len()) == 0);
        }
        out.pop();
    }
    proof {
        lemma_le_bytes_unique(out@);
    }
    out
}

/// The number that `magnitude` writes, with a sign, when 64 bits hold it.
pub fn small_from_magnitude(negative: bool, magnitude: &Vec<u8>) -> (r: Option<i64>)
    requires
        magnitude@.len() > 0 ==> magnitude@.last() != 0,
    ensures
        ({
            let value = if negative {
                -(le_value(magnitude@) as int)
            } else {
                le_value(magnitude@) as int
            };
            r == if i64::MIN <= value <= i64::MAX {
                Some(value as i64)
            } else {
                None::<i64>
            }
        }),
{
    let n: usize = magnitude.len();
    if n > 8 {
        proof {
            lemma_le_value_positive(magnitude@);
            lemma_pow256_grows(8, (n - 1) as nat);
            lemma_pow256_values();
        }
        return None;
    }
    let mut acc: i128 = 0;
    let mut i: usize = n;
    proof {
        lemma_pow256_values();
        assert(magnitude@.skip(n as int) =~= Seq::<u8>::empty());
    }
    while i > 0
        invariant
            i <= n <= 8,
            n == magnitude@.len(),
            acc == le_value(magnitude@.skip(i as int)),
            acc < 0x1_0000_0000_0000_0000,
            pow256(8) == 0x1_0000_0000_0000_0000,
        decreases i,
    {
        i -= 1;
        proof {
            let s = magnitude@.skip(i as int);
            assert(s.skip(1) =~= magnitude@.skip(i + 1));
            lemma_le_value_bound(s);
            lemma_pow256_grows(s.len(), 8);
        }
        acc = acc * 256 + magnitude[i] as i128;
    }
    assert(magnitude@.skip(0) =~= magnitude@);
    if negative {
        if acc <= 0x8000_0000_0000_0000 {
            Some((-acc) as i64)
        } else {
            None
        }
    } else {
        if acc <= 0x7fff_ffff_ffff_ffff {
            Some(acc as i64)
        } else {
            None
        }
    }
}

/// A number in two's complement is no further from zero than half of what its bytes
/// can count.
pub proof fn lemma_twos_complement_range(s: Seq<u8>)
    requires
        s.len() > 0,
    ensures
        -128 * pow256((s.len() - 1) as nat) <= twos_complement(s) < 128 * pow256(
            (s.len() - 1) as nat,
        ),
{
    lemma_top_byte(s);
}

} // verus!

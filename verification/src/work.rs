//! Proof of work: leading zero bits of a digest.
use vstd::prelude::*;

verus! {

/// The number of zero bits before the first one bit of `b`, written with
/// eight bits; eight if `b` is zero.
pub open spec fn byte_leading_zeros(b: u8) -> nat {
    if b >= 128 {
        0
    } else if b >= 64 {
        1
    } else if b >= 32 {
        2
    } else if b >= 16 {
        3
    } else if b >= 8 {
        4
    } else if b >= 4 {
        5
    } else if b >= 2 {
        6
    } else if b >= 1 {
        7
    } else {
        8
    }
}

/// The number of zero bits before the first one bit in the binary expansion
/// of `bytes`, each byte written with eight bits, the first byte first.
pub open spec fn leading_zeros(bytes: Seq<u8>) -> nat
    decreases bytes.len(),
{
    if bytes.len() == 0 {
        0
    } else if bytes[0] == 0 {
        8 + leading_zeros(bytes.drop_first())
    } else {
        byte_leading_zeros(bytes[0])
    }
}

/// The weight of bit `k` of a byte, the bits counted from the most
/// significant: 128 for bit zero, 1 for bit seven.
pub open spec fn weight(k: int) -> int {
    if k == 0 {
        128
    } else if k == 1 {
        64
    } else if k == 2 {
        32
    } else if k == 3 {
        16
    } else if k == 4 {
        8
    } else if k == 5 {
        4
    } else if k == 6 {
        2
    } else {
        1
    }
}

/// Whether bit `i` in the binary expansion of `bytes` is a one.
pub open spec fn bit(bytes: Seq<u8>, i: int) -> bool {
    (bytes[i / 8] as int / weight(i % 8)) % 2 == 1
}

/// The bits of a byte before its first one bit are zero, and the bit after
/// them is a one.
pub proof fn lemma_byte_leading_zeros(b: u8)
    ensures
        forall|k: int| 0 <= k < byte_leading_zeros(b) ==> (b as int / #[trigger] weight(k)) % 2 == 0,
        byte_leading_zeros(b) < 8 ==> (b as int / weight(byte_leading_zeros(b) as int)) % 2 == 1,
{
    let v = b as int;
    assert(v / 128 % 2 == 1 <==> v >= 128);
    assert(v / 64 % 2 == 1 <==> (64 <= v < 128 || 192 <= v));
    assert(v < 64 ==> (v / 32 % 2 == 1 <==> 32 <= v));
    assert(v < 32 ==> (v / 16 % 2 == 1 <==> 16 <= v));
    assert(v < 16 ==> (v / 8 % 2 == 1 <==> 8 <= v));
    assert(v < 8 ==> (v / 4 % 2 == 1 <==> 4 <= v));
    assert(v < 4 ==> (v / 2 % 2 == 1 <==> 2 <= v));
    assert(v < 2 ==> (v / 1 % 2 == 1 <==> 1 <= v));
}

/// The count of leading zero bits is what it is called: every bit before
/// that place is a zero, and the bit at that place, if there is one, is a
/// one.
pub proof fn lemma_leading_zeros_are_bits(bytes: Seq<u8>)
    ensures
        forall|i: int| 0 <= i < leading_zeros(bytes) ==> !#[trigger] bit(bytes, i),
        leading_zeros(bytes) < 8 * bytes.len() ==> bit(bytes, leading_zeros(bytes) as int),
    decreases bytes.len(),
{
    lemma_leading_zeros_bound(bytes);
    if bytes.len() > 0 {
        let rest = bytes.drop_first();
        lemma_byte_leading_zeros(bytes[0]);
        if bytes[0] == 0 {
            lemma_leading_zeros_are_bits(rest);
            lemma_leading_zeros_bound(rest);
            assert forall|i: int| 0 <= i < leading_zeros(bytes) implies !#[trigger] bit(
                bytes,
                i,
            ) by {
                if i >= 8 {
                    assert(!bit(rest, i - 8));
                    assert(rest[(i - 8) / 8] == bytes[i / 8]);
                    assert((i - 8) % 8 == i % 8);
                } else {
                    assert(i / 8 == 0 && i % 8 == i);
                }
            }
            if leading_zeros(bytes) < 8 * bytes.len() {
                let n = leading_zeros(bytes) as int;
                assert(bit(rest, n - 8));
                assert(rest[(n - 8) / 8] == bytes[n / 8]);
                assert((n - 8) % 8 == n % 8);
            }
        } else {
            let n = leading_zeros(bytes) as int;
            assert(n < 8);
            assert forall|i: int| 0 <= i < n implies !#[trigger] bit(bytes, i) by {
                assert(i / 8 == 0 && i % 8 == i);
                assert((bytes[0] as int / weight(i)) % 2 == 0);
            }
            assert(n / 8 == 0 && n % 8 == n);
        }
    }
}

/// A byte string has at most eight leading zero bits for each byte.
pub proof fn lemma_leading_zeros_bound(bytes: Seq<u8>)
    ensures
        leading_zeros(bytes) <= 8 * bytes.len(),
    decreases bytes.len(),
{
    if bytes.len() > 0 && bytes[0] == 0 {
        lemma_leading_zeros_bound(bytes.drop_first());
    }
}

fn zeros_of_byte(b: u8) -> (n: usize)
    ensures
        n == byte_leading_zeros(b),
{
    if b >= 128 {
        0
    } else if b >= 64 {
        1
    } else if b >= 32 {
        2
    } else if b >= 16 {
        3
    } else if b >= 8 {
        4
    } else if b >= 4 {
        5
    } else if b >= 2 {
        6
    } else if b >= 1 {
        7
    } else {
        8
    }
}

/// Whether the binary expansion of `bytes` begins with at least `count` zero
/// bits.
pub fn has_leading_zeros(bytes: &[u8], count: usize) -> (yes: bool)
    ensures
        yes == (leading_zeros(bytes@) >= count),
{
    let mut i: usize = 0;
    let mut need: usize = count;
    assert(bytes@.skip(0) =~= bytes@);
    while i < bytes.len() && need > 0
        invariant
            0 <= i <= bytes@.len(),
            need + 8 * i == count,
            leading_zeros(bytes@) == 8 * i + leading_zeros(bytes@.skip(i as int)),
        decreases bytes@.len() - i,
    {
        let b = bytes[i];
        let ghost rest = bytes@.skip(i as int);
        assert(rest[0] == b);
        assert(rest.drop_first() =~= bytes@.skip(i + 1));
        if b != 0 {
            return zeros_of_byte(b) >= need;
        }
        if need <= 8 {
            return true;
        }
        need -= 8;
        i += 1;
    }
    proof {
        lemma_leading_zeros_bound(bytes@.skip(i as int));
    }
    need == 0
}

} // verus!

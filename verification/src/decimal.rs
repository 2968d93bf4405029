//! Decimal text of unsigned integers, as ASCII bytes.
use vstd::prelude::*;

verus! {

/// The ASCII byte of the decimal digit `d`.
pub open spec fn digit(d: nat) -> u8 {
    (48 + d) as u8
}

/// The decimal text of `n`: most significant digit first, no sign, no
/// leading zero; zero is the single digit `0`.
pub open spec fn decimal(n: nat) -> Seq<u8>
    decreases n,
{
    if n < 10 {
        seq![digit(n)]
    } else {
        decimal(n / 10).push(digit(n % 10))
    }
}

/// Appends the decimal text of `n` to `out`.
pub fn push_decimal(out: &mut Vec<u8>, n: u64)
    ensures
        final(out)@ == old(out)@ + decimal(n as nat),
    decreases n,
{
    if n >= 10 {
        push_decimal(out, n / 10);
    }
    let d: u8 = (n % 10) as u8;
    out.push(48 + d);
}

/// The number that a decimal text stands for.
pub open spec fn value(text: Seq<u8>) -> nat
    decreases text.len(),
{
    if text.len() == 0 {
        0
    } else {
        (10 * value(text.drop_last()) + (text.last() - 48)) as nat
    }
}

/// Reading a decimal text gives the number back.
pub proof fn lemma_value_of_decimal(n: nat)
    ensures
        value(decimal(n)) == n,
    decreases n,
{
    let text = decimal(n);
    if n < 10 {
        assert(text.drop_last() =~= Seq::<u8>::empty());
        assert(value(text.drop_last()) == 0);
        assert(text.last() == digit(n));
    } else {
        lemma_value_of_decimal(n / 10);
        assert(text.drop_last() =~= decimal(n / 10));
        assert(text.last() == digit(n % 10));
    }
}

/// Two numbers with the same decimal text are the same number.
pub proof fn lemma_decimal_injective(a: nat, b: nat)
    requires
        decimal(a) == decimal(b),
    ensures
        a == b,
{
    lemma_value_of_decimal(a);
    lemma_value_of_decimal(b);
}

} // verus!

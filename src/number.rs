//! Exact decimal numbers, as written in the source text.
use vstd::prelude::*;
use vstd::arithmetic::div_mod::{lemma_div_denominator, lemma_div_is_ordered_by_denominator};

verus! {

/// A decimal number `(-1)^negative * digits / 10^scale`, kept exactly as the
/// digits of a numeric literal spell it.
#[derive(Clone, Copy, Debug, PartialEq, Eq, Structural)]
pub struct Decimal {
    /// Whether the number carries a minus sign.
    pub negative: bool,
    /// All the digits of the literal, read as one integer.
    pub digits: u64,
    /// How many of those digits stand after the decimal point.
    pub scale: u32,
}

/// `10` raised to `n`.
pub open spec fn pow10(n: nat) -> nat
    decreases n,
{
    if n == 0 {
        1
    } else {
        10 * pow10((n - 1) as nat)
    }
}

/// The number with its sign flipped.
pub open spec fn negated(d: Decimal) -> Decimal {
    Decimal { negative: !d.negative, ..d }
}

/// The integer part of a decimal, truncated towards zero and saturated to the
/// range of `u32` (every negative number gives 0).
pub open spec fn truncated_u32(d: Decimal) -> u32 {
    if d.negative {
        0
    } else {
        let q = d.digits as nat / pow10(d.scale as nat);
        if q > u32::MAX as nat {
            u32::MAX
        } else {
            q as u32
        }
    }
}

proof fn lemma_pow10_positive(n: nat)
    ensures
        pow10(n) >= 1,
    decreases n,
{
    if n > 0 {
        lemma_pow10_positive((n - 1) as nat);
    }
}

proof fn lemma_pow10_monotone(a: nat, b: nat)
    requires
        a <= b,
    ensures
        pow10(a) <= pow10(b),
    decreases b,
{
    if a < b {
        lemma_pow10_monotone(a, (b - 1) as nat);
        lemma_pow10_positive((b - 1) as nat);
    }
}

impl Decimal {
    /// A decimal from its sign, its digits and its scale.
    pub fn new(negative: bool, digits: u64, scale: u32) -> (r: Decimal)
        ensures
            r == (Decimal { negative, digits, scale }),
    {
        Decimal { negative, digits, scale }
    }

    /// A whole number.
    pub fn from_integer(n: u64) -> (r: Decimal)
        ensures
            r == (Decimal { negative: false, digits: n, scale: 0 }),
    {
        Decimal { negative: false, digits: n, scale: 0 }
    }

    /// The number with its sign flipped.
    pub fn negate(self) -> (r: Decimal)
        ensures
            r == negated(self),
    {
        Decimal { negative: !self.negative, ..self }
    }

    /// The integer part, truncated towards zero and saturated to `u32`.
    pub fn to_u32(self) -> (r: u32)
        ensures
            r == truncated_u32(self),
    {
        if self.negative {
            return 0;
        }
        let mut q: u64 = self.digits;
        let mut i: u32 = 0;
        assert(pow10(0) == 1);
        while i < self.scale && q > 0
            invariant
                i <= self.scale,
                q as nat == self.digits as nat / pow10(i as nat),
            decreases self.scale - i,
        {
            proof {
                lemma_pow10_positive(i as nat);
                lemma_div_denominator(self.digits as int, pow10(i as nat) as int, 10);
                assert(pow10(i as nat) * 10 == pow10((i + 1) as nat));
            }
            q = q / 10;
            i = i + 1;
        }
        proof {
            if i < self.scale {
                lemma_pow10_positive(i as nat);
                lemma_pow10_monotone(i as nat, self.scale as nat);
                lemma_div_is_ordered_by_denominator(
                    self.digits as int,
                    pow10(i as nat) as int,
                    pow10(self.scale as nat) as int,
                );
            }
        }
        if q > u32::MAX as u64 {
            u32::MAX
        } else {
            q as u32
        }
    }
}

} // verus!

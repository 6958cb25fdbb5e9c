//! Numbers in the binary64 format of IEEE 754, held as their bits.

use vstd::arithmetic::power2::*;
use vstd::prelude::*;
use vstd::relations::*;
use vstd::seq_lib::*;

verus! {

/// A binary64 number.
#[derive(Clone, Copy, Debug, Eq, PartialEq, Structural)]
pub struct Number {
    /// The sign bit, eleven bits of exponent, and fifty-two bits of fraction.
    pub bits: u64,
}

/// The sign bit alone: the number -0.
pub const SIGN: u64 = 0x8000_0000_0000_0000;

/// The bits of the number one.
pub const ONE_BITS: u64 = 0x3ff0_0000_0000_0000;

/// The bits of the number one hundred.
pub const HUNDRED_BITS: u64 = 0x4059_0000_0000_0000;

/// The bits of infinity: all exponent bits, no fraction.
pub const INFINITY_BITS: u64 = 0x7ff0_0000_0000_0000;

impl Number {
    /// The bits without the sign.
    pub open spec fn magnitude(self) -> int {
        if self.bits >= SIGN {
            self.bits - SIGN
        } else {
            self.bits as int
        }
    }

    /// Not a number: all exponent bits and some fraction.
    pub open spec fn nan(self) -> bool {
        self.magnitude() > INFINITY_BITS
    }

    /// Neither infinite nor not a number.
    pub open spec fn finite(self) -> bool {
        self.magnitude() < INFINITY_BITS
    }

    /// Numbers are ordered as their ranks: the bits of a positive number grow with it, and those of
    /// a negative one grow with its opposite. Both zeros have rank zero.
    pub open spec fn rank(self) -> int {
        if self.bits >= SIGN {
            SIGN - self.bits
        } else {
            self.bits as int
        }
    }

    /// `self` is smaller than `other`; never so where one is not a number.
    pub open spec fn less(self, other: Number) -> bool {
        !self.nan() && !other.nan() && self.rank() < other.rank()
    }

    /// `self` is smaller than `other` or equal to it; never so where one is not a number.
    pub open spec fn at_most(self, other: Number) -> bool {
        !self.nan() && !other.nan() && self.rank() <= other.rank()
    }

    /// `self` equals `other` as a number; never so where one is not a number.
    pub open spec fn equals(self, other: Number) -> bool {
        !self.nan() && !other.nan() && self.rank() == other.rank()
    }

    /// The number with these bits.
    pub fn from_bits(bits: u64) -> (r: Number)
        ensures
            r.bits == bits,
    {
        Number { bits }
    }

    fn unsigned(self) -> (r: u64)
        ensures
            r == self.magnitude(),
    {
        if self.bits >= SIGN {
            self.bits - SIGN
        } else {
            self.bits
        }
    }

    /// Tells whether the value is not a number.
    pub fn is_nan(self) -> (r: bool)
        ensures
            r == self.nan(),
    {
        self.unsigned() > INFINITY_BITS
    }

    /// Tells whether the value is neither infinite nor not a number.
    pub fn is_finite(self) -> (r: bool)
        ensures
            r == self.finite(),
    {
        self.unsigned() < INFINITY_BITS
    }

    /// Tells whether one number is smaller than another or equal to it.
    pub fn is_at_most(self, other: Number) -> (r: bool)
        ensures
            r == self.at_most(other),
    {
        if self.is_nan() || other.is_nan() {
            return false;
        }
        if self.bits >= SIGN {
            if other.bits >= SIGN {
                self.bits >= other.bits
            } else {
                true
            }
        } else if other.bits >= SIGN {
            self.bits == 0 && other.bits == SIGN
        } else {
            self.bits <= other.bits
        }
    }

    /// Tells whether one number is smaller than another.
    pub fn is_less(self, other: Number) -> (r: bool)
        ensures
            r == self.less(other),
    {
        self.is_at_most(other) && !other.is_at_most(self)
    }

    /// Tells whether two numbers are equal.
    pub fn is_equal(self, other: Number) -> (r: bool)
        ensures
            r == self.equals(other),
    {
        self.is_at_most(other) && other.is_at_most(self)
    }
}

/// The number zero.
pub open spec fn zero() -> Number {
    Number { bits: 0 }
}

/// The number one.
pub open spec fn one() -> Number {
    Number { bits: ONE_BITS }
}

/// The number one hundred.
pub open spec fn hundred() -> Number {
    Number { bits: HUNDRED_BITS }
}

/// The number is in the range from `low` up to and including `high`.
pub open spec fn within(value: Number, low: Number, high: Number) -> bool {
    low.at_most(value) && value.at_most(high)
}

/// The number is finite and not below zero.
pub open spec fn finite_non_negative(value: Number) -> bool {
    value.finite() && !value.less(zero())
}

/// Tells whether a number is finite and not below zero.
pub fn is_finite_non_negative(value: Number) -> (r: bool)
    ensures
        r == finite_non_negative(value),
{
    value.is_finite() && !value.is_less(Number { bits: 0 })
}

/// The number is finite and above zero.
pub open spec fn finite_positive(value: Number) -> bool {
    value.finite() && zero().less(value)
}

/// Tells whether a number is finite and above zero.
pub fn is_finite_positive(value: Number) -> (r: bool)
    ensures
        r == finite_positive(value),
{
    value.is_finite() && (Number { bits: 0 }).is_less(value)
}

/// The exponent of the largest power of two that is not above `n`.
pub open spec fn exponent(n: nat) -> nat
    decreases n,
{
    if n < 2 {
        0
    } else {
        1 + exponent(n / 2)
    }
}

/// The bits of a whole number: the exponent with its bias, and the fraction behind the leading one.
pub open spec fn whole_bits(n: nat) -> nat {
    if n == 0 {
        0
    } else {
        let e = exponent(n);
        ((1023 + e) * 0x10_0000_0000_0000 + (n - pow2(e)) * pow2((52 - e) as nat)) as nat
    }
}

/// The leading power of two of a number.
proof fn lemma_exponent(n: nat)
    requires
        n > 0,
    ensures
        pow2(exponent(n)) <= n < pow2(exponent(n) + 1),
    decreases n,
{
    if n < 2 {
        lemma2_to64();
    } else {
        lemma_exponent(n / 2);
        let e = exponent(n / 2);
        lemma_pow2_unfold(e + 1);
        lemma_pow2_unfold(e + 2);
    }
}

/// A whole number as a binary64 number, which it is exactly.
pub fn from_u32(n: u32) -> (r: Number)
    ensures
        r.bits == whole_bits(n as nat),
{
    if n == 0 {
        return Number { bits: 0 };
    }
    let mut e: u64 = 0;
    let mut rest: u32 = n;
    let mut power: u64 = 1;
    proof {
        lemma2_to64();
        lemma2_to64_rest();
    }
    while rest >= 2
        invariant
            rest >= 1,
            e <= 31,
            power == pow2(e as nat),
            exponent(n as nat) == e + exponent(rest as nat),
            rest as nat * pow2(e as nat) <= n,
        decreases rest,
    {
        proof {
            lemma_pow2_unfold((e + 1) as nat);
            lemma_pow2_pos(e as nat);
            assert((rest / 2) as nat * (2 * pow2(e as nat)) <= rest as nat * pow2(e as nat))
                by (nonlinear_arith)
                requires
                    rest >= 2,
                    pow2(e as nat) >= 1,
            ;
            assert((rest / 2) as nat * pow2((e + 1) as nat) <= n);
            lemma_small_exponent((e + 1) as nat, (rest / 2) as nat, n as nat);
            lemma2_to64();
            lemma_pow2_strictly_increases((e + 1) as nat, 32);
        }
        rest = rest / 2;
        e = e + 1;
        power = power * 2;
    }
    proof {
        lemma_exponent(n as nat);
        lemma_pow2_adds(e as nat, (52 - e) as nat);
        lemma_pow2_unfold((e + 1) as nat);
        lemma2_to64();
        lemma2_to64_rest();
    }
    let scale: u64 = power_of_two(52 - e);
    let fraction: u64 = n as u64 - power;
    proof {
        assert(fraction < power);
        assert(fraction * scale < power * scale) by (nonlinear_arith)
            requires
                fraction < power,
                scale > 0,
        ;
        assert(power * scale == pow2(52));
    }
    Number { bits: (1023 + e) * 0x10_0000_0000_0000 + fraction * scale }
}

/// An exponent whose power divides into a 32-bit number is below 32.
proof fn lemma_small_exponent(e: nat, k: nat, n: nat)
    requires
        k >= 1,
        k * pow2(e) <= n,
        n <= u32::MAX,
    ensures
        e <= 31,
{
    lemma2_to64();
    if e >= 32 {
        if e > 32 {
            lemma_pow2_strictly_increases(32, e);
        }
        assert(k * pow2(e) >= pow2(e)) by (nonlinear_arith)
            requires
                k >= 1,
        ;
    }
}

fn power_of_two(e: u64) -> (r: u64)
    requires
        e <= 52,
    ensures
        r == pow2(e as nat),
        r > 0,
{
    let mut out: u64 = 1;
    let mut i: u64 = 0;
    proof {
        lemma2_to64();
        lemma2_to64_rest();
    }
    while i < e
        invariant
            i <= e <= 52,
            out == pow2(i as nat),
            out > 0,
            pow2(52) == 0x10_0000_0000_0000,
        decreases e - i,
    {
        proof {
            lemma_pow2_unfold((i + 1) as nat);
            if i + 1 < 52 {
                lemma_pow2_strictly_increases((i + 1) as nat, 52);
            }
        }
        out = out * 2;
        i = i + 1;
    }
    out
}

// The total order.

impl Number {
    /// The place of a number in the total order of its format: negative numbers come before
    /// positive ones, -0 before 0, and what is not a number at either end.
    pub open spec fn place(self) -> int {
        if self.bits >= SIGN {
            SIGN - 1 - self.bits
        } else {
            self.bits as int
        }
    }

    /// Tells whether the number comes before another in the total order.
    pub fn comes_before(self, other: Number) -> (r: bool)
        ensures
            r == (self.place() < other.place()),
    {
        if self.bits >= SIGN {
            other.bits < SIGN || self.bits > other.bits
        } else {
            other.bits < SIGN && self.bits < other.bits
        }
    }
}

/// The total order of the format.
pub open spec fn in_order() -> spec_fn(Number, Number) -> bool {
    |a: Number, b: Number| a.place() <= b.place()
}

/// Numbers in their total order.
pub open spec fn arranged(values: Seq<Number>) -> Seq<Number> {
    values.sort_by(in_order())
}

pub(crate) proof fn lemma_in_order()
    ensures
        total_ordering(in_order()),
{
    let order = in_order();
    assert forall|a: Number, b: Number| #[trigger] order(a, b) && #[trigger] order(b, a) implies a
        == b by {
        assert(a.place() == b.place());
        assert(a.bits == b.bits);
    }
}

/// Arranging numbers keeps how many there are.
pub proof fn lemma_arranged_length(values: Seq<Number>)
    ensures
        arranged(values).len() == values.len(),
{
    lemma_in_order();
    values.lemma_sort_by_ensures(in_order());
    broadcast use group_to_multiset_ensures;

    assert(values.to_multiset().len() == values.len());
    assert(arranged(values).to_multiset().len() == arranged(values).len());
}

/// Arranges numbers in their total order.
pub fn arrange(values: &Vec<Number>) -> (r: Vec<Number>)
    ensures
        r@ == arranged(values@),
{
    let mut out: Vec<Number> = Vec::new();
    let mut i: usize = 0;
    assert(values@.take(0) == Seq::<Number>::empty());
    while i < values.len()
        invariant
            i <= values@.len(),
            out@.len() == i,
            sorted_by(out@, in_order()),
            out@.to_multiset() == values@.take(i as int).to_multiset(),
        decreases values@.len() - i,
    {
        let value = values[i];
        let mut at: usize = 0;
        while at < out.len() && !value.comes_before(out[at])
            invariant
                at <= out@.len(),
                forall|j: int| 0 <= j < at ==> (#[trigger] out@[j]).place() <= value.place(),
            decreases out@.len() - at,
        {
            at += 1;
        }
        let ghost before = out@;
        out.insert(at, value);
        proof {
            broadcast use group_to_multiset_ensures;

            let order = in_order();
            assert forall|a: int, b: int| 0 <= a < b < out@.len() implies #[trigger] order(
                out@[a],
                out@[b],
            ) by {
                if at < before.len() {
                    assert(before[at as int].place() > value.place());
                }
                if a < at && b < at {
                    assert(order(before[a], before[b]));
                } else if a < at && b > at {
                    assert(order(before[a], before[b - 1]));
                } else if a == at && b > at {
                    if b - 1 > at {
                        assert(order(before[at as int], before[b - 1]));
                    }
                } else if a > at {
                    assert(order(before[a - 1], before[b - 1]));
                }
            }
            assert(values@.take(i + 1) == values@.take(i as int).push(value));
            assert(out@.to_multiset() =~= before.to_multiset().insert(value));
        }
        i += 1;
    }
    proof {
        assert(values@.take(values@.len() as int) == values@);
        lemma_in_order();
        values@.lemma_sort_by_ensures(in_order());
        lemma_sorted_unique(out@, arranged(values@), in_order());
    }
    out
}

} // verus!

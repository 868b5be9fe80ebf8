//! Rounding to single precision, carried out on integers.
//!
//! A single-precision number holds 24 significant binary digits. The nearest
//! such number to a quotient `n / d` is found by scaling the quotient with a
//! power of two until its integer part has 24 digits, and rounding it to an
//! integer, ties to the even one. Only non-negative quotients below `2^24`
//! with a divisor of at most `2^39` are handled, which keeps every
//! intermediate value within 64 bits and every result a normal number.

use vstd::prelude::*;

verus! {

/// The least integer with 24 binary digits, `2^23`.
pub const MANTISSA_MIN: u64 = 0x80_0000;

/// The bound on quotients, `2^24`.
pub const MANTISSA_END: u64 = 0x100_0000;

/// The largest divisor accepted, `2^39`.
pub const DIVISOR_MAX: u64 = 0x80_0000_0000;

/// A non-negative binary fraction, `mant / unit`, where `unit` is a power
/// of two.
pub struct Dyadic {
    pub mant: nat,
    pub unit: nat,
}

impl Dyadic {
    /// The integer part of the number.
    pub open spec fn whole(self) -> nat {
        self.mant / self.unit
    }

    /// The number without its integer part. It has no more digits than the
    /// number itself, so the subtraction needs no rounding.
    pub open spec fn fraction(self) -> Dyadic {
        Dyadic { mant: self.mant % self.unit, unit: self.unit }
    }

    /// The product of the number and the integer `f`, rounded to single
    /// precision.
    pub open spec fn times(self, f: nat) -> Dyadic {
        single(self.mant * f, self.unit)
    }

    /// The nearest integer, a tie going upwards.
    pub open spec fn nearest(self) -> nat {
        (2 * self.mant + self.unit) / (2 * self.unit)
    }
}

/// `n / d` rounded to the nearest integer, a tie going to the even neighbor.
pub open spec fn nearest_even(n: nat, d: nat) -> nat
    recommends
        d > 0,
{
    let q = n / d;
    let r = n % d;
    if 2 * r < d || (2 * r == d && q % 2 == 0) {
        q
    } else {
        q + 1
    }
}

/// The numerator `n` doubled until `n / d` is at least `2^23`, with the
/// power of two that it was multiplied by. Zero is left as it is.
pub open spec fn normalized(n: nat, d: nat) -> (nat, nat)
    decreases d * MANTISSA_END - n,
{
    if n == 0 || n >= d * MANTISSA_MIN {
        (n, 1)
    } else {
        let (scaled, unit) = normalized(2 * n, d);
        (scaled, 2 * unit)
    }
}

/// The single-precision number nearest to `n / d`.
pub open spec fn single(n: nat, d: nat) -> Dyadic
    recommends
        0 < d <= DIVISOR_MAX,
        n < d * MANTISSA_END,
{
    let (scaled, unit) = normalized(n, d);
    Dyadic { mant: nearest_even(scaled, d), unit }
}

/// What normalizing does: the numerator is multiplied by the unit, and the
/// scaled quotient lies in `[2^23, 2^24)` unless the numerator is zero.
pub proof fn lemma_normalized(n: nat, d: nat)
    requires
        0 < d,
        n < d * MANTISSA_END,
    ensures
        normalized(n, d).1 >= 1,
        normalized(n, d).0 == n * normalized(n, d).1,
        normalized(n, d).0 < d * MANTISSA_END,
        n > 0 ==> normalized(n, d).0 >= d * MANTISSA_MIN,
        n == 0 ==> normalized(n, d) == (0nat, 1nat),
    decreases d * MANTISSA_END - n,
{
    if n == 0 || n >= d * MANTISSA_MIN {
        assert(n * 1 == n) by (nonlinear_arith);
    } else {
        lemma_normalized(2 * n, d);
        let (scaled, unit) = normalized(2 * n, d);
        assert((2 * n) * unit == n * (2 * unit)) by (nonlinear_arith);
    }
}

/// Rounding moves a quotient by at most one half, up or down.
pub proof fn lemma_nearest_even(n: nat, d: nat)
    requires
        0 < d,
    ensures
        nearest_even(n, d) == n / d || nearest_even(n, d) == n / d + 1,
        2 * (nearest_even(n, d) * d - n) <= d,
        2 * (n - nearest_even(n, d) * d) <= d,
{
    let q = n / d;
    let r = n % d;
    vstd::arithmetic::div_mod::lemma_fundamental_div_mod(n as int, d as int);
    assert(0 <= r < d) by (nonlinear_arith)
        requires
            r == n % d,
            0 < d,
    ;
    assert((q + 1) * d == q * d + d && d * q == q * d) by (nonlinear_arith);
}

/// The single-precision number nearest to `n / d` is within half a unit of
/// the quotient, its mantissa has 24 digits unless it is zero, and its unit
/// is a power of two.
pub proof fn lemma_single(n: nat, d: nat)
    requires
        0 < d,
        n < d * MANTISSA_END,
    ensures
        2 * (single(n, d).mant * d - n * single(n, d).unit) <= d,
        2 * (n * single(n, d).unit - single(n, d).mant * d) <= d,
        single(n, d).mant <= MANTISSA_END,
        n > 0 ==> single(n, d).mant >= MANTISSA_MIN,
        n == 0 ==> single(n, d) == (Dyadic { mant: 0, unit: 1 }),
        single(n, d).unit >= 1,
        n * single(n, d).unit < d * MANTISSA_END,
        n > 0 ==> n * single(n, d).unit >= d * MANTISSA_MIN,
        vstd::arithmetic::power2::is_pow2(single(n, d).unit as int),
{
    let (scaled, unit) = normalized(n, d);
    lemma_normalized(n, d);
    lemma_nearest_even(scaled, d);
    lemma_normalized_unit(n, d);
    let q = scaled / d;
    assert(MANTISSA_MIN <= q < MANTISSA_END || n == 0) by (nonlinear_arith)
        requires
            q == scaled / d,
            0 < d,
            scaled < d * MANTISSA_END,
            n > 0 ==> scaled >= d * MANTISSA_MIN,
    ;
    if n == 0 {
        assert(0nat / d == 0 && 0nat % d == 0) by (nonlinear_arith)
            requires
                0 < d,
        ;
    }
}

/// The unit that normalizing arrives at is a power of two.
proof fn lemma_normalized_unit(n: nat, d: nat)
    requires
        0 < d,
        n < d * MANTISSA_END,
    ensures
        vstd::arithmetic::power2::is_pow2(normalized(n, d).1 as int),
    decreases d * MANTISSA_END - n,
{
    reveal(vstd::arithmetic::power2::is_pow2);
    if n == 0 || n >= d * MANTISSA_MIN {
    } else {
        lemma_normalized_unit(2 * n, d);
        lemma_normalized(2 * n, d);
        let unit = normalized(2 * n, d).1;
        assert((2 * unit) as int / 2 == unit);
    }
}

/// A single-precision number as the library computes with it.
#[derive(Clone, Copy, Debug)]
pub struct Single {
    pub mant: u64,
    pub unit: u64,
}

impl View for Single {
    type V = Dyadic;

    open spec fn view(&self) -> Dyadic {
        Dyadic { mant: self.mant as nat, unit: self.unit as nat }
    }
}

impl Single {
    /// The bounds that keep the arithmetic on a number within 64 bits.
    pub open spec fn wf(&self) -> bool {
        &&& 1 <= self.unit < 0x8000_0000_0000_0000
        &&& self.mant <= MANTISSA_END
    }

    /// The integer part of the number.
    pub fn floor(&self) -> (w: u64)
        requires
            self.wf(),
        ensures
            w == self@.whole(),
    {
        self.mant / self.unit
    }

    /// The number without its integer part.
    pub fn fract(&self) -> (x: Single)
        requires
            self.wf(),
        ensures
            x@ == self@.fraction(),
            x.wf(),
    {
        let rest: u64 = self.mant % self.unit;
        assert(rest <= self.mant) by (nonlinear_arith)
            requires
                rest == self.mant % self.unit,
                self.unit > 0,
        ;
        Single { mant: rest, unit: self.unit }
    }

    /// The product of the number and `f`, rounded to single precision.
    pub fn times(&self, f: u64) -> (x: Single)
        requires
            self.wf(),
            self.unit <= DIVISOR_MAX,
            self.mant * f < self.unit * MANTISSA_END,
        ensures
            x@ == self@.times(f as nat),
            x.wf(),
    {
        round_single(self.mant * f, self.unit)
    }

    /// The nearest integer, a tie going upwards.
    pub fn round(&self) -> (r: u64)
        requires
            self.wf(),
        ensures
            r == self@.nearest(),
    {
        (2 * self.mant + self.unit) / (2 * self.unit)
    }
}

/// Rounds `n / d` to the nearest integer, a tie going to the even neighbor.
pub fn round_nearest_even(n: u64, d: u64) -> (m: u64)
    requires
        0 < d,
    ensures
        m == nearest_even(n as nat, d as nat),
{
    let q: u64 = n / d;
    let r: u64 = n % d;
    proof {
        vstd::arithmetic::div_mod::lemma_fundamental_div_mod(n as int, d as int);
        assert(r < d && (r > 0 ==> q < n)) by (nonlinear_arith)
            requires
                n == d * q + r,
                r == n % d,
                0 < d,
        ;
    }
    let rest: u64 = d - r;
    if r < rest || (r == rest && q % 2 == 0) {
        q
    } else {
        q + 1
    }
}

/// Rounds `n / d` to single precision.
pub fn round_single(n: u64, d: u64) -> (x: Single)
    requires
        0 < d <= DIVISOR_MAX,
        n < d * MANTISSA_END,
    ensures
        x@ == single(n as nat, d as nat),
        x.wf(),
{
    let full: u64 = d * MANTISSA_MIN;
    let mut scaled: u64 = n;
    let mut unit: u64 = 1;
    proof {
        lemma_normalized(n as nat, d as nat);
    }
    while scaled != 0 && scaled < full
        invariant
            0 < d <= DIVISOR_MAX,
            full == d * MANTISSA_MIN,
            scaled < d * MANTISSA_END,
            1 <= unit <= scaled || scaled == 0,
            normalized(n as nat, d as nat).0 == normalized(scaled as nat, d as nat).0,
            normalized(n as nat, d as nat).1 == unit * normalized(scaled as nat, d as nat).1,
        decreases d * MANTISSA_END - scaled,
    {
        proof {
            let inner = normalized(2 * scaled as nat, d as nat).1;
            assert(unit * (2 * inner) == (2 * unit) * inner) by (nonlinear_arith);
        }
        scaled = 2 * scaled;
        unit = 2 * unit;
    }
    proof {
        let rest = normalized(scaled as nat, d as nat);
        assert(rest == (scaled as nat, 1nat));
        assert(unit * rest.1 == unit) by (nonlinear_arith)
            requires
                rest.1 == 1,
        ;
        lemma_single(n as nat, d as nat);
    }
    Single { mant: round_nearest_even(scaled, d), unit }
}

} // verus!

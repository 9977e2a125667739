//! Script numbers.
//!
//! A script number is an IEEE-754 binary64 value. It is carried by its bit
//! pattern, and everything the interpreter needs of it (classification,
//! equality, conversion from and to 32-bit integers) is computed on that
//! pattern with integer arithmetic.

use vstd::arithmetic::div_mod::*;
use vstd::arithmetic::mul::*;
use vstd::arithmetic::power2::*;
use vstd::prelude::*;

verus! {

/// 2^52: the weight of the hidden bit of a normal number.
pub const HIDDEN_BIT: u64 = 0x10_0000_0000_0000;

/// 2^63: the weight of the sign bit.
pub const SIGN_BIT: u64 = 0x8000_0000_0000_0000;

/// 2^32.
pub const TWO_32: u64 = 0x1_0000_0000;

/// The bit pattern of the canonical quiet NaN.
pub const NAN_BITS: u64 = 0x7ff8_0000_0000_0000;

/// A binary64 number, held by its bit pattern.
#[derive(Clone, Copy, Debug, PartialEq, Eq, Structural)]
pub struct Number {
    pub bits: u64,
}

/// The integer in `[-2^31, 2^31)` that is congruent to `x` modulo 2^32.
pub open spec fn wrap_i32(x: int) -> int {
    let m = x % 0x1_0000_0000;
    if m >= 0x8000_0000 {
        m - 0x1_0000_0000
    } else {
        m
    }
}

impl Number {
    /// The sign bit: `true` for negative numbers and for `-0`.
    pub open spec fn sign(self) -> bool {
        self.bits >= SIGN_BIT
    }

    /// The biased exponent field, in `0..2048`.
    pub open spec fn exponent(self) -> int {
        (self.bits as int / HIDDEN_BIT as int) % 2048
    }

    /// The fraction field, in `0..2^52`.
    pub open spec fn fraction(self) -> int {
        self.bits as int % HIDDEN_BIT as int
    }

    pub open spec fn is_nan_spec(self) -> bool {
        self.exponent() == 2047 && self.fraction() != 0
    }

    pub open spec fn is_infinite_spec(self) -> bool {
        self.exponent() == 2047 && self.fraction() == 0
    }

    pub open spec fn is_finite_spec(self) -> bool {
        self.exponent() != 2047
    }

    /// `+0` or `-0`.
    pub open spec fn is_zero_spec(self) -> bool {
        self.exponent() == 0 && self.fraction() == 0
    }

    /// The significand of a finite number: its magnitude is
    /// `significand * 2^scale`.
    pub open spec fn significand(self) -> int {
        if self.exponent() == 0 {
            self.fraction()
        } else {
            HIDDEN_BIT as int + self.fraction()
        }
    }

    /// The power of two by which the significand is scaled.
    pub open spec fn scale(self) -> int {
        if self.exponent() == 0 {
            -1074
        } else {
            self.exponent() - 1075
        }
    }

    /// The magnitude of a finite number, rounded toward zero to an integer.
    pub open spec fn truncated_magnitude(self) -> int {
        if self.scale() >= 0 {
            self.significand() * pow2(self.scale() as nat)
        } else {
            self.significand() / (pow2((-self.scale()) as nat) as int)
        }
    }

    /// A finite number rounded toward zero to an integer.
    pub open spec fn truncated(self) -> int {
        if self.sign() {
            -self.truncated_magnitude()
        } else {
            self.truncated_magnitude()
        }
    }

    /// Whether a finite number is an integer.
    pub open spec fn is_integral_spec(self) -> bool {
        self.is_finite_spec() && (self.scale() >= 0 || self.significand() % (pow2(
            (-self.scale()) as nat,
        ) as int) == 0)
    }

    /// The 32-bit integer a number converts to: NaN and the infinities give
    /// 0, any other number is rounded toward zero and wrapped modulo 2^32.
    pub open spec fn to_i32_spec(self) -> int {
        if self.is_finite_spec() {
            wrap_i32(self.truncated())
        } else {
            0
        }
    }

    /// The magnitude of the product of a finite number and `factor`, as a
    /// binary64 multiplication gives it, rounded toward zero to an integer.
    /// The multiplication rounds the exact product to 53 significant bits,
    /// to the nearest and in a tie to the even one.
    pub open spec fn scaled_magnitude(self, factor: int) -> int {
        let exact: nat = (self.significand() * factor) as nat;
        let shift: nat = rounding_shift(exact, 0);
        let rounded: nat = round_half_even(exact, pow2(shift));
        let scale: int = self.scale() + shift;
        if scale >= 0 {
            (rounded * pow2(scale as nat)) as int
        } else {
            rounded as int / (pow2((-scale) as nat) as int)
        }
    }

    /// A length in pixels as a number of twips, of which a pixel has 20:
    /// the product of the number and 20 as a binary64 multiplication gives it,
    /// rounded toward zero to an integer and held to the range of 32-bit
    /// integers. A number that is not finite gives 0.
    pub open spec fn to_twips_spec(self) -> int {
        if self.is_finite_spec() {
            let mag = self.scaled_magnitude(20);
            if self.sign() {
                if mag > 0x8000_0000 {
                    -0x8000_0000
                } else {
                    -mag
                }
            } else {
                if mag > 0x7fff_ffff {
                    0x7fff_ffff
                } else {
                    mag
                }
            }
        } else {
            0
        }
    }

    /// The 32-bit integer that the number is, if it is one: the integer it
    /// converts to, if the number of that integer equals it.
    pub open spec fn exact_i32(self) -> Option<int> {
        if Number::of_int(self.to_i32_spec()).numeric_eq_spec(self) {
            Some(self.to_i32_spec())
        } else {
            None
        }
    }

    /// Equality of numbers as the scripts see it: NaN equals nothing, and
    /// the two zeros are equal.
    pub open spec fn numeric_eq_spec(self, other: Number) -> bool {
        !self.is_nan_spec() && !other.is_nan_spec() && (self.bits == other.bits || (
        self.is_zero_spec() && other.is_zero_spec()))
    }

    pub fn from_bits(bits: u64) -> (r: Number)
        ensures
            r.bits == bits,
    {
        Number { bits }
    }

    pub fn to_bits(self) -> (r: u64)
        ensures
            r == self.bits,
    {
        self.bits
    }

    /// The canonical NaN.
    pub fn nan() -> (r: Number)
        ensures
            r.bits == NAN_BITS,
            r.is_nan_spec(),
    {
        Number { bits: NAN_BITS }
    }

    fn exponent_field(self) -> (r: u64)
        ensures
            r == self.exponent(),
            r < 2048,
    {
        (self.bits / HIDDEN_BIT) % 2048
    }

    fn fraction_field(self) -> (r: u64)
        ensures
            r == self.fraction(),
            r < HIDDEN_BIT,
    {
        self.bits % HIDDEN_BIT
    }

    pub fn is_nan(self) -> (r: bool)
        ensures
            r == self.is_nan_spec(),
    {
        self.exponent_field() == 2047 && self.fraction_field() != 0
    }

    pub fn is_infinite(self) -> (r: bool)
        ensures
            r == self.is_infinite_spec(),
    {
        self.exponent_field() == 2047 && self.fraction_field() == 0
    }

    pub fn is_finite(self) -> (r: bool)
        ensures
            r == self.is_finite_spec(),
    {
        self.exponent_field() != 2047
    }

    pub fn is_zero(self) -> (r: bool)
        ensures
            r == self.is_zero_spec(),
    {
        self.exponent_field() == 0 && self.fraction_field() == 0
    }

    pub fn is_negative(self) -> (r: bool)
        ensures
            r == self.sign(),
    {
        self.bits >= SIGN_BIT
    }

    pub fn numeric_eq(self, other: Number) -> (r: bool)
        ensures
            r == self.numeric_eq_spec(other),
    {
        !self.is_nan() && !other.is_nan() && (self.bits == other.bits || (self.is_zero()
            && other.is_zero()))
    }

    /// The number that equals the given integer, for an integer of at most
    /// 32 bits: the sign, the exponent of its leading bit, and its other
    /// bits moved up to the top of the fraction.
    pub open spec fn of_int(i: int) -> Number {
        if i == 0 {
            Number { bits: 0 }
        } else {
            let mag: nat = if i < 0 {
                (-i) as nat
            } else {
                i as nat
            };
            let p: nat = leading_bit(mag);
            let low: int = (1023 + p) * HIDDEN_BIT + (mag * pow2((52 - p) as nat) - HIDDEN_BIT);
            Number {
                bits: (if i < 0 {
                    SIGN_BIT + low
                } else {
                    low
                }) as u64,
            }
        }
    }

    /// The number that equals the given integer. Every 32-bit integer is
    /// represented exactly.
    pub fn from_i32(i: i32) -> (r: Number)
        ensures
            r == Number::of_int(i as int),
            r.is_integral_spec(),
            r.truncated() == i,
            r.to_i32_spec() == i,
            r.sign() == (i < 0),
    {
        proof {
            lemma_of_int(i as int);
        }
        if i == 0 {
            return Number { bits: 0 };
        }
        let negative: bool = i < 0;
        let wide: i64 = i as i64;
        let mag: u64 = if negative {
            (-wide) as u64
        } else {
            wide as u64
        };
        // Find the position of the leading one of `mag`.
        let mut p: u64 = 0;
        let mut top: u64 = 1;
        proof {
            lemma2_to64();
        }
        while top * 2 <= mag
            invariant
                0 < mag <= 0x8000_0000,
                top == pow2(p as nat),
                top <= mag,
                p <= 31,
            decreases mag - top,
        {
            proof {
                lemma_pow2_unfold((p + 1) as nat);
                lemma2_to64();
                if p == 31 {
                    assert(top == 0x8000_0000);
                }
            }
            top = top * 2;
            p = p + 1;
        }
        // Shift the leading one to the hidden bit.
        let shift: u64 = 52 - p;
        let factor: u64 = pow2_u64(shift);
        proof {
            lemma_leading_bit(mag as nat, p as nat);
            lemma_scaled_bounds(mag as nat, p as nat);
        }
        let scaled: u64 = mag * factor;
        let fraction: u64 = scaled - HIDDEN_BIT;
        let exponent: u64 = 1023 + p;
        let low: u64 = exponent * HIDDEN_BIT + fraction;
        let bits: u64 = if negative {
            SIGN_BIT + low
        } else {
            low
        };
        Number { bits }
    }

    /// A length in pixels as a number of twips.
    pub fn to_twips(self) -> (r: i32)
        ensures
            r == self.to_twips_spec(),
    {
        let e: u64 = self.exponent_field();
        let f: u64 = self.fraction_field();
        if e == 2047 {
            return 0;
        }
        let negative: bool = self.is_negative();
        let m: u64 = if e == 0 {
            f
        } else {
            HIDDEN_BIT + f
        };
        let exact: u64 = m * 20;
        // Round the product to 53 bits.
        let mut shift: u64 = 0;
        let mut unit: u64 = 1;
        proof {
            lemma2_to64();
        }
        while shift < 63 && exact / unit >= 2 * HIDDEN_BIT
            invariant
                shift <= 63,
                unit == pow2(shift as nat),
                unit > 0,
                rounding_shift(exact as nat, 0) == rounding_shift(exact as nat, shift as nat),
            decreases 63 - shift,
        {
            proof {
                lemma_pow2_unfold((shift + 1) as nat);
                lemma_pow2_strictly_increases((shift + 1) as nat, 64);
                lemma2_to64_rest();
            }
            unit = unit * 2;
            shift = shift + 1;
        }
        proof {
            if shift == 63 {
                lemma2_to64_rest();
                assert(exact / unit <= 1);
            }
        }
        let q: u64 = exact / unit;
        let rest: u64 = exact % unit;
        let rounded: u64 = if rest > unit - rest || (rest == unit - rest && q % 2 == 1) {
            q + 1
        } else {
            q
        };
        assert(rounded == round_half_even(exact as nat, unit as nat));
        let field: u64 = if e == 0 {
            1
        } else {
            e
        };
        // The scale of the rounded product is `field + shift - 1075`.
        let mag: u128 = if field + shift >= 1075 {
            let up: u64 = field + shift - 1075;
            if rounded == 0 {
                proof {
                    lemma_mul_basics(pow2(up as nat) as int);
                }
                0
            } else if up >= 32 {
                proof {
                    lemma_pow2_adds(32, (up - 32) as nat);
                    lemma_pow2_pos((up - 32) as nat);
                    lemma2_to64();
                    let high: int = pow2(up as nat) as int;
                    assert(high >= 0x1_0000_0000) by (nonlinear_arith)
                        requires
                            high == 0x1_0000_0000 * pow2((up - 32) as nat),
                            pow2((up - 32) as nat) >= 1,
                    ;
                    assert(rounded * high >= high) by (nonlinear_arith)
                        requires
                            rounded >= 1,
                            high >= 0,
                    ;
                }
                0x1_0000_0000
            } else {
                let factor: u64 = pow2_u64(up);
                proof {
                    lemma2_to64();
                    lemma_pow2_strictly_increases(up as nat, 32);
                    assert(rounded * factor < 0x80_0000_0000_0000 * 0x1_0000_0000) by (nonlinear_arith)
                        requires
                            rounded < 0x80_0000_0000_0000,
                            factor < 0x1_0000_0000,
                    ;
                }
                (rounded as u128) * (factor as u128)
            }
        } else {
            let down: u64 = 1075 - field - shift;
            if down > 55 {
                proof {
                    lemma2_to64_rest();
                    lemma_pow2_strictly_increases(55, down as nat);
                    lemma_basic_div(rounded as int, pow2(down as nat) as int);
                }
                0
            } else {
                (rounded / pow2_u64(down)) as u128
            }
        };
        assert(mag == self.scaled_magnitude(20) || (mag == 0x1_0000_0000 && self.scaled_magnitude(
            20,
        ) >= 0x1_0000_0000));
        if negative {
            if mag > 0x8000_0000 {
                i32::MIN
            } else {
                let wide: i64 = -(mag as i64);
                wide as i32
            }
        } else {
            if mag > 0x7fff_ffff {
                i32::MAX
            } else {
                mag as i32
            }
        }
    }

    /// The 32-bit integer that the number is, if it is one.
    pub fn as_exact_i32(self) -> (r: Option<i32>)
        ensures
            match r {
                Some(i) => self.exact_i32() == Some(i as int),
                None => self.exact_i32() is None,
            },
    {
        let i: i32 = self.to_i32();
        if Number::from_i32(i).numeric_eq(self) {
            Some(i)
        } else {
            None
        }
    }

    /// The 32-bit integer this number converts to.
    pub fn to_i32(self) -> (r: i32)
        ensures
            r == self.to_i32_spec(),
    {
        let e: u64 = self.exponent_field();
        let f: u64 = self.fraction_field();
        if e == 2047 {
            return 0;
        }
        if e < 1023 {
            // The magnitude is below one.
            proof {
                let k: nat = (-self.scale()) as nat;
                lemma2_to64_rest();
                if k > 53 {
                    lemma_pow2_strictly_increases(53, k);
                }
                lemma_basic_div(self.significand(), pow2(k) as int);
            }
            return 0;
        }
        let m: u64 = HIDDEN_BIT + f;
        let low: u64 = if e >= 1075 {
            let sh: u64 = e - 1075;
            if sh >= 32 {
                proof {
                    lemma_pow2_adds(32, (sh - 32) as nat);
                    lemma2_to64();
                    let rest: int = m * pow2((sh - 32) as nat);
                    assert(m * pow2(sh as nat) == rest * 0x1_0000_0000) by (nonlinear_arith)
                        requires
                            pow2(sh as nat) == 0x1_0000_0000 * pow2((sh - 32) as nat),
                            rest == m * pow2((sh - 32) as nat),
                    ;
                    lemma_mod_multiples_basic(rest, 0x1_0000_0000);
                }
                0
            } else {
                let factor: u64 = pow2_u64(sh);
                proof {
                    lemma2_to64();
                    lemma_pow2_strictly_increases(sh as nat, 32);
                    lemma_mul_mod_noop_left(m as int, factor as int, 0x1_0000_0000);
                    assert((m % TWO_32) * factor < TWO_32 * TWO_32) by (nonlinear_arith)
                        requires
                            m % TWO_32 < TWO_32,
                            factor < TWO_32,
                    ;
                }
                ((m % TWO_32) * factor) % TWO_32
            }
        } else {
            let sh: u64 = 1075 - e;
            let factor: u64 = pow2_u64(sh);
            (m / factor) % TWO_32
        };
        assert(low == self.truncated_magnitude() % 0x1_0000_0000);
        let wrapped: u64 = if self.is_negative() && low != 0 {
            TWO_32 - low
        } else {
            low
        };
        assert(wrapped == self.truncated() % 0x1_0000_0000) by {
            let t: int = self.truncated_magnitude();
            if self.sign() {
                lemma_fundamental_div_mod(t, 0x1_0000_0000);
                lemma_fundamental_div_mod(-t, 0x1_0000_0000);
                if low != 0 {
                    lemma_fundamental_div_mod_converse(
                        -t,
                        0x1_0000_0000,
                        -(t / 0x1_0000_0000) - 1,
                        0x1_0000_0000 - low,
                    );
                } else {
                    lemma_fundamental_div_mod_converse(
                        -t,
                        0x1_0000_0000,
                        -(t / 0x1_0000_0000),
                        0,
                    );
                }
            }
        }
        if wrapped >= 0x8000_0000 {
            let d: i64 = wrapped as i64 - 0x1_0000_0000;
            d as i32
        } else {
            wrapped as i32
        }
    }
}

/// By how many bits a product has to be shortened to have at most 53: the
/// least shift from `from` on that leaves fewer than 2^53.
pub open spec fn rounding_shift(exact: nat, from: nat) -> nat
    decreases 63 - from,
{
    if from >= 63 || exact / pow2(from) < 2 * HIDDEN_BIT {
        from
    } else {
        rounding_shift(exact, from + 1)
    }
}

/// A number divided by a unit and rounded to the nearest integer; where
/// two are equally near, to the even one.
pub open spec fn round_half_even(exact: nat, unit: nat) -> nat {
    let q: nat = exact / unit;
    let rest: nat = exact % unit;
    if 2 * rest > unit || (2 * rest == unit && q % 2 == 1) {
        q + 1
    } else {
        q
    }
}

/// The position of the leading one of a positive number: the `p` with
/// `2^p <= m < 2^(p+1)`.
pub open spec fn leading_bit(m: nat) -> nat
    decreases m,
{
    if m < 2 {
        0
    } else {
        1 + leading_bit(m / 2)
    }
}

proof fn lemma_leading_bit(m: nat, p: nat)
    requires
        pow2(p) <= m < 2 * pow2(p),
    ensures
        leading_bit(m) == p,
    decreases p,
{
    lemma2_to64();
    if p > 0 {
        lemma_pow2_unfold(p);
        lemma_leading_bit(m / 2, (p - 1) as nat);
    }
}

proof fn lemma_leading_bit_bounds(m: nat)
    requires
        m > 0,
    ensures
        pow2(leading_bit(m)) <= m < 2 * pow2(leading_bit(m)),
    decreases m,
{
    lemma2_to64();
    if m >= 2 {
        lemma_leading_bit_bounds(m / 2);
        lemma_pow2_unfold(leading_bit(m));
    }
}

proof fn lemma_scaled_bounds(m: nat, p: nat)
    requires
        pow2(p) <= m < 2 * pow2(p),
        p <= 52,
    ensures
        HIDDEN_BIT <= m * pow2((52 - p) as nat) < 2 * HIDDEN_BIT,
{
    let factor: nat = pow2((52 - p) as nat);
    let top: nat = pow2(p);
    lemma_pow2_adds(p, (52 - p) as nat);
    lemma_pow2_pos((52 - p) as nat);
    lemma2_to64_rest();
    assert(top * factor == HIDDEN_BIT);
    assert(m * factor >= top * factor) by (nonlinear_arith)
        requires
            m >= top,
            factor > 0,
    ;
    assert(m * factor < 2 * top * factor) by (nonlinear_arith)
        requires
            m < 2 * top,
            factor > 0,
    ;
    assert(2 * top * factor == 2 * (top * factor)) by (nonlinear_arith);
}

/// The number of a 32-bit integer is that integer: it is integral, it
/// truncates to the integer, and it converts back to it.
pub proof fn lemma_of_int(i: int)
    requires
        -0x8000_0000 <= i < 0x8000_0000,
    ensures
        Number::of_int(i).is_integral_spec(),
        Number::of_int(i).truncated() == i,
        Number::of_int(i).to_i32_spec() == i,
        Number::of_int(i).sign() == (i < 0),
        !Number::of_int(i).is_nan_spec(),
{
    let r = Number::of_int(i);
    if i == 0 {
        lemma_pow2_pos(1074);
        lemma_small_mod(0, pow2(1074));
        lemma_basic_div(0, pow2(1074) as int);
        assert(r.exponent() == 0);
        assert(r.significand() == 0);
    } else {
        let mag: nat = if i < 0 {
            (-i) as nat
        } else {
            i as nat
        };
        let p: nat = leading_bit(mag);
        lemma_leading_bit_bounds(mag);
        lemma2_to64();
        if p > 31 {
            lemma_pow2_strictly_increases(31, p);
        }
        let shift: nat = (52 - p) as nat;
        let factor: nat = pow2(shift);
        lemma_scaled_bounds(mag, p);
        lemma_pow2_pos(shift);
        let scaled: int = (mag * factor) as int;
        let fraction: int = scaled - HIDDEN_BIT;
        let exponent: int = (1023 + p) as int;
        assert(r.exponent() == exponent);
        assert(r.fraction() == fraction);
        assert(r.significand() == scaled);
        assert(r.scale() == -(shift as int));
        assert(scaled == factor * mag) by (nonlinear_arith)
            requires
                scaled == mag * factor,
        ;
        lemma_div_multiples_vanish(mag as int, factor as int);
        lemma_mod_multiples_basic(mag as int, factor as int);
        assert(r.truncated_magnitude() == mag);
        assert(r.truncated() == i);
        assert(r.is_finite_spec());
        assert(r.significand() % (factor as int) == 0);
        assert(r.is_integral_spec());
    }
}

/// The position of the leading one of a number below 2^23 that is not 0,
/// and the power of two that moves it to the position 52.
pub fn leading_bit_and_factor(m: u64) -> (r: (u64, u64))
    requires
        0 < m < 0x80_0000,
    ensures
        r.0 == leading_bit(m as nat),
        r.0 <= 22,
        r.1 == pow2((52 - r.0) as nat),
        HIDDEN_BIT <= m * r.1 < 2 * HIDDEN_BIT,
{
    let mut p: u64 = 0;
    let mut top: u64 = 1;
    proof {
        lemma2_to64();
    }
    while top * 2 <= m
        invariant
            0 < m < 0x80_0000,
            top == pow2(p as nat),
            top <= m,
            p <= 22,
        decreases m - top,
    {
        proof {
            lemma_pow2_unfold((p + 1) as nat);
            lemma2_to64();
            if p == 22 {
                assert(top == 0x40_0000);
            }
        }
        top = top * 2;
        p = p + 1;
    }
    let factor: u64 = pow2_u64(52 - p);
    proof {
        lemma_leading_bit(m as nat, p as nat);
        lemma_scaled_bounds(m as nat, p as nat);
    }
    (p, factor)
}

/// 2^k for `k <= 63`.
fn pow2_u64(k: u64) -> (r: u64)
    requires
        k <= 63,
    ensures
        r == pow2(k as nat),
        r > 0,
{
    let mut r: u64 = 1;
    let mut i: u64 = 0;
    proof {
        lemma2_to64();
    }
    while i < k
        invariant
            i <= k <= 63,
            r == pow2(i as nat),
            r > 0,
        decreases k - i,
    {
        proof {
            lemma_pow2_unfold((i + 1) as nat);
            lemma_pow2_strictly_increases((i + 1) as nat, 64);
            lemma2_to64_rest();
        }
        r = r * 2;
        i = i + 1;
    }
    r
}

/// A 32-bit integer survives the conversion to a number and back.
pub proof fn lemma_i32_round_trip(n: Number, i: int)
    requires
        n.is_finite_spec(),
        n.truncated() == i,
        -0x8000_0000 <= i < 0x8000_0000,
    ensures
        n.to_i32_spec() == i,
{
}

} // verus!

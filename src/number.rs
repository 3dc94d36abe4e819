//! Exact JSON numbers: every number is held as `±mantissa · 2^exponent`,
//! which covers unsigned and signed 64-bit integers and every finite
//! IEEE-754 binary64 value without rounding.
use vstd::arithmetic::power2::*;
use vstd::prelude::*;

verus! {

/// A JSON number with the value `±mantissa · 2^exponent`. `binary64` tells
/// a number written as a floating-point value from one written as an integer.
#[derive(Clone, Copy, Debug)]
pub struct JsonNumber {
    pub negative: bool,
    pub mantissa: u64,
    pub exponent: i16,
    pub binary64: bool,
}

/// Smaller of two integers.
pub open spec fn min_int(a: int, b: int) -> int {
    if a <= b {
        a
    } else {
        b
    }
}

impl JsonNumber {
    /// The absolute value multiplied by `2^-e`; an integer whenever `e <= exponent`.
    pub open spec fn magnitude_at(self, e: int) -> nat {
        (self.mantissa * pow2((self.exponent - e) as nat)) as nat
    }

    /// The value multiplied by `2^-e`; an integer whenever `e <= exponent`.
    pub open spec fn scaled_at(self, e: int) -> int {
        if self.negative {
            -self.magnitude_at(e)
        } else {
            self.magnitude_at(e) as int
        }
    }

    /// True when the value has no fractional part.
    pub open spec fn spec_is_integral(self) -> bool {
        self.exponent >= 0 || self.mantissa as nat % pow2((-self.exponent) as nat) == 0
    }
}

/// The exponent at which both numbers are integers.
pub open spec fn common_exponent(a: JsonNumber, b: JsonNumber) -> int {
    min_int(a.exponent as int, b.exponent as int)
}

/// `a - b`, scaled to the common exponent: its sign is the order of `a` and `b`.
pub open spec fn scaled_difference(a: JsonNumber, b: JsonNumber) -> int {
    a.scaled_at(common_exponent(a, b)) - b.scaled_at(common_exponent(a, b))
}

/// Numeric equality, whatever the encodings.
pub open spec fn num_eq(a: JsonNumber, b: JsonNumber) -> bool {
    scaled_difference(a, b) == 0
}

/// Numeric order, on exact values.
pub open spec fn num_lt(a: JsonNumber, b: JsonNumber) -> bool {
    scaled_difference(a, b) < 0
}

/// `a` is an integer multiple of `b`. The only multiple of zero is zero.
pub open spec fn num_is_multiple(a: JsonNumber, b: JsonNumber) -> bool {
    let e = common_exponent(a, b);
    if b.magnitude_at(e) == 0 {
        a.magnitude_at(e) == 0
    } else {
        a.magnitude_at(e) % b.magnitude_at(e) == 0
    }
}

/// The number that the IEEE-754 binary64 encoding `bits` stands for.
pub open spec fn decode_binary64(bits: u64) -> JsonNumber {
    let field = (bits / 0x10_0000_0000_0000) % 0x800;
    let fraction = bits % 0x10_0000_0000_0000;
    JsonNumber {
        negative: bits / 0x8000_0000_0000_0000 == 1,
        mantissa: if field == 0 { fraction } else { (fraction + 0x10_0000_0000_0000) as u64 },
        exponent: if field == 0 { -1074i16 } else { (field - 1075) as i16 },
        binary64: true,
    }
}

/// How many low bits of `m` lie beyond binary64's 53 significant bits.
pub open spec fn excess_bits(m: nat) -> nat
    decreases m,
{
    if m < 0x20_0000_0000_0000 {
        0
    } else {
        1 + excess_bits(m / 2)
    }
}

/// `m` divided by `2^excess_bits(m)` and rounded to the nearest integer,
/// ties to even: the significand binary64 keeps of `m`.
pub open spec fn rounded_significand(m: nat) -> nat {
    let k = excess_bits(m);
    if k == 0 {
        m
    } else {
        let p = pow2(k);
        let q = m / p;
        let r = m % p;
        if r > p / 2 || (r == p / 2 && q % 2 == 1) {
            q + 1
        } else {
            q
        }
    }
}

/// The number as binary64 holds it: its mantissa rounded to 53 significant
/// bits, nearest with ties to even. Every `u64`, `i64` and binary64 value
/// stays within binary64's exponent range; a number whose exponent could not
/// be raised any further is left as it is.
pub open spec fn rounded_to_binary64(n: JsonNumber) -> JsonNumber {
    let k = excess_bits(n.mantissa as nat);
    if n.exponent + k > 0x7fff {
        n
    } else {
        JsonNumber {
            negative: n.negative,
            mantissa: rounded_significand(n.mantissa as nat) as u64,
            exponent: (n.exponent + k) as i16,
            binary64: n.binary64,
        }
    }
}

/// How far `m` must be shifted left for its top bit to reach bit 63.
pub open spec fn lift_bits(m: nat) -> nat
    decreases 0x1_0000_0000_0000_0000 - m,
{
    if m == 0 || m >= 0x8000_0000_0000_0000 {
        0
    } else {
        1 + lift_bits(2 * m)
    }
}

/// Whether the binary64 quotient `a / b` has no fractional part, for nonzero
/// `a` and `b` that binary64 holds. Both significands are lifted to 64 bits,
/// the quotient of the lifted numerator (times `2^64`) by the lifted divisor
/// gives 64 or 65 bits and a sticky remainder, and these are rounded to 53
/// significant bits, nearest with ties to even, as binary64 division rounds.
pub open spec fn binary64_quotient_is_integral(a: JsonNumber, b: JsonNumber) -> bool {
    let na = lift_bits(a.mantissa as nat);
    let nb = lift_bits(b.mantissa as nat);
    let num: int = a.mantissa * pow2(na) * pow2(64);
    let den: int = b.mantissa * pow2(nb);
    let q: nat = (num / den) as nat;
    let sticky = num % den != 0;
    let k = excess_bits(q);
    let t: nat = q / pow2(k);
    let low: nat = q % pow2(k);
    let half: nat = pow2(k) / 2;
    let t1 = if low > half || (low == half && (sticky || t % 2 == 1)) {
        t + 1
    } else {
        t
    };
    let e = k - 64 + a.exponent - na - b.exponent + nb;
    e >= 0 || t1 % pow2((-e) as nat) == 0
}

/// The significand of `m` lifted so that its top bit is bit 63, and the shift.
fn lift(m: u64) -> (r: (u64, u32))
    requires
        m > 0,
    ensures
        r.0 == m * pow2(r.1 as nat),
        r.1 == lift_bits(m as nat),
        r.0 >= 0x8000_0000_0000_0000,
{
    let mut t: u64 = m;
    let mut s: u32 = 0;
    proof {
        lemma_pow2_zero_is_one();
    }
    while t < 0x8000_0000_0000_0000
        invariant
            t > 0,
            s <= 63,
            t == m * pow2(s as nat),
            lift_bits(m as nat) == s + lift_bits(t as nat),
        decreases 63 - s,
    {
        proof {
            lemma_pow2_unfold((s + 1) as nat);
            assert(m * pow2((s + 1) as nat) == 2 * (m * pow2(s as nat))) by (nonlinear_arith)
                requires
                    pow2((s + 1) as nat) == 2 * pow2(s as nat),
            ;
            if s == 63 {
                lemma2_to64_rest();
                assert(m * pow2(63) >= pow2(63)) by (nonlinear_arith)
                    requires
                        m >= 1,
                ;
            }
        }
        t = t * 2;
        s = s + 1;
    }
    (t, s)
}

/// Whether the binary64 quotient `a / b` has no fractional part.
fn binary64_quotient_integral(a: &JsonNumber, b: &JsonNumber) -> (r: bool)
    requires
        a.mantissa > 0,
        b.mantissa > 0,
    ensures
        r == binary64_quotient_is_integral(*a, *b),
{
    let (big_a, na) = lift(a.mantissa);
    let (den, nb) = lift(b.mantissa);
    proof {
        lemma2_to64_rest();
        assert(pow2(64) == 0x1_0000_0000_0000_0000);
    }
    let num: u128 = (big_a as u128) * 0x1_0000_0000_0000_0000u128;
    let d: u128 = den as u128;
    let q: u128 = num / d;
    let sticky = num % d != 0;
    proof {
        vstd::arithmetic::div_mod::lemma_div_is_ordered_by_denominator(
            num as int,
            0x8000_0000_0000_0000,
            d as int,
        );
        lemma2_to64();
    }
    let mut t: u128 = q;
    let mut k: u32 = 0;
    while t >= 0x20_0000_0000_0000
        invariant
            k <= 12,
            q < 0x2_0000_0000_0000_0000,
            t == q as nat / pow2(k as nat),
            excess_bits(q as nat) == k + excess_bits(t as nat),
            pow2(12) == 4096,
        decreases t,
    {
        proof {
            if k == 12 {
                assert(q as nat / 4096 < 0x20_0000_0000_0000);
            }
            lemma_pow2_pos(k as nat);
            lemma_pow2_unfold((k + 1) as nat);
            vstd::arithmetic::div_mod::lemma_div_denominator(q as int, pow2(k as nat) as int, 2);
            assert(pow2(k as nat) * 2 == pow2((k + 1) as nat)) by (nonlinear_arith)
                requires
                    pow2((k + 1) as nat) == 2 * pow2(k as nat),
            ;
        }
        t = t / 2;
        k = k + 1;
    }
    let p: u128 = pow2_below_64(k);
    proof {
        lemma_pow2_pos(k as nat);
    }
    let low: u128 = q % p;
    let half: u128 = p / 2;
    let t1: u128 = if low > half || (low == half && (sticky || t % 2 == 1)) {
        t + 1
    } else {
        t
    };
    let e: i64 = k as i64 - 64 + a.exponent as i64 - na as i64 - b.exponent as i64 + nb as i64;
    if e >= 0 {
        true
    } else {
        let dn: u64 = (-e) as u64;
        if dn >= 64 {
            proof {
                lemma2_to64_rest();
                if dn > 64 {
                    lemma_pow2_strictly_increases(64, dn as nat);
                }
                vstd::arithmetic::div_mod::lemma_small_mod(t1 as nat, pow2(dn as nat));
            }
            t1 == 0
        } else {
            let pd: u128 = pow2_below_64(dn as u32);
            proof {
                lemma_pow2_pos(dn as nat);
            }
            t1 % pd == 0
        }
    }
}

/// `multipleOf`: for a divisor written as a floating-point value, the
/// binary64 quotient of the two binary64 values has no fractional part; for
/// an integer divisor, the exact remainder is zero. Either way the only
/// multiple of zero is zero.
pub open spec fn multiple_of_holds(a: JsonNumber, b: JsonNumber) -> bool {
    if b.binary64 {
        let a1 = rounded_to_binary64(a);
        let b1 = rounded_to_binary64(b);
        if b1.mantissa == 0 {
            a1.mantissa == 0
        } else if a1.mantissa == 0 {
            true
        } else {
            binary64_quotient_is_integral(a1, b1)
        }
    } else {
        num_is_multiple(a, b)
    }
}

/// `2^0` is one.
proof fn lemma_pow2_zero_is_one()
    ensures
        pow2(0) == 1,
{
    lemma2_to64();
}

/// `2^d` for `d < 64`.
fn pow2_below_64(d: u32) -> (r: u128)
    requires
        d < 64,
    ensures
        r == pow2(d as nat),
        r <= 0x8000_0000_0000_0000,
{
    proof {
        lemma2_to64();
        lemma2_to64_rest();
    }
    let mut p: u128 = 1;
    let mut i: u32 = 0;
    while i < d
        invariant
            i <= d < 64,
            p == pow2(i as nat),
            pow2(63) == 0x8000_0000_0000_0000,
        decreases d - i,
    {
        proof {
            lemma_pow2_unfold((i + 1) as nat);
            if i + 1 < 63 {
                lemma_pow2_strictly_increases((i + 1) as nat, 63);
            }
        }
        p = p * 2;
        i = i + 1;
    }
    proof {
        if d < 63 {
            lemma_pow2_strictly_increases(d as nat, 63);
        }
    }
    p
}

/// Compares `hi · 2^d` with `lo`: negative, zero or positive.
fn compare_shifted(hi: u64, d: u32, lo: u64) -> (r: i8)
    ensures
        (r < 0) == (hi * pow2(d as nat) < lo),
        (r == 0) == (hi * pow2(d as nat) == lo),
        (r > 0) == (hi * pow2(d as nat) > lo),
{
    if hi == 0 {
        proof {
            assert(hi * pow2(d as nat) == 0);
        }
        if lo == 0 {
            0
        } else {
            -1
        }
    } else if d >= 64 {
        proof {
            lemma2_to64();
            if d > 64 {
                lemma_pow2_strictly_increases(64, d as nat);
            }
            assert(hi * pow2(d as nat) >= pow2(d as nat)) by (nonlinear_arith)
                requires
                    hi >= 1,
            ;
        }
        1
    } else {
        let p = pow2_below_64(d);
        proof {
            assert(hi * p <= 0xffff_ffff_ffff_ffff * 0x8000_0000_0000_0000) by (nonlinear_arith)
                requires
                    hi <= 0xffff_ffff_ffff_ffff,
                    p <= 0x8000_0000_0000_0000,
            ;
        }
        let big: u128 = hi as u128 * p;
        if big < lo as u128 {
            -1
        } else if big == lo as u128 {
            0
        } else {
            1
        }
    }
}

impl JsonNumber {
    /// The number `n`.
    pub fn from_u64(n: u64) -> (r: JsonNumber)
        ensures
            r == (JsonNumber { negative: false, mantissa: n, exponent: 0, binary64: false }),
    {
        JsonNumber { negative: false, mantissa: n, exponent: 0, binary64: false }
    }

    /// The number `n`.
    pub fn from_i64(n: i64) -> (r: JsonNumber)
        ensures
            r.negative == (n < 0),
            r.mantissa == if n < 0 { -n } else { n as int },
            r.exponent == 0,
            !r.binary64,
            r.scaled_at(0) == n,
    {
        let wide: i128 = n as i128;
        let magnitude: u64 = if wide < 0 {
            (-wide) as u64
        } else {
            wide as u64
        };
        let r = JsonNumber { negative: wide < 0, mantissa: magnitude, exponent: 0, binary64: false };
        proof {
            lemma_pow2_zero_is_one();
            assert(r.mantissa * pow2(0) == r.mantissa);
        }
        r
    }

    /// The finite binary64 value whose encoding is `bits`.
    pub fn from_binary64_bits(bits: u64) -> (r: JsonNumber)
        requires
            (bits / 0x10_0000_0000_0000) % 0x800 != 0x7ff,
        ensures
            r == decode_binary64(bits),
    {
        let field: u64 = (bits / 0x10_0000_0000_0000) % 0x800;
        let fraction: u64 = bits % 0x10_0000_0000_0000;
        let negative = bits / 0x8000_0000_0000_0000 == 1;
        if field == 0 {
            JsonNumber { negative, mantissa: fraction, exponent: -1074, binary64: true }
        } else {
            JsonNumber {
                negative,
                mantissa: fraction + 0x10_0000_0000_0000,
                exponent: (field as i16) - 1075,
                binary64: true,
            }
        }
    }

    /// True when the value has no fractional part.
    pub fn is_integral(&self) -> (r: bool)
        ensures
            r == self.spec_is_integral(),
    {
        if self.exponent >= 0 {
            true
        } else {
            let d: u32 = (-(self.exponent as i32)) as u32;
            if d >= 64 {
                proof {
                    lemma2_to64();
                    if d > 64 {
                        lemma_pow2_strictly_increases(64, d as nat);
                    }
                    vstd::arithmetic::div_mod::lemma_small_mod(
                        self.mantissa as nat,
                        pow2(d as nat),
                    );
                }
                self.mantissa == 0
            } else {
                let p = pow2_below_64(d);
                proof {
                    lemma_pow2_pos(d as nat);
                }
                (self.mantissa as u128) % p == 0
            }
        }
    }
}

impl JsonNumber {
    /// The number as binary64 holds it.
    pub fn round_to_binary64(&self) -> (r: JsonNumber)
        ensures
            r == rounded_to_binary64(*self),
    {
        let m: u64 = self.mantissa;
        let mut t: u64 = m;
        let mut k: u32 = 0;
        proof {
            lemma2_to64();
        }
        while t >= 0x20_0000_0000_0000
            invariant
                k <= 11,
                t == m as nat / pow2(k as nat),
                excess_bits(m as nat) == k + excess_bits(t as nat),
                pow2(11) == 2048,
            decreases t,
        {
            proof {
                if k == 11 {
                    assert(m as nat / 2048 < 0x20_0000_0000_0000);
                }
                lemma_pow2_pos(k as nat);
                lemma_pow2_unfold((k + 1) as nat);
                vstd::arithmetic::div_mod::lemma_div_denominator(m as int, pow2(k as nat) as int, 2);
                assert(pow2(k as nat) * 2 == pow2((k + 1) as nat)) by (nonlinear_arith)
                    requires
                        pow2((k + 1) as nat) == 2 * pow2(k as nat),
                ;
            }
            t = t / 2;
            k = k + 1;
        }
        if k == 0 {
            return *self;
        }
        if self.exponent as i32 + k as i32 > 0x7fff {
            return *self;
        }
        let p: u64 = pow2_below_64(k) as u64;
        proof {
            lemma_pow2_pos(k as nat);
        }
        let r: u64 = m % p;
        let half: u64 = p / 2;
        let q: u64 = if r > half || (r == half && t % 2 == 1) {
            t + 1
        } else {
            t
        };
        JsonNumber {
            negative: self.negative,
            mantissa: q,
            exponent: (self.exponent as i32 + k as i32) as i16,
            binary64: self.binary64,
        }
    }
}

/// The sign of a number's value: -1, 0 or 1.
fn sign_of(a: &JsonNumber) -> (r: i8)
    ensures
        -1 <= r <= 1,
        (r < 0) == (a.mantissa > 0 && a.negative),
        (r == 0) == (a.mantissa == 0),
        (r > 0) == (a.mantissa > 0 && !a.negative),
{
    if a.mantissa == 0 {
        0
    } else if a.negative {
        -1
    } else {
        1
    }
}

/// Compares the absolute values of two numbers: negative, zero or positive.
fn compare_magnitudes(a: &JsonNumber, b: &JsonNumber) -> (r: i8)
    ensures
        ({
            let e = common_exponent(*a, *b);
            &&& (r < 0) == (a.magnitude_at(e) < b.magnitude_at(e))
            &&& (r == 0) == (a.magnitude_at(e) == b.magnitude_at(e))
            &&& (r > 0) == (a.magnitude_at(e) > b.magnitude_at(e))
        }),
{
    proof {
        lemma_pow2_zero_is_one();
        assert(a.mantissa * pow2(0) == a.mantissa);
        assert(b.mantissa * pow2(0) == b.mantissa);
    }
    if a.exponent >= b.exponent {
        let d: u32 = (a.exponent as i32 - b.exponent as i32) as u32;
        compare_shifted(a.mantissa, d, b.mantissa)
    } else {
        let d: u32 = (b.exponent as i32 - a.exponent as i32) as u32;
        let c = compare_shifted(b.mantissa, d, a.mantissa);
        if c < 0 {
            1
        } else if c == 0 {
            0
        } else {
            -1
        }
    }
}

/// Positive magnitudes at any exponent at or below the number's own.
proof fn lemma_magnitude_positive(a: JsonNumber, e: int)
    requires
        e <= a.exponent,
    ensures
        (a.magnitude_at(e) > 0) == (a.mantissa > 0),
{
    lemma_pow2_pos((a.exponent - e) as nat);
    if a.mantissa == 0 {
        assert(a.mantissa * pow2((a.exponent - e) as nat) == 0);
    } else {
        assert(a.mantissa * pow2((a.exponent - e) as nat) > 0) by (nonlinear_arith)
            requires
                a.mantissa > 0,
                pow2((a.exponent - e) as nat) > 0,
        ;
    }
}

/// Compares two numbers by value: negative, zero or positive.
pub fn compare_numbers(a: &JsonNumber, b: &JsonNumber) -> (r: i8)
    ensures
        (r < 0) == (scaled_difference(*a, *b) < 0),
        (r == 0) == (scaled_difference(*a, *b) == 0),
        (r > 0) == (scaled_difference(*a, *b) > 0),
{
    let ghost e = common_exponent(*a, *b);
    proof {
        lemma_magnitude_positive(*a, e);
        lemma_magnitude_positive(*b, e);
        assert(scaled_difference(*a, *b) == a.scaled_at(e) - b.scaled_at(e));
        assert(a.mantissa == 0 ==> a.scaled_at(e) == 0);
        assert(a.mantissa > 0 && a.negative ==> a.scaled_at(e) < 0);
        assert(a.mantissa > 0 && !a.negative ==> a.scaled_at(e) > 0);
        assert(b.mantissa == 0 ==> b.scaled_at(e) == 0);
        assert(b.mantissa > 0 && b.negative ==> b.scaled_at(e) < 0);
        assert(b.mantissa > 0 && !b.negative ==> b.scaled_at(e) > 0);
    }
    let sa = sign_of(a);
    let sb = sign_of(b);
    let ghost d = scaled_difference(*a, *b);
    if sa < sb {
        assert(d < 0);
        -1
    } else if sa > sb {
        assert(d > 0);
        1
    } else if sa == 0 {
        assert(d == 0);
        0
    } else {
        let c = compare_magnitudes(a, b);
        assert(sa > 0 ==> d == a.magnitude_at(e) - b.magnitude_at(e));
        assert(sa < 0 ==> d == b.magnitude_at(e) - a.magnitude_at(e));
        if sa > 0 {
            c
        } else if c < 0 {
            1
        } else if c == 0 {
            0
        } else {
            -1
        }
    }
}

/// Whether `a` is an integer multiple of `b`.
pub fn is_multiple_of(a: &JsonNumber, b: &JsonNumber) -> (r: bool)
    ensures
        r == num_is_multiple(*a, *b),
{
    let ghost e = common_exponent(*a, *b);
    proof {
        lemma_magnitude_positive(*a, e);
        lemma_magnitude_positive(*b, e);
        lemma_pow2_zero_is_one();
        assert(a.mantissa * pow2(0) == a.mantissa);
        assert(b.mantissa * pow2(0) == b.mantissa);
    }
    if b.mantissa == 0 {
        a.mantissa == 0
    } else if a.mantissa == 0 {
        proof {
            vstd::arithmetic::div_mod::lemma_small_mod(0, b.magnitude_at(e));
        }
        true
    } else if a.exponent >= b.exponent {
        let d: u32 = (a.exponent as i32 - b.exponent as i32) as u32;
        let m: u128 = b.mantissa as u128;
        let mut rem: u128 = (a.mantissa as u128) % m;
        let mut i: u32 = 0;
        while i < d
            invariant
                i <= d,
                m == b.mantissa,
                m > 0,
                rem < m,
                rem == (a.mantissa * pow2(i as nat)) % (m as int),
            decreases d - i,
        {
            proof {
                let x = a.mantissa * pow2(i as nat);
                lemma_pow2_unfold((i + 1) as nat);
                assert(a.mantissa * pow2((i + 1) as nat) == 2 * x) by (nonlinear_arith)
                    requires
                        pow2((i + 1) as nat) == 2 * pow2(i as nat),
                        x == a.mantissa * pow2(i as nat),
                ;
                vstd::arithmetic::div_mod::lemma_mul_mod_noop_right(2, x, m as int);
            }
            rem = (rem * 2) % m;
            i = i + 1;
        }
        rem == 0
    } else {
        let d: u32 = (b.exponent as i32 - a.exponent as i32) as u32;
        if d >= 64 {
            proof {
                lemma2_to64();
                if d > 64 {
                    lemma_pow2_strictly_increases(64, d as nat);
                }
                assert(b.mantissa * pow2(d as nat) >= pow2(d as nat)) by (nonlinear_arith)
                    requires
                        b.mantissa >= 1,
                ;
                vstd::arithmetic::div_mod::lemma_small_mod(
                    a.mantissa as nat,
                    b.magnitude_at(e),
                );
            }
            false
        } else {
            let p = pow2_below_64(d);
            proof {
                assert(b.mantissa * p <= 0xffff_ffff_ffff_ffff * 0x8000_0000_0000_0000)
                    by (nonlinear_arith)
                    requires
                        b.mantissa <= 0xffff_ffff_ffff_ffff,
                        p <= 0x8000_0000_0000_0000,
                ;
            }
            let divisor: u128 = b.mantissa as u128 * p;
            (a.mantissa as u128) % divisor == 0
        }
    }
}

/// Whether `a` passes `multipleOf` with divisor `b`.
pub fn multiple_of(a: &JsonNumber, b: &JsonNumber) -> (r: bool)
    ensures
        r == multiple_of_holds(*a, *b),
{
    if b.binary64 {
        let a1 = a.round_to_binary64();
        let b1 = b.round_to_binary64();
        if b1.mantissa == 0 {
            a1.mantissa == 0
        } else if a1.mantissa == 0 {
            true
        } else {
            binary64_quotient_integral(&a1, &b1)
        }
    } else {
        is_multiple_of(a, b)
    }
}

} // verus!

use vstd::prelude::*;

verus! {

/// Scale of a fixed-point value: a raw integer `r` stands for `r / FX_SCALE`.
pub const FX_SCALE: i64 = 1048576;

/// Largest raw magnitude accepted for interpolation endpoints.
pub const FX_RAW_MAX: i64 = 35184372088832;

/// Largest number of integer steps one interpolation may span.
pub const STEP_MAX: i64 = 33554432;

/// Largest numerator magnitude a well-formed rational may hold.
pub const FRAC_NUM_MAX: i128 = 1267650600228229401496703205376;

/// Largest denominator a well-formed rational may hold.
pub const FRAC_DEN_MAX: i64 = 67108864;

/// `a/b <= c/d` for rationals given as numerator/denominator pairs with
/// positive denominators.
pub open spec fn rat_le(an: int, ad: int, bn: int, bd: int) -> bool {
    an * bd <= bn * ad
}

/// `a/b < c/d` for rationals with positive denominators.
pub open spec fn rat_lt(an: int, ad: int, bn: int, bd: int) -> bool {
    an * bd < bn * ad
}

/// `a/b == c/d` for rationals with positive denominators.
pub open spec fn rat_eq(an: int, ad: int, bn: int, bd: int) -> bool {
    an * bd == bn * ad
}

/// Division truncating toward zero (the behaviour of `/` on machine
/// integers), for a positive divisor.
pub open spec fn div_trunc(n: int, d: int) -> int {
    if n >= 0 {
        n / d
    } else {
        -((-n) / d)
    }
}

/// A fixed-point scalar: the value `raw / FX_SCALE`.
#[derive(Clone, Copy, Debug, PartialEq, Eq, Structural)]
pub struct Fx {
    pub raw: i64,
}

impl Fx {
    /// The raw magnitude is small enough to be an interpolation endpoint.
    pub open spec fn bounded(self) -> bool {
        -FX_RAW_MAX <= self.raw <= FX_RAW_MAX
    }

    /// The fixed-point value of a small integer.
    pub fn from_int(v: i64) -> (r: Fx)
        requires
            -33554432 <= v <= 33554432,
        ensures
            r.raw == v * FX_SCALE,
            r.bounded(),
    {
        Fx { raw: v * FX_SCALE }
    }

    /// Zero.
    pub fn zero() -> (r: Fx)
        ensures
            r.raw == 0,
            r.bounded(),
    {
        Fx { raw: 0 }
    }
}

/// An exact rational number `num / den`; `den` is positive and both parts
/// stay within fixed caps so that products of crossed terms fit in 128 bits.
#[derive(Clone, Copy, Debug, PartialEq, Eq, Structural)]
pub struct Frac {
    pub num: i128,
    pub den: i64,
}

impl Frac {
    /// Well-formedness: positive, capped denominator; capped numerator.
    pub open spec fn wf(self) -> bool {
        &&& 0 < self.den <= FRAC_DEN_MAX
        &&& -FRAC_NUM_MAX <= self.num <= FRAC_NUM_MAX
    }

    /// The rational holding an integer value.
    pub fn from_int(v: i64) -> (r: Frac)
        ensures
            r.num == v as int,
            r.den == 1,
            r.wf(),
    {
        Frac { num: v as i128, den: 1 }
    }

    /// The value lies within the magnitude accepted for interpolation
    /// endpoints.
    pub open spec fn in_raw_range(self) -> bool {
        -(FX_RAW_MAX as int) * self.den <= self.num <= (FX_RAW_MAX as int) * self.den
    }

    /// Truncates toward zero, as casting the real value to an integer would.
    pub fn trunc(self) -> (r: i64)
        requires
            self.wf(),
            self.in_raw_range(),
        ensures
            r == div_trunc(self.num as int, self.den as int),
            -FX_RAW_MAX <= r <= FX_RAW_MAX,
    {
        let n = self.num;
        let d = self.den as u128;
        if n >= 0 {
            let q = (n as u128) / d;
            proof {
                lemma_div_quotient_bound(n as int, self.den as int, FX_RAW_MAX as int);
            }
            q as i64
        } else {
            let m = (-n) as u128;
            let q = m / d;
            proof {
                lemma_div_quotient_bound((-n) as int, self.den as int, FX_RAW_MAX as int);
            }
            let qi = q as i64;
            -qi
        }
    }

    /// Exact comparison: whether this rational is strictly below the other.
    pub fn lt(self, other: Frac) -> (r: bool)
        requires
            self.wf(),
            other.wf(),
        ensures
            r == rat_lt(self.num as int, self.den as int, other.num as int, other.den as int),
    {
        proof {
            lemma_cross_mul_in_range(self.num as int, other.den as int);
            lemma_cross_mul_in_range(other.num as int, self.den as int);
        }
        self.num * (other.den as i128) < other.num * (self.den as i128)
    }

    /// Exact comparison: whether this rational is at most the other.
    pub fn le(self, other: Frac) -> (r: bool)
        requires
            self.wf(),
            other.wf(),
        ensures
            r == rat_le(self.num as int, self.den as int, other.num as int, other.den as int),
    {
        proof {
            lemma_cross_mul_in_range(self.num as int, other.den as int);
            lemma_cross_mul_in_range(other.num as int, self.den as int);
        }
        self.num * (other.den as i128) <= other.num * (self.den as i128)
    }
}

/// A crossed product of a capped numerator and a capped denominator fits in
/// 128 bits.
proof fn lemma_cross_mul_in_range(n: int, d: int)
    requires
        -FRAC_NUM_MAX <= n <= FRAC_NUM_MAX,
        -FRAC_DEN_MAX <= d <= FRAC_DEN_MAX,
    ensures
        i128::MIN <= n * d <= i128::MAX,
{
    assert(n * d <= FRAC_NUM_MAX * FRAC_DEN_MAX && -(FRAC_NUM_MAX * FRAC_DEN_MAX) <= n * d)
        by (nonlinear_arith)
        requires
            -FRAC_NUM_MAX <= n <= FRAC_NUM_MAX,
            -FRAC_DEN_MAX <= d <= FRAC_DEN_MAX,
    ;
}

/// Multiplying within nonnegative bounds stays within the bounds' product.
pub proof fn lemma_mul_le(a: int, b: int, ca: int, cb: int)
    requires
        0 <= a <= ca,
        0 <= b <= cb,
    ensures
        0 <= a * b <= ca * cb,
{
    assert(0 <= a * b <= ca * cb) by (nonlinear_arith)
        requires
            0 <= a <= ca,
            0 <= b <= cb,
    ;
}

/// A product of two factors bounded in magnitude is bounded by the product
/// of the bounds.
pub proof fn lemma_mul_abs_le(a: int, b: int, ca: int, cb: int)
    requires
        -ca <= a <= ca,
        -cb <= b <= cb,
        0 <= ca,
        0 <= cb,
    ensures
        -(ca * cb) <= a * b <= ca * cb,
{
    assert(-(ca * cb) <= a * b <= ca * cb) by (nonlinear_arith)
        requires
            -ca <= a <= ca,
            -cb <= b <= cb,
            0 <= ca,
            0 <= cb,
    ;
}

/// For `0 <= n <= bound * d` with `d > 0`, the quotient `n / d` is between
/// `0` and `bound`.
pub proof fn lemma_div_quotient_bound(n: int, d: int, bound: int)
    requires
        d > 0,
        0 <= n <= bound * d,
        bound >= 0,
    ensures
        0 <= n / d <= bound,
{
    assert(0 <= n / d <= bound) by (nonlinear_arith)
        requires
            d > 0,
            0 <= n <= bound * d,
            bound >= 0,
    ;
}

/// Truncation toward zero never moves a value by a whole unit: `q * d` stays
/// within `d - 1` of `n`.
pub proof fn lemma_div_trunc_close(n: int, d: int)
    requires
        d > 0,
    ensures
        div_trunc(n, d) * d <= n + d - 1,
        n - d + 1 <= div_trunc(n, d) * d,
{
    if n >= 0 {
        assert((n / d) * d <= n && n < (n / d) * d + d) by (nonlinear_arith)
            requires
                d > 0,
                n >= 0,
        ;
    } else {
        let m = -n;
        assert((m / d) * d <= m && m < (m / d) * d + d) by (nonlinear_arith)
            requires
                d > 0,
                m > 0,
        ;
        assert(div_trunc(n, d) == -(m / d));
        assert((-(m / d)) * d == -((m / d) * d)) by (nonlinear_arith);
    }
}

/// Truncation toward zero is weakly monotone: if `a/b <= c/d` then
/// `trunc(a/b) <= trunc(c/d)`.
pub proof fn lemma_div_trunc_mono(an: int, ad: int, bn: int, bd: int)
    requires
        ad > 0,
        bd > 0,
        rat_le(an, ad, bn, bd),
    ensures
        div_trunc(an, ad) <= div_trunc(bn, bd),
{
    let qa = div_trunc(an, ad);
    let qb = div_trunc(bn, bd);
    lemma_div_trunc_close(an, ad);
    lemma_div_trunc_close(bn, bd);
    if qa > qb {
        // qa >= qb + 1; derive a contradiction with an * bd <= bn * ad.
        if an >= 0 {
            assert(qa * ad <= an) by (nonlinear_arith)
                requires
                    ad > 0,
                    an >= 0,
                    qa == an / ad,
            ;
            if bn >= 0 {
                assert(bn < (qb + 1) * bd) by (nonlinear_arith)
                    requires
                        bd > 0,
                        bn >= 0,
                        qb == bn / bd,
                ;
                assert(false) by (nonlinear_arith)
                    requires
                        ad > 0,
                        bd > 0,
                        qa * ad <= an,
                        bn < (qb + 1) * bd,
                        qb + 1 <= qa,
                        an * bd <= bn * ad,
                ;
            } else {
                // bn < 0 and an >= 0 contradicts an/ad <= bn/bd.
                assert(false) by (nonlinear_arith)
                    requires
                        ad > 0,
                        bd > 0,
                        an >= 0,
                        bn < 0,
                        an * bd <= bn * ad,
                ;
            }
        } else {
            let ma = -an;
            assert(ma - ad < (ma / ad) * ad) by (nonlinear_arith)
                requires
                    ad > 0,
                    ma >= 0,
            ;
            // so an + ad > qa * ad, i.e. an > (qa - 1) * ad
            assert(an > (qa - 1) * ad) by (nonlinear_arith)
                requires
                    qa == -(((-an)) / ad),
                    (-an) - ad < (((-an)) / ad) * ad,
            ;
            if bn >= 0 {
                // qb >= 0 > qa - 1 ... qa <= 0, qb >= 0, but qa > qb: impossible
                assert(qb >= 0) by (nonlinear_arith)
                    requires
                        bd > 0,
                        bn >= 0,
                        qb == bn / bd,
                ;
                assert(qa <= 0) by (nonlinear_arith)
                    requires
                        ad > 0,
                        an < 0,
                        qa == -(((-an)) / ad),
                ;
            } else {
                let mb = -bn;
                assert((mb / bd) * bd <= mb) by (nonlinear_arith)
                    requires
                        bd > 0,
                        mb >= 0,
                ;
                assert(qb * bd >= bn) by (nonlinear_arith)
                    requires
                        qb == -(((-bn)) / bd),
                        (((-bn)) / bd) * bd <= (-bn),
                ;
                assert(false) by (nonlinear_arith)
                    requires
                        ad > 0,
                        bd > 0,
                        an > (qa - 1) * ad,
                        qb * bd >= bn,
                        qb + 1 <= qa,
                        an * bd <= bn * ad,
                ;
            }
        }
    }
}

/// Clamps a raw value into the representable fixed-point range: the
/// executable arithmetic saturates at the range's ends instead of
/// overflowing.
pub open spec fn clamp_raw(v: int) -> int {
    if v > FX_RAW_MAX {
        FX_RAW_MAX as int
    } else if v < -(FX_RAW_MAX as int) {
        -(FX_RAW_MAX as int)
    } else {
        v
    }
}

/// Fixed-point product: `a * b / FX_SCALE`, truncated toward zero, then
/// saturated.
pub open spec fn spec_fx_mul(a: int, b: int) -> int {
    clamp_raw(div_trunc(a * b, FX_SCALE as int))
}

/// Saturated fixed-point sum.
pub open spec fn spec_fx_add(a: int, b: int) -> int {
    clamp_raw(a + b)
}

/// Saturated fixed-point difference.
pub open spec fn spec_fx_sub(a: int, b: int) -> int {
    clamp_raw(a - b)
}

/// Fixed-point quotient: `a * FX_SCALE / b`, truncated toward zero, then
/// saturated.
pub open spec fn spec_fx_div(a: int, b: int) -> int {
    if b > 0 {
        clamp_raw(div_trunc(a * FX_SCALE, b))
    } else {
        clamp_raw(-div_trunc(a * FX_SCALE, -b))
    }
}

/// Signed division truncating toward zero, on 128-bit intermediates.
pub fn div_wide(n: i128, d: i128) -> (r: i128)
    requires
        d != 0,
        -0x40000000000000000000000000000000 < n < 0x40000000000000000000000000000000,
        -0x40000000000000000000000000000000 < d < 0x40000000000000000000000000000000,
    ensures
        d > 0 ==> r == div_trunc(n as int, d as int),
        d < 0 ==> r == -div_trunc(n as int, -(d as int)),
        -(if n < 0 { -(n as int) } else { n as int }) <= r <= (if n < 0 { -(n as int) } else { n as int }),
{
    let neg = (n < 0) != (d < 0);
    let na = if n < 0 {
        (-n) as u128
    } else {
        n as u128
    };
    let da = if d < 0 {
        (-d) as u128
    } else {
        d as u128
    };
    let q = na / da;
    proof {
        assert(q <= na) by (nonlinear_arith)
            requires
                da >= 1,
                q == na as int / da as int,
        ;
    }
    if neg {
        -(q as i128)
    } else {
        q as i128
    }
}

/// Saturates a 128-bit raw value into the fixed-point range.
fn clamp_exec(v: i128) -> (r: i64)
    ensures
        r == clamp_raw(v as int),
        -FX_RAW_MAX <= r <= FX_RAW_MAX,
{
    if v > FX_RAW_MAX as i128 {
        FX_RAW_MAX
    } else if v < -(FX_RAW_MAX as i128) {
        -FX_RAW_MAX
    } else {
        v as i64
    }
}

/// Fixed-point product, saturating: exact (`a * b / FX_SCALE`, truncated)
/// whenever the result is representable.
pub fn fx_mul(a: Fx, b: Fx) -> (r: Fx)
    requires
        a.bounded(),
        b.bounded(),
    ensures
        r.raw == spec_fx_mul(a.raw as int, b.raw as int),
        r.bounded(),
{
    proof {
        lemma_mul_abs_le(a.raw as int, b.raw as int, FX_RAW_MAX as int, FX_RAW_MAX as int);
    }
    let p = (a.raw as i128) * (b.raw as i128);
    let q = div_wide(p, FX_SCALE as i128);
    Fx { raw: clamp_exec(q) }
}

/// Saturating fixed-point sum.
pub fn fx_add(a: Fx, b: Fx) -> (r: Fx)
    requires
        a.bounded(),
        b.bounded(),
    ensures
        r.raw == spec_fx_add(a.raw as int, b.raw as int),
        r.bounded(),
{
    let s = (a.raw as i128) + (b.raw as i128);
    Fx { raw: clamp_exec(s) }
}

/// Saturating fixed-point difference.
pub fn fx_sub(a: Fx, b: Fx) -> (r: Fx)
    requires
        a.bounded(),
        b.bounded(),
    ensures
        r.raw == spec_fx_sub(a.raw as int, b.raw as int),
        r.bounded(),
{
    let s = (a.raw as i128) - (b.raw as i128);
    Fx { raw: clamp_exec(s) }
}

/// Negation (exact: the range is symmetric).
pub fn fx_neg(a: Fx) -> (r: Fx)
    requires
        a.bounded(),
    ensures
        r.raw == -a.raw,
        r.bounded(),
{
    Fx { raw: -a.raw }
}

/// Fixed-point quotient, saturating: exact (`a * FX_SCALE / b`, truncated)
/// whenever the result is representable.
pub fn fx_div(a: Fx, b: Fx) -> (r: Fx)
    requires
        a.bounded(),
        b.bounded(),
        b.raw != 0,
    ensures
        r.raw == spec_fx_div(a.raw as int, b.raw as int),
        r.bounded(),
{
    proof {
        lemma_mul_abs_le(a.raw as int, FX_SCALE as int, FX_RAW_MAX as int, FX_SCALE as int);
    }
    let p = (a.raw as i128) * (FX_SCALE as i128);
    let q = div_wide(p, b.raw as i128);
    Fx { raw: clamp_exec(q) }
}

/// A plain integer product, saturated into the fixed-point range.
pub fn int_mul_clamp(a: i64, b: i64) -> (r: i64)
    requires
        -FX_RAW_MAX <= a <= FX_RAW_MAX,
        -FX_RAW_MAX <= b <= FX_RAW_MAX,
    ensures
        r == clamp_raw(a * b),
        -FX_RAW_MAX <= r <= FX_RAW_MAX,
{
    proof {
        lemma_mul_abs_le(a as int, b as int, FX_RAW_MAX as int, FX_RAW_MAX as int);
    }
    let p = (a as i128) * (b as i128);
    clamp_exec(p)
}

/// A quotient bounded by a multiple of the divisor truncates to within the
/// multiplier.
pub proof fn lemma_div_trunc_bounded(num: int, den: int, m: int)
    requires
        den > 0,
        m >= 0,
        -m * den <= num <= m * den,
    ensures
        -m <= div_trunc(num, den) <= m,
{
    assert((-m * den) * den <= num * den && num * den <= (m * den) * den) by (nonlinear_arith)
        requires
            -m * den <= num <= m * den,
            den > 0,
    ;
    assert(rat_le(-m * den, den, num, den));
    assert(rat_le(num, den, m * den, den));
    lemma_div_trunc_mono(-m * den, den, num, den);
    lemma_div_trunc_mono(num, den, m * den, den);
    if m >= 0 {
        assert((m * den) / den == m) by (nonlinear_arith)
            requires
                den > 0,
                m >= 0,
        ;
        assert(div_trunc(m * den, den) == m || m == 0) by {
            if m > 0 {
                assert(m * den > 0) by (nonlinear_arith)
                    requires
                        m > 0,
                        den > 0,
                ;
            } else {
                assert(m * den == 0) by (nonlinear_arith)
                    requires
                        m == 0,
                ;
            }
        }
        assert(-(m * den) == (-m) * den) by (nonlinear_arith);
        if m > 0 {
            assert(m * den > 0) by (nonlinear_arith)
                requires
                    m > 0,
                    den > 0,
            ;
            assert(div_trunc(-m * den, den) == -(div_trunc(m * den, den)));
        } else {
            assert(m * den == 0) by (nonlinear_arith)
                requires
                    m == 0,
            ;
        }
    }
}

} // verus!

//! A fixed-point scalar: 32 integer bits and 32 fractional bits, saturating.

use vstd::prelude::*;
use crate::scalar::{unit_laws_hold, Scalar};

verus! {

/// The raw value that stands for one: two to the power of the fractional bits.
pub const SCALE: i64 = 0x1_0000_0000;

/// A number `raw / SCALE`. Results that do not fit are held at the nearest
/// value that does; results that fall between two values go to the lower one.
#[derive(Clone, Copy, Debug, PartialEq, Eq)]
pub struct Fixed {
    pub raw: i64,
}

/// The nearest `i64` to `x`.
pub open spec fn clamp(x: int) -> i64 {
    if x > i64::MAX {
        i64::MAX
    } else if x < i64::MIN {
        i64::MIN
    } else {
        x as i64
    }
}

/// `r` is the integer square root of `x`: the largest integer whose square
/// does not exceed `x`.
pub open spec fn is_isqrt(x: int, r: int) -> bool {
    0 <= r && r * r <= x < (r + 1) * (r + 1)
}

/// The integer square root of `x`, for `x` not negative.
pub open spec fn isqrt(x: int) -> int {
    choose|r: int| is_isqrt(x, r)
}

/// A number has at most one integer square root.
pub proof fn lemma_isqrt_unique(x: int, r: int)
    requires
        is_isqrt(x, r),
    ensures
        isqrt(x) == r,
{
    let s = isqrt(x);
    assert(is_isqrt(x, s));
    if s < r {
        assert((s + 1) * (s + 1) <= r * r) by (nonlinear_arith)
            requires
                0 <= s,
                s + 1 <= r,
        ;
    } else if r < s {
        assert((r + 1) * (r + 1) <= s * s) by (nonlinear_arith)
            requires
                0 <= r,
                r + 1 <= s,
        ;
    }
}

/// Computes [`clamp`].
fn clamp_wide(x: i128) -> (r: i64)
    ensures
        r == clamp(x as int),
{
    if x > i64::MAX as i128 {
        i64::MAX
    } else if x < i64::MIN as i128 {
        i64::MIN
    } else {
        x as i64
    }
}

/// Computes [`isqrt`] of a number below two to the power of 96.
fn isqrt_wide(x: u128) -> (r: u128)
    requires
        x < 0x1_0000_0000_0000_0000_0000_0000,
    ensures
        r == isqrt(x as int),
        r < 0x1_0000_0000_0000,
{
    let mut lo: u128 = 0;
    let mut hi: u128 = 0x1_0000_0000_0000;
    assert(0x1_0000_0000_0000 * 0x1_0000_0000_0000 == 0x1_0000_0000_0000_0000_0000_0000int)
        by (nonlinear_arith);
    while hi - lo > 1
        invariant
            lo < hi <= 0x1_0000_0000_0000,
            lo * lo <= x < hi * hi,
        decreases hi - lo,
    {
        let mid = lo + (hi - lo) / 2;
        assert(mid * mid < 0x1_0000_0000_0000 * 0x1_0000_0000_0000) by (nonlinear_arith)
            requires
                0 <= mid < 0x1_0000_0000_0000,
        ;
        if mid * mid <= x {
            lo = mid;
        } else {
            hi = mid;
        }
    }
    proof {
        lemma_isqrt_unique(x as int, lo as int);
    }
    lo
}

impl Scalar for Fixed {
    open spec fn zero_spec() -> Self {
        Fixed { raw: 0 }
    }

    open spec fn one_spec() -> Self {
        Fixed { raw: SCALE }
    }

    open spec fn add_spec(self, rhs: Self) -> Self {
        Fixed { raw: clamp(self.raw + rhs.raw) }
    }

    open spec fn sub_spec(self, rhs: Self) -> Self {
        Fixed { raw: clamp(self.raw - rhs.raw) }
    }

    open spec fn mul_spec(self, rhs: Self) -> Self {
        Fixed { raw: clamp((self.raw * rhs.raw) / (SCALE as int)) }
    }

    /// Division by zero gives the largest value, or the smallest for a
    /// negative dividend.
    open spec fn div_spec(self, rhs: Self) -> Self {
        if rhs.raw == 0 {
            Fixed {
                raw: if self.raw < 0 {
                    i64::MIN
                } else {
                    i64::MAX
                },
            }
        } else {
            Fixed { raw: clamp((self.raw * SCALE) / (rhs.raw as int)) }
        }
    }

    /// The square root of a number that is not positive is zero.
    open spec fn sqrt_spec(self) -> Self {
        if self.raw <= 0 {
            Fixed { raw: 0 }
        } else {
            Fixed { raw: isqrt(self.raw * SCALE) as i64 }
        }
    }

    open spec fn neg_spec(self) -> Self {
        Fixed { raw: clamp(-self.raw) }
    }

    open spec fn abs_spec(self) -> Self {
        Fixed {
            raw: if self.raw < 0 {
                clamp(-self.raw)
            } else {
                self.raw
            },
        }
    }

    open spec fn positive_spec(self) -> bool {
        self.raw > 0
    }

    fn zero() -> (r: Self) {
        Fixed { raw: 0 }
    }

    fn one() -> (r: Self) {
        Fixed { raw: SCALE }
    }

    fn add(self, rhs: Self) -> (r: Self) {
        Fixed { raw: clamp_wide(self.raw as i128 + rhs.raw as i128) }
    }

    fn sub(self, rhs: Self) -> (r: Self) {
        Fixed { raw: clamp_wide(self.raw as i128 - rhs.raw as i128) }
    }

    fn mul(self, rhs: Self) -> (r: Self) {
        proof {
            lemma_product_bound(self.raw as int, rhs.raw as int);
        }
        let product = self.raw as i128 * rhs.raw as i128;
        match product.checked_div_euclid(SCALE as i128) {
            Some(q) => Fixed { raw: clamp_wide(q) },
            None => Fixed { raw: 0 },
        }
    }

    fn div(self, rhs: Self) -> (r: Self) {
        if rhs.raw == 0 {
            return Fixed {
                raw: if self.raw < 0 {
                    i64::MIN
                } else {
                    i64::MAX
                },
            };
        }
        proof {
            lemma_product_bound(self.raw as int, SCALE as int);
            lemma_quotient_bound(self.raw * SCALE, rhs.raw as int);
        }
        let scaled = self.raw as i128 * SCALE as i128;
        match scaled.checked_div_euclid(rhs.raw as i128) {
            Some(q) => Fixed { raw: clamp_wide(q) },
            None => Fixed { raw: 0 },
        }
    }

    fn sqrt(self) -> (r: Self) {
        if self.raw <= 0 {
            return Fixed { raw: 0 };
        }
        proof {
            lemma_product_bound(self.raw as int, SCALE as int);
        }
        let scaled = self.raw as u128 * SCALE as u128;
        Fixed { raw: isqrt_wide(scaled) as i64 }
    }

    fn neg(self) -> (r: Self) {
        Fixed { raw: clamp_wide(-(self.raw as i128)) }
    }

    fn abs(self) -> (r: Self) {
        if self.raw < 0 {
            Fixed { raw: clamp_wide(-(self.raw as i128)) }
        } else {
            self
        }
    }

    fn is_positive(self) -> (r: bool) {
        self.raw > 0
    }
}

/// The product of two 64-bit numbers stays well inside 128 bits.
proof fn lemma_product_bound(a: int, b: int)
    requires
        i64::MIN <= a <= i64::MAX,
        i64::MIN <= b <= i64::MAX,
    ensures
        -0x4000_0000_0000_0000_0000_0000_0000_0000 <= a * b
            <= 0x4000_0000_0000_0000_0000_0000_0000_0000,
        b == SCALE ==> -0x8000_0000_0000_0000_0000_0000 <= a * b < 0x8000_0000_0000_0000_0000_0000,
{
    assert(-0x4000_0000_0000_0000_0000_0000_0000_0000 <= a * b
        <= 0x4000_0000_0000_0000_0000_0000_0000_0000) by (nonlinear_arith)
        requires
            -0x8000_0000_0000_0000 <= a <= 0x8000_0000_0000_0000,
            -0x8000_0000_0000_0000 <= b <= 0x8000_0000_0000_0000,
    ;
}

/// A quotient is no larger in size than its dividend.
proof fn lemma_quotient_bound(n: int, d: int)
    requires
        d != 0,
    ensures
        n >= 0 ==> -n <= n / d <= n,
        n < 0 ==> n <= n / d <= -n,
{
    let q = n / d;
    let r = n % d;
    assert(n == q * d + r && 0 <= r && (d > 0 ==> r < d) && (d < 0 ==> r < -d)) by {
        vstd::arithmetic::div_mod::lemma_fundamental_div_mod(n, d);
        if d > 0 {
            vstd::arithmetic::div_mod::lemma_mod_bound(n, d);
        } else {
            assert(0 <= n % d < -d) by (nonlinear_arith)
                requires
                    d < 0,
            ;
        }
        assert(q * d == d * q) by (nonlinear_arith);
    }
    assert(n >= 0 ==> -n <= q <= n) by (nonlinear_arith)
        requires
            n == q * d + r,
            0 <= r,
            d != 0,
            d > 0 ==> r < d,
            d < 0 ==> r < -d,
    ;
    assert(n < 0 ==> n <= q <= -n) by (nonlinear_arith)
        requires
            n == q * d + r,
            0 <= r,
            d != 0,
            d > 0 ==> r < d,
            d < 0 ==> r < -d,
    ;
}

/// Zero and one act on every fixed-point number as they do in a ring.
pub proof fn lemma_fixed_unit_laws(x: Fixed)
    ensures
        unit_laws_hold(x),
{
    assert((x.raw * SCALE) / (SCALE as int) == x.raw) by (nonlinear_arith)
        requires
            SCALE == 0x1_0000_0000,
    ;
    assert(SCALE * x.raw == x.raw * SCALE) by (nonlinear_arith);
    assert(x.raw * 0 == 0 && 0 * x.raw == 0) by (nonlinear_arith);
    assert(0int / (SCALE as int) == 0);
}

} // verus!

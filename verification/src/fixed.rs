//! Fixed-point numbers.

use vstd::prelude::*;

use crate::samples::Sample;
use crate::scalar::Scalar;

verus! {

/// A number in steps of 1/65536, held at the ends of its range on overflow. The
/// ends stand for what is infinite.
#[derive(Clone, Copy, PartialEq, Eq, Structural, Debug)]
pub struct Fixed {
    /// The number of steps.
    pub steps: i64,
}

/// `v` moved into the range of `i64`.
pub open spec fn held(v: int) -> i64 {
    if v > i64::MAX {
        i64::MAX
    } else if v < i64::MIN {
        i64::MIN
    } else {
        v as i64
    }
}

fn hold(v: i128) -> (r: i64)
    ensures
        r == held(v as int),
{
    if v > 0x7fff_ffff_ffff_ffff_i128 {
        i64::MAX
    } else if v < -0x8000_0000_0000_0000_i128 {
        i64::MIN
    } else {
        v as i64
    }
}

/// The quotient rounded down, for a positive divisor.
fn floor_quotient(n: i128, d: i128) -> (r: i128)
    requires
        d > 0,
        n > i128::MIN,
    ensures
        r == n as int / d as int,
{
    if n >= 0 {
        n / d
    } else {
        let q: i128 = (-n) / d;
        let rest: i128 = (-n) % d;
        proof {
            lemma_negated_quotient(-n as int, d as int);
        }
        if rest == 0 {
            -q
        } else {
            -q - 1
        }
    }
}

proof fn lemma_negated_quotient(m: int, d: int)
    requires
        m > 0,
        d > 0,
    ensures
        m % d == 0 ==> (-m) / d == -(m / d),
        m % d != 0 ==> (-m) / d == -(m / d) - 1,
        0 <= m / d <= m,
{
    vstd::arithmetic::div_mod::lemma_fundamental_div_mod(m, d);
    vstd::arithmetic::div_mod::lemma_mod_bound(m, d);
    let q = m / d;
    let rest = m % d;
    assert(-m == d * (-q) - rest) by (nonlinear_arith)
        requires
            m == d * q + rest,
    ;
    assert(0 <= q <= m) by (nonlinear_arith)
        requires
            m == d * q + rest,
            0 <= rest < d,
            m > 0,
            d > 0,
    ;
    if rest == 0 {
        vstd::arithmetic::div_mod::lemma_fundamental_div_mod_converse(-m, d, -q, 0);
    } else {
        assert(-m == d * (-q - 1) + (d - rest)) by (nonlinear_arith)
            requires
                -m == d * (-q) - rest,
        ;
        vstd::arithmetic::div_mod::lemma_fundamental_div_mod_converse(-m, d, -q - 1, d - rest);
    }
}

/// `r` is the integer square root of `n`.
pub open spec fn is_root(r: int, n: int) -> bool {
    0 <= r && r * r <= n && n < (r + 1) * (r + 1)
}

/// The integer square root.
pub open spec fn integer_root(n: int) -> int {
    choose|r: int| is_root(r, n)
}

proof fn lemma_root_unique(a: int, b: int, n: int)
    requires
        is_root(a, n),
        is_root(b, n),
    ensures
        a == b,
{
    if a < b {
        assert((a + 1) * (a + 1) <= b * b) by (nonlinear_arith)
            requires
                0 <= a,
                a + 1 <= b,
        ;
    } else if b < a {
        assert((b + 1) * (b + 1) <= a * a) by (nonlinear_arith)
            requires
                0 <= b,
                b + 1 <= a,
        ;
    }
}

/// The integer square root of a number below 2^80, by bisection.
fn find_root(n: i128) -> (r: i128)
    requires
        0 <= n < 0x1_0000_0000_0000_0000_0000,
    ensures
        r == integer_root(n as int),
        0 <= r < 0x100_0000_0000,
{
    let mut lo: i128 = 0;
    let mut hi: i128 = 0x100_0000_0000;
    assert(0x100_0000_0000 * 0x100_0000_0000 == 0x1_0000_0000_0000_0000_0000int);
    while hi - lo > 1
        invariant
            0 <= lo < hi <= 0x100_0000_0000,
            lo * lo <= n,
            n < hi * hi,
        decreases hi - lo,
    {
        let mid: i128 = lo + (hi - lo) / 2;
        assert(0 <= mid * mid <= 0x1_0000_0000_0000_0000_0000) by (nonlinear_arith)
            requires
                0 <= mid <= 0x100_0000_0000,
        ;
        if mid * mid <= n {
            lo = mid;
        } else {
            hi = mid;
        }
    }
    proof {
        assert(is_root(lo as int, n as int));
        lemma_root_unique(lo as int, integer_root(n as int), n as int);
    }
    lo
}

/// The number `m` doubled `shift` times, or halved if that is negative. Doubling
/// stops beyond the range of `i64`.
pub open spec fn scaled(m: int, shift: int) -> int
    decreases
            if shift < 0 {
                -shift
            } else {
                shift
            },
{
    if shift == 0 || m > i64::MAX {
        m
    } else if shift > 0 {
        scaled(2 * m, shift - 1)
    } else {
        scaled(m / 2, shift + 1)
    }
}

fn scale(m: i128, shift: i32) -> (r: i128)
    requires
        0 <= m <= i64::MAX,
        -2000 <= shift <= 2000,
    ensures
        r == scaled(m as int, shift as int),
        0 <= r <= 2 * i64::MAX,
{
    let mut v: i128 = m;
    let mut s: i32 = shift;
    while s != 0 && v <= 0x7fff_ffff_ffff_ffff_i128
        invariant
            0 <= v <= 2 * i64::MAX,
            -2000 <= s <= 2000,
            scaled(m as int, shift as int) == scaled(v as int, s as int),
        decreases
                if s < 0 {
                    -s as int
                } else {
                    s as int
                },
    {
        if s > 0 {
            v = 2 * v;
            s = s - 1;
        } else {
            v = v / 2;
            s = s + 1;
        }
    }
    v
}

/// The steps nearest to zero of the number whose bits are a sign, an exponent
/// and a fraction of the given width. Infinity is beyond all numbers, and what
/// is not a number counts as zero.
pub open spec fn decoded(
    negative: bool,
    exponent: int,
    fraction: int,
    unit: int,
    top: int,
    bias: int,
) -> i64 {
    let size = if exponent == top {
        if fraction == 0 {
            i64::MAX + 1
        } else {
            0
        }
    } else if exponent == 0 {
        scaled(fraction, 17 - bias)
    } else {
        scaled(unit + fraction, exponent + 16 - bias)
    };
    held(
        if negative {
            -size
        } else {
            size
        },
    )
}

fn decode(negative: bool, exponent: i32, fraction: i128, unit: i128, top: i32, bias: i32) -> (r: i64)
    requires
        0 <= exponent <= top <= 2047,
        17 <= bias <= 1900,
        0 <= fraction < unit <= 0x10_0000_0000_0000,
        exponent + 16 - bias <= 2000,
        exponent + 16 - bias >= -2000,
    ensures
        r == decoded(
            negative,
            exponent as int,
            fraction as int,
            unit as int,
            top as int,
            bias as int,
        ),
{
    let size: i128 = if exponent == top {
        if fraction == 0 {
            0x8000_0000_0000_0000_i128
        } else {
            0
        }
    } else if exponent == 0 {
        scale(fraction, 17 - bias)
    } else {
        scale(unit + fraction, exponent + 16 - bias)
    };
    if negative {
        hold(-size)
    } else {
        hold(size)
    }
}

/// The steps of a pixel value.
pub open spec fn sample_steps(sample: Sample) -> i64 {
    match sample {
        Sample::Unsigned(v) => held(v * 65536),
        Sample::Signed(v) => held(v * 65536),
        Sample::Single(bits) => decoded(
            bits >= 0x8000_0000,
            (bits / 0x80_0000) as int % 0x100,
            bits as int % 0x80_0000,
            0x80_0000,
            0xff,
            150,
        ),
        Sample::Double(bits) => decoded(
            bits >= 0x8000_0000_0000_0000,
            (bits / 0x10_0000_0000_0000) as int % 0x800,
            bits as int % 0x10_0000_0000_0000,
            0x10_0000_0000_0000,
            0x7ff,
            1075,
        ),
    }
}

impl Fixed {
    /// The whole number `n`.
    pub fn whole(n: i32) -> (r: Fixed)
        ensures
            r.steps == n * 65536,
    {
        Fixed { steps: n as i64 * 65536 }
    }
}

impl Scalar for Fixed {
    open spec fn of_count_spec(n: usize) -> Self {
        Fixed { steps: held(n * 65536) }
    }

    open spec fn of_sample_spec(sample: Sample) -> Self {
        Fixed { steps: sample_steps(sample) }
    }

    open spec fn lowest_spec() -> Self {
        Fixed { steps: i64::MIN }
    }

    open spec fn highest_spec() -> Self {
        Fixed { steps: i64::MAX }
    }

    open spec fn hairline_spec() -> Self {
        Fixed { steps: 1 }
    }

    open spec fn plus_spec(self, rhs: Self) -> Self {
        Fixed { steps: held(self.steps + rhs.steps) }
    }

    open spec fn minus_spec(self, rhs: Self) -> Self {
        Fixed { steps: held(self.steps - rhs.steps) }
    }

    open spec fn times_spec(self, rhs: Self) -> Self {
        Fixed { steps: held((self.steps * rhs.steps) / 65536) }
    }

    open spec fn over_spec(self, rhs: Self) -> Self {
        let a = if self.steps < 0 {
            -self.steps
        } else {
            self.steps as int
        };
        let b = if rhs.steps < 0 {
            -rhs.steps
        } else {
            rhs.steps as int
        };
        Fixed {
            steps: if b == 0 {
                if self.steps > 0 {
                    i64::MAX
                } else if self.steps < 0 {
                    i64::MIN
                } else {
                    0
                }
            } else if (self.steps < 0) != (rhs.steps < 0) {
                held(-((a * 65536) / b))
            } else {
                held((a * 65536) / b)
            },
        }
    }

    open spec fn smaller_spec(self, rhs: Self) -> Self {
        if rhs.steps < self.steps {
            rhs
        } else {
            self
        }
    }

    open spec fn larger_spec(self, rhs: Self) -> Self {
        if rhs.steps > self.steps {
            rhs
        } else {
            self
        }
    }

    open spec fn hypot_spec(self, rhs: Self) -> Self {
        self.squared_spec().plus_spec(rhs.squared_spec()).root_spec()
    }

    open spec fn squared_spec(self) -> Self {
        self.times_spec(self)
    }

    open spec fn root_spec(self) -> Self {
        Fixed {
            steps: if self.steps <= 0 {
                0
            } else {
                held(integer_root(self.steps * 65536))
            },
        }
    }

    open spec fn magnitude_spec(self) -> Self {
        Fixed {
            steps: if self.steps < 0 {
                held(-self.steps)
            } else {
                self.steps
            },
        }
    }

    open spec fn floor_spec(self) -> Self {
        Fixed { steps: held((self.steps as int / 65536) * 65536) }
    }

    open spec fn ceil_spec(self) -> Self {
        Fixed { steps: held(-((-self.steps) / 65536) * 65536) }
    }

    open spec fn round_spec(self) -> Self {
        Fixed {
            steps: if self.steps < 0 {
                held(-((-self.steps + 32768) / 65536) * 65536)
            } else {
                held(((self.steps + 32768) / 65536) * 65536)
            },
        }
    }

    open spec fn clamped_spec(self, lo: Self, hi: Self) -> Self {
        if self.steps < lo.steps {
            lo
        } else if self.steps > hi.steps {
            hi
        } else {
            self
        }
    }

    open spec fn at_most_spec(self, rhs: Self) -> bool {
        self.steps <= rhs.steps
    }

    open spec fn below_spec(self, rhs: Self) -> bool {
        self.steps < rhs.steps
    }

    open spec fn finite_spec(self) -> bool {
        i64::MIN < self.steps < i64::MAX
    }

    open spec fn truncated_spec(self) -> i64 {
        if self.steps < 0 {
            held(-((-self.steps) / 65536))
        } else {
            held(self.steps as int / 65536)
        }
    }

    fn of_count(n: usize) -> (r: Self) {
        Fixed { steps: hold(n as i128 * 65536) }
    }

    fn of_sample(sample: Sample) -> (r: Self) {
        let steps: i64 = match sample {
            Sample::Unsigned(v) => hold(v as i128 * 65536),
            Sample::Signed(v) => hold(v as i128 * 65536),
            Sample::Single(bits) => decode(
                bits >= 0x8000_0000,
                ((bits / 0x80_0000) % 0x100) as i32,
                (bits % 0x80_0000) as i128,
                0x80_0000,
                0xff,
                150,
            ),
            Sample::Double(bits) => decode(
                bits >= 0x8000_0000_0000_0000,
                ((bits / 0x10_0000_0000_0000) % 0x800) as i32,
                (bits % 0x10_0000_0000_0000) as i128,
                0x10_0000_0000_0000,
                0x7ff,
                1075,
            ),
        };
        Fixed { steps }
    }

    fn lowest() -> (r: Self) {
        Fixed { steps: i64::MIN }
    }

    fn highest() -> (r: Self) {
        Fixed { steps: i64::MAX }
    }

    fn hairline() -> (r: Self) {
        Fixed { steps: 1 }
    }

    fn plus(self, rhs: Self) -> (r: Self) {
        Fixed { steps: hold(self.steps as i128 + rhs.steps as i128) }
    }

    fn minus(self, rhs: Self) -> (r: Self) {
        Fixed { steps: hold(self.steps as i128 - rhs.steps as i128) }
    }

    fn times(self, rhs: Self) -> (r: Self) {
        let a: i128 = self.steps as i128;
        let b: i128 = rhs.steps as i128;
        assert(-0x4000_0000_0000_0000_0000_0000_0000_0000 <= a * b
            <= 0x4000_0000_0000_0000_0000_0000_0000_0000) by (nonlinear_arith)
            requires
                -0x8000_0000_0000_0000 <= a <= 0x7fff_ffff_ffff_ffff,
                -0x8000_0000_0000_0000 <= b <= 0x7fff_ffff_ffff_ffff,
        ;
        Fixed { steps: hold(floor_quotient(a * b, 65536)) }
    }

    fn over(self, rhs: Self) -> (r: Self) {
        let a: i128 = if self.steps < 0 {
            -(self.steps as i128)
        } else {
            self.steps as i128
        };
        let b: i128 = if rhs.steps < 0 {
            -(rhs.steps as i128)
        } else {
            rhs.steps as i128
        };
        if b == 0 {
            if self.steps > 0 {
                Fixed { steps: i64::MAX }
            } else if self.steps < 0 {
                Fixed { steps: i64::MIN }
            } else {
                Fixed { steps: 0 }
            }
        } else {
            let q: i128 = floor_quotient(a * 65536, b);
            assert(0 <= q <= a * 65536) by {
                vstd::arithmetic::div_mod::lemma_div_pos_is_pos(a * 65536, b as int);
                vstd::arithmetic::div_mod::lemma_div_is_ordered_by_denominator(
                    a * 65536,
                    1,
                    b as int,
                );
            }
            if (self.steps < 0) != (rhs.steps < 0) {
                Fixed { steps: hold(-q) }
            } else {
                Fixed { steps: hold(q) }
            }
        }
    }

    fn smaller(self, rhs: Self) -> (r: Self) {
        if rhs.steps < self.steps {
            rhs
        } else {
            self
        }
    }

    fn larger(self, rhs: Self) -> (r: Self) {
        if rhs.steps > self.steps {
            rhs
        } else {
            self
        }
    }

    fn hypot(self, rhs: Self) -> (r: Self) {
        self.squared().plus(rhs.squared()).root()
    }

    fn squared(self) -> (r: Self) {
        self.times(self)
    }

    fn root(self) -> (r: Self) {
        if self.steps <= 0 {
            Fixed { steps: 0 }
        } else {
            Fixed { steps: hold(find_root(self.steps as i128 * 65536)) }
        }
    }

    fn magnitude(self) -> (r: Self) {
        if self.steps < 0 {
            Fixed { steps: hold(-(self.steps as i128)) }
        } else {
            self
        }
    }

    fn floor(self) -> (r: Self) {
        Fixed { steps: hold(floor_quotient(self.steps as i128, 65536) * 65536) }
    }

    fn ceil(self) -> (r: Self) {
        Fixed { steps: hold(-floor_quotient(-(self.steps as i128), 65536) * 65536) }
    }

    fn round(self) -> (r: Self) {
        if self.steps < 0 {
            Fixed { steps: hold(-floor_quotient(-(self.steps as i128) + 32768, 65536) * 65536) }
        } else {
            Fixed { steps: hold(floor_quotient(self.steps as i128 + 32768, 65536) * 65536) }
        }
    }

    fn clamped(self, lo: Self, hi: Self) -> (r: Self) {
        if self.steps < lo.steps {
            lo
        } else if self.steps > hi.steps {
            hi
        } else {
            self
        }
    }

    fn at_most(self, rhs: Self) -> (r: bool) {
        self.steps <= rhs.steps
    }

    fn below(self, rhs: Self) -> (r: bool) {
        self.steps < rhs.steps
    }

    fn finite(self) -> (r: bool) {
        i64::MIN < self.steps && self.steps < i64::MAX
    }

    fn truncated(self) -> (r: i64) {
        if self.steps < 0 {
            hold(-floor_quotient(-(self.steps as i128), 65536))
        } else {
            hold(floor_quotient(self.steps as i128, 65536))
        }
    }
}

} // verus!

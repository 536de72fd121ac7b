//! Depths of pixels, and the order in which they hide each other.
//!
//! A depth is either that of a pixel on which nothing has been drawn, or
//! an exact fraction; larger is nearer to the viewer. Fractions are
//! compared without multiplying them out, so that no size of numerator or
//! denominator overflows.

use vstd::prelude::*;

verus! {

/// The depth of what a pixel shows.
#[derive(Clone, Copy, Debug, PartialEq, Eq, Structural)]
pub enum Depth {
    /// Nothing has been drawn here: farther away than every drawn pixel.
    Empty,
    /// The depth `num / den`.
    At {
        /// The numerator.
        num: u128,
        /// The denominator, which is not zero.
        den: u128,
    },
}

/// Whether the fraction `a / b` is smaller than `c / d`, for positive
/// denominators.
pub open spec fn fraction_below(a: int, b: int, c: int, d: int) -> bool {
    a * d < c * b
}

impl Depth {
    /// Whether the depth is a proper value: its denominator is not zero.
    pub open spec fn valid(self) -> bool {
        match self {
            Depth::Empty => true,
            Depth::At { num, den } => den > 0,
        }
    }

    /// Whether `self` is farther away than `other`.
    pub open spec fn below(self, other: Depth) -> bool {
        match (self, other) {
            (_, Depth::Empty) => false,
            (Depth::Empty, Depth::At { .. }) => true,
            (Depth::At { num: a, den: b }, Depth::At { num: c, den: d }) => fraction_below(
                a as int,
                b as int,
                c as int,
                d as int,
            ),
        }
    }

    /// Whether `self` is farther away than `other`.
    pub fn is_below(&self, other: &Depth) -> (below: bool)
        requires
            self.valid(),
            other.valid(),
        ensures
            below == self.below(*other),
    {
        match (self, other) {
            (_, Depth::Empty) => false,
            (Depth::Empty, Depth::At { .. }) => true,
            (Depth::At { num: a, den: b }, Depth::At { num: c, den: d }) => fraction_less(
                *a,
                *b,
                *c,
                *d,
            ),
        }
    }
}

/// No depth is farther away than itself.
pub proof fn lemma_below_irreflexive(depth: Depth)
    ensures
        !depth.below(depth),
{
    if let Depth::At { num, den } = depth {
        assert(num * den == num * den);
    }
}

/// If the whole parts of two fractions differ, they decide the order.
proof fn lemma_whole_parts_decide(a: int, b: int, c: int, d: int)
    requires
        0 <= a,
        0 <= c,
        0 < b,
        0 < d,
        a / b != c / d,
    ensures
        fraction_below(a, b, c, d) == (a / b < c / d),
{
    let p = a / b;
    let q = c / d;
    assert(a == b * p + a % b && 0 <= a % b < b) by (nonlinear_arith)
        requires
            0 < b,
            p == a / b,
    ;
    assert(c == d * q + c % d && 0 <= c % d < d) by (nonlinear_arith)
        requires
            0 < d,
            q == c / d,
    ;
    let r = a % b;
    let s = c % d;
    if p < q {
        assert(a * d < c * b) by (nonlinear_arith)
            requires
                a == b * p + r,
                c == d * q + s,
                0 <= r < b,
                0 <= s < d,
                p + 1 <= q,
                0 < b,
                0 < d,
        {
            assert(b * d * (p + 1) <= b * d * q);
            assert(r * d < b * d);
            assert(0 <= s * b);
        }
    } else {
        assert(a * d >= c * b) by (nonlinear_arith)
            requires
                a == b * p + r,
                c == d * q + s,
                0 <= r < b,
                0 <= s < d,
                q + 1 <= p,
                0 < b,
                0 < d,
        {
            assert(b * d * (q + 1) <= b * d * p);
            assert(s * b < b * d);
            assert(0 <= r * d);
        }
    }
}

/// If the whole parts of two fractions agree, the remainders decide the
/// order.
proof fn lemma_remainders_decide(a: int, b: int, c: int, d: int)
    requires
        0 <= a,
        0 <= c,
        0 < b,
        0 < d,
        a / b == c / d,
    ensures
        fraction_below(a, b, c, d) == fraction_below(a % b, b, c % d, d),
        fraction_below(a, b, c, d) == fraction_below(d, c % d, b, a % b),
{
    let q = a / b;
    let r = a % b;
    let s = c % d;
    assert(a == b * q + r) by (nonlinear_arith)
        requires
            0 < b,
            q == a / b,
            r == a % b,
    ;
    assert(c == d * q + s) by (nonlinear_arith)
        requires
            0 < d,
            q == c / d,
            s == c % d,
    ;
    assert(a * d - c * b == r * d - s * b) by (nonlinear_arith)
        requires
            a == b * q + r,
            c == d * q + s,
    ;
    assert(d * r == r * d && b * s == s * b) by (nonlinear_arith);
}

/// Whether `a / b < c / d`. The fractions are compared by their whole
/// parts and then, turned upside down, by their remainders, as in Euclid's
/// algorithm.
pub fn fraction_less(a: u128, b: u128, c: u128, d: u128) -> (less: bool)
    requires
        b > 0,
        d > 0,
    ensures
        less == fraction_below(a as int, b as int, c as int, d as int),
{
    let mut p = a;
    let mut q = b;
    let mut r = c;
    let mut s = d;
    loop
        invariant
            q > 0,
            s > 0,
            fraction_below(a as int, b as int, c as int, d as int) == fraction_below(
                p as int,
                q as int,
                r as int,
                s as int,
            ),
        decreases q + s,
    {
        let whole_left = p / q;
        let whole_right = r / s;
        proof {
            if whole_left != whole_right {
                lemma_whole_parts_decide(p as int, q as int, r as int, s as int);
            } else {
                lemma_remainders_decide(p as int, q as int, r as int, s as int);
            }
        }
        if whole_left != whole_right {
            return whole_left < whole_right;
        }
        let rest_left = p % q;
        let rest_right = r % s;
        if rest_right == 0 {
            assert(!(rest_left * s < 0 * q)) by (nonlinear_arith)
                requires
                    rest_left >= 0,
                    s > 0,
            ;
            return false;
        }
        if rest_left == 0 {
            assert(0 * s < rest_right * q) by (nonlinear_arith)
                requires
                    rest_right > 0,
                    q > 0,
            ;
            return true;
        }
        p = s;
        r = q;
        q = rest_right;
        s = rest_left;
    }
}

} // verus!

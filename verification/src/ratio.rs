//! Exact rational scalars.
//!
//! Every numeric value the library computes with is a fraction
//! `num / den` of two `i64`s with a positive denominator.  The spec
//! level models a rational as a pair `(int, int)`; the `q_*` spec
//! functions give the textbook fraction arithmetic on such pairs, and
//! the `qc_*` spec functions the same arithmetic brought to canonical
//! form by `q_norm` (both components divided by their greatest common
//! divisor) and restricted to results whose components still fit in
//! `i64` (`None` otherwise).  The executable operations return exactly
//! what the `qc_*` functions say.

use vstd::prelude::*;
use vstd::arithmetic::div_mod::{
    lemma_basic_div, lemma_div_by_self, lemma_fundamental_div_mod, lemma_mod_bound,
    lemma_mod_multiples_basic, lemma_mod_self_0, lemma_small_mod,
};

verus! {

/// An exact rational number `num / den`.  Well-formed when `den > 0`.
#[derive(Clone, Copy, Debug, PartialEq, Eq, Structural)]
pub struct Ratio {
    pub num: i64,
    pub den: i64,
}

impl View for Ratio {
    type V = (int, int);

    open spec fn view(&self) -> (int, int) {
        (self.num as int, self.den as int)
    }
}

/// The pair denotes a rational: its denominator is positive.
pub open spec fn q_wf(a: (int, int)) -> bool {
    a.1 > 0
}

/// The integer `n` as a rational pair.
pub open spec fn q_int(n: int) -> (int, int) {
    (n, 1)
}

pub open spec fn q_zero() -> (int, int) {
    (0, 1)
}

pub open spec fn q_one() -> (int, int) {
    (1, 1)
}

/// Fraction addition, without reduction.
pub open spec fn q_add(a: (int, int), b: (int, int)) -> (int, int) {
    (a.0 * b.1 + b.0 * a.1, a.1 * b.1)
}

/// Fraction subtraction, without reduction.
pub open spec fn q_sub(a: (int, int), b: (int, int)) -> (int, int) {
    (a.0 * b.1 - b.0 * a.1, a.1 * b.1)
}

/// Fraction multiplication, without reduction.
pub open spec fn q_mul(a: (int, int), b: (int, int)) -> (int, int) {
    (a.0 * b.0, a.1 * b.1)
}

pub open spec fn q_neg(a: (int, int)) -> (int, int) {
    (-a.0, a.1)
}

/// `a <= b` as rationals; sound when both denominators are positive.
pub open spec fn q_le(a: (int, int), b: (int, int)) -> bool {
    a.0 * b.1 <= b.0 * a.1
}

/// `a < b` as rationals; sound when both denominators are positive.
pub open spec fn q_lt(a: (int, int), b: (int, int)) -> bool {
    a.0 * b.1 < b.0 * a.1
}

/// `a` and `b` denote the same rational value.
pub open spec fn q_eqv(a: (int, int), b: (int, int)) -> bool {
    a.0 * b.1 == b.0 * a.1
}

/// Fraction division, without reduction; denotes a rational only when
/// `b.0 != 0`, and a well-formed one only when `b.0 > 0`.
pub open spec fn q_div(a: (int, int), b: (int, int)) -> (int, int) {
    (a.0 * b.1, a.1 * b.0)
}

/// The views of a sequence of rationals.
pub open spec fn vq(s: Seq<Ratio>) -> Seq<(int, int)> {
    s.map_values(|r: Ratio| r@)
}

/// Every element of the sequence is well-formed.
pub open spec fn vq_wf(s: Seq<Ratio>) -> bool {
    forall|i: int| 0 <= i < s.len() ==> (#[trigger] s[i]).wf()
}

/// A sequence of machine integers as a sequence of `int`s.
pub open spec fn int_seq(s: Seq<i64>) -> Seq<int> {
    s.map_values(|v: i64| v as int)
}

pub open spec fn fits_i64(x: int) -> bool {
    i64::MIN <= x <= i64::MAX
}

/// Both components of the pair fit in `i64`.
pub open spec fn q_fits(a: (int, int)) -> bool {
    fits_i64(a.0) && fits_i64(a.1)
}

/// Euclid's greatest common divisor of two non-negative integers.
pub open spec fn gcd(a: int, b: int) -> int
    decreases b,
{
    if b <= 0 {
        a
    } else {
        gcd(b, a % b)
    }
}

/// The canonical form of a fraction: both components divided by the
/// greatest common divisor of the numerator's magnitude and the
/// denominator.
#[verifier::opaque]
pub open spec fn q_norm(a: (int, int)) -> (int, int) {
    let m = if a.0 >= 0 {
        a.0
    } else {
        -a.0
    };
    let g = gcd(m, a.1);
    (a.0 / g, a.1 / g)
}

/// Checked addition: the exact sum in canonical form, or `None` when
/// even reduced it leaves `i64`.
pub open spec fn qc_add(a: (int, int), b: (int, int)) -> Option<(int, int)> {
    if q_fits(q_norm(q_add(a, b))) {
        Some(q_norm(q_add(a, b)))
    } else {
        None
    }
}

/// Checked subtraction, in canonical form.
pub open spec fn qc_sub(a: (int, int), b: (int, int)) -> Option<(int, int)> {
    if q_fits(q_norm(q_sub(a, b))) {
        Some(q_norm(q_sub(a, b)))
    } else {
        None
    }
}

/// Checked multiplication, in canonical form.
pub open spec fn qc_mul(a: (int, int), b: (int, int)) -> Option<(int, int)> {
    if q_fits(q_norm(q_mul(a, b))) {
        Some(q_norm(q_mul(a, b)))
    } else {
        None
    }
}

/// Checked negation.
pub open spec fn qc_neg(a: (int, int)) -> Option<(int, int)> {
    if fits_i64(-a.0) {
        Some(q_neg(a))
    } else {
        None
    }
}

/// The greatest common divisor of two non-negative integers, not both
/// zero, is positive and divides both.
pub proof fn lemma_gcd_divides(a: int, b: int)
    requires
        a >= 0,
        b >= 0,
        a > 0 || b > 0,
    ensures
        gcd(a, b) >= 1,
        a % gcd(a, b) == 0,
        b % gcd(a, b) == 0,
    decreases b,
{
    if b <= 0 {
        lemma_mod_self_0(a);
        lemma_small_mod(0nat, a as nat);
    } else {
        lemma_mod_bound(a, b);
        lemma_gcd_divides(b, a % b);
        let g = gcd(b, a % b);
        lemma_fundamental_div_mod(a, b);
        lemma_fundamental_div_mod(b, g);
        lemma_fundamental_div_mod(a % b, g);
        let k = (b / g) * (a / b) + (a % b) / g;
        assert(a == k * g) by (nonlinear_arith)
            requires
                a == b * (a / b) + a % b,
                b == g * (b / g) + 0,
                a % b == g * ((a % b) / g) + 0,
                k == (b / g) * (a / b) + (a % b) / g,
        ;
        lemma_mod_multiples_basic(k, g);
    }
}

/// Reducing a fraction with a zero numerator gives the canonical zero.
pub proof fn lemma_norm_zero(d: int)
    requires
        d > 0,
    ensures
        q_norm((0int, d)) == (0int, 1int),
{
    reveal(q_norm);
    lemma_small_mod(0nat, d as nat);
    assert(gcd(0, d) == gcd(d, 0));
    assert(gcd(d, 0) == d);
    lemma_basic_div(0, d);
    lemma_div_by_self(d);
}

/// The executable Euclid loop, matching the spec `gcd`.
fn gcd_u128(a: u128, b: u128) -> (g: u128)
    requires
        a > 0 || b > 0,
    ensures
        g as int == gcd(a as int, b as int),
        g >= 1,
{
    let mut x = a;
    let mut y = b;
    while y > 0
        invariant
            x > 0 || y > 0,
            gcd(x as int, y as int) == gcd(a as int, b as int),
        decreases y,
    {
        let r = x % y;
        x = y;
        y = r;
    }
    x
}

/// Reduce the exact fraction `n / d` by the greatest common divisor of
/// `|n|` and `d`, and pack it into a `Ratio` when it fits in `i64`.
fn norm_pack(n: i128, d: i128) -> (r: Option<Ratio>)
    requires
        1 <= d,
        -0x7fffffffffffffffffffffffffffffff <= n,
    ensures
        r matches Some(v) ==> v.wf() && v@ == q_norm((n as int, d as int)),
        r is Some <==> q_fits(q_norm((n as int, d as int))),
{
    proof {
        reveal(q_norm);
    }
    let neg = n < 0;
    let na: u128 = if neg {
        (-n) as u128
    } else {
        n as u128
    };
    let du: u128 = d as u128;
    let g: u128 = gcd_u128(na, du);
    proof {
        lemma_gcd_divides(na as int, du as int);
    }
    let qn: u128 = na / g;
    let qd: u128 = du / g;
    proof {
        let gi = g as int;
        lemma_fundamental_div_mod(na as int, gi);
        lemma_fundamental_div_mod(du as int, gi);
        assert(qn as int <= na as int && 1 <= qd as int <= du as int) by (nonlinear_arith)
            requires
                na as int == gi * (qn as int) + 0,
                du as int == gi * (qd as int) + 0,
                gi >= 1,
                qn as int >= 0,
                qd as int >= 0,
                du as int >= 1,
        ;
        if neg {
            let q2 = (n as int) / gi;
            lemma_fundamental_div_mod(n as int, gi);
            lemma_mod_bound(n as int, gi);
            assert(gi * (-(qn as int)) == -(gi * (qn as int))) by (nonlinear_arith);
            assert(q2 == -(qn as int)) by (nonlinear_arith)
                requires
                    n as int == gi * q2 + (n as int) % gi,
                    0 <= (n as int) % gi < gi,
                    n as int == gi * (-(qn as int)) + 0,
            ;
        }
    }
    let rn: i128 = if neg {
        -(qn as i128)
    } else {
        qn as i128
    };
    if rn >= (i64::MIN as i128) && rn <= (i64::MAX as i128) && qd <= (i64::MAX as u128) {
        Some(Ratio { num: rn as i64, den: qd as i64 })
    } else {
        None
    }
}

/// A product of an `i64` with a positive `i64` stays well inside `i128`.
proof fn lemma_num_den_mul(a: int, d: int)
    requires
        -0x8000000000000000 <= a <= 0x7fffffffffffffff,
        1 <= d <= 0x7fffffffffffffff,
    ensures
        -0x3fffffffffffffff8000000000000000 <= a * d <= 0x3fffffffffffffff8000000000000000,
        a >= 1 ==> a * d >= 1,
{
    assert(-0x3fffffffffffffff8000000000000000 <= a * d <= 0x3fffffffffffffff8000000000000000
        && (a >= 1 ==> a * d >= 1)) by (nonlinear_arith)
        requires
            -0x8000000000000000 <= a <= 0x7fffffffffffffff,
            1 <= d <= 0x7fffffffffffffff,
    ;
}

impl Ratio {
    /// The denominator is positive.
    pub open spec fn wf(self) -> bool {
        self.den > 0
    }

    pub fn new(num: i64, den: i64) -> (r: Ratio)
        requires
            den > 0,
        ensures
            r.wf(),
            r@ == (num as int, den as int),
    {
        Ratio { num, den }
    }

    pub fn from_int(n: i64) -> (r: Ratio)
        ensures
            r.wf(),
            r@ == q_int(n as int),
    {
        Ratio { num: n, den: 1 }
    }

    pub fn zero() -> (r: Ratio)
        ensures
            r.wf(),
            r@ == q_zero(),
    {
        Ratio { num: 0, den: 1 }
    }

    pub fn one() -> (r: Ratio)
        ensures
            r.wf(),
            r@ == q_one(),
    {
        Ratio { num: 1, den: 1 }
    }

    /// Checked addition; exactly `qc_add` on the views.
    pub fn add(self, other: Ratio) -> (r: Option<Ratio>)
        requires
            self.wf(),
            other.wf(),
        ensures
            r matches Some(v) ==> Some(v@) == qc_add(self@, other@) && v.wf(),
            r is Some <==> qc_add(self@, other@) is Some,
    {
        proof {
            lemma_num_den_mul(self.num as int, other.den as int);
            lemma_num_den_mul(other.num as int, self.den as int);
            lemma_num_den_mul(self.den as int, other.den as int);
        }
        let n: i128 = (self.num as i128) * (other.den as i128)
            + (other.num as i128) * (self.den as i128);
        let d: i128 = (self.den as i128) * (other.den as i128);
        norm_pack(n, d)
    }

    /// Checked subtraction; exactly `qc_sub` on the views.
    pub fn sub(self, other: Ratio) -> (r: Option<Ratio>)
        requires
            self.wf(),
            other.wf(),
        ensures
            r matches Some(v) ==> Some(v@) == qc_sub(self@, other@) && v.wf(),
            r is Some <==> qc_sub(self@, other@) is Some,
    {
        proof {
            lemma_num_den_mul(self.num as int, other.den as int);
            lemma_num_den_mul(other.num as int, self.den as int);
            lemma_num_den_mul(self.den as int, other.den as int);
        }
        let n: i128 = (self.num as i128) * (other.den as i128)
            - (other.num as i128) * (self.den as i128);
        let d: i128 = (self.den as i128) * (other.den as i128);
        norm_pack(n, d)
    }

    /// Checked multiplication; exactly `qc_mul` on the views.
    pub fn mul(self, other: Ratio) -> (r: Option<Ratio>)
        requires
            self.wf(),
            other.wf(),
        ensures
            r matches Some(v) ==> Some(v@) == qc_mul(self@, other@) && v.wf(),
            r is Some <==> qc_mul(self@, other@) is Some,
    {
        proof {
            assert(-0x40000000000000000000000000000000
                <= (self.num as int) * (other.num as int)
                <= 0x40000000000000000000000000000000) by (nonlinear_arith)
                requires
                    -0x8000000000000000 <= self.num as int <= 0x7fffffffffffffff,
                    -0x8000000000000000 <= other.num as int <= 0x7fffffffffffffff,
            ;
            lemma_num_den_mul(self.den as int, other.den as int);
        }
        let n: i128 = (self.num as i128) * (other.num as i128);
        let d: i128 = (self.den as i128) * (other.den as i128);
        norm_pack(n, d)
    }

    /// Checked negation; exactly `qc_neg` on the view.
    pub fn neg(self) -> (r: Option<Ratio>)
        requires
            self.wf(),
        ensures
            r matches Some(v) ==> v.wf() && v@ == q_neg(self@),
            r is Some <==> qc_neg(self@) is Some,
    {
        if self.num == i64::MIN {
            None
        } else {
            Some(Ratio { num: -self.num, den: self.den })
        }
    }

    /// Exact comparison `self <= other`.
    pub fn le(self, other: Ratio) -> (r: bool)
        requires
            self.wf(),
            other.wf(),
        ensures
            r == q_le(self@, other@),
    {
        proof {
            lemma_num_den_mul(self.num as int, other.den as int);
            lemma_num_den_mul(other.num as int, self.den as int);
        }
        (self.num as i128) * (other.den as i128) <= (other.num as i128) * (self.den as i128)
    }

    /// Exact comparison `self < other`.
    pub fn lt(self, other: Ratio) -> (r: bool)
        requires
            self.wf(),
            other.wf(),
        ensures
            r == q_lt(self@, other@),
    {
        proof {
            lemma_num_den_mul(self.num as int, other.den as int);
            lemma_num_den_mul(other.num as int, self.den as int);
        }
        (self.num as i128) * (other.den as i128) < (other.num as i128) * (self.den as i128)
    }

    /// Exact value equality: `self` and `other` denote the same rational.
    pub fn eq_val(self, other: Ratio) -> (r: bool)
        requires
            self.wf(),
            other.wf(),
        ensures
            r == q_eqv(self@, other@),
    {
        proof {
            lemma_num_den_mul(self.num as int, other.den as int);
            lemma_num_den_mul(other.num as int, self.den as int);
        }
        (self.num as i128) * (other.den as i128) == (other.num as i128) * (self.den as i128)
    }
}

} // verus!

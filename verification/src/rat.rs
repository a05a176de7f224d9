use vstd::prelude::*;

verus! {

/// Bound on the numerator magnitude and denominator of every rational the
/// library stores. Two such rationals can be compared by cross-multiplying
/// inside `i128` without overflow.
pub const RAT_BOUND: i128 = 0x4000_0000_0000_0000;

/// Mathematical view of a rational number `n / d` with `d > 0`.
pub ghost struct SRat {
    pub n: int,
    pub d: int,
}

pub open spec fn srat_wf(r: SRat) -> bool {
    &&& 0 < r.d <= RAT_BOUND as int
    &&& -(RAT_BOUND as int) <= r.n <= RAT_BOUND as int
}

/// `a < b` over the rationals, by cross multiplication (denominators positive).
pub open spec fn rlt(a: SRat, b: SRat) -> bool {
    a.n * b.d < b.n * a.d
}

/// `a <= b` over the rationals.
pub open spec fn rle(a: SRat, b: SRat) -> bool {
    a.n * b.d <= b.n * a.d
}

/// `a == b` over the rationals (equal values, not equal representations).
pub open spec fn req(a: SRat, b: SRat) -> bool {
    a.n * b.d == b.n * a.d
}

/// The rational with numerator `n` and denominator 1.
pub open spec fn srat_int(n: int) -> SRat {
    SRat { n: n, d: 1 }
}

pub proof fn lemma_rlt_trans(a: SRat, b: SRat, c: SRat)
    by (nonlinear_arith)
    requires
        a.d > 0,
        b.d > 0,
        c.d > 0,
        rlt(a, b),
        rlt(b, c),
    ensures
        rlt(a, c),
{
}

pub proof fn lemma_rle_trans(a: SRat, b: SRat, c: SRat)
    by (nonlinear_arith)
    requires
        a.d > 0,
        b.d > 0,
        c.d > 0,
        rle(a, b),
        rle(b, c),
    ensures
        rle(a, c),
{
}

pub proof fn lemma_rlt_rle_trans(a: SRat, b: SRat, c: SRat)
    by (nonlinear_arith)
    requires
        a.d > 0,
        b.d > 0,
        c.d > 0,
        rlt(a, b),
        rle(b, c),
    ensures
        rlt(a, c),
{
}

pub proof fn lemma_rle_rlt_trans(a: SRat, b: SRat, c: SRat)
    by (nonlinear_arith)
    requires
        a.d > 0,
        b.d > 0,
        c.d > 0,
        rle(a, b),
        rlt(b, c),
    ensures
        rlt(a, c),
{
}

/// An exact rational number with a positive denominator, the parametric
/// distance along a ray. Representations are not reduced; comparisons
/// cross-multiply.
#[derive(Clone, Copy, PartialEq, Eq, Structural, Debug)]
pub struct Rat {
    pub num: i128,
    pub den: i128,
}

impl View for Rat {
    type V = SRat;

    open spec fn view(&self) -> SRat {
        SRat { n: self.num as int, d: self.den as int }
    }
}

impl Rat {
    pub open spec fn wf(&self) -> bool {
        srat_wf(self@)
    }

    pub fn new(num: i128, den: i128) -> (r: Rat)
        requires
            0 < den <= RAT_BOUND,
            -RAT_BOUND <= num <= RAT_BOUND,
        ensures
            r@ == (SRat { n: num as int, d: den as int }),
            r.wf(),
    {
        Rat { num, den }
    }

    pub fn from_int(n: i64) -> (r: Rat)
        requires
            -RAT_BOUND <= n as int <= RAT_BOUND,
        ensures
            r@ == srat_int(n as int),
            r.wf(),
    {
        Rat { num: n as i128, den: 1 }
    }

    pub fn lt(&self, o: &Rat) -> (r: bool)
        requires
            self.wf(),
            o.wf(),
        ensures
            r == rlt(self@, o@),
    {
        proof {
            crate::vec3::lemma_mul_bound(self@.n, o@.d, RAT_BOUND as int, RAT_BOUND as int);
            crate::vec3::lemma_mul_bound(o@.n, self@.d, RAT_BOUND as int, RAT_BOUND as int);
        }
        self.num * o.den < o.num * self.den
    }

    pub fn le(&self, o: &Rat) -> (r: bool)
        requires
            self.wf(),
            o.wf(),
        ensures
            r == rle(self@, o@),
    {
        proof {
            crate::vec3::lemma_mul_bound(self@.n, o@.d, RAT_BOUND as int, RAT_BOUND as int);
            crate::vec3::lemma_mul_bound(o@.n, self@.d, RAT_BOUND as int, RAT_BOUND as int);
        }
        self.num * o.den <= o.num * self.den
    }

    /// Equality of rational values.
    pub fn eq_rat(&self, o: &Rat) -> (r: bool)
        requires
            self.wf(),
            o.wf(),
        ensures
            r == req(self@, o@),
    {
        proof {
            crate::vec3::lemma_mul_bound(self@.n, o@.d, RAT_BOUND as int, RAT_BOUND as int);
            crate::vec3::lemma_mul_bound(o@.n, self@.d, RAT_BOUND as int, RAT_BOUND as int);
        }
        self.num * o.den == o.num * self.den
    }

    /// The smaller of two rationals (the first on equal values).
    pub fn min_of(self, o: Rat) -> (r: Rat)
        requires
            self.wf(),
            o.wf(),
        ensures
            r.wf(),
            rle(r@, self@) && rle(r@, o@),
            r == self || r == o,
            rle(self@, o@) ==> r == self,
            rlt(o@, self@) ==> r == o,
    {
        proof {
            lemma_rle_total(self@, o@);
        }
        if self.le(&o) {
            self
        } else {
            o
        }
    }

    /// The larger of two rationals (the first on equal values).
    pub fn max_of(self, o: Rat) -> (r: Rat)
        requires
            self.wf(),
            o.wf(),
        ensures
            r.wf(),
            rle(self@, r@) && rle(o@, r@),
            r == self || r == o,
            rle(o@, self@) ==> r == self,
            rlt(self@, o@) ==> r == o,
    {
        proof {
            lemma_rle_total(self@, o@);
        }
        if o.le(&self) {
            self
        } else {
            o
        }
    }
}

/// Floor division by a positive divisor. The quotient of `a` by `b >= 1`
/// always lies between `a` and `0`, so the checked form never fails.
pub fn div_floor(a: i128, b: i128) -> (r: i128)
    requires
        b > 0,
    ensures
        r as int == a as int / b as int,
{
    proof {
        lemma_div_toward_zero(a as int, b as int);
    }
    a.checked_div_euclid(b).unwrap()
}

/// For a positive divisor, the (floor) quotient lies between the dividend
/// and zero.
pub proof fn lemma_div_toward_zero(a: int, b: int)
    by (nonlinear_arith)
    requires
        b > 0,
    ensures
        a >= 0 ==> 0 <= a / b <= a,
        a < 0 ==> a <= a / b <= 0,
{
}

/// A two-sided multiple bound on the dividend carries to the quotient.
pub proof fn lemma_div_range(a: int, b: int, m: int)
    by (nonlinear_arith)
    requires
        b > 0,
        m >= 0,
        -(m * b) <= a <= m * b,
    ensures
        -m <= a / b <= m,
{
}

/// The rational order is total: `a <= b` or `b < a`.
pub proof fn lemma_rle_total(a: SRat, b: SRat)
    by (nonlinear_arith)
    requires
        a.d > 0,
        b.d > 0,
    ensures
        rle(a, b) <==> !rlt(b, a),
        rle(a, b) || rle(b, a),
{
}

} // verus!

//! Exact rational numbers over 64-bit integers.
//!
//! Every throughput computation in this crate is carried out on these
//! fractions, never on floating point, so a result such as "machines times
//! clock fraction equals parallelism" holds exactly, not approximately.

use vstd::prelude::*;

verus! {

use vstd::arithmetic::div_mod::lemma_fundamental_div_mod;

/// Does a mathematical integer fit into an `i64`?
pub open spec fn fits_i64(x: int) -> bool {
    i64::MIN <= x <= i64::MAX
}

/// What [`Ratio::mul`] returns: the unreduced product, or `None` exactly
/// when a field overflows.
pub open spec fn spec_mul(a: Ratio, b: Ratio) -> Option<Ratio> {
    if fits_i64(a.num * b.num) && fits_i64(a.den * b.den) {
        Some(Ratio { num: (a.num * b.num) as i64, den: (a.den * b.den) as i64 })
    } else {
        None
    }
}

/// What [`Ratio::div`] returns: the unreduced quotient with the sign moved
/// into the numerator, or `None` exactly when a field overflows.
pub open spec fn spec_div(a: Ratio, b: Ratio) -> Option<Ratio> {
    let rn = a.num * b.den;
    let rd = a.den * b.num;
    if !(fits_i64(rn) && fits_i64(rd)) {
        None
    } else if rd > 0 {
        Some(Ratio { num: rn as i64, den: rd as i64 })
    } else if rn == i64::MIN || rd == i64::MIN {
        None
    } else {
        Some(Ratio { num: (-rn) as i64, den: (-rd) as i64 })
    }
}

/// What [`Ratio::recip`] returns.
pub open spec fn spec_recip(a: Ratio) -> Option<Ratio> {
    if a.num == 0 || a.num == i64::MIN {
        None
    } else if a.num > 0 {
        Some(Ratio { num: a.den, den: a.num })
    } else {
        Some(Ratio { num: (-a.den) as i64, den: (-a.num) as i64 })
    }
}

/// What [`Ratio::neg`] returns.
pub open spec fn spec_neg(a: Ratio) -> Option<Ratio> {
    if a.num == i64::MIN {
        None
    } else {
        Some(Ratio { num: (-a.num) as i64, den: a.den })
    }
}

/// The ceiling of the fraction `n / d` for a positive denominator, using
/// the euclidean division of the integers.
pub open spec fn spec_ceil_frac(n: int, d: int) -> int {
    -((-n) / d)
}

/// The two ceiling inequalities pin the euclidean form down uniquely.
proof fn lemma_ceil_unique(n: int, d: int, r: int)
    requires
        d > 0,
        d * r >= n,
        d * (r - 1) < n,
    ensures
        r == spec_ceil_frac(n, d),
{
    let q = (-n) / d;
    lemma_fundamental_div_mod(-n, d);
    let rem = (-n) % d;
    assert(r + q >= 0 && r + q <= 0) by (nonlinear_arith)
        requires
            d > 0,
            d * r >= n,
            d * (r - 1) < n,
            -n == d * q + rem,
            0 <= rem < d,
    ;
}

/// An exact rational number `num / den` with a positive denominator.
///
/// Values are not kept in lowest terms; equality is mathematical equality of
/// the represented fractions (cross multiplication), not of the fields.
#[derive(Clone, Copy, Debug)]
pub struct Ratio {
    pub num: i64,
    pub den: i64,
}

impl Ratio {
    /// The representation invariant: the denominator is positive.
    pub open spec fn wf(self) -> bool {
        self.den > 0
    }

    /// Mathematical equality of the two represented fractions.
    pub open spec fn same_value(self, other: Ratio) -> bool {
        self.num * other.den == other.num * self.den
    }

    pub fn new(num: i64, den: i64) -> (r: Ratio)
        requires
            den > 0,
        ensures
            r.num == num,
            r.den == den,
            r.wf(),
    {
        Ratio { num, den }
    }

    pub fn from_int(n: i64) -> (r: Ratio)
        ensures
            r.num == n,
            r.den == 1,
            r.wf(),
    {
        Ratio { num: n, den: 1 }
    }

    pub fn is_zero(&self) -> (b: bool)
        ensures
            b == (self.num == 0),
    {
        self.num == 0
    }

    pub fn is_negative(&self) -> (b: bool)
        ensures
            b == (self.num < 0),
    {
        self.num < 0
    }

    /// Exact product of two rationals; `None` exactly when a field of the
    /// unreduced product overflows `i64`.
    pub fn mul(&self, other: &Ratio) -> (r: Option<Ratio>)
        requires
            self.wf(),
            other.wf(),
        ensures
            r == spec_mul(*self, *other),
            match r {
                Some(p) => {
                    &&& p.num == self.num * other.num
                    &&& p.den == self.den * other.den
                    &&& p.wf()
                },
                None => !(fits_i64(self.num * other.num) && fits_i64(
                    self.den * other.den,
                )),
            },
    {
        match (self.num.checked_mul(other.num), self.den.checked_mul(other.den)) {
            (Some(n), Some(d)) => {
                proof {
                    assert(self.den * other.den > 0) by (nonlinear_arith)
                        requires
                            self.den > 0,
                            other.den > 0,
                    ;
                }
                Some(Ratio { num: n, den: d })
            },
            _ => None,
        }
    }

    /// Whether the unreduced quotient `self / other` fits into `i64` fields
    /// after fixing the sign of the denominator.
    pub open spec fn div_fits(self, other: Ratio) -> bool {
        let rn = self.num * other.den;
        let rd = self.den * other.num;
        &&& fits_i64(rn)
        &&& fits_i64(rd)
        &&& (rd < 0 ==> fits_i64(-rn) && fits_i64(-rd))
    }

    /// Exact quotient of two rationals; `None` exactly when the unreduced
    /// quotient does not fit into the fields.
    pub fn div(&self, other: &Ratio) -> (r: Option<Ratio>)
        requires
            self.wf(),
            other.wf(),
            other.num != 0,
        ensures
            r == spec_div(*self, *other),
            match r {
                Some(q) => {
                    &&& q.wf()
                    &&& q.num * (self.den * other.num) == (self.num * other.den) * q.den
                },
                None => !self.div_fits(*other),
            },
    {
        match (self.num.checked_mul(other.den), self.den.checked_mul(other.num)) {
            (Some(rn), Some(rd)) => {
                proof {
                    assert(rn * rd == rn * rd && (-rn) * rd == rn * (-rd)) by (nonlinear_arith);
                }
                if rd > 0 {
                    Some(Ratio { num: rn, den: rd })
                } else {
                    proof {
                        assert(self.den * other.num != 0) by (nonlinear_arith)
                            requires
                                self.den > 0,
                                other.num != 0,
                        ;
                    }
                    if rn == i64::MIN || rd == i64::MIN {
                        None
                    } else {
                        Some(Ratio { num: -rn, den: -rd })
                    }
                }
            },
            _ => None,
        }
    }

    /// The ceiling of the represented fraction, as an integer.
    ///
    /// The two clauses pin the result uniquely: it is at least the fraction,
    /// and one less than it is strictly below the fraction.
    pub fn ceil(&self) -> (r: i64)
        requires
            self.wf(),
        ensures
            self.den * r >= self.num,
            self.den * (r - 1) < self.num,
            r == spec_ceil_frac(self.num as int, self.den as int),
    {
        let d: u64 = self.den as u64;
        let r: i64 = if self.num >= 0 {
            let n: u64 = self.num as u64;
            let q: u64 = n / d;
            let rem: u64 = n % d;
            proof {
                lemma_fundamental_div_mod(n as int, d as int);
                assert(q <= n) by (nonlinear_arith)
                    requires
                        d >= 1,
                        n >= 0,
                        q == n as int / d as int,
                ;
            }
            if rem == 0 {
                proof {
                    assert(self.den * (q as int) >= self.num && self.den * (q as int - 1)
                        < self.num) by (nonlinear_arith)
                        requires
                            self.den == d,
                            self.num == n,
                            d >= 1,
                            n == d * (q as int),
                    ;
                }
                q as i64
            } else {
                proof {
                    assert(q < n && self.den * (q as int + 1) >= self.num && self.den * (
                    q as int) < self.num) by (nonlinear_arith)
                        requires
                            self.den == d,
                            self.num == n,
                            d >= 1,
                            0 < rem < d,
                            n == d * (q as int) + rem,
                            q >= 0,
                    ;
                }
                (q + 1) as i64
            }
        } else {
            let m: u64 = if self.num == i64::MIN {
                9223372036854775808u64
            } else {
                (-self.num) as u64
            };
            let q: u64 = m / d;
            proof {
                lemma_fundamental_div_mod(m as int, d as int);
                let rem: int = (m as int) % (d as int);
                assert(q <= m && self.den * (-(q as int)) >= self.num && self.den * (-(
                q as int) - 1) < self.num) by (nonlinear_arith)
                    requires
                        self.den == d,
                        self.num == -(m as int),
                        d >= 1,
                        m == d * (q as int) + rem,
                        0 <= rem,
                        rem < d,
                        q >= 0,
                ;
            }
            if q == 9223372036854775808u64 {
                i64::MIN
            } else {
                -(q as i64)
            }
        };
        proof {
            lemma_ceil_unique(self.num as int, self.den as int, r as int);
        }
        r
    }

    /// Exact reciprocal; `None` exactly when the numerator is zero (the
    /// reciprocal does not exist) or is the one value whose magnitude
    /// overflows `i64`.
    pub fn recip(&self) -> (r: Option<Ratio>)
        requires
            self.wf(),
        ensures
            r == spec_recip(*self),
            match r {
                Some(q) => {
                    &&& q.wf()
                    &&& q.num * self.num == self.den * q.den
                },
                None => self.num == 0 || self.num == i64::MIN,
            },
    {
        if self.num == 0 || self.num == i64::MIN {
            None
        } else if self.num > 0 {
            Some(Ratio { num: self.den, den: self.num })
        } else {
            proof {
                assert((-self.den) * self.num == self.den * (-self.num)) by (nonlinear_arith);
            }
            Some(Ratio { num: -self.den, den: -self.num })
        }
    }

    /// Exact negation; `None` exactly for the one value whose negated
    /// numerator overflows `i64`.
    pub fn neg(&self) -> (r: Option<Ratio>)
        requires
            self.wf(),
        ensures
            r == spec_neg(*self),
            match r {
                Some(q) => q.wf() && q.num == -self.num && q.den == self.den,
                None => self.num == i64::MIN,
            },
    {
        if self.num == i64::MIN {
            None
        } else {
            Some(Ratio { num: -self.num, den: self.den })
        }
    }
}

impl PartialEq for Ratio {
    /// Mathematical equality of the represented fractions.
    fn eq(&self, other: &Ratio) -> (r: bool) {
        proof {
            assert(forall|a: int, b: int|
                i64::MIN <= a <= i64::MAX && i64::MIN <= b <= i64::MAX ==> i128::MIN <= #[trigger] (
                a * b) <= i128::MAX) by (nonlinear_arith);
        }
        (self.num as i128) * (other.den as i128) == (other.num as i128) * (self.den as i128)
    }
}

impl vstd::std_specs::cmp::PartialEqSpecImpl for Ratio {
    open spec fn obeys_eq_spec() -> bool {
        true
    }

    open spec fn eq_spec(&self, other: &Ratio) -> bool {
        self.same_value(*other)
    }
}

} // verus!

//! Exact rational scalar.
//!
//! Every temperature, conductance and heat flux in the engine is a [`Rat`]:
//! a fraction of two `i128` values kept within [`RAT_BOUND`] so that sums of
//! two cross products never overflow `i128`. Each checked operation returns
//! the mathematically exact result (normalised by a common divisor) while it
//! fits; a result whose parts outgrow the bound is reduced in precision by
//! truncating halvings of both parts, and only a value whose magnitude
//! itself exceeds the bound is reported as out of range.

use vstd::prelude::*;

verus! {

/// Largest magnitude allowed for a numerator or denominator: 2^62.
pub const RAT_BOUND: i128 = 0x4000_0000_0000_0000;

/// The mathematical value of a scalar: a fraction of unbounded integers.
pub ghost struct Frac {
    /// Numerator.
    pub n: int,
    /// Denominator; well-formed fractions keep it positive.
    pub d: int,
}

/// Well-formed fraction: positive denominator.
pub open spec fn frac_wf(a: Frac) -> bool {
    a.d > 0
}

/// Equality of fraction values, by cross multiplication.
pub open spec fn frac_eq(a: Frac, b: Frac) -> bool {
    a.n * b.d == b.n * a.d
}

/// `a <= b` as fraction values (for well-formed fractions).
pub open spec fn frac_le(a: Frac, b: Frac) -> bool {
    a.n * b.d <= b.n * a.d
}

pub open spec fn frac_int(i: int) -> Frac {
    Frac { n: i, d: 1 }
}

pub open spec fn frac_add(a: Frac, b: Frac) -> Frac {
    Frac { n: a.n * b.d + b.n * a.d, d: a.d * b.d }
}

pub open spec fn frac_sub(a: Frac, b: Frac) -> Frac {
    Frac { n: a.n * b.d - b.n * a.d, d: a.d * b.d }
}

pub open spec fn frac_mul(a: Frac, b: Frac) -> Frac {
    Frac { n: a.n * b.n, d: a.d * b.d }
}

/// Quotient of fraction values with the sign moved into the numerator.
pub open spec fn frac_div(a: Frac, b: Frac) -> Frac {
    if b.n < 0 {
        Frac { n: -(a.n * b.d), d: a.d * -b.n }
    } else {
        Frac { n: a.n * b.d, d: a.d * b.n }
    }
}

pub open spec fn frac_neg(a: Frac) -> Frac {
    Frac { n: -a.n, d: a.d }
}

pub open spec fn frac_abs(a: Frac) -> Frac {
    if a.n < 0 {
        frac_neg(a)
    } else {
        a
    }
}

pub open spec fn iabs(x: int) -> int {
    if x < 0 {
        -x
    } else {
        x
    }
}

/// Euclid's recursion; used only to name the divisor that normalisation tries.
pub open spec fn gcd_r(a: nat, b: nat) -> nat
    decreases b,
{
    if b == 0 {
        a
    } else {
        gcd_r(b, a % b)
    }
}

/// Normalisation: divide numerator and denominator by their greatest common
/// divisor whenever that division is exact.
pub open spec fn frac_norm(a: Frac) -> Frac {
    let g = gcd_r(iabs(a.n) as nat, a.d as nat) as int;
    if g > 1 && iabs(a.n) % g == 0 && a.d % g == 0 {
        Frac { n: if a.n < 0 { -(iabs(a.n) / g) } else { iabs(a.n) / g }, d: a.d / g }
    } else {
        a
    }
}

/// Fits the representation after normalisation.
pub open spec fn frac_fits(a: Frac) -> bool {
    -(RAT_BOUND as int) <= a.n <= RAT_BOUND as int && 1 <= a.d <= RAT_BOUND as int
}

/// Precision reduction: both parts are halved (truncating toward zero)
/// until they fit the representation. A numerator that reaches zero rounds
/// the value to zero; a denominator that reaches zero means the magnitude
/// itself is unrepresentable.
pub open spec fn frac_shrink(na: nat, d: int, neg: bool) -> Option<Frac>
    decreases na,
{
    if d <= 0 {
        None
    } else if na == 0 {
        Some(frac_int(0))
    } else if na <= RAT_BOUND as int && d <= RAT_BOUND as int {
        Some(Frac { n: if neg { -(na as int) } else { na as int }, d })
    } else {
        frac_shrink(na / 2, d / 2, neg)
    }
}

/// The value a checked operation yields: the normalised fraction when it
/// fits; otherwise the nearest lower-precision fraction, or nothing when
/// the magnitude itself exceeds the representable range.
pub open spec fn frac_mk(a: Frac) -> Option<Frac> {
    let b = frac_norm(a);
    if frac_fits(b) {
        Some(b)
    } else {
        frac_shrink(iabs(b.n) as nat, b.d, b.n < 0)
    }
}

pub open spec fn rat_add_spec(a: Frac, b: Frac) -> Option<Frac> {
    frac_mk(frac_add(a, b))
}

pub open spec fn rat_sub_spec(a: Frac, b: Frac) -> Option<Frac> {
    frac_mk(frac_sub(a, b))
}

pub open spec fn rat_mul_spec(a: Frac, b: Frac) -> Option<Frac> {
    frac_mk(frac_mul(a, b))
}

/// Division is only defined for a nonzero divisor.
pub open spec fn rat_div_spec(a: Frac, b: Frac) -> Option<Frac> {
    frac_mk(frac_div(a, b))
}

/// View of an optional scalar as an optional fraction.
pub open spec fn opt_frac(r: Option<Rat>) -> Option<Frac> {
    match r {
        Some(x) => Some(x@),
        None => None,
    }
}

/// View of a sequence of scalars as a sequence of fractions.
pub open spec fn seq_frac(v: Seq<Rat>) -> Seq<Frac> {
    v.map_values(|r: Rat| r@)
}

/// Exact rational scalar with bounded representation.
#[derive(Clone, Copy, Debug, PartialEq, Eq, Structural)]
pub struct Rat {
    n: i128,
    d: i128,
}

impl View for Rat {
    type V = Frac;

    closed spec fn view(&self) -> Frac {
        Frac { n: self.n as int, d: self.d as int }
    }
}

/// Euclid's algorithm.
fn gcd_exec(a: i128, b: i128) -> (g: i128)
    requires
        0 <= a,
        1 <= b,
    ensures
        g as nat == gcd_r(a as nat, b as nat),
        1 <= g,
{
    let mut x = a;
    let mut y = b;
    while y != 0
        invariant
            0 <= x,
            0 <= y,
            gcd_r(x as nat, y as nat) == gcd_r(a as nat, b as nat),
            y == 0 ==> 1 <= x,
            1 <= x || 1 <= y,
        decreases y,
    {
        let r = x % y;
        x = y;
        y = r;
    }
    x
}

impl Rat {
    /// Well-formed and within the representable range.
    #[verifier::type_invariant]
    pub open spec fn inv(self) -> bool {
        frac_wf(self@) && frac_fits(self@)
    }

    /// Builds the normalised scalar for the fraction `n / d`, reducing
    /// precision when the normalised parts outgrow the bound.
    #[verifier::loop_isolation(false)]
    fn make(n: i128, d: i128) -> (r: Option<Rat>)
        requires
            1 <= d,
            i128::MIN < n,
        ensures
            opt_frac(r) == frac_mk(Frac { n: n as int, d: d as int }),
    {
        let na0 = if n < 0 {
            -n
        } else {
            n
        };
        assert(na0 as int == iabs(n as int));
        let g = gcd_exec(na0, d);
        let (n2, d2): (i128, i128) = if g > 1 && na0 % g == 0 && d % g == 0 {
            let q = na0 / g;
            (if n < 0 { -q } else { q }, d / g)
        } else {
            (n, d)
        };
        assert(n2 as int == frac_norm(Frac { n: n as int, d: d as int }).n);
        assert(d2 as int == frac_norm(Frac { n: n as int, d: d as int }).d);
        if -RAT_BOUND <= n2 && n2 <= RAT_BOUND && 1 <= d2 && d2 <= RAT_BOUND {
            return Some(Rat { n: n2, d: d2 });
        }
        // Out of range: halve both parts until they fit.
        let neg = n2 < 0;
        let mut na: i128 = if n2 < 0 {
            -n2
        } else {
            n2
        };
        let mut dd: i128 = d2;
        let ghost na_init = na as nat;
        let ghost dd_init = dd as int;
        assert(frac_mk(Frac { n: n as int, d: d as int }) == frac_shrink(na_init, dd_init, neg));
        loop
            invariant
                0 <= na,
                0 <= dd,
                frac_shrink(na_init, dd_init, neg) == frac_shrink(na as nat, dd as int, neg),
            decreases na,
        {
            if dd <= 0 {
                return None;
            }
            if na == 0 {
                return Some(Rat { n: 0, d: 1 });
            }
            if na <= RAT_BOUND && dd <= RAT_BOUND {
                return Some(
                    Rat {
                        n: if neg {
                            -na
                        } else {
                            na
                        },
                        d: dd,
                    },
                );
            }
            na = na / 2;
            dd = dd / 2;
        }
    }

    /// The scalar for a small integer.
    pub fn from_int(i: i32) -> (r: Rat)
        ensures
            r@ == frac_int(i as int),
    {
        Rat { n: i as i128, d: 1 }
    }

    /// The scalar for a count.
    pub fn from_usize(u: usize) -> (r: Rat)
        requires
            u as int <= RAT_BOUND as int,
        ensures
            r@ == frac_int(u as int),
    {
        Rat { n: u as i128, d: 1 }
    }

    /// The scalar `n / d` for caller-chosen parts; fails if it cannot be
    /// represented.
    pub fn from_parts(n: i64, d: i64) -> (r: Option<Rat>)
        requires
            0 < d,
        ensures
            opt_frac(r) == frac_mk(Frac { n: n as int, d: d as int }),
    {
        Rat::make(n as i128, d as i128)
    }

    pub fn zero() -> (r: Rat)
        ensures
            r@ == frac_int(0),
    {
        Rat { n: 0, d: 1 }
    }

    /// The scalar one half.
    pub fn half() -> (r: Rat)
        ensures
            r@ == (Frac { n: 1, d: 2 }),
    {
        Rat { n: 1, d: 2 }
    }

    pub fn one() -> (r: Rat)
        ensures
            r@ == frac_int(1),
    {
        Rat { n: 1, d: 1 }
    }

    /// Numerator of the (normalised) representation.
    pub fn num(&self) -> (r: i128)
        ensures
            r as int == self@.n,
    {
        self.n
    }

    /// Denominator of the (normalised) representation.
    pub fn den(&self) -> (r: i128)
        ensures
            r as int == self@.d,
    {
        self.d
    }

    pub fn is_zero(&self) -> (r: bool)
        ensures
            r == (self@.n == 0),
    {
        self.n == 0
    }

    /// Checked sum.
    pub fn add(self, other: Rat) -> (r: Option<Rat>)
        ensures
            opt_frac(r) == rat_add_spec(self@, other@),
    {
        proof {
            use_type_invariant(self);
            use_type_invariant(other);
            lemma_cross_bound(self.n as int, other.d as int, other.n as int, self.d as int);
            lemma_den_product(self.d as int, other.d as int);
        }
        let n = self.n * other.d + other.n * self.d;
        let d = self.d * other.d;
        Rat::make(n, d)
    }

    /// Checked difference.
    pub fn sub(self, other: Rat) -> (r: Option<Rat>)
        ensures
            opt_frac(r) == rat_sub_spec(self@, other@),
    {
        proof {
            use_type_invariant(self);
            use_type_invariant(other);
            lemma_cross_bound(self.n as int, other.d as int, other.n as int, self.d as int);
            lemma_den_product(self.d as int, other.d as int);
        }
        let n = self.n * other.d - other.n * self.d;
        let d = self.d * other.d;
        Rat::make(n, d)
    }

    /// Checked product.
    pub fn mul(self, other: Rat) -> (r: Option<Rat>)
        ensures
            opt_frac(r) == rat_mul_spec(self@, other@),
    {
        proof {
            use_type_invariant(self);
            use_type_invariant(other);
            lemma_cross_bound(self.n as int, other.n as int, self.d as int, other.d as int);
            lemma_den_product(self.d as int, other.d as int);
        }
        let n = self.n * other.n;
        let d = self.d * other.d;
        Rat::make(n, d)
    }

    /// Checked quotient; the divisor must be nonzero.
    pub fn div(self, other: Rat) -> (r: Option<Rat>)
        requires
            other@.n != 0,
        ensures
            opt_frac(r) == rat_div_spec(self@, other@),
    {
        proof {
            use_type_invariant(self);
            use_type_invariant(other);
            lemma_cross_bound(self.n as int, other.d as int, self.d as int, other.n as int);
            if other.n < 0 {
                lemma_den_product(self.d as int, -other.n as int);
            } else {
                lemma_den_product(self.d as int, other.n as int);
            }
        }
        if other.n < 0 {
            let n = -(self.n * other.d);
            let d = self.d * -other.n;
            Rat::make(n, d)
        } else {
            let n = self.n * other.d;
            let d = self.d * other.n;
            Rat::make(n, d)
        }
    }

    /// Exact negation (always representable).
    pub fn neg(self) -> (r: Rat)
        ensures
            r@ == frac_neg(self@),
    {
        proof {
            use_type_invariant(self);
        }
        Rat { n: -self.n, d: self.d }
    }

    /// Exact absolute value (always representable).
    pub fn abs_val(self) -> (r: Rat)
        ensures
            r@ == frac_abs(self@),
    {
        proof {
            use_type_invariant(self);
        }
        if self.n < 0 {
            Rat { n: -self.n, d: self.d }
        } else {
            self
        }
    }

    /// Value comparison, `self <= other`.
    pub fn le(&self, other: &Rat) -> (r: bool)
        ensures
            r == frac_le(self@, other@),
    {
        proof {
            use_type_invariant(*self);
            use_type_invariant(*other);
            lemma_cross_bound(self.n as int, other.d as int, other.n as int, self.d as int);
        }
        self.n * other.d <= other.n * self.d
    }

    /// Value comparison, `self < other`.
    pub fn lt(&self, other: &Rat) -> (r: bool)
        ensures
            r == !frac_le(other@, self@),
    {
        !other.le(self)
    }

    /// Value equality (independent of representation).
    pub fn eq_val(&self, other: &Rat) -> (r: bool)
        ensures
            r == frac_eq(self@, other@),
    {
        proof {
            use_type_invariant(*self);
            use_type_invariant(*other);
            lemma_cross_bound(self.n as int, other.d as int, other.n as int, self.d as int);
        }
        self.n * other.d == other.n * self.d
    }

    pub fn is_positive(&self) -> (r: bool)
        ensures
            r == (self@.n > 0),
    {
        proof {
            use_type_invariant(*self);
        }
        self.n > 0
    }
}

/// The product of two in-range denominators is positive and inside `i128`.
proof fn lemma_den_product(a: int, b: int)
    requires
        1 <= a <= RAT_BOUND as int,
        1 <= b <= RAT_BOUND as int,
    ensures
        1 <= a * b < i128::MAX,
{
    assert(1 <= a * b <= 0x4000_0000_0000_0000 * 0x4000_0000_0000_0000) by (nonlinear_arith)
        requires
            1 <= a <= 0x4000_0000_0000_0000,
            1 <= b <= 0x4000_0000_0000_0000,
    ;
}

/// Both cross products of in-range parts, and their sum, stay inside `i128`.
proof fn lemma_cross_bound(a: int, b: int, c: int, d: int)
    requires
        -(RAT_BOUND as int) <= a <= RAT_BOUND as int,
        -(RAT_BOUND as int) <= b <= RAT_BOUND as int,
        -(RAT_BOUND as int) <= c <= RAT_BOUND as int,
        -(RAT_BOUND as int) <= d <= RAT_BOUND as int,
    ensures
        i128::MIN < a * b + c * d < i128::MAX,
        i128::MIN < a * b - c * d < i128::MAX,
        i128::MIN < a * b < i128::MAX,
        i128::MIN < c * d < i128::MAX,
{
    assert(-(0x4000_0000_0000_0000 * 0x4000_0000_0000_0000) <= a * b <= 0x4000_0000_0000_0000
        * 0x4000_0000_0000_0000) by (nonlinear_arith)
        requires
            -0x4000_0000_0000_0000 <= a <= 0x4000_0000_0000_0000,
            -0x4000_0000_0000_0000 <= b <= 0x4000_0000_0000_0000,
    ;
    assert(-(0x4000_0000_0000_0000 * 0x4000_0000_0000_0000) <= c * d <= 0x4000_0000_0000_0000
        * 0x4000_0000_0000_0000) by (nonlinear_arith)
        requires
            -0x4000_0000_0000_0000 <= c <= 0x4000_0000_0000_0000,
            -0x4000_0000_0000_0000 <= d <= 0x4000_0000_0000_0000,
    ;
}

/// Normalisation keeps the fraction well-formed and its value unchanged.
pub proof fn lemma_norm_value(a: Frac)
    requires
        frac_wf(a),
    ensures
        frac_wf(frac_norm(a)),
        frac_eq(frac_norm(a), a),
{
    let g = gcd_r(iabs(a.n) as nat, a.d as nat) as int;
    if g > 1 && iabs(a.n) % g == 0 && a.d % g == 0 {
        let na = iabs(a.n);
        let qn = na / g;
        let qd = a.d / g;
        vstd::arithmetic::div_mod::lemma_fundamental_div_mod(na, g);
        vstd::arithmetic::div_mod::lemma_fundamental_div_mod(a.d, g);
        assert(na == g * qn);
        assert(a.d == g * qd);
        assert(qd > 0) by (nonlinear_arith)
            requires
                a.d == g * qd,
                a.d > 0,
                g > 1,
        ;
        let b = frac_norm(a);
        if a.n < 0 {
            assert(a.n == -(g * qn));
            assert(b.n == -qn && b.d == qd);
            assert((-qn) * a.d == a.n * qd) by (nonlinear_arith)
                requires
                    a.n == -(g * qn),
                    a.d == g * qd,
            ;
        } else {
            assert(a.n == g * qn);
            assert(qn * a.d == a.n * qd) by (nonlinear_arith)
                requires
                    a.n == g * qn,
                    a.d == g * qd,
            ;
        }
    }
}

pub proof fn lemma_seq_frac_push(s: Seq<Rat>, r: Rat)
    ensures
        seq_frac(s.push(r)) == seq_frac(s).push(r@),
{
    assert(seq_frac(s.push(r)) =~= seq_frac(s).push(r@));
}

pub proof fn lemma_seq_frac_update(s: Seq<Rat>, i: int, r: Rat)
    requires
        0 <= i < s.len(),
    ensures
        seq_frac(s.update(i, r)) == seq_frac(s).update(i, r@),
{
    assert(seq_frac(s.update(i, r)) =~= seq_frac(s).update(i, r@));
}

/// A zero fraction normalises to the canonical zero.
pub proof fn lemma_mk_zero(d: int)
    requires
        1 <= d,
    ensures
        frac_mk(Frac { n: 0, d }) == Some(frac_int(0)),
{
    let a = Frac { n: 0, d };
    if d == 1 {
        assert(gcd_r(0, 1) == gcd_r(1, 0));
        assert(frac_norm(a) == a);
    } else {
        vstd::arithmetic::div_mod::lemma_small_mod(0, d as nat);
        assert(gcd_r(0, d as nat) == gcd_r(d as nat, 0));
        let g = d;
        vstd::arithmetic::div_mod::lemma_mod_self_0(g);
        vstd::arithmetic::div_mod::lemma_div_of0(g);
        vstd::arithmetic::div_mod::lemma_div_by_self(g);
        assert(frac_norm(a) == frac_int(0));
    }
}

/// A fraction with equal positive parts normalises to the canonical one.
pub proof fn lemma_mk_one(k: int)
    requires
        1 <= k,
    ensures
        frac_mk(Frac { n: k, d: k }) == Some(frac_int(1)),
{
    let a = Frac { n: k, d: k };
    vstd::arithmetic::div_mod::lemma_mod_self_0(k);
    assert(k % k == 0);
    assert(gcd_r(k as nat, k as nat) == gcd_r(k as nat, 0));
    if k == 1 {
        assert(frac_norm(a) == a);
    } else {
        vstd::arithmetic::div_mod::lemma_div_by_self(k);
        assert(frac_norm(a) == frac_int(1));
    }
}

/// Normalisation of an in-range fraction stays in range, so the checked
/// operation succeeds.
pub proof fn lemma_mk_fits(a: Frac)
    requires
        frac_wf(a),
        frac_fits(a),
    ensures
        frac_mk(a) == Some(frac_norm(a)),
        frac_wf(frac_norm(a)),
        frac_fits(frac_norm(a)),
        frac_eq(frac_norm(a), a),
{
    lemma_norm_value(a);
    let g = gcd_r(iabs(a.n) as nat, a.d as nat) as int;
    if g > 1 && iabs(a.n) % g == 0 && a.d % g == 0 {
        let na = iabs(a.n);
        vstd::arithmetic::div_mod::lemma_fundamental_div_mod(na, g);
        vstd::arithmetic::div_mod::lemma_fundamental_div_mod(a.d, g);
        let qn = na / g;
        let qd = a.d / g;
        assert(qn >= 0) by (nonlinear_arith)
            requires
                na == g * qn,
                na >= 0,
                g > 1,
        ;
        assert(qd > 0) by (nonlinear_arith)
            requires
                a.d == g * qd,
                a.d > 0,
                g > 1,
        ;
        assert(qn <= na) by (nonlinear_arith)
            requires
                na == g * qn,
                g > 1,
                na >= 0,
                qn >= 0,
        ;
        assert(qd <= a.d) by (nonlinear_arith)
            requires
                a.d == g * qd,
                g > 1,
                a.d > 0,
                qd > 0,
        ;
    }
}


/// Arithmetic with the canonical zero and one representations.
pub proof fn lemma_canonical_ops(x: Frac)
    ensures
        frac_mul(frac_int(0), x) == (Frac { n: 0, d: x.d }),
        frac_mul(x, frac_int(0)) == (Frac { n: 0, d: x.d }),
        frac_sub(x, frac_int(0)) == x,
        frac_add(x, frac_int(0)) == x,
        frac_add(frac_int(0), x) == x,
        frac_div(x, frac_int(1)) == x,
        frac_mul(frac_int(1), x) == x,
        frac_mul(x, frac_int(1)) == x,
{
    assert(0 * x.n == 0 && x.n * 0 == 0 && 0 * x.d == 0 && x.d * 0 == 0 && 1 * x.n == x.n && x.n
        * 1 == x.n && 1 * x.d == x.d && x.d * 1 == x.d) by (nonlinear_arith);
}


/// Equal values have the same sign.
pub proof fn lemma_eq_sign(a: Frac, b: Frac)
    requires
        frac_wf(a),
        frac_wf(b),
        frac_eq(a, b),
    ensures
        a.n > 0 <==> b.n > 0,
        a.n == 0 <==> b.n == 0,
        a.n < 0 <==> b.n < 0,
{
    assert((a.n > 0 <==> b.n > 0) && (a.n == 0 <==> b.n == 0) && (a.n < 0 <==> b.n < 0))
        by (nonlinear_arith)
        requires
            a.n * b.d == b.n * a.d,
            a.d > 0,
            b.d > 0,
    ;
}

/// `frac_eq` is an equivalence on well-formed fractions.
pub proof fn lemma_frac_eq_trans(a: Frac, b: Frac, c: Frac)
    requires
        frac_wf(a),
        frac_wf(b),
        frac_wf(c),
        frac_eq(a, b),
        frac_eq(b, c),
    ensures
        frac_eq(a, c),
{
    assert(a.n * c.d == c.n * a.d) by (nonlinear_arith)
        requires
            a.n * b.d == b.n * a.d,
            b.n * c.d == c.n * b.d,
            b.d > 0,
    ;
}

} // verus!

//! Linear algebra kernel: the Thomas algorithm for tridiagonal systems and a
//! Lagrange-basis synthetic-division solver for Vandermonde systems.
//!
//! Each solver's contract names the exact sequence of checked rational
//! operations it performs, so the result is pinned down completely: the
//! functions below return exactly what the corresponding spec recursion
//! yields, or the error it yields.

use vstd::prelude::*;

use crate::error::Error;
use crate::rat::{
    frac_eq, frac_fits, frac_int, frac_norm, frac_wf, lemma_frac_eq_trans, lemma_mk_fits,
    lemma_mk_one, lemma_mk_zero, rat_add_spec, rat_div_spec, rat_mul_spec, rat_sub_spec,
    seq_frac, Frac, Rat,
};

verus! {

/// Forward decomposition of the Thomas algorithm: pivots `bet` and
/// multipliers `gam` for rows `0..=i`, or the first failure.
///
/// `bet[0] = d[0]`; `gam[j] = u[j-1] / bet[j-1]`;
/// `bet[j] = d[j] - l[j-1] * gam[j]`. A zero pivot is a singular system.
pub open spec fn tri_factor(d: Seq<Frac>, u: Seq<Frac>, l: Seq<Frac>, i: nat) -> Result<
    (Seq<Frac>, Seq<Frac>),
    Error,
>
    decreases i,
{
    if i == 0 {
        if d[0].n == 0 {
            Err(Error::SingularSystem)
        } else {
            Ok((seq![d[0]], seq![frac_int(0)]))
        }
    } else {
        match tri_factor(d, u, l, (i - 1) as nat) {
            Err(e) => Err(e),
            Ok(bg) => match rat_div_spec(u[i - 1], bg.0[i - 1]) {
                None => Err(Error::Overflow),
                Some(g) => match rat_mul_spec(l[i - 1], g) {
                    None => Err(Error::Overflow),
                    Some(p) => match rat_sub_spec(d[i as int], p) {
                        None => Err(Error::Overflow),
                        Some(bi) => if bi.n == 0 {
                            Err(Error::SingularSystem)
                        } else {
                            Ok((bg.0.push(bi), bg.1.push(g)))
                        },
                    },
                },
            },
        }
    }
}

/// Forward substitution over one right-hand side `bk`, rows `0..=i`:
/// `x[0] = bk[0] / bet[0]`; `x[j] = (bk[j] - l[j-1] * x[j-1]) / bet[j]`.
pub open spec fn tri_fwd(l: Seq<Frac>, bet: Seq<Frac>, bk: Seq<Frac>, i: nat) -> Result<
    Seq<Frac>,
    Error,
>
    decreases i,
{
    if i == 0 {
        match rat_div_spec(bk[0], bet[0]) {
            None => Err(Error::Overflow),
            Some(x) => Ok(seq![x]),
        }
    } else {
        match tri_fwd(l, bet, bk, (i - 1) as nat) {
            Err(e) => Err(e),
            Ok(xs) => match rat_mul_spec(l[i - 1], xs[i - 1]) {
                None => Err(Error::Overflow),
                Some(p) => match rat_sub_spec(bk[i as int], p) {
                    None => Err(Error::Overflow),
                    Some(t) => match rat_div_spec(t, bet[i as int]) {
                        None => Err(Error::Overflow),
                        Some(x) => Ok(xs.push(x)),
                    },
                },
            },
        }
    }
}

/// Back substitution: rows `xs.len()-2` down to `i` get
/// `x[j] := x[j] - gam[j+1] * x[j+1]`.
pub open spec fn tri_bwd(gam: Seq<Frac>, xs: Seq<Frac>, i: nat) -> Result<Seq<Frac>, Error>
    decreases xs.len() - i,
{
    if i + 1 >= xs.len() {
        Ok(xs)
    } else {
        match tri_bwd(gam, xs, (i + 1) as nat) {
            Err(e) => Err(e),
            Ok(s) => match rat_mul_spec(gam[i + 1 as int], s[i + 1 as int]) {
                None => Err(Error::Overflow),
                Some(p) => match rat_sub_spec(s[i as int], p) {
                    None => Err(Error::Overflow),
                    Some(v) => Ok(s.update(i as int, v)),
                },
            },
        }
    }
}

/// One right-hand side solved: forward then back substitution.
pub open spec fn tri_batch(l: Seq<Frac>, bet: Seq<Frac>, gam: Seq<Frac>, bk: Seq<Frac>) -> Result<
    Seq<Frac>,
    Error,
>
{
    match tri_fwd(l, bet, bk, (bk.len() - 1) as nat) {
        Err(e) => Err(e),
        Ok(xs) => tri_bwd(gam, xs, 0),
    }
}

/// The first `k` right-hand sides of the flat batch `b` solved and
/// concatenated.
pub open spec fn tri_batches(
    l: Seq<Frac>,
    bet: Seq<Frac>,
    gam: Seq<Frac>,
    b: Seq<Frac>,
    n: nat,
    k: nat,
) -> Result<Seq<Frac>, Error>
    decreases k,
{
    if k == 0 {
        Ok(Seq::empty())
    } else {
        match tri_batches(l, bet, gam, b, n, (k - 1) as nat) {
            Err(e) => Err(e),
            Ok(acc) => match tri_batch(l, bet, gam, b.subrange((k - 1) * n, k * n as int)) {
                Err(e) => Err(e),
                Ok(xs) => Ok(acc + xs),
            },
        }
    }
}

/// What `solve_tridiagonal` computes: the Thomas algorithm on the system with
/// diagonal `d`, upper diagonal `u`, lower diagonal `l`, applied to each of
/// the `m` right-hand sides packed in `b`.
pub open spec fn tri_solve(
    d: Seq<Frac>,
    u: Seq<Frac>,
    l: Seq<Frac>,
    b: Seq<Frac>,
    m: nat,
) -> Result<Seq<Frac>, Error> {
    match tri_factor(d, u, l, (d.len() - 1) as nat) {
        Err(e) => Err(e),
        Ok(bg) => tri_batches(l, bg.0, bg.1, b, d.len(), m),
    }
}

proof fn lemma_tri_factor_err(d: Seq<Frac>, u: Seq<Frac>, l: Seq<Frac>, i: nat, j: nat)
    requires
        i <= j,
        tri_factor(d, u, l, i) is Err,
    ensures
        tri_factor(d, u, l, j) == tri_factor(d, u, l, i),
    decreases j,
{
    if j > i {
        lemma_tri_factor_err(d, u, l, i, (j - 1) as nat);
    }
}

proof fn lemma_tri_fwd_err(l: Seq<Frac>, bet: Seq<Frac>, bk: Seq<Frac>, i: nat, j: nat)
    requires
        i <= j,
        tri_fwd(l, bet, bk, i) is Err,
    ensures
        tri_fwd(l, bet, bk, j) == tri_fwd(l, bet, bk, i),
    decreases j,
{
    if j > i {
        lemma_tri_fwd_err(l, bet, bk, i, (j - 1) as nat);
    }
}

proof fn lemma_tri_bwd_err(gam: Seq<Frac>, xs: Seq<Frac>, i: nat, j: nat)
    requires
        j <= i,
        tri_bwd(gam, xs, i) is Err,
    ensures
        tri_bwd(gam, xs, j) == tri_bwd(gam, xs, i),
    decreases i - j,
{
    if j < i {
        lemma_tri_bwd_err(gam, xs, i, (j + 1) as nat);
    }
}

proof fn lemma_tri_batches_err(
    l: Seq<Frac>,
    bet: Seq<Frac>,
    gam: Seq<Frac>,
    b: Seq<Frac>,
    n: nat,
    k: nat,
    m: nat,
)
    requires
        k <= m,
        tri_batches(l, bet, gam, b, n, k) is Err,
    ensures
        tri_batches(l, bet, gam, b, n, m) == tri_batches(l, bet, gam, b, n, k),
    decreases m,
{
    if m > k {
        lemma_tri_batches_err(l, bet, gam, b, n, k, (m - 1) as nat);
    }
}


/// Entrywise: the canonical representation of one.
pub open spec fn all_one(s: Seq<Frac>) -> bool {
    forall|j: int| 0 <= j < s.len() ==> s[j] == frac_int(1)
}

/// Entrywise: the canonical representation of zero.
pub open spec fn all_zero(s: Seq<Frac>) -> bool {
    forall|j: int| 0 <= j < s.len() ==> s[j] == frac_int(0)
}

/// Entrywise: well-formed and within the representable range.
pub open spec fn all_wf(s: Seq<Frac>) -> bool {
    forall|j: int| 0 <= j < s.len() ==> frac_wf(#[trigger] s[j]) && frac_fits(s[j])
}

proof fn lemma_tri_factor_identity(d: Seq<Frac>, u: Seq<Frac>, l: Seq<Frac>, i: nat)
    requires
        i < d.len(),
        u.len() + 1 == d.len(),
        l.len() + 1 == d.len(),
        all_one(d),
        all_zero(u),
        all_zero(l),
    ensures
        tri_factor(d, u, l, i) == Ok::<_, Error>(
            (Seq::new(i + 1, |j: int| frac_int(1)), Seq::new(i + 1, |j: int| frac_int(0))),
        ),
    decreases i,
{
    if i == 0 {
        assert(seq![d[0]] =~= Seq::new(1, |j: int| frac_int(1)));
        assert(seq![frac_int(0)] =~= Seq::new(1, |j: int| frac_int(0)));
    } else {
        lemma_tri_factor_identity(d, u, l, (i - 1) as nat);
        let bet = Seq::new(i, |j: int| frac_int(1));
        let gam = Seq::new(i, |j: int| frac_int(0));
        lemma_mk_zero(1);
        crate::rat::lemma_canonical_ops(u[i - 1]);
        crate::rat::lemma_canonical_ops(d[i as int]);
        crate::rat::lemma_canonical_ops(frac_int(0));
        assert(rat_div_spec(u[i - 1], bet[i - 1]) == Some(frac_int(0)));
        assert(rat_mul_spec(l[i - 1], frac_int(0)) == Some(frac_int(0)));
        lemma_mk_one(1);
        assert(rat_sub_spec(d[i as int], frac_int(0)) == Some(frac_int(1)));
        assert(bet.push(frac_int(1)) =~= Seq::new(i + 1, |j: int| frac_int(1)));
        assert(gam.push(frac_int(0)) =~= Seq::new(i + 1, |j: int| frac_int(0)));
    }
}

proof fn lemma_tri_fwd_identity(l: Seq<Frac>, bet: Seq<Frac>, bk: Seq<Frac>, i: nat)
    requires
        i < bk.len(),
        bk.len() <= bet.len(),
        bk.len() <= l.len() + 1,
        all_one(bet),
        all_zero(l),
        all_wf(bk),
    ensures
        tri_fwd(l, bet, bk, i) is Ok,
        tri_fwd(l, bet, bk, i)->Ok_0.len() == i + 1,
        forall|j: int|
            0 <= j <= i ==> {
                let x = #[trigger] tri_fwd(l, bet, bk, i)->Ok_0[j];
                frac_wf(x) && frac_fits(x) && frac_eq(x, bk[j])
            },
    decreases i,
{
    if i == 0 {
        assert(crate::rat::frac_div(bk[0], frac_int(1)) == bk[0]);
        lemma_mk_fits(bk[0]);
    } else {
        lemma_tri_fwd_identity(l, bet, bk, (i - 1) as nat);
        let xs = tri_fwd(l, bet, bk, (i - 1) as nat)->Ok_0;
        crate::rat::lemma_canonical_ops(xs[i - 1]);
        crate::rat::lemma_canonical_ops(bk[i as int]);
        assert(crate::rat::frac_mul(l[i - 1], xs[i - 1]) == (Frac { n: 0, d: xs[i - 1].d }));
        lemma_mk_zero(xs[i - 1].d);
        assert(rat_mul_spec(l[i - 1], xs[i - 1]) == Some(frac_int(0)));
        assert(crate::rat::frac_sub(bk[i as int], frac_int(0)) == bk[i as int]);
        lemma_mk_fits(bk[i as int]);
        let t = frac_norm(bk[i as int]);
        assert(rat_sub_spec(bk[i as int], frac_int(0)) == Some(t));
        crate::rat::lemma_canonical_ops(t);
        assert(crate::rat::frac_div(t, frac_int(1)) == t);
        lemma_mk_fits(t);
        let x = frac_norm(t);
        assert(rat_div_spec(t, bet[i as int]) == Some(x));
        lemma_frac_eq_trans(x, t, bk[i as int]);
    }
}

proof fn lemma_tri_bwd_identity(gam: Seq<Frac>, xs: Seq<Frac>, i: nat)
    requires
        xs.len() <= gam.len(),
        all_zero(gam),
        all_wf(xs),
    ensures
        tri_bwd(gam, xs, i) is Ok,
        tri_bwd(gam, xs, i)->Ok_0.len() == xs.len(),
        forall|j: int|
            0 <= j < xs.len() ==> {
                let x = #[trigger] tri_bwd(gam, xs, i)->Ok_0[j];
                frac_wf(x) && frac_fits(x) && frac_eq(x, xs[j])
            },
    decreases xs.len() - i,
{
    if i + 1 >= xs.len() {
        assert forall|j: int| 0 <= j < xs.len() implies {
            let x = #[trigger] tri_bwd(gam, xs, i)->Ok_0[j];
            frac_wf(x) && frac_fits(x) && frac_eq(x, xs[j])
        } by {
            assert(frac_eq(xs[j], xs[j]));
        }
    } else {
        lemma_tri_bwd_identity(gam, xs, (i + 1) as nat);
        let s = tri_bwd(gam, xs, (i + 1) as nat)->Ok_0;
        crate::rat::lemma_canonical_ops(s[i + 1 as int]);
        crate::rat::lemma_canonical_ops(s[i as int]);
        assert(crate::rat::frac_mul(gam[i + 1 as int], s[i + 1 as int]) == (Frac {
            n: 0,
            d: s[i + 1 as int].d,
        }));
        lemma_mk_zero(s[i + 1 as int].d);
        assert(rat_mul_spec(gam[i + 1 as int], s[i + 1 as int]) == Some(frac_int(0)));
        assert(crate::rat::frac_sub(s[i as int], frac_int(0)) == s[i as int]);
        lemma_mk_fits(s[i as int]);
        let v = frac_norm(s[i as int]);
        assert(rat_sub_spec(s[i as int], frac_int(0)) == Some(v));
        lemma_frac_eq_trans(v, s[i as int], xs[i as int]);
        assert forall|j: int| 0 <= j < xs.len() implies {
            let x = #[trigger] tri_bwd(gam, xs, i)->Ok_0[j];
            frac_wf(x) && frac_fits(x) && frac_eq(x, xs[j])
        } by {
            assert(tri_bwd(gam, xs, i)->Ok_0 == s.update(i as int, v));
        }
    }
}

proof fn lemma_tri_batches_identity(
    l: Seq<Frac>,
    bet: Seq<Frac>,
    gam: Seq<Frac>,
    b: Seq<Frac>,
    n: nat,
    k: nat,
)
    requires
        n >= 1,
        bet.len() == n,
        gam.len() == n,
        l.len() + 1 == n,
        k * n <= b.len(),
        all_one(bet),
        all_zero(gam),
        all_zero(l),
        all_wf(b),
    ensures
        tri_batches(l, bet, gam, b, n, k) is Ok,
        tri_batches(l, bet, gam, b, n, k)->Ok_0.len() == k * n,
        forall|j: int|
            0 <= j < k * n ==> frac_eq(#[trigger] tri_batches(l, bet, gam, b, n, k)->Ok_0[j], b[j]),
    decreases k,
{
    if k == 0 {
    } else {
        assert((k - 1) * n == k * n - n) by (nonlinear_arith);
        lemma_tri_batches_identity(l, bet, gam, b, n, (k - 1) as nat);
        let acc = tri_batches(l, bet, gam, b, n, (k - 1) as nat)->Ok_0;
        let bk = b.subrange(((k - 1) * n) as int, (k * n) as int);
        assert(all_wf(bk));
        lemma_tri_fwd_identity(l, bet, bk, (n - 1) as nat);
        let xs = tri_fwd(l, bet, bk, (n - 1) as nat)->Ok_0;
        assert(all_wf(xs));
        lemma_tri_bwd_identity(gam, xs, 0);
        let s = tri_bwd(gam, xs, 0)->Ok_0;
        assert(tri_batch(l, bet, gam, bk) == Ok::<_, Error>(s));
        assert forall|j: int| 0 <= j < k * n implies frac_eq(
            #[trigger] tri_batches(l, bet, gam, b, n, k)->Ok_0[j],
            b[j],
        ) by {
            if j >= (k - 1) * n {
                let jj = j - (k - 1) * n;
                assert(frac_eq(s[jj], xs[jj]));
                assert(frac_eq(xs[jj], bk[jj]));
                assert(bk[jj] == b[j]);
                lemma_frac_eq_trans(s[jj], xs[jj], bk[jj]);
            }
        }
    }
}

/// For the identity system -- unit diagonal, zero off-diagonals -- the solve
/// succeeds and every right-hand side comes back unchanged as a value.
pub proof fn lemma_tridiagonal_identity(
    d: Seq<Frac>,
    u: Seq<Frac>,
    l: Seq<Frac>,
    b: Seq<Frac>,
    m: nat,
)
    requires
        d.len() >= 1,
        u.len() + 1 == d.len(),
        l.len() + 1 == d.len(),
        b.len() == m * d.len(),
        all_one(d),
        all_zero(u),
        all_zero(l),
        all_wf(b),
    ensures
        tri_solve(d, u, l, b, m) is Ok,
        tri_solve(d, u, l, b, m)->Ok_0.len() == b.len(),
        forall|j: int|
            0 <= j < b.len() ==> frac_eq(#[trigger] tri_solve(d, u, l, b, m)->Ok_0[j], b[j]),
{
    let n = d.len();
    lemma_tri_factor_identity(d, u, l, (n - 1) as nat);
    let bet = Seq::new(n, |j: int| frac_int(1));
    let gam = Seq::new(n, |j: int| frac_int(0));
    lemma_tri_batches_identity(l, bet, gam, b, n, m);
}

/// A failing batch makes the whole batched solve fail with the same error.
proof fn lemma_batch_fail(
    l: Seq<Frac>,
    bet: Seq<Frac>,
    gam: Seq<Frac>,
    b: Seq<Frac>,
    bk: Seq<Frac>,
    n: nat,
    k: nat,
    m: nat,
)
    requires
        n >= 1,
        k < m,
        k * n + n <= b.len(),
        bk == b.subrange((k * n) as int, (k * n + n) as int),
        tri_batches(l, bet, gam, b, n, k) is Ok,
        tri_batch(l, bet, gam, bk) is Err,
    ensures
        tri_batches(l, bet, gam, b, n, m) == Result::<Seq<Frac>, Error>::Err(
            tri_batch(l, bet, gam, bk)->Err_0,
        ),
{
    assert((k + 1) * n == k * n + n) by (nonlinear_arith);
    assert(b.subrange((((k + 1) as nat - 1) * n) as int, ((k + 1) as nat * n) as int) == bk);
    assert(tri_batches(l, bet, gam, b, n, (k + 1) as nat) == Result::<Seq<Frac>, Error>::Err(
        tri_batch(l, bet, gam, bk)->Err_0,
    ));
    lemma_tri_batches_err(l, bet, gam, b, n, (k + 1) as nat, m);
}

/// Solves a tridiagonal matrix equation `A x = b`, where `A` is `n x n` with
/// diagonal `diag` and off-diagonals `lower`, `upper`. `b` packs `m`
/// right-hand sides; it is overwritten with the solutions exactly when the
/// whole solve succeeds.
#[verifier::loop_isolation(false)]
#[verifier::rlimit(100)]
pub fn solve_tridiagonal(
    diag: &Vec<Rat>,
    upper: &Vec<Rat>,
    lower: &Vec<Rat>,
    b: &mut Vec<Rat>,
    m: usize,
) -> (res: Result<(), Error>)
    requires
        diag.len() >= 1,
        upper.len() + 1 == diag.len(),
        lower.len() + 1 == diag.len(),
        old(b).len() == m * diag.len(),
    ensures
        match tri_solve(
            seq_frac(diag@),
            seq_frac(upper@),
            seq_frac(lower@),
            seq_frac(old(b)@),
            m as nat,
        ) {
            Ok(s) => res is Ok && seq_frac(final(b)@) == s,
            Err(e) => res == Err::<(), Error>(e) && final(b)@ == old(b)@,
        },
{
    let ghost dv = seq_frac(diag@);
    let ghost uv = seq_frac(upper@);
    let ghost lv = seq_frac(lower@);
    let ghost bv = seq_frac(b@);
    let n = diag.len();
    if diag[0].is_zero() {
        proof {
            lemma_tri_factor_err(dv, uv, lv, 0, (n - 1) as nat);
        }
        return Err(Error::SingularSystem);
    }
    let mut bet: Vec<Rat> = Vec::new();
    let mut gam: Vec<Rat> = Vec::new();
    bet.push(diag[0]);
    gam.push(Rat::zero());
    assert(seq_frac(bet@) =~= seq![dv[0]]);
    assert(seq_frac(gam@) =~= seq![frac_int(0)]);
    let mut i: usize = 1;
    while i < n
        invariant
            1 <= i <= n,
            bet.len() == i,
            gam.len() == i,
            tri_factor(dv, uv, lv, (i - 1) as nat) == Ok::<_, Error>(
                (seq_frac(bet@), seq_frac(gam@)),
            ),
            forall|j: int| 0 <= j < i ==> #[trigger] bet@[j]@.n != 0,
        decreases n - i,
    {
        let ghost bet_pre = bet@;
        let ghost gam_pre = gam@;
        let g = match upper[i - 1].div(bet[i - 1]) {
            Some(x) => x,
            None => {
                proof {
                    lemma_tri_factor_err(dv, uv, lv, i as nat, (n - 1) as nat);
                }
                return Err(Error::Overflow);
            },
        };
        let p = match lower[i - 1].mul(g) {
            Some(x) => x,
            None => {
                proof {
                    lemma_tri_factor_err(dv, uv, lv, i as nat, (n - 1) as nat);
                }
                return Err(Error::Overflow);
            },
        };
        let bi = match diag[i].sub(p) {
            Some(x) => x,
            None => {
                proof {
                    lemma_tri_factor_err(dv, uv, lv, i as nat, (n - 1) as nat);
                }
                return Err(Error::Overflow);
            },
        };
        if bi.is_zero() {
            proof {
                lemma_tri_factor_err(dv, uv, lv, i as nat, (n - 1) as nat);
            }
            return Err(Error::SingularSystem);
        }
        bet.push(bi);
        gam.push(g);
        proof {
            crate::rat::lemma_seq_frac_push(bet_pre, bi);
            crate::rat::lemma_seq_frac_push(gam_pre, g);
            assert(tri_factor(dv, uv, lv, i as nat) == Ok::<_, Error>(
                (seq_frac(bet@), seq_frac(gam@)),
            ));
        }
        i += 1;
    }
    let ghost betv = seq_frac(bet@);
    let ghost gamv = seq_frac(gam@);
    // Solve each right-hand side into a fresh buffer; `b` is replaced only
    // when every batch succeeds.
    let mut out: Vec<Rat> = Vec::new();
    assert(seq_frac(out@) =~= Seq::<Frac>::empty());
    let mut k: usize = 0;
    while k < m
        invariant
            0 <= k <= m,
            out.len() == k * n,
            tri_batches(lv, betv, gamv, bv, n as nat, k as nat) == Ok::<_, Error>(seq_frac(out@)),
        decreases m - k,
    {
        proof {
            assert(k * n + n <= m * n) by (nonlinear_arith)
                requires
                    k < m,
                    n >= 1,
                    0 <= k,
            ;
        }
        let ghost bkv = bv.subrange((k * n) as int, (k * n + n) as int);
        // Forward substitution.
        let mut xs: Vec<Rat> = Vec::new();
        let x0 = match b[k * n].div(bet[0]) {
            Some(x) => x,
            None => {
                proof {
                    lemma_tri_fwd_err(lv, betv, bkv, 0, (n - 1) as nat);
                    lemma_batch_fail(lv, betv, gamv, bv, bkv, n as nat, k as nat, m as nat);
                }
                return Err(Error::Overflow);
            },
        };
        xs.push(x0);
        assert(seq_frac(xs@) =~= seq![x0@]);
        let mut i2: usize = 1;
        while i2 < n
            invariant
                1 <= i2 <= n,
                xs.len() == i2,
                tri_fwd(lv, betv, bkv, (i2 - 1) as nat) == Ok::<_, Error>(seq_frac(xs@)),
            decreases n - i2,
        {
            let ghost xs_pre = xs@;
            assert(bkv[i2 as int] == seq_frac(b@)[(k * n + i2) as int]);
            let p = match lower[i2 - 1].mul(xs[i2 - 1]) {
                Some(x) => x,
                None => {
                    proof {
                        lemma_tri_fwd_err(lv, betv, bkv, i2 as nat, (n - 1) as nat);
                        lemma_batch_fail(lv, betv, gamv, bv, bkv, n as nat, k as nat, m as nat);
                    }
                    return Err(Error::Overflow);
                },
            };
            let t = match b[k * n + i2].sub(p) {
                Some(x) => x,
                None => {
                    proof {
                        lemma_tri_fwd_err(lv, betv, bkv, i2 as nat, (n - 1) as nat);
                        lemma_batch_fail(lv, betv, gamv, bv, bkv, n as nat, k as nat, m as nat);
                    }
                    return Err(Error::Overflow);
                },
            };
            let x = match t.div(bet[i2]) {
                Some(x) => x,
                None => {
                    proof {
                        lemma_tri_fwd_err(lv, betv, bkv, i2 as nat, (n - 1) as nat);
                        lemma_batch_fail(lv, betv, gamv, bv, bkv, n as nat, k as nat, m as nat);
                    }
                    return Err(Error::Overflow);
                },
            };
            xs.push(x);
            proof {
                crate::rat::lemma_seq_frac_push(xs_pre, x);
                assert(tri_fwd(lv, betv, bkv, i2 as nat) == Ok::<_, Error>(seq_frac(xs@)));
            }
            i2 += 1;
        }
        // Back substitution.
        let ghost xsv = seq_frac(xs@);
        assert(tri_fwd(lv, betv, bkv, (n - 1) as nat) == Ok::<_, Error>(xsv));
        let mut i3: usize = n - 1;
        while i3 > 0
            invariant
                0 <= i3 <= n - 1,
                xs.len() == n,
                tri_bwd(gamv, xsv, i3 as nat) == Ok::<_, Error>(seq_frac(xs@)),
            decreases i3,
        {
            i3 -= 1;
            let ghost xs_pre = xs@;
            let p = match gam[i3 + 1].mul(xs[i3 + 1]) {
                Some(x) => x,
                None => {
                    proof {
                        lemma_tri_bwd_err(gamv, xsv, i3 as nat, 0);
                        lemma_batch_fail(lv, betv, gamv, bv, bkv, n as nat, k as nat, m as nat);
                    }
                    return Err(Error::Overflow);
                },
            };
            let v = match xs[i3].sub(p) {
                Some(x) => x,
                None => {
                    proof {
                        lemma_tri_bwd_err(gamv, xsv, i3 as nat, 0);
                        lemma_batch_fail(lv, betv, gamv, bv, bkv, n as nat, k as nat, m as nat);
                    }
                    return Err(Error::Overflow);
                },
            };
            xs.set(i3, v);
            proof {
                crate::rat::lemma_seq_frac_update(xs_pre, i3 as int, v);
                assert(tri_bwd(gamv, xsv, i3 as nat) == Ok::<_, Error>(seq_frac(xs@)));
            }
        }
        assert(tri_batch(lv, betv, gamv, bkv) == Ok::<_, Error>(seq_frac(xs@)));
        // Append the solved batch.
        let ghost out_pre = seq_frac(out@);
        let mut i4: usize = 0;
        while i4 < n
            invariant
                0 <= i4 <= n,
                out.len() == k * n + i4,
                seq_frac(out@) == out_pre + seq_frac(xs@).subrange(0, i4 as int),
            decreases n - i4,
        {
            let ghost out_vec_pre = out@;
            out.push(xs[i4]);
            proof {
                crate::rat::lemma_seq_frac_push(out_vec_pre, xs@[i4 as int]);
                assert(seq_frac(xs@).subrange(0, (i4 + 1) as int) =~= seq_frac(xs@).subrange(
                    0,
                    i4 as int,
                ).push(seq_frac(xs@)[i4 as int]));
                assert(seq_frac(out@) =~= out_pre + seq_frac(xs@).subrange(0, (i4 + 1) as int));
            }
            i4 += 1;
        }
        proof {
            assert(seq_frac(xs@).subrange(0, n as int) =~= seq_frac(xs@));
            assert((k + 1) * n == k * n + n) by (nonlinear_arith);
            assert(bv.subrange((((k + 1) as nat - 1) * (n as nat)) as int, ((k + 1) as nat * (
            n as nat)) as int) == bkv);
            assert(tri_batches(lv, betv, gamv, bv, n as nat, (k + 1) as nat) == Ok::<_, Error>(
                seq_frac(out@),
            ));
        }
        k += 1;
    }
    assert(seq_frac(out@) == tri_solve(dv, uv, lv, bv, m as nat)->Ok_0);
    *b = out;
    Ok(())
}

/// Master-polynomial update pass for one new node: entries `j0..j-1` of `c`
/// get `c[jj] := c[jj] + xx * c[jj+1]`, in ascending order.
pub open spec fn vand_c_pass(c: Seq<Frac>, xx: Frac, j0: nat, j: nat) -> Option<Seq<Frac>>
    decreases j,
{
    if j <= j0 {
        Some(c)
    } else {
        match vand_c_pass(c, xx, j0, (j - 1) as nat) {
            None => None,
            Some(s) => match rat_mul_spec(xx, s[j as int]) {
                None => None,
                Some(p) => match rat_add_spec(s[j - 1], p) {
                    None => None,
                    Some(v) => Some(s.update(j - 1, v)),
                },
            },
        }
    }
}

/// Coefficients of the master polynomial after nodes `0..=i` are folded in:
/// the pass above for node `i`, then `c[n-1] := c[n-1] + (-x[i])`.
pub open spec fn vand_c(x: Seq<Frac>, n: nat, i: nat) -> Option<Seq<Frac>>
    decreases i,
{
    if i == 0 {
        Some(Seq::new(n, |j: int| frac_int(0)).update(n - 1, crate::rat::frac_neg(x[0])))
    } else {
        match vand_c(x, n, (i - 1) as nat) {
            None => None,
            Some(s) => {
                let xx = crate::rat::frac_neg(x[i as int]);
                match vand_c_pass(s, xx, (n - i - 1) as nat, (n - 1) as nat) {
                    None => None,
                    Some(s2) => match rat_add_spec(s2[n - 1], xx) {
                        None => None,
                        Some(v) => Some(s2.update(n - 1, v)),
                    },
                }
            },
        }
    }
}

/// Synthetic division of the master polynomial by the factor for node value
/// `xx`: processing `k = n-1` down to `k`, each step does
/// `b := c[k] + xx * b`, `a[k-1] := b`, `t := xx * t + b`.
pub open spec fn vand_div(c: Seq<Frac>, xx: Frac, a0: Seq<Frac>, n: nat, k: nat) -> Option<
    (Seq<Frac>, Frac, Frac),
>
    decreases n - k,
{
    if k >= n {
        Some((a0, frac_int(1), frac_int(1)))
    } else {
        match vand_div(c, xx, a0, n, (k + 1) as nat) {
            None => None,
            Some(abt) => match rat_mul_spec(xx, abt.1) {
                None => None,
                Some(p) => match rat_add_spec(c[k as int], p) {
                    None => None,
                    Some(b2) => match rat_mul_spec(xx, abt.2) {
                        None => None,
                        Some(p2) => match rat_add_spec(p2, b2) {
                            None => None,
                            Some(t2) => Some((abt.0.update(k - 1, b2), b2, t2)),
                        },
                    },
                },
            },
        }
    }
}

/// Accumulation of one node row into the weights: entries `0..k` of `w` get
/// `w[kk] := w[kk] + a[kk] * qi / t`.
pub open spec fn vand_row(w: Seq<Frac>, a: Seq<Frac>, qi: Frac, t: Frac, k: nat) -> Option<
    Seq<Frac>,
>
    decreases k,
{
    if k == 0 {
        Some(w)
    } else {
        match vand_row(w, a, qi, t, (k - 1) as nat) {
            None => None,
            Some(s) => match rat_mul_spec(a[k - 1], qi) {
                None => None,
                Some(p) => match rat_div_spec(p, t) {
                    None => None,
                    Some(dd) => match rat_add_spec(s[k - 1], dd) {
                        None => None,
                        Some(v) => Some(s.update(k - 1, v)),
                    },
                },
            },
        }
    }
}

/// Weights after the rows for nodes `0..i` are accumulated. A zero
/// denominator `t` -- two equal nodes -- is a singular system.
pub open spec fn vand_rows(
    x: Seq<Frac>,
    q: Seq<Frac>,
    c: Seq<Frac>,
    n: nat,
    i: nat,
) -> Result<Seq<Frac>, Error>
    decreases i,
{
    if i == 0 {
        Ok(Seq::new(n, |j: int| frac_int(0)))
    } else {
        match vand_rows(x, q, c, n, (i - 1) as nat) {
            Err(e) => Err(e),
            Ok(w) => match vand_div(c, x[i - 1], Seq::new(n, |j: int| frac_int(1)), n, 1) {
                None => Err(Error::Overflow),
                Some(abt) => if abt.2.n == 0 {
                    Err(Error::SingularSystem)
                } else {
                    match vand_row(w, abt.0, q[i - 1], abt.2, n) {
                        None => Err(Error::Overflow),
                        Some(w2) => Ok(w2),
                    }
                },
            },
        }
    }
}

/// What `solve_vandermonde` computes. For `n == 1` the single weight is
/// `q[0]` itself; otherwise Lagrange-basis synthetic division over the
/// master-polynomial coefficients.
pub open spec fn vand_solve(x: Seq<Frac>, q: Seq<Frac>, n: nat) -> Result<Seq<Frac>, Error> {
    if n == 1 {
        Ok(seq![q[0]])
    } else {
        match vand_c(x, n, (n - 1) as nat) {
            None => Err(Error::Overflow),
            Some(c) => vand_rows(x, q, c, n, n),
        }
    }
}

proof fn lemma_vand_rows_err(x: Seq<Frac>, q: Seq<Frac>, c: Seq<Frac>, n: nat, i: nat, m: nat)
    requires
        i <= m,
        vand_rows(x, q, c, n, i) is Err,
    ensures
        vand_rows(x, q, c, n, m) == vand_rows(x, q, c, n, i),
    decreases m,
{
    if m > i {
        lemma_vand_rows_err(x, q, c, n, i, (m - 1) as nat);
    }
}

proof fn lemma_vand_c_pass_none(c: Seq<Frac>, xx: Frac, j0: nat, j: nat, m: nat)
    requires
        j <= m,
        vand_c_pass(c, xx, j0, j) is None,
    ensures
        vand_c_pass(c, xx, j0, m) is None,
    decreases m,
{
    if m > j {
        lemma_vand_c_pass_none(c, xx, j0, j, (m - 1) as nat);
    }
}

proof fn lemma_vand_c_none(x: Seq<Frac>, n: nat, i: nat, m: nat)
    requires
        i <= m,
        vand_c(x, n, i) is None,
    ensures
        vand_c(x, n, m) is None,
    decreases m,
{
    if m > i {
        lemma_vand_c_none(x, n, i, (m - 1) as nat);
    }
}

proof fn lemma_vand_div_none(c: Seq<Frac>, xx: Frac, a0: Seq<Frac>, n: nat, j: nat, k: nat)
    requires
        j <= k,
        vand_div(c, xx, a0, n, k) is None,
    ensures
        vand_div(c, xx, a0, n, j) is None,
    decreases k - j,
{
    if j < k {
        lemma_vand_div_none(c, xx, a0, n, (j + 1) as nat, k);
    }
}

proof fn lemma_vand_row_none(w: Seq<Frac>, a: Seq<Frac>, qi: Frac, t: Frac, k: nat, m: nat)
    requires
        k <= m,
        vand_row(w, a, qi, t, k) is None,
    ensures
        vand_row(w, a, qi, t, m) is None,
    decreases m,
{
    if m > k {
        lemma_vand_row_none(w, a, qi, t, k, (m - 1) as nat);
    }
}

/// Solves the Vandermonde linear system `sum_i x_k^i w_i = q_k`
/// (`k = 0..n-1`) by Lagrange-basis synthetic division. `w` receives the
/// weights exactly when the solve succeeds; for `n == 1` the result is
/// `q` unchanged.
/// Computes the master-polynomial coefficients for the node vector `x`.
#[verifier::loop_isolation(false)]
#[verifier::rlimit(100)]
#[verifier::spinoff_prover]
fn vand_master(x: &Vec<Rat>, n: usize) -> (res: Result<Vec<Rat>, Error>)
    requires
        n >= 2,
        x.len() == n,
    ensures
        match res {
            Ok(c) => c.len() == n && vand_c(seq_frac(x@), n as nat, (n - 1) as nat) == Some(
                seq_frac(c@),
            ),
            Err(e) => e == Error::Overflow && vand_c(seq_frac(x@), n as nat, (n - 1) as nat)
                is None,
        },
{
    let ghost xv = seq_frac(x@);
    let mut c: Vec<Rat> = Vec::new();
    let mut j: usize = 0;
    while j < n
        invariant
            j <= n,
            c.len() == j,
            forall|jj: int| 0 <= jj < j ==> seq_frac(c@)[jj] == frac_int(0),
        decreases n - j,
    {
        let ghost c_pre0 = c@;
        let z = Rat::zero();
        c.push(z);
        proof {
            crate::rat::lemma_seq_frac_push(c_pre0, z);
        }
        j += 1;
    }
    assert(seq_frac(c@) =~= Seq::new(n as nat, |jj: int| frac_int(0)));
    let ghost c_fill = c@;
    let ng = x[0].neg();
    c.set(n - 1, ng);
    proof {
        crate::rat::lemma_seq_frac_update(c_fill, (n - 1) as int, ng);
    }
    assert(vand_c(xv, n as nat, 0) == Some(seq_frac(c@)));
    let mut i: usize = 1;
    while i < n
        invariant
            1 <= i <= n,
            c.len() == n,
            vand_c(xv, n as nat, (i - 1) as nat) == Some(seq_frac(c@)),
        decreases n - i,
    {
        let xx = x[i].neg();
        let ghost c_pass_base = seq_frac(c@);
        let mut j2: usize = n - i - 1;
        while j2 < n - 1
            invariant
                n - i - 1 <= j2 <= n - 1,
                c.len() == n,
                vand_c_pass(c_pass_base, xx@, (n - i - 1) as nat, j2 as nat) == Some(
                    seq_frac(c@),
                ),
            decreases n - 1 - j2,
        {
            let ghost c_pre = c@;
            let p = match xx.mul(c[j2 + 1]) {
                Some(v) => v,
                None => {
                    proof {
                        assert(vand_c_pass(c_pass_base, xx@, (n - i - 1) as nat, (j2 + 1) as nat)
                            is None);
                        lemma_vand_c_pass_none(c_pass_base, xx@, (n - i - 1) as nat, (j2
                            + 1) as nat, (n - 1) as nat);
                        lemma_vand_c_none(xv, n as nat, i as nat, (n - 1) as nat);
                    }
                    return Err(Error::Overflow);
                },
            };
            let v = match c[j2].add(p) {
                Some(v) => v,
                None => {
                    proof {
                        assert(vand_c_pass(c_pass_base, xx@, (n - i - 1) as nat, (j2 + 1) as nat)
                            is None);
                        lemma_vand_c_pass_none(c_pass_base, xx@, (n - i - 1) as nat, (j2
                            + 1) as nat, (n - 1) as nat);
                        lemma_vand_c_none(xv, n as nat, i as nat, (n - 1) as nat);
                    }
                    return Err(Error::Overflow);
                },
            };
            c.set(j2, v);
            proof {
                crate::rat::lemma_seq_frac_update(c_pre, j2 as int, v);
                assert(vand_c_pass(c_pass_base, xx@, (n - i - 1) as nat, (j2 + 1) as nat)
                    == Some(seq_frac(c@)));
            }
            j2 += 1;
        }
        let ghost c_pre2 = c@;
        let v2 = match c[n - 1].add(xx) {
            Some(v) => v,
            None => {
                proof {
                    assert(vand_c(xv, n as nat, i as nat) is None);
                    lemma_vand_c_none(xv, n as nat, i as nat, (n - 1) as nat);
                }
                return Err(Error::Overflow);
            },
        };
        c.set(n - 1, v2);
        proof {
            crate::rat::lemma_seq_frac_update(c_pre2, (n - 1) as int, v2);
            assert(vand_c(xv, n as nat, i as nat) == Some(seq_frac(c@)));
        }
        i += 1;
    }
    Ok(c)
}

#[verifier::loop_isolation(false)]
#[verifier::rlimit(100)]
#[verifier::spinoff_prover]
pub fn solve_vandermonde(x: &Vec<Rat>, q: &Vec<Rat>, n: usize, w: &mut Vec<Rat>) -> (res: Result<
    (),
    Error,
>)
    requires
        n >= 1,
        x.len() == n,
        q.len() == n,
        old(w).len() == n,
    ensures
        match vand_solve(seq_frac(x@), seq_frac(q@), n as nat) {
            Ok(s) => res is Ok && seq_frac(final(w)@) == s,
            Err(e) => res == Err::<(), Error>(e) && final(w)@ == old(w)@,
        },
{
    let ghost xv = seq_frac(x@);
    let ghost qv = seq_frac(q@);
    if n == 1 {
        let mut out: Vec<Rat> = Vec::new();
        out.push(q[0]);
        assert(seq_frac(out@) =~= seq![qv[0]]);
        *w = out;
        return Ok(());
    }
    // Master polynomial coefficients.
    let c = match vand_master(x, n) {
        Ok(c) => c,
        Err(e) => {
            return Err(e);
        },
    };
    let ghost cv = seq_frac(c@);
    // Row accumulation.
    let mut wk: Vec<Rat> = Vec::new();
    let mut j3: usize = 0;
    while j3 < n
        invariant
            j3 <= n,
            wk.len() == j3,
            forall|jj: int| 0 <= jj < j3 ==> seq_frac(wk@)[jj] == frac_int(0),
        decreases n - j3,
    {
        let ghost wk_pre0 = wk@;
        let z = Rat::zero();
        wk.push(z);
        proof {
            crate::rat::lemma_seq_frac_push(wk_pre0, z);
        }
        j3 += 1;
    }
    assert(seq_frac(wk@) =~= Seq::new(n as nat, |jj: int| frac_int(0)));
    assert(vand_rows(xv, qv, cv, n as nat, 0) == Ok::<_, Error>(seq_frac(wk@)));
    let mut i2: usize = 0;
    while i2 < n
        invariant
            i2 <= n,
            wk.len() == n,
            vand_rows(xv, qv, cv, n as nat, i2 as nat) == Ok::<_, Error>(seq_frac(wk@)),
        decreases n - i2,
    {
        let xx = x[i2];
        // Synthetic division.
        let mut a: Vec<Rat> = Vec::new();
        let mut j4: usize = 0;
        while j4 < n
            invariant
                j4 <= n,
                a.len() == j4,
                forall|jj: int| 0 <= jj < j4 ==> seq_frac(a@)[jj] == frac_int(1),
            decreases n - j4,
        {
            let ghost a_pre0 = a@;
            let o = Rat::one();
            a.push(o);
            proof {
                crate::rat::lemma_seq_frac_push(a_pre0, o);
            }
            j4 += 1;
        }
        let ghost a0 = seq_frac(a@);
        assert(a0 =~= Seq::new(n as nat, |jj: int| frac_int(1)));
        let mut b = Rat::one();
        let mut t = Rat::one();
        assert(vand_div(cv, xx@, a0, n as nat, n as nat) == Some((a0, b@, t@)));
        let mut k: usize = n;
        while k > 1
            invariant
                1 <= k <= n,
                a.len() == n,
                vand_div(cv, xx@, a0, n as nat, k as nat) == Some((seq_frac(a@), b@, t@)),
            decreases k,
        {
            k -= 1;
            let ghost a_pre = a@;
            let p = match xx.mul(b) {
                Some(v) => v,
                None => {
                    proof {
                        assert(vand_div(cv, xx@, a0, n as nat, k as nat) is None);
                        lemma_vand_div_none(cv, xx@, a0, n as nat, 1, k as nat);
                        assert(vand_rows(xv, qv, cv, n as nat, (i2 + 1) as nat) is Err);
                        lemma_vand_rows_err(xv, qv, cv, n as nat, (i2 + 1) as nat, n as nat);
                    }
                    return Err(Error::Overflow);
                },
            };
            let b2 = match c[k].add(p) {
                Some(v) => v,
                None => {
                    proof {
                        assert(vand_div(cv, xx@, a0, n as nat, k as nat) is None);
                        lemma_vand_div_none(cv, xx@, a0, n as nat, 1, k as nat);
                        assert(vand_rows(xv, qv, cv, n as nat, (i2 + 1) as nat) is Err);
                        lemma_vand_rows_err(xv, qv, cv, n as nat, (i2 + 1) as nat, n as nat);
                    }
                    return Err(Error::Overflow);
                },
            };
            let p2 = match xx.mul(t) {
                Some(v) => v,
                None => {
                    proof {
                        assert(vand_div(cv, xx@, a0, n as nat, k as nat) is None);
                        lemma_vand_div_none(cv, xx@, a0, n as nat, 1, k as nat);
                        assert(vand_rows(xv, qv, cv, n as nat, (i2 + 1) as nat) is Err);
                        lemma_vand_rows_err(xv, qv, cv, n as nat, (i2 + 1) as nat, n as nat);
                    }
                    return Err(Error::Overflow);
                },
            };
            let t2 = match p2.add(b2) {
                Some(v) => v,
                None => {
                    proof {
                        assert(vand_div(cv, xx@, a0, n as nat, k as nat) is None);
                        lemma_vand_div_none(cv, xx@, a0, n as nat, 1, k as nat);
                        assert(vand_rows(xv, qv, cv, n as nat, (i2 + 1) as nat) is Err);
                        lemma_vand_rows_err(xv, qv, cv, n as nat, (i2 + 1) as nat, n as nat);
                    }
                    return Err(Error::Overflow);
                },
            };
            a.set(k - 1, b2);
            b = b2;
            t = t2;
            proof {
                crate::rat::lemma_seq_frac_update(a_pre, (k - 1) as int, b2);
                assert(vand_div(cv, xx@, a0, n as nat, k as nat) == Some(
                    (seq_frac(a@), b@, t@),
                ));
            }
        }
        if t.is_zero() {
            proof {
                assert(vand_rows(xv, qv, cv, n as nat, (i2 + 1) as nat) is Err);
                lemma_vand_rows_err(xv, qv, cv, n as nat, (i2 + 1) as nat, n as nat);
            }
            return Err(Error::SingularSystem);
        }
        // Accumulate the row.
        let ghost w_base = seq_frac(wk@);
        let mut k2: usize = 0;
        while k2 < n
            invariant
                k2 <= n,
                wk.len() == n,
                a.len() == n,
                t@.n != 0,
                vand_row(w_base, seq_frac(a@), qv[i2 as int], t@, k2 as nat) == Some(
                    seq_frac(wk@),
                ),
            decreases n - k2,
        {
            let ghost w_pre = wk@;
            let p = match a[k2].mul(q[i2]) {
                Some(v) => v,
                None => {
                    proof {
                        assert(vand_row(w_base, seq_frac(a@), qv[i2 as int], t@, (k2
                            + 1) as nat) is None);
                        lemma_vand_row_none(w_base, seq_frac(a@), qv[i2 as int], t@, (k2
                            + 1) as nat, n as nat);
                        assert(vand_rows(xv, qv, cv, n as nat, (i2 + 1) as nat) is Err);
                        lemma_vand_rows_err(xv, qv, cv, n as nat, (i2 + 1) as nat, n as nat);
                    }
                    return Err(Error::Overflow);
                },
            };
            let dd = match p.div(t) {
                Some(v) => v,
                None => {
                    proof {
                        assert(vand_row(w_base, seq_frac(a@), qv[i2 as int], t@, (k2
                            + 1) as nat) is None);
                        lemma_vand_row_none(w_base, seq_frac(a@), qv[i2 as int], t@, (k2
                            + 1) as nat, n as nat);
                        assert(vand_rows(xv, qv, cv, n as nat, (i2 + 1) as nat) is Err);
                        lemma_vand_rows_err(xv, qv, cv, n as nat, (i2 + 1) as nat, n as nat);
                    }
                    return Err(Error::Overflow);
                },
            };
            let v = match wk[k2].add(dd) {
                Some(v) => v,
                None => {
                    proof {
                        assert(vand_row(w_base, seq_frac(a@), qv[i2 as int], t@, (k2
                            + 1) as nat) is None);
                        lemma_vand_row_none(w_base, seq_frac(a@), qv[i2 as int], t@, (k2
                            + 1) as nat, n as nat);
                        assert(vand_rows(xv, qv, cv, n as nat, (i2 + 1) as nat) is Err);
                        lemma_vand_rows_err(xv, qv, cv, n as nat, (i2 + 1) as nat, n as nat);
                    }
                    return Err(Error::Overflow);
                },
            };
            wk.set(k2, v);
            proof {
                crate::rat::lemma_seq_frac_update(w_pre, k2 as int, v);
                assert(vand_row(w_base, seq_frac(a@), qv[i2 as int], t@, (k2 + 1) as nat)
                    == Some(seq_frac(wk@)));
            }
            k2 += 1;
        }
        i2 += 1;
        proof {
            assert(vand_rows(xv, qv, cv, n as nat, i2 as nat) == Ok::<_, Error>(seq_frac(wk@)));
        }
    }
    *w = wk;
    Ok(())
}

} // verus!

//! Soil temperature update: application of the evolution tensor and the
//! micro-stepped coupling of brine loop and soil grid.
//!
//! The soil grid is a flat row-major array of `(dim_rad + 2)` rows of
//! `dim_ax` columns; row `0` is the pipe-side ghost row and row
//! `dim_rad + 1` the far-field ghost row. The evolution tensor has shape
//! `dim_ax x dim_rad x (dim_rad + 2)`.

use vstd::prelude::*;

use crate::brine::{dyn_refresh_spec, stat_refresh_spec, BrineMethod};
use crate::error::Error;
use crate::rat::{
    frac_int, rat_add_spec, rat_div_spec, rat_mul_spec, rat_sub_spec, seq_frac, Frac, Rat,
};

verus! {

/// Partial dot product of tensor row `(a, i)` with column `a` of the grid:
/// the first `k` of the `dim_rad + 2` terms.
pub open spec fn ts_dot(
    tensor: Seq<Frac>,
    ts: Seq<Frac>,
    da: nat,
    dr: nat,
    a: int,
    i: int,
    k: nat,
) -> Option<Frac>
    decreases k,
{
    if k == 0 {
        Some(frac_int(0))
    } else {
        match ts_dot(tensor, ts, da, dr, a, i, (k - 1) as nat) {
            None => None,
            Some(s) => match rat_mul_spec(
                tensor[dr * (dr + 2) * a + (dr + 2) * i + (k - 1)],
                ts[da * (k - 1) + a],
            ) {
                None => None,
                Some(p) => rat_add_spec(s, p),
            },
        }
    }
}

/// The new values of rows `1..=i` in column `a`: full dot products.
pub open spec fn ts_row(
    tensor: Seq<Frac>,
    ts: Seq<Frac>,
    da: nat,
    dr: nat,
    a: int,
    i: nat,
) -> Option<Seq<Frac>>
    decreases i,
{
    if i == 0 {
        Some(Seq::empty())
    } else {
        match ts_row(tensor, ts, da, dr, a, (i - 1) as nat) {
            None => None,
            Some(xs) => match ts_dot(tensor, ts, da, dr, a, i - 1, (dr + 2) as nat) {
                None => None,
                Some(x) => Some(xs.push(x)),
            },
        }
    }
}

/// Writes the new values `xs` into rows `1..=i` of column `a`.
pub open spec fn ts_write(ts: Seq<Frac>, xs: Seq<Frac>, da: nat, a: int, i: nat) -> Seq<Frac>
    decreases i,
{
    if i == 0 {
        ts
    } else {
        ts_write(ts, xs, da, a, (i - 1) as nat).update(da * i + a, xs[i - 1])
    }
}

/// Columns `0..a` of the grid refreshed through the evolution tensor.
pub open spec fn ts_slices(
    tensor: Seq<Frac>,
    ts: Seq<Frac>,
    da: nat,
    dr: nat,
    a: nat,
) -> Option<Seq<Frac>>
    decreases a,
{
    if a == 0 {
        Some(ts)
    } else {
        match ts_slices(tensor, ts, da, dr, (a - 1) as nat) {
            None => None,
            Some(s) => match ts_row(tensor, s, da, dr, a - 1, dr) {
                None => None,
                Some(xs) => Some(ts_write(s, xs, da, a - 1, dr)),
            },
        }
    }
}

/// What `T_soil_refresh` computes: every column's inner rows replaced by the
/// tensor product `T'[a][i] = sum_k tensor[a][i][k] * T[k][a]`.
pub open spec fn ts_refresh_spec(tensor: Seq<Frac>, ts: Seq<Frac>, da: nat, dr: nat) -> Option<
    Seq<Frac>,
> {
    ts_slices(tensor, ts, da, dr, da)
}

proof fn lemma_ts_slices_none(tensor: Seq<Frac>, ts: Seq<Frac>, da: nat, dr: nat, a: nat, m: nat)
    requires
        a <= m,
        ts_slices(tensor, ts, da, dr, a) is None,
    ensures
        ts_slices(tensor, ts, da, dr, m) is None,
    decreases m,
{
    if m > a {
        lemma_ts_slices_none(tensor, ts, da, dr, a, (m - 1) as nat);
    }
}

proof fn lemma_ts_row_none(tensor: Seq<Frac>, ts: Seq<Frac>, da: nat, dr: nat, a: int, i: nat, m: nat)
    requires
        i <= m,
        ts_row(tensor, ts, da, dr, a, i) is None,
    ensures
        ts_row(tensor, ts, da, dr, a, m) is None,
    decreases m,
{
    if m > i {
        lemma_ts_row_none(tensor, ts, da, dr, a, i, (m - 1) as nat);
    }
}

proof fn lemma_ts_dot_none(tensor: Seq<Frac>, ts: Seq<Frac>, da: nat, dr: nat, a: int, i: int, k: nat, m: nat)
    requires
        k <= m,
        ts_dot(tensor, ts, da, dr, a, i, k) is None,
    ensures
        ts_dot(tensor, ts, da, dr, a, i, m) is None,
    decreases m,
{
    if m > k {
        lemma_ts_dot_none(tensor, ts, da, dr, a, i, k, (m - 1) as nat);
    }
}

/// Applies the evolution tensor to the soil grid in place: each column's
/// inner rows become the tensor product of the whole column (ghost rows
/// included). The grid changes exactly when the computation succeeds.
#[verifier::loop_isolation(false)]
#[verifier::rlimit(100)]
#[verifier::spinoff_prover]
pub fn T_soil_refresh(
    t_soil: &mut Vec<Rat>,
    t_soil_tensor: &Vec<Rat>,
    dim_ax: usize,
    dim_rad: usize,
) -> (res: Result<(), Error>)
    requires
        1 <= dim_ax <= 0x4000,
        1 <= dim_rad <= 0x4000,
        old(t_soil).len() == (dim_rad + 2) * dim_ax,
        t_soil_tensor.len() == dim_ax * dim_rad * (dim_rad + 2),
    ensures
        match ts_refresh_spec(
            seq_frac(t_soil_tensor@),
            seq_frac(old(t_soil)@),
            dim_ax as nat,
            dim_rad as nat,
        ) {
            Some(s) => res is Ok && seq_frac(final(t_soil)@) == s,
            None => res == Err::<(), Error>(Error::Overflow) && final(t_soil)@ == old(t_soil)@,
        },
        final(t_soil).len() == old(t_soil).len(),
{
    let ghost tv = seq_frac(t_soil_tensor@);
    let ghost ts0 = seq_frac(t_soil@);
    let mut ts: Vec<Rat> = t_soil.clone();
    let s1 = dim_rad + 2;
    proof {
        assert(dim_rad * s1 <= 0x4000 * 0x4002) by (nonlinear_arith)
            requires
                1 <= dim_rad <= 0x4000,
                s1 == dim_rad + 2,
        ;
    }
    let s0 = dim_rad * s1;
    let mut a: usize = 0;
    while a < dim_ax
        invariant
            a <= dim_ax,
            ts.len() == (dim_rad + 2) * dim_ax,
            ts_slices(tv, ts0, dim_ax as nat, dim_rad as nat, a as nat) == Some(seq_frac(ts@)),
        decreases dim_ax - a,
    {
        let ghost scur = seq_frac(ts@);
        // New values for the inner rows of column `a`.
        let mut xs: Vec<Rat> = Vec::new();
        let mut i: usize = 0;
        while i < dim_rad
            invariant
                i <= dim_rad,
                a < dim_ax,
                xs.len() == i,
                ts.len() == (dim_rad + 2) * dim_ax,
                seq_frac(ts@) == scur,
                ts_row(tv, scur, dim_ax as nat, dim_rad as nat, a as int, i as nat) == Some(
                    seq_frac(xs@),
                ),
            decreases dim_rad - i,
        {
            let mut x = Rat::zero();
            let mut k: usize = 0;
            proof {
                assert(s0 * a + s1 * i + (dim_rad + 2) <= dim_ax * dim_rad * (dim_rad + 2))
                    by (nonlinear_arith)
                    requires
                        s0 == dim_rad * s1,
                        s1 == dim_rad + 2,
                        a < dim_ax,
                        i < dim_rad,
                        dim_rad >= 1,
                        dim_ax >= 1,
                ;
            }
            while k < dim_rad + 2
                invariant
                    k <= dim_rad + 2,
                    a < dim_ax,
                    i < dim_rad,
                    ts.len() == (dim_rad + 2) * dim_ax,
                    seq_frac(ts@) == scur,
                    s0 * a + s1 * i + (dim_rad + 2) <= dim_ax * dim_rad * (dim_rad + 2),
                    ts_dot(tv, scur, dim_ax as nat, dim_rad as nat, a as int, i as int, k as nat)
                        == Some(x@),
                decreases dim_rad + 2 - k,
            {
                proof {
                    assert(dim_ax * k + a < (dim_rad + 2) * dim_ax) by (nonlinear_arith)
                        requires
                            k < dim_rad + 2,
                            a < dim_ax,
                            dim_ax >= 1,
                    ;
                }
                let p = match t_soil_tensor[s0 * a + s1 * i + k].mul(ts[dim_ax * k + a]) {
                    Some(v) => v,
                    None => {
                        proof {
                            lemma_ts_dot_none(tv, scur, dim_ax as nat, dim_rad as nat, a as int, i as int, (k + 1) as nat, (dim_rad + 2) as nat);
                            lemma_ts_row_none(tv, scur, dim_ax as nat, dim_rad as nat, a as int, (i + 1) as nat, dim_rad as nat);
                            lemma_ts_slices_none(tv, ts0, dim_ax as nat, dim_rad as nat, (a + 1) as nat, dim_ax as nat);
                        }
                        return Err(Error::Overflow);
                    },
                };
                let x2 = match x.add(p) {
                    Some(v) => v,
                    None => {
                        proof {
                            lemma_ts_dot_none(tv, scur, dim_ax as nat, dim_rad as nat, a as int, i as int, (k + 1) as nat, (dim_rad + 2) as nat);
                            lemma_ts_row_none(tv, scur, dim_ax as nat, dim_rad as nat, a as int, (i + 1) as nat, dim_rad as nat);
                            lemma_ts_slices_none(tv, ts0, dim_ax as nat, dim_rad as nat, (a + 1) as nat, dim_ax as nat);
                        }
                        return Err(Error::Overflow);
                    },
                };
                x = x2;
                k += 1;
            }
            let ghost xs_pre = xs@;
            xs.push(x);
            proof {
                crate::rat::lemma_seq_frac_push(xs_pre, x);
            }
            i += 1;
        }
        // Write the new values back into rows 1..=dim_rad of column `a`.
        let mut i2: usize = 0;
        while i2 < dim_rad
            invariant
                i2 <= dim_rad,
                a < dim_ax,
                xs.len() == dim_rad,
                ts.len() == (dim_rad + 2) * dim_ax,
                ts_write(scur, seq_frac(xs@), dim_ax as nat, a as int, i2 as nat) == seq_frac(
                    ts@,
                ),
            decreases dim_rad - i2,
        {
            proof {
                assert(dim_ax * (i2 + 1) + a < (dim_rad + 2) * dim_ax) by (nonlinear_arith)
                    requires
                        i2 < dim_rad,
                        a < dim_ax,
                        dim_ax >= 1,
                ;
            }
            let ghost ts_pre = ts@;
            ts.set(dim_ax * (i2 + 1) + a, xs[i2]);
            proof {
                crate::rat::lemma_seq_frac_update(ts_pre, (dim_ax * (i2 + 1) + a) as int, xs@[i2 as int]);
                assert(ts_write(scur, seq_frac(xs@), dim_ax as nat, a as int, (i2 + 1) as nat)
                    == seq_frac(ts@));
            }
            i2 += 1;
        }
        a += 1;
        proof {
            assert(ts_slices(tv, ts0, dim_ax as nat, dim_rad as nat, a as nat) == Some(
                seq_frac(ts@),
            ));
        }
    }
    *t_soil = ts;
    Ok(())
}

/// Per-exchanger pump-state parameters: evolution tensor, innermost
/// conductances and the brine model.
#[derive(Clone, Debug)]
pub struct TSoilParameters {
    pub T_soil_tensor: Vec<Rat>,
    pub L: Vec<Rat>,
    pub T_brine_method: BrineMethod,
}

/// What the chosen brine model's `refresh` computes.
pub open spec fn brine_refresh_spec(
    m: BrineMethod,
    t_wall: Seq<Frac>,
    tu: Seq<Frac>,
    q: Seq<Frac>,
    da: nat,
    t_sink: Frac,
) -> Option<(Seq<Frac>, Seq<Frac>, Frac)> {
    match m {
        BrineMethod::Dynamic(p) => dyn_refresh_spec(
            p.n_sub_steps as nat,
            p.kappa_ax@,
            seq_frac(p.kappa_rad@),
            seq_frac(p.lambda_brine@),
            t_wall,
            tu,
            q,
            da,
            t_sink,
        ),
        BrineMethod::Stationary(p) => stat_refresh_spec(
            seq_frac(p.kappa_soil@),
            seq_frac(p.kappa_brine@),
            seq_frac(p.L@),
            t_wall,
            tu,
            q,
            da,
            t_sink,
        ),
    }
}

/// Shape constraints the chosen brine model asks of its parameter vectors.
pub open spec fn brine_method_wf(m: BrineMethod, da: nat) -> bool {
    match m {
        BrineMethod::Dynamic(p) => 1 <= p.n_sub_steps <= 0x10000 && p.kappa_rad.len() >= da
            && p.lambda_brine.len() >= da,
        BrineMethod::Stationary(p) => p.kappa_soil.len() >= da && p.kappa_brine.len() >= da
            && p.L.len() >= da,
    }
}

impl BrineMethod {
    /// Dispatches to the chosen brine model's `refresh`.
    pub fn refresh(
        &self,
        t_wall: &Vec<Rat>,
        t_u: &mut Vec<Rat>,
        q_wall: &mut Vec<Rat>,
        dim_ax: usize,
        t_sink: Rat,
    ) -> (res: Result<Rat, Error>)
        requires
            1 <= dim_ax,
            brine_method_wf(*self, dim_ax as nat),
            t_wall.len() >= dim_ax,
            old(t_u).len() == 2 * dim_ax,
            old(q_wall).len() == dim_ax,
        ensures
            match brine_refresh_spec(
                *self,
                seq_frac(t_wall@),
                seq_frac(old(t_u)@),
                seq_frac(old(q_wall)@),
                dim_ax as nat,
                t_sink@,
            ) {
                Some(r) => res is Ok && seq_frac(final(t_u)@) == r.0 && seq_frac(final(q_wall)@)
                    == r.1 && res->Ok_0@ == r.2,
                None => res == Err::<Rat, Error>(Error::Overflow) && final(t_u)@ == old(t_u)@
                    && final(q_wall)@ == old(q_wall)@,
            },
            final(t_u).len() == old(t_u).len(),
            final(q_wall).len() == old(q_wall).len(),
    {
        match self {
            BrineMethod::Dynamic(p) => p.refresh(t_wall, t_u, q_wall, dim_ax, t_sink),
            BrineMethod::Stationary(p) => p.refresh(t_wall, t_u, q_wall, dim_ax, t_sink),
        }
    }
}

/// Ghost-row and flux-sum pass of one micro-step, entries `0..i`: row `0`
/// of the grid becomes `T[1][j] - q[j] / L[j]`, and the flux accumulator
/// grows by `q[j]`.
pub open spec fn ss_ghost(
    ts: Seq<Frac>,
    q: Seq<Frac>,
    el: Seq<Frac>,
    sums: Seq<Frac>,
    da: nat,
    i: nat,
) -> Option<(Seq<Frac>, Seq<Frac>)>
    decreases i,
{
    if i == 0 {
        Some((ts, sums))
    } else {
        match ss_ghost(ts, q, el, sums, da, (i - 1) as nat) {
            None => None,
            Some(s) => {
                let j = i - 1;
                match rat_div_spec(q[j as int], el[j as int]) {
                    None => None,
                    Some(d) => match rat_sub_spec(s.0[da + j], d) {
                        None => None,
                        Some(v) => match rat_add_spec(s.1[j as int], q[j as int]) {
                            None => None,
                            Some(sv) => Some((s.0.update(j as int, v), s.1.update(j as int, sv))),
                        },
                    },
                }
            },
        }
    }
}

/// Total wall heat flux of one micro-step: the sum of the first `i`
/// entries of the flux vector.
pub open spec fn flux_total(q: Seq<Frac>, i: nat) -> Option<Frac>
    decreases i,
{
    if i == 0 {
        Some(frac_int(0))
    } else {
        match flux_total(q, (i - 1) as nat) {
            None => None,
            Some(s) => rat_add_spec(s, q[i - 1]),
        }
    }
}

proof fn lemma_flux_total_none(q: Seq<Frac>, i: nat, m: nat)
    requires
        i <= m,
        flux_total(q, i) is None,
    ensures
        flux_total(q, m) is None,
    decreases m,
{
    if m > i {
        lemma_flux_total_none(q, i, (m - 1) as nat);
    }
}

/// One micro-step of the soil stepper: brine refresh against the wall row,
/// ghost-row and flux-sum update, then the evolution tensor, then the
/// outlet-temperature accumulators (plain, and weighted by the step's total
/// wall flux).
pub open spec fn ss_step(
    prm: TSoilParameters,
    state: (Seq<Frac>, Seq<Frac>, Seq<Frac>, Seq<Frac>, Frac, Frac, Frac),
    da: nat,
    dr: nat,
    t_sink: Frac,
) -> Option<(Seq<Frac>, Seq<Frac>, Seq<Frac>, Seq<Frac>, Frac, Frac, Frac)> {
    let t_wall = state.0.subrange(da as int, 2 * da as int);
    match brine_refresh_spec(prm.T_brine_method, t_wall, state.1, state.2, da, t_sink) {
        None => None,
        Some(r) => match ss_ghost(state.0, r.1, seq_frac(prm.L@), state.3, da, da) {
            None => None,
            Some(g) => match ts_refresh_spec(seq_frac(prm.T_soil_tensor@), g.0, da, dr) {
                None => None,
                Some(ts2) => match rat_add_spec(state.4, r.2) {
                    None => None,
                    Some(acc) => match flux_total(r.1, da) {
                        None => None,
                        Some(w) => match rat_mul_spec(w, r.2) {
                            None => None,
                            Some(wp) => match rat_add_spec(state.5, wp) {
                                None => None,
                                Some(num) => match rat_add_spec(state.6, w) {
                                    None => None,
                                    Some(den) => Some((ts2, r.0, r.1, g.1, acc, num, den)),
                                },
                            },
                        },
                    },
                },
            },
        },
    }
}

/// The first `n` micro-steps.
pub open spec fn ss_steps(
    prm: TSoilParameters,
    state: (Seq<Frac>, Seq<Frac>, Seq<Frac>, Seq<Frac>, Frac, Frac, Frac),
    da: nat,
    dr: nat,
    t_sink: Frac,
    n: nat,
) -> Option<(Seq<Frac>, Seq<Frac>, Seq<Frac>, Seq<Frac>, Frac, Frac, Frac)>
    decreases n,
{
    if n == 0 {
        Some(state)
    } else {
        match ss_steps(prm, state, da, dr, t_sink, (n - 1) as nat) {
            None => None,
            Some(s) => ss_step(prm, s, da, dr, t_sink),
        }
    }
}

/// What `soil_step` computes: `n_steps` micro-steps, then the flux-weighted
/// mean of the per-step outlet temperatures; when the accumulated flux
/// weight is zero, the unweighted mean over the steps.
#[verifier::opaque]
pub open spec fn soil_step_spec(
    prm: TSoilParameters,
    ts: Seq<Frac>,
    tu: Seq<Frac>,
    q: Seq<Frac>,
    sums: Seq<Frac>,
    da: nat,
    dr: nat,
    t_sink: Frac,
    n: nat,
) -> Option<((Seq<Frac>, Seq<Frac>, Seq<Frac>, Seq<Frac>, Frac, Frac, Frac), Frac)> {
    match ss_steps(prm, (ts, tu, q, sums, frac_int(0), frac_int(0), frac_int(0)), da, dr, t_sink, n) {
        None => None,
        Some(s) => if s.6.n == 0 {
            match rat_div_spec(s.4, frac_int(n as int)) {
                None => None,
                Some(out) => Some((s, out)),
            }
        } else {
            match rat_div_spec(s.5, s.6) {
                None => None,
                Some(out) => Some((s, out)),
            }
        },
    }
}

proof fn lemma_ss_ghost_none(
    ts: Seq<Frac>,
    q: Seq<Frac>,
    el: Seq<Frac>,
    sums: Seq<Frac>,
    da: nat,
    i: nat,
    m: nat,
)
    requires
        i <= m,
        ss_ghost(ts, q, el, sums, da, i) is None,
    ensures
        ss_ghost(ts, q, el, sums, da, m) is None,
    decreases m,
{
    if m > i {
        lemma_ss_ghost_none(ts, q, el, sums, da, i, (m - 1) as nat);
    }
}

proof fn lemma_ss_steps_none(
    prm: TSoilParameters,
    state: (Seq<Frac>, Seq<Frac>, Seq<Frac>, Seq<Frac>, Frac, Frac, Frac),
    da: nat,
    dr: nat,
    t_sink: Frac,
    n: nat,
    m: nat,
)
    requires
        n <= m,
        ss_steps(prm, state, da, dr, t_sink, n) is None,
    ensures
        ss_steps(prm, state, da, dr, t_sink, m) is None,
    decreases m,
{
    if m > n {
        lemma_ss_steps_none(prm, state, da, dr, t_sink, n, (m - 1) as nat);
    }
}

/// Advances the soil grid and brine loop by `n_steps` implicit micro-steps,
/// accumulating wall heat flux into `sum_q0`, and returns the flux-weighted
/// mean outlet (source) temperature over the micro-steps (the unweighted
/// mean when the accumulated flux weight is zero). All `&mut` buffers change
/// exactly when the whole computation succeeds.
#[verifier::loop_isolation(false)]
#[verifier::rlimit(100)]
#[verifier::spinoff_prover]
pub fn soil_step(
    t_soil: &mut Vec<Rat>,
    t_sink: Rat,
    sum_q0: &mut Vec<Rat>,
    dim_ax: usize,
    dim_rad: usize,
    n_steps: usize,
    q_wall: &mut Vec<Rat>,
    t_u: &mut Vec<Rat>,
    prm: &TSoilParameters,
) -> (res: Result<Rat, Error>)
    requires
        1 <= dim_ax <= 0x4000,
        1 <= dim_rad <= 0x4000,
        1 <= n_steps <= 0x10000,
        old(t_soil).len() == (dim_rad + 2) * dim_ax,
        old(sum_q0).len() == dim_ax,
        old(q_wall).len() == dim_ax,
        old(t_u).len() == 2 * dim_ax,
        prm.T_soil_tensor.len() == dim_ax * dim_rad * (dim_rad + 2),
        prm.L.len() >= dim_ax,
        brine_method_wf(prm.T_brine_method, dim_ax as nat),
        forall|j: int| 0 <= j < dim_ax ==> #[trigger] prm.L@[j]@.n != 0,
    ensures
        match soil_step_spec(
            *prm,
            seq_frac(old(t_soil)@),
            seq_frac(old(t_u)@),
            seq_frac(old(q_wall)@),
            seq_frac(old(sum_q0)@),
            dim_ax as nat,
            dim_rad as nat,
            t_sink@,
            n_steps as nat,
        ) {
            Some(r) => res is Ok && seq_frac(final(t_soil)@) == r.0.0 && seq_frac(final(t_u)@)
                == r.0.1 && seq_frac(final(q_wall)@) == r.0.2 && seq_frac(final(sum_q0)@)
                == r.0.3 && res->Ok_0@ == r.1,
            None => res == Err::<Rat, Error>(Error::Overflow) && final(t_soil)@ == old(t_soil)@
                && final(t_u)@ == old(t_u)@ && final(q_wall)@ == old(q_wall)@ && final(sum_q0)@
                == old(sum_q0)@,
        },
        final(t_soil).len() == old(t_soil).len(),
        final(t_u).len() == old(t_u).len(),
        final(q_wall).len() == old(q_wall).len(),
        final(sum_q0).len() == old(sum_q0).len(),
{
    proof {
        reveal(soil_step_spec);
    }
    let ghost st0 = (
        seq_frac(t_soil@),
        seq_frac(t_u@),
        seq_frac(q_wall@),
        seq_frac(sum_q0@),
        frac_int(0),
        frac_int(0),
        frac_int(0),
    );
    let mut ts: Vec<Rat> = t_soil.clone();
    let mut tu: Vec<Rat> = t_u.clone();
    let mut q: Vec<Rat> = q_wall.clone();
    let mut sums: Vec<Rat> = sum_q0.clone();
    let mut acc = Rat::zero();
    let mut acc_num = Rat::zero();
    let mut acc_den = Rat::zero();
    let mut n: usize = 0;
    while n < n_steps
        invariant
            n <= n_steps,
            ts.len() == (dim_rad + 2) * dim_ax,
            tu.len() == 2 * dim_ax,
            q.len() == dim_ax,
            sums.len() == dim_ax,
            ss_steps(*prm, st0, dim_ax as nat, dim_rad as nat, t_sink@, n as nat) == Some(
                (
                    seq_frac(ts@),
                    seq_frac(tu@),
                    seq_frac(q@),
                    seq_frac(sums@),
                    acc@,
                    acc_num@,
                    acc_den@,
                ),
            ),
        decreases n_steps - n,
    {
        let ghost state_pre = (
            seq_frac(ts@),
            seq_frac(tu@),
            seq_frac(q@),
            seq_frac(sums@),
            acc@,
            acc_num@,
            acc_den@,
        );
        // Wall temperatures: row 1 of the grid.
        proof {
            assert(2 * dim_ax <= (dim_rad + 2) * dim_ax) by (nonlinear_arith)
                requires
                    dim_ax >= 1,
                    dim_rad >= 1,
            ;
        }
        let mut t_wall: Vec<Rat> = Vec::new();
        let mut w: usize = 0;
        while w < dim_ax
            invariant
                w <= dim_ax,
                t_wall.len() == w,
                ts.len() == (dim_rad + 2) * dim_ax,
                forall|j: int| 0 <= j < w ==> #[trigger] t_wall@[j] == ts@[dim_ax + j],
            decreases dim_ax - w,
        {
            t_wall.push(ts[dim_ax + w]);
            w += 1;
        }
        assert(seq_frac(t_wall@) =~= seq_frac(ts@).subrange(dim_ax as int, 2 * dim_ax));
        let tsrc = match prm.T_brine_method.refresh(&t_wall, &mut tu, &mut q, dim_ax, t_sink) {
            Ok(v) => v,
            Err(_) => {
                proof {
                    assert(ss_step(*prm, state_pre, dim_ax as nat, dim_rad as nat, t_sink@)
                        is None);
                    lemma_ss_steps_none(*prm, st0, dim_ax as nat, dim_rad as nat, t_sink@, (n + 1) as nat, n_steps as nat);
                }
                return Err(Error::Overflow);
            },
        };
        let ghost brine_out = (seq_frac(tu@), seq_frac(q@), tsrc@);
        // Ghost row and flux sums.
        let ghost ts_g0 = seq_frac(ts@);
        let ghost sums_g0 = seq_frac(sums@);
        let mut i: usize = 0;
        while i < dim_ax
            invariant
                i <= dim_ax,
                ts.len() == (dim_rad + 2) * dim_ax,
                sums.len() == dim_ax,
                q.len() == dim_ax,
                ss_ghost(ts_g0, seq_frac(q@), seq_frac(prm.L@), sums_g0, dim_ax as nat, i as nat)
                    == Some((seq_frac(ts@), seq_frac(sums@))),
            decreases dim_ax - i,
        {
            let d = match q[i].div(prm.L[i]) {
                Some(v) => v,
                None => {
                    proof {
                        lemma_ss_ghost_none(ts_g0, seq_frac(q@), seq_frac(prm.L@), sums_g0, dim_ax as nat, (i + 1) as nat, dim_ax as nat);
                        assert(ss_step(*prm, state_pre, dim_ax as nat, dim_rad as nat, t_sink@)
                            is None);
                        lemma_ss_steps_none(*prm, st0, dim_ax as nat, dim_rad as nat, t_sink@, (n + 1) as nat, n_steps as nat);
                    }
                    return Err(Error::Overflow);
                },
            };
            let v = match ts[dim_ax + i].sub(d) {
                Some(v) => v,
                None => {
                    proof {
                        lemma_ss_ghost_none(ts_g0, seq_frac(q@), seq_frac(prm.L@), sums_g0, dim_ax as nat, (i + 1) as nat, dim_ax as nat);
                        assert(ss_step(*prm, state_pre, dim_ax as nat, dim_rad as nat, t_sink@)
                            is None);
                        lemma_ss_steps_none(*prm, st0, dim_ax as nat, dim_rad as nat, t_sink@, (n + 1) as nat, n_steps as nat);
                    }
                    return Err(Error::Overflow);
                },
            };
            let sv = match sums[i].add(q[i]) {
                Some(v) => v,
                None => {
                    proof {
                        lemma_ss_ghost_none(ts_g0, seq_frac(q@), seq_frac(prm.L@), sums_g0, dim_ax as nat, (i + 1) as nat, dim_ax as nat);
                        assert(ss_step(*prm, state_pre, dim_ax as nat, dim_rad as nat, t_sink@)
                            is None);
                        lemma_ss_steps_none(*prm, st0, dim_ax as nat, dim_rad as nat, t_sink@, (n + 1) as nat, n_steps as nat);
                    }
                    return Err(Error::Overflow);
                },
            };
            let ghost ts_pre = ts@;
            let ghost sums_pre = sums@;
            ts.set(i, v);
            sums.set(i, sv);
            proof {
                crate::rat::lemma_seq_frac_update(ts_pre, i as int, v);
                crate::rat::lemma_seq_frac_update(sums_pre, i as int, sv);
                assert(ss_ghost(ts_g0, seq_frac(q@), seq_frac(prm.L@), sums_g0, dim_ax as nat, (
                i + 1) as nat) == Some((seq_frac(ts@), seq_frac(sums@))));
            }
            i += 1;
        }
        // Evolution tensor.
        match T_soil_refresh(&mut ts, &prm.T_soil_tensor, dim_ax, dim_rad) {
            Ok(_) => {},
            Err(_) => {
                proof {
                    assert(ss_step(*prm, state_pre, dim_ax as nat, dim_rad as nat, t_sink@)
                        is None);
                    lemma_ss_steps_none(*prm, st0, dim_ax as nat, dim_rad as nat, t_sink@, (n + 1) as nat, n_steps as nat);
                }
                return Err(Error::Overflow);
            },
        }
        let acc2 = match acc.add(tsrc) {
            Some(v) => v,
            None => {
                proof {
                    assert(ss_step(*prm, state_pre, dim_ax as nat, dim_rad as nat, t_sink@)
                        is None);
                    lemma_ss_steps_none(*prm, st0, dim_ax as nat, dim_rad as nat, t_sink@, (n + 1) as nat, n_steps as nat);
                }
                return Err(Error::Overflow);
            },
        };
        // Total wall flux of this step, as the weight of its outlet value.
        let mut wsum = Rat::zero();
        let mut wi: usize = 0;
        while wi < dim_ax
            invariant
                wi <= dim_ax,
                flux_total(seq_frac(q@), wi as nat) == Some(wsum@),
            decreases dim_ax - wi,
        {
            let w2 = match wsum.add(q[wi]) {
                Some(v) => v,
                None => {
                    proof {
                        lemma_flux_total_none(seq_frac(q@), (wi + 1) as nat, dim_ax as nat);
                        assert(ss_step(*prm, state_pre, dim_ax as nat, dim_rad as nat, t_sink@)
                            is None);
                        lemma_ss_steps_none(*prm, st0, dim_ax as nat, dim_rad as nat, t_sink@, (n + 1) as nat, n_steps as nat);
                    }
                    return Err(Error::Overflow);
                },
            };
            wsum = w2;
            wi += 1;
        }
        let wp = match wsum.mul(tsrc) {
            Some(v) => v,
            None => {
                proof {
                    assert(ss_step(*prm, state_pre, dim_ax as nat, dim_rad as nat, t_sink@)
                        is None);
                    lemma_ss_steps_none(*prm, st0, dim_ax as nat, dim_rad as nat, t_sink@, (n + 1) as nat, n_steps as nat);
                }
                return Err(Error::Overflow);
            },
        };
        let num2 = match acc_num.add(wp) {
            Some(v) => v,
            None => {
                proof {
                    assert(ss_step(*prm, state_pre, dim_ax as nat, dim_rad as nat, t_sink@)
                        is None);
                    lemma_ss_steps_none(*prm, st0, dim_ax as nat, dim_rad as nat, t_sink@, (n + 1) as nat, n_steps as nat);
                }
                return Err(Error::Overflow);
            },
        };
        let den2 = match acc_den.add(wsum) {
            Some(v) => v,
            None => {
                proof {
                    assert(ss_step(*prm, state_pre, dim_ax as nat, dim_rad as nat, t_sink@)
                        is None);
                    lemma_ss_steps_none(*prm, st0, dim_ax as nat, dim_rad as nat, t_sink@, (n + 1) as nat, n_steps as nat);
                }
                return Err(Error::Overflow);
            },
        };
        acc = acc2;
        acc_num = num2;
        acc_den = den2;
        n += 1;
        proof {
            assert(ss_steps(*prm, st0, dim_ax as nat, dim_rad as nat, t_sink@, n as nat) == Some(
                (
                    seq_frac(ts@),
                    seq_frac(tu@),
                    seq_frac(q@),
                    seq_frac(sums@),
                    acc@,
                    acc_num@,
                    acc_den@,
                ),
            ));
        }
    }
    let out = if acc_den.is_zero() {
        let nf = Rat::from_usize(n_steps);
        match acc.div(nf) {
            Some(v) => v,
            None => {
                return Err(Error::Overflow);
            },
        }
    } else {
        match acc_num.div(acc_den) {
            Some(v) => v,
            None => {
                return Err(Error::Overflow);
            },
        }
    };
    *t_soil = ts;
    *t_u = tu;
    *q_wall = q;
    *sum_q0 = sums;
    Ok(out)
}

} // verus!

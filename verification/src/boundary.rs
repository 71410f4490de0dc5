//! Sink-temperature convergence solver.
//!
//! For each macro time sample the demanded power is matched against the
//! achieved sink/source temperature difference by a fixed-point iteration
//! around [`crate::soil::soil_step`], restoring the soil and brine state
//! from a snapshot before every retry. A diverging sink temperature is
//! reset to a fallback value; the iteration fails with
//! [`Error::ConvergenceFailure`] when the cap is exhausted. With the pump
//! off no iteration happens: the sink temperature is read directly off the
//! wall row of the grid.

use vstd::prelude::*;

use crate::error::Error;
use crate::rat::{
    frac_abs, frac_int, frac_le, rat_add_spec, rat_div_spec, rat_mul_spec, rat_sub_spec,
    seq_frac, Frac, Rat,
};
use crate::soil::{brine_method_wf, soil_step, soil_step_spec, TSoilParameters};

verus! {

/// Engine state threaded through the samples: soil grid, brine loop, wall
/// flux scratch, flux sums, sink temperature.
pub ghost struct BndState {
    pub ts: Seq<Frac>,
    pub tu: Seq<Frac>,
    pub q: Seq<Frac>,
    pub sums: Seq<Frac>,
    pub sink: Frac,
}

/// The fixed-point iteration: while `|sink - sink_ref| > precision`,
/// restore the snapshot, run the soil step at the current sink guess, and
/// derive the next guess `source - p / u`. An implausibly large guess
/// (beyond 100) is reset to -1 and the iteration forced on. `fuel` bounds
/// the number of retries.
pub open spec fn conv_spec(
    prm: TSoilParameters,
    snap: (Seq<Frac>, Seq<Frac>, Seq<Frac>),
    cur: (Seq<Frac>, Seq<Frac>, Seq<Frac>, Seq<Frac>),
    sink: Frac,
    refv: Frac,
    src: Frac,
    pi: Frac,
    ui: Frac,
    prec: Frac,
    da: nat,
    dr: nat,
    n: nat,
    fuel: nat,
) -> Result<((Seq<Frac>, Seq<Frac>, Seq<Frac>, Seq<Frac>), Frac, Frac), Error>
    decreases fuel,
{
    match rat_sub_spec(sink, refv) {
        None => Err(Error::Overflow),
        Some(d) => if frac_le(frac_abs(d), prec) {
            Ok((cur, sink, src))
        } else if fuel == 0 {
            Err(Error::ConvergenceFailure)
        } else {
            match soil_step_spec(prm, snap.0, snap.1, cur.2, snap.2, da, dr, sink, n) {
                None => Err(Error::Overflow),
                Some(r) => match rat_div_spec(pi, ui) {
                    None => Err(Error::Overflow),
                    Some(pu) => match rat_sub_spec(r.1, pu) {
                        None => Err(Error::Overflow),
                        Some(sink2) => {
                            let cur2 = (r.0.0, r.0.1, r.0.2, r.0.3);
                            if !frac_le(frac_abs(sink2), frac_int(100)) {
                                match rat_mul_spec(frac_int(2), prec) {
                                    None => Err(Error::Overflow),
                                    Some(tp) => match rat_add_spec(frac_int(-1), tp) {
                                        None => Err(Error::Overflow),
                                        Some(r2) => conv_spec(
                                            prm,
                                            snap,
                                            cur2,
                                            frac_int(-1),
                                            r2,
                                            r.1,
                                            pi,
                                            ui,
                                            prec,
                                            da,
                                            dr,
                                            n,
                                            (fuel - 1) as nat,
                                        ),
                                    },
                                }
                            } else {
                                conv_spec(
                                    prm,
                                    snap,
                                    cur2,
                                    sink2,
                                    sink,
                                    r.1,
                                    pi,
                                    ui,
                                    prec,
                                    da,
                                    dr,
                                    n,
                                    (fuel - 1) as nat,
                                )
                            }
                        },
                    },
                },
            }
        },
    }
}

/// One macro sample. Pump on (`ui > 0`): initial guess
/// `sink - p * (1/u1_on + 1/ui)`, one soil step, then the iteration above.
/// Pump off: one soil step at the unchanged sink temperature, after which
/// the sink is read directly from the wall row and the source equals it.
pub open spec fn bnd_sample(
    prm_off: TSoilParameters,
    prm_on: TSoilParameters,
    st: BndState,
    pi: Frac,
    ui: Frac,
    u1_on: Frac,
    prec: Frac,
    da: nat,
    dr: nat,
    n: nat,
    cap: nat,
) -> Result<(BndState, Frac, Frac), Error> {
    if ui.n > 0 {
        match rat_div_spec(frac_int(1), u1_on) {
            None => Err(Error::Overflow),
            Some(a) => match rat_div_spec(frac_int(1), ui) {
                None => Err(Error::Overflow),
                Some(b) => match rat_add_spec(a, b) {
                    None => Err(Error::Overflow),
                    Some(c) => match rat_mul_spec(pi, c) {
                        None => Err(Error::Overflow),
                        Some(dd) => match rat_sub_spec(st.sink, dd) {
                            None => Err(Error::Overflow),
                            Some(sink1) => match soil_step_spec(
                                prm_on,
                                st.ts,
                                st.tu,
                                st.q,
                                st.sums,
                                da,
                                dr,
                                sink1,
                                n,
                            ) {
                                None => Err(Error::Overflow),
                                Some(r) => match rat_div_spec(pi, ui) {
                                    None => Err(Error::Overflow),
                                    Some(pu) => match rat_sub_spec(r.1, pu) {
                                        None => Err(Error::Overflow),
                                        Some(sink2) => match rat_mul_spec(frac_int(2), prec) {
                                            None => Err(Error::Overflow),
                                            Some(tp) => match rat_add_spec(sink2, tp) {
                                                None => Err(Error::Overflow),
                                                Some(refv) => match conv_spec(
                                                    prm_on,
                                                    (st.ts, st.tu, st.sums),
                                                    (r.0.0, r.0.1, r.0.2, r.0.3),
                                                    sink2,
                                                    refv,
                                                    r.1,
                                                    pi,
                                                    ui,
                                                    prec,
                                                    da,
                                                    dr,
                                                    n,
                                                    cap,
                                                ) {
                                                    Err(e) => Err(e),
                                                    Ok(cr) => Ok(
                                                        (
                                                            BndState {
                                                                ts: cr.0.0,
                                                                tu: cr.0.1,
                                                                q: cr.0.2,
                                                                sums: cr.0.3,
                                                                sink: cr.1,
                                                            },
                                                            cr.1,
                                                            cr.2,
                                                        ),
                                                    ),
                                                },
                                            },
                                        },
                                    },
                                },
                            },
                        },
                    },
                },
            },
        }
    } else {
        match soil_step_spec(prm_off, st.ts, st.tu, st.q, st.sums, da, dr, st.sink, n) {
            None => Err(Error::Overflow),
            Some(r) => {
                let sink2 = r.0.0[da + 1 as int];
                Ok(
                    (
                        BndState { ts: r.0.0, tu: r.0.1, q: r.0.2, sums: r.0.3, sink: sink2 },
                        sink2,
                        sink2,
                    ),
                )
            },
        }
    }
}

/// The first `i` samples: outputs pushed per sample (sink, source, and the
/// full grid appended flat).
pub open spec fn bnd_samples(
    prm_off: TSoilParameters,
    prm_on: TSoilParameters,
    st0: BndState,
    p: Seq<Frac>,
    u: Seq<Frac>,
    u1_on: Frac,
    prec: Frac,
    da: nat,
    dr: nat,
    n: nat,
    cap: nat,
    i: nat,
) -> Result<(BndState, Seq<Frac>, Seq<Frac>, Seq<Frac>), Error>
    decreases i,
{
    if i == 0 {
        Ok((st0, Seq::empty(), Seq::empty(), Seq::empty()))
    } else {
        match bnd_samples(prm_off, prm_on, st0, p, u, u1_on, prec, da, dr, n, cap, (i - 1) as nat) {
            Err(e) => Err(e),
            Ok(acc) => match bnd_sample(
                prm_off,
                prm_on,
                acc.0,
                p[i - 1],
                u[i - 1],
                u1_on,
                prec,
                da,
                dr,
                n,
                cap,
            ) {
                Err(e) => Err(e),
                Ok(sr) => Ok((sr.0, acc.1.push(sr.1), acc.2.push(sr.2), acc.3 + sr.0.ts)),
            },
        }
    }
}

proof fn lemma_bnd_samples_err(
    prm_off: TSoilParameters,
    prm_on: TSoilParameters,
    st0: BndState,
    p: Seq<Frac>,
    u: Seq<Frac>,
    u1_on: Frac,
    prec: Frac,
    da: nat,
    dr: nat,
    n: nat,
    cap: nat,
    i: nat,
    m: nat,
)
    requires
        i <= m,
        bnd_samples(prm_off, prm_on, st0, p, u, u1_on, prec, da, dr, n, cap, i) is Err,
    ensures
        bnd_samples(prm_off, prm_on, st0, p, u, u1_on, prec, da, dr, n, cap, m) == bnd_samples(
            prm_off,
            prm_on,
            st0,
            p,
            u,
            u1_on,
            prec,
            da,
            dr,
            n,
            cap,
            i,
        ),
    decreases m,
{
    if m > i {
        lemma_bnd_samples_err(prm_off, prm_on, st0, p, u, u1_on, prec, da, dr, n, cap, i, (m - 1) as nat);
    }
}

/// Shape constraints shared by the solver's state buffers and parameters.
pub open spec fn bnd_wf(
    prm_off: TSoilParameters,
    prm_on: TSoilParameters,
    da: nat,
    dr: nat,
) -> bool {
    &&& prm_off.T_soil_tensor.len() == da * dr * (dr + 2)
    &&& prm_on.T_soil_tensor.len() == da * dr * (dr + 2)
    &&& prm_off.L.len() >= da
    &&& prm_on.L.len() >= da
    &&& brine_method_wf(prm_off.T_brine_method, da)
    &&& brine_method_wf(prm_on.T_brine_method, da)
    &&& (forall|j: int| 0 <= j < da ==> #[trigger] prm_off.L@[j]@.n != 0)
    &&& (forall|j: int| 0 <= j < da ==> #[trigger] prm_on.L@[j]@.n != 0)
}

/// One sample of the convergence solver as executable code; see
/// [`bnd_sample`] for the exact computation.
#[verifier::loop_isolation(false)]
#[verifier::rlimit(100)]
#[verifier::spinoff_prover]
fn boundary_sample(
    prm_off: &TSoilParameters,
    prm_on: &TSoilParameters,
    t_soil: &mut Vec<Rat>,
    t_u: &mut Vec<Rat>,
    q_wall: &mut Vec<Rat>,
    sum_q0: &mut Vec<Rat>,
    t_sink: &mut Rat,
    pi: Rat,
    ui: Rat,
    u1_on: Rat,
    precision: Rat,
    dim_ax: usize,
    dim_rad: usize,
    n_steps: usize,
    max_iter: usize,
) -> (res: Result<(Rat, Rat), Error>)
    requires
        1 <= dim_ax <= 0x4000,
        1 <= dim_rad <= 0x4000,
        1 <= n_steps <= 0x10000,
        old(t_soil).len() == (dim_rad + 2) * dim_ax,
        old(t_u).len() == 2 * dim_ax,
        old(q_wall).len() == dim_ax,
        old(sum_q0).len() == dim_ax,
        u1_on@.n != 0,
        bnd_wf(*prm_off, *prm_on, dim_ax as nat, dim_rad as nat),
    ensures
        match bnd_sample(
            *prm_off,
            *prm_on,
            BndState {
                ts: seq_frac(old(t_soil)@),
                tu: seq_frac(old(t_u)@),
                q: seq_frac(old(q_wall)@),
                sums: seq_frac(old(sum_q0)@),
                sink: old(t_sink)@,
            },
            pi@,
            ui@,
            u1_on@,
            precision@,
            dim_ax as nat,
            dim_rad as nat,
            n_steps as nat,
            max_iter as nat,
        ) {
            Ok(r) => res is Ok && seq_frac(final(t_soil)@) == r.0.ts && seq_frac(final(t_u)@)
                == r.0.tu && seq_frac(final(q_wall)@) == r.0.q && seq_frac(final(sum_q0)@)
                == r.0.sums && final(t_sink)@ == r.0.sink && res->Ok_0.0@ == r.1 && res->Ok_0.1@
                == r.2,
            Err(e) => res == Err::<(Rat, Rat), Error>(e) && final(t_soil)@ == old(t_soil)@
                && final(t_u)@ == old(t_u)@ && final(q_wall)@ == old(q_wall)@ && final(sum_q0)@
                == old(sum_q0)@ && final(t_sink)@ == old(t_sink)@,
        },
        final(t_soil).len() == old(t_soil).len(),
        final(t_u).len() == old(t_u).len(),
        final(q_wall).len() == old(q_wall).len(),
        final(sum_q0).len() == old(sum_q0).len(),
{
    let ghost st0 = BndState {
        ts: seq_frac(t_soil@),
        tu: seq_frac(t_u@),
        q: seq_frac(q_wall@),
        sums: seq_frac(sum_q0@),
        sink: t_sink@,
    };
    let one = Rat::one();
    if ui.is_positive() {
        let a = match one.div(u1_on) {
            Some(v) => v,
            None => {
                return Err(Error::Overflow);
            },
        };
        let b = match one.div(ui) {
            Some(v) => v,
            None => {
                return Err(Error::Overflow);
            },
        };
        let c = match a.add(b) {
            Some(v) => v,
            None => {
                return Err(Error::Overflow);
            },
        };
        let dd = match pi.mul(c) {
            Some(v) => v,
            None => {
                return Err(Error::Overflow);
            },
        };
        let sink1 = match t_sink.sub(dd) {
            Some(v) => v,
            None => {
                return Err(Error::Overflow);
            },
        };
        // Snapshot for the iteration's restores.
        let snap_ts = t_soil.clone();
        let snap_tu = t_u.clone();
        let snap_sums = sum_q0.clone();
        let mut ts = t_soil.clone();
        let mut tu = t_u.clone();
        let mut q = q_wall.clone();
        let mut sums = sum_q0.clone();
        let src0 = match soil_step(&mut ts, sink1, &mut sums, dim_ax, dim_rad, n_steps, &mut q, &mut tu, prm_on) {
            Ok(v) => v,
            Err(e) => {
                return Err(e);
            },
        };
        let pu = match pi.div(ui) {
            Some(v) => v,
            None => {
                return Err(Error::Overflow);
            },
        };
        let mut sink = match src0.sub(pu) {
            Some(v) => v,
            None => {
                return Err(Error::Overflow);
            },
        };
        let two = Rat::from_int(2);
        let tp = match two.mul(precision) {
            Some(v) => v,
            None => {
                return Err(Error::Overflow);
            },
        };
        let mut sink_ref = match sink.add(tp) {
            Some(v) => v,
            None => {
                return Err(Error::Overflow);
            },
        };
        let mut src = src0;
        let ghost snap = (seq_frac(snap_ts@), seq_frac(snap_tu@), seq_frac(snap_sums@));
        let ghost conv0 = conv_spec(
            *prm_on,
            snap,
            (seq_frac(ts@), seq_frac(tu@), seq_frac(q@), seq_frac(sums@)),
            sink@,
            sink_ref@,
            src@,
            pi@,
            ui@,
            precision@,
            dim_ax as nat,
            dim_rad as nat,
            n_steps as nat,
            max_iter as nat,
        );
        let ghost orig_ts = t_soil@;
        let ghost orig_tu = t_u@;
        let ghost orig_q = q_wall@;
        let ghost orig_sums = sum_q0@;
        let ghost orig_sink = *t_sink;
        let mut fuel: usize = max_iter;
        loop
            invariant
                t_soil@ == orig_ts,
                t_u@ == orig_tu,
                q_wall@ == orig_q,
                sum_q0@ == orig_sums,
                *t_sink == orig_sink,
                ts.len() == (dim_rad + 2) * dim_ax,
                tu.len() == 2 * dim_ax,
                q.len() == dim_ax,
                sums.len() == dim_ax,
                fuel <= max_iter,
                conv_spec(
                    *prm_on,
                    snap,
                    (seq_frac(ts@), seq_frac(tu@), seq_frac(q@), seq_frac(sums@)),
                    sink@,
                    sink_ref@,
                    src@,
                    pi@,
                    ui@,
                    precision@,
                    dim_ax as nat,
                    dim_rad as nat,
                    n_steps as nat,
                    fuel as nat,
                ) == conv0,
            decreases fuel,
        {
            let d = match sink.sub(sink_ref) {
                Some(v) => v,
                None => {
                    proof {
                        assert(conv0 == Result::<(
                            (Seq<Frac>, Seq<Frac>, Seq<Frac>, Seq<Frac>),
                            Frac,
                            Frac,
                        ), Error>::Err(Error::Overflow));
                    }
                    return Err(Error::Overflow);
                },
            };
            if !precision.lt(&d.abs_val()) {
                // Converged.
                *t_soil = ts;
                *t_u = tu;
                *q_wall = q;
                *sum_q0 = sums;
                *t_sink = sink;
                return Ok((sink, src));
            }
            if fuel == 0 {
                proof {
                    assert(conv0 == Result::<(
                        (Seq<Frac>, Seq<Frac>, Seq<Frac>, Seq<Frac>),
                        Frac,
                        Frac,
                    ), Error>::Err(Error::ConvergenceFailure));
                }
                return Err(Error::ConvergenceFailure);
            }
            fuel = fuel - 1;
            // Restore the snapshot and retry at the current guess.
            ts = snap_ts.clone();
            tu = snap_tu.clone();
            sums = snap_sums.clone();
            let src2 = match soil_step(&mut ts, sink, &mut sums, dim_ax, dim_rad, n_steps, &mut q, &mut tu, prm_on) {
                Ok(v) => v,
                Err(e) => {
                    return Err(e);
                },
            };
            let sink_prev = sink;
            let sink2 = match src2.sub(pu) {
                Some(v) => v,
                None => {
                    return Err(Error::Overflow);
                },
            };
            src = src2;
            let hundred = Rat::from_int(100);
            if hundred.lt(&sink2.abs_val()) {
                sink = Rat::from_int(-1);
                sink_ref = match sink.add(tp) {
                    Some(v) => v,
                    None => {
                        return Err(Error::Overflow);
                    },
                };
            } else {
                sink = sink2;
                sink_ref = sink_prev;
            }
        }
    } else {
        proof {
            assert(dim_ax + 1 < (dim_rad + 2) * dim_ax) by (nonlinear_arith)
                requires
                    dim_ax >= 1,
                    dim_rad >= 1,
            ;
        }
        let src = match soil_step(t_soil, *t_sink, sum_q0, dim_ax, dim_rad, n_steps, q_wall, t_u, prm_off) {
            Ok(v) => v,
            Err(e) => {
                return Err(e);
            },
        };
        let sink2 = t_soil[dim_ax + 1];
        *t_sink = sink2;
        Ok((sink2, sink2))
    }
}

/// Drives the convergence solver over a chunk of macro samples: demanded
/// power `p` and brine flow capacity `u_brine` per sample. Returns the
/// per-sample sink and source temperatures and the full soil grid after
/// each sample, and advances the engine state; on failure the state is
/// unchanged.
#[verifier::loop_isolation(false)]
#[verifier::rlimit(100)]
#[verifier::spinoff_prover]
pub fn boundary_step(
    p: &Vec<Rat>,
    u_brine: &Vec<Rat>,
    dim_ax: usize,
    dim_rad: usize,
    n_steps: usize,
    u1_on: Rat,
    prm_off: &TSoilParameters,
    prm_on: &TSoilParameters,
    t_sink: &mut Rat,
    t_soil: &mut Vec<Rat>,
    t_u: &mut Vec<Rat>,
    sum_q0: &mut Vec<Rat>,
    q_wall: &mut Vec<Rat>,
    precision: Rat,
    max_iter: usize,
) -> (res: Result<(Vec<Rat>, Vec<Rat>, Vec<Rat>), Error>)
    requires
        1 <= dim_ax <= 0x4000,
        1 <= dim_rad <= 0x4000,
        1 <= n_steps <= 0x10000,
        u_brine.len() == p.len(),
        old(t_soil).len() == (dim_rad + 2) * dim_ax,
        old(t_u).len() == 2 * dim_ax,
        old(q_wall).len() == dim_ax,
        old(sum_q0).len() == dim_ax,
        u1_on@.n != 0,
        bnd_wf(*prm_off, *prm_on, dim_ax as nat, dim_rad as nat),
    ensures
        match bnd_samples(
            *prm_off,
            *prm_on,
            BndState {
                ts: seq_frac(old(t_soil)@),
                tu: seq_frac(old(t_u)@),
                q: seq_frac(old(q_wall)@),
                sums: seq_frac(old(sum_q0)@),
                sink: old(t_sink)@,
            },
            seq_frac(p@),
            seq_frac(u_brine@),
            u1_on@,
            precision@,
            dim_ax as nat,
            dim_rad as nat,
            n_steps as nat,
            max_iter as nat,
            p.len() as nat,
        ) {
            Ok(r) => res is Ok && seq_frac(final(t_soil)@) == r.0.ts && seq_frac(final(t_u)@)
                == r.0.tu && seq_frac(final(q_wall)@) == r.0.q && seq_frac(final(sum_q0)@)
                == r.0.sums && final(t_sink)@ == r.0.sink && seq_frac(res->Ok_0.0@) == r.1
                && seq_frac(res->Ok_0.1@) == r.2 && seq_frac(res->Ok_0.2@) == r.3,
            Err(e) => res == Err::<(Vec<Rat>, Vec<Rat>, Vec<Rat>), Error>(e) && final(t_soil)@
                == old(t_soil)@ && final(t_u)@ == old(t_u)@ && final(q_wall)@ == old(q_wall)@
                && final(sum_q0)@ == old(sum_q0)@ && final(t_sink)@ == old(t_sink)@,
        },
{
    let ghost st0 = BndState {
        ts: seq_frac(t_soil@),
        tu: seq_frac(t_u@),
        q: seq_frac(q_wall@),
        sums: seq_frac(sum_q0@),
        sink: t_sink@,
    };
    let ghost pv = seq_frac(p@);
    let ghost uv = seq_frac(u_brine@);
    let mut ts: Vec<Rat> = t_soil.clone();
    let mut tu: Vec<Rat> = t_u.clone();
    let mut q: Vec<Rat> = q_wall.clone();
    let mut sums: Vec<Rat> = sum_q0.clone();
    let mut sink: Rat = *t_sink;
    let mut out_sink: Vec<Rat> = Vec::new();
    let mut out_source: Vec<Rat> = Vec::new();
    let mut out_soil: Vec<Rat> = Vec::new();
    assert(seq_frac(out_sink@) =~= Seq::<Frac>::empty());
    assert(seq_frac(out_source@) =~= Seq::<Frac>::empty());
    assert(seq_frac(out_soil@) =~= Seq::<Frac>::empty());
    let mut i: usize = 0;
    while i < p.len()
        invariant
            i <= p.len(),
            ts.len() == (dim_rad + 2) * dim_ax,
            tu.len() == 2 * dim_ax,
            q.len() == dim_ax,
            sums.len() == dim_ax,
            out_sink.len() == i,
            out_source.len() == i,
            bnd_samples(
                *prm_off,
                *prm_on,
                st0,
                pv,
                uv,
                u1_on@,
                precision@,
                dim_ax as nat,
                dim_rad as nat,
                n_steps as nat,
                max_iter as nat,
                i as nat,
            ) == Ok::<_, Error>(
                (
                    BndState {
                        ts: seq_frac(ts@),
                        tu: seq_frac(tu@),
                        q: seq_frac(q@),
                        sums: seq_frac(sums@),
                        sink: sink@,
                    },
                    seq_frac(out_sink@),
                    seq_frac(out_source@),
                    seq_frac(out_soil@),
                ),
            ),
        decreases p.len() - i,
    {
        let ghost st_pre = BndState {
            ts: seq_frac(ts@),
            tu: seq_frac(tu@),
            q: seq_frac(q@),
            sums: seq_frac(sums@),
            sink: sink@,
        };
        let (s_out, src_out) = match boundary_sample(
            prm_off,
            prm_on,
            &mut ts,
            &mut tu,
            &mut q,
            &mut sums,
            &mut sink,
            p[i],
            u_brine[i],
            u1_on,
            precision,
            dim_ax,
            dim_rad,
            n_steps,
            max_iter,
        ) {
            Ok(v) => v,
            Err(e) => {
                proof {
                    lemma_bnd_samples_err(
                        *prm_off,
                        *prm_on,
                        st0,
                        pv,
                        uv,
                        u1_on@,
                        precision@,
                        dim_ax as nat,
                        dim_rad as nat,
                        n_steps as nat,
                        max_iter as nat,
                        (i + 1) as nat,
                        p.len() as nat,
                    );
                }
                return Err(e);
            },
        };
        let ghost sink_pre = seq_frac(out_sink@);
        let ghost source_pre = seq_frac(out_source@);
        let ghost soil_pre = seq_frac(out_soil@);
        out_sink.push(s_out);
        out_source.push(src_out);
        proof {
            crate::rat::lemma_seq_frac_push(out_sink@.subrange(0, out_sink@.len() - 1), s_out);
            assert(out_sink@.subrange(0, out_sink@.len() - 1) =~= out_sink@.drop_last());
            assert(seq_frac(out_sink@) =~= sink_pre.push(s_out@));
            assert(seq_frac(out_source@) =~= source_pre.push(src_out@));
        }
        // Append the grid after this sample.
        let mut g: usize = 0;
        while g < ts.len()
            invariant
                g <= ts.len(),
                seq_frac(out_soil@) =~= soil_pre + seq_frac(ts@).subrange(0, g as int),
            decreases ts.len() - g,
        {
            let ghost os_pre = out_soil@;
            out_soil.push(ts[g]);
            proof {
                crate::rat::lemma_seq_frac_push(os_pre, ts@[g as int]);
                assert(seq_frac(ts@).subrange(0, (g + 1) as int) =~= seq_frac(ts@).subrange(
                    0,
                    g as int,
                ).push(seq_frac(ts@)[g as int]));
            }
            g += 1;
        }
        proof {
            assert(seq_frac(ts@).subrange(0, ts@.len() as int) =~= seq_frac(ts@));
            assert(seq_frac(out_soil@) =~= soil_pre + seq_frac(ts@));
        }
        i += 1;
        proof {
            assert(bnd_samples(
                *prm_off,
                *prm_on,
                st0,
                pv,
                uv,
                u1_on@,
                precision@,
                dim_ax as nat,
                dim_rad as nat,
                n_steps as nat,
                max_iter as nat,
                i as nat,
            ) == Ok::<_, Error>(
                (
                    BndState {
                        ts: seq_frac(ts@),
                        tu: seq_frac(tu@),
                        q: seq_frac(q@),
                        sums: seq_frac(sums@),
                        sink: sink@,
                    },
                    seq_frac(out_sink@),
                    seq_frac(out_source@),
                    seq_frac(out_soil@),
                ),
            ));
        }
    }
    *t_soil = ts;
    *t_u = tu;
    *q_wall = q;
    *sum_q0 = sums;
    *t_sink = sink;
    Ok((out_sink, out_source, out_soil))
}

/// With the pump off for every sample, no iteration happens and the output
/// source temperature equals the output sink temperature at every sample;
/// both are the wall-row temperature the grid shows after that sample's
/// soil step.
pub proof fn lemma_pump_off_sources(
    prm_off: TSoilParameters,
    prm_on: TSoilParameters,
    st0: BndState,
    p: Seq<Frac>,
    u: Seq<Frac>,
    u1_on: Frac,
    prec: Frac,
    da: nat,
    dr: nat,
    n: nat,
    cap: nat,
    i: nat,
)
    requires
        forall|j: int| 0 <= j < i ==> #[trigger] u[j].n <= 0,
        bnd_samples(prm_off, prm_on, st0, p, u, u1_on, prec, da, dr, n, cap, i) is Ok,
    ensures
        ({
            let r = bnd_samples(prm_off, prm_on, st0, p, u, u1_on, prec, da, dr, n, cap, i)->Ok_0;
            &&& r.1.len() == i
            &&& r.2.len() == i
            &&& forall|j: int| 0 <= j < i ==> #[trigger] r.2[j] == r.1[j]
            &&& (i > 0 ==> r.0.sink == r.0.ts[da + 1 as int])
        }),
    decreases i,
{
    if i > 0 {
        lemma_pump_off_sources(prm_off, prm_on, st0, p, u, u1_on, prec, da, dr, n, cap, (i - 1) as nat);
    }
}

} // verus!

//! Brine-loop models: the temperature of the circulating fluid along the
//! down-leg and up-leg of the exchanger, and the wall heat flux it implies.
//!
//! Two interchangeable strategies: a sub-stepped explicit advection model and
//! a closed-form stationary profile. Both refresh the brine temperature
//! array `t_u` (down-leg then up-leg), fill the wall heat flux `q_wall`, and
//! return the outlet (source) temperature.

use vstd::prelude::*;

use crate::error::Error;
use crate::rat::{
    frac_int, rat_add_spec, rat_div_spec, rat_mul_spec, rat_sub_spec, seq_frac, Frac, Rat,
};

verus! {

/// Stationary brine model parameters: `kappa_soil = L / (L + 2 U)`,
/// `kappa_brine = U / (0.5 L + U)` per axial slice.
#[derive(Clone, Debug)]
pub struct TBrineStationaryParameters {
    pub kappa_brine: Vec<Rat>,
    pub kappa_soil: Vec<Rat>,
    pub L: Vec<Rat>,
}

/// Dynamic brine model parameters.
#[derive(Clone, Debug)]
pub struct TBrineDynamicParameters {
    pub n_sub_steps: usize,
    pub kappa_ax: Rat,
    pub kappa_rad: Vec<Rat>,
    pub lambda_brine: Vec<Rat>,
}

/// Down-leg of the stationary profile: entries `0..i` of `t_u` get
/// `t_u[j] = kappa_soil[j] * t_wall[j] + kappa_brine[j] * prev`, where
/// `prev` is the sink temperature for `j = 0` and `t_u[j-1]` after.
pub open spec fn stat_down(
    ks: Seq<Frac>,
    kb: Seq<Frac>,
    t_wall: Seq<Frac>,
    tu: Seq<Frac>,
    t_sink: Frac,
    i: nat,
) -> Option<Seq<Frac>>
    decreases i,
{
    if i == 0 {
        Some(tu)
    } else {
        match stat_down(ks, kb, t_wall, tu, t_sink, (i - 1) as nat) {
            None => None,
            Some(s) => {
                let prev = if i == 1 {
                    t_sink
                } else {
                    s[i - 2]
                };
                match rat_mul_spec(ks[i - 1], t_wall[i - 1]) {
                    None => None,
                    Some(p1) => match rat_mul_spec(kb[i - 1], prev) {
                        None => None,
                        Some(p2) => match rat_add_spec(p1, p2) {
                            None => None,
                            Some(v) => Some(s.update(i - 1, v)),
                        },
                    },
                }
            },
        }
    }
}

/// Up-leg of the stationary profile: entries `dim_ax..dim_ax+i` get
/// `t_u[da+j] = kappa_soil[da-1-j] * t_wall[da-1-j]
///            + kappa_brine[da-1-j] * t_u[da+j-1]`.
pub open spec fn stat_up(
    ks: Seq<Frac>,
    kb: Seq<Frac>,
    t_wall: Seq<Frac>,
    tu: Seq<Frac>,
    da: nat,
    i: nat,
) -> Option<Seq<Frac>>
    decreases i,
{
    if i == 0 {
        Some(tu)
    } else {
        match stat_up(ks, kb, t_wall, tu, da, (i - 1) as nat) {
            None => None,
            Some(s) => {
                let j = i - 1;
                match rat_mul_spec(ks[da - 1 - j], t_wall[da - 1 - j]) {
                    None => None,
                    Some(p1) => match rat_mul_spec(kb[da - 1 - j], s[da + j - 1]) {
                        None => None,
                        Some(p2) => match rat_add_spec(p1, p2) {
                            None => None,
                            Some(v) => Some(s.update(da + j, v)),
                        },
                    },
                }
            },
        }
    }
}

/// Wall heat flux of the stationary profile: entries `0..i` of `q` get
/// `(2 t_wall[j] - t_u[j] - t_u[2 da - 1 - j]) * 1/2 * L[j]`.
pub open spec fn stat_q(
    el: Seq<Frac>,
    t_wall: Seq<Frac>,
    tu: Seq<Frac>,
    q: Seq<Frac>,
    da: nat,
    i: nat,
) -> Option<Seq<Frac>>
    decreases i,
{
    if i == 0 {
        Some(q)
    } else {
        match stat_q(el, t_wall, tu, q, da, (i - 1) as nat) {
            None => None,
            Some(s) => {
                let j = i - 1;
                match rat_mul_spec(frac_int(2), t_wall[j as int]) {
                    None => None,
                    Some(p1) => match rat_sub_spec(p1, tu[j as int]) {
                        None => None,
                        Some(p2) => match rat_sub_spec(p2, tu[2 * da - 1 - j]) {
                            None => None,
                            Some(p3) => match rat_mul_spec(p3, Frac { n: 1, d: 2 }) {
                                None => None,
                                Some(p4) => match rat_mul_spec(p4, el[j as int]) {
                                    None => None,
                                    Some(v) => Some(s.update(j as int, v)),
                                },
                            },
                        },
                    },
                }
            },
        }
    }
}

/// What the stationary `refresh` computes: new brine temperatures, wall heat
/// flux and the outlet temperature `t_u[2 da - 1]`.
pub open spec fn stat_refresh_spec(
    ks: Seq<Frac>,
    kb: Seq<Frac>,
    el: Seq<Frac>,
    t_wall: Seq<Frac>,
    tu: Seq<Frac>,
    q: Seq<Frac>,
    da: nat,
    t_sink: Frac,
) -> Option<(Seq<Frac>, Seq<Frac>, Frac)> {
    match stat_down(ks, kb, t_wall, tu, t_sink, da) {
        None => None,
        Some(s1) => match stat_up(ks, kb, t_wall, s1, da, da) {
            None => None,
            Some(s2) => match stat_q(el, t_wall, s2, q, da, da) {
                None => None,
                Some(qs) => Some((s2, qs, s2[2 * da - 1])),
            },
        },
    }
}


proof fn lemma_stat_down_none(
    ks: Seq<Frac>,
    kb: Seq<Frac>,
    t_wall: Seq<Frac>,
    tu: Seq<Frac>,
    t_sink: Frac,
    i: nat,
    m: nat,
)
    requires
        i <= m,
        stat_down(ks, kb, t_wall, tu, t_sink, i) is None,
    ensures
        stat_down(ks, kb, t_wall, tu, t_sink, m) is None,
    decreases m,
{
    if m > i {
        lemma_stat_down_none(ks, kb, t_wall, tu, t_sink, i, (m - 1) as nat);
    }
}

proof fn lemma_stat_up_none(
    ks: Seq<Frac>,
    kb: Seq<Frac>,
    t_wall: Seq<Frac>,
    tu: Seq<Frac>,
    da: nat,
    i: nat,
    m: nat,
)
    requires
        i <= m,
        stat_up(ks, kb, t_wall, tu, da, i) is None,
    ensures
        stat_up(ks, kb, t_wall, tu, da, m) is None,
    decreases m,
{
    if m > i {
        lemma_stat_up_none(ks, kb, t_wall, tu, da, i, (m - 1) as nat);
    }
}

proof fn lemma_stat_q_none(
    el: Seq<Frac>,
    t_wall: Seq<Frac>,
    tu: Seq<Frac>,
    q: Seq<Frac>,
    da: nat,
    i: nat,
    m: nat,
)
    requires
        i <= m,
        stat_q(el, t_wall, tu, q, da, i) is None,
    ensures
        stat_q(el, t_wall, tu, q, da, m) is None,
    decreases m,
{
    if m > i {
        lemma_stat_q_none(el, t_wall, tu, q, da, i, (m - 1) as nat);
    }
}

impl TBrineStationaryParameters {
    /// Closed-form steady brine profile: fills `t_u` (down-leg then up-leg)
    /// and the wall heat flux `q_wall`, and returns the outlet temperature.
    /// `t_u` and `q_wall` change exactly when the computation succeeds.
    #[verifier::loop_isolation(false)]
    #[verifier::rlimit(100)]
    #[verifier::spinoff_prover]
    pub fn refresh(
        &self,
        t_wall: &Vec<Rat>,
        t_u: &mut Vec<Rat>,
        q_wall: &mut Vec<Rat>,
        dim_ax: usize,
        t_sink: Rat,
    ) -> (res: Result<Rat, Error>)
        requires
            1 <= dim_ax,
            self.kappa_soil.len() >= dim_ax,
            self.kappa_brine.len() >= dim_ax,
            self.L.len() >= dim_ax,
            t_wall.len() >= dim_ax,
            old(t_u).len() == 2 * dim_ax,
            old(q_wall).len() == dim_ax,
        ensures
            match stat_refresh_spec(
                seq_frac(self.kappa_soil@),
                seq_frac(self.kappa_brine@),
                seq_frac(self.L@),
                seq_frac(t_wall@),
                seq_frac(old(t_u)@),
                seq_frac(old(q_wall)@),
                dim_ax as nat,
                t_sink@,
            ) {
                Some(r) => res is Ok && seq_frac(final(t_u)@) == r.0 && seq_frac(final(q_wall)@)
                    == r.1 && res->Ok_0@ == r.2,
                None => res == Err::<Rat, Error>(Error::Overflow) && final(t_u)@ == old(t_u)@
                    && final(q_wall)@ == old(q_wall)@,
            },
            final(t_u).len() == old(t_u).len(),
            final(q_wall).len() == old(q_wall).len(),
    {
        let ghost ks = seq_frac(self.kappa_soil@);
        let ghost kb = seq_frac(self.kappa_brine@);
        let ghost el = seq_frac(self.L@);
        let ghost twv = seq_frac(t_wall@);
        let ghost tu0 = seq_frac(t_u@);
        let ghost q0 = seq_frac(q_wall@);
        let mut tu: Vec<Rat> = t_u.clone();
        assert(seq_frac(tu@) == tu0);
        let mut i: usize = 0;
        while i < dim_ax
            invariant
                i <= dim_ax,
                tu.len() == 2 * dim_ax,
                stat_down(ks, kb, twv, tu0, t_sink@, i as nat) == Some(seq_frac(tu@)),
            decreases dim_ax - i,
        {
            let prev = if i == 0 {
                t_sink
            } else {
                tu[i - 1]
            };
            let p1 = match self.kappa_soil[i].mul(t_wall[i]) {
                Some(v) => v,
                None => {
                    proof {
                        lemma_stat_down_none(ks, kb, twv, tu0, t_sink@, (i + 1) as nat, dim_ax as nat);
                    }
                    return Err(Error::Overflow);
                },
            };
            let p2 = match self.kappa_brine[i].mul(prev) {
                Some(v) => v,
                None => {
                    proof {
                        lemma_stat_down_none(ks, kb, twv, tu0, t_sink@, (i + 1) as nat, dim_ax as nat);
                    }
                    return Err(Error::Overflow);
                },
            };
            let v = match p1.add(p2) {
                Some(v) => v,
                None => {
                    proof {
                        lemma_stat_down_none(ks, kb, twv, tu0, t_sink@, (i + 1) as nat, dim_ax as nat);
                    }
                    return Err(Error::Overflow);
                },
            };
            let ghost tu_pre = tu@;
            tu.set(i, v);
            proof {
                crate::rat::lemma_seq_frac_update(tu_pre, i as int, v);
                assert(stat_down(ks, kb, twv, tu0, t_sink@, (i + 1) as nat) == Some(
                    seq_frac(tu@),
                ));
            }
            i += 1;
        }
        let ghost s1 = seq_frac(tu@);
        let mut i2: usize = 0;
        while i2 < dim_ax
            invariant
                i2 <= dim_ax,
                tu.len() == 2 * dim_ax,
                stat_up(ks, kb, twv, s1, dim_ax as nat, i2 as nat) == Some(seq_frac(tu@)),
            decreases dim_ax - i2,
        {
            let j = dim_ax - 1 - i2;
            let p1 = match self.kappa_soil[j].mul(t_wall[j]) {
                Some(v) => v,
                None => {
                    proof {
                        lemma_stat_up_none(ks, kb, twv, s1, dim_ax as nat, (i2 + 1) as nat, dim_ax as nat);
                    }
                    return Err(Error::Overflow);
                },
            };
            let p2 = match self.kappa_brine[j].mul(tu[dim_ax + i2 - 1]) {
                Some(v) => v,
                None => {
                    proof {
                        lemma_stat_up_none(ks, kb, twv, s1, dim_ax as nat, (i2 + 1) as nat, dim_ax as nat);
                    }
                    return Err(Error::Overflow);
                },
            };
            let v = match p1.add(p2) {
                Some(v) => v,
                None => {
                    proof {
                        lemma_stat_up_none(ks, kb, twv, s1, dim_ax as nat, (i2 + 1) as nat, dim_ax as nat);
                    }
                    return Err(Error::Overflow);
                },
            };
            let ghost tu_pre = tu@;
            tu.set(dim_ax + i2, v);
            proof {
                crate::rat::lemma_seq_frac_update(tu_pre, (dim_ax + i2) as int, v);
                assert(stat_up(ks, kb, twv, s1, dim_ax as nat, (i2 + 1) as nat) == Some(
                    seq_frac(tu@),
                ));
            }
            i2 += 1;
        }
        let ghost s2 = seq_frac(tu@);
        let two = Rat::from_int(2);
        let half = Rat::half();
        let mut q: Vec<Rat> = q_wall.clone();
        assert(seq_frac(q@) == q0);
        let mut i3: usize = 0;
        while i3 < dim_ax
            invariant
                i3 <= dim_ax,
                q.len() == dim_ax,
                tu.len() == 2 * dim_ax,
                seq_frac(tu@) == s2,
                stat_q(el, twv, s2, q0, dim_ax as nat, i3 as nat) == Some(seq_frac(q@)),
            decreases dim_ax - i3,
        {
            let p1 = match two.mul(t_wall[i3]) {
                Some(v) => v,
                None => {
                    proof {
                        lemma_stat_q_none(el, twv, s2, q0, dim_ax as nat, (i3 + 1) as nat, dim_ax as nat);
                    }
                    return Err(Error::Overflow);
                },
            };
            let p2 = match p1.sub(tu[i3]) {
                Some(v) => v,
                None => {
                    proof {
                        lemma_stat_q_none(el, twv, s2, q0, dim_ax as nat, (i3 + 1) as nat, dim_ax as nat);
                    }
                    return Err(Error::Overflow);
                },
            };
            let p3 = match p2.sub(tu[2 * dim_ax - 1 - i3]) {
                Some(v) => v,
                None => {
                    proof {
                        lemma_stat_q_none(el, twv, s2, q0, dim_ax as nat, (i3 + 1) as nat, dim_ax as nat);
                    }
                    return Err(Error::Overflow);
                },
            };
            let p4 = match p3.mul(half) {
                Some(v) => v,
                None => {
                    proof {
                        lemma_stat_q_none(el, twv, s2, q0, dim_ax as nat, (i3 + 1) as nat, dim_ax as nat);
                    }
                    return Err(Error::Overflow);
                },
            };
            let v = match p4.mul(self.L[i3]) {
                Some(v) => v,
                None => {
                    proof {
                        lemma_stat_q_none(el, twv, s2, q0, dim_ax as nat, (i3 + 1) as nat, dim_ax as nat);
                    }
                    return Err(Error::Overflow);
                },
            };
            let ghost q_pre = q@;
            q.set(i3, v);
            proof {
                crate::rat::lemma_seq_frac_update(q_pre, i3 as int, v);
                assert(stat_q(el, twv, s2, q0, dim_ax as nat, (i3 + 1) as nat) == Some(
                    seq_frac(q@),
                ));
            }
            i3 += 1;
        }
        let out = tu[2 * dim_ax - 1];
        *t_u = tu;
        *q_wall = q;
        Ok(out)
    }
}

/// One down-and-up advection pass of the dynamic model over the whole loop:
/// entries `0..i` of the pass. For `j < da` (down-leg) cell `j` relaxes
/// toward its predecessor and the wall; for `j >= da` (up-leg) cell `j`
/// mirrors slice `2 da - 1 - j`. The wall flux accumulator loses the new
/// cell temperature.
pub open spec fn dyn_pass(
    kax: Frac,
    krad: Seq<Frac>,
    t_wall: Seq<Frac>,
    st: (Seq<Frac>, Seq<Frac>),
    t_sink: Frac,
    da: nat,
    i: nat,
) -> Option<(Seq<Frac>, Seq<Frac>)>
    decreases i,
{
    if i == 0 {
        Some(st)
    } else {
        match dyn_pass(kax, krad, t_wall, st, t_sink, da, (i - 1) as nat) {
            None => None,
            Some(s) => {
                let j = i - 1;
                let slice = if j < da {
                    j
                } else {
                    2 * da - 1 - j
                };
                let prev = if j == 0 {
                    t_sink
                } else {
                    s.0[j - 1]
                };
                let cur = s.0[j as int];
                match rat_sub_spec(prev, cur) {
                    None => None,
                    Some(d1) => match rat_mul_spec(d1, kax) {
                        None => None,
                        Some(m1) => match rat_sub_spec(t_wall[slice as int], cur) {
                            None => None,
                            Some(d2) => match rat_mul_spec(d2, krad[slice as int]) {
                                None => None,
                                Some(m2) => match rat_add_spec(m1, m2) {
                                    None => None,
                                    Some(m3) => match rat_add_spec(cur, m3) {
                                        None => None,
                                        Some(cur2) => match rat_sub_spec(s.1[slice as int], cur2) {
                                            None => None,
                                            Some(qv) => Some(
                                                (
                                                    s.0.update(j as int, cur2),
                                                    s.1.update(slice as int, qv),
                                                ),
                                            ),
                                        },
                                    },
                                },
                            },
                        },
                    },
                }
            },
        }
    }
}

/// The first `k` sub-steps of the dynamic model: each runs one full pass
/// and adds the outlet cell to the running outlet sum.
pub open spec fn dyn_steps(
    kax: Frac,
    krad: Seq<Frac>,
    t_wall: Seq<Frac>,
    st: (Seq<Frac>, Seq<Frac>, Frac),
    t_sink: Frac,
    da: nat,
    k: nat,
) -> Option<(Seq<Frac>, Seq<Frac>, Frac)>
    decreases k,
{
    if k == 0 {
        Some(st)
    } else {
        match dyn_steps(kax, krad, t_wall, st, t_sink, da, (k - 1) as nat) {
            None => None,
            Some(s) => match dyn_pass(kax, krad, t_wall, (s.0, s.1), t_sink, da, 2 * da) {
                None => None,
                Some(p) => match rat_add_spec(s.2, p.0[2 * da - 1]) {
                    None => None,
                    Some(t2) => Some((p.0, p.1, t2)),
                },
            },
        }
    }
}

/// Initial wall-flux accumulator of the dynamic model: entries `0..i` get
/// `2 * n_sub_steps * t_wall[j]`.
pub open spec fn dyn_q_init(
    t_wall: Seq<Frac>,
    q: Seq<Frac>,
    n_sub: nat,
    i: nat,
) -> Option<Seq<Frac>>
    decreases i,
{
    if i == 0 {
        Some(q)
    } else {
        match dyn_q_init(t_wall, q, n_sub, (i - 1) as nat) {
            None => None,
            Some(s) => match rat_mul_spec(frac_int(2), frac_int(n_sub as int)) {
                None => None,
                Some(c) => match rat_mul_spec(c, t_wall[i - 1]) {
                    None => None,
                    Some(v) => Some(s.update(i - 1, v)),
                },
            },
        }
    }
}

/// Final wall-flux scaling of the dynamic model: entries `0..i` get
/// multiplied by `lambda_brine[j]`.
pub open spec fn dyn_q_scale(lb: Seq<Frac>, q: Seq<Frac>, i: nat) -> Option<Seq<Frac>>
    decreases i,
{
    if i == 0 {
        Some(q)
    } else {
        match dyn_q_scale(lb, q, (i - 1) as nat) {
            None => None,
            Some(s) => match rat_mul_spec(s[i - 1], lb[i - 1]) {
                None => None,
                Some(v) => Some(s.update(i - 1, v)),
            },
        }
    }
}

/// What the dynamic `refresh` computes: flux accumulator initialised from
/// the wall temperatures, `n_sub_steps` advection passes, flux scaled by
/// `lambda_brine`, outlet sum averaged over the sub-steps.
pub open spec fn dyn_refresh_spec(
    n_sub: nat,
    kax: Frac,
    krad: Seq<Frac>,
    lb: Seq<Frac>,
    t_wall: Seq<Frac>,
    tu: Seq<Frac>,
    q: Seq<Frac>,
    da: nat,
    t_sink: Frac,
) -> Option<(Seq<Frac>, Seq<Frac>, Frac)> {
    if n_sub == 0 {
        None
    } else {
        match dyn_q_init(t_wall, q, n_sub, da) {
            None => None,
            Some(q1) => match dyn_steps(kax, krad, t_wall, (tu, q1, frac_int(0)), t_sink, da, n_sub) {
                None => None,
                Some(s) => match dyn_q_scale(lb, s.1, da) {
                    None => None,
                    Some(q2) => match rat_div_spec(s.2, frac_int(n_sub as int)) {
                        None => None,
                        Some(out) => Some((s.0, q2, out)),
                    },
                },
            },
        }
    }
}

proof fn lemma_dyn_pass_none(
    kax: Frac,
    krad: Seq<Frac>,
    t_wall: Seq<Frac>,
    st: (Seq<Frac>, Seq<Frac>),
    t_sink: Frac,
    da: nat,
    i: nat,
    m: nat,
)
    requires
        i <= m,
        dyn_pass(kax, krad, t_wall, st, t_sink, da, i) is None,
    ensures
        dyn_pass(kax, krad, t_wall, st, t_sink, da, m) is None,
    decreases m,
{
    if m > i {
        lemma_dyn_pass_none(kax, krad, t_wall, st, t_sink, da, i, (m - 1) as nat);
    }
}

proof fn lemma_dyn_steps_none(
    kax: Frac,
    krad: Seq<Frac>,
    t_wall: Seq<Frac>,
    st: (Seq<Frac>, Seq<Frac>, Frac),
    t_sink: Frac,
    da: nat,
    k: nat,
    m: nat,
)
    requires
        k <= m,
        dyn_steps(kax, krad, t_wall, st, t_sink, da, k) is None,
    ensures
        dyn_steps(kax, krad, t_wall, st, t_sink, da, m) is None,
    decreases m,
{
    if m > k {
        lemma_dyn_steps_none(kax, krad, t_wall, st, t_sink, da, k, (m - 1) as nat);
    }
}

proof fn lemma_dyn_q_init_none(t_wall: Seq<Frac>, q: Seq<Frac>, n_sub: nat, i: nat, m: nat)
    requires
        i <= m,
        dyn_q_init(t_wall, q, n_sub, i) is None,
    ensures
        dyn_q_init(t_wall, q, n_sub, m) is None,
    decreases m,
{
    if m > i {
        lemma_dyn_q_init_none(t_wall, q, n_sub, i, (m - 1) as nat);
    }
}

proof fn lemma_dyn_q_scale_none(lb: Seq<Frac>, q: Seq<Frac>, i: nat, m: nat)
    requires
        i <= m,
        dyn_q_scale(lb, q, i) is None,
    ensures
        dyn_q_scale(lb, q, m) is None,
    decreases m,
{
    if m > i {
        lemma_dyn_q_scale_none(lb, q, i, (m - 1) as nat);
    }
}

impl TBrineDynamicParameters {
    /// Sub-stepped advection brine profile: `n_sub_steps` passes relaxing
    /// each brine cell toward its neighbour and the wall, accumulating wall
    /// flux, returning the averaged outlet temperature. `t_u` and `q_wall`
    /// change exactly when the computation succeeds.
    #[verifier::loop_isolation(false)]
    #[verifier::rlimit(100)]
    #[verifier::spinoff_prover]
    pub fn refresh(
        &self,
        t_wall: &Vec<Rat>,
        t_u: &mut Vec<Rat>,
        q_wall: &mut Vec<Rat>,
        dim_ax: usize,
        t_sink: Rat,
    ) -> (res: Result<Rat, Error>)
        requires
            1 <= dim_ax,
            1 <= self.n_sub_steps <= 0x10000,
            self.kappa_rad.len() >= dim_ax,
            self.lambda_brine.len() >= dim_ax,
            t_wall.len() >= dim_ax,
            old(t_u).len() == 2 * dim_ax,
            old(q_wall).len() == dim_ax,
        ensures
            match dyn_refresh_spec(
                self.n_sub_steps as nat,
                self.kappa_ax@,
                seq_frac(self.kappa_rad@),
                seq_frac(self.lambda_brine@),
                seq_frac(t_wall@),
                seq_frac(old(t_u)@),
                seq_frac(old(q_wall)@),
                dim_ax as nat,
                t_sink@,
            ) {
                Some(r) => res is Ok && seq_frac(final(t_u)@) == r.0 && seq_frac(final(q_wall)@)
                    == r.1 && res->Ok_0@ == r.2,
                None => res == Err::<Rat, Error>(Error::Overflow) && final(t_u)@ == old(t_u)@
                    && final(q_wall)@ == old(q_wall)@,
            },
            final(t_u).len() == old(t_u).len(),
            final(q_wall).len() == old(q_wall).len(),
    {
        let ghost kax = self.kappa_ax@;
        let ghost krad = seq_frac(self.kappa_rad@);
        let ghost lb = seq_frac(self.lambda_brine@);
        let ghost twv = seq_frac(t_wall@);
        let ghost tu0 = seq_frac(t_u@);
        let ghost q0 = seq_frac(q_wall@);
        let ghost nsub = self.n_sub_steps as nat;
        let mut q: Vec<Rat> = q_wall.clone();
        let two = Rat::from_int(2);
        let nf = Rat::from_usize(self.n_sub_steps);
        let mut i: usize = 0;
        while i < dim_ax
            invariant
                i <= dim_ax,
                q.len() == dim_ax,
                dyn_q_init(twv, q0, nsub, i as nat) == Some(seq_frac(q@)),
            decreases dim_ax - i,
        {
            let c = match two.mul(nf) {
                Some(v) => v,
                None => {
                    proof {
                        lemma_dyn_q_init_none(twv, q0, nsub, (i + 1) as nat, dim_ax as nat);
                    }
                    return Err(Error::Overflow);
                },
            };
            let v = match c.mul(t_wall[i]) {
                Some(v) => v,
                None => {
                    proof {
                        lemma_dyn_q_init_none(twv, q0, nsub, (i + 1) as nat, dim_ax as nat);
                    }
                    return Err(Error::Overflow);
                },
            };
            let ghost q_pre = q@;
            q.set(i, v);
            proof {
                crate::rat::lemma_seq_frac_update(q_pre, i as int, v);
                assert(dyn_q_init(twv, q0, nsub, (i + 1) as nat) == Some(seq_frac(q@)));
            }
            i += 1;
        }
        let ghost q1 = seq_frac(q@);
        let mut tu: Vec<Rat> = t_u.clone();
        let mut t_out = Rat::zero();
        let ghost st0 = (tu0, q1, frac_int(0));
        let mut step: usize = 0;
        while step < self.n_sub_steps
            invariant
                step <= self.n_sub_steps,
                tu.len() == 2 * dim_ax,
                q.len() == dim_ax,
                dyn_steps(kax, krad, twv, st0, t_sink@, dim_ax as nat, step as nat) == Some(
                    (seq_frac(tu@), seq_frac(q@), t_out@),
                ),
            decreases self.n_sub_steps - step,
        {
            let ghost pass0 = (seq_frac(tu@), seq_frac(q@));
            let mut j: usize = 0;
            while j < 2 * dim_ax
                invariant
                    j <= 2 * dim_ax,
                    tu.len() == 2 * dim_ax,
                    q.len() == dim_ax,
                    dyn_pass(kax, krad, twv, pass0, t_sink@, dim_ax as nat, j as nat) == Some(
                        (seq_frac(tu@), seq_frac(q@)),
                    ),
                decreases 2 * dim_ax - j,
            {
                let slice = if j < dim_ax {
                    j
                } else {
                    2 * dim_ax - 1 - j
                };
                let prev = if j == 0 {
                    t_sink
                } else {
                    tu[j - 1]
                };
                let cur = tu[j];
                let d1 = match prev.sub(cur) {
                    Some(v) => v,
                    None => {
                        proof {
                            lemma_dyn_pass_none(kax, krad, twv, pass0, t_sink@, dim_ax as nat, (j + 1) as nat, (2 * dim_ax) as nat);
                            lemma_dyn_steps_none(kax, krad, twv, st0, t_sink@, dim_ax as nat, (step + 1) as nat, nsub);
                        }
                        return Err(Error::Overflow);
                    },
                };
                let m1 = match d1.mul(self.kappa_ax) {
                    Some(v) => v,
                    None => {
                        proof {
                            lemma_dyn_pass_none(kax, krad, twv, pass0, t_sink@, dim_ax as nat, (j + 1) as nat, (2 * dim_ax) as nat);
                            lemma_dyn_steps_none(kax, krad, twv, st0, t_sink@, dim_ax as nat, (step + 1) as nat, nsub);
                        }
                        return Err(Error::Overflow);
                    },
                };
                let d2 = match t_wall[slice].sub(cur) {
                    Some(v) => v,
                    None => {
                        proof {
                            lemma_dyn_pass_none(kax, krad, twv, pass0, t_sink@, dim_ax as nat, (j + 1) as nat, (2 * dim_ax) as nat);
                            lemma_dyn_steps_none(kax, krad, twv, st0, t_sink@, dim_ax as nat, (step + 1) as nat, nsub);
                        }
                        return Err(Error::Overflow);
                    },
                };
                let m2 = match d2.mul(self.kappa_rad[slice]) {
                    Some(v) => v,
                    None => {
                        proof {
                            lemma_dyn_pass_none(kax, krad, twv, pass0, t_sink@, dim_ax as nat, (j + 1) as nat, (2 * dim_ax) as nat);
                            lemma_dyn_steps_none(kax, krad, twv, st0, t_sink@, dim_ax as nat, (step + 1) as nat, nsub);
                        }
                        return Err(Error::Overflow);
                    },
                };
                let m3 = match m1.add(m2) {
                    Some(v) => v,
                    None => {
                        proof {
                            lemma_dyn_pass_none(kax, krad, twv, pass0, t_sink@, dim_ax as nat, (j + 1) as nat, (2 * dim_ax) as nat);
                            lemma_dyn_steps_none(kax, krad, twv, st0, t_sink@, dim_ax as nat, (step + 1) as nat, nsub);
                        }
                        return Err(Error::Overflow);
                    },
                };
                let cur2 = match cur.add(m3) {
                    Some(v) => v,
                    None => {
                        proof {
                            lemma_dyn_pass_none(kax, krad, twv, pass0, t_sink@, dim_ax as nat, (j + 1) as nat, (2 * dim_ax) as nat);
                            lemma_dyn_steps_none(kax, krad, twv, st0, t_sink@, dim_ax as nat, (step + 1) as nat, nsub);
                        }
                        return Err(Error::Overflow);
                    },
                };
                let qv = match q[slice].sub(cur2) {
                    Some(v) => v,
                    None => {
                        proof {
                            lemma_dyn_pass_none(kax, krad, twv, pass0, t_sink@, dim_ax as nat, (j + 1) as nat, (2 * dim_ax) as nat);
                            lemma_dyn_steps_none(kax, krad, twv, st0, t_sink@, dim_ax as nat, (step + 1) as nat, nsub);
                        }
                        return Err(Error::Overflow);
                    },
                };
                let ghost tu_pre = tu@;
                let ghost q_pre = q@;
                tu.set(j, cur2);
                q.set(slice, qv);
                proof {
                    crate::rat::lemma_seq_frac_update(tu_pre, j as int, cur2);
                    crate::rat::lemma_seq_frac_update(q_pre, slice as int, qv);
                    assert(dyn_pass(kax, krad, twv, pass0, t_sink@, dim_ax as nat, (j
                        + 1) as nat) == Some((seq_frac(tu@), seq_frac(q@))));
                }
                j += 1;
            }
            let t2 = match t_out.add(tu[2 * dim_ax - 1]) {
                Some(v) => v,
                None => {
                    proof {
                        lemma_dyn_steps_none(kax, krad, twv, st0, t_sink@, dim_ax as nat, (step + 1) as nat, nsub);
                    }
                    return Err(Error::Overflow);
                },
            };
            t_out = t2;
            step += 1;
            proof {
                assert(dyn_steps(kax, krad, twv, st0, t_sink@, dim_ax as nat, step as nat)
                    == Some((seq_frac(tu@), seq_frac(q@), t_out@)));
            }
        }
        let mut i4: usize = 0;
        let ghost q_steps = seq_frac(q@);
        while i4 < dim_ax
            invariant
                i4 <= dim_ax,
                q.len() == dim_ax,
                tu.len() == 2 * dim_ax,
                dyn_q_scale(lb, q_steps, i4 as nat) == Some(seq_frac(q@)),
            decreases dim_ax - i4,
        {
            let v = match q[i4].mul(self.lambda_brine[i4]) {
                Some(v) => v,
                None => {
                    proof {
                        lemma_dyn_q_scale_none(lb, q_steps, (i4 + 1) as nat, dim_ax as nat);
                    }
                    return Err(Error::Overflow);
                },
            };
            let ghost q_pre = q@;
            q.set(i4, v);
            proof {
                crate::rat::lemma_seq_frac_update(q_pre, i4 as int, v);
                assert(dyn_q_scale(lb, q_steps, (i4 + 1) as nat) == Some(seq_frac(q@)));
            }
            i4 += 1;
        }
        let out = match t_out.div(nf) {
            Some(v) => v,
            None => {
                return Err(Error::Overflow);
            },
        };
        *t_u = tu;
        *q_wall = q;
        Ok(out)
    }
}

/// The chosen brine-loop model with its parameters.
#[derive(Clone, Debug)]
pub enum BrineMethod {
    Dynamic(TBrineDynamicParameters),
    Stationary(TBrineStationaryParameters),
}

} // verus!

//! Axial sampling of soil layers.
//!
//! A column of soil layers with arbitrary thicknesses is averaged over
//! `dim_ax` equal-length slices of the exchanger: each slice receives the
//! length-weighted average of density times specific heat, and of
//! conductivity, across the layers it overlaps. The last layer extends
//! semi-infinitely when the column runs out before the exchanger does.

use vstd::prelude::*;

use crate::error::Error;
use crate::model::{Depth, SoilLayerProperties};
use crate::rat::{
    frac_int, frac_le, rat_add_spec, rat_div_spec, rat_mul_spec, rat_sub_spec, seq_frac, Frac,
    Rat,
};

verus! {

/// Walking position inside the layer column while one slice is sampled.
pub ghost struct SampleCursor {
    /// Index of the current layer.
    pub li: int,
    /// Thickness of the current layer not yet accumulated; `None` beyond the
    /// last layer.
    pub d_rem: Option<Frac>,
    /// Depth up to which the current accumulators have integrated.
    pub l0: Frac,
    /// Absolute end depth of the current layer; `None` when unbounded.
    pub l1: Option<Frac>,
    /// Accumulated density x specific heat x length.
    pub cv: Frac,
    /// Accumulated conductivity x length.
    pub lam: Frac,
}

/// Crossing loop of the sampler: while the current layer ends above the
/// slice target depth `target`, accumulate the layer's remainder and move to
/// the next layer.
pub open spec fn sample_consume(
    layers: Seq<SoilLayerProperties>,
    st: SampleCursor,
    target: Frac,
) -> Option<SampleCursor>
    decreases layers.len() - st.li,
{
    if 0 <= st.li < layers.len() && st.l1 is Some && st.d_rem is Some && !frac_le(
        target,
        st.l1->Some_0,
    ) {
        let layer = layers[st.li];
        match rat_mul_spec(layer.c@, layer.rho@) {
            None => None,
            Some(cr) => match rat_mul_spec(cr, st.d_rem->Some_0) {
                None => None,
                Some(piece) => match rat_add_spec(st.cv, piece) {
                    None => None,
                    Some(cv2) => match rat_mul_spec(layer.lambda@, st.d_rem->Some_0) {
                        None => None,
                        Some(lc) => match rat_add_spec(st.lam, lc) {
                            None => None,
                            Some(lam2) => {
                                let more = st.li + 1 < layers.len();
                                let d2 = if more {
                                    layers[st.li + 1].d@
                                } else {
                                    None
                                };
                                let li2 = if more {
                                    st.li + 1
                                } else {
                                    st.li
                                };
                                let l02 = st.l1->Some_0;
                                match d2 {
                                    Some(dd) => match rat_add_spec(l02, dd) {
                                        None => None,
                                        Some(l12) => sample_consume(
                                            layers,
                                            SampleCursor {
                                                li: li2,
                                                d_rem: Some(dd),
                                                l0: l02,
                                                l1: Some(l12),
                                                cv: cv2,
                                                lam: lam2,
                                            },
                                            target,
                                        ),
                                    },
                                    None => Some(
                                        SampleCursor {
                                            li: li2,
                                            d_rem: None,
                                            l0: l02,
                                            l1: None,
                                            cv: cv2,
                                            lam: lam2,
                                        },
                                    ),
                                }
                            },
                        },
                    },
                },
            },
        }
    } else {
        Some(st)
    }
}

/// The first `i` slices sampled: their averaged values and the cursor left
/// behind. Slice `j` integrates up to depth `(j+1) * l_dhe / dim_ax` and
/// divides by the slice length `d_l`.
pub open spec fn sample_slices(
    layers: Seq<SoilLayerProperties>,
    l_dhe: Frac,
    dim_ax: nat,
    d_l: Frac,
    st0: SampleCursor,
    i: nat,
) -> Result<(Seq<Frac>, Seq<Frac>, SampleCursor), Error>
    decreases i,
{
    if i == 0 {
        Ok((Seq::empty(), Seq::empty(), st0))
    } else {
        match sample_slices(layers, l_dhe, dim_ax, d_l, st0, (i - 1) as nat) {
            Err(e) => Err(e),
            Ok(acc) => {
                let st = acc.2;
                match rat_mul_spec(frac_int(i as int), l_dhe) {
                    None => Err(Error::Overflow),
                    Some(num) => match rat_div_spec(num, frac_int(dim_ax as int)) {
                        None => Err(Error::Overflow),
                        Some(target) => match sample_consume(layers, st, target) {
                            None => Err(Error::Overflow),
                            Some(st2) => match rat_sub_spec(target, st2.l0) {
                                None => Err(Error::Overflow),
                                Some(delta) => {
                                    let layer = layers[st2.li];
                                    match rat_mul_spec(layer.c@, layer.rho@) {
                                        None => Err(Error::Overflow),
                                        Some(cr) => match rat_mul_spec(cr, delta) {
                                            None => Err(Error::Overflow),
                                            Some(part) => match rat_add_spec(st2.cv, part) {
                                                None => Err(Error::Overflow),
                                                Some(cvf) => match rat_mul_spec(
                                                    layer.lambda@,
                                                    delta,
                                                ) {
                                                    None => Err(Error::Overflow),
                                                    Some(lp) => match rat_add_spec(st2.lam, lp) {
                                                        None => Err(Error::Overflow),
                                                        Some(lamf) => match rat_div_spec(
                                                            cvf,
                                                            d_l,
                                                        ) {
                                                            None => Err(Error::Overflow),
                                                            Some(cvo) => match rat_div_spec(
                                                                lamf,
                                                                d_l,
                                                            ) {
                                                                None => Err(Error::Overflow),
                                                                Some(lamo) => {
                                                                    let d3 = match st2.d_rem {
                                                                        Some(v) => rat_sub_spec(
                                                                            v,
                                                                            delta,
                                                                        ),
                                                                        None => None,
                                                                    };
                                                                    if st2.d_rem is Some
                                                                        && d3 is None {
                                                                        Err(Error::Overflow)
                                                                    } else {
                                                                        Ok(
                                                                            (
                                                                                acc.0.push(cvo),
                                                                                acc.1.push(lamo),
                                                                                SampleCursor {
                                                                                    li: st2.li,
                                                                                    d_rem: d3,
                                                                                    l0: target,
                                                                                    l1: st2.l1,
                                                                                    cv: frac_int(
                                                                                        0,
                                                                                    ),
                                                                                    lam: frac_int(
                                                                                        0,
                                                                                    ),
                                                                                },
                                                                            ),
                                                                        )
                                                                    }
                                                                },
                                                            },
                                                        },
                                                    },
                                                },
                                            },
                                        },
                                    }
                                },
                            },
                        },
                    },
                }
            },
        }
    }
}

/// The starting cursor: at the top of the first layer, nothing accumulated.
pub open spec fn sample_start(layers: Seq<SoilLayerProperties>) -> SampleCursor {
    SampleCursor {
        li: 0,
        d_rem: layers[0].d@,
        l0: frac_int(0),
        l1: layers[0].d@,
        cv: frac_int(0),
        lam: frac_int(0),
    }
}

/// What `sample_soil_layers` computes: per-slice length averages of
/// `c * rho` and of `lambda` over the layer column.
pub open spec fn sample_spec(
    layers: Seq<SoilLayerProperties>,
    l_dhe: Frac,
    dim_ax: nat,
) -> Result<(Seq<Frac>, Seq<Frac>), Error> {
    if layers.len() == 0 {
        Err(Error::EmptyLayerList)
    } else {
        match rat_div_spec(l_dhe, frac_int(dim_ax as int)) {
            None => Err(Error::Overflow),
            Some(d_l) => if d_l.n == 0 {
                Err(Error::Overflow)
            } else {
                match sample_slices(
                layers,
                l_dhe,
                dim_ax,
                d_l,
                sample_start(layers),
                dim_ax,
            ) {
                    Err(e) => Err(e),
                    Ok(acc) => Ok((acc.0, acc.1)),
                }
            },
        }
    }
}

/// The crossing condition: the current layer ends (finitely) above the
/// target depth.
fn crosses(l1: &Depth, d_rem: &Depth, target: &Rat) -> (r: bool)
    ensures
        r == (l1@ is Some && d_rem@ is Some && !frac_le(target@, l1@->Some_0)),
{
    match (l1, d_rem) {
        (Depth::Finite(a), Depth::Finite(_)) => a.lt(target),
        _ => false,
    }
}

proof fn lemma_sample_slices_err(
    layers: Seq<SoilLayerProperties>,
    l_dhe: Frac,
    dim_ax: nat,
    d_l: Frac,
    st0: SampleCursor,
    i: nat,
    m: nat,
)
    requires
        i <= m,
        sample_slices(layers, l_dhe, dim_ax, d_l, st0, i) is Err,
    ensures
        sample_slices(layers, l_dhe, dim_ax, d_l, st0, m) == sample_slices(
            layers,
            l_dhe,
            dim_ax,
            d_l,
            st0,
            i,
        ),
    decreases m,
{
    if m > i {
        lemma_sample_slices_err(layers, l_dhe, dim_ax, d_l, st0, i, (m - 1) as nat);
    }
}

/// Samples the soil layer column over `dim_ax` equal axial slices of a
/// borehole of length `l_dhe`: returns per-slice averages of volumetric heat
/// capacity `c * rho` and of conductivity `lambda`.
#[verifier::loop_isolation(false)]
#[verifier::rlimit(100)]
pub fn sample_soil_layers(
    layers: &Vec<SoilLayerProperties>,
    l_dhe: Rat,
    dim_ax: usize,
) -> (res: Result<(Vec<Rat>, Vec<Rat>), Error>)
    requires
        1 <= dim_ax <= 0x10000,
    ensures
        match sample_spec(layers@, l_dhe@, dim_ax as nat) {
            Ok(s) => res is Ok && seq_frac(res->Ok_0.0@) == s.0 && seq_frac(res->Ok_0.1@) == s.1,
            Err(e) => res == Err::<(Vec<Rat>, Vec<Rat>), Error>(e),
        },
{
    let ghost lsv = layers@;
    let ghost lv = l_dhe@;
    if layers.len() == 0 {
        return Err(Error::EmptyLayerList);
    }
    let da_rat = Rat::from_usize(dim_ax);
    let d_l = match l_dhe.div(da_rat) {
        Some(v) => v,
        None => {
            return Err(Error::Overflow);
        },
    };
    if d_l.is_zero() {
        return Err(Error::Overflow);
    }
    let mut li: usize = 0;
    let mut d_rem: Depth = layers[0].d;
    let mut l0: Rat = Rat::zero();
    let mut l1: Depth = layers[0].d;
    let mut cv_acc: Rat = Rat::zero();
    let mut lam_acc: Rat = Rat::zero();
    let mut c_v: Vec<Rat> = Vec::new();
    let mut lambda: Vec<Rat> = Vec::new();
    let ghost st0 = sample_start(lsv);
    assert(sample_slices(lsv, lv, dim_ax as nat, d_l@, st0, 0) == Ok::<_, Error>(
        (Seq::<Frac>::empty(), Seq::<Frac>::empty(), st0),
    ));
    assert(seq_frac(c_v@) =~= Seq::<Frac>::empty());
    assert(seq_frac(lambda@) =~= Seq::<Frac>::empty());
    let ghost cur0 = SampleCursor { li: 0int, d_rem: d_rem@, l0: l0@, l1: l1@, cv: cv_acc@, lam: lam_acc@ };
    assert(cur0 == st0);
    let mut i: usize = 0;
    while i < dim_ax
        invariant
            0 <= i <= dim_ax,
            0 <= li < layers.len(),
            c_v.len() == i,
            lambda.len() == i,
            sample_slices(lsv, lv, dim_ax as nat, d_l@, st0, i as nat) == Ok::<_, Error>(
                (
                    seq_frac(c_v@),
                    seq_frac(lambda@),
                    SampleCursor {
                        li: li as int,
                        d_rem: d_rem@,
                        l0: l0@,
                        l1: l1@,
                        cv: cv_acc@,
                        lam: lam_acc@,
                    },
                ),
            ),
        decreases dim_ax - i,
    {
        let iround = match Rat::from_usize(i + 1).mul(l_dhe) {
            Some(v) => v,
            None => {
                proof {
                    lemma_sample_slices_err(lsv, lv, dim_ax as nat, d_l@, st0, (i + 1) as nat, dim_ax as nat);
                }
                return Err(Error::Overflow);
            },
        };
        let target = match iround.div(da_rat) {
            Some(v) => v,
            None => {
                proof {
                    lemma_sample_slices_err(lsv, lv, dim_ax as nat, d_l@, st0, (i + 1) as nat, dim_ax as nat);
                }
                return Err(Error::Overflow);
            },
        };
        // Crossing loop: consume whole layers that end above the target.
        let ghost st_entry = SampleCursor {
            li: li as int,
            d_rem: d_rem@,
            l0: l0@,
            l1: l1@,
            cv: cv_acc@,
            lam: lam_acc@,
        };
        while crosses(&l1, &d_rem, &target)
            invariant
                0 <= li < layers.len(),
                sample_consume(lsv, st_entry, target@) == sample_consume(
                    lsv,
                    SampleCursor {
                        li: li as int,
                        d_rem: d_rem@,
                        l0: l0@,
                        l1: l1@,
                        cv: cv_acc@,
                        lam: lam_acc@,
                    },
                    target@,
                ),
            decreases layers.len() - li, (match l1 {
                Depth::Finite(_) => 1int,
                Depth::Unbounded => 0int,
            }),
        {
            let (l1v, drv) = match (l1, d_rem) {
                (Depth::Finite(a), Depth::Finite(b)) => (a, b),
                _ => {
                    proof {
                        assert(false);
                    }
                    (Rat::zero(), Rat::zero())
                },
            };
            let layer = layers[li];
            let cr = match layer.c.mul(layer.rho) {
                Some(v) => v,
                None => {
                    proof {
                        lemma_sample_slices_err(lsv, lv, dim_ax as nat, d_l@, st0, (i + 1) as nat, dim_ax as nat);
                    }
                    return Err(Error::Overflow);
                },
            };
            let piece = match cr.mul(drv) {
                Some(v) => v,
                None => {
                    proof {
                        lemma_sample_slices_err(lsv, lv, dim_ax as nat, d_l@, st0, (i + 1) as nat, dim_ax as nat);
                    }
                    return Err(Error::Overflow);
                },
            };
            let cv2 = match cv_acc.add(piece) {
                Some(v) => v,
                None => {
                    proof {
                        lemma_sample_slices_err(lsv, lv, dim_ax as nat, d_l@, st0, (i + 1) as nat, dim_ax as nat);
                    }
                    return Err(Error::Overflow);
                },
            };
            let lc = match layer.lambda.mul(drv) {
                Some(v) => v,
                None => {
                    proof {
                        lemma_sample_slices_err(lsv, lv, dim_ax as nat, d_l@, st0, (i + 1) as nat, dim_ax as nat);
                    }
                    return Err(Error::Overflow);
                },
            };
            let lam2 = match lam_acc.add(lc) {
                Some(v) => v,
                None => {
                    proof {
                        lemma_sample_slices_err(lsv, lv, dim_ax as nat, d_l@, st0, (i + 1) as nat, dim_ax as nat);
                    }
                    return Err(Error::Overflow);
                },
            };
            cv_acc = cv2;
            lam_acc = lam2;
            l0 = l1v;
            if li + 1 < layers.len() {
                li = li + 1;
                d_rem = layers[li].d;
                match d_rem {
                    Depth::Finite(dd) => {
                        let l12 = match l1v.add(dd) {
                            Some(v) => v,
                            None => {
                                proof {
                                    lemma_sample_slices_err(lsv, lv, dim_ax as nat, d_l@, st0, (i + 1) as nat, dim_ax as nat);
                                }
                                return Err(Error::Overflow);
                            },
                        };
                        l1 = Depth::Finite(l12);
                    },
                    Depth::Unbounded => {
                        l1 = Depth::Unbounded;
                    },
                }
            } else {
                d_rem = Depth::Unbounded;
                l1 = Depth::Unbounded;
            }
        }
        let ghost st2 = SampleCursor {
            li: li as int,
            d_rem: d_rem@,
            l0: l0@,
            l1: l1@,
            cv: cv_acc@,
            lam: lam_acc@,
        };
        assert(sample_consume(lsv, st_entry, target@) == Some(st2));
        // Partial contribution of the current layer up to the target depth.
        let delta = match target.sub(l0) {
            Some(v) => v,
            None => {
                proof {
                    lemma_sample_slices_err(lsv, lv, dim_ax as nat, d_l@, st0, (i + 1) as nat, dim_ax as nat);
                }
                return Err(Error::Overflow);
            },
        };
        let layer = layers[li];
        let cr = match layer.c.mul(layer.rho) {
            Some(v) => v,
            None => {
                proof {
                    lemma_sample_slices_err(lsv, lv, dim_ax as nat, d_l@, st0, (i + 1) as nat, dim_ax as nat);
                }
                return Err(Error::Overflow);
            },
        };
        let part = match cr.mul(delta) {
            Some(v) => v,
            None => {
                proof {
                    lemma_sample_slices_err(lsv, lv, dim_ax as nat, d_l@, st0, (i + 1) as nat, dim_ax as nat);
                }
                return Err(Error::Overflow);
            },
        };
        let cvf = match cv_acc.add(part) {
            Some(v) => v,
            None => {
                proof {
                    lemma_sample_slices_err(lsv, lv, dim_ax as nat, d_l@, st0, (i + 1) as nat, dim_ax as nat);
                }
                return Err(Error::Overflow);
            },
        };
        let lp = match layer.lambda.mul(delta) {
            Some(v) => v,
            None => {
                proof {
                    lemma_sample_slices_err(lsv, lv, dim_ax as nat, d_l@, st0, (i + 1) as nat, dim_ax as nat);
                }
                return Err(Error::Overflow);
            },
        };
        let lamf = match lam_acc.add(lp) {
            Some(v) => v,
            None => {
                proof {
                    lemma_sample_slices_err(lsv, lv, dim_ax as nat, d_l@, st0, (i + 1) as nat, dim_ax as nat);
                }
                return Err(Error::Overflow);
            },
        };
        let cvo = match cvf.div(d_l) {
            Some(v) => v,
            None => {
                proof {
                    lemma_sample_slices_err(lsv, lv, dim_ax as nat, d_l@, st0, (i + 1) as nat, dim_ax as nat);
                }
                return Err(Error::Overflow);
            },
        };
        let lamo = match lamf.div(d_l) {
            Some(v) => v,
            None => {
                proof {
                    lemma_sample_slices_err(lsv, lv, dim_ax as nat, d_l@, st0, (i + 1) as nat, dim_ax as nat);
                }
                return Err(Error::Overflow);
            },
        };
        match d_rem {
            Depth::Finite(v) => {
                let v2 = match v.sub(delta) {
                    Some(x) => x,
                    None => {
                        proof {
                            lemma_sample_slices_err(lsv, lv, dim_ax as nat, d_l@, st0, (i + 1) as nat, dim_ax as nat);
                        }
                        return Err(Error::Overflow);
                    },
                };
                d_rem = Depth::Finite(v2);
            },
            Depth::Unbounded => {},
        }
        l0 = target;
        cv_acc = Rat::zero();
        lam_acc = Rat::zero();
        let ghost cv_pre = c_v@;
        let ghost lam_pre = lambda@;
        c_v.push(cvo);
        lambda.push(lamo);
        proof {
            crate::rat::lemma_seq_frac_push(cv_pre, cvo);
            crate::rat::lemma_seq_frac_push(lam_pre, lamo);
            assert(sample_slices(lsv, lv, dim_ax as nat, d_l@, st0, (i + 1) as nat)
                == Ok::<_, Error>(
                (
                    seq_frac(c_v@),
                    seq_frac(lambda@),
                    SampleCursor {
                        li: li as int,
                        d_rem: d_rem@,
                        l0: l0@,
                        l1: l1@,
                        cv: cv_acc@,
                        lam: lam_acc@,
                    },
                ),
            ));
        }
        i += 1;
    }
    Ok((c_v, lambda))
}

} // verus!

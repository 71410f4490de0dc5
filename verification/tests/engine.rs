//! Exact-value tests of the verified engine kernels.

use dhe::boundary::boundary_step;
use dhe::brine::{BrineMethod, TBrineStationaryParameters};
use dhe::client_info::ClientInfoMetrics;
use dhe::layers::sample_soil_layers;
use dhe::model::{Depth, GConeParameters, SoilLayerProperties};
use dhe::numerics::{solve_tridiagonal, solve_vandermonde};
use dhe::rat::Rat;
use dhe::soil::{T_soil_refresh, TSoilParameters};
use dhe::Error;

fn r(i: i32) -> Rat {
    Rat::from_int(i)
}

fn rp(n: i64, d: i64) -> Rat {
    Rat::from_parts(n, d).unwrap()
}

fn assert_val(x: Rat, n: i64, d: i64) {
    assert!(x.eq_val(&rp(n, d)), "got {:?}, want {}/{}", x, n, d);
}

#[test]
fn test_solve_vandermonde() {
    // P = x^2 - 3x + 2 at nodes 1, 2.
    let x = vec![r(1), r(2)];
    let q = vec![r(2), r(3)];
    let mut w = vec![r(0), r(0)];
    solve_vandermonde(&x, &q, 2, &mut w).unwrap();
    assert_val(w[0], 1, 1);
    assert_val(w[1], 1, 1);

    // P = x^3 - 6x^2 + 11x - 6 at nodes 1, 2, 3.
    let x = vec![r(1), r(2), r(3)];
    let q = vec![r(3), r(7), r(13)];
    let mut w = vec![r(0); 3];
    solve_vandermonde(&x, &q, 3, &mut w).unwrap();
    for i in 0..3 {
        assert_val(w[i], 1, 1);
    }

    let x: Vec<Rat> = (1..=6).map(r).collect();
    let q = vec![r(6), r(63), r(364), r(1365), r(3906), r(9331)];
    let mut w = vec![r(0); 6];
    solve_vandermonde(&x, &q, 6, &mut w).unwrap();
    for i in 0..6 {
        assert_val(w[i], 1, 1);
    }
}

#[test]
fn test_vandermonde_single_node_returns_values() {
    let x = vec![r(5)];
    let q = vec![r(42)];
    let mut w = vec![r(0)];
    solve_vandermonde(&x, &q, 1, &mut w).unwrap();
    assert_val(w[0], 42, 1);
}

#[test]
fn test_vandermonde_duplicate_nodes_singular() {
    let x = vec![r(2), r(2)];
    let q = vec![r(1), r(1)];
    let mut w = vec![r(0), r(0)];
    assert_eq!(
        solve_vandermonde(&x, &q, 2, &mut w),
        Err(Error::SingularSystem)
    );
}

#[test]
fn test_solve_tridiagonal() {
    let diag = vec![r(1), r(1), r(1)];
    let upper = vec![r(0), r(1)];
    let lower = vec![r(1), r(0)];
    let mut b = vec![r(1), r(3), r(1)];
    solve_tridiagonal(&diag, &upper, &lower, &mut b, 1).unwrap();
    assert_val(b[0], 1, 1);
    assert_val(b[1], 1, 1);
    assert_val(b[2], 1, 1);

    let diag = vec![r(1), r(2), r(1)];
    let upper = vec![r(1), r(1)];
    let lower = vec![r(0), r(0)];
    let mut b = vec![r(2), r(3), r(1), r(1), r(0), r(0)];
    solve_tridiagonal(&diag, &upper, &lower, &mut b, 2).unwrap();
    let want = [1i64, 1, 1, 1, 0, 0];
    for i in 0..6 {
        assert_val(b[i], want[i], 1);
    }

    // Diagonally dominant, physically derived system; the solution must
    // match the reference values closely.
    let diag: Vec<Rat> = [
        4527058.640070025,
        38028438.734685145,
        193712619.79690066,
        861827803.8869578,
        3628452090.968371,
    ]
    .iter()
    .map(|v| rat_from_f64(*v))
    .collect();
    let off: Vec<Rat> = [
        -763152.1625172902,
        -909894.9216469377,
        -1055050.6848450396,
        -1129841.2638285048,
    ]
    .iter()
    .map(|v| rat_from_f64(*v))
    .collect();
    let mut b: Vec<Rat> = [1373769.7405351724, 0.0, 0.0, 0.0, 0.0]
        .iter()
        .map(|v| rat_from_f64(*v))
        .collect();
    solve_tridiagonal(&diag, &off, &off, &mut b, 1).unwrap();
    let want = [
        0.304487652605313,
        0.00611112464251796,
        2.8704987619414383e-05,
        3.514069640447911e-08,
        1.0942244197264381e-11,
    ];
    for i in 0..5 {
        assert!(
            (rat_to_f64(&b[i]) - want[i]).abs() <= 1.0e-10,
            "entry {}: got {}, want {}",
            i,
            rat_to_f64(&b[i]),
            want[i]
        );
    }
}

fn rat_from_f64(x: f64) -> Rat {
    let mut num = x;
    let mut den: i64 = 1;
    while num != num.trunc() {
        num *= 2.0;
        den *= 2;
    }
    Rat::from_parts(num as i64, den).unwrap()
}

fn rat_to_f64(r: &Rat) -> f64 {
    r.num() as f64 / r.den() as f64
}

#[test]
fn test_tridiagonal_zero_pivot_singular() {
    let diag = vec![r(0), r(1)];
    let upper = vec![r(1)];
    let lower = vec![r(1)];
    let mut b = vec![r(1), r(1)];
    assert_eq!(
        solve_tridiagonal(&diag, &upper, &lower, &mut b, 1),
        Err(Error::SingularSystem)
    );
    // The right-hand side stays untouched on failure.
    assert_val(b[0], 1, 1);
}

#[test]
fn test_sample_soil_layers() {
    let layer = |d: Depth, rho: i32, c: i32, lambda: i32| SoilLayerProperties {
        rho: r(rho),
        c: r(c),
        lambda: r(lambda),
        d,
    };
    let soil_layers = vec![
        layer(Depth::Finite(r(1)), 3, 3, 0),
        layer(Depth::Finite(r(3)), 2, 3, 0),
        layer(Depth::Finite(r(2)), 1, -1, 0),
        layer(Depth::Finite(r(1)), 3, 3, 0),
    ];
    let (c_v, lambda) = sample_soil_layers(&soil_layers, r(6), 3).unwrap();
    assert_val(c_v[0], 15, 2);
    assert_val(c_v[1], 6, 1);
    assert_val(c_v[2], -1, 1);
    for i in 0..3 {
        assert_val(lambda[i], 0, 1);
    }

    let (c_v, lambda) = sample_soil_layers(&soil_layers, r(8), 2).unwrap();
    assert_val(c_v[0], 27, 4);
    assert_val(c_v[1], 4, 1);
    assert_val(lambda[0], 0, 1);
    assert_val(lambda[1], 0, 1);

    let soil_layers = vec![layer(Depth::Unbounded, 1, 2, 3)];
    let (c_v, lambda) = sample_soil_layers(&soil_layers, r(6), 2).unwrap();
    assert_val(c_v[0], 2, 1);
    assert_val(c_v[1], 2, 1);
    assert_val(lambda[0], 3, 1);
    assert_val(lambda[1], 3, 1);
}

#[test]
fn test_sample_soil_layers_empty() {
    let layers: Vec<SoilLayerProperties> = Vec::new();
    assert_eq!(
        sample_soil_layers(&layers, r(6), 2),
        Err(Error::EmptyLayerList)
    );
}

fn id_tensor(dim_ax: usize, dim_rad: usize) -> Vec<Rat> {
    let mut t = vec![r(0); dim_ax * dim_rad * (dim_rad + 2)];
    for a in 0..dim_ax {
        for i in 0..dim_rad {
            t[dim_rad * (dim_rad + 2) * a + (dim_rad + 2) * i + i + 1] = r(1);
        }
    }
    t
}

#[test]
fn test_tsoil_id() {
    const DIMAXI: usize = 1;
    const DIMRAD: usize = 5;
    let mut t_soil: Vec<Rat> = (0..(DIMRAD + 2) as i32).map(r).collect();
    let t_soil_ref = t_soil.clone();
    let tensor = id_tensor(DIMAXI, DIMRAD);
    T_soil_refresh(&mut t_soil, &tensor, DIMAXI, DIMRAD).unwrap();
    for i in 0..t_soil.len() {
        assert!(t_soil[i].eq_val(&t_soil_ref[i]));
    }
}

#[test]
fn test_stationary_brine_balanced_profile() {
    // kappa_soil = 1, kappa_brine = 0: the brine takes the wall temperature
    // everywhere and the flux is proportional to the conductance.
    let prm = TBrineStationaryParameters {
        kappa_soil: vec![r(1), r(1)],
        kappa_brine: vec![r(0), r(0)],
        L: vec![r(2), r(2)],
    };
    let t_wall = vec![r(10), r(20)];
    let mut t_u = vec![r(0); 4];
    let mut q = vec![r(0); 2];
    let out = prm.refresh(&t_wall, &mut t_u, &mut q, 2, r(5)).unwrap();
    // Down-leg and up-leg both equal the wall temperatures.
    assert_val(t_u[0], 10, 1);
    assert_val(t_u[1], 20, 1);
    assert_val(t_u[2], 20, 1);
    assert_val(t_u[3], 10, 1);
    // q[i] = (2 T_wall - T_down - T_up) * L / 2 = 0 for the matched profile.
    assert_val(q[0], 0, 1);
    assert_val(q[1], 0, 1);
    // The outlet is the top of the up-leg.
    assert!(out.eq_val(&r(10)));
}

#[test]
fn test_boundary_step_pump_off() {
    // Identity evolution tensor, zero demanded power: the grid is
    // untouched, the sink and source both read the wall row.
    const DA: usize = 2;
    const DR: usize = 2;
    let tensor = id_tensor(DA, DR);
    let prm = TSoilParameters {
        T_soil_tensor: tensor,
        L: vec![r(1), r(1)],
        T_brine_method: BrineMethod::Stationary(TBrineStationaryParameters {
            kappa_soil: vec![r(1), r(1)],
            kappa_brine: vec![r(0), r(0)],
            L: vec![r(0), r(0)],
        }),
    };
    let p = vec![r(0)];
    let u = vec![r(0)];
    let mut t_sink = r(0);
    // Grid rows: ghost, wall = [7, 9], inner, far ghost.
    let mut t_soil = vec![r(0), r(0), r(7), r(9), r(4), r(4), r(3), r(3)];
    let mut t_u = vec![r(0); 4];
    let mut sum_q0 = vec![r(0); 2];
    let mut q_wall = vec![r(0); 2];
    let (sink, source, soil) = boundary_step(
        &p, &u, DA, DR, 1, r(1), &prm, &prm, &mut t_sink, &mut t_soil, &mut t_u,
        &mut sum_q0, &mut q_wall, rp(1, 20), 10,
    )
    .unwrap();
    assert_eq!(sink.len(), 1);
    assert_eq!(source.len(), 1);
    assert_eq!(soil.len(), 8);
    // Pump off: source equals sink, and the sink reads the wall row
    // (element dim_ax + 1 of the grid).
    assert!(source[0].eq_val(&sink[0]));
    assert!(sink[0].eq_val(&t_soil[DA + 1]));
    assert!(t_sink.eq_val(&sink[0]));
}

#[test]
fn test_rat_arithmetic_exact() {
    let a = rp(1, 3);
    let b = rp(1, 6);
    assert_val(a.add(b).unwrap(), 1, 2);
    assert_val(a.sub(b).unwrap(), 1, 6);
    assert_val(a.mul(b).unwrap(), 1, 18);
    assert_val(a.div(b).unwrap(), 2, 1);
    assert!(a.neg().eq_val(&rp(-1, 3)));
    assert!(rp(-3, 4).abs_val().eq_val(&rp(3, 4)));
    assert!(rp(1, 3).lt(&rp(1, 2)));
    assert!(rp(2, 4).eq_val(&rp(1, 2)));
}

#[test]
fn test_rat_overflow_reported() {
    let big = Rat::from_parts(0x4000_0000_0000_0000u64 as i64 - 1, 1).unwrap();
    assert_eq!(big.mul(big), None);
}

#[test]
fn test_error_messages() {
    assert_eq!(Error::EmptyLayerList.message(), "empty soil layer list");
    assert_eq!(Error::SingularSystem.message(), "singular tridiagonal system");
    assert_eq!(
        Error::SpacingOutOfRange.message(),
        "exchanger spacing out of range"
    );
    assert_eq!(Error::Overflow.message(), "rational overflow");
    assert_eq!(
        Error::ConvergenceFailure.message(),
        "sink temperature iteration did not converge"
    );
}

#[test]
fn test_client_info_unknown() {
    let info = ClientInfoMetrics::unknown();
    assert_eq!(info.app_build, "unknown");
    assert_eq!(info.app_display_version, "unknown");
}

#[test]
fn test_gcone_parameters_new() {
    let _p: GConeParameters = GConeParameters::new();
}

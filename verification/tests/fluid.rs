use wasm_fluid::simulation::{Cell, Simulation};

const FOUR_NINTHS: f64 = 4.0 / 9.0;
const NINTH: f64 = 1.0 / 9.0;
const THIRTY_SIXTH: f64 = 1.0 / 36.0;

fn equilibrium(u_x: f64, u_y: f64, rho: f64) -> Cell<f64> {
    let u_x3 = 3.0 * u_x;
    let u_y3 = 3.0 * u_y;
    let u_x2 = u_x * u_x;
    let u_y2 = u_y * u_y;
    let u_x_u_y2 = 2.0 * u_x * u_y;
    let u2 = u_x2 + u_y2;
    let u215 = 1.5 * u2;
    Cell {
        n_0: FOUR_NINTHS * rho * (1.0 - u215),
        n_e: NINTH * rho * (1.0 + u_x3 + 4.5 * u_x2 - u215),
        n_w: NINTH * rho * (1.0 - u_x3 + 4.5 * u_x2 - u215),
        n_n: NINTH * rho * (1.0 + u_y3 + 4.5 * u_y2 - u215),
        n_s: NINTH * rho * (1.0 - u_y3 + 4.5 * u_y2 - u215),
        n_ne: THIRTY_SIXTH * rho * (1.0 + u_x3 + u_y3 + 4.5 * (u2 + u_x_u_y2) - u215),
        n_se: THIRTY_SIXTH * rho * (1.0 + u_x3 - u_y3 + 4.5 * (u2 - u_x_u_y2) - u215),
        n_nw: THIRTY_SIXTH * rho * (1.0 - u_x3 + u_y3 + 4.5 * (u2 - u_x_u_y2) - u215),
        n_sw: THIRTY_SIXTH * rho * (1.0 - u_x3 - u_y3 + 4.5 * (u2 + u_x_u_y2) - u215),
        rho,
        u_x,
        u_y,
    }
}

fn free_stream(speed: f64) -> Cell<f64> {
    equilibrium(speed, 0.0, 1.0)
}

fn density(c: &Cell<f64>) -> f64 {
    c.n_0 + c.n_n + c.n_s + c.n_e + c.n_w + c.n_nw + c.n_ne + c.n_sw + c.n_se
}

fn relax(c: Cell<f64>, viscosity: f64) -> Cell<f64> {
    let omega = 1.0 / (3.0 * viscosity + 0.5);
    let rho = density(&c);
    let u_x = (c.n_e + c.n_ne + c.n_se - c.n_w - c.n_nw - c.n_sw) / rho;
    let u_y = (c.n_n + c.n_ne + c.n_nw - c.n_s - c.n_se - c.n_sw) / rho;
    let target = equilibrium(u_x, u_y, rho);
    Cell {
        n_0: c.n_0 + omega * (target.n_0 - c.n_0),
        n_e: c.n_e + omega * (target.n_e - c.n_e),
        n_w: c.n_w + omega * (target.n_w - c.n_w),
        n_n: c.n_n + omega * (target.n_n - c.n_n),
        n_s: c.n_s + omega * (target.n_s - c.n_s),
        n_ne: c.n_ne + omega * (target.n_ne - c.n_ne),
        n_se: c.n_se + omega * (target.n_se - c.n_se),
        n_nw: c.n_nw + omega * (target.n_nw - c.n_nw),
        n_sw: c.n_sw + omega * (target.n_sw - c.n_sw),
        rho,
        u_x,
        u_y,
    }
}

fn vorticity(uy_w: f64, uy_e: f64, ux_s: f64, ux_n: f64) -> f64 {
    uy_w - uy_e - ux_s + ux_n
}

fn populations(c: &Cell<f64>) -> [f64; 9] {
    [c.n_0, c.n_e, c.n_w, c.n_n, c.n_s, c.n_ne, c.n_se, c.n_nw, c.n_sw]
}

fn interior_mass(sim: &Simulation<f64>) -> f64 {
    let mut total = 0.0;
    for y in 1..sim.y_dim() - 1 {
        for x in 1..sim.x_dim() - 1 {
            total += density(&sim.cell(x, y));
        }
    }
    total
}

#[test]
fn equilibrium_at_rest_has_the_lattice_weights() {
    let c = equilibrium(0.0, 0.0, 1.0);
    assert_eq!(c.n_0, 4.0 / 9.0);
    for v in [c.n_e, c.n_w, c.n_n, c.n_s] {
        assert_eq!(v, 1.0 / 9.0);
    }
    for v in [c.n_ne, c.n_se, c.n_nw, c.n_sw] {
        assert_eq!(v, 1.0 / 36.0);
    }
    assert!((density(&c) - 1.0).abs() < 1e-15);
}

#[test]
fn equilibrium_counts_both_velocity_components() {
    let along = equilibrium(0.1, 0.0, 1.0);
    assert!((along.n_0 - 4.0 / 9.0 * 0.985).abs() < 1e-15);
    assert!((along.n_e - 1.33 / 9.0).abs() < 1e-15);
    assert!((along.n_w - 0.73 / 9.0).abs() < 1e-15);
    assert!((along.n_n - 0.985 / 9.0).abs() < 1e-15);
    assert!((along.n_ne - 1.33 / 36.0).abs() < 1e-15);
    assert!((along.n_sw - 0.73 / 36.0).abs() < 1e-15);
    let across = equilibrium(0.0, 0.1, 2.0);
    assert!((across.n_0 - 8.0 / 9.0 * 0.985).abs() < 1e-15);
    assert!((across.n_n - 2.66 / 9.0).abs() < 1e-15);
    assert!((across.n_s - 1.46 / 9.0).abs() < 1e-15);
    assert!((across.n_e - 1.97 / 9.0).abs() < 1e-15);
    assert!((density(&across) - 2.0).abs() < 1e-12);
    let skew = equilibrium(0.1, 0.1, 1.0);
    assert!((skew.n_ne - 1.75 / 36.0).abs() < 1e-15);
    assert!((skew.n_se - 0.97 / 36.0).abs() < 1e-15);
}

#[test]
fn a_cell_at_rest_is_a_fixed_point_of_collision() {
    for viscosity in [0.0, 0.005, 0.02, 0.1, 1.0, 50.0] {
        let mut sim = Simulation::new(5, 5, 0.0, 1, viscosity, 0.0, free_stream).unwrap();
        let before = populations(&sim.cell(2, 2));
        sim.collide(&relax);
        let after = populations(&sim.cell(2, 2));
        for (a, b) in before.iter().zip(after.iter()) {
            assert!((a - b).abs() < 1e-15);
        }
    }
}

#[test]
fn uniform_flow_stays_uniform() {
    let mut sim = Simulation::new(10, 10, 0.1, 1, 0.02, 0.0, free_stream).unwrap();
    sim.simulate(free_stream, relax, vorticity);
    for y in 1..9 {
        for x in 1..9 {
            let c = sim.cell(x, y);
            assert!((c.u_x - 0.1).abs() < 1e-6);
            assert!(c.u_y.abs() < 1e-6);
            assert!((c.rho - 1.0).abs() < 1e-6);
            assert!(sim.curl(x, y).abs() < 1e-6);
        }
    }
}

#[test]
fn a_barrier_stirs_up_curl_beside_it() {
    let mut sim = Simulation::new(10, 10, 0.1, 1, 0.02, 0.0, free_stream).unwrap();
    sim.add_barrier(5, 5);
    sim.simulate(free_stream, relax, vorticity);
    assert!(sim.barrier(5, 5));
    // velocities are taken in the collision, before the first streaming
    // meets the barrier: the first frame still shows the uniform field
    for (x, y) in [(4, 5), (6, 5), (5, 4), (5, 6)] {
        assert!(sim.curl(x, y).abs() < 1e-9);
    }
    sim.simulate(free_stream, relax, vorticity);
    assert!(sim.barrier(5, 5));
    assert!(sim.curl(5, 4).abs() > 1e-3);
    assert!(sim.curl(5, 6).abs() > 1e-3);
    assert!((sim.curl(5, 4) + sim.curl(5, 6)).abs() < 1e-9);
    // on the axis of the flow the field is mirror-symmetric
    assert!(sim.curl(4, 5).abs() < 1e-9);
    assert!(sim.curl(6, 5).abs() < 1e-9);
}

#[test]
fn collision_and_streaming_keep_the_interior_mass() {
    let mut sim = Simulation::new(12, 10, 0.1, 1, 0.02, 0.0, free_stream).unwrap();
    sim.add_barrier(5, 5);
    sim.add_barrier(5, 4);
    let before = interior_mass(&sim);
    sim.collide(&relax);
    sim.stream();
    let after = interior_mass(&sim);
    assert!((before - 80.0).abs() < 1e-9);
    assert!((after - before).abs() < 1e-9);
}

#[test]
fn collision_keeps_the_density_of_a_cell() {
    let mut sim = Simulation::new(5, 5, 0.0, 1, 0.02, 0.0, free_stream).unwrap();
    let stirred = Cell {
        n_0: 0.4,
        n_e: 0.15,
        n_w: 0.1,
        n_n: 0.12,
        n_s: 0.1,
        n_ne: 0.03,
        n_se: 0.02,
        n_nw: 0.03,
        n_sw: 0.02,
        rho: 0.0,
        u_x: 0.0,
        u_y: 0.0,
    };
    sim.set_cell(2, 2, stirred);
    sim.collide(&relax);
    let c = sim.cell(2, 2);
    assert!((c.rho - 0.97).abs() < 1e-12);
    assert!((density(&c) - 0.97).abs() < 1e-12);
    assert!((c.u_x - 0.05 / 0.97).abs() < 1e-12);
    assert!((c.u_y - 0.04 / 0.97).abs() < 1e-12);
    let omega = 1.0 / (3.0 * 0.02 + 0.5);
    let target = equilibrium(c.u_x, c.u_y, c.rho);
    assert!((c.n_e - (0.15 + omega * (target.n_e - 0.15))).abs() < 1e-15);
}

#[test]
fn tiny_viscosity_lets_the_density_drift() {
    let mut sim = Simulation::new(60, 24, 0.1, 20, 1e-7, 0.0, free_stream).unwrap();
    for y in 8..16 {
        sim.add_barrier(20, y);
    }
    let mut worst: f64 = 0.0;
    let mut frames = 0;
    while frames < 150 && worst <= 0.1 {
        sim.simulate(free_stream, relax, vorticity);
        frames += 1;
        for y in 1..23 {
            for x in 1..59 {
                if !sim.barrier(x, y) {
                    let off = (sim.cell(x, y).rho - 1.0).abs();
                    if !(off <= worst) {
                        worst = if off.is_nan() { f64::INFINITY } else { off };
                    }
                }
            }
        }
    }
    println!("frames {} worst {}", frames, worst);
    assert!(worst > 0.1);
}

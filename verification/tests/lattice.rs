use wasm_fluid::lattice::{duplicate, filled, is_inner, patch_outflow, reflect, refresh_edges, shift};
use wasm_fluid::simulation::{initial_barrier, Cell, Simulation, SimulationError};

fn coded(tag: i64, x: u64, y: u64) -> Cell<i64> {
    let base = tag * 1_000_000 + (x as i64) * 1000 + (y as i64) * 10;
    Cell {
        n_0: base,
        n_e: base + 1,
        n_w: base + 2,
        n_n: base + 3,
        n_s: base + 4,
        n_ne: base + 5,
        n_se: base + 6,
        n_nw: base + 7,
        n_sw: base + 8,
        rho: base + 100,
        u_x: base + 200,
        u_y: base + 300,
    }
}

fn same(a: &Cell<i64>, b: &Cell<i64>) -> bool {
    a.n_0 == b.n_0 && a.n_e == b.n_e && a.n_w == b.n_w && a.n_n == b.n_n && a.n_s == b.n_s
        && a.n_ne == b.n_ne && a.n_se == b.n_se && a.n_nw == b.n_nw && a.n_sw == b.n_sw
        && a.rho == b.rho && a.u_x == b.u_x && a.u_y == b.u_y
}

fn zero(_speed: i64) -> Cell<i64> {
    coded(0, 0, 0)
}

fn coded_grid(w: u64, h: u64) -> Simulation<i64> {
    let mut sim = Simulation::new(w, h, 0i64, 1, 0i64, 0i64, zero).unwrap();
    for y in 0..h {
        for x in 0..w {
            sim.set_cell(x, y, coded(1, x, y));
        }
    }
    sim
}

#[test]
fn filled_and_duplicate_hold_the_same_values() {
    let v = filled(7u8, 5);
    assert_eq!(v, vec![7u8; 5]);
    let d = duplicate(&v);
    assert_eq!(d, v);
    assert!(filled(1u8, 0).is_empty());
}

#[test]
fn inner_positions_of_a_four_by_three_field() {
    let w = 4usize;
    let n = 12usize;
    let inner: Vec<usize> = (0..n).filter(|i| is_inner(*i, w, n)).collect();
    assert_eq!(inner, vec![5, 6]);
}

#[test]
fn refresh_edges_sets_the_ring_only() {
    let mut v: Vec<u32> = (0..12).collect();
    refresh_edges(&mut v, 4, 99);
    assert_eq!(v, vec![99, 99, 99, 99, 99, 5, 6, 99, 99, 99, 99, 99]);
}

#[test]
fn shift_moves_inner_values_forward_and_backward() {
    let mut v: Vec<u32> = (0..15).collect();
    shift(&mut v, 5, 1, true);
    assert_eq!(v, vec![0, 1, 2, 3, 4, 5, 5, 6, 7, 9, 10, 11, 12, 13, 14]);
    let mut v: Vec<u32> = (0..15).collect();
    shift(&mut v, 5, 1, false);
    assert_eq!(v, vec![0, 1, 2, 3, 4, 5, 7, 8, 9, 9, 10, 11, 12, 13, 14]);
    let mut v: Vec<u32> = (0..15).collect();
    shift(&mut v, 5, 6, true);
    assert_eq!(v, vec![0, 1, 2, 3, 4, 5, 0, 1, 2, 9, 10, 11, 12, 13, 14]);
    let mut v: Vec<u32> = (0..15).collect();
    shift(&mut v, 5, 4, false);
    assert_eq!(v, vec![0, 1, 2, 3, 4, 5, 10, 11, 12, 9, 10, 11, 12, 13, 14]);
}

#[test]
fn reflect_pushes_from_solid_inner_positions() {
    let src: Vec<u32> = (100..115).collect();
    let mut solid = vec![false; 15];
    solid[7] = true;
    solid[0] = true;
    let mut dst: Vec<u32> = (0..15).collect();
    reflect(&mut dst, &src, &solid, 5, 1, true);
    assert_eq!(dst, vec![0, 1, 2, 3, 4, 5, 6, 7, 107, 9, 10, 11, 12, 13, 14]);
    let mut dst: Vec<u32> = (0..15).collect();
    reflect(&mut dst, &src, &solid, 5, 6, false);
    assert_eq!(dst, vec![0, 107, 2, 3, 4, 5, 6, 7, 8, 9, 10, 11, 12, 13, 14]);
}

#[test]
fn patch_outflow_copies_into_the_last_column() {
    let mut v: Vec<u32> = (0..20).collect();
    patch_outflow(&mut v, 4);
    let mut expected: Vec<u32> = (0..20).collect();
    expected[7] = 6;
    expected[11] = 10;
    assert_eq!(v, expected);
    let mut v: Vec<u32> = (0..12).collect();
    patch_outflow(&mut v, 4);
    assert_eq!(v, (0..12).collect::<Vec<u32>>());
}

#[test]
fn degenerate_grids_are_refused() {
    assert!(matches!(
        Simulation::new(2, 10, 0i64, 1, 0i64, 0i64, zero),
        Err(SimulationError::DegenerateGrid)
    ));
    assert!(matches!(
        Simulation::new(10, 2, 0i64, 1, 0i64, 0i64, zero),
        Err(SimulationError::DegenerateGrid)
    ));
    assert!(matches!(
        Simulation::new(0, 0, 0i64, 1, 0i64, 0i64, zero),
        Err(SimulationError::DegenerateGrid)
    ));
    assert!(Simulation::new(3, 3, 0i64, 1, 0i64, 0i64, zero).is_ok());
}

#[test]
fn a_new_grid_is_uniform_and_free_of_barriers() {
    let sim = Simulation::new(5, 4, 9i64, 3, 2i64, -1i64, |s| coded(s, 0, 0)).unwrap();
    assert_eq!(sim.x_dim(), 5);
    assert_eq!(sim.y_dim(), 4);
    for y in 0..4 {
        for x in 0..5 {
            assert!(!sim.barrier(x, y));
            assert_eq!(sim.curl(x, y), -1);
            assert!(same(&sim.cell(x, y), &coded(9, 0, 0)));
        }
    }
    assert_eq!(sim.barrier_field().len(), 20);
    assert_eq!(sim.curl_field(), &vec![-1i64; 20]);
}

#[test]
fn init_restores_the_fresh_state_at_the_current_speed() {
    let mut sim = coded_grid(7, 7);
    sim.add_barrier(3, 3);
    sim.set_speed(4);
    sim.init(5, |s| coded(s, 0, 0));
    for y in 0..7 {
        for x in 0..7 {
            assert!(!sim.barrier(x, y));
            assert_eq!(sim.curl(x, y), 5);
            assert!(same(&sim.cell(x, y), &coded(4, 0, 0)));
        }
    }
}

#[test]
fn set_cell_changes_one_cell() {
    let mut sim = Simulation::new(4, 3, 0i64, 1, 0i64, 0i64, zero).unwrap();
    sim.set_cell(2, 1, coded(5, 2, 1));
    for y in 0..3 {
        for x in 0..4 {
            let expected = if (x, y) == (2, 1) { coded(5, 2, 1) } else { coded(0, 0, 0) };
            assert!(same(&sim.cell(x, y), &expected));
        }
    }
}

#[test]
fn barrier_within_two_cells_of_an_edge_is_ignored() {
    let mut sim = Simulation::new(10, 10, 0i64, 1, 0i64, 0i64, zero).unwrap();
    sim.add_barrier(1, 1);
    assert!(!sim.barrier(1, 1));
    sim.add_barrier(8, 5);
    assert!(!sim.barrier(8, 5));
    sim.add_barrier(5, 0);
    assert!(!sim.barrier(5, 0));
    sim.add_barrier(5, 8);
    assert!(!sim.barrier(5, 8));
    sim.add_barrier(100, 5);
    sim.add_barrier(5, 100);
    sim.add_barrier(2, 2);
    assert!(sim.barrier(2, 2));
    sim.add_barrier(7, 7);
    assert!(sim.barrier(7, 7));
    let count = sim.barrier_field().iter().filter(|b| **b).count();
    assert_eq!(count, 2);
    assert!(sim.barrier_field()[7 + 7 * 10]);
}

#[test]
fn remove_and_clear_barriers() {
    let mut sim = Simulation::new(10, 10, 0i64, 1, 0i64, 0i64, zero).unwrap();
    sim.add_barrier(4, 4);
    sim.add_barrier(5, 5);
    sim.add_barrier(6, 6);
    sim.remove_barrier(5, 5);
    assert!(sim.barrier(4, 4) && !sim.barrier(5, 5) && sim.barrier(6, 6));
    sim.remove_barrier(1, 1);
    sim.remove_barrier(50, 50);
    sim.remove_barrier(5, 5);
    assert!(sim.barrier(4, 4) && sim.barrier(6, 6));
    sim.clear_barriers();
    for y in 0..10 {
        for x in 0..10 {
            assert!(!sim.barrier(x, y));
        }
    }
}

#[test]
fn opening_wall_stands_in_the_third_column_around_the_middle() {
    let mut sim = Simulation::new(300, 120, 0i64, 1, 0i64, 0i64, zero).unwrap();
    initial_barrier(&mut sim, 120);
    for y in 0..120 {
        for x in 0..300 {
            assert_eq!(sim.barrier(x, y), x == 40 && (52..68).contains(&y));
        }
    }
    let mut low = Simulation::new(20, 16, 0i64, 1, 0i64, 0i64, zero).unwrap();
    initial_barrier(&mut low, 16);
    for y in 0..16 {
        for x in 0..20 {
            assert_eq!(low.barrier(x, y), x == 5 && (2..14).contains(&y));
        }
    }
}

#[test]
fn refreshing_the_edges_twice_is_refreshing_them_once() {
    let mut sim = coded_grid(6, 5);
    let free = coded(7, 7, 7);
    sim.set_boundaries(free);
    let once: Vec<Cell<i64>> = (0..30).map(|i| sim.cell(i % 6, i / 6)).collect();
    sim.set_boundaries(free);
    for i in 0..30u64 {
        let (x, y) = (i % 6, i / 6);
        assert!(same(&sim.cell(x, y), &once[i as usize]));
        let interior = (1..5).contains(&x) && (1..4).contains(&y);
        let expected = if interior { coded(1, x, y) } else { free };
        assert!(same(&sim.cell(x, y), &expected));
    }
}

#[test]
fn streaming_without_barriers_is_advection() {
    let mut sim = coded_grid(6, 5);
    sim.stream();
    for y in 0..5u64 {
        for x in 0..6u64 {
            let got = sim.cell(x, y);
            let interior = (1..5).contains(&x) && (1..4).contains(&y);
            if !interior {
                assert!(same(&got, &coded(1, x, y)));
                continue;
            }
            assert_eq!(got.n_0, coded(1, x, y).n_0);
            assert_eq!(got.n_e, coded(1, x - 1, y).n_e);
            assert_eq!(got.n_w, coded(1, x + 1, y).n_w);
            assert_eq!(got.n_n, coded(1, x, y - 1).n_n);
            assert_eq!(got.n_s, coded(1, x, y + 1).n_s);
            assert_eq!(got.n_ne, coded(1, x - 1, y - 1).n_ne);
            assert_eq!(got.n_se, coded(1, x - 1, y + 1).n_se);
            assert_eq!(got.n_nw, coded(1, x + 1, y - 1).n_nw);
            assert_eq!(got.n_sw, coded(1, x + 1, y + 1).n_sw);
            assert_eq!(got.rho, coded(1, x, y).rho);
            assert_eq!(got.u_x, coded(1, x, y).u_x);
            assert_eq!(got.u_y, coded(1, x, y).u_y);
        }
    }
}

#[test]
fn a_barrier_sends_every_population_back_reversed() {
    let mut sim = coded_grid(7, 7);
    sim.add_barrier(3, 3);
    sim.stream();
    assert_eq!(sim.cell(4, 3).n_e, coded(1, 4, 3).n_w);
    assert_eq!(sim.cell(2, 3).n_w, coded(1, 2, 3).n_e);
    assert_eq!(sim.cell(3, 4).n_n, coded(1, 3, 4).n_s);
    assert_eq!(sim.cell(3, 2).n_s, coded(1, 3, 2).n_n);
    assert_eq!(sim.cell(4, 4).n_ne, coded(1, 4, 4).n_sw);
    assert_eq!(sim.cell(2, 2).n_sw, coded(1, 2, 2).n_ne);
    assert_eq!(sim.cell(2, 4).n_nw, coded(1, 2, 4).n_se);
    assert_eq!(sim.cell(4, 2).n_se, coded(1, 4, 2).n_nw);
    // the barrier cell itself keeps what advection carried into it
    assert_eq!(sim.cell(3, 3).n_e, coded(1, 2, 3).n_e);
    assert_eq!(sim.cell(3, 3).n_sw, coded(1, 4, 4).n_sw);
    // a slot that no barrier feeds holds what advection brought
    assert_eq!(sim.cell(4, 3).n_w, coded(1, 5, 3).n_w);
    assert_eq!(sim.cell(4, 3).n_n, coded(1, 4, 2).n_n);
}

#[test]
fn neighbouring_barriers_reflect_what_advection_left_in_them() {
    let mut sim = coded_grid(8, 7);
    sim.add_barrier(3, 3);
    sim.add_barrier(4, 3);
    sim.stream();
    // (4, 3) receives from the barrier at (3, 3) its own former west-goers,
    // and (3, 3) receives from the barrier at (4, 3) its own former east-goers
    assert_eq!(sim.cell(4, 3).n_e, coded(1, 4, 3).n_w);
    assert_eq!(sim.cell(3, 3).n_w, coded(1, 3, 3).n_e);
    assert_eq!(sim.cell(5, 3).n_e, coded(1, 5, 3).n_w);
    assert_eq!(sim.cell(2, 3).n_w, coded(1, 2, 3).n_e);
}

#[test]
fn collision_relaxes_the_interior_and_patches_the_outflow_column() {
    let mut sim = coded_grid(5, 6);
    sim.set_viscosity(1000);
    let relax = |c: Cell<i64>, v: i64| Cell {
        n_0: c.n_0 + v,
        n_e: c.n_e + v,
        n_w: c.n_w + v,
        n_n: c.n_n + v,
        n_s: c.n_s + v,
        n_ne: c.n_ne + v,
        n_se: c.n_se + v,
        n_nw: c.n_nw + v,
        n_sw: c.n_sw + v,
        rho: -c.rho,
        u_x: -c.u_x,
        u_y: -c.u_y,
    };
    sim.collide(&relax);
    for y in 0..6u64 {
        for x in 0..5u64 {
            let got = sim.cell(x, y);
            let old = coded(1, x, y);
            let interior = (1..4).contains(&x) && (1..5).contains(&y);
            if interior {
                assert!(same(&got, &relax(old, 1000)));
            } else if x == 4 && (1..4).contains(&y) {
                let left = relax(coded(1, 3, y), 1000);
                let expected = Cell { n_w: left.n_w, n_nw: left.n_nw, n_sw: left.n_sw, ..old };
                assert!(same(&got, &expected));
            } else {
                assert!(same(&got, &old));
            }
        }
    }
}

#[test]
fn curl_is_taken_from_the_four_neighbours() {
    let mut sim = coded_grid(5, 5);
    sim.update_curl(&|a: i64, b: i64, c: i64, d: i64| a - b - c + d);
    for y in 0..5u64 {
        for x in 0..5u64 {
            let interior = (1..4).contains(&x) && (1..4).contains(&y);
            let expected = if interior {
                coded(1, x + 1, y).u_y - coded(1, x - 1, y).u_y - coded(1, x, y + 1).u_x
                    + coded(1, x, y - 1).u_x
            } else {
                0
            };
            assert_eq!(sim.curl(x, y), expected);
        }
    }
    assert_eq!(sim.curl(2, 2), 1980);
}

#[test]
fn a_frame_without_steps_refreshes_edges_and_curl_only() {
    let mut sim = coded_grid(5, 5);
    sim.set_steps(0);
    sim.set_speed(3);
    sim.simulate(
        |s: i64| coded(s, 0, 0),
        |c: Cell<i64>, _v: i64| c,
        |a: i64, b: i64, c: i64, d: i64| a - b - c + d,
    );
    for y in 0..5u64 {
        for x in 0..5u64 {
            let interior = (1..4).contains(&x) && (1..4).contains(&y);
            let expected = if interior { coded(1, x, y) } else { coded(3, 0, 0) };
            assert!(same(&sim.cell(x, y), &expected));
        }
    }
    assert_eq!(sim.curl(2, 2), 1980);
    assert_eq!(sim.curl(0, 0), 0);
}

#[test]
fn a_frame_runs_the_configured_number_of_cycles() {
    let mut sim = Simulation::new(6, 6, 0i64, 3, 1i64, 0i64, zero).unwrap();
    let count = |c: Cell<i64>, v: i64| Cell { rho: c.rho + v, ..c };
    sim.simulate(zero, count, |a: i64, b: i64, c: i64, d: i64| a - b - c + d);
    assert_eq!(sim.cell(2, 2).rho, coded(0, 0, 0).rho + 3);
    assert_eq!(sim.cell(0, 2).rho, coded(0, 0, 0).rho);
    sim.set_steps(5);
    sim.set_viscosity(10);
    sim.simulate(zero, count, |a: i64, b: i64, c: i64, d: i64| a - b - c + d);
    assert_eq!(sim.cell(2, 2).rho, coded(0, 0, 0).rho + 53);
}

use ising::{reflect_index, Acceptance, Ising};
use rand::rngs::StdRng;
use rand::SeedableRng;

fn acceptance_at(temperature: f64) -> Acceptance {
    let beta = 1.0 / temperature;
    let scale = 4294967296.0f64;
    Acceptance {
        gain4: ((-4.0 * beta).exp() * scale) as u64,
        gain8: ((-8.0 * beta).exp() * scale) as u64,
    }
}

fn scanned_magnetisation(ising: &Ising, cols: i32, rows: i32) -> i32 {
    let mut sum = 0;
    for i in 0..cols {
        for j in 0..rows {
            sum += ising.spin(i, j) as i32;
        }
    }
    sum
}

fn scanned_energy(ising: &Ising, cols: i32, rows: i32) -> i32 {
    let mut sum = 0;
    for i in 0..cols {
        for j in 0..rows {
            let s = ising.spin(i, j) as i32;
            sum -= s * (ising.spin(i + 1, j) as i32 + ising.spin(i, j + 1) as i32);
        }
    }
    sum
}

#[test]
fn reflect_index_wraps_periodically() {
    assert_eq!(reflect_index(3, 5), 3);
    assert_eq!(reflect_index(0, 5), 0);
    assert_eq!(reflect_index(-1, 5), 4);
    assert_eq!(reflect_index(5, 5), 0);
    assert_eq!(reflect_index(6, 5), 1);
    assert_eq!(reflect_index(-5, 5), 0);
    assert_eq!(reflect_index(-6, 5), 4);
    assert_eq!(reflect_index(1, 1), 0);
    assert_eq!(reflect_index(-1, 1), 0);
    assert_eq!(reflect_index(2, 2), 0);
    assert_eq!(reflect_index(i32::MIN, 7), 5);
    assert_eq!(reflect_index(i32::MAX, 65535), 32767);
}

#[test]
fn initial_state_is_aligned() {
    for &(cols, rows) in &[(1u16, 1u16), (3, 3), (2, 5), (7, 4)] {
        let ising = Ising::new(Acceptance::always(), cols, rows);
        let n = cols as i32 * rows as i32;
        assert_eq!(ising.size(), n as usize);
        assert_eq!(ising.magnetisation(), n);
        assert_eq!(ising.energy(), -2 * n);
        for i in 0..cols as i32 {
            for j in 0..rows as i32 {
                assert_eq!(ising.spin(i, j), 1);
            }
        }
    }
}

#[test]
fn spin_is_periodic() {
    let mut ising = Ising::new(Acceptance::never(), 4, 3);
    ising.set_spin(1, 2, -1);
    assert_eq!(ising.spin(1, 2), -1);
    assert_eq!(ising.spin(5, 2), -1);
    assert_eq!(ising.spin(-3, 2), -1);
    assert_eq!(ising.spin(1, 5), -1);
    assert_eq!(ising.spin(1, -1), -1);
    assert_eq!(ising.spin(1, 1), 1);
    assert_eq!(ising.spin(2, 2), 1);
}

#[test]
fn set_spin_writes_the_cell_only() {
    let mut ising = Ising::new(Acceptance::never(), 3, 3);
    ising.set_spin(1, 1, -1);
    assert_eq!(ising.spin(1, 1), -1);
    assert_eq!(ising.spin(4, -2), -1);
    assert_eq!(ising.energy(), -18);
    assert_eq!(ising.magnetisation(), 9);
    ising.set_spin(-2, 4, 1);
    assert_eq!(ising.spin(1, 1), 1);
    assert_eq!(ising.size(), 9);
}

#[test]
fn put_spin_moves_aggregates() {
    let mut ising = Ising::new(Acceptance::never(), 3, 3);
    ising.put_spin(1, 1, -1);
    assert_eq!(ising.energy(), -10);
    assert_eq!(ising.magnetisation(), 7);
    ising.put_spin(1, 1, -1);
    assert_eq!(ising.energy(), -10);
    assert_eq!(ising.magnetisation(), 7);
    ising.put_spin(4, 4, 1);
    assert_eq!(ising.energy(), -18);
    assert_eq!(ising.magnetisation(), 9);
}

#[test]
fn downhill_flip_is_always_accepted() {
    let mut ising = Ising::new(Acceptance::never(), 3, 3);
    ising.put_spin(0, 0, -1);
    assert!(ising.step_with(0, 0, u32::MAX));
    assert_eq!(ising.spin(0, 0), 1);
    assert_eq!(ising.energy(), -18);
    assert_eq!(ising.magnetisation(), 9);
}

#[test]
fn zero_energy_change_is_accepted() {
    let mut ising = Ising::new(Acceptance::never(), 4, 4);
    ising.put_spin(0, 1, -1);
    ising.put_spin(1, 0, -1);
    // (0, 0) now has two neighbours up and two down.
    assert!(ising.step_with(0, 0, u32::MAX));
    assert_eq!(ising.spin(0, 0), -1);
    assert_eq!(ising.magnetisation(), 10);
}

#[test]
fn uphill_flip_follows_threshold() {
    let acceptance = Acceptance { gain4: 1000, gain8: 100 };
    let mut ising = Ising::new(acceptance, 3, 3);
    assert!(!ising.step_with(1, 1, 100));
    assert_eq!(ising.energy(), -18);
    assert!(ising.step_with(1, 1, 99));
    assert_eq!(ising.energy(), -10);
    assert_eq!(ising.magnetisation(), 7);
    // (0, 1) now sees one neighbour down: an energy change of +4.
    assert!(!ising.step_with(0, 1, 1000));
    assert!(ising.step_with(0, 1, 999));
    assert_eq!(ising.energy(), -6);
    assert_eq!(ising.magnetisation(), 5);
}

#[test]
fn accepts_decides_by_delta_and_draw() {
    let acceptance = Acceptance { gain4: 10, gain8: 5 };
    assert!(acceptance.accepts(-8, u32::MAX));
    assert!(acceptance.accepts(0, u32::MAX));
    assert!(acceptance.accepts(4, 9));
    assert!(!acceptance.accepts(4, 10));
    assert!(acceptance.accepts(8, 4));
    assert!(!acceptance.accepts(8, 5));
    assert!(Acceptance::always().accepts(8, u32::MAX));
    assert!(!Acceptance::never().accepts(4, 0));
}

#[test]
fn golden_trace_three_by_three() {
    let mut ising = Ising::new(acceptance_at(1.0), 3, 3);
    let proposals: [(u16, u16, u32); 7] = [
        (0, 0, 0),
        (1, 0, 4_000_000_000),
        (0, 0, 4_000_000_000),
        (2, 2, 50_000_000),
        (2, 2, 1_000_000),
        (2, 1, 70_000_000),
        (2, 0, 0),
    ];
    let expected: [(i32, i32); 7] = [(-10, 7), (-10, 7), (-18, 9), (-18, 9), (-10, 7), (-6, 5), (-6, 3)];
    for (k, &(col, row, draw)) in proposals.iter().enumerate() {
        ising.step_with(col, row, draw);
        assert_eq!((ising.energy(), ising.magnetisation()), expected[k]);
    }
}

#[test]
fn single_cell_lattice_trace() {
    let mut ising = Ising::new(Acceptance::always(), 1, 1);
    assert!(ising.step_with(0, 0, 0));
    assert_eq!(ising.spin(0, 0), -1);
    assert_eq!(ising.magnetisation(), -1);
    // The only cell is its own neighbour: flipping it leaves the energy.
    assert_eq!(ising.energy(), -2);
    assert!(ising.step_with(0, 0, 0));
    assert_eq!(ising.magnetisation(), 1);
    assert_eq!(ising.energy(), -2);
}

#[test]
fn thin_lattice_energy_matches_full_scan() {
    let mut rng = StdRng::seed_from_u64(5);
    let mut ising = Ising::new(acceptance_at(1.5), 1, 6);
    for _ in 0..3000 {
        ising.step(&mut rng);
        assert_eq!(ising.magnetisation(), scanned_magnetisation(&ising, 1, 6));
        assert_eq!(ising.energy(), scanned_energy(&ising, 1, 6));
    }
    let mut ising = Ising::new(Acceptance::always(), 4, 1);
    for _ in 0..500 {
        ising.step(&mut rng);
        assert_eq!(ising.energy(), scanned_energy(&ising, 4, 1));
    }
}

#[test]
fn aggregates_match_full_scan_over_long_run() {
    let mut rng = StdRng::seed_from_u64(7);
    let mut ising = Ising::new(acceptance_at(2.3), 6, 5);
    for _ in 0..5000 {
        ising.step(&mut rng);
        assert_eq!(ising.magnetisation(), scanned_magnetisation(&ising, 6, 5));
        assert_eq!(ising.energy(), scanned_energy(&ising, 6, 5));
    }
    for i in 0..6 {
        for j in 0..5 {
            let s = ising.spin(i, j);
            assert!(s == 1 || s == -1);
        }
    }
}

#[test]
fn infinite_temperature_flips_every_proposal() {
    let mut rng = StdRng::seed_from_u64(11);
    let mut ising = Ising::new(Acceptance::always(), 4, 4);
    let mut visited = [[false; 4]; 4];
    let mut abs_sum: i64 = 0;
    for _ in 0..4000 {
        let before = ising.magnetisation();
        ising.step(&mut rng);
        assert_eq!((ising.magnetisation() - before).abs(), 2);
        abs_sum += ising.magnetisation().abs() as i64;
        for i in 0..4 {
            for j in 0..4 {
                if ising.spin(i, j) == -1 {
                    visited[i as usize][j as usize] = true;
                }
            }
        }
    }
    assert!(visited.iter().flatten().all(|&v| v));
    let mean_abs = abs_sum as f64 / 4000.0 / 16.0;
    assert!(mean_abs < 0.5);
}

#[test]
fn zero_temperature_keeps_alignment() {
    let mut rng = StdRng::seed_from_u64(3);
    let mut ising = Ising::new(acceptance_at(0.0), 5, 5);
    for _ in 0..2000 {
        ising.step(&mut rng);
        assert_eq!(ising.magnetisation(), 25);
        assert_eq!(ising.energy(), -50);
    }
}

#[test]
fn squared_deviation_total_of_states() {
    let mut ising = Ising::new(Acceptance::never(), 3, 3);
    assert_eq!(ising.squared_deviation_total(), 0);
    ising.put_spin(1, 1, -1);
    assert_eq!(ising.squared_deviation_total(), 288);
    ising.put_spin(0, 1, -1);
    // M = 5: 7 cells of (9 - 5)^2 and 2 of (-9 - 5)^2.
    assert_eq!(ising.squared_deviation_total(), 7 * 16 + 2 * 196);
}

#[test]
fn absolute_spin_total_is_cell_count() {
    let mut ising = Ising::new(Acceptance::never(), 4, 2);
    assert_eq!(ising.absolute_spin_total(), 8);
    ising.set_spin(3, 1, -1);
    assert_eq!(ising.absolute_spin_total(), 8);
}

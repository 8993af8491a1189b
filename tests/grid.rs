use collision_mc::grid::{
    get_coll_times, plan_cells, validate_grid, Cell, CollisionTimes, GridError,
};
use collision_mc::key::Key;

fn keys(values: &[f64]) -> Vec<Key> {
    values.iter().map(|v| Key::from_bits(v.to_bits())).collect()
}

fn small_grid() -> (Vec<Key>, Vec<Key>, Vec<Key>) {
    (keys(&[0.01, 0.05]), keys(&[1000.0]), keys(&[1.989e30, 3.978e29]))
}

fn assembled(times: &[f64]) -> CollisionTimes {
    let (n, v, m) = small_grid();
    let bits: Vec<u64> = times.iter().map(|t| t.to_bits()).collect();
    get_coll_times(n, v, m, bits).unwrap()
}

#[test]
fn zero_velocity_is_refused() {
    let n = keys(&[0.01, 0.05, 0.1, 0.5, 1.0]);
    let v = keys(&[1000.0, 5000.0, 0.0, 20000.0]);
    assert_eq!(validate_grid(&n, &v), Err(GridError::ZeroVelocity { index: 2 }));
    let m = keys(&[1.989e30]);
    assert_eq!(plan_cells(&n, &v, &m).unwrap_err(), GridError::ZeroVelocity { index: 2 });
}

#[test]
fn negative_zero_velocity_is_refused() {
    let n = keys(&[0.01]);
    let v = keys(&[-0.0]);
    assert_eq!(validate_grid(&n, &v), Err(GridError::ZeroVelocity { index: 0 }));
}

#[test]
fn zero_velocity_refused_with_times_supplied() {
    let n = keys(&[0.01]);
    let v = keys(&[0.0]);
    let m = keys(&[1.989e30]);
    let times = vec![1.0f64.to_bits(); 3];
    assert_eq!(get_coll_times(n, v, m, times).unwrap_err(), GridError::ZeroVelocity { index: 0 });
}

#[test]
fn bad_velocities_are_refused() {
    let n = keys(&[0.01]);
    assert_eq!(validate_grid(&n, &keys(&[5.0, -1.0])), Err(GridError::InvalidVelocity { index: 1 }));
    assert_eq!(validate_grid(&n, &keys(&[f64::NAN])), Err(GridError::InvalidVelocity { index: 0 }));
    assert_eq!(
        validate_grid(&n, &keys(&[f64::INFINITY])),
        Err(GridError::InvalidVelocity { index: 0 })
    );
}

#[test]
fn densities_are_checked_before_velocities() {
    let n = keys(&[0.01, 0.0]);
    let v = keys(&[0.0]);
    assert_eq!(validate_grid(&n, &v), Err(GridError::InvalidDensity { index: 1 }));
    assert_eq!(validate_grid(&keys(&[-0.5]), &keys(&[1.0])), Err(GridError::InvalidDensity { index: 0 }));
}

#[test]
fn valid_grid_passes() {
    let (n, v, _) = small_grid();
    assert_eq!(validate_grid(&n, &v), Ok(()));
    assert_eq!(validate_grid(&Vec::new(), &Vec::new()), Ok(()));
}

#[test]
fn cells_are_planned_in_order() {
    let (n, v, m) = small_grid();
    let cells = plan_cells(&n, &v, &m).unwrap();
    assert_eq!(cells.len(), 10);
    assert_eq!(cells[0], Cell::Earth { density: n[0], velocity: v[0] });
    assert_eq!(cells[1], Cell::Earth { density: n[1], velocity: v[0] });
    assert_eq!(cells[2], Cell::DiskSide { mass: m[0], density: n[0], velocity: v[0] });
    assert_eq!(cells[3], Cell::DiskSide { mass: m[0], density: n[1], velocity: v[0] });
    assert_eq!(cells[4], Cell::DiskSide { mass: m[1], density: n[0], velocity: v[0] });
    assert_eq!(cells[5], Cell::DiskSide { mass: m[1], density: n[1], velocity: v[0] });
    assert_eq!(cells[6], Cell::DiskTop { mass: m[0], density: n[0], velocity: v[0] });
    assert_eq!(cells[9], Cell::DiskTop { mass: m[1], density: n[1], velocity: v[0] });
}

#[test]
fn full_literal_grid_plans_every_cell() {
    let n = keys(&[0.01, 0.05, 0.1, 0.5, 1.0]);
    let v = keys(&[1000.0, 5000.0, 10000.0, 20000.0, 30000.0]);
    let m = keys(&[1.989e30, 2.0e30, 3.0e29]);
    let cells = plan_cells(&n, &v, &m).unwrap();
    assert_eq!(cells.len(), 25 + 2 * 75);
    assert_eq!(cells[7], Cell::Earth { density: n[1], velocity: v[2] });
    // mass 2, density 3, velocity 4 in the top-view block
    assert_eq!(cells[25 + 75 + 2 * 25 + 3 * 5 + 4], Cell::DiskTop { mass: m[2], density: n[3], velocity: v[4] });
}

#[test]
fn no_masses_plans_only_planet_cells() {
    let (n, v, _) = small_grid();
    let cells = plan_cells(&n, &v, &Vec::new()).unwrap();
    assert_eq!(cells.len(), 2);
}

#[test]
fn times_are_laid_out_in_three_tables() {
    let t = assembled(&[1.0, 2.0, 3.0, 4.0, 5.0, 6.0, 7.0, 8.0, 9.0, 10.0]);
    assert_eq!(t.earth.len(), 2);
    assert_eq!(t.disk_side.len(), 4);
    assert_eq!(t.disk_top.len(), 4);
    assert_eq!(t.earth_time(Key::from_bits(0.05f64.to_bits()), Key::from_bits(1000.0f64.to_bits())), Some(2.0f64.to_bits()));
    assert_eq!(
        t.disk_side_time(
            Key::from_bits(3.978e29f64.to_bits()),
            Key::from_bits(0.01f64.to_bits()),
            Key::from_bits(1000.0f64.to_bits())
        ),
        Some(5.0f64.to_bits())
    );
    assert_eq!(
        t.disk_top_time(
            Key::from_bits(3.978e29f64.to_bits()),
            Key::from_bits(0.05f64.to_bits()),
            Key::from_bits(1000.0f64.to_bits())
        ),
        Some(10.0f64.to_bits())
    );
}

#[test]
fn lookup_by_rebuilt_literal_resolves() {
    let t = assembled(&[1.0, 2.0, 3.0, 4.0, 5.0, 6.0, 7.0, 8.0, 9.0, 10.0]);
    for _ in 0..3 {
        let n = Key::from_bits(0.01f64.to_bits());
        let v = Key::from_bits(1000.0f64.to_bits());
        assert_eq!(t.earth_time(n, v), Some(1.0f64.to_bits()));
    }
}

#[test]
fn lookup_of_unknown_value_misses() {
    let t = assembled(&[1.0, 2.0, 3.0, 4.0, 5.0, 6.0, 7.0, 8.0, 9.0, 10.0]);
    let v = Key::from_bits(1000.0f64.to_bits());
    assert_eq!(t.earth_time(Key::from_bits(0.02f64.to_bits()), v), None);
    // numerically close but computed differently: 0.1 * 0.5 is not the literal 0.05
    let computed = 0.1f64 * 0.5f64;
    if computed.to_bits() != 0.05f64.to_bits() {
        assert_eq!(t.earth_time(Key::from_bits(computed.to_bits()), v), None);
    }
    assert_eq!(
        t.disk_side_time(Key::from_bits(1.0f64.to_bits()), Key::from_bits(0.01f64.to_bits()), v),
        None
    );
}

#[test]
fn wrong_number_of_times_is_refused() {
    let (n, v, m) = small_grid();
    let times = vec![1.0f64.to_bits(); 9];
    assert_eq!(get_coll_times(n, v, m, times).unwrap_err(), GridError::CellCount { expected: 10, found: 9 });
}

#[test]
fn infinite_time_is_refused() {
    let (n, v, m) = small_grid();
    let mut times = vec![1.0f64.to_bits(); 10];
    times[6] = f64::INFINITY.to_bits();
    times[8] = f64::NAN.to_bits();
    assert_eq!(get_coll_times(n, v, m, times).unwrap_err(), GridError::InvalidTime { cell: 6 });
}

#[test]
fn zero_or_negative_time_is_refused() {
    let (n, v, m) = small_grid();
    let mut times = vec![1.0f64.to_bits(); 10];
    times[0] = 0.0f64.to_bits();
    assert_eq!(get_coll_times(n.clone(), v.clone(), m.clone(), times).unwrap_err(), GridError::InvalidTime { cell: 0 });
    let mut times = vec![1.0f64.to_bits(); 10];
    times[9] = (-3.0f64).to_bits();
    assert_eq!(get_coll_times(n, v, m, times).unwrap_err(), GridError::InvalidTime { cell: 9 });
}

#[test]
fn lookup_returns_time_of_planned_cell() {
    let n = keys(&[0.01, 0.05, 0.1]);
    let v = keys(&[1000.0, 5000.0]);
    let m = keys(&[1.989e30, 2.5e30]);
    let cells = plan_cells(&n, &v, &m).unwrap();
    let times: Vec<u64> = (0..cells.len()).map(|c| (c as f64 + 1.0).to_bits()).collect();
    let t = get_coll_times(n, v, m, times.clone()).unwrap();
    for (c, cell) in cells.iter().enumerate() {
        let found = match *cell {
            Cell::Earth { density, velocity } => t.earth_time(density, velocity),
            Cell::DiskSide { mass, density, velocity } => t.disk_side_time(mass, density, velocity),
            Cell::DiskTop { mass, density, velocity } => t.disk_top_time(mass, density, velocity),
        };
        assert_eq!(found, Some(times[c]));
    }
}

//! The collision-time grid: which cells are evaluated, in which order, and how
//! the evaluated times are checked and laid out for lookup.
//!
//! For every stellar mass `m`, density `n` and velocity `v` three times are
//! tabulated: impact on an Earth-like planet (independent of `m`, so evaluated
//! once per `(n, v)`), and the side-view and top-view cross-sections of a
//! circumstellar disk. The formulas themselves are evaluated outside the library;
//! the library fixes the cells, validates the inputs before any evaluation, and
//! refuses a batch in which any evaluated time is not a finite positive number.
use crate::ieee::{bits_are_positive, bits_are_zero, is_positive, is_zero};
use crate::key::{find_key, first_position, lemma_first_position, lemma_rebuilt_key_resolves, Key};
use vstd::arithmetic::div_mod::{
    lemma_div_multiples_vanish_fancy, lemma_mod_multiples_vanish, lemma_small_mod,
};
use vstd::prelude::*;

verus! {

/// Why a grid was refused.
#[derive(Clone, Copy, Debug, PartialEq, Eq, Structural)]
pub enum GridError {
    /// The density at `index` is zero, negative, infinite or NaN.
    InvalidDensity { index: usize },
    /// The velocity at `index` is zero: every formula would divide by it.
    ZeroVelocity { index: usize },
    /// The velocity at `index` is negative, infinite or NaN.
    InvalidVelocity { index: usize },
    /// The number of evaluated times is not the number of cells of the grid.
    CellCount { expected: usize, found: usize },
    /// The time evaluated for cell `cell` is not a finite positive number.
    InvalidTime { cell: usize },
}

/// First position of `s` whose double is not finite and strictly positive.
pub open spec fn first_not_positive(s: Seq<Key>) -> Option<int>
    decreases s.len(),
{
    if s.len() == 0 {
        None
    } else if !is_positive(s[0].bits) {
        Some(0)
    } else {
        match first_not_positive(s.drop_first()) {
            Some(i) => Some(i + 1),
            None => None,
        }
    }
}

proof fn lemma_first_not_positive(s: Seq<Key>)
    ensures
        match first_not_positive(s) {
            Some(i) => 0 <= i < s.len() && !is_positive(s[i].bits) && forall|j: int|
                0 <= j < i ==> is_positive(#[trigger] s[j].bits),
            None => forall|j: int| 0 <= j < s.len() ==> is_positive(#[trigger] s[j].bits),
        },
    decreases s.len(),
{
    if s.len() > 0 && is_positive(s[0].bits) {
        let rest = s.drop_first();
        lemma_first_not_positive(rest);
        assert forall|j: int| 1 <= j < s.len() implies s[j] == rest[j - 1] by {}
    }
}

/// The verdict on a density grid and a velocity grid: every density is checked
/// before any velocity, each grid from its first entry on.
pub open spec fn grid_verdict(densities: Seq<Key>, velocities: Seq<Key>) -> Result<(), GridError> {
    match first_not_positive(densities) {
        Some(i) => Err(GridError::InvalidDensity { index: i as usize }),
        None => match first_not_positive(velocities) {
            Some(j) => if is_zero(velocities[j].bits) {
                Err(GridError::ZeroVelocity { index: j as usize })
            } else {
                Err(GridError::InvalidVelocity { index: j as usize })
            },
            None => Ok(()),
        },
    }
}

fn find_not_positive(keys: &Vec<Key>) -> (r: Option<usize>)
    ensures
        r matches Some(i) ==> i < keys.len() && first_not_positive(keys@) == Some(i as int),
        r is None ==> first_not_positive(keys@) is None,
{
    proof {
        lemma_first_not_positive(keys@);
    }
    let mut i: usize = 0;
    while i < keys.len()
        invariant
            i <= keys.len(),
            forall|j: int| 0 <= j < i ==> is_positive(#[trigger] keys@[j].bits),
            match first_not_positive(keys@) {
                Some(f) => 0 <= f < keys@.len() && !is_positive(keys@[f].bits) && forall|j: int|
                    0 <= j < f ==> is_positive(#[trigger] keys@[j].bits),
                None => forall|j: int| 0 <= j < keys@.len() ==> is_positive(#[trigger] keys@[j].bits),
            },
        decreases keys.len() - i,
    {
        if !bits_are_positive(keys[i].bits) {
            proof {
                if let Some(f) = first_not_positive(keys@) {
                    assert(f >= i);
                    assert(!(f > i) || is_positive(keys@[i as int].bits));
                }
            }
            return Some(i);
        }
        i = i + 1;
    }
    None
}

/// Checks the density and velocity grids before anything is evaluated on them:
/// every value must be finite and strictly positive, and a zero velocity is named
/// as such.
pub fn validate_grid(densities: &Vec<Key>, velocities: &Vec<Key>) -> (r: Result<(), GridError>)
    ensures
        r == grid_verdict(densities@, velocities@),
{
    match find_not_positive(densities) {
        Some(i) => Err(GridError::InvalidDensity { index: i }),
        None => match find_not_positive(velocities) {
            Some(j) => if bits_are_zero(velocities[j].bits) {
                Err(GridError::ZeroVelocity { index: j })
            } else {
                Err(GridError::InvalidVelocity { index: j })
            },
            None => Ok(()),
        },
    }
}

/// One evaluation that a grid asks for: a formula and the exact inputs it takes.
#[derive(Clone, Copy, Debug, PartialEq, Eq, Structural)]
pub enum Cell {
    /// Impact on an Earth-like planet, at a density and a velocity.
    Earth { density: Key, velocity: Key },
    /// Side view of the disk around a star of mass `mass`.
    DiskSide { mass: Key, density: Key, velocity: Key },
    /// Top view of the disk around a star of mass `mass`.
    DiskTop { mass: Key, density: Key, velocity: Key },
}

/// Number of planet-impact cells: one per density and velocity.
pub open spec fn earth_cells(nd: int, nv: int) -> int {
    nd * nv
}

/// Number of cells of one disk view: one per mass, density and velocity.
pub open spec fn disk_cells(nm: int, nd: int, nv: int) -> int {
    nm * nd * nv
}

/// Number of cells of a whole grid: the planet cells, then the side-view block,
/// then the top-view block.
pub open spec fn cell_total(nm: int, nd: int, nv: int) -> int {
    earth_cells(nd, nv) + 2 * disk_cells(nm, nd, nv)
}

/// Position, inside its block, of the disk cell of mass `k`, density `i` and
/// velocity `j`.
pub open spec fn disk_offset(nd: int, nv: int, k: int, i: int, j: int) -> int {
    (k * nd + i) * nv + j
}

/// The cell at position `c` of the grid over these densities, velocities and masses.
pub open spec fn planned_cell(densities: Seq<Key>, velocities: Seq<Key>, masses: Seq<Key>, c: int) -> Cell {
    let nd = densities.len() as int;
    let nv = velocities.len() as int;
    let nm = masses.len() as int;
    let e = earth_cells(nd, nv);
    let s = disk_cells(nm, nd, nv);
    if c < e {
        Cell::Earth { density: densities[c / nv], velocity: velocities[c % nv] }
    } else if c < e + s {
        let d = c - e;
        Cell::DiskSide {
            mass: masses[(d / nv) / nd],
            density: densities[(d / nv) % nd],
            velocity: velocities[d % nv],
        }
    } else {
        let d = c - e - s;
        Cell::DiskTop {
            mass: masses[(d / nv) / nd],
            density: densities[(d / nv) % nd],
            velocity: velocities[d % nv],
        }
    }
}

proof fn lemma_unflatten(q: int, r: int, d: int)
    requires
        q >= 0,
        0 <= r < d,
    ensures
        (q * d + r) / d == q,
        (q * d + r) % d == r,
{
    assert(q * d + r == d * q + r) by (nonlinear_arith);
    lemma_div_multiples_vanish_fancy(q, r, d);
    lemma_mod_multiples_vanish(q, r, d);
    lemma_small_mod(r as nat, d as nat);
}

proof fn lemma_disk_offset(nm: int, nd: int, nv: int, k: int, i: int, j: int)
    requires
        0 <= k < nm,
        0 <= i < nd,
        0 <= j < nv,
    ensures
        0 <= disk_offset(nd, nv, k, i, j) < disk_cells(nm, nd, nv),
        disk_offset(nd, nv, k, i, j) / nv == k * nd + i,
        disk_offset(nd, nv, k, i, j) % nv == j,
        (disk_offset(nd, nv, k, i, j) / nv) / nd == k,
        (disk_offset(nd, nv, k, i, j) / nv) % nd == i,
{
    assert(0 <= k * nd + i < nm * nd) by (nonlinear_arith)
        requires 0 <= k < nm, 0 <= i < nd;
    assert(0 <= (k * nd + i) * nv + j < nm * nd * nv) by (nonlinear_arith)
        requires 0 <= k * nd + i < nm * nd, 0 <= j < nv;
    lemma_unflatten(k * nd + i, j, nv);
    lemma_unflatten(k, i, nd);
}

fn plan_disk_block(
    cells: &mut Vec<Cell>,
    top: bool,
    densities: &Vec<Key>,
    velocities: &Vec<Key>,
    masses: &Vec<Key>,
)
    requires
        old(cells)@.len() == earth_cells(densities@.len() as int, velocities@.len() as int) + (if top {
            disk_cells(masses@.len() as int, densities@.len() as int, velocities@.len() as int)
        } else {
            0
        }),
        old(cells)@.len() + disk_cells(masses@.len() as int, densities@.len() as int, velocities@.len() as int)
            <= usize::MAX,
        forall|c: int|
            0 <= c < old(cells)@.len() ==> #[trigger] old(cells)@[c] == planned_cell(
                densities@,
                velocities@,
                masses@,
                c,
            ),
    ensures
        final(cells)@.len() == old(cells)@.len() + disk_cells(
            masses@.len() as int,
            densities@.len() as int,
            velocities@.len() as int,
        ),
        forall|c: int|
            0 <= c < final(cells)@.len() ==> #[trigger] final(cells)@[c] == planned_cell(
                densities@,
                velocities@,
                masses@,
                c,
            ),
{
    let ghost nd = densities@.len() as int;
    let ghost nv = velocities@.len() as int;
    let ghost nm = masses@.len() as int;
    let ghost base = old(cells)@.len() as int;
    assert(0 * nd * nv == 0) by (nonlinear_arith);
    let mut k: usize = 0;
    while k < masses.len()
        invariant
            k <= nm,
            nm == masses@.len(),
            nd == densities@.len(),
            nv == velocities@.len(),
            base + disk_cells(nm, nd, nv) <= usize::MAX,
            cells@.len() == base + k * nd * nv,
            base == earth_cells(nd, nv) + (if top { disk_cells(nm, nd, nv) } else { 0 }),
            forall|c: int|
                0 <= c < cells@.len() ==> #[trigger] cells@[c] == planned_cell(
                    densities@,
                    velocities@,
                    masses@,
                    c,
                ),
        decreases masses.len() - k,
    {
        proof {
            assert(k * nd * nv == (k * nd + 0) * nv) by (nonlinear_arith);
        }
        let mut i: usize = 0;
        while i < densities.len()
            invariant
                k < nm,
                i <= nd,
                nd == densities@.len(),
                nv == velocities@.len(),
                nm == masses@.len(),
                base + disk_cells(nm, nd, nv) <= usize::MAX,
                cells@.len() == base + (k * nd + i) * nv,
                base == earth_cells(nd, nv) + (if top { disk_cells(nm, nd, nv) } else { 0 }),
                forall|c: int|
                    0 <= c < cells@.len() ==> #[trigger] cells@[c] == planned_cell(
                        densities@,
                        velocities@,
                        masses@,
                        c,
                    ),
            decreases densities.len() - i,
        {
            let mut j: usize = 0;
            while j < velocities.len()
                invariant
                    k < nm,
                    i < nd,
                    j <= nv,
                    nv == velocities@.len(),
                    nd == densities@.len(),
                    nm == masses@.len(),
                    base + disk_cells(nm, nd, nv) <= usize::MAX,
                    cells@.len() == base + disk_offset(nd, nv, k as int, i as int, j as int),
                    base == earth_cells(nd, nv) + (if top { disk_cells(nm, nd, nv) } else { 0 }),
                    forall|c: int|
                        0 <= c < cells@.len() ==> #[trigger] cells@[c] == planned_cell(
                            densities@,
                            velocities@,
                            masses@,
                            c,
                        ),
                decreases velocities.len() - j,
            {
                let cell = if top {
                    Cell::DiskTop { mass: masses[k], density: densities[i], velocity: velocities[j] }
                } else {
                    Cell::DiskSide { mass: masses[k], density: densities[i], velocity: velocities[j] }
                };
                proof {
                    lemma_disk_offset(nm, nd, nv, k as int, i as int, j as int);
                    assert(cell == planned_cell(densities@, velocities@, masses@, cells@.len() as int));
                }
                cells.push(cell);
                j = j + 1;
            }
            proof {
                assert((k * nd + i) * nv + nv == (k * nd + (i + 1)) * nv) by (nonlinear_arith);
            }
            i = i + 1;
        }
        proof {
            assert((k * nd + nd) * nv == (k + 1) * nd * nv) by (nonlinear_arith);
        }
        k = k + 1;
    }
}

/// The cells of the grid over these densities, velocities and masses, in the order
/// of `planned_cell`: every planet cell (density-major), then every side-view cell,
/// then every top-view cell (mass-major, then density, then velocity). The grids are
/// validated first, so nothing is planned on a refused grid.
pub fn plan_cells(densities: &Vec<Key>, velocities: &Vec<Key>, masses: &Vec<Key>) -> (r: Result<
    Vec<Cell>,
    GridError,
>)
    requires
        cell_total(masses@.len() as int, densities@.len() as int, velocities@.len() as int)
            <= usize::MAX,
    ensures
        match grid_verdict(densities@, velocities@) {
            Err(e) => r == Err::<Vec<Cell>, GridError>(e),
            Ok(_) => r matches Ok(cells) && cells@.len() == cell_total(
                masses@.len() as int,
                densities@.len() as int,
                velocities@.len() as int,
            ) && forall|c: int|
                0 <= c < cells@.len() ==> #[trigger] cells@[c] == planned_cell(
                    densities@,
                    velocities@,
                    masses@,
                    c,
                ),
        },
{
    if let Err(e) = validate_grid(densities, velocities) {
        return Err(e);
    }
    let ghost nd = densities@.len() as int;
    let ghost nv = velocities@.len() as int;
    let ghost nm = masses@.len() as int;
    let mut cells: Vec<Cell> = Vec::new();
    assert(0 * nv == 0) by (nonlinear_arith);
    let mut i: usize = 0;
    while i < densities.len()
        invariant
            i <= nd,
            nd == densities@.len(),
            nv == velocities@.len(),
            nm == masses@.len(),
            cell_total(nm, nd, nv) <= usize::MAX,
            cells@.len() == i * nv,
            forall|c: int|
                0 <= c < cells@.len() ==> #[trigger] cells@[c] == planned_cell(
                    densities@,
                    velocities@,
                    masses@,
                    c,
                ),
        decreases densities.len() - i,
    {
        let mut j: usize = 0;
        while j < velocities.len()
            invariant
                i < nd,
                j <= nv,
                nd == densities@.len(),
                nv == velocities@.len(),
                nm == masses@.len(),
                cell_total(nm, nd, nv) <= usize::MAX,
                cells@.len() == i * nv + j,
                forall|c: int|
                    0 <= c < cells@.len() ==> #[trigger] cells@[c] == planned_cell(
                        densities@,
                        velocities@,
                        masses@,
                        c,
                    ),
            decreases velocities.len() - j,
        {
            let cell = Cell::Earth { density: densities[i], velocity: velocities[j] };
            proof {
                assert(0 <= i * nv + j < nd * nv) by (nonlinear_arith)
                    requires 0 <= i < nd, 0 <= j < nv;
                lemma_unflatten(i as int, j as int, nv);
                assert(cell == planned_cell(densities@, velocities@, masses@, cells@.len() as int));
            }
            cells.push(cell);
            j = j + 1;
        }
        proof {
            assert(i * nv + nv == (i + 1) * nv) by (nonlinear_arith);
        }
        i = i + 1;
    }
    assert(disk_cells(nm, nd, nv) >= 0) by (nonlinear_arith)
        requires nm >= 0, nd >= 0, nv >= 0;
    plan_disk_block(&mut cells, false, densities, velocities, masses);
    plan_disk_block(&mut cells, true, densities, velocities, masses);
    Ok(cells)
}

/// First position of `s` that is not the bits of a finite, strictly positive double.
pub open spec fn first_invalid_time(s: Seq<u64>) -> Option<int>
    decreases s.len(),
{
    if s.len() == 0 {
        None
    } else if !is_positive(s[0]) {
        Some(0)
    } else {
        match first_invalid_time(s.drop_first()) {
            Some(i) => Some(i + 1),
            None => None,
        }
    }
}

proof fn lemma_first_invalid_time(s: Seq<u64>)
    ensures
        match first_invalid_time(s) {
            Some(i) => 0 <= i < s.len() && !is_positive(s[i]) && forall|j: int|
                0 <= j < i ==> is_positive(#[trigger] s[j]),
            None => forall|j: int| 0 <= j < s.len() ==> is_positive(#[trigger] s[j]),
        },
    decreases s.len(),
{
    if s.len() > 0 && is_positive(s[0]) {
        let rest = s.drop_first();
        lemma_first_invalid_time(rest);
        assert forall|j: int| 1 <= j < s.len() implies s[j] == rest[j - 1] by {}
    }
}

fn find_invalid_time(times: &Vec<u64>) -> (r: Option<usize>)
    ensures
        r matches Some(i) ==> i < times.len() && first_invalid_time(times@) == Some(i as int),
        r is None ==> first_invalid_time(times@) is None,
{
    proof {
        lemma_first_invalid_time(times@);
    }
    let mut i: usize = 0;
    while i < times.len()
        invariant
            i <= times.len(),
            forall|j: int| 0 <= j < i ==> is_positive(#[trigger] times@[j]),
            match first_invalid_time(times@) {
                Some(f) => 0 <= f < times@.len() && !is_positive(times@[f]) && forall|j: int|
                    0 <= j < f ==> is_positive(#[trigger] times@[j]),
                None => forall|j: int| 0 <= j < times@.len() ==> is_positive(#[trigger] times@[j]),
            },
        decreases times.len() - i,
    {
        if !bits_are_positive(times[i]) {
            proof {
                if let Some(f) = first_invalid_time(times@) {
                    assert(!(f > i) || is_positive(times@[i as int]));
                }
            }
            return Some(i);
        }
        i = i + 1;
    }
    None
}

/// The verdict on a grid and the times evaluated for its cells (in the order of
/// `plan_cells`): the grid is checked first, then the number of times, then each
/// time from the first cell on. A single bad value refuses the whole batch.
pub open spec fn times_verdict(
    densities: Seq<Key>,
    velocities: Seq<Key>,
    masses: Seq<Key>,
    times: Seq<u64>,
) -> Result<(), GridError> {
    let total = cell_total(masses.len() as int, densities.len() as int, velocities.len() as int);
    match grid_verdict(densities, velocities) {
        Err(e) => Err(e),
        Ok(_) => if times.len() != total {
            Err(GridError::CellCount { expected: total as usize, found: times.len() as usize })
        } else {
            match first_invalid_time(times) {
                Some(c) => Err(GridError::InvalidTime { cell: c as usize }),
                None => Ok(()),
            }
        },
    }
}

/// Collision times in seconds, each held as the bits of a double, over the grid
/// they were evaluated on. `earth` is indexed by `i * nv + j` (density `i`,
/// velocity `j`); `disk_side` and `disk_top` by `disk_offset` (mass `k`, density
/// `i`, velocity `j`).
#[derive(Debug)]
pub struct CollisionTimes {
    pub densities: Vec<Key>,
    pub velocities: Vec<Key>,
    pub masses: Vec<Key>,
    pub earth: Vec<u64>,
    pub disk_side: Vec<u64>,
    pub disk_top: Vec<u64>,
}

impl CollisionTimes {
    /// Each table has one entry per cell, and every entry is a finite positive time.
    pub open spec fn wf(&self) -> bool {
        let nd = self.densities@.len() as int;
        let nv = self.velocities@.len() as int;
        let nm = self.masses@.len() as int;
        &&& self.earth@.len() == earth_cells(nd, nv)
        &&& self.disk_side@.len() == disk_cells(nm, nd, nv)
        &&& self.disk_top@.len() == disk_cells(nm, nd, nv)
        &&& forall|c: int| 0 <= c < self.earth@.len() ==> is_positive(#[trigger] self.earth@[c])
        &&& forall|c: int|
            0 <= c < self.disk_side@.len() ==> is_positive(#[trigger] self.disk_side@[c])
        &&& forall|c: int| 0 <= c < self.disk_top@.len() ==> is_positive(#[trigger] self.disk_top@[c])
    }

    /// The planet-impact time stored under this density and velocity.
    pub open spec fn earth_lookup(&self, density: Key, velocity: Key) -> Option<u64> {
        match (first_position(self.densities@, density), first_position(self.velocities@, velocity)) {
            (Some(i), Some(j)) => Some(self.earth@[i * self.velocities@.len() + j]),
            _ => None,
        }
    }

    /// The disk time stored under this mass, density and velocity in `table`.
    pub open spec fn disk_lookup(&self, table: Seq<u64>, mass: Key, density: Key, velocity: Key) -> Option<u64> {
        match (
            first_position(self.masses@, mass),
            first_position(self.densities@, density),
            first_position(self.velocities@, velocity),
        ) {
            (Some(k), Some(i), Some(j)) => Some(
                table[disk_offset(
                    self.densities@.len() as int,
                    self.velocities@.len() as int,
                    k,
                    i,
                    j,
                )],
            ),
            _ => None,
        }
    }

    /// Looks up the planet-impact time of a density and a velocity, bit-exactly.
    pub fn earth_time(&self, density: Key, velocity: Key) -> (r: Option<u64>)
        requires
            self.wf(),
        ensures
            r == self.earth_lookup(density, velocity),
    {
        let fi = find_key(&self.densities, density);
        let fj = find_key(&self.velocities, velocity);
        proof {
            lemma_first_position(self.densities@, density);
            lemma_first_position(self.velocities@, velocity);
        }
        match (fi, fj) {
            (Some(i), Some(j)) => {
                let ghost nd = self.densities@.len() as int;
                let nv = self.velocities.len();
                let n_cells = self.earth.len();
                proof {
                    let gi = i as int;
                    let gj = j as int;
                    let gv = nv as int;
                    assert(0 <= gi * gv <= gi * gv + gj < nd * gv) by (nonlinear_arith)
                        requires 0 <= gi < nd, 0 <= gj < gv;
                    assert(nd * gv == n_cells);
                }
                Some(self.earth[i * nv + j])
            },
            _ => None,
        }
    }

    fn disk_time(&self, top: bool, mass: Key, density: Key, velocity: Key) -> (r: Option<u64>)
        requires
            self.wf(),
        ensures
            r == self.disk_lookup(if top { self.disk_top@ } else { self.disk_side@ }, mass, density, velocity),
    {
        let fk = find_key(&self.masses, mass);
        let fi = find_key(&self.densities, density);
        let fj = find_key(&self.velocities, velocity);
        proof {
            lemma_first_position(self.masses@, mass);
            lemma_first_position(self.densities@, density);
            lemma_first_position(self.velocities@, velocity);
        }
        match (fk, fi, fj) {
            (Some(k), Some(i), Some(j)) => {
                let nd = self.densities.len();
                let nv = self.velocities.len();
                let n_cells = if top { self.disk_top.len() } else { self.disk_side.len() };
                proof {
                    let (gk, gi, gj, gd, gv) = (k as int, i as int, j as int, nd as int, nv as int);
                    lemma_disk_offset(self.masses@.len() as int, gd, gv, gk, gi, gj);
                    assert(0 <= gk * gd <= gk * gd + gi <= (gk * gd + gi) * gv <= (gk * gd + gi) * gv + gj)
                        by (nonlinear_arith)
                        requires 0 <= gk, 0 <= gd, 0 <= gi, gv >= 1, gj >= 0;
                    assert(disk_offset(gd, gv, gk, gi, gj) < n_cells);
                }
                let c = (k * nd + i) * nv + j;
                if top {
                    Some(self.disk_top[c])
                } else {
                    Some(self.disk_side[c])
                }
            },
            _ => None,
        }
    }

    /// Looks up the side-view disk time of a mass, a density and a velocity, bit-exactly.
    pub fn disk_side_time(&self, mass: Key, density: Key, velocity: Key) -> (r: Option<u64>)
        requires
            self.wf(),
        ensures
            r == self.disk_lookup(self.disk_side@, mass, density, velocity),
    {
        self.disk_time(false, mass, density, velocity)
    }

    /// Looks up the top-view disk time of a mass, a density and a velocity, bit-exactly.
    pub fn disk_top_time(&self, mass: Key, density: Key, velocity: Key) -> (r: Option<u64>)
        requires
            self.wf(),
        ensures
            r == self.disk_lookup(self.disk_top@, mass, density, velocity),
    {
        self.disk_time(true, mass, density, velocity)
    }
}

fn copy_range(v: &Vec<u64>, lo: usize, hi: usize) -> (r: Vec<u64>)
    requires
        lo <= hi <= v@.len(),
    ensures
        r@ == v@.subrange(lo as int, hi as int),
{
    let mut r: Vec<u64> = Vec::new();
    let mut c: usize = lo;
    while c < hi
        invariant
            lo <= c <= hi <= v@.len(),
            r@ == v@.subrange(lo as int, c as int),
        decreases hi - c,
    {
        r.push(v[c]);
        c = c + 1;
    }
    r
}

/// Assembles the collision times of a grid from the times evaluated for its cells,
/// given in the order of `plan_cells`. The grid and every time are checked first
/// (`times_verdict`); on success the planet, side-view and top-view blocks become
/// the three tables, keyed by the very densities, velocities and masses given.
pub fn get_coll_times(n_o: Vec<Key>, v_o: Vec<Key>, stellar_masses: Vec<Key>, times: Vec<u64>) -> (r:
    Result<CollisionTimes, GridError>)
    requires
        cell_total(stellar_masses@.len() as int, n_o@.len() as int, v_o@.len() as int)
            <= usize::MAX,
    ensures
        match times_verdict(n_o@, v_o@, stellar_masses@, times@) {
            Err(e) => r == Err::<CollisionTimes, GridError>(e),
            Ok(_) => r matches Ok(t) && t.wf() && t.densities@ == n_o@ && t.velocities@ == v_o@
                && t.masses@ == stellar_masses@ && t.earth@ == times@.subrange(
                0,
                earth_cells(n_o@.len() as int, v_o@.len() as int),
            ) && t.disk_side@ == times@.subrange(
                earth_cells(n_o@.len() as int, v_o@.len() as int),
                earth_cells(n_o@.len() as int, v_o@.len() as int) + disk_cells(
                    stellar_masses@.len() as int,
                    n_o@.len() as int,
                    v_o@.len() as int,
                ),
            ) && t.disk_top@ == times@.subrange(
                earth_cells(n_o@.len() as int, v_o@.len() as int) + disk_cells(
                    stellar_masses@.len() as int,
                    n_o@.len() as int,
                    v_o@.len() as int,
                ),
                times@.len() as int,
            ),
        },
{
    if let Err(e) = validate_grid(&n_o, &v_o) {
        return Err(e);
    }
    let ghost gd = n_o@.len() as int;
    let ghost gv = v_o@.len() as int;
    let ghost gm = stellar_masses@.len() as int;
    assert(0 <= gd * gv <= gm * gd * gv + gd * gv && gm * (gd * gv) == gm * gd * gv)
        by (nonlinear_arith)
        requires gd >= 0, gv >= 0, gm >= 0;
    let e = n_o.len() * v_o.len();
    let s = stellar_masses.len() * e;
    let total = e + 2 * s;
    if times.len() != total {
        return Err(GridError::CellCount { expected: total, found: times.len() });
    }
    if let Some(c) = find_invalid_time(&times) {
        return Err(GridError::InvalidTime { cell: c });
    }
    proof {
        lemma_first_invalid_time(times@);
    }
    let earth = copy_range(&times, 0, e);
    let disk_side = copy_range(&times, e, e + s);
    let disk_top = copy_range(&times, e + s, total);
    Ok(CollisionTimes { densities: n_o, velocities: v_o, masses: stellar_masses, earth, disk_side, disk_top })
}

/// A grid holding a zero velocity is never tabulated: it is refused before any
/// evaluation, and when every density and every earlier velocity is valid the
/// refusal names that zero velocity.
pub proof fn lemma_zero_velocity_refused(densities: Seq<Key>, velocities: Seq<Key>, j: int)
    requires
        0 <= j < velocities.len(),
        is_zero(velocities[j].bits),
    ensures
        grid_verdict(densities, velocities) is Err,
        (forall|i: int| 0 <= i < densities.len() ==> is_positive(#[trigger] densities[i].bits)) && (
        forall|i: int| 0 <= i < j ==> is_positive(#[trigger] velocities[i].bits)) ==> grid_verdict(
            densities,
            velocities,
        ) == Err::<(), GridError>(GridError::ZeroVelocity { index: j as usize }),
{
    lemma_first_not_positive(densities);
    lemma_first_not_positive(velocities);
    assert(!is_positive(velocities[j].bits));
    if let Some(f) = first_not_positive(velocities) {
        if (forall|i: int| 0 <= i < j ==> is_positive(#[trigger] velocities[i].bits)) {
            if f < j {
                assert(is_positive(velocities[f].bits));
            }
            assert(f == j);
        }
    }
}

/// Keys rebuilt from the bits of a density, a velocity and a mass of the grid
/// always find a stored time, in every table.
pub proof fn lemma_rebuilt_keys_resolve(
    t: CollisionTimes,
    k: int,
    i: int,
    j: int,
    mass_bits: u64,
    density_bits: u64,
    velocity_bits: u64,
)
    requires
        t.wf(),
        0 <= k < t.masses@.len() && t.masses@[k].bits == mass_bits,
        0 <= i < t.densities@.len() && t.densities@[i].bits == density_bits,
        0 <= j < t.velocities@.len() && t.velocities@[j].bits == velocity_bits,
    ensures
        t.earth_lookup(Key { bits: density_bits }, Key { bits: velocity_bits }) is Some,
        t.disk_lookup(t.disk_side@, Key { bits: mass_bits }, Key { bits: density_bits }, Key { bits: velocity_bits }) is Some,
        t.disk_lookup(t.disk_top@, Key { bits: mass_bits }, Key { bits: density_bits }, Key { bits: velocity_bits }) is Some,
{
    lemma_rebuilt_key_resolves(t.masses@, k, mass_bits);
    lemma_rebuilt_key_resolves(t.densities@, i, density_bits);
    lemma_rebuilt_key_resolves(t.velocities@, j, velocity_bits);
}

/// A lookup answers with the time that was evaluated for the planned cell of the
/// same density, velocity and mass: planning, evaluating in plan order and
/// assembling put every time under the keys it was computed from.
pub proof fn lemma_lookup_is_planned_time(
    densities: Seq<Key>,
    velocities: Seq<Key>,
    masses: Seq<Key>,
    times: Seq<u64>,
    t: CollisionTimes,
    mass: Key,
    density: Key,
    velocity: Key,
)
    requires
        t.wf(),
        t.densities@ == densities,
        t.velocities@ == velocities,
        t.masses@ == masses,
        times.len() == cell_total(masses.len() as int, densities.len() as int, velocities.len() as int),
        t.earth@ == times.subrange(0, earth_cells(densities.len() as int, velocities.len() as int)),
        t.disk_side@ == times.subrange(
            earth_cells(densities.len() as int, velocities.len() as int),
            earth_cells(densities.len() as int, velocities.len() as int) + disk_cells(
                masses.len() as int,
                densities.len() as int,
                velocities.len() as int,
            ),
        ),
        t.disk_top@ == times.subrange(
            earth_cells(densities.len() as int, velocities.len() as int) + disk_cells(
                masses.len() as int,
                densities.len() as int,
                velocities.len() as int,
            ),
            times.len() as int,
        ),
    ensures
        (first_position(densities, density), first_position(velocities, velocity)) matches (
            Some(i),
            Some(j),
        ) ==> {
            let c = i * velocities.len() + j;
            &&& planned_cell(densities, velocities, masses, c) == (Cell::Earth { density, velocity })
            &&& t.earth_lookup(density, velocity) == Some(times[c])
        },
        (
            first_position(masses, mass),
            first_position(densities, density),
            first_position(velocities, velocity),
        ) matches (Some(k), Some(i), Some(j)) ==> {
            let e = earth_cells(densities.len() as int, velocities.len() as int);
            let s = disk_cells(masses.len() as int, densities.len() as int, velocities.len() as int);
            let o = disk_offset(densities.len() as int, velocities.len() as int, k, i, j);
            &&& planned_cell(densities, velocities, masses, e + o) == (Cell::DiskSide { mass, density, velocity })
            &&& t.disk_lookup(t.disk_side@, mass, density, velocity) == Some(times[e + o])
            &&& planned_cell(densities, velocities, masses, e + s + o) == (Cell::DiskTop { mass, density, velocity })
            &&& t.disk_lookup(t.disk_top@, mass, density, velocity) == Some(times[e + s + o])
        },
{
    let nd = densities.len() as int;
    let nv = velocities.len() as int;
    let nm = masses.len() as int;
    lemma_first_position(masses, mass);
    lemma_first_position(densities, density);
    lemma_first_position(velocities, velocity);
    if let (Some(i), Some(j)) = (first_position(densities, density), first_position(velocities, velocity)) {
        assert(0 <= i * nv + j < nd * nv) by (nonlinear_arith)
            requires 0 <= i < nd, 0 <= j < nv;
        lemma_unflatten(i, j, nv);
        if let Some(k) = first_position(masses, mass) {
            lemma_disk_offset(nm, nd, nv, k, i, j);
        }
    }
}

} // verus!

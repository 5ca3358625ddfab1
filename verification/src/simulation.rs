//! The lattice-Boltzmann driver: a grid of cells, each holding nine particle
//! populations, its density and velocity, a barrier flag and a curl value.
//!
//! The grid is generic in the scalar `T` that the populations are measured
//! in. Everything that moves, copies or places values is done here; the
//! arithmetic on scalars (the equilibrium populations of a velocity, the
//! relaxation of one cell, the curl of four velocity samples) is handed in
//! by the caller as functions, and the contracts speak of it through their
//! preconditions and postconditions.

use vstd::prelude::*;
use crate::lattice::{
    cell_index,
    duplicate,
    filled,
    inner,
    is_inner,
    lemma_cell_index,
    lemma_neighbour,
    lemma_streamed_field,
    outflow,
    patch_outflow,
    reflect,
    refresh_edges,
    shift,
};

verus! {

/// The nine lattice directions. East is towards larger `x`, north towards
/// larger `y`.
#[derive(Clone, Copy, Debug, PartialEq, Eq, Structural)]
pub enum Direction {
    Rest,
    East,
    West,
    North,
    South,
    NorthEast,
    SouthEast,
    NorthWest,
    SouthWest,
}

impl Direction {
    /// Step in `x` of a particle moving in this direction.
    pub open spec fn dx(self) -> int {
        match self {
            Direction::East | Direction::NorthEast | Direction::SouthEast => 1,
            Direction::West | Direction::NorthWest | Direction::SouthWest => -1,
            _ => 0,
        }
    }

    /// Step in `y` of a particle moving in this direction.
    pub open spec fn dy(self) -> int {
        match self {
            Direction::North | Direction::NorthEast | Direction::NorthWest => 1,
            Direction::South | Direction::SouthEast | Direction::SouthWest => -1,
            _ => 0,
        }
    }

    /// The reverse direction.
    pub open spec fn opposite(self) -> Direction {
        match self {
            Direction::Rest => Direction::Rest,
            Direction::East => Direction::West,
            Direction::West => Direction::East,
            Direction::North => Direction::South,
            Direction::South => Direction::North,
            Direction::NorthEast => Direction::SouthWest,
            Direction::SouthEast => Direction::NorthWest,
            Direction::NorthWest => Direction::SouthEast,
            Direction::SouthWest => Direction::NorthEast,
        }
    }
}

/// What one cell holds of the fluid: the nine populations, the density and
/// the two velocity components.
#[derive(Clone, Copy, Debug)]
pub struct Cell<T> {
    pub n_0: T,
    pub n_e: T,
    pub n_w: T,
    pub n_n: T,
    pub n_s: T,
    pub n_ne: T,
    pub n_se: T,
    pub n_nw: T,
    pub n_sw: T,
    pub rho: T,
    pub u_x: T,
    pub u_y: T,
}

impl<T> Cell<T> {
    /// The population that moves in direction `d`.
    pub open spec fn population(self, d: Direction) -> T {
        match d {
            Direction::Rest => self.n_0,
            Direction::East => self.n_e,
            Direction::West => self.n_w,
            Direction::North => self.n_n,
            Direction::South => self.n_s,
            Direction::NorthEast => self.n_ne,
            Direction::SouthEast => self.n_se,
            Direction::NorthWest => self.n_nw,
            Direction::SouthWest => self.n_sw,
        }
    }
}

/// Why a simulation could not be built.
#[derive(Clone, Copy, Debug, PartialEq, Eq, Structural)]
pub enum SimulationError {
    /// The grid is narrower or lower than three cells, so it has no cell off
    /// its outermost ring.
    DegenerateGrid,
}

pub struct Simulation<T> {
    x_dim: usize,
    y_dim: usize,
    speed: T,
    steps: u64,
    viscosity: T,
    barrier: Vec<bool>,
    curl: Vec<T>,
    n_0: Vec<T>,
    n_e: Vec<T>,
    n_w: Vec<T>,
    n_n: Vec<T>,
    n_s: Vec<T>,
    n_ne: Vec<T>,
    n_se: Vec<T>,
    n_nw: Vec<T>,
    n_sw: Vec<T>,
    rho: Vec<T>,
    u_x: Vec<T>,
    u_y: Vec<T>,
}

impl<T: Copy> Simulation<T> {
    /// Number of columns.
    pub closed spec fn width(&self) -> int {
        self.x_dim as int
    }

    /// Number of rows.
    pub closed spec fn height(&self) -> int {
        self.y_dim as int
    }

    /// Free-stream speed that the next frame refreshes the edges to.
    pub closed spec fn speed_value(&self) -> T {
        self.speed
    }

    /// Collide-and-stream cycles per frame.
    pub closed spec fn steps_value(&self) -> u64 {
        self.steps
    }

    /// Viscosity that the next frame relaxes with.
    pub closed spec fn viscosity_value(&self) -> T {
        self.viscosity
    }

    /// The fluid values of cell `(x, y)`.
    pub closed spec fn cell_at(&self, x: int, y: int) -> Cell<T> {
        self.flat(cell_index(x, y, self.x_dim as int))
    }

    /// The fluid values at flat position `i`.
    closed spec fn flat(&self, i: int) -> Cell<T> {
        Cell {
            n_0: self.n_0@[i],
            n_e: self.n_e@[i],
            n_w: self.n_w@[i],
            n_n: self.n_n@[i],
            n_s: self.n_s@[i],
            n_ne: self.n_ne@[i],
            n_se: self.n_se@[i],
            n_nw: self.n_nw@[i],
            n_sw: self.n_sw@[i],
            rho: self.rho@[i],
            u_x: self.u_x@[i],
            u_y: self.u_y@[i],
        }
    }

    /// Whether cell `(x, y)` is solid.
    pub closed spec fn is_barrier(&self, x: int, y: int) -> bool {
        self.barrier@[cell_index(x, y, self.x_dim as int)]
    }

    /// The curl stored for cell `(x, y)`.
    pub closed spec fn curl_at(&self, x: int, y: int) -> T {
        self.curl@[cell_index(x, y, self.x_dim as int)]
    }

    /// The grid is at least three cells wide and high, every field has one
    /// value per cell, and no cell within two cells of an edge is solid.
    pub closed spec fn wf(&self) -> bool {
        let n = self.x_dim * self.y_dim;
        &&& n <= usize::MAX
        &&& self.x_dim >= 3
        &&& self.y_dim >= 3
        &&& self.barrier@.len() == n
        &&& self.curl@.len() == n
        &&& self.n_0@.len() == n
        &&& self.n_e@.len() == n
        &&& self.n_w@.len() == n
        &&& self.n_n@.len() == n
        &&& self.n_s@.len() == n
        &&& self.n_ne@.len() == n
        &&& self.n_se@.len() == n
        &&& self.n_nw@.len() == n
        &&& self.n_sw@.len() == n
        &&& self.rho@.len() == n
        &&& self.u_x@.len() == n
        &&& self.u_y@.len() == n
        &&& forall|x: int, y: int|
            0 <= x < self.x_dim && 0 <= y < self.y_dim && #[trigger] self.barrier@[cell_index(
                x,
                y,
                self.x_dim as int,
            )] ==> 2 <= x < self.x_dim - 2 && 2 <= y < self.y_dim - 2
    }

    /// `(x, y)` names a cell of the grid.
    pub open spec fn in_grid(&self, x: int, y: int) -> bool {
        0 <= x < self.width() && 0 <= y < self.height()
    }

    /// `(x, y)` names a cell off the outermost ring.
    pub open spec fn interior(&self, x: int, y: int) -> bool {
        1 <= x <= self.width() - 2 && 1 <= y <= self.height() - 2
    }

    /// `(x, y)` names a cell at least two cells away from every edge, where
    /// a barrier may stand.
    pub open spec fn may_hold_barrier(&self, x: int, y: int) -> bool {
        2 <= x < self.width() - 2 && 2 <= y < self.height() - 2
    }

    /// The population of cell `(x, y)` that moves in direction `d`.
    pub open spec fn population(&self, d: Direction, x: int, y: int) -> T {
        self.cell_at(x, y).population(d)
    }

    /// Same width and height, same speed, step count and viscosity.
    pub open spec fn same_settings(&self, other: Self) -> bool {
        &&& self.width() == other.width()
        &&& self.height() == other.height()
        &&& self.speed_value() == other.speed_value()
        &&& self.steps_value() == other.steps_value()
        &&& self.viscosity_value() == other.viscosity_value()
    }

    /// The same cells are solid.
    pub open spec fn same_barriers(&self, other: Self) -> bool {
        forall|x: int, y: int|
            self.in_grid(x, y) ==> #[trigger] self.is_barrier(x, y) == other.is_barrier(x, y)
    }

    /// Every cell stores the same curl.
    pub open spec fn same_curl(&self, other: Self) -> bool {
        forall|x: int, y: int|
            self.in_grid(x, y) ==> #[trigger] self.curl_at(x, y) == other.curl_at(x, y)
    }

    /// Every cell holds the same fluid values.
    pub open spec fn same_fluid(&self, other: Self) -> bool {
        forall|x: int, y: int|
            self.in_grid(x, y) ==> #[trigger] self.cell_at(x, y) == other.cell_at(x, y)
    }

    /// No solid cell lies within two cells of an edge.
    pub proof fn lemma_barriers_clear_of_edges(&self, x: int, y: int)
        requires
            self.wf(),
            self.in_grid(x, y),
            self.is_barrier(x, y),
        ensures
            self.may_hold_barrier(x, y),
    {
    }

    /// A grid has at least three columns and three rows.
    pub proof fn lemma_dimensions(&self)
        requires
            self.wf(),
        ensures
            self.width() >= 3,
            self.height() >= 3,
            self.width() * self.height() <= usize::MAX,
    {
    }

    fn get_index(&self, x: u64, y: u64) -> (index: usize)
        requires
            self.wf(),
            self.in_grid(x as int, y as int),
        ensures
            index == cell_index(x as int, y as int, self.x_dim as int),
            index < self.x_dim * self.y_dim,
    {
        proof {
            lemma_cell_index(x as int, y as int, self.x_dim as int, self.y_dim as int);
            assert(0 <= y * self.x_dim <= cell_index(x as int, y as int, self.x_dim as int));
        }
        (x as usize) + (y as usize) * self.x_dim
    }

    /// A grid of `x_dim` by `y_dim` cells in which every cell holds the
    /// free-stream values that `equilibrium` gives for `speed`, no cell is
    /// solid and every curl is `calm`. A grid under three cells wide or high
    /// is refused.
    pub fn new<E: Fn(T) -> Cell<T>>(
        x_dim: u64,
        y_dim: u64,
        speed: T,
        steps: u64,
        viscosity: T,
        calm: T,
        equilibrium: E,
    ) -> (made: Result<Simulation<T>, SimulationError>)
        requires
            x_dim >= 3 && y_dim >= 3 ==> x_dim * y_dim <= usize::MAX,
            equilibrium.requires((speed,)),
        ensures
            made is Err <==> x_dim < 3 || y_dim < 3,
            made is Err ==> made == Err::<Simulation<T>, SimulationError>(
                SimulationError::DegenerateGrid,
            ),
            made is Ok ==> {
                let s = made->Ok_0;
                &&& s.wf()
                &&& s.width() == x_dim
                &&& s.height() == y_dim
                &&& s.speed_value() == speed
                &&& s.steps_value() == steps
                &&& s.viscosity_value() == viscosity
                &&& s.fresh(calm, equilibrium)
            },
    {
        if x_dim < 3 || y_dim < 3 {
            return Err(SimulationError::DegenerateGrid);
        }
        assert(x_dim <= x_dim * y_dim && y_dim <= x_dim * y_dim) by (nonlinear_arith)
            requires
                x_dim >= 3,
                y_dim >= 3,
        ;
        let w = x_dim as usize;
        let h = y_dim as usize;
        let size = w * h;
        let free = equilibrium(speed);
        let simulation = Simulation {
            x_dim: w,
            y_dim: h,
            speed,
            steps,
            viscosity,
            barrier: filled(false, size),
            curl: filled(calm, size),
            n_0: filled(free.n_0, size),
            n_e: filled(free.n_e, size),
            n_w: filled(free.n_w, size),
            n_n: filled(free.n_n, size),
            n_s: filled(free.n_s, size),
            n_ne: filled(free.n_ne, size),
            n_se: filled(free.n_se, size),
            n_nw: filled(free.n_nw, size),
            n_sw: filled(free.n_sw, size),
            rho: filled(free.rho, size),
            u_x: filled(free.u_x, size),
            u_y: filled(free.u_y, size),
        };
        proof {
            assert forall|x: int, y: int| simulation.in_grid(x, y) implies !(
            #[trigger] simulation.barrier@[cell_index(x, y, w as int)]) && simulation.curl_at(x, y)
                == calm && simulation.cell_at(x, y) == free by {
                lemma_cell_index(x, y, w as int, h as int);
            }
            assert forall|x: int, y: int| simulation.in_grid(x, y) implies !(
            #[trigger] simulation.is_barrier(x, y)) by {
                lemma_cell_index(x, y, w as int, h as int);
            }
            assert forall|x: int, y: int| simulation.in_grid(x, y) implies (
            #[trigger] simulation.curl_at(x, y)) == calm by {
                lemma_cell_index(x, y, w as int, h as int);
            }
            assert forall|x: int, y: int| simulation.in_grid(x, y) implies (
            #[trigger] simulation.cell_at(x, y)) == free by {
                lemma_cell_index(x, y, w as int, h as int);
            }
            assert(simulation.in_grid(0, 0) && simulation.cell_at(0, 0) == free);
        }
        Ok(simulation)
    }

    /// The state right after construction: no cell is solid, every curl is
    /// `calm`, and all cells hold one and the same set of values, which
    /// `equilibrium` gives for the speed.
    pub open spec fn fresh<E: Fn(T) -> Cell<T>>(&self, calm: T, equilibrium: E) -> bool {
        &&& equilibrium.ensures((self.speed_value(),), self.cell_at(0, 0))
        &&& forall|x: int, y: int| self.in_grid(x, y) ==> !(#[trigger] self.is_barrier(x, y))
        &&& forall|x: int, y: int| self.in_grid(x, y) ==> #[trigger] self.curl_at(x, y) == calm
        &&& forall|x: int, y: int|
            self.in_grid(x, y) ==> #[trigger] self.cell_at(x, y) == self.cell_at(0, 0)
    }

    /// Puts the grid back into the state right after construction, at the
    /// current speed.
    pub fn init<E: Fn(T) -> Cell<T>>(&mut self, calm: T, equilibrium: E)
        requires
            old(self).wf(),
            equilibrium.requires((old(self).speed_value(),)),
        ensures
            final(self).wf(),
            final(self).same_settings(*old(self)),
            final(self).fresh(calm, equilibrium),
    {
        let size = self.barrier.len();
        let free = equilibrium(self.speed);
        self.barrier = filled(false, size);
        self.curl = filled(calm, size);
        self.n_0 = filled(free.n_0, size);
        self.n_e = filled(free.n_e, size);
        self.n_w = filled(free.n_w, size);
        self.n_n = filled(free.n_n, size);
        self.n_s = filled(free.n_s, size);
        self.n_ne = filled(free.n_ne, size);
        self.n_se = filled(free.n_se, size);
        self.n_nw = filled(free.n_nw, size);
        self.n_sw = filled(free.n_sw, size);
        self.rho = filled(free.rho, size);
        self.u_x = filled(free.u_x, size);
        self.u_y = filled(free.u_y, size);
        proof {
            assert forall|x: int, y: int| self.in_grid(x, y) implies !(
            #[trigger] self.barrier@[cell_index(x, y, self.x_dim as int)]) && self.curl_at(x, y)
                == calm && self.cell_at(x, y) == free by {
                lemma_cell_index(x, y, self.x_dim as int, self.y_dim as int);
            }
            assert forall|x: int, y: int| self.in_grid(x, y) implies !(#[trigger] self.is_barrier(
                x,
                y,
            )) by {
                lemma_cell_index(x, y, self.x_dim as int, self.y_dim as int);
            }
            assert forall|x: int, y: int| self.in_grid(x, y) implies (#[trigger] self.curl_at(
                x,
                y,
            )) == calm by {
                lemma_cell_index(x, y, self.x_dim as int, self.y_dim as int);
            }
            assert forall|x: int, y: int| self.in_grid(x, y) implies (#[trigger] self.cell_at(
                x,
                y,
            )) == free by {
                lemma_cell_index(x, y, self.x_dim as int, self.y_dim as int);
            }
            assert(self.in_grid(0, 0) && self.cell_at(0, 0) == free);
        }
    }

    /// Number of columns.
    pub fn x_dim(&self) -> (w: u64)
        requires
            self.wf(),
        ensures
            w == self.width(),
    {
        self.x_dim as u64
    }

    /// Number of rows.
    pub fn y_dim(&self) -> (h: u64)
        requires
            self.wf(),
        ensures
            h == self.height(),
    {
        self.y_dim as u64
    }

    /// Whether cell `(x, y)` is solid.
    pub fn barrier(&self, x: u64, y: u64) -> (solid: bool)
        requires
            self.wf(),
            self.in_grid(x as int, y as int),
        ensures
            solid == self.is_barrier(x as int, y as int),
    {
        let index = self.get_index(x, y);
        self.barrier[index]
    }

    /// The curl stored for cell `(x, y)`.
    pub fn curl(&self, x: u64, y: u64) -> (value: T)
        requires
            self.wf(),
            self.in_grid(x as int, y as int),
        ensures
            value == self.curl_at(x as int, y as int),
    {
        let index = self.get_index(x, y);
        self.curl[index]
    }

    /// The fluid values of cell `(x, y)`.
    pub fn cell(&self, x: u64, y: u64) -> (cell: Cell<T>)
        requires
            self.wf(),
            self.in_grid(x as int, y as int),
        ensures
            cell == self.cell_at(x as int, y as int),
    {
        let i = self.get_index(x, y);
        self.read(i)
    }

    fn read(&self, i: usize) -> (cell: Cell<T>)
        requires
            self.wf(),
            i < self.x_dim * self.y_dim,
        ensures
            cell == self.flat(i as int),
    {
        Cell {
            n_0: self.n_0[i],
            n_e: self.n_e[i],
            n_w: self.n_w[i],
            n_n: self.n_n[i],
            n_s: self.n_s[i],
            n_ne: self.n_ne[i],
            n_se: self.n_se[i],
            n_nw: self.n_nw[i],
            n_sw: self.n_sw[i],
            rho: self.rho[i],
            u_x: self.u_x[i],
            u_y: self.u_y[i],
        }
    }

    pub fn set_speed(&mut self, new_speed: T)
        ensures
            final(self).speed_value() == new_speed,
            final(self).width() == old(self).width(),
            final(self).height() == old(self).height(),
            final(self).steps_value() == old(self).steps_value(),
            final(self).viscosity_value() == old(self).viscosity_value(),
            final(self).wf() == old(self).wf(),
            final(self).same_barriers(*old(self)),
            final(self).same_curl(*old(self)),
            final(self).same_fluid(*old(self)),
    {
        self.speed = new_speed;
    }

    pub fn set_steps(&mut self, new_steps: u64)
        ensures
            final(self).steps_value() == new_steps,
            final(self).width() == old(self).width(),
            final(self).height() == old(self).height(),
            final(self).speed_value() == old(self).speed_value(),
            final(self).viscosity_value() == old(self).viscosity_value(),
            final(self).wf() == old(self).wf(),
            final(self).same_barriers(*old(self)),
            final(self).same_curl(*old(self)),
            final(self).same_fluid(*old(self)),
    {
        self.steps = new_steps;
    }

    pub fn set_viscosity(&mut self, new_viscosity: T)
        ensures
            final(self).viscosity_value() == new_viscosity,
            final(self).width() == old(self).width(),
            final(self).height() == old(self).height(),
            final(self).speed_value() == old(self).speed_value(),
            final(self).steps_value() == old(self).steps_value(),
            final(self).wf() == old(self).wf(),
            final(self).same_barriers(*old(self)),
            final(self).same_curl(*old(self)),
            final(self).same_fluid(*old(self)),
    {
        self.viscosity = new_viscosity;
    }

    /// Makes cell `(x, y)` solid if it lies at least two cells away from
    /// every edge; changes nothing if it does not.
    pub fn add_barrier(&mut self, x: u64, y: u64)
        requires
            old(self).wf(),
        ensures
            final(self).wf(),
            final(self).same_settings(*old(self)),
            final(self).same_curl(*old(self)),
            final(self).same_fluid(*old(self)),
            forall|a: int, b: int|
                final(self).in_grid(a, b) ==> #[trigger] final(self).is_barrier(a, b) == (old(
                    self,
                ).is_barrier(a, b) || (a == x && b == y && old(self).may_hold_barrier(a, b))),
    {
        if x > 1 && x < (self.x_dim - 2) as u64 && y > 1 && y < (self.y_dim - 2) as u64 {
            let index = self.get_index(x, y);
            self.barrier.set(index, true);
            proof {
                let w = self.x_dim as int;
                let h = self.y_dim as int;
                lemma_cell_index(x as int, y as int, w, h);
                assert forall|a: int, b: int| 0 <= a < w && 0 <= b < h implies (
                #[trigger] cell_index(a, b, w) == index) == (a == x && b == y) && 0 <= cell_index(
                    a,
                    b,
                    w,
                ) < w * h by {
                    lemma_cell_index(a, b, w, h);
                }
            }
        }
    }

    /// Makes cell `(x, y)` fluid again; changes nothing if it lies within
    /// two cells of an edge, where no cell is solid.
    pub fn remove_barrier(&mut self, x: u64, y: u64)
        requires
            old(self).wf(),
        ensures
            final(self).wf(),
            final(self).same_settings(*old(self)),
            final(self).same_curl(*old(self)),
            final(self).same_fluid(*old(self)),
            forall|a: int, b: int|
                final(self).in_grid(a, b) ==> #[trigger] final(self).is_barrier(a, b) == (old(
                    self,
                ).is_barrier(a, b) && !(a == x && b == y)),
    {
        if x > 1 && x < (self.x_dim - 2) as u64 && y > 1 && y < (self.y_dim - 2) as u64 {
            let index = self.get_index(x, y);
            if self.barrier[index] {
                self.barrier.set(index, false);
            }
            proof {
                let w = self.x_dim as int;
                let h = self.y_dim as int;
                lemma_cell_index(x as int, y as int, w, h);
                assert forall|a: int, b: int| 0 <= a < w && 0 <= b < h implies (
                #[trigger] cell_index(a, b, w) == index) == (a == x && b == y) && 0 <= cell_index(
                    a,
                    b,
                    w,
                ) < w * h by {
                    lemma_cell_index(a, b, w, h);
                }
            }
        }
    }

    /// Makes every cell fluid.
    pub fn clear_barriers(&mut self)
        requires
            old(self).wf(),
        ensures
            final(self).wf(),
            final(self).same_settings(*old(self)),
            final(self).same_curl(*old(self)),
            final(self).same_fluid(*old(self)),
            forall|a: int, b: int|
                final(self).in_grid(a, b) ==> !(#[trigger] final(self).is_barrier(a, b)),
    {
        self.init_barrier();
    }

    fn init_barrier(&mut self)
        requires
            old(self).wf(),
        ensures
            final(self).wf(),
            final(self).same_settings(*old(self)),
            final(self).same_curl(*old(self)),
            final(self).same_fluid(*old(self)),
            forall|a: int, b: int|
                final(self).in_grid(a, b) ==> !(#[trigger] final(self).is_barrier(a, b)),
    {
        let size = self.barrier.len();
        self.barrier = filled(false, size);
        proof {
            assert forall|a: int, b: int| self.in_grid(a, b) implies !(
            #[trigger] self.barrier@[cell_index(a, b, self.x_dim as int)]) by {
                lemma_cell_index(a, b, self.x_dim as int, self.y_dim as int);
            }
        }
    }
}

impl<T: Copy> Simulation<T> {
    /// The population of direction `d` at `(x, y)` after advection alone:
    /// an interior cell receives what stood one step back, an edge cell
    /// keeps its value.
    pub open spec fn advected(&self, d: Direction, x: int, y: int) -> T {
        if self.interior(x, y) {
            self.population(d, x - d.dx(), y - d.dy())
        } else {
            self.population(d, x, y)
        }
    }

    /// The population of direction `d` at `(x, y)` after one streaming step.
    /// Where the cell one step back is an interior barrier, the cell gets
    /// back what advection carried into that barrier in the reverse
    /// direction; elsewhere it holds what advection brought.
    pub open spec fn streamed(&self, d: Direction, x: int, y: int) -> T {
        let bx = x - d.dx();
        let by = y - d.dy();
        if d != Direction::Rest && self.interior(bx, by) && self.is_barrier(bx, by) {
            self.advected(d.opposite(), bx, by)
        } else {
            self.advected(d, x, y)
        }
    }

    /// The fluid values of `(x, y)` after one streaming step: every
    /// population streamed, density and velocity as they were.
    pub open spec fn streamed_cell(&self, x: int, y: int) -> Cell<T> {
        Cell {
            n_0: self.streamed(Direction::Rest, x, y),
            n_e: self.streamed(Direction::East, x, y),
            n_w: self.streamed(Direction::West, x, y),
            n_n: self.streamed(Direction::North, x, y),
            n_s: self.streamed(Direction::South, x, y),
            n_ne: self.streamed(Direction::NorthEast, x, y),
            n_se: self.streamed(Direction::SouthEast, x, y),
            n_nw: self.streamed(Direction::NorthWest, x, y),
            n_sw: self.streamed(Direction::SouthWest, x, y),
            rho: self.cell_at(x, y).rho,
            u_x: self.cell_at(x, y).u_x,
            u_y: self.cell_at(x, y).u_y,
        }
    }

    /// `self` is what one streaming step makes of `before`.
    pub open spec fn streams_from(&self, before: Self) -> bool {
        &&& self.same_settings(before)
        &&& self.same_barriers(before)
        &&& self.same_curl(before)
        &&& forall|x: int, y: int|
            self.in_grid(x, y) ==> #[trigger] self.cell_at(x, y) == before.streamed_cell(x, y)
    }

    /// One streaming step. The eight moving populations advance by one cell
    /// along their directions, in place, each in a pass of its own that
    /// visits the cells against the direction of the move, so that no value
    /// is overwritten before it is read.
    /// Then every interior barrier cell sends what reached it back to where
    /// it came from, in the reverse direction; what it sends is what
    /// advection left in it, whatever its neighbours send.
    pub fn stream(&mut self)
        requires
            old(self).wf(),
        ensures
            final(self).wf(),
            final(self).streams_from(*old(self)),
    {
        let w = self.x_dim;
        proof {
            assert(3 * w <= w * self.y_dim) by (nonlinear_arith)
                requires
                    self.y_dim >= 3,
                    w >= 3,
            ;
        }
        shift(&mut self.n_n, w, w, true);
        shift(&mut self.n_nw, w, w - 1, true);
        shift(&mut self.n_e, w, 1, true);
        shift(&mut self.n_ne, w, w + 1, true);
        shift(&mut self.n_s, w, w, false);
        shift(&mut self.n_se, w, w - 1, false);
        shift(&mut self.n_w, w, 1, false);
        shift(&mut self.n_sw, w, w + 1, false);
        let east = duplicate(&self.n_e);
        let north = duplicate(&self.n_n);
        let north_east = duplicate(&self.n_ne);
        let north_west = duplicate(&self.n_nw);
        reflect(&mut self.n_e, &self.n_w, &self.barrier, w, 1, true);
        reflect(&mut self.n_w, &east, &self.barrier, w, 1, false);
        reflect(&mut self.n_n, &self.n_s, &self.barrier, w, w, true);
        reflect(&mut self.n_s, &north, &self.barrier, w, w, false);
        reflect(&mut self.n_ne, &self.n_sw, &self.barrier, w, w + 1, true);
        reflect(&mut self.n_sw, &north_east, &self.barrier, w, w + 1, false);
        reflect(&mut self.n_nw, &self.n_se, &self.barrier, w, w - 1, true);
        reflect(&mut self.n_se, &north_west, &self.barrier, w, w - 1, false);
        proof {
            let before = *old(self);
            let wi = w as int;
            let hi = self.y_dim as int;
            assert forall|x: int, y: int| self.in_grid(x, y) implies #[trigger] self.cell_at(x, y)
                == before.streamed_cell(x, y) by {
                let solid = before.barrier@;
                lemma_streamed_field(before.n_e@, before.n_w@, solid, wi, hi, x, y, 1, 0);
                lemma_streamed_field(before.n_w@, before.n_e@, solid, wi, hi, x, y, -1, 0);
                lemma_streamed_field(before.n_n@, before.n_s@, solid, wi, hi, x, y, 0, 1);
                lemma_streamed_field(before.n_s@, before.n_n@, solid, wi, hi, x, y, 0, -1);
                lemma_streamed_field(before.n_ne@, before.n_sw@, solid, wi, hi, x, y, 1, 1);
                lemma_streamed_field(before.n_sw@, before.n_ne@, solid, wi, hi, x, y, -1, -1);
                lemma_streamed_field(before.n_nw@, before.n_se@, solid, wi, hi, x, y, -1, 1);
                lemma_streamed_field(before.n_se@, before.n_nw@, solid, wi, hi, x, y, 1, -1);
            }
        }
    }
}

impl<T: Copy> Simulation<T> {
    fn write(&mut self, i: usize, cell: Cell<T>)
        requires
            old(self).wf(),
            i < old(self).x_dim * old(self).y_dim,
        ensures
            final(self).wf(),
            final(self).x_dim == old(self).x_dim,
            final(self).y_dim == old(self).y_dim,
            final(self).speed == old(self).speed,
            final(self).steps == old(self).steps,
            final(self).viscosity == old(self).viscosity,
            final(self).barrier == old(self).barrier,
            final(self).curl == old(self).curl,
            forall|k: int|
                0 <= k < final(self).x_dim * final(self).y_dim ==> #[trigger] final(self).flat(k)
                    == if k == i {
                    cell
                } else {
                    old(self).flat(k)
                },
    {
        self.n_0.set(i, cell.n_0);
        self.n_e.set(i, cell.n_e);
        self.n_w.set(i, cell.n_w);
        self.n_n.set(i, cell.n_n);
        self.n_s.set(i, cell.n_s);
        self.n_ne.set(i, cell.n_ne);
        self.n_se.set(i, cell.n_se);
        self.n_nw.set(i, cell.n_nw);
        self.n_sw.set(i, cell.n_sw);
        self.rho.set(i, cell.rho);
        self.u_x.set(i, cell.u_x);
        self.u_y.set(i, cell.u_y);
    }

    /// Replaces the fluid values of cell `(x, y)`.
    pub fn set_cell(&mut self, x: u64, y: u64, cell: Cell<T>)
        requires
            old(self).wf(),
            old(self).in_grid(x as int, y as int),
        ensures
            final(self).wf(),
            final(self).same_settings(*old(self)),
            final(self).same_barriers(*old(self)),
            final(self).same_curl(*old(self)),
            forall|a: int, b: int|
                final(self).in_grid(a, b) ==> #[trigger] final(self).cell_at(a, b) == if a == x && b
                    == y {
                    cell
                } else {
                    old(self).cell_at(a, b)
                },
    {
        let index = self.get_index(x, y);
        self.write(index, cell);
        proof {
            let w = self.x_dim as int;
            let h = self.y_dim as int;
            lemma_cell_index(x as int, y as int, w, h);
            assert forall|a: int, b: int| 0 <= a < w && 0 <= b < h implies (
            #[trigger] cell_index(a, b, w) == index) == (a == x && b == y) && 0 <= cell_index(
                a,
                b,
                w,
            ) < w * h by {
                lemma_cell_index(a, b, w, h);
            }
        }
    }

    /// `self` is `before` with every cell of the outermost ring set to
    /// `free`.
    pub open spec fn refreshes(&self, before: Self, free: Cell<T>) -> bool {
        &&& self.same_settings(before)
        &&& self.same_barriers(before)
        &&& self.same_curl(before)
        &&& forall|x: int, y: int|
            self.in_grid(x, y) ==> #[trigger] self.cell_at(x, y) == if self.interior(x, y) {
                before.cell_at(x, y)
            } else {
                free
            }
    }

    /// Sets the fluid values of every cell of the outermost ring to `free`.
    pub fn set_boundaries(&mut self, free: Cell<T>)
        requires
            old(self).wf(),
        ensures
            final(self).wf(),
            final(self).refreshes(*old(self), free),
    {
        let w = self.x_dim;
        proof {
            assert(3 * w <= w * self.y_dim) by (nonlinear_arith)
                requires
                    self.y_dim >= 3,
                    w >= 3,
            ;
        }
        refresh_edges(&mut self.n_0, w, free.n_0);
        refresh_edges(&mut self.n_e, w, free.n_e);
        refresh_edges(&mut self.n_w, w, free.n_w);
        refresh_edges(&mut self.n_n, w, free.n_n);
        refresh_edges(&mut self.n_s, w, free.n_s);
        refresh_edges(&mut self.n_ne, w, free.n_ne);
        refresh_edges(&mut self.n_se, w, free.n_se);
        refresh_edges(&mut self.n_nw, w, free.n_nw);
        refresh_edges(&mut self.n_sw, w, free.n_sw);
        refresh_edges(&mut self.rho, w, free.rho);
        refresh_edges(&mut self.u_x, w, free.u_x);
        refresh_edges(&mut self.u_y, w, free.u_y);
        proof {
            assert forall|x: int, y: int| self.in_grid(x, y) implies #[trigger] self.cell_at(x, y)
                == if self.interior(x, y) {
                old(self).cell_at(x, y)
            } else {
                free
            } by {
                lemma_cell_index(x, y, w as int, self.y_dim as int);
            }
        }
    }

    /// `self` is what one collision step with `relax` makes of `before`.
    /// Every interior cell holds what `relax` returns for its former values
    /// and the viscosity. In the last column, in every row but the first and
    /// the last two, the three west-going populations are those that the
    /// left neighbour holds after its relaxation. Nothing else changes.
    pub open spec fn collides_from<R: Fn(Cell<T>, T) -> Cell<T>>(
        &self,
        before: Self,
        relax: R,
    ) -> bool {
        &&& self.same_settings(before)
        &&& self.same_barriers(before)
        &&& self.same_curl(before)
        &&& forall|x: int, y: int|
            self.in_grid(x, y) ==> if self.interior(x, y) {
                relax.ensures(
                    (before.cell_at(x, y), before.viscosity_value()),
                    #[trigger] self.cell_at(x, y),
                )
            } else if x == self.width() - 1 && 1 <= y < self.height() - 2 {
                self.cell_at(x, y) == (Cell {
                    n_w: self.cell_at(x - 1, y).n_w,
                    n_nw: self.cell_at(x - 1, y).n_nw,
                    n_sw: self.cell_at(x - 1, y).n_sw,
                    ..before.cell_at(x, y)
                })
            } else {
                self.cell_at(x, y) == before.cell_at(x, y)
            }
    }

    /// One collision step: relaxes every interior cell with `relax`, then
    /// patches the outflow column.
    pub fn collide<R: Fn(Cell<T>, T) -> Cell<T>>(&mut self, relax: &R)
        requires
            old(self).wf(),
            forall|c: Cell<T>| relax.requires((c, old(self).viscosity_value())),
        ensures
            final(self).wf(),
            final(self).collides_from(*old(self), *relax),
    {
        let w = self.x_dim;
        let n = self.barrier.len();
        proof {
            assert(3 * w <= w * self.y_dim) by (nonlinear_arith)
                requires
                    self.y_dim >= 3,
                    w >= 3,
            ;
        }
        let viscosity = self.viscosity;
        assert(viscosity == old(self).viscosity_value());
        let mut i: usize = w + 1;
        while i < n - w - 1
            invariant
                self.wf(),
                self.x_dim == w,
                self.y_dim == old(self).y_dim,
                n == w * self.y_dim,
                w == old(self).x_dim,
                n >= 3 * w,
                w + 1 <= i <= n - w - 1,
                self.speed == old(self).speed,
                self.steps == old(self).steps,
                self.viscosity == old(self).viscosity,
                self.barrier == old(self).barrier,
                self.curl == old(self).curl,
                viscosity == old(self).viscosity,
                forall|c: Cell<T>| relax.requires((c, viscosity)),
                forall|k: int|
                    0 <= k < n ==> if k < i && inner(k, w as int, n as int) {
                        relax.ensures(
                            (old(self).flat(k), old(self).viscosity),
                            #[trigger] self.flat(k),
                        )
                    } else {
                        self.flat(k) == old(self).flat(k)
                    },
            decreases n - i,
        {
            if is_inner(i, w, n) {
                let cell = self.read(i);
                let relaxed = relax(cell, viscosity);
                self.write(i, relaxed);
            }
            i += 1;
        }
        let ghost relaxed = *self;
        patch_outflow(&mut self.n_w, w);
        patch_outflow(&mut self.n_nw, w);
        patch_outflow(&mut self.n_sw, w);
        proof {
            let wi = w as int;
            let hi = self.y_dim as int;
            assert forall|x: int, y: int| self.in_grid(x, y) implies if self.interior(x, y) {
                relax.ensures(
                    (old(self).cell_at(x, y), old(self).viscosity_value()),
                    #[trigger] self.cell_at(x, y),
                )
            } else if x == self.width() - 1 && 1 <= y < self.height() - 2 {
                self.cell_at(x, y) == (Cell {
                    n_w: self.cell_at(x - 1, y).n_w,
                    n_nw: self.cell_at(x - 1, y).n_nw,
                    n_sw: self.cell_at(x - 1, y).n_sw,
                    ..old(self).cell_at(x, y)
                })
            } else {
                self.cell_at(x, y) == old(self).cell_at(x, y)
            } by {
                lemma_cell_index(x, y, wi, hi);
                let k = cell_index(x, y, wi);
                assert(self.flat(k) == (if outflow(k, wi, n as int) {
                    Cell {
                        n_w: relaxed.flat(k - 1).n_w,
                        n_nw: relaxed.flat(k - 1).n_nw,
                        n_sw: relaxed.flat(k - 1).n_sw,
                        ..relaxed.flat(k)
                    }
                } else {
                    relaxed.flat(k)
                }));
                if x >= 1 {
                    lemma_cell_index(x - 1, y, wi, hi);
                    assert(cell_index(x - 1, y, wi) == k - 1);
                }
            }
        }
    }

    /// `self` is `before` with the curl of every interior cell recomputed by
    /// `vorticity` from the velocities of its four neighbours: the `y`
    /// components at `x + 1` and `x - 1`, then the `x` components at `y + 1`
    /// and `y - 1`.
    pub open spec fn curls_from<V: Fn(T, T, T, T) -> T>(&self, before: Self, vorticity: V) -> bool {
        &&& self.same_settings(before)
        &&& self.same_barriers(before)
        &&& self.same_fluid(before)
        &&& forall|x: int, y: int|
            self.in_grid(x, y) ==> if self.interior(x, y) {
                vorticity.ensures(
                    (
                        before.cell_at(x + 1, y).u_y,
                        before.cell_at(x - 1, y).u_y,
                        before.cell_at(x, y + 1).u_x,
                        before.cell_at(x, y - 1).u_x,
                    ),
                    #[trigger] self.curl_at(x, y),
                )
            } else {
                self.curl_at(x, y) == before.curl_at(x, y)
            }
    }

    /// Recomputes the curl of every interior cell from the stored velocities.
    pub fn update_curl<V: Fn(T, T, T, T) -> T>(&mut self, vorticity: &V)
        requires
            old(self).wf(),
            forall|a: T, b: T, c: T, d: T| vorticity.requires((a, b, c, d)),
        ensures
            final(self).wf(),
            final(self).curls_from(*old(self), *vorticity),
    {
        let w = self.x_dim;
        let n = self.barrier.len();
        proof {
            assert(3 * w <= w * self.y_dim) by (nonlinear_arith)
                requires
                    self.y_dim >= 3,
                    w >= 3,
            ;
        }
        let mut i: usize = w + 1;
        while i < n - w - 1
            invariant
                self.wf(),
                self.x_dim == w,
                self.y_dim == old(self).y_dim,
                n == w * self.y_dim,
                n >= 3 * w,
                w + 1 <= i <= n - w - 1,
                self.speed == old(self).speed,
                self.steps == old(self).steps,
                self.viscosity == old(self).viscosity,
                self.barrier == old(self).barrier,
                self.n_0 == old(self).n_0,
                self.n_e == old(self).n_e,
                self.n_w == old(self).n_w,
                self.n_n == old(self).n_n,
                self.n_s == old(self).n_s,
                self.n_ne == old(self).n_ne,
                self.n_se == old(self).n_se,
                self.n_nw == old(self).n_nw,
                self.n_sw == old(self).n_sw,
                self.rho == old(self).rho,
                self.u_x == old(self).u_x,
                self.u_y == old(self).u_y,
                forall|a: T, b: T, c: T, d: T| vorticity.requires((a, b, c, d)),
                forall|k: int|
                    0 <= k < n ==> if k < i && inner(k, w as int, n as int) {
                        vorticity.ensures(
                            (self.u_y@[k + 1], self.u_y@[k - 1], self.u_x@[k + w], self.u_x@[k - w]),
                            #[trigger] self.curl@[k],
                        )
                    } else {
                        self.curl@[k] == old(self).curl@[k]
                    },
            decreases n - i,
        {
            if is_inner(i, w, n) {
                let value = vorticity(
                    self.u_y[i + 1],
                    self.u_y[i - 1],
                    self.u_x[i + w],
                    self.u_x[i - w],
                );
                self.curl.set(i, value);
            }
            i += 1;
        }
        proof {
            let wi = w as int;
            let hi = self.y_dim as int;
            assert forall|x: int, y: int| self.in_grid(x, y) implies if self.interior(x, y) {
                vorticity.ensures(
                    (
                        old(self).cell_at(x + 1, y).u_y,
                        old(self).cell_at(x - 1, y).u_y,
                        old(self).cell_at(x, y + 1).u_x,
                        old(self).cell_at(x, y - 1).u_x,
                    ),
                    #[trigger] self.curl_at(x, y),
                )
            } else {
                self.curl_at(x, y) == old(self).curl_at(x, y)
            } by {
                lemma_cell_index(x, y, wi, hi);
                lemma_neighbour(x, y, 1, 0, wi);
                lemma_neighbour(x, y, -1, 0, wi);
                lemma_neighbour(x, y, 0, 1, wi);
                lemma_neighbour(x, y, 0, -1, wi);
            }
        }
    }
}

impl<T: Copy> Simulation<T> {
    /// Same settings, barriers, curl and fluid values.
    pub open spec fn same_state(&self, other: Self) -> bool {
        &&& self.same_settings(other)
        &&& self.same_barriers(other)
        &&& self.same_curl(other)
        &&& self.same_fluid(other)
    }

    /// `self` is what `cycles` rounds of collision and streaming make of
    /// `before`.
    pub open spec fn cycles_from<R: Fn(Cell<T>, T) -> Cell<T>>(
        &self,
        before: Self,
        relax: R,
        cycles: nat,
    ) -> bool
        decreases cycles,
    {
        if cycles == 0 {
            self.same_state(before)
        } else {
            exists|mid: Self, collided: Self|
                {
                    &&& mid.wf()
                    &&& collided.wf()
                    &&& mid.cycles_from(before, relax, (cycles - 1) as nat)
                    &&& #[trigger] collided.collides_from(mid, relax)
                    &&& self.streams_from(collided)
                }
        }
    }

    /// `self` is what one frame makes of `before`: the outermost ring is
    /// refreshed to the values that `equilibrium` gives for the speed, then
    /// come as many rounds of collision and streaming as the step count
    /// says, then the curl of every interior cell is recomputed.
    pub open spec fn frame_from<
        E: Fn(T) -> Cell<T>,
        R: Fn(Cell<T>, T) -> Cell<T>,
        V: Fn(T, T, T, T) -> T,
    >(&self, before: Self, equilibrium: E, relax: R, vorticity: V) -> bool {
        exists|free: Cell<T>, refreshed: Self, cycled: Self|
            #![trigger refreshed.refreshes(before, free), self.curls_from(cycled, vorticity)]
            {
                &&& equilibrium.ensures((before.speed_value(),), free)
                &&& refreshed.wf()
                &&& cycled.wf()
                &&& refreshed.refreshes(before, free)
                &&& cycled.cycles_from(refreshed, relax, before.steps_value() as nat)
                &&& self.curls_from(cycled, vorticity)
            }
    }

    /// One frame of the animation.
    pub fn simulate<E: Fn(T) -> Cell<T>, R: Fn(Cell<T>, T) -> Cell<T>, V: Fn(T, T, T, T) -> T>(
        &mut self,
        equilibrium: E,
        relax: R,
        vorticity: V,
    )
        requires
            old(self).wf(),
            equilibrium.requires((old(self).speed_value(),)),
            forall|c: Cell<T>| relax.requires((c, old(self).viscosity_value())),
            forall|a: T, b: T, c: T, d: T| vorticity.requires((a, b, c, d)),
        ensures
            final(self).wf(),
            final(self).frame_from(*old(self), equilibrium, relax, vorticity),
            final(self).same_settings(*old(self)),
            final(self).same_barriers(*old(self)),
    {
        let free = equilibrium(self.speed);
        self.set_boundaries(free);
        let ghost refreshed = *self;
        let steps = self.steps;
        let mut i: u64 = 0;
        while i < steps
            invariant
                self.wf(),
                refreshed.wf(),
                i <= steps,
                self.same_settings(refreshed),
                self.same_barriers(refreshed),
                self.cycles_from(refreshed, relax, i as nat),
                forall|c: Cell<T>| relax.requires((c, refreshed.viscosity_value())),
            decreases steps - i,
        {
            let ghost mid = *self;
            self.collide(&relax);
            let ghost collided = *self;
            self.stream();
            i += 1;
            proof {
                assert(mid.cycles_from(refreshed, relax, (i - 1) as nat));
                assert(collided.collides_from(mid, relax));
                assert(self.streams_from(collided));
                assert forall|x: int, y: int| self.in_grid(x, y) implies (#[trigger] self.is_barrier(
                    x,
                    y,
                )) == refreshed.is_barrier(x, y) by {
                    assert(collided.in_grid(x, y) && mid.in_grid(x, y));
                    assert(collided.is_barrier(x, y) == mid.is_barrier(x, y));
                }
            }
        }
        let ghost cycled = *self;
        self.update_curl(&vorticity);
        proof {
            assert(refreshed.refreshes(*old(self), free));
            assert(self.curls_from(cycled, vorticity));
            assert forall|x: int, y: int| self.in_grid(x, y) implies (#[trigger] self.is_barrier(
                x,
                y,
            )) == old(self).is_barrier(x, y) by {
                assert(cycled.in_grid(x, y) && refreshed.in_grid(x, y));
                assert(cycled.is_barrier(x, y) == refreshed.is_barrier(x, y));
                assert(refreshed.is_barrier(x, y) == old(self).is_barrier(x, y));
            }
        }
    }

    /// Bounce-back: where an interior barrier stands at `(x, y)`, the
    /// population that its neighbour in direction `d` sent towards it comes
    /// back to that neighbour by one streaming step, reversed: the neighbour
    /// then holds in direction `d` what it held in the reverse direction.
    pub proof fn lemma_bounce_back(before: Self, after: Self, d: Direction, x: int, y: int)
        requires
            before.wf(),
            after.streams_from(before),
            d != Direction::Rest,
            before.interior(x, y),
            before.is_barrier(x, y),
        ensures
            after.population(d, x + d.dx(), y + d.dy()) == before.population(
                d.opposite(),
                x + d.dx(),
                y + d.dy(),
            ),
    {
        let nx = x + d.dx();
        let ny = y + d.dy();
        assert(after.in_grid(nx, ny));
        assert(after.cell_at(nx, ny) == before.streamed_cell(nx, ny));
        assert(after.population(d, nx, ny) == before.streamed(d, nx, ny));
    }

    /// Away from barriers streaming is plain advection: an interior cell
    /// whose neighbour one step back is no barrier receives that
    /// neighbour's population.
    pub proof fn lemma_free_streaming(before: Self, after: Self, d: Direction, x: int, y: int)
        requires
            before.wf(),
            after.streams_from(before),
            before.interior(x, y),
            !before.is_barrier(x - d.dx(), y - d.dy()),
        ensures
            after.population(d, x, y) == before.population(d, x - d.dx(), y - d.dy()),
    {
        assert(after.in_grid(x, y));
        assert(after.cell_at(x, y) == before.streamed_cell(x, y));
        assert(after.population(d, x, y) == before.streamed(d, x, y));
    }

    /// A cell that `relax` leaves as it is comes out of a collision step
    /// unchanged: where every result that `relax` may give for the values of
    /// an interior cell is those values again, the cell holds them after the
    /// step.
    pub proof fn lemma_collision_keeps_fixed_points<R: Fn(Cell<T>, T) -> Cell<T>>(
        before: Self,
        after: Self,
        relax: R,
        x: int,
        y: int,
    )
        requires
            after.collides_from(before, relax),
            before.interior(x, y),
            forall|r: Cell<T>|
                relax.ensures((before.cell_at(x, y), before.viscosity_value()), r) ==> r
                    == before.cell_at(x, y),
        ensures
            after.cell_at(x, y) == before.cell_at(x, y),
    {
        assert(after.in_grid(x, y));
        assert(relax.ensures(
            (before.cell_at(x, y), before.viscosity_value()),
            after.cell_at(x, y),
        ));
    }

    /// Refreshing the outermost ring twice to the same values gives what
    /// refreshing it once gives.
    pub proof fn lemma_refresh_idempotent(before: Self, once: Self, twice: Self, free: Cell<T>)
        requires
            once.refreshes(before, free),
            twice.refreshes(once, free),
        ensures
            twice.same_state(once),
            twice.refreshes(before, free),
    {
        assert forall|x: int, y: int| twice.in_grid(x, y) implies #[trigger] twice.cell_at(x, y)
            == once.cell_at(x, y) by {
            assert(once.in_grid(x, y));
        }
        assert forall|x: int, y: int| twice.in_grid(x, y) implies #[trigger] twice.is_barrier(x, y)
            == before.is_barrier(x, y) && twice.curl_at(x, y) == before.curl_at(x, y) by {
            assert(once.in_grid(x, y));
            assert(once.is_barrier(x, y) == before.is_barrier(x, y));
            assert(once.curl_at(x, y) == before.curl_at(x, y));
        }
    }
}

impl<T: Copy> Simulation<T> {
    /// The barrier flags of all cells, row by row: cell `(x, y)` stands at
    /// position `x + y * width`.
    pub fn barrier_field(&self) -> (flags: &Vec<bool>)
        requires
            self.wf(),
        ensures
            flags@.len() == self.width() * self.height(),
            forall|x: int, y: int|
                self.in_grid(x, y) ==> flags@[cell_index(x, y, self.width())]
                    == #[trigger] self.is_barrier(x, y),
    {
        &self.barrier
    }

    /// The curl values of all cells, row by row: cell `(x, y)` stands at
    /// position `x + y * width`.
    pub fn curl_field(&self) -> (values: &Vec<T>)
        requires
            self.wf(),
        ensures
            values@.len() == self.width() * self.height(),
            forall|x: int, y: int|
                self.in_grid(x, y) ==> values@[cell_index(x, y, self.width())]
                    == #[trigger] self.curl_at(x, y),
    {
        &self.curl
    }
}

/// Half the height of the wall that `initial_barrier` builds.
pub const BARRIER_SIZE: u64 = 8;

/// `(x, y)` lies on the wall that `initial_barrier` builds for a scene of
/// height `y_dim`: in column `y_dim / 3`, from eight rows under the middle
/// row `y_dim / 2` up to the row before eight rows over it.
pub open spec fn on_initial_wall(x: int, y: int, y_dim: int) -> bool {
    x == y_dim / 3 && y_dim / 2 - BARRIER_SIZE <= y < y_dim / 2 + BARRIER_SIZE
}

/// Builds the wall of the opening scene: every cell of it that may hold a
/// barrier becomes solid, nothing else changes.
pub fn initial_barrier<T: Copy>(simulation: &mut Simulation<T>, y_dim: u64)
    requires
        old(simulation).wf(),
        y_dim / 2 >= BARRIER_SIZE,
        y_dim / 2 + BARRIER_SIZE <= u64::MAX,
    ensures
        final(simulation).wf(),
        final(simulation).same_settings(*old(simulation)),
        final(simulation).same_curl(*old(simulation)),
        final(simulation).same_fluid(*old(simulation)),
        forall|a: int, b: int|
            final(simulation).in_grid(a, b) ==> #[trigger] final(simulation).is_barrier(a, b) == (
            old(simulation).is_barrier(a, b) || (on_initial_wall(a, b, y_dim as int) && old(
                simulation,
            ).may_hold_barrier(a, b))),
{
    let x = y_dim / 3;
    let y_mid = y_dim / 2;
    let mut y: u64 = y_mid - BARRIER_SIZE;
    while y < y_mid + BARRIER_SIZE
        invariant
            x == y_dim / 3,
            y_mid == y_dim / 2,
            y_mid >= BARRIER_SIZE,
            y_mid + BARRIER_SIZE <= u64::MAX,
            y_mid - BARRIER_SIZE <= y <= y_mid + BARRIER_SIZE,
            simulation.wf(),
            simulation.same_settings(*old(simulation)),
            simulation.same_curl(*old(simulation)),
            simulation.same_fluid(*old(simulation)),
            forall|a: int, b: int|
                simulation.in_grid(a, b) ==> #[trigger] simulation.is_barrier(a, b) == (old(
                    simulation,
                ).is_barrier(a, b) || (on_initial_wall(a, b, y_dim as int) && b < y && old(
                    simulation,
                ).may_hold_barrier(a, b))),
        decreases y_mid + BARRIER_SIZE - y,
    {
        let ghost before = *simulation;
        simulation.add_barrier(x, y);
        proof {
            assert forall|a: int, b: int| simulation.in_grid(a, b) implies (
            #[trigger] simulation.is_barrier(a, b)) == (old(simulation).is_barrier(a, b) || (
            on_initial_wall(a, b, y_dim as int) && b < y + 1 && old(simulation).may_hold_barrier(
                a,
                b,
            ))) by {
                assert(before.in_grid(a, b));
                assert(before.is_barrier(a, b) == (old(simulation).is_barrier(a, b) || (
                on_initial_wall(a, b, y_dim as int) && b < y && old(simulation).may_hold_barrier(
                    a,
                    b,
                ))));
            }
        }
        y += 1;
    }
}

} // verus!

//! The state of the blaze: the fire, the smoke that rises from it, and the
//! pair of them advanced together.

pub mod fire_state;
pub mod smoke_state;

pub use self::fire_state::{FireLayer, FireState};
pub use self::smoke_state::{SmokeLayer, SmokeState};

use self::fire_state::{FireCell, FireGrid};
use self::smoke_state::{Drift, SmokeCell, SmokeGrid};
use crate::layers::{grids_of, topmost, Compositor, IntermediateLayer, Layerable};
use vstd::prelude::*;

verus! {

/// The blaze as the contracts see it: its size, its fire and its smoke.
pub struct CombustionGrid {
    pub rows: nat,
    pub cols: nat,
    pub fire: FireGrid,
    pub smoke: SmokeGrid,
}

impl CombustionGrid {
    /// Whether the blaze is well formed: its fire and its smoke are, and
    /// both have the size of the blaze.
    pub open spec fn wf(self) -> bool {
        &&& self.fire.wf()
        &&& self.smoke.wf()
        &&& self.fire.rows == self.rows
        &&& self.fire.cols == self.cols
        &&& self.smoke.rows == self.rows
        &&& self.smoke.cols == self.cols
    }

    /// Whether `(r, c)` is a cell of the grid.
    pub open spec fn has(self, r: int, c: int) -> bool {
        0 <= r < self.rows && 0 <= c < self.cols
    }
}

/// Whether a cell with `fire` and `smoke` in it may show as `glyph`: as its
/// smoke, if it holds any, else as its fire.
pub open spec fn shows_through(fire: FireCell, smoke: SmokeCell, glyph: Option<Seq<char>>) -> bool {
    if smoke is Smoky {
        smoke.shows(glyph)
    } else {
        fire.shows(glyph)
    }
}

/// The blaze: a fire and the smoke over it, of one size, that advance
/// together.
pub struct CombustionState {
    rows: usize,
    cols: usize,
    fire_state: FireState,
    smoke_state: SmokeState,
}

impl View for CombustionState {
    type V = CombustionGrid;

    closed spec fn view(&self) -> CombustionGrid {
        CombustionGrid {
            rows: self.rows as nat,
            cols: self.cols as nat,
            fire: self.fire_state@,
            smoke: self.smoke_state@,
        }
    }
}

impl CombustionState {
    /// Whether the state is well formed: see [`CombustionGrid::wf`].
    pub open spec fn wf(&self) -> bool {
        self@.wf()
    }

    /// A grid of `rows` by `cols` cells in which nothing burns and no smoke
    /// hangs.
    pub fn new(rows: usize, cols: usize) -> (state: Self)
        requires
            rows * cols <= usize::MAX,
        ensures
            state.wf(),
            state@.rows == rows,
            state@.cols == cols,
            state@.fire.n_fires == 0,
            state@.fire.all_unlit(),
            state@.smoke.all_clear(),
    {
        let fire_state = FireState::new(rows, cols);
        let smoke_state = SmokeState::new(rows, cols);
        CombustionState { rows, cols, fire_state, smoke_state }
    }

    /// The fire.
    pub fn fire_state(&self) -> (fire_state: &FireState)
        ensures
            fire_state@ == self@.fire,
    {
        &self.fire_state
    }

    /// The smoke.
    pub fn smoke_state(&self) -> (smoke_state: &SmokeState)
        ensures
            smoke_state@ == self@.smoke,
    {
        &self.smoke_state
    }

    /// Starts the fire, as [`FireState::start_fire`] does: one cell of the
    /// bottom row, in a column drawn at random, is set alight. This is for a
    /// grid in which nothing has caught fire yet. The smoke stays as it is.
    pub fn start_fire(&mut self)
        requires
            old(self).wf(),
            old(self)@.rows > 0,
            old(self)@.cols > 0,
            old(self)@.fire.n_fires == 0,
        ensures
            final(self).wf(),
            final(self)@.rows == old(self)@.rows,
            final(self)@.cols == old(self)@.cols,
            final(self)@.smoke == old(self)@.smoke,
            final(self)@.fire.n_fires == 1,
            exists|col: int, ttl: usize| #[trigger]
                old(self)@.fire.starts_to(final(self)@.fire, col, ttl),
    {
        self.fire_state.start_fire();
    }

    /// The blaze one tick later: first the fire advances, as
    /// [`FireState::get_next`] says, then the smoke over the fire as it is
    /// by then, as [`SmokeState::get_next`] says.
    pub fn get_next(&self) -> (next: Self)
        requires
            self.wf(),
        ensures
            next.wf(),
            next@.rows == self@.rows,
            next@.cols == self@.cols,
            self@.fire.steps_to(next@.fire),
            next@.fire.n_fires >= self@.fire.n_fires,
            exists|drift: Drift|
                {
                    &&& #[trigger] self@.smoke.drifts_to(next@.fire, drift, next@.smoke)
                    &&& next@.smoke.total_volume() + drift.lost() == self@.smoke.total_volume()
                        + drift.spawned()
                },
    {
        let next_fire_state = self.fire_state.get_next();
        let next_smoke_state = self.smoke_state.get_next(&next_fire_state);
        let ghost drift = choose|drift: Drift|
            {
                &&& #[trigger] self.smoke_state@.drifts_to(
                    next_fire_state@,
                    drift,
                    next_smoke_state@,
                )
                &&& next_smoke_state@.total_volume() + drift.lost()
                    == self.smoke_state@.total_volume() + drift.spawned()
            };
        let next = CombustionState {
            rows: self.rows,
            cols: self.cols,
            fire_state: next_fire_state,
            smoke_state: next_smoke_state,
        };
        assert(self@.smoke.drifts_to(next@.fire, drift, next@.smoke));
        next
    }

    /// The blaze as one layer, this time: the smoke over the fire. A cell
    /// with smoke in it shows its smoke, any other cell its fire.
    pub fn as_layer(&self) -> (layer: IntermediateLayer)
        requires
            self.wf(),
        ensures
            layer.grid().rows == self@.rows,
            layer.grid().cols == self@.cols,
            layer.grid().full(),
            forall|r: int, c: int|
                self@.has(r, c) ==> shows_through(
                    self@.fire.cells[r][c],
                    self@.smoke.cells[r][c],
                    #[trigger] layer.grid().cells[r][c],
                ),
    {
        let compositor = Compositor { rows: self.rows, cols: self.cols };
        let fire_layer = self.fire_state.as_layer();
        let smoke_layer = self.smoke_state.as_layer();
        let layers: Vec<&dyn Layerable> = vec![&fire_layer, &smoke_layer];
        let ghost grids = grids_of(layers@);
        assert(grids[0] == fire_layer.grid());
        assert(grids[1] == smoke_layer.grid());
        let layer = compositor.intermediate_composite(layers.as_slice());
        assert forall|r: int, c: int| self@.has(r, c) implies shows_through(
            self@.fire.cells[r][c],
            self@.smoke.cells[r][c],
            #[trigger] layer.grid().cells[r][c],
        ) by {
            reveal_with_fuel(topmost, 3);
            assert(grids.drop_last().last() == fire_layer.grid());
            assert(layer.grid().cells[r][c] == topmost(grids, r, c));
            assert(self@.smoke.cells[r].len() == self@.cols);
            assert(self@.fire.cells[r].len() == self@.cols);
            assert(self@.smoke.cells[r][c].shows(smoke_layer.grid().cells[r][c]));
            assert(self@.fire.cells[r][c].shows(fire_layer.grid().cells[r][c]));
        }
        layer
    }

    /// Whether the fire has all but burned the grid, as
    /// [`FireState::is_saturated`] says.
    pub fn is_saturated(&self) -> (saturated: bool)
        requires
            self.wf(),
        ensures
            saturated == self@.fire.saturated(),
    {
        self.fire_state.is_saturated()
    }
}

} // verus!

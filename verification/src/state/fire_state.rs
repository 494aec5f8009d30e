//! The fire: a grid of cells that catch fire from their neighbours, burn for
//! a while and fall to ash.

use crate::chance::{pick_one, random_usize, sample_range, weighted_flip};
use crate::layers::{glyph_view, glyphs_of, LayerGrid, Layerable};
use crate::paint::{paint, painted};
use crate::tally::{
    lemma_sum_bounded, lemma_sum_monotone, lemma_sum_update, lemma_sum_zero, sum,
};
use vstd::prelude::*;

verus! {

/// What a burning cell may look like.
pub const FIRE_GLYPHS: [char; 6] = ['%', '*', ',', 'W', 'Y', '^'];

/// What a cell may leave behind: mostly nothing, now and then a speck.
pub const ASH_GLYPHS: [char; 7] = ['.', ' ', ' ', ' ', ' ', ' ', ' '];

/// The colours of a burning cell, each as red, green and blue.
pub const FIRE_COLORS: [(u8, u8, u8); 5] = [
    (232, 81, 44),
    (198, 46, 7),
    (247, 39, 67),
    (255, 134, 5),
    (255, 72, 48),
];

/// The colour of ash, as red, green and blue.
pub const ASH_COLOR: (u8, u8, u8) = (100, 100, 100);

/// An unlit cell catches fire from one burning neighbour with a chance of one
/// in this many.
pub const SPREAD_ODDS: u32 = 7;

/// A cell that catches fire burns for at least this many further ticks.
pub const TTL_LOW: usize = 3;

/// A cell that catches fire burns for fewer than this many further ticks.
pub const TTL_HIGH: usize = 26;

/// One cell of the fire. A cell only ever moves forward: from `Unlit` to
/// `Lit`, from `Lit` to `Extinguished`.
#[derive(Clone, Copy, Debug, PartialEq, Eq, Structural)]
pub enum FireCell {
    /// Never burned.
    Unlit,
    /// Burning, for `ttl` further ticks.
    Lit { ttl: usize },
    /// Burned out; `glyph` is the ash it left.
    Extinguished { glyph: char },
}

impl FireCell {
    /// One for a cell that burns or has burned, zero for an unlit one.
    pub open spec fn burnt(self) -> nat {
        if self is Unlit {
            0
        } else {
            1
        }
    }

    /// One for a cell that burns now, zero for any other.
    pub open spec fn alight(self) -> nat {
        if self is Lit {
            1
        } else {
            0
        }
    }

    /// Whether the cell may show as `glyph`: an unlit cell as nothing, a
    /// burning cell as any of [`FIRE_GLYPHS`] in any of [`FIRE_COLORS`], ash
    /// as its own glyph in [`ASH_COLOR`].
    pub open spec fn shows(self, glyph: Option<Seq<char>>) -> bool {
        match self {
            FireCell::Unlit => glyph is None,
            FireCell::Lit { .. } => exists|flame: char, color: (u8, u8, u8)|
                FIRE_GLYPHS@.contains(flame) && FIRE_COLORS@.contains(color) && glyph == Some(
                    #[trigger] painted(color, flame),
                ),
            FireCell::Extinguished { glyph: ash } => glyph == Some(painted(ASH_COLOR, ash)),
        }
    }

}

impl From<FireCell> for Option<String> {
    /// What the cell shows, this time: a burning cell flickers, its glyph
    /// and its colour drawn anew with every call.
    fn from(fire_cell: FireCell) -> (glyph: Option<String>)
        ensures
            fire_cell.shows(glyph_view(glyph)),
    {
        match fire_cell {
            FireCell::Unlit => None,
            FireCell::Lit { .. } => {
                let flame: char = pick_one(FIRE_GLYPHS.as_slice()).unwrap();
                let color: (u8, u8, u8) = pick_one(FIRE_COLORS.as_slice()).unwrap();
                let text = paint(color, flame);
                assert(text@ == painted(color, flame));
                Some(text)
            },
            FireCell::Extinguished { glyph } => Some(paint(ASH_COLOR, glyph)),
        }
    }
}

impl vstd::std_specs::convert::FromSpecImpl<FireCell> for Option<String> {
    /// The dice have a say in what a cell shows: no function gives it.
    open spec fn obeys_from_spec() -> bool {
        false
    }

    open spec fn from_spec(fire_cell: FireCell) -> Option<String> {
        arbitrary()
    }
}

/// Whether `glyph` is one of [`ASH_GLYPHS`].
pub open spec fn is_ash_glyph(glyph: char) -> bool {
    ASH_GLYPHS@.contains(glyph)
}

/// Whether `next` may be what `cell` is one tick later, where
/// `lit_neighbors` of the cells next to it burn.
///
/// An unlit cell stays unlit, or, if a neighbour burns, catches fire with a
/// time to live from `TTL_LOW` up to, not including, `TTL_HIGH`. A burning
/// cell counts down, and falls to ash once its time is up. Ash stays.
pub open spec fn cell_follows(cell: FireCell, lit_neighbors: nat, next: FireCell) -> bool {
    match cell {
        FireCell::Unlit => {
            ||| next is Unlit
            ||| lit_neighbors > 0 && next is Lit && TTL_LOW <= next->ttl < TTL_HIGH
        },
        FireCell::Lit { ttl } => if ttl == 0 {
            next is Extinguished && is_ash_glyph(next->glyph)
        } else {
            next == (FireCell::Lit { ttl: (ttl - 1) as usize })
        },
        FireCell::Extinguished { .. } => next == cell,
    }
}

/// For each cell of `row`, one if it burns or has burned, else zero.
pub open spec fn burnt_marks(row: Seq<FireCell>) -> Seq<nat> {
    Seq::new(row.len(), |c: int| row[c].burnt())
}

/// For each row of `cells`, how many of its cells burn or have burned.
pub open spec fn burnt_by_row(cells: Seq<Seq<FireCell>>) -> Seq<nat> {
    Seq::new(cells.len(), |r: int| sum(burnt_marks(cells[r])))
}

/// How many cells of `cells` burn or have burned.
pub open spec fn grid_burnt(cells: Seq<Seq<FireCell>>) -> nat {
    sum(burnt_by_row(cells))
}

/// The four cells next to one cell; where the grid ends, `Unlit` stands in.
#[derive(Clone, Copy, Debug, PartialEq, Eq, Structural)]
pub struct Neighbors {
    pub row: usize,
    pub col: usize,
    pub top: FireCell,
    pub right: FireCell,
    pub bottom: FireCell,
    pub left: FireCell,
}

impl Neighbors {
    /// How many of the four burn.
    pub open spec fn lit_count(self) -> nat {
        self.top.alight() + self.right.alight() + self.bottom.alight() + self.left.alight()
    }

    /// How many of the four burn.
    pub fn n_fires(&self) -> (count: usize)
        ensures
            count == self.lit_count(),
    {
        let mut count: usize = 0;
        if let FireCell::Lit { .. } = self.top {
            count += 1;
        }
        if let FireCell::Lit { .. } = self.right {
            count += 1;
        }
        if let FireCell::Lit { .. } = self.bottom {
            count += 1;
        }
        if let FireCell::Lit { .. } = self.left {
            count += 1;
        }
        count
    }

    /// Whether any of the four burns.
    pub fn fire_in_neighborhood(&self) -> (any: bool)
        ensures
            any == (self.lit_count() > 0),
    {
        self.n_fires() > 0
    }
}

/// The fire as the contracts see it: its size, its cells row by row, and the
/// count of cells that burn or have burned.
pub struct FireGrid {
    pub rows: nat,
    pub cols: nat,
    pub cells: Seq<Seq<FireCell>>,
    pub n_fires: nat,
}

impl FireGrid {
    /// Whether there are `rows` rows of `cols` cells, few enough to count.
    pub open spec fn shaped(self) -> bool {
        &&& self.cells.len() == self.rows
        &&& forall|r: int| 0 <= r < self.rows ==> (#[trigger] self.cells[r]).len() == self.cols
        &&& self.rows * self.cols <= usize::MAX
    }

    /// Whether the grid is well formed: it has its shape, and `n_fires` is
    /// the number of cells that are not `Unlit`.
    pub open spec fn wf(self) -> bool {
        &&& self.shaped()
        &&& self.n_fires == grid_burnt(self.cells)
    }

    /// Whether `(r, c)` is a cell of the grid.
    pub open spec fn has(self, r: int, c: int) -> bool {
        0 <= r < self.rows && 0 <= c < self.cols
    }

    /// The cell at `(r, c)`, with `Unlit` standing in beyond the grid.
    pub open spec fn cell_or_unlit(self, r: int, c: int) -> FireCell {
        if self.has(r, c) {
            self.cells[r][c]
        } else {
            FireCell::Unlit
        }
    }

    /// The four cells next to `(r, c)`.
    pub open spec fn neighbors(self, r: int, c: int) -> Neighbors {
        Neighbors {
            row: r as usize,
            col: c as usize,
            top: self.cell_or_unlit(r - 1, c),
            right: self.cell_or_unlit(r, c + 1),
            bottom: self.cell_or_unlit(r + 1, c),
            left: self.cell_or_unlit(r, c - 1),
        }
    }

    /// How many of the four cells next to `(r, c)` burn.
    pub open spec fn lit_neighbors(self, r: int, c: int) -> nat {
        self.neighbors(r, c).lit_count()
    }

    /// Whether no cell has caught fire yet.
    pub open spec fn all_unlit(self) -> bool {
        forall|r: int, c: int| self.has(r, c) ==> (#[trigger] self.cells[r][c]) is Unlit
    }

    /// Whether the cell at `(r, c)` burns and every other cell is unlit.
    pub open spec fn only_fire_at(self, r: int, c: int) -> bool {
        forall|i: int, j: int|
            self.has(i, j) ==> {
                &&& (#[trigger] self.cells[i][j]) is Lit <==> i == r && j == c
                &&& self.cells[i][j] is Unlit <==> !(i == r && j == c)
            }
    }

    /// The grid with the cell at `(r, c)` set alight for `ttl` ticks, and
    /// counted.
    pub open spec fn ignite(self, r: int, c: int, ttl: usize) -> FireGrid {
        FireGrid {
            cells: self.cells.update(r, self.cells[r].update(c, FireCell::Lit { ttl })),
            n_fires: self.n_fires + 1,
            ..self
        }
    }

    /// Whether `after` is this grid with the fire started: the cell in
    /// column `col` of the bottom row set alight for `ttl` ticks, a time to
    /// live within its limits, and no other cell burning or burned.
    pub open spec fn starts_to(self, after: FireGrid, col: int, ttl: usize) -> bool {
        &&& 0 <= col < self.cols
        &&& TTL_LOW <= ttl < TTL_HIGH
        &&& after == self.ignite(self.rows - 1, col, ttl)
        &&& after.only_fire_at(self.rows - 1, col)
    }

    /// Whether `next` may be this grid one tick later: it has the same size,
    /// is well formed, and each of its cells follows from the cell at its
    /// place and from that cell's neighbours in this grid.
    pub open spec fn steps_to(self, next: FireGrid) -> bool {
        &&& next.rows == self.rows
        &&& next.cols == self.cols
        &&& next.wf()
        &&& forall|r: int, c: int|
            self.has(r, c) ==> cell_follows(
                self.cells[r][c],
                self.lit_neighbors(r, c),
                #[trigger] next.cells[r][c],
            )
    }

    /// Whether `layer` may be what the fire shows: it declares the size of
    /// the fire and holds a cell for each cell of the fire, which shows what
    /// that cell may show.
    pub open spec fn shown_by(self, layer: LayerGrid) -> bool {
        &&& layer.rows == self.rows
        &&& layer.cols == self.cols
        &&& layer.cells.len() == self.cells.len()
        &&& forall|r: int|
            0 <= r < self.cells.len() ==> (#[trigger] layer.cells[r]).len() == self.cells[r].len()
        &&& forall|r: int, c: int|
            0 <= r < self.cells.len() && 0 <= c < self.cells[r].len() ==> self.cells[r][c].shows(
                #[trigger] layer.cells[r][c],
            )
    }

    /// Whether more than 99 in 100 cells burn or have burned.
    pub open spec fn saturated(self) -> bool {
        100 * self.n_fires > 99 * (self.rows * self.cols)
    }
}

/// Replacing a cell changes the count of its row by the difference.
pub proof fn lemma_row_burnt_update(row: Seq<FireCell>, c: int, cell: FireCell)
    requires
        0 <= c < row.len(),
    ensures
        sum(burnt_marks(row.update(c, cell))) + row[c].burnt() == sum(burnt_marks(row))
            + cell.burnt(),
{
    assert(burnt_marks(row.update(c, cell)) =~= burnt_marks(row).update(c, cell.burnt()));
    lemma_sum_update(burnt_marks(row), c, cell.burnt());
}

/// Replacing a cell changes the count of the grid by the difference.
pub proof fn lemma_grid_burnt_update(cells: Seq<Seq<FireCell>>, r: int, c: int, cell: FireCell)
    requires
        0 <= r < cells.len(),
        0 <= c < cells[r].len(),
    ensures
        grid_burnt(cells.update(r, cells[r].update(c, cell))) + cells[r][c].burnt() == grid_burnt(
            cells,
        ) + cell.burnt(),
{
    let row = cells[r].update(c, cell);
    lemma_row_burnt_update(cells[r], c, cell);
    assert(burnt_by_row(cells.update(r, row)) =~= burnt_by_row(cells).update(
        r,
        sum(burnt_marks(row)),
    ));
    lemma_sum_update(burnt_by_row(cells), r, sum(burnt_marks(row)));
}

/// No more cells burn or have burned than there are.
pub proof fn lemma_burnt_bounded(grid: FireGrid)
    requires
        grid.shaped(),
    ensures
        grid_burnt(grid.cells) <= grid.rows * grid.cols,
{
    assert forall|r: int| 0 <= r < burnt_by_row(grid.cells).len() implies burnt_by_row(
        grid.cells,
    )[r] <= grid.cols by {
        lemma_sum_bounded(burnt_marks(grid.cells[r]), 1);
    }
    lemma_sum_bounded(burnt_by_row(grid.cells), grid.cols);
}

/// The count is zero exactly when every cell is unlit.
pub proof fn lemma_burnt_zero(grid: FireGrid)
    requires
        grid.shaped(),
    ensures
        grid_burnt(grid.cells) == 0 <==> grid.all_unlit(),
{
    lemma_sum_zero(burnt_by_row(grid.cells));
    if grid_burnt(grid.cells) == 0 {
        assert forall|r: int, c: int| grid.has(r, c) implies (#[trigger] grid.cells[r][c]) is Unlit by {
            assert(burnt_by_row(grid.cells)[r] == 0);
            lemma_sum_zero(burnt_marks(grid.cells[r]));
            assert(burnt_marks(grid.cells[r])[c] == 0);
        }
    }
    if grid.all_unlit() {
        assert forall|r: int| 0 <= r < burnt_by_row(grid.cells).len() implies burnt_by_row(
            grid.cells,
        )[r] == 0 by {
            lemma_sum_zero(burnt_marks(grid.cells[r]));
            assert forall|c: int| 0 <= c < burnt_marks(grid.cells[r]).len() implies burnt_marks(
                grid.cells[r],
            )[c] == 0 by {
                assert(grid.cells[r][c] is Unlit);
            }
        }
    }
}

/// Setting an unlit cell alight keeps the grid well formed.
pub proof fn lemma_ignite_wf(grid: FireGrid, r: int, c: int, ttl: usize)
    requires
        grid.wf(),
        grid.has(r, c),
        grid.cells[r][c] is Unlit,
    ensures
        grid.ignite(r, c, ttl).wf(),
        grid.n_fires < grid.rows * grid.cols,
{
    let after = grid.ignite(r, c, ttl);
    lemma_grid_burnt_update(grid.cells, r, c, FireCell::Lit { ttl });
    assert(after.shaped());
    lemma_burnt_bounded(after);
}

/// Where every cell that burns or has burned in `before` still does in
/// `after`, `after` counts at least as many.
pub proof fn lemma_burnt_monotone(before: FireGrid, after: FireGrid)
    requires
        before.shaped(),
        after.shaped(),
        before.rows == after.rows,
        before.cols == after.cols,
        forall|r: int, c: int|
            before.has(r, c) ==> before.cells[r][c].burnt() <= (
            #[trigger] after.cells[r][c]).burnt(),
    ensures
        grid_burnt(before.cells) <= grid_burnt(after.cells),
{
    assert forall|r: int| 0 <= r < before.rows implies burnt_by_row(before.cells)[r]
        <= burnt_by_row(after.cells)[r] by {
        assert forall|c: int| 0 <= c < before.cols implies burnt_marks(before.cells[r])[c]
            <= burnt_marks(after.cells[r])[c] by {
            assert(before.has(r, c));
            assert(before.cells[r][c].burnt() <= after.cells[r][c].burnt());
        }
        lemma_sum_monotone(burnt_marks(before.cells[r]), burnt_marks(after.cells[r]));
    }
    lemma_sum_monotone(burnt_by_row(before.cells), burnt_by_row(after.cells));
}

/// A tick never lowers the count: in whatever grid follows `before` by
/// [`FireGrid::steps_to`], at least as many cells burn or have burned, for no
/// cell goes back to unlit.
pub proof fn lemma_step_never_recedes(before: FireGrid, after: FireGrid)
    requires
        before.wf(),
        before.steps_to(after),
    ensures
        after.n_fires >= before.n_fires,
        forall|r: int, c: int|
            before.has(r, c) && !(before.cells[r][c] is Unlit) ==> !((
            #[trigger] after.cells[r][c]) is Unlit),
{
    assert forall|r: int, c: int| before.has(r, c) implies before.cells[r][c].burnt() <= (
    #[trigger] after.cells[r][c]).burnt() by {
        assert(cell_follows(before.cells[r][c], before.lit_neighbors(r, c), after.cells[r][c]));
    }
    lemma_burnt_monotone(before, after);
}

/// The cells of the rows of `features`.
pub open spec fn cells_of(features: Seq<Vec<FireCell>>) -> Seq<Seq<FireCell>> {
    Seq::new(features.len(), |r: int| features[r]@)
}

/// The fire: `rows` rows of `cols` cells, and the count of cells that burn or
/// have burned.
pub struct FireState {
    rows: usize,
    cols: usize,
    features: Vec<Vec<FireCell>>,
    n_fires: usize,
}

impl View for FireState {
    type V = FireGrid;

    closed spec fn view(&self) -> FireGrid {
        FireGrid {
            rows: self.rows as nat,
            cols: self.cols as nat,
            cells: cells_of(self.features@),
            n_fires: self.n_fires as nat,
        }
    }
}

impl Clone for FireState {
    fn clone(&self) -> (copy: Self)
        ensures
            copy@ == self@,
    {
        let copy = FireState {
            rows: self.rows,
            cols: self.cols,
            features: self.features.clone(),
            n_fires: self.n_fires,
        };
        assert(cells_of(copy.features@) =~= cells_of(self.features@));
        copy
    }
}

impl FireState {
    /// Whether the state is well formed: see [`FireGrid::wf`].
    pub open spec fn wf(&self) -> bool {
        self@.wf()
    }

    /// A fire of `rows` by `cols` cells in which nothing burns yet.
    pub fn new(rows: usize, cols: usize) -> (state: Self)
        requires
            rows * cols <= usize::MAX,
        ensures
            state.wf(),
            state@.rows == rows,
            state@.cols == cols,
            state@.n_fires == 0,
            state@.all_unlit(),
    {
        let features: Vec<Vec<FireCell>> = vec![vec![FireCell::Unlit; cols]; rows];
        let state = FireState { rows, cols, features, n_fires: 0 };
        proof {
            assert(state@.shaped());
            assert(state@.all_unlit());
            lemma_burnt_zero(state@);
        }
        state
    }

    /// The number of rows.
    pub fn rows(&self) -> (rows: usize)
        ensures
            rows == self@.rows,
    {
        self.rows
    }

    /// The number of columns.
    pub fn cols(&self) -> (cols: usize)
        ensures
            cols == self@.cols,
    {
        self.cols
    }

    /// The number of cells that burn or have burned.
    pub fn n_fires(&self) -> (n_fires: usize)
        ensures
            n_fires == self@.n_fires,
    {
        self.n_fires
    }

    /// The cells, row by row.
    pub fn features(&self) -> (features: &Vec<Vec<FireCell>>)
        ensures
            cells_of(features@) == self@.cells,
    {
        &self.features
    }

    /// The cell at `(row, col)`.
    pub fn cell(&self, row: usize, col: usize) -> (cell: FireCell)
        requires
            self.wf(),
            self@.has(row as int, col as int),
        ensures
            cell == self@.cells[row as int][col as int],
    {
        self.features[row][col]
    }

    /// Sets the unlit cell at `(row, col)` alight for `ttl` ticks, and counts
    /// it.
    pub fn set_cell_fire(&mut self, row: usize, col: usize, ttl: usize)
        requires
            old(self).wf(),
            old(self)@.has(row as int, col as int),
            old(self)@.cells[row as int][col as int] is Unlit,
        ensures
            final(self).wf(),
            final(self)@ == old(self)@.ignite(row as int, col as int, ttl),
    {
        proof {
            lemma_ignite_wf(self@, row as int, col as int, ttl);
            assert(self@.rows * self@.cols <= usize::MAX);
        }
        self.features[row][col] = FireCell::Lit { ttl };
        self.n_fires += 1;
        assert(self@.cells =~= old(self)@.ignite(row as int, col as int, ttl).cells);
    }

    /// Starts the fire: sets one cell of the bottom row alight, in a column
    /// drawn at random, for a time to live drawn at random. This is for a
    /// grid in which nothing has caught fire yet.
    ///
    /// Afterwards exactly that one cell burns, every other cell is unlit, and
    /// one cell is counted.
    pub fn start_fire(&mut self)
        requires
            old(self).wf(),
            old(self)@.rows > 0,
            old(self)@.cols > 0,
            old(self)@.n_fires == 0,
        ensures
            final(self).wf(),
            final(self)@.n_fires == 1,
            exists|col: int, ttl: usize| #[trigger] old(self)@.starts_to(final(self)@, col, ttl),
    {
        let row_ix: usize = self.rows - 1;
        let col_ix: usize = random_usize() % self.cols;
        let ttl: usize = sample_range(TTL_LOW, TTL_HIGH);
        proof {
            lemma_burnt_zero(self@);
            assert(self@.has(row_ix as int, col_ix as int));
        }
        self.set_cell_fire(row_ix, col_ix, ttl);
        proof {
            let before = old(self)@;
            let after = self@;
            assert(after == before.ignite(row_ix as int, col_ix as int, ttl));
            assert forall|r: int, c: int| after.has(r, c) implies (#[trigger] after.cells[r][c]
                is Lit <==> r == row_ix && c == col_ix) && (after.cells[r][c] is Unlit <==> !(r
                == row_ix && c == col_ix)) by {
                assert(before.has(r, c));
                assert(before.cells[r][c] is Unlit);
            }
            assert(before.starts_to(after, col_ix as int, ttl));
        }
    }

    /// The four cells next to `(row, col)`.
    pub fn get_neighbors(&self, row: usize, col: usize) -> (neighbors: Neighbors)
        requires
            self.wf(),
            self@.has(row as int, col as int),
        ensures
            neighbors == self@.neighbors(row as int, col as int),
    {
        Neighbors {
            row,
            col,
            top: if row == 0 {
                FireCell::Unlit
            } else {
                self.features[row - 1][col]
            },
            right: if col + 1 == self.cols {
                FireCell::Unlit
            } else {
                self.features[row][col + 1]
            },
            bottom: if row + 1 == self.rows {
                FireCell::Unlit
            } else {
                self.features[row + 1][col]
            },
            left: if col == 0 {
                FireCell::Unlit
            } else {
                self.features[row][col - 1]
            },
        }
    }

    /// Puts `cell` in the place of the cell at `(row, col)`, where both burn
    /// or have burned, so that the count stands.
    fn put(&mut self, row: usize, col: usize, cell: FireCell)
        requires
            old(self).wf(),
            old(self)@.has(row as int, col as int),
            !(old(self)@.cells[row as int][col as int] is Unlit),
            !(cell is Unlit),
        ensures
            final(self).wf(),
            final(self)@ == (FireGrid {
                cells: old(self)@.cells.update(
                    row as int,
                    old(self)@.cells[row as int].update(col as int, cell),
                ),
                ..old(self)@
            }),
    {
        proof {
            lemma_grid_burnt_update(self@.cells, row as int, col as int, cell);
        }
        self.features[row][col] = cell;
        assert(self@.cells =~= old(self)@.cells.update(
            row as int,
            old(self)@.cells[row as int].update(col as int, cell),
        ));
    }

    /// The fire one tick later. The dice decide which unlit cells next to a
    /// burning one catch fire, for how long they will burn, and what ash a
    /// cell leaves; whatever they give, the result follows from this state
    /// cell by cell as [`cell_follows`] says.
    ///
    /// In particular: no fewer cells burn or have burned than before; a cell
    /// that burns with no time left is ash; an unlit cell with no burning
    /// neighbour stays unlit; and no cell goes back to unlit.
    pub fn get_next(&self) -> (next: Self)
        requires
            self.wf(),
        ensures
            next.wf(),
            self@.steps_to(next@),
            next@.n_fires >= self@.n_fires,
            forall|r: int, c: int|
                self@.has(r, c) && self@.cells[r][c] == (FireCell::Lit { ttl: 0 }) ==> (
                #[trigger] next@.cells[r][c]) is Extinguished,
            forall|r: int, c: int|
                self@.has(r, c) && self@.cells[r][c] is Unlit && self@.lit_neighbors(r, c) == 0
                    ==> (#[trigger] next@.cells[r][c]) is Unlit,
            forall|r: int, c: int|
                self@.has(r, c) && !(self@.cells[r][c] is Unlit) ==> !((
                #[trigger] next@.cells[r][c]) is Unlit),
    {
        let mut next = self.clone();
        let mut i: usize = 0;
        while i < self.rows
            invariant
                self.wf(),
                next.wf(),
                i <= self.rows,
                next@.rows == self@.rows,
                next@.cols == self@.cols,
                next@.n_fires >= self@.n_fires,
                forall|r: int, c: int|
                    self@.has(r, c) && r < i ==> cell_follows(
                        self@.cells[r][c],
                        self@.lit_neighbors(r, c),
                        #[trigger] next@.cells[r][c],
                    ),
                forall|r: int, c: int|
                    self@.has(r, c) && r >= i ==> (#[trigger] next@.cells[r][c])
                        == self@.cells[r][c],
            decreases self.rows - i,
        {
            let mut j: usize = 0;
            while j < self.cols
                invariant
                    self.wf(),
                    next.wf(),
                    i < self.rows,
                    j <= self.cols,
                    next@.rows == self@.rows,
                    next@.cols == self@.cols,
                    next@.n_fires >= self@.n_fires,
                    forall|r: int, c: int|
                        self@.has(r, c) && (r < i || (r == i && c < j)) ==> cell_follows(
                            self@.cells[r][c],
                            self@.lit_neighbors(r, c),
                            #[trigger] next@.cells[r][c],
                        ),
                    forall|r: int, c: int|
                        self@.has(r, c) && (r > i || (r == i && c >= j)) ==> (
                        #[trigger] next@.cells[r][c]) == self@.cells[r][c],
                decreases self.cols - j,
            {
                let cell: FireCell = self.features[i][j];
                let ghost before = next@;
                assert(self@.has(i as int, j as int));
                assert(next@.cells[i as int][j as int] == cell);
                match cell {
                    FireCell::Unlit => {
                        let neighbors = self.get_neighbors(i, j);
                        let mut tries: usize = neighbors.n_fires();
                        let mut should_combust = false;
                        while tries > 0 && !should_combust
                            invariant
                                should_combust ==> neighbors.lit_count() > 0,
                                tries > 0 ==> neighbors.lit_count() > 0,
                            decreases tries,
                        {
                            tries -= 1;
                            should_combust = weighted_flip(SPREAD_ODDS);
                        }
                        if should_combust {
                            let ttl: usize = sample_range(TTL_LOW, TTL_HIGH);
                            next.set_cell_fire(i, j, ttl);
                        }
                    },
                    FireCell::Lit { ttl } => {
                        let burned = if ttl < 1 {
                            let glyph: char = pick_one(ASH_GLYPHS.as_slice()).unwrap();
                            FireCell::Extinguished { glyph }
                        } else {
                            FireCell::Lit { ttl: ttl - 1 }
                        };
                        next.put(i, j, burned);
                    },
                    FireCell::Extinguished { .. } => {},
                }
                proof {
                    let after = next@;
                    assert(cell_follows(
                        cell,
                        self@.lit_neighbors(i as int, j as int),
                        after.cells[i as int][j as int],
                    ));
                    assert forall|r: int, c: int|
                        self@.has(r, c) && !(r == i && c == j) implies (
                    #[trigger] after.cells[r][c]) == before.cells[r][c] by {}
                }
                j += 1;
            }
            i += 1;
        }
        proof {
            assert forall|r: int, c: int|
                self@.has(r, c) && !(self@.cells[r][c] is Unlit) implies !((
            #[trigger] next@.cells[r][c]) is Unlit) by {
                assert(cell_follows(
                    self@.cells[r][c],
                    self@.lit_neighbors(r, c),
                    next@.cells[r][c],
                ));
            }
        }
        next
    }

    /// The fire as a layer, this time: each cell shows what it may show, a
    /// burning cell with a glyph and a colour drawn anew.
    pub fn as_layer(&self) -> (layer: FireLayer)
        ensures
            self@.shown_by(layer.grid()),
    {
        self.into()
    }

    /// Whether the fire has all but burned the grid: more than 99 in 100
    /// cells burn or have burned.
    pub fn is_saturated(&self) -> (saturated: bool)
        requires
            self.wf(),
        ensures
            saturated == self@.saturated(),
    {
        let burnt: u128 = self.n_fires as u128;
        let cells: u128 = (self.rows * self.cols) as u128;
        100 * burnt > 99 * cells
    }
}

/// What the fire shows, as a layer.
pub struct FireLayer {
    rows: usize,
    cols: usize,
    features: Vec<Vec<Option<String>>>,
}

impl FireLayer {
    /// The layer of a fire of `rows` by `cols` in which nothing burns: it
    /// shows nothing.
    pub fn new(rows: usize, cols: usize) -> (layer: Self)
        ensures
            layer.grid().rows == rows,
            layer.grid().cols == cols,
            layer.grid().full(),
            forall|r: int, c: int|
                0 <= r < rows && 0 <= c < cols ==> (#[trigger] layer.grid().cells[r][c]) is None,
    {
        let features: Vec<Vec<Option<String>>> = vec![vec![None; cols]; rows];
        let layer = FireLayer { rows, cols, features };
        assert forall|r: int, c: int| 0 <= r < rows && 0 <= c < cols implies (
        #[trigger] layer.grid().cells[r][c]) is None by {
            assert(layer.features@[r]@[c] is None);
            assert(layer.grid().cells[r][c] == glyph_view(layer.features@[r]@[c]));
        }
        layer
    }
}

impl<'a> From<&'a FireState> for FireLayer {
    /// What the fire shows, this time: each cell as its conversion to a
    /// glyph gives it.
    fn from(fire_state: &'a FireState) -> (layer: FireLayer)
        ensures
            fire_state@.shown_by(layer.grid()),
    {
        let mut features: Vec<Vec<Option<String>>> = Vec::new();
        let mut i: usize = 0;
        while i < fire_state.features.len()
            invariant
                i <= fire_state.features@.len(),
                features@.len() == i,
                forall|r: int|
                    0 <= r < i ==> (#[trigger] features@[r])@.len()
                        == fire_state.features@[r]@.len(),
                forall|r: int, c: int|
                    0 <= r < i && 0 <= c < fire_state.features@[r]@.len()
                        ==> fire_state.features@[r]@[c].shows(
                        glyph_view(#[trigger] features@[r]@[c]),
                    ),
            decreases fire_state.features@.len() - i,
        {
            let cells = &fire_state.features[i];
            let mut row: Vec<Option<String>> = Vec::new();
            let mut j: usize = 0;
            while j < cells.len()
                invariant
                    j <= cells@.len(),
                    row@.len() == j,
                    forall|c: int| 0 <= c < j ==> cells@[c].shows(glyph_view(#[trigger] row@[c])),
                decreases cells@.len() - j,
            {
                let glyph: Option<String> = cells[j].into();
                row.push(glyph);
                j += 1;
            }
            features.push(row);
            i += 1;
        }
        let layer = FireLayer { features, rows: fire_state.rows, cols: fire_state.cols };
        assert forall|r: int, c: int|
            0 <= r < fire_state@.cells.len() && 0 <= c < fire_state@.cells[r].len()
                implies fire_state@.cells[r][c].shows(#[trigger] layer.grid().cells[r][c]) by {
            assert(layer.grid().cells[r][c] == glyph_view(layer.features@[r]@[c]));
        }
        layer
    }
}

impl<'a> vstd::std_specs::convert::FromSpecImpl<&'a FireState> for FireLayer {
    /// The dice have a say in what the fire shows: no function gives it.
    open spec fn obeys_from_spec() -> bool {
        false
    }

    open spec fn from_spec(fire_state: &'a FireState) -> FireLayer {
        arbitrary()
    }
}

impl Layerable for FireLayer {
    closed spec fn grid(&self) -> LayerGrid {
        LayerGrid {
            rows: self.rows as nat,
            cols: self.cols as nat,
            cells: glyphs_of(self.features@),
        }
    }

    fn rows(&self) -> (rows: usize) {
        self.rows
    }

    fn cols(&self) -> (cols: usize) {
        self.cols
    }

    fn features(&self) -> (features: &Vec<Vec<Option<String>>>) {
        &self.features
    }
}

} // verus!

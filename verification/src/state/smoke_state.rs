//! The smoke: units of it stack in the cells of a grid, rise a row with each
//! tick, drift a column to either side, and leave the grid at its top and
//! its sides. New smoke comes from the cells that burn.

use super::fire_state::{FireCell, FireGrid, FireState};
use crate::chance::{gen_range, pick_one, weighted_flip};
use crate::layers::{glyph_view, glyphs_of, LayerGrid, Layerable};
use crate::paint::{paint, painted};
use crate::tally::{
    lemma_sum_add, lemma_sum_bounded, lemma_sum_covers, lemma_sum_monotone, lemma_sum_shifted_down,
    lemma_sum_shifted_up, lemma_sum_update, lemma_sum_zeros, sum,
};
use vstd::prelude::*;

verus! {

/// What a cell with smoke in it may look like.
pub const SMOKE_GLYPHS: [char; 4] = ['"', '&', '@', '?'];

/// The colours of smoke, each as red, green and blue.
pub const SMOKE_COLORS: [(u8, u8, u8); 4] = [
    (79, 79, 79),
    (140, 133, 133),
    (178, 173, 173),
    (140, 120, 120),
];

/// A burning cell gives off a unit of smoke with a chance of one in this
/// many.
pub const SPAWN_ODDS: u32 = 10;

/// A unit of smoke drifts at least this many columns (to the left, if
/// negative).
pub const DRIFT_LOW: isize = -1;

/// A unit of smoke drifts fewer than this many columns to the right.
pub const DRIFT_HIGH: isize = 2;

/// One cell of the smoke.
#[derive(Clone, Copy, Debug, PartialEq, Eq, Structural)]
pub enum SmokeCell {
    /// No smoke.
    Clear,
    /// `volume` units of smoke, stacked.
    Smoky { volume: usize },
}

impl SmokeCell {
    /// How many units of smoke the cell holds.
    pub open spec fn units(self) -> nat {
        match self {
            SmokeCell::Clear => 0,
            SmokeCell::Smoky { volume } => volume as nat,
        }
    }

    /// Whether the cell is `Clear` or holds at least one unit.
    pub open spec fn settled(self) -> bool {
        self is Smoky ==> self->volume >= 1
    }

    /// Whether the cell may show as `glyph`: a clear cell as nothing, a
    /// smoky one, however much it holds, as any of [`SMOKE_GLYPHS`] in any
    /// of [`SMOKE_COLORS`].
    pub open spec fn shows(self, glyph: Option<Seq<char>>) -> bool {
        match self {
            SmokeCell::Clear => glyph is None,
            SmokeCell::Smoky { .. } => exists|wisp: char, color: (u8, u8, u8)|
                SMOKE_GLYPHS@.contains(wisp) && SMOKE_COLORS@.contains(color) && glyph == Some(
                    #[trigger] painted(color, wisp),
                ),
        }
    }

}

impl From<SmokeCell> for Option<String> {
    /// What the cell shows, this time: smoke billows, its glyph and its
    /// colour drawn anew with every call.
    fn from(smoke_cell: SmokeCell) -> (glyph: Option<String>)
        ensures
            smoke_cell.shows(glyph_view(glyph)),
    {
        match smoke_cell {
            SmokeCell::Clear => None,
            SmokeCell::Smoky { .. } => {
                let wisp: char = pick_one(SMOKE_GLYPHS.as_slice()).unwrap();
                let color: (u8, u8, u8) = pick_one(SMOKE_COLORS.as_slice()).unwrap();
                let text = paint(color, wisp);
                assert(text@ == painted(color, wisp));
                Some(text)
            },
        }
    }
}

impl vstd::std_specs::convert::FromSpecImpl<SmokeCell> for Option<String> {
    /// The dice have a say in what a cell shows: no function gives it.
    open spec fn obeys_from_spec() -> bool {
        false
    }

    open spec fn from_spec(smoke_cell: SmokeCell) -> Option<String> {
        arbitrary()
    }
}

/// For each cell of `row`, the units of smoke it holds.
pub open spec fn unit_marks(row: Seq<SmokeCell>) -> Seq<nat> {
    Seq::new(row.len(), |c: int| row[c].units())
}

/// For each row of `cells`, the units of smoke in it.
pub open spec fn volume_by_row(cells: Seq<Seq<SmokeCell>>) -> Seq<nat> {
    Seq::new(cells.len(), |r: int| sum(unit_marks(cells[r])))
}

/// The units of smoke in all of `cells`.
pub open spec fn grid_volume(cells: Seq<Seq<SmokeCell>>) -> nat {
    sum(volume_by_row(cells))
}

/// The smoke as the contracts see it: its size and its cells row by row.
pub struct SmokeGrid {
    pub rows: nat,
    pub cols: nat,
    pub cells: Seq<Seq<SmokeCell>>,
}

impl SmokeGrid {
    /// Whether there are `rows` rows of `cols` cells, few enough to count,
    /// each of them `Clear` or with at least one unit.
    pub open spec fn shaped(self) -> bool {
        &&& self.cells.len() == self.rows
        &&& forall|r: int| 0 <= r < self.rows ==> (#[trigger] self.cells[r]).len() == self.cols
        &&& self.rows * self.cols <= usize::MAX
        &&& forall|r: int, c: int| self.has(r, c) ==> (#[trigger] self.cells[r][c]).settled()
    }

    /// Whether the grid is well formed: it has its shape, and no row holds
    /// more smoke than can have reached it. Row `r` can hold what was given
    /// off, one unit to a cell and tick, in the rows from `r` down, each a
    /// tick further back: `cols * (rows - r)` units at most.
    pub open spec fn wf(self) -> bool {
        &&& self.shaped()
        &&& forall|r: int|
            0 <= r < self.rows ==> (#[trigger] volume_by_row(self.cells)[r]) <= self.cols * (
            self.rows - r)
    }

    /// Whether `(r, c)` is a cell of the grid.
    pub open spec fn has(self, r: int, c: int) -> bool {
        0 <= r < self.rows && 0 <= c < self.cols
    }

    /// Whether no cell holds smoke.
    pub open spec fn all_clear(self) -> bool {
        forall|r: int, c: int| self.has(r, c) ==> (#[trigger] self.cells[r][c]) is Clear
    }

    /// The units of smoke in the whole grid.
    pub open spec fn total_volume(self) -> nat {
        grid_volume(self.cells)
    }

    /// Where a unit of smoke at `(r, c)` that drifts `delta` columns goes:
    /// one row up and `delta` columns to the right, or nowhere, if that is
    /// above the grid or beside it.
    pub open spec fn destination(self, r: int, c: int, delta: int) -> Option<(int, int)> {
        if r - 1 < 0 || c + delta < 0 || c + delta >= self.cols {
            None
        } else {
            Some((r - 1, c + delta))
        }
    }

    /// Whether `target` is where a unit of smoke at `(r, c)` that drifts
    /// `delta` columns goes.
    pub open spec fn reaches(
        self,
        r: int,
        c: int,
        delta: int,
        target: Option<(usize, usize)>,
    ) -> bool {
        match target {
            Some((row, col)) => self.destination(r, c, delta) == Some((row as int, col as int)),
            None => self.destination(r, c, delta) is None,
        }
    }

    /// The grid with one unit more in the cell at `(r, c)`.
    pub open spec fn place(self, r: int, c: int) -> SmokeGrid {
        SmokeGrid {
            cells: self.cells.update(
                r,
                self.cells[r].update(
                    c,
                    SmokeCell::Smoky { volume: (self.cells[r][c].units() + 1) as usize },
                ),
            ),
            ..self
        }
    }

    /// Whether `layer` may be what the smoke shows: it declares the size of
    /// the smoke and holds a cell for each cell of the smoke, which shows
    /// what that cell may show.
    pub open spec fn shown_by(self, layer: LayerGrid) -> bool {
        &&& layer.rows == self.rows
        &&& layer.cols == self.cols
        &&& layer.cells.len() == self.cells.len()
        &&& forall|r: int|
            0 <= r < self.cells.len() ==> (#[trigger] layer.cells[r]).len() == self.cells[r].len()
        &&& forall|r: int, c: int|
            0 <= r < self.cells.len() && 0 <= c < self.cells[r].len() ==> self.cells[r][c].shows(
                #[trigger] layer.cells[r][c],
            )
    }

    /// The grid with no smoke in the cell at `(r, c)`.
    pub open spec fn clear(self, r: int, c: int) -> SmokeGrid {
        SmokeGrid { cells: self.cells.update(r, self.cells[r].update(c, SmokeCell::Clear)), ..self }
    }

    /// Whether `next` may be this grid one tick later, over the fire `fire`,
    /// with the dice as `drift` records them: every unit of this grid has
    /// moved, smoke has come only from cells that burn, and each cell of
    /// `next` holds what arrived in it and what it gave off.
    pub open spec fn drifts_to(self, fire: FireGrid, drift: Drift, next: SmokeGrid) -> bool {
        &&& next.rows == self.rows
        &&& next.cols == self.cols
        &&& next.shaped()
        &&& drift.shaped(self.rows, self.cols)
        &&& drift.moves_all_of(self)
        &&& drift.spawns_within(fire)
        &&& drift.yields(next)
    }
}

/// How the units of one cell moved in one tick: `left` of them one column to
/// the left, `up` of them straight, `right` of them one column to the right,
/// all of them one row up.
pub struct Moves {
    pub left: nat,
    pub up: nat,
    pub right: nat,
}

impl Moves {
    /// How many units moved.
    pub open spec fn total(self) -> nat {
        self.left + self.up + self.right
    }

    /// The moves with one more, `delta` columns to the right.
    pub open spec fn one_more(self, delta: int) -> Moves {
        if delta < 0 {
            Moves { left: self.left + 1, ..self }
        } else if delta == 0 {
            Moves { up: self.up + 1, ..self }
        } else {
            Moves { right: self.right + 1, ..self }
        }
    }
}

/// What the dice gave in one tick of the smoke: for each cell how its units
/// moved, and how many units it gave off.
pub struct Drift {
    pub moves: Seq<Seq<Moves>>,
    pub spawns: Seq<Seq<nat>>,
}

impl Drift {
    /// Whether both records are `rows` by `cols`.
    pub open spec fn shaped(self, rows: nat, cols: nat) -> bool {
        &&& self.moves.len() == rows
        &&& self.spawns.len() == rows
        &&& forall|r: int| 0 <= r < rows ==> (#[trigger] self.moves[r]).len() == cols
        &&& forall|r: int| 0 <= r < rows ==> (#[trigger] self.spawns[r]).len() == cols
    }

    /// The record of a tick in which nothing moved and nothing was given
    /// off.
    pub open spec fn still(rows: nat, cols: nat) -> Drift {
        Drift {
            moves: Seq::new(
                rows,
                |r: int| Seq::new(cols, |c: int| Moves { left: 0, up: 0, right: 0 }),
            ),
            spawns: Seq::new(rows, |r: int| Seq::new(cols, |c: int| 0nat)),
        }
    }

    /// The record with one more unit moved from `(r, c)`, `delta` columns
    /// to the right.
    pub open spec fn moved(self, r: int, c: int, delta: int) -> Drift {
        Drift {
            moves: self.moves.update(r, self.moves[r].update(c, self.moves[r][c].one_more(delta))),
            ..self
        }
    }

    /// The record with one unit given off at `(r, c)`.
    pub open spec fn spawned_at(self, r: int, c: int) -> Drift {
        Drift { spawns: self.spawns.update(r, self.spawns[r].update(c, 1nat)), ..self }
    }

    /// Whether every unit of `before` has moved.
    pub open spec fn moves_all_of(self, before: SmokeGrid) -> bool {
        forall|r: int, c: int|
            before.has(r, c) ==> (#[trigger] self.moves[r][c]).total()
                == before.cells[r][c].units()
    }

    /// Whether no more units of `before` have moved than there are.
    pub open spec fn moves_some_of(self, before: SmokeGrid) -> bool {
        forall|r: int, c: int|
            before.has(r, c) ==> (#[trigger] self.moves[r][c]).total()
                <= before.cells[r][c].units()
    }

    /// Whether only cells that burn in `fire` gave off smoke, one unit each
    /// at most.
    pub open spec fn spawns_within(self, fire: FireGrid) -> bool {
        forall|r: int, c: int|
            fire.has(r, c) ==> (#[trigger] self.spawns[r][c]) <= fire.cells[r][c].alight()
    }

    /// Whether the units of `before` have moved as far as a scan row by row
    /// has come that stands at the cell `(i, j)` with `done` of its units
    /// moved: all units of the cells before it, none of the cells after it.
    pub open spec fn moved_up_to(self, before: SmokeGrid, i: int, j: int, done: nat) -> bool {
        forall|r: int, c: int|
            before.has(r, c) ==> (#[trigger] self.moves[r][c]).total() == (if r < i || (r == i
                && c < j) {
                before.cells[r][c].units()
            } else if r == i && c == j {
                done
            } else {
                0
            })
    }

    /// Whether smoke has been given off as far as a scan row by row has come
    /// that stands at the cell `(i, j)`: only by cells before it, and only
    /// by cells that burn in `fire`.
    pub open spec fn spawned_up_to(self, fire: FireGrid, i: int, j: int) -> bool {
        forall|r: int, c: int|
            fire.has(r, c) ==> (#[trigger] self.spawns[r][c]) <= fire.cells[r][c].alight() && (r
                > i || (r == i && c >= j) ==> self.spawns[r][c] == 0)
    }

    /// How many units arrived in the cell at `(r, c)` of a grid of `rows` by
    /// `cols`: those that rose from the row below, straight or from a
    /// column to either side.
    pub open spec fn arriving(self, rows: nat, cols: nat, r: int, c: int) -> nat {
        if r + 1 < rows {
            (if c >= 1 {
                self.moves[r + 1][c - 1].right
            } else {
                0
            }) + self.moves[r + 1][c].up + (if c + 1 < cols {
                self.moves[r + 1][c + 1].left
            } else {
                0
            })
        } else {
            0
        }
    }

    /// Whether each cell of `next` holds what arrived in it and what it gave
    /// off.
    pub open spec fn yields(self, next: SmokeGrid) -> bool {
        forall|r: int, c: int|
            next.has(r, c) ==> (#[trigger] next.cells[r][c]).units() == self.arriving(
                next.rows,
                next.cols,
                r,
                c,
            ) + self.spawns[r][c]
    }

    /// Whether each cell of `next` holds what arrived in it and what it gave
    /// off, and on top of that, from the cell `(i, j)` on where a scan row by
    /// row stands, what it holds in `before`, which has yet to move.
    pub open spec fn yields_with(self, next: SmokeGrid, before: SmokeGrid, i: int, j: int) -> bool {
        forall|r: int, c: int|
            next.has(r, c) ==> (#[trigger] next.cells[r][c]).units() == self.arriving(
                next.rows,
                next.cols,
                r,
                c,
            ) + self.spawns[r][c] + (if r > i || (r == i && c >= j) {
                before.cells[r][c].units()
            } else {
                0
            })
    }

    /// For each cell of row `r`, how many units left it.
    pub open spec fn moved_marks(self, r: int) -> Seq<nat> {
        Seq::new(self.moves[r].len(), |c: int| self.moves[r][c].total())
    }

    /// For each cell of row `r` of a grid of `rows` by `cols`, how many
    /// units arrived in it.
    pub open spec fn arriving_marks(self, rows: nat, cols: nat, r: int) -> Seq<nat> {
        Seq::new(cols, |c: int| self.arriving(rows, cols, r, c))
    }

    /// How many units left the grid from row `r`: from the top row all that
    /// moved, from another row those that drifted left from its first cell
    /// or right from its last.
    pub open spec fn lost_from(self, r: int) -> nat {
        if self.moves[r].len() == 0 {
            0
        } else if r == 0 {
            sum(self.moved_marks(0))
        } else {
            self.moves[r][0].left + self.moves[r].last().right
        }
    }

    /// For each row, how many units left the grid from it.
    pub open spec fn lost_by_row(self) -> Seq<nat> {
        Seq::new(self.moves.len(), |r: int| self.lost_from(r))
    }

    /// How many units left the grid.
    pub open spec fn lost(self) -> nat {
        sum(self.lost_by_row())
    }

    /// For each row, how many units it gave off.
    pub open spec fn spawned_by_row(self) -> Seq<nat> {
        Seq::new(self.spawns.len(), |r: int| sum(self.spawns[r]))
    }

    /// How many units were given off.
    pub open spec fn spawned(self) -> nat {
        sum(self.spawned_by_row())
    }
}

/// What arrives in a row is what left the row below, less what drifted out
/// at its two ends.
pub proof fn lemma_row_arrivals(drift: Drift, rows: nat, cols: nat, r: int)
    requires
        drift.shaped(rows, cols),
        0 <= r,
        r + 1 < rows,
        cols >= 1,
    ensures
        sum(drift.arriving_marks(rows, cols, r)) + drift.moves[r + 1][0].left + drift.moves[r
            + 1].last().right == sum(drift.moved_marks(r + 1)),
{
    let below = drift.moves[r + 1];
    let left = Seq::new(cols, |c: int| below[c].left);
    let up = Seq::new(cols, |c: int| below[c].up);
    let right = Seq::new(cols, |c: int| below[c].right);
    let left_up = Seq::new(cols, |c: int| below[c].left + below[c].up);
    lemma_sum_add(left, up, left_up);
    lemma_sum_add(left_up, right, drift.moved_marks(r + 1));
    let from_right = Seq::new(
        cols,
        |c: int|
            if c + 1 < cols {
                below[c + 1].left
            } else {
                0
            },
    );
    let from_left = Seq::new(
        cols,
        |c: int|
            if c >= 1 {
                below[c - 1].right
            } else {
                0
            },
    );
    lemma_sum_shifted_down(left, from_right);
    lemma_sum_shifted_up(right, from_left);
    let sides = Seq::new(cols, |c: int| from_left[c] + from_right[c]);
    lemma_sum_add(from_left, from_right, sides);
    lemma_sum_add(sides, up, drift.arriving_marks(rows, cols, r));
}

/// No more arrives in a cell than the row below held, and that is less than
/// there are cells.
pub proof fn lemma_arriving_bounded(before: SmokeGrid, drift: Drift, r: int, c: int)
    requires
        before.wf(),
        before.has(r, c),
        drift.shaped(before.rows, before.cols),
        drift.moves_some_of(before),
    ensures
        drift.arriving(before.rows, before.cols, r, c) < before.rows * before.cols,
{
    let rows = before.rows;
    let cols = before.cols;
    assert(rows * cols >= 1) by (nonlinear_arith)
        requires
            rows >= 1,
            cols >= 1,
    ;
    if r + 1 < rows {
        lemma_row_arrivals(drift, rows, cols, r);
        lemma_sum_covers(drift.arriving_marks(rows, cols, r), c);
        let moved = drift.moved_marks(r + 1);
        let held = unit_marks(before.cells[r + 1]);
        assert forall|j: int| 0 <= j < cols implies #[trigger] moved[j] <= held[j] by {
            assert(before.has(r + 1, j));
            assert(drift.moves[r + 1][j].total() <= before.cells[r + 1][j].units());
        }
        lemma_sum_monotone(moved, held);
        assert(volume_by_row(before.cells)[r + 1] <= cols * (rows - (r + 1)));
        assert(cols * (rows - (r + 1)) < rows * cols) by (nonlinear_arith)
            requires
                cols >= 1,
                0 <= r,
                r + 1 < rows,
        ;
    }
}

/// A tick keeps the smoke well formed.
pub proof fn lemma_drift_wf(before: SmokeGrid, fire: FireGrid, drift: Drift, after: SmokeGrid)
    requires
        before.wf(),
        fire.rows == before.rows,
        fire.cols == before.cols,
        before.drifts_to(fire, drift, after),
    ensures
        after.wf(),
{
    let rows = before.rows;
    let cols = before.cols;
    assert forall|r: int| 0 <= r < rows implies (#[trigger] volume_by_row(after.cells)[r]) <= cols
        * (rows - r) by {
        let arrived = drift.arriving_marks(rows, cols, r);
        assert forall|c: int| 0 <= c < cols implies unit_marks(after.cells[r])[c] == arrived[c]
            + drift.spawns[r][c] by {
            assert(after.has(r, c));
            assert(after.cells[r][c].units() == drift.arriving(rows, cols, r, c)
                + drift.spawns[r][c]);
        }
        lemma_sum_add(arrived, drift.spawns[r], unit_marks(after.cells[r]));
        assert forall|c: int| 0 <= c < cols implies drift.spawns[r][c] <= 1 by {
            assert(fire.has(r, c));
        }
        lemma_sum_bounded(drift.spawns[r], 1);
        if cols >= 1 && r + 1 < rows {
            lemma_row_arrivals(drift, rows, cols, r);
            let moved = drift.moved_marks(r + 1);
            let held = unit_marks(before.cells[r + 1]);
            assert forall|j: int| 0 <= j < cols implies #[trigger] moved[j] == held[j] by {
                assert(before.has(r + 1, j));
                assert(drift.moves[r + 1][j].total() == before.cells[r + 1][j].units());
            }
            assert(moved =~= held);
            assert(volume_by_row(before.cells)[r + 1] <= cols * (rows - (r + 1)));
            assert(cols * (rows - (r + 1)) + cols == cols * (rows - r)) by (nonlinear_arith);
        } else {
            lemma_sum_zeros(arrived);
            assert(cols <= cols * (rows - r)) by (nonlinear_arith)
                requires
                    r < rows,
            ;
        }
    }
}

/// Smoke is neither made nor lost but where the contract of a tick says so:
/// what the grid holds afterwards is what it held before, less what left
/// the grid, plus what the fire gave off.
pub proof fn lemma_volume_conserved(
    before: SmokeGrid,
    fire: FireGrid,
    drift: Drift,
    after: SmokeGrid,
)
    requires
        before.shaped(),
        before.drifts_to(fire, drift, after),
    ensures
        after.total_volume() + drift.lost() == before.total_volume() + drift.spawned(),
{
    let rows = before.rows;
    let cols = before.cols;
    let held = volume_by_row(before.cells);
    let lost = drift.lost_by_row();
    let spawned = drift.spawned_by_row();
    let arrived = Seq::new(rows, |r: int| sum(drift.arriving_marks(rows, cols, r)));
    let kept = Seq::new(rows, |r: int| (held[r] - lost[r]) as nat);
    assert forall|r: int| 0 <= r < rows implies held[r] == sum(drift.moved_marks(r)) by {
        assert forall|j: int| 0 <= j < cols implies drift.moved_marks(r)[j] == unit_marks(
            before.cells[r],
        )[j] by {
            assert(before.has(r, j));
            assert(drift.moves[r][j].total() == before.cells[r][j].units());
        }
        assert(drift.moved_marks(r) =~= unit_marks(before.cells[r]));
    }
    assert forall|r: int| 0 <= r < rows implies #[trigger] lost[r] <= held[r] && (r + 1 < rows
        ==> arrived[r] == kept[r + 1]) && (r + 1 == rows ==> arrived[r] == 0) by {
        if cols == 0 {
            lemma_sum_zeros(drift.arriving_marks(rows, cols, r));
        } else {
            if r >= 1 {
                lemma_row_arrivals(drift, rows, cols, r - 1);
            }
            if r + 1 < rows {
                lemma_row_arrivals(drift, rows, cols, r);
            } else {
                lemma_sum_zeros(drift.arriving_marks(rows, cols, r));
            }
        }
    }
    assert forall|r: int| 0 <= r < rows implies volume_by_row(after.cells)[r] == arrived[r]
        + spawned[r] by {
        assert forall|c: int| 0 <= c < cols implies unit_marks(after.cells[r])[c]
            == drift.arriving_marks(rows, cols, r)[c] + drift.spawns[r][c] by {
            assert(after.has(r, c));
            assert(after.cells[r][c].units() == drift.arriving(rows, cols, r, c)
                + drift.spawns[r][c]);
        }
        lemma_sum_add(
            drift.arriving_marks(rows, cols, r),
            drift.spawns[r],
            unit_marks(after.cells[r]),
        );
    }
    lemma_sum_add(arrived, spawned, volume_by_row(after.cells));
    assert forall|r: int| 0 <= r < rows implies held[r] == kept[r] + lost[r] by {
        assert(lost[r] <= held[r]);
    }
    lemma_sum_add(kept, lost, held);
    if rows > 0 {
        assert(lost[0] == held[0]);
        assert forall|r: int| 0 <= r < rows - 1 implies arrived[r] == kept[r + 1] by {
            assert(lost[r] <= held[r]);
        }
        assert(lost[rows - 1] <= held[rows - 1]);
        lemma_sum_shifted_down(kept, arrived);
    } else {
        assert(sum(arrived) == 0);
        assert(sum(kept) == 0);
    }
}

/// One more unit in a cell is one more unit in its row, and leaves every
/// other row as it was.
pub proof fn lemma_place_volume(grid: SmokeGrid, r: int, c: int)
    requires
        grid.shaped(),
        grid.has(r, c),
        grid.cells[r][c].units() < usize::MAX,
    ensures
        volume_by_row(grid.place(r, c).cells) == volume_by_row(grid.cells).update(
            r,
            volume_by_row(grid.cells)[r] + 1,
        ),
{
    let placed = grid.place(r, c);
    let units = (grid.cells[r][c].units() + 1) as nat;
    assert(unit_marks(placed.cells[r]) =~= unit_marks(grid.cells[r]).update(c, units));
    lemma_sum_update(unit_marks(grid.cells[r]), c, units);
    assert(volume_by_row(placed.cells) =~= volume_by_row(grid.cells).update(
        r,
        volume_by_row(grid.cells)[r] + 1,
    ));
}

/// Recording one more move keeps the record in step with the grid that the
/// unit was placed in, or, where it left the grid, with the grid as it was.
/// The scan stands at the cell `(i, j)` that the unit comes from.
pub proof fn lemma_move_recorded(
    before: SmokeGrid,
    drift: Drift,
    next: SmokeGrid,
    i: int,
    j: int,
    delta: int,
    done: nat,
)
    requires
        next.rows == before.rows,
        next.cols == before.cols,
        next.shaped(),
        drift.shaped(before.rows, before.cols),
        drift.yields_with(next, before, i, j),
        drift.moved_up_to(before, i, j, done),
        before.shaped(),
        before.has(i, j),
        DRIFT_LOW <= delta < DRIFT_HIGH,
        before.destination(i, j, delta) matches Some((row, col)) ==> next.cells[row][col].units()
            < usize::MAX,
    ensures
        drift.moved(i, j, delta).shaped(before.rows, before.cols),
        drift.moved(i, j, delta).moved_up_to(before, i, j, done + 1),
        drift.moved(i, j, delta).spawns == drift.spawns,
        match before.destination(i, j, delta) {
            Some((row, col)) => next.has(row, col) && drift.moved(i, j, delta).yields_with(
                next.place(row, col),
                before,
                i,
                j,
            ),
            None => drift.moved(i, j, delta).yields_with(next, before, i, j),
        },
{
    let rows = before.rows;
    let cols = before.cols;
    let after = drift.moved(i, j, delta);
    assert forall|r: int, c: int| before.has(r, c) implies #[trigger] after.moves[r][c] == (if r
        == i && c == j {
        drift.moves[i][j].one_more(delta)
    } else {
        drift.moves[r][c]
    }) by {}
    assert forall|r: int, c: int| before.has(r, c) implies (#[trigger] after.moves[r][c]).total()
        == (if r < i || (r == i && c < j) {
        before.cells[r][c].units()
    } else if r == i && c == j {
        done + 1
    } else {
        0
    }) by {
        assert(drift.moves[r][c].total() == (if r < i || (r == i && c < j) {
            before.cells[r][c].units()
        } else if r == i && c == j {
            done
        } else {
            0
        }));
    }
    let target = before.destination(i, j, delta);
    let placed = match target {
        Some((row, col)) => next.place(row, col),
        None => next,
    };
    assert forall|r: int, c: int| placed.has(r, c) implies (#[trigger] placed.cells[r][c]).units()
        == after.arriving(rows, cols, r, c) + after.spawns[r][c] + (if r > i || (r == i && c
        >= j) {
        before.cells[r][c].units()
    } else {
        0
    }) by {
        assert(next.has(r, c));
        assert(next.cells[r][c].units() == drift.arriving(rows, cols, r, c) + drift.spawns[r][c]
            + (if r > i || (r == i && c >= j) {
            before.cells[r][c].units()
        } else {
            0
        }));
        let hit = target is Some && r == i - 1 && c == j + delta;
        if r + 1 < rows {
            assert(before.has(r + 1, c));
            if c >= 1 {
                assert(before.has(r + 1, c - 1));
            }
            if c + 1 < cols {
                assert(before.has(r + 1, c + 1));
            }
        }
        if hit {
            assert(after.arriving(rows, cols, r, c) == drift.arriving(rows, cols, r, c) + 1);
            assert(placed.cells[r][c].units() == next.cells[r][c].units() + 1);
        } else {
            assert(after.arriving(rows, cols, r, c) == drift.arriving(rows, cols, r, c));
            assert(placed.cells[r][c] == next.cells[r][c]);
        }
    }
}

/// Once all units of the cell `(i, j)` have moved, clearing it keeps the
/// record in step with the grid, the scan standing at the next cell.
pub proof fn lemma_source_cleared(before: SmokeGrid, drift: Drift, next: SmokeGrid, i: int, j: int)
    requires
        next.rows == before.rows,
        next.cols == before.cols,
        next.shaped(),
        before.shaped(),
        before.has(i, j),
        drift.shaped(before.rows, before.cols),
        drift.yields_with(next, before, i, j),
        drift.moved_up_to(before, i, j, before.cells[i][j].units()),
        drift.spawns[i][j] == 0,
    ensures
        drift.yields_with(next.clear(i, j), before, i, j + 1),
        drift.moved_up_to(before, i, j + 1, 0),
        before.cells[i][j] is Clear ==> drift.yields_with(next, before, i, j + 1),
{
    let rows = before.rows;
    let cols = before.cols;
    let cleared = next.clear(i, j);
    assert forall|r: int, c: int| before.has(r, c) implies (#[trigger] drift.moves[r][c]).total()
        == (if r < i || (r == i && c < j + 1) {
        before.cells[r][c].units()
    } else if r == i && c == j + 1 {
        0
    } else {
        0
    }) by {}
    assert(drift.arriving(rows, cols, i, j) == 0) by {
        if i + 1 < rows {
            assert(before.has(i + 1, j));
            assert(drift.moves[i + 1][j].total() == 0);
            if j >= 1 {
                assert(before.has(i + 1, j - 1));
                assert(drift.moves[i + 1][j - 1].total() == 0);
            }
            if j + 1 < cols {
                assert(before.has(i + 1, j + 1));
                assert(drift.moves[i + 1][j + 1].total() == 0);
            }
        }
    }
    assert(next.has(i, j));
    assert(next.cells[i][j].units() == drift.spawns[i][j] + before.cells[i][j].units());
    assert forall|r: int, c: int| cleared.has(r, c) implies (#[trigger] cleared.cells[r][c]).units()
        == drift.arriving(rows, cols, r, c) + drift.spawns[r][c] + (if r > i || (r == i && c >= j
        + 1) {
        before.cells[r][c].units()
    } else {
        0
    }) by {
        assert(next.has(r, c));
        assert(next.cells[r][c].units() == drift.arriving(rows, cols, r, c) + drift.spawns[r][c]
            + (if r > i || (r == i && c >= j) {
            before.cells[r][c].units()
        } else {
            0
        }));
        if r == i && c == j {
            assert(cleared.cells[r][c] is Clear);
        } else {
            assert(cleared.cells[r][c] == next.cells[r][c]);
        }
    }
    if before.cells[i][j] is Clear {
        assert forall|r: int, c: int| next.has(r, c) implies (#[trigger] next.cells[r][c]).units()
            == drift.arriving(rows, cols, r, c) + drift.spawns[r][c] + (if r > i || (r == i && c
            >= j + 1) {
            before.cells[r][c].units()
        } else {
            0
        }) by {
            assert(next.cells[r][c].units() == drift.arriving(rows, cols, r, c)
                + drift.spawns[r][c] + (if r > i || (r == i && c >= j) {
                before.cells[r][c].units()
            } else {
                0
            }));
        }
    }
}

/// The cells of the rows of `features`.
pub open spec fn smoke_cells_of(features: Seq<Vec<SmokeCell>>) -> Seq<Seq<SmokeCell>> {
    Seq::new(features.len(), |r: int| features[r]@)
}

/// The smoke: `rows` rows of `cols` cells.
pub struct SmokeState {
    rows: usize,
    cols: usize,
    features: Vec<Vec<SmokeCell>>,
}

impl View for SmokeState {
    type V = SmokeGrid;

    closed spec fn view(&self) -> SmokeGrid {
        SmokeGrid {
            rows: self.rows as nat,
            cols: self.cols as nat,
            cells: smoke_cells_of(self.features@),
        }
    }
}

impl Clone for SmokeState {
    fn clone(&self) -> (copy: Self)
        ensures
            copy@ == self@,
    {
        let copy = SmokeState {
            rows: self.rows,
            cols: self.cols,
            features: self.features.clone(),
        };
        assert(smoke_cells_of(copy.features@) =~= smoke_cells_of(self.features@));
        copy
    }
}

impl SmokeState {
    /// Whether the state is well formed: see [`SmokeGrid::wf`].
    pub open spec fn wf(&self) -> bool {
        self@.wf()
    }

    /// Clear air over `rows` by `cols` cells.
    pub fn new(rows: usize, cols: usize) -> (state: Self)
        requires
            rows * cols <= usize::MAX,
        ensures
            state.wf(),
            state@.rows == rows,
            state@.cols == cols,
            state@.all_clear(),
            state@.total_volume() == 0,
            forall|r: int| 0 <= r < rows ==> (#[trigger] volume_by_row(state@.cells)[r]) == 0,
    {
        let features: Vec<Vec<SmokeCell>> = vec![vec![SmokeCell::Clear; cols]; rows];
        let state = SmokeState { rows, cols, features };
        proof {
            assert(state@.all_clear());
            assert forall|r: int| 0 <= r < rows implies (#[trigger] volume_by_row(state@.cells)[r])
                == 0 && 0 <= cols * (rows - r) by {
                assert forall|c: int| 0 <= c < cols implies unit_marks(state@.cells[r])[c]
                    == 0 by {
                    assert(state@.cells[r][c] is Clear);
                }
                lemma_sum_zeros(unit_marks(state@.cells[r]));
                assert(0 <= cols * (rows - r)) by (nonlinear_arith)
                    requires
                        r < rows,
                ;
            }
            lemma_sum_zeros(volume_by_row(state@.cells));
        }
        state
    }

    /// The number of rows.
    pub fn rows(&self) -> (rows: usize)
        ensures
            rows == self@.rows,
    {
        self.rows
    }

    /// The number of columns.
    pub fn cols(&self) -> (cols: usize)
        ensures
            cols == self@.cols,
    {
        self.cols
    }

    /// The cells, row by row.
    pub fn features(&self) -> (features: &Vec<Vec<SmokeCell>>)
        ensures
            smoke_cells_of(features@) == self@.cells,
    {
        &self.features
    }

    /// Where a unit of smoke at `(row, col)` goes that drifts `col_delta`
    /// columns: one row up and that many columns to the right, or nowhere,
    /// if that is above the grid or beside it.
    pub fn destination(&self, row: usize, col: usize, col_delta: isize) -> (target: Option<
        (usize, usize),
    >)
        ensures
            self@.reaches(row as int, col as int, col_delta as int, target),
    {
        if row < 1 {
            return None;
        }
        let new_col: i128 = col as i128 + col_delta as i128;
        if new_col < 0 || new_col >= self.cols as i128 {
            return None;
        }
        Some((row - 1, new_col as usize))
    }

    /// Moves one unit of smoke from `(row, col)`: the dice say how far it
    /// drifts, at least `DRIFT_LOW` and fewer than `DRIFT_HIGH` columns to
    /// the right, and [`SmokeState::destination`] where that takes it.
    pub fn gen_smoke_movement(&self, row: usize, col: usize) -> (target: Option<(usize, usize)>)
        ensures
            exists|delta: int|
                DRIFT_LOW <= delta < DRIFT_HIGH && #[trigger] self@.reaches(
                    row as int,
                    col as int,
                    delta,
                    target,
                ),
    {
        let col_delta: isize = gen_range(DRIFT_LOW, DRIFT_HIGH);
        let target = self.destination(row, col, col_delta);
        assert(self@.reaches(row as int, col as int, col_delta as int, target));
        target
    }

    /// Puts one more unit of smoke in the cell at `(row, col)`. The state
    /// stays well formed if it was and its row `row` was not yet full.
    pub fn place_smoke(&mut self, row: usize, col: usize)
        requires
            old(self)@.shaped(),
            old(self)@.has(row as int, col as int),
            old(self)@.cells[row as int][col as int].units() < usize::MAX,
        ensures
            final(self)@.shaped(),
            final(self)@ == old(self)@.place(row as int, col as int),
            volume_by_row(final(self)@.cells) == volume_by_row(old(self)@.cells).update(
                row as int,
                volume_by_row(old(self)@.cells)[row as int] + 1,
            ),
            old(self).wf() && volume_by_row(old(self)@.cells)[row as int] < old(self)@.cols * (
            old(self)@.rows - row) ==> final(self).wf(),
    {
        proof {
            lemma_place_volume(self@, row as int, col as int);
        }
        let next = match self.features[row][col] {
            SmokeCell::Clear => SmokeCell::Smoky { volume: 1 },
            SmokeCell::Smoky { volume: vol } => SmokeCell::Smoky { volume: vol + 1 },
        };
        self.features[row][col] = next;
        assert(self@.cells =~= old(self)@.place(row as int, col as int).cells);
        assert forall|r: int, c: int| self@.has(r, c) implies (
        #[trigger] self@.cells[r][c]).settled() by {
            assert(old(self)@.has(r, c));
            assert(old(self)@.cells[r][c].settled());
        }
    }

    /// Takes all smoke from the cell at `(row, col)`.
    pub fn clear_smoke(&mut self, row: usize, col: usize)
        requires
            old(self)@.shaped(),
            old(self)@.has(row as int, col as int),
        ensures
            final(self)@.shaped(),
            final(self)@ == old(self)@.clear(row as int, col as int),
    {
        assert(self@.cells[row as int].len() == self@.cols);
        self.features[row][col] = SmokeCell::Clear;
        assert(self@.cells =~= old(self)@.clear(row as int, col as int).cells);
        assert forall|r: int, c: int| self@.has(r, c) implies (
        #[trigger] self@.cells[r][c]).settled() by {
            assert(old(self)@.has(r, c));
            assert(old(self)@.cells[r][c].settled());
        }
    }

    /// The smoke as a layer, this time: each cell shows what it may show, a
    /// smoky cell with a glyph and a colour drawn anew.
    pub fn as_layer(&self) -> (layer: SmokeLayer)
        ensures
            self@.shown_by(layer.grid()),
    {
        self.into()
    }

    /// The smoke one tick later, over the fire `fire_state` as it is after
    /// its own tick. First every unit of smoke moves: one row up, and as
    /// many columns aside as the dice say; those that would leave the grid
    /// are gone, and the cell they came from is cleared. Then every cell
    /// that burns gives off one unit, if the dice say so.
    ///
    /// Whatever the dice give, there is a record of them, a [`Drift`], with
    /// which the result follows from this state as [`SmokeGrid::drifts_to`]
    /// says, and by which the volume is conserved: what the grid holds
    /// afterwards is what it held before, less what left the grid, plus
    /// what was given off.
    pub fn get_next(&self, fire_state: &FireState) -> (next: Self)
        requires
            self.wf(),
            fire_state.wf(),
            fire_state@.rows == self@.rows,
            fire_state@.cols == self@.cols,
        ensures
            next.wf(),
            exists|drift: Drift|
                {
                    &&& #[trigger] self@.drifts_to(fire_state@, drift, next@)
                    &&& next@.total_volume() + drift.lost() == self@.total_volume()
                        + drift.spawned()
                },
    {
        let mut next = self.clone();
        let ghost mut drift = Drift::still(self@.rows, self@.cols);
        let mut i: usize = 0;
        while i < self.rows
            invariant
                self.wf(),
                i <= self.rows,
                next@.shaped(),
                next@.rows == self@.rows,
                next@.cols == self@.cols,
                drift.shaped(self@.rows, self@.cols),
                drift.yields_with(next@, self@, i as int, 0),
                drift.moved_up_to(self@, i as int, 0, 0),
                forall|r: int, c: int| self@.has(r, c) ==> (#[trigger] drift.spawns[r][c]) == 0,
            decreases self.rows - i,
        {
            let mut j: usize = 0;
            while j < self.cols
                invariant
                    self.wf(),
                    i < self.rows,
                    j <= self.cols,
                    next@.shaped(),
                    next@.rows == self@.rows,
                    next@.cols == self@.cols,
                    drift.shaped(self@.rows, self@.cols),
                    drift.yields_with(next@, self@, i as int, j as int),
                    drift.moved_up_to(self@, i as int, j as int, 0),
                    forall|r: int, c: int|
                        self@.has(r, c) ==> (#[trigger] drift.spawns[r][c]) == 0,
                decreases self.cols - j,
            {
                assert(self@.has(i as int, j as int));
                assert(self@.cells[i as int].len() == self@.cols);
                if let SmokeCell::Smoky { volume: vol } = self.features[i][j] {
                    let mut done: usize = 0;
                    while done < vol
                        invariant
                            self.wf(),
                            self@.has(i as int, j as int),
                            self@.cells[i as int][j as int].units() == vol,
                            done <= vol,
                            next@.shaped(),
                            next@.rows == self@.rows,
                            next@.cols == self@.cols,
                            drift.shaped(self@.rows, self@.cols),
                            drift.yields_with(next@, self@, i as int, j as int),
                            drift.moved_up_to(self@, i as int, j as int, done as nat),
                            forall|r: int, c: int|
                                self@.has(r, c) ==> (#[trigger] drift.spawns[r][c]) == 0,
                        decreases vol - done,
                    {
                        let target = self.gen_smoke_movement(i, j);
                        let ghost delta = choose|delta: int|
                            DRIFT_LOW <= delta < DRIFT_HIGH && self@.reaches(
                                i as int,
                                j as int,
                                delta,
                                target,
                            );
                        let ghost drift_before = drift;
                        let ghost next_before = next@;
                        if let Some((new_row, new_col)) = target {
                            proof {
                                lemma_arriving_bounded(
                                    self@,
                                    drift,
                                    new_row as int,
                                    new_col as int,
                                );
                                assert(next@.has(new_row as int, new_col as int));
                            }
                            next.place_smoke(new_row, new_col);
                        }
                        proof {
                            lemma_move_recorded(
                                self@,
                                drift_before,
                                next_before,
                                i as int,
                                j as int,
                                delta,
                                done as nat,
                            );
                            drift = drift_before.moved(i as int, j as int, delta);
                        }
                        done += 1;
                    }
                    proof {
                        lemma_source_cleared(self@, drift, next@, i as int, j as int);
                    }
                    next.clear_smoke(i, j);
                } else {
                    proof {
                        lemma_source_cleared(self@, drift, next@, i as int, j as int);
                    }
                }
                j += 1;
            }
            i += 1;
        }
        proof {
            assert forall|r: int, c: int| next@.has(r, c) implies (
            #[trigger] next@.cells[r][c]).units() == drift.arriving(next@.rows, next@.cols, r, c)
                + drift.spawns[r][c] by {}
        }
        assert(drift.moves_all_of(self@));
        let mut i: usize = 0;
        while i < self.rows
            invariant
                self.wf(),
                fire_state.wf(),
                fire_state@.rows == self@.rows,
                fire_state@.cols == self@.cols,
                i <= self.rows,
                next@.shaped(),
                next@.rows == self@.rows,
                next@.cols == self@.cols,
                drift.shaped(self@.rows, self@.cols),
                drift.yields(next@),
                drift.moves_all_of(self@),
                drift.spawned_up_to(fire_state@, i as int, 0),
            decreases self.rows - i,
        {
            let mut j: usize = 0;
            while j < self.cols
                invariant
                    self.wf(),
                    fire_state.wf(),
                    fire_state@.rows == self@.rows,
                    fire_state@.cols == self@.cols,
                    i < self.rows,
                    j <= self.cols,
                    next@.shaped(),
                    next@.rows == self@.rows,
                    next@.cols == self@.cols,
                    drift.shaped(self@.rows, self@.cols),
                    drift.yields(next@),
                    drift.moves_all_of(self@),
                    drift.spawned_up_to(fire_state@, i as int, j as int),
                decreases self.cols - j,
            {
                assert(fire_state@.has(i as int, j as int));
                if let FireCell::Lit { .. } = fire_state.cell(i, j) {
                    if weighted_flip(SPAWN_ODDS) {
                        let ghost drift_before = drift;
                        let ghost next_before = next@;
                        proof {
                            lemma_arriving_bounded(self@, drift, i as int, j as int);
                            assert(next@.has(i as int, j as int));
                            assert(drift.spawns[i as int][j as int] == 0);
                        }
                        next.place_smoke(i, j);
                        proof {
                            drift = drift_before.spawned_at(i as int, j as int);
                            assert(drift.shaped(self@.rows, self@.cols));
                            assert forall|r: int, c: int| next@.has(r, c) implies (
                            #[trigger] next@.cells[r][c]).units() == drift.arriving(
                                next@.rows,
                                next@.cols,
                                r,
                                c,
                            ) + drift.spawns[r][c] by {
                                assert(next_before.has(r, c));
                                assert(next_before.cells[r][c].units() == drift_before.arriving(
                                    next@.rows,
                                    next@.cols,
                                    r,
                                    c,
                                ) + drift_before.spawns[r][c]);
                            }
                            assert forall|r: int, c: int| self@.has(r, c) implies (
                            #[trigger] drift.moves[r][c]).total()
                                == self@.cells[r][c].units() by {
                                assert(drift_before.moves[r][c].total()
                                    == self@.cells[r][c].units());
                            }
                            assert forall|r: int, c: int| fire_state@.has(r, c) implies (
                            #[trigger] drift.spawns[r][c]) <= fire_state@.cells[r][c].alight()
                                && (r > i || (r == i && c >= j + 1) ==> drift.spawns[r][c]
                                == 0) by {
                                assert(drift_before.spawns[r][c]
                                    <= fire_state@.cells[r][c].alight());
                            }
                        }
                    }
                }
                j += 1;
            }
            i += 1;
        }
        proof {
            assert(drift.spawns_within(fire_state@));
            assert(self@.drifts_to(fire_state@, drift, next@));
            lemma_drift_wf(self@, fire_state@, drift, next@);
            lemma_volume_conserved(self@, fire_state@, drift, next@);
        }
        next
    }
}

/// What the smoke shows, as a layer.
pub struct SmokeLayer {
    rows: usize,
    cols: usize,
    features: Vec<Vec<Option<String>>>,
}

impl<'a> From<&'a SmokeState> for SmokeLayer {
    /// What the smoke shows, this time: each cell as its conversion to a
    /// glyph gives it.
    fn from(smoke_state: &'a SmokeState) -> (layer: SmokeLayer)
        ensures
            smoke_state@.shown_by(layer.grid()),
    {
        let mut features: Vec<Vec<Option<String>>> = Vec::new();
        let mut i: usize = 0;
        while i < smoke_state.features.len()
            invariant
                i <= smoke_state.features@.len(),
                features@.len() == i,
                forall|r: int|
                    0 <= r < i ==> (#[trigger] features@[r])@.len()
                        == smoke_state.features@[r]@.len(),
                forall|r: int, c: int|
                    0 <= r < i && 0 <= c < smoke_state.features@[r]@.len()
                        ==> smoke_state.features@[r]@[c].shows(
                        glyph_view(#[trigger] features@[r]@[c]),
                    ),
            decreases smoke_state.features@.len() - i,
        {
            let cells = &smoke_state.features[i];
            let mut row: Vec<Option<String>> = Vec::new();
            let mut j: usize = 0;
            while j < cells.len()
                invariant
                    j <= cells@.len(),
                    row@.len() == j,
                    forall|c: int| 0 <= c < j ==> cells@[c].shows(glyph_view(#[trigger] row@[c])),
                decreases cells@.len() - j,
            {
                let glyph: Option<String> = cells[j].into();
                row.push(glyph);
                j += 1;
            }
            features.push(row);
            i += 1;
        }
        let layer = SmokeLayer { features, rows: smoke_state.rows, cols: smoke_state.cols };
        assert forall|r: int, c: int|
            0 <= r < smoke_state@.cells.len() && 0 <= c < smoke_state@.cells[r].len()
                implies smoke_state@.cells[r][c].shows(#[trigger] layer.grid().cells[r][c]) by {
            assert(layer.grid().cells[r][c] == glyph_view(layer.features@[r]@[c]));
        }
        layer
    }
}

impl<'a> vstd::std_specs::convert::FromSpecImpl<&'a SmokeState> for SmokeLayer {
    /// The dice have a say in what the smoke shows: no function gives it.
    open spec fn obeys_from_spec() -> bool {
        false
    }

    open spec fn from_spec(smoke_state: &'a SmokeState) -> SmokeLayer {
        arbitrary()
    }
}

impl Layerable for SmokeLayer {
    closed spec fn grid(&self) -> LayerGrid {
        LayerGrid {
            rows: self.rows as nat,
            cols: self.cols as nat,
            cells: glyphs_of(self.features@),
        }
    }

    fn rows(&self) -> (rows: usize) {
        self.rows
    }

    fn cols(&self) -> (cols: usize) {
        self.cols
    }

    fn features(&self) -> (features: &Vec<Vec<Option<String>>>) {
        &self.features
    }
}

} // verus!

//! The border: a frame of line glyphs around the grid.

use crate::layers::{glyph_view, glyphs_of, LayerGrid, Layerable};
use vstd::prelude::*;

verus! {

/// The glyph of the top and the bottom edge.
pub const HORIZONTAL: &'static str = "━";

/// The glyph of the left and the right edge.
pub const VERTICAL: &'static str = "┃";

/// The glyph of the top left corner.
pub const TOP_LEFT: &'static str = "┏";

/// The glyph of the top right corner.
pub const TOP_RIGHT: &'static str = "┓";

/// The glyph of the bottom left corner.
pub const BOTTOM_LEFT: &'static str = "┗";

/// The glyph of the bottom right corner.
pub const BOTTOM_RIGHT: &'static str = "┛";

/// What a border of `rows` rows shows in a cell of row `r` before its sides
/// are drawn: the horizontal glyph in the top and the bottom row.
pub open spec fn lines_at(rows: nat, r: int) -> Option<Seq<char>> {
    if r == 0 || r == rows - 1 {
        Some(HORIZONTAL@)
    } else {
        None
    }
}

/// What a border of `rows` by `cols` shows at `(r, c)` before its corners
/// are drawn: the sides over the top and the bottom row.
pub open spec fn edges_at(rows: nat, cols: nat, r: int, c: int) -> Option<Seq<char>> {
    if c == 0 || c == cols - 1 {
        Some(VERTICAL@)
    } else {
        lines_at(rows, r)
    }
}

/// What a border of `rows` by `cols` shows at `(r, c)`: a corner glyph in
/// each corner, the vertical glyph along the left and the right side, the
/// horizontal glyph along the top and the bottom, and nothing inside.
///
/// Where the border is a single row or a single column, two corners fall
/// on one cell. Then the lower one shows, and of two in one row the right
/// one.
pub open spec fn border_glyph(rows: nat, cols: nat, r: int, c: int) -> Option<Seq<char>> {
    if r == rows - 1 && c == cols - 1 {
        Some(BOTTOM_RIGHT@)
    } else if r == rows - 1 && c == 0 {
        Some(BOTTOM_LEFT@)
    } else if r == 0 && c == cols - 1 {
        Some(TOP_RIGHT@)
    } else if r == 0 && c == 0 {
        Some(TOP_LEFT@)
    } else {
        edges_at(rows, cols, r, c)
    }
}

/// A frame of line glyphs around a grid, as a layer.
pub struct Border {
    rows: usize,
    cols: usize,
    features: Vec<Vec<Option<String>>>,
}

impl Border {
    /// The border of a grid of `rows` by `cols`, neither of them zero.
    pub fn new(rows: usize, cols: usize) -> (border: Self)
        requires
            rows > 0,
            cols > 0,
        ensures
            border.grid().rows == rows,
            border.grid().cols == cols,
            border.grid().full(),
            forall|r: int, c: int|
                0 <= r < rows && 0 <= c < cols ==> (#[trigger] border.grid().cells[r][c])
                    == border_glyph(rows as nat, cols as nat, r, c),
    {
        let mut features: Vec<Vec<Option<String>>> = vec![vec![None; cols]; rows];
        assert forall|r: int, c: int| 0 <= r < rows && 0 <= c < cols implies glyph_view(
            #[trigger] features@[r]@[c],
        ) is None by {
            assert(features@[r]@[c] is None);
        }

        let mut j: usize = 0;
        while j < cols
            invariant
                rows > 0,
                j <= cols,
                features@.len() == rows,
                forall|r: int| 0 <= r < rows ==> (#[trigger] features@[r])@.len() == cols,
                forall|r: int, c: int|
                    0 <= r < rows && 0 <= c < cols ==> glyph_view(#[trigger] features@[r]@[c])
                        == (if r == 0 && c < j {
                        Some(HORIZONTAL@)
                    } else {
                        None
                    }),
            decreases cols - j,
        {
            features[0][j] = Some(HORIZONTAL.to_owned());
            j += 1;
        }
        let mut j: usize = 0;
        while j < cols
            invariant
                rows > 0,
                j <= cols,
                features@.len() == rows,
                forall|r: int| 0 <= r < rows ==> (#[trigger] features@[r])@.len() == cols,
                forall|r: int, c: int|
                    0 <= r < rows && 0 <= c < cols ==> glyph_view(#[trigger] features@[r]@[c])
                        == (if r == 0 || (r == rows - 1 && c < j) {
                        Some(HORIZONTAL@)
                    } else {
                        None
                    }),
            decreases cols - j,
        {
            features[rows - 1][j] = Some(HORIZONTAL.to_owned());
            j += 1;
        }
        let mut i: usize = 0;
        while i < rows
            invariant
                cols > 0,
                i <= rows,
                features@.len() == rows,
                forall|r: int| 0 <= r < rows ==> (#[trigger] features@[r])@.len() == cols,
                forall|r: int, c: int|
                    0 <= r < rows && 0 <= c < cols ==> glyph_view(#[trigger] features@[r]@[c])
                        == (if c == 0 && r < i {
                        Some(VERTICAL@)
                    } else {
                        lines_at(rows as nat, r)
                    }),
            decreases rows - i,
        {
            features[i][0] = Some(VERTICAL.to_owned());
            i += 1;
        }
        let mut i: usize = 0;
        while i < rows
            invariant
                cols > 0,
                i <= rows,
                features@.len() == rows,
                forall|r: int| 0 <= r < rows ==> (#[trigger] features@[r])@.len() == cols,
                forall|r: int, c: int|
                    0 <= r < rows && 0 <= c < cols ==> glyph_view(#[trigger] features@[r]@[c])
                        == (if c == 0 || (c == cols - 1 && r < i) {
                        Some(VERTICAL@)
                    } else {
                        lines_at(rows as nat, r)
                    }),
            decreases rows - i,
        {
            features[i][cols - 1] = Some(VERTICAL.to_owned());
            i += 1;
        }
        assert forall|r: int, c: int| 0 <= r < rows && 0 <= c < cols implies glyph_view(
            #[trigger] features@[r]@[c],
        ) == edges_at(rows as nat, cols as nat, r, c) by {}

        features[0][0] = Some(TOP_LEFT.to_owned());
        features[0][cols - 1] = Some(TOP_RIGHT.to_owned());
        features[rows - 1][0] = Some(BOTTOM_LEFT.to_owned());
        features[rows - 1][cols - 1] = Some(BOTTOM_RIGHT.to_owned());

        let border = Border { rows, cols, features };
        assert forall|r: int, c: int| 0 <= r < rows && 0 <= c < cols implies (
        #[trigger] border.grid().cells[r][c]) == border_glyph(rows as nat, cols as nat, r, c) by {
            assert(border.grid().cells[r][c] == glyph_view(border.features@[r]@[c]));
        }
        border
    }
}

impl Layerable for Border {
    closed spec fn grid(&self) -> LayerGrid {
        LayerGrid {
            rows: self.rows as nat,
            cols: self.cols as nat,
            cells: glyphs_of(self.features@),
        }
    }

    fn rows(&self) -> (rows: usize) {
        self.rows
    }

    fn cols(&self) -> (cols: usize) {
        self.cols
    }

    fn features(&self) -> (features: &Vec<Vec<Option<String>>>) {
        &self.features
    }
}

} // verus!

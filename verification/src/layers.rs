//! Layers: grids of cells that each show a glyph or nothing, and the
//! compositor that merges a stack of them into one.

use vstd::prelude::*;
use vstd::utf8::encode_utf8;

verus! {

/// What a cell shows, as the contracts see it: the characters of its glyph,
/// or nothing.
pub open spec fn glyph_view(glyph: Option<String>) -> Option<Seq<char>> {
    match glyph {
        Some(text) => Some(text@),
        None => None,
    }
}

/// What the cells of the rows of `features` show.
pub open spec fn glyphs_of(features: Seq<Vec<Option<String>>>) -> Seq<Seq<Option<Seq<char>>>> {
    Seq::new(
        features.len(),
        |r: int| Seq::new(features[r]@.len(), |c: int| glyph_view(features[r]@[c])),
    )
}

/// A layer as the contracts see it: the size it declares, and the cells it
/// holds, which may be fewer.
pub struct LayerGrid {
    pub rows: nat,
    pub cols: nat,
    pub cells: Seq<Seq<Option<Seq<char>>>>,
}

impl LayerGrid {
    /// What the layer shows at `(r, c)`: the glyph of the cell it holds
    /// there, and nothing where it holds no cell.
    pub open spec fn get(self, r: int, c: int) -> Option<Seq<char>> {
        if 0 <= r < self.cells.len() && 0 <= c < self.cells[r].len() {
            self.cells[r][c]
        } else {
            None
        }
    }

    /// Whether the layer declares at least `rows` rows and `cols` columns.
    pub open spec fn covers(self, rows: nat, cols: nat) -> bool {
        rows <= self.rows && cols <= self.cols
    }

    /// Whether the layer holds a cell for every place it declares.
    pub open spec fn full(self) -> bool {
        &&& self.cells.len() == self.rows
        &&& forall|r: int| 0 <= r < self.rows ==> (#[trigger] self.cells[r]).len() == self.cols
    }
}

/// What can be stacked and merged: a grid of cells that each show a glyph or
/// nothing.
pub trait Layerable {
    /// The layer as the contracts see it.
    spec fn grid(&self) -> LayerGrid;

    /// The number of rows the layer declares.
    fn rows(&self) -> (rows: usize)
        ensures
            rows == self.grid().rows,
    ;

    /// The number of columns the layer declares.
    fn cols(&self) -> (cols: usize)
        ensures
            cols == self.grid().cols,
    ;

    /// The cells the layer holds, row by row.
    fn features(&self) -> (features: &Vec<Vec<Option<String>>>)
        ensures
            glyphs_of(features@) == self.grid().cells,
    ;

    /// What the layer shows at `(row_ix, col_ix)`, a place within the size
    /// it declares: the glyph of the cell it holds there, and nothing where
    /// it holds no cell.
    fn get(&self, row_ix: usize, col_ix: usize) -> (glyph: Option<String>)
        requires
            row_ix < self.grid().rows,
            col_ix < self.grid().cols,
        ensures
            glyph_view(glyph) == self.grid().get(row_ix as int, col_ix as int),
    {
        let features = self.features();
        if row_ix >= features.len() {
            return None;
        }
        let row = &features[row_ix];
        if col_ix >= row.len() {
            return None;
        }
        let elt = row[col_ix].clone();
        assert(glyphs_of(features@)[row_ix as int][col_ix as int] == glyph_view(
            features@[row_ix as int]@[col_ix as int],
        ));
        elt
    }
}

/// A layer of glyphs given as they are, such as the text that burns.
pub struct BasicLayer {
    rows: usize,
    cols: usize,
    features: Vec<Vec<Option<String>>>,
}

impl BasicLayer {
    /// A layer that declares `rows` rows and `cols` columns and holds
    /// `features`.
    pub fn create(rows: usize, cols: usize, features: Vec<Vec<Option<String>>>) -> (layer: Self)
        ensures
            layer.grid() == (LayerGrid {
                rows: rows as nat,
                cols: cols as nat,
                cells: glyphs_of(features@),
            }),
    {
        BasicLayer { rows, cols, features }
    }
}

impl Layerable for BasicLayer {
    closed spec fn grid(&self) -> LayerGrid {
        LayerGrid {
            rows: self.rows as nat,
            cols: self.cols as nat,
            cells: glyphs_of(self.features@),
        }
    }

    fn rows(&self) -> (rows: usize) {
        self.rows
    }

    fn cols(&self) -> (cols: usize) {
        self.cols
    }

    fn features(&self) -> (features: &Vec<Vec<Option<String>>>) {
        &self.features
    }
}

/// What a stack of layers has merged into, to be stacked again as one.
pub struct IntermediateLayer {
    rows: usize,
    cols: usize,
    features: Vec<Vec<Option<String>>>,
}

impl Layerable for IntermediateLayer {
    closed spec fn grid(&self) -> LayerGrid {
        LayerGrid {
            rows: self.rows as nat,
            cols: self.cols as nat,
            cells: glyphs_of(self.features@),
        }
    }

    fn rows(&self) -> (rows: usize) {
        self.rows
    }

    fn cols(&self) -> (cols: usize) {
        self.cols
    }

    fn features(&self) -> (features: &Vec<Vec<Option<String>>>) {
        &self.features
    }
}

/// The layers of a stack as the contracts see them, lowest first.
pub open spec fn grids_of(layers: Seq<&dyn Layerable>) -> Seq<LayerGrid> {
    Seq::new(layers.len(), |k: int| layers[k].grid())
}

/// What a stack of layers shows at `(r, c)`: the glyph of the highest layer
/// that shows one there, and nothing where none does. `layers` holds the
/// lowest layer first.
pub open spec fn topmost(layers: Seq<LayerGrid>, r: int, c: int) -> Option<Seq<char>>
    decreases layers.len(),
{
    if layers.len() == 0 {
        None
    } else {
        match layers.last().get(r, c) {
            Some(glyph) => Some(glyph),
            None => topmost(layers.drop_last(), r, c),
        }
    }
}

/// What stands in a frame for a cell: its glyph, or one space where it
/// shows nothing.
pub open spec fn shown(glyph: Option<Seq<char>>) -> Seq<char> {
    match glyph {
        Some(text) => text,
        None => seq![' '],
    }
}

/// The bytes of the first `cols` cells of row `r` of what a stack of layers
/// shows: the glyphs in UTF-8, one after the other, a space for each cell
/// that shows nothing.
pub open spec fn line_bytes(layers: Seq<LayerGrid>, r: int, cols: nat) -> Seq<u8>
    decreases cols,
{
    if cols == 0 {
        Seq::empty()
    } else {
        line_bytes(layers, r, (cols - 1) as nat) + encode_utf8(shown(topmost(layers, r, cols - 1)))
    }
}

/// The highest layer that shows a glyph decides: where layer `k` shows one
/// at `(r, c)` and no layer above it does, the stack shows the glyph of
/// layer `k`, whatever the layers below it show.
pub proof fn lemma_highest_glyph_wins(layers: Seq<LayerGrid>, k: int, r: int, c: int)
    requires
        0 <= k < layers.len(),
        layers[k].get(r, c) is Some,
        forall|above: int| k < above < layers.len() ==> (#[trigger] layers[above]).get(r, c) is None,
    ensures
        topmost(layers, r, c) == layers[k].get(r, c),
    decreases layers.len(),
{
    if k < layers.len() - 1 {
        assert(layers[layers.len() - 1].get(r, c) is None);
        assert forall|above: int| k < above < layers.drop_last().len() implies (
        #[trigger] layers.drop_last()[above]).get(r, c) is None by {
            assert(layers[above].get(r, c) is None);
        }
        lemma_highest_glyph_wins(layers.drop_last(), k, r, c);
    }
}

/// Where no layer shows a glyph at `(r, c)`, the stack shows none, and the
/// frame holds a space.
pub proof fn lemma_nothing_shown(layers: Seq<LayerGrid>, r: int, c: int)
    requires
        forall|k: int| 0 <= k < layers.len() ==> (#[trigger] layers[k]).get(r, c) is None,
    ensures
        topmost(layers, r, c) is None,
        shown(topmost(layers, r, c)) == seq![' '],
    decreases layers.len(),
{
    if layers.len() > 0 {
        assert(layers[layers.len() - 1].get(r, c) is None);
        assert forall|k: int| 0 <= k < layers.drop_last().len() implies (
        #[trigger] layers.drop_last()[k]).get(r, c) is None by {
            assert(layers[k].get(r, c) is None);
        }
        lemma_nothing_shown(layers.drop_last(), r, c);
    }
}

/// Merges a stack of layers into a frame of a size of its own.
pub struct Compositor {
    pub rows: usize,
    pub cols: usize,
}

impl Compositor {
    /// Whether each of `layers` declares at least the size of the frame.
    pub open spec fn fits(&self, layers: Seq<&dyn Layerable>) -> bool {
        forall|k: int|
            0 <= k < layers.len() ==> (#[trigger] layers[k]).grid().covers(
                self.rows as nat,
                self.cols as nat,
            )
    }

    /// What the stack shows at `(row_ix, col_ix)`.
    fn top_glyph(layers: &[&dyn Layerable], row_ix: usize, col_ix: usize) -> (glyph: Option<String>)
        requires
            forall|k: int|
                0 <= k < layers@.len() ==> (#[trigger] layers@[k]).grid().covers(
                    (row_ix + 1) as nat,
                    (col_ix + 1) as nat,
                ),
        ensures
            glyph_view(glyph) == topmost(grids_of(layers@), row_ix as int, col_ix as int),
    {
        let ghost grids = grids_of(layers@);
        let mut k: usize = layers.len();
        assert(grids.take(k as int) =~= grids);
        while k > 0
            invariant
                k <= layers@.len(),
                grids == grids_of(layers@),
                forall|k: int|
                    0 <= k < layers@.len() ==> (#[trigger] layers@[k]).grid().covers(
                        (row_ix + 1) as nat,
                        (col_ix + 1) as nat,
                    ),
                topmost(grids, row_ix as int, col_ix as int) == topmost(
                    grids.take(k as int),
                    row_ix as int,
                    col_ix as int,
                ),
            decreases k,
        {
            k -= 1;
            assert(grids.take(k + 1).drop_last() =~= grids.take(k as int));
            assert(grids.take(k + 1).last() == layers@[k as int].grid());
            assert(layers@[k as int].grid().covers((row_ix + 1) as nat, (col_ix + 1) as nat));
            let glyph = layers[k].get(row_ix, col_ix);
            if glyph.is_some() {
                return glyph;
            }
        }
        None
    }

    /// The frame that `layers` merge into, lowest layer first: `rows` lines
    /// of bytes, each the glyphs of its `cols` cells in UTF-8, one after
    /// the other. A cell shows the glyph of the highest layer that shows
    /// one there, and a space where none does.
    ///
    /// Every layer must declare at least the size of the frame.
    pub fn composite(&self, layers: &[&dyn Layerable]) -> (field: Vec<Vec<u8>>)
        requires
            self.fits(layers@),
        ensures
            field@.len() == self.rows,
            forall|r: int|
                0 <= r < self.rows ==> (#[trigger] field@[r])@ == line_bytes(
                    grids_of(layers@),
                    r,
                    self.cols as nat,
                ),
    {
        let ghost grids = grids_of(layers@);
        let mut field: Vec<Vec<u8>> = Vec::new();
        let mut i: usize = 0;
        while i < self.rows
            invariant
                self.fits(layers@),
                grids == grids_of(layers@),
                i <= self.rows,
                field@.len() == i,
                forall|r: int|
                    0 <= r < i ==> (#[trigger] field@[r])@ == line_bytes(
                        grids,
                        r,
                        self.cols as nat,
                    ),
            decreases self.rows - i,
        {
            let mut line: Vec<u8> = Vec::new();
            let mut j: usize = 0;
            while j < self.cols
                invariant
                    self.fits(layers@),
                    grids == grids_of(layers@),
                    i < self.rows,
                    j <= self.cols,
                    line@ == line_bytes(grids, i as int, j as nat),
                decreases self.cols - j,
            {
                assert forall|k: int| 0 <= k < layers@.len() implies (
                #[trigger] layers@[k]).grid().covers((i + 1) as nat, (j + 1) as nat) by {
                    assert(layers@[k].grid().covers(self.rows as nat, self.cols as nat));
                }
                let comped = Self::top_glyph(layers, i, j);
                let ghost before = line@;
                match &comped {
                    Some(text) => {
                        let bytes = text.as_str().as_bytes();
                        line.extend_from_slice(bytes);
                        assert(line@ =~= before + bytes@);
                    },
                    None => {
                        let bytes = " ".as_bytes();
                        proof {
                            reveal_strlit(" ");
                            assert(" "@ =~= seq![' ']);
                        }
                        line.extend_from_slice(bytes);
                        assert(line@ =~= before + bytes@);
                    },
                }
                j += 1;
            }
            field.push(line);
            i += 1;
        }
        field
    }

    /// The layer that `layers` merge into, lowest layer first: a layer of
    /// the size of the frame in which a cell shows the glyph of the highest
    /// layer that shows one there, and nothing where none does.
    ///
    /// Every layer must declare at least the size of the frame.
    pub fn intermediate_composite(&self, layers: &[&dyn Layerable]) -> (layer: IntermediateLayer)
        requires
            self.fits(layers@),
        ensures
            layer.grid().rows == self.rows,
            layer.grid().cols == self.cols,
            layer.grid().full(),
            forall|r: int, c: int|
                0 <= r < self.rows && 0 <= c < self.cols ==> (#[trigger] layer.grid().cells[r][c])
                    == topmost(grids_of(layers@), r, c),
    {
        let ghost grids = grids_of(layers@);
        let mut field: Vec<Vec<Option<String>>> = Vec::new();
        let mut i: usize = 0;
        while i < self.rows
            invariant
                self.fits(layers@),
                grids == grids_of(layers@),
                i <= self.rows,
                field@.len() == i,
                forall|r: int| 0 <= r < i ==> (#[trigger] field@[r])@.len() == self.cols,
                forall|r: int, c: int|
                    0 <= r < i && 0 <= c < self.cols ==> glyph_view(#[trigger] field@[r]@[c])
                        == topmost(grids, r, c),
            decreases self.rows - i,
        {
            let mut line: Vec<Option<String>> = Vec::new();
            let mut j: usize = 0;
            while j < self.cols
                invariant
                    self.fits(layers@),
                    grids == grids_of(layers@),
                    i < self.rows,
                    j <= self.cols,
                    line@.len() == j,
                    forall|c: int|
                        0 <= c < j ==> glyph_view(#[trigger] line@[c]) == topmost(
                            grids,
                            i as int,
                            c,
                        ),
                decreases self.cols - j,
            {
                assert forall|k: int| 0 <= k < layers@.len() implies (
                #[trigger] layers@[k]).grid().covers((i + 1) as nat, (j + 1) as nat) by {
                    assert(layers@[k].grid().covers(self.rows as nat, self.cols as nat));
                }
                let comped = Self::top_glyph(layers, i, j);
                line.push(comped);
                j += 1;
            }
            field.push(line);
            i += 1;
        }
        let layer = IntermediateLayer { rows: self.rows, cols: self.cols, features: field };
        assert forall|r: int, c: int| 0 <= r < self.rows && 0 <= c < self.cols implies (
        #[trigger] layer.grid().cells[r][c]) == topmost(grids, r, c) by {
            assert(layer.grid().cells[r][c] == glyph_view(layer.features@[r]@[c]));
        }
        layer
    }
}

} // verus!

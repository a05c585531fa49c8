use vstd::prelude::*;

verus! {

/// The mathematical content of a pixel buffer: a grid `width` cells wide and
/// `height` cells high whose packed colors are laid out row by row, so that
/// the cell in column `x` of row `y` sits at index `y * width + x`.
#[verifier::ext_equal]
pub struct Canvas {
    pub width: nat,
    pub height: nat,
    pub pixels: Seq<u32>,
}

impl Canvas {
    /// There is exactly one color for each cell of the grid.
    pub open spec fn wf(self) -> bool {
        self.pixels.len() == self.width * self.height
    }

    /// The canvas of the given size whose every cell is zero.
    pub open spec fn blank(width: nat, height: nat) -> Canvas {
        Canvas { width, height, pixels: Seq::new(width * height, |i: int| 0u32) }
    }

    /// Linear index of column `x` in row `y`.
    pub open spec fn index_of(self, x: int, y: int) -> int {
        y * self.width + x
    }

    /// `index` addresses one of the stored colors.
    pub open spec fn in_range(self, index: int) -> bool {
        0 <= index < self.pixels.len()
    }

    /// `(x, y)` is a cell of the grid.
    pub open spec fn contains(self, x: int, y: int) -> bool {
        0 <= x < self.width && 0 <= y < self.height
    }

    /// A write at `(x, y)` is in bounds: the coordinates are not negative and
    /// their linear index addresses a stored color. Every cell of a
    /// well-formed canvas is such a point; so is a point past the right edge
    /// whose index falls into a later row.
    pub open spec fn holds(self, x: int, y: int) -> bool {
        0 <= x && 0 <= y && self.index_of(x, y) < self.pixels.len()
    }

    /// Color of the cell in column `x` of row `y`.
    pub open spec fn at(self, x: int, y: int) -> u32 {
        self.pixels[self.index_of(x, y)]
    }

    /// The canvas after one color is stored at `index`.
    pub open spec fn put(self, index: int, color: u32) -> Canvas {
        Canvas { pixels: self.pixels.update(index, color), ..self }
    }

    /// The canvas after `color` is stored at every index of `region`; all
    /// other indices keep their color.
    pub open spec fn paint(self, region: Set<int>, color: u32) -> Canvas {
        Canvas {
            pixels: Seq::new(
                self.pixels.len(),
                |j: int|
                    if region.contains(j) {
                        color
                    } else {
                        self.pixels[j]
                    },
            ),
            ..self
        }
    }
}

/// After a color is stored at an index of the canvas, a read at that index
/// gives that color, a read at any other index gives what was there before,
/// and the canvas has the size it had.
pub proof fn lemma_put_then_read(canvas: Canvas, index: int, color: u32)
    requires
        canvas.in_range(index),
    ensures
        canvas.put(index, color).pixels[index] == color,
        forall|other: int|
            canvas.in_range(other) && other != index ==> canvas.put(index, color).pixels[other]
                == canvas.pixels[other],
        canvas.put(index, color).pixels.len() == canvas.pixels.len(),
        canvas.put(index, color).width == canvas.width,
        canvas.put(index, color).height == canvas.height,
        canvas.wf() ==> canvas.put(index, color).wf(),
{
}

/// Painting nothing changes nothing.
pub proof fn lemma_paint_empty(canvas: Canvas, color: u32)
    ensures
        canvas.paint(Set::empty(), color) == canvas,
{
    assert(canvas.paint(Set::empty(), color).pixels =~= canvas.pixels);
}

/// Storing a color at one more index extends the painted region by that index.
pub proof fn lemma_paint_put(canvas: Canvas, region: Set<int>, index: int, color: u32)
    requires
        canvas.in_range(index),
    ensures
        canvas.paint(region, color).put(index, color) == canvas.paint(region.insert(index), color),
{
    assert(canvas.paint(region, color).put(index, color).pixels =~= canvas.paint(
        region.insert(index),
        color,
    ).pixels);
}

/// Every cell of a well-formed canvas can be written, and distinct cells have
/// distinct indices.
pub proof fn lemma_cell_index(canvas: Canvas, x: int, y: int)
    requires
        canvas.wf(),
        canvas.contains(x, y),
    ensures
        canvas.holds(x, y),
        canvas.in_range(canvas.index_of(x, y)),
        canvas.index_of(x, y) / (canvas.width as int) == y,
        canvas.index_of(x, y) % (canvas.width as int) == x,
{
    let w = canvas.width as int;
    let h = canvas.height as int;
    assert(0 <= y * w && y * w + x < w * h) by (nonlinear_arith)
        requires
            0 <= x < w,
            0 <= y < h,
    ;
    vstd::arithmetic::div_mod::lemma_fundamental_div_mod_converse(y * w + x, w, y, x);
}

} // verus!

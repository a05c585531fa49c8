use crate::canvas::Canvas;
use vstd::prelude::*;

verus! {

/// An axis-aligned rectangle of cells: `width` columns from column `x` on and
/// `height` rows from row `y` on. A rectangle with a side that is not
/// positive has no cell.
pub struct Rect {
    pub x: int,
    pub y: int,
    pub width: int,
    pub height: int,
}

/// The rectangle that a call with these four values asks for.
pub open spec fn rectangle(start_x: i32, start_y: i32, sq_width: i32, sq_height: i32) -> Rect {
    Rect { x: start_x as int, y: start_y as int, width: sq_width as int, height: sq_height as int }
}

impl Rect {
    /// `(a, b)` is the offset of one of the rectangle's cells from its corner.
    pub open spec fn has(self, a: int, b: int) -> bool {
        0 <= a < self.width && 0 <= b < self.height
    }

    /// `(x, y)` is one of the rectangle's cells.
    pub open spec fn covers(self, x: int, y: int) -> bool {
        self.x <= x < self.x + self.width && self.y <= y < self.y + self.height
    }

    /// Linear index, on a canvas `canvas_width` cells wide, of the cell at
    /// offset `(a, b)` from the corner.
    pub open spec fn index_at(self, canvas_width: nat, a: int, b: int) -> int {
        (self.y + b) * canvas_width + (self.x + a)
    }

    /// Indices of the cells in the rows before offset `rows`, and of those
    /// before offset `cols` in the row at offset `rows`.
    pub open spec fn region_upto(self, canvas_width: nat, rows: int, cols: int) -> Set<int> {
        Set::new(
            |j: int|
                exists|a: int, b: int|
                    self.has(a, b) && (b < rows || (b == rows && a < cols)) && j
                        == #[trigger] self.index_at(canvas_width, a, b),
        )
    }

    /// Indices of all cells of the rectangle.
    pub open spec fn region(self, canvas_width: nat) -> Set<int> {
        Set::new(
            |j: int|
                exists|a: int, b: int|
                    self.has(a, b) && j == #[trigger] self.index_at(canvas_width, a, b),
        )
    }

    /// The index of every cell of the rectangle addresses a color of `canvas`.
    pub open spec fn fits(self, canvas: Canvas) -> bool {
        forall|a: int, b: int|
            self.has(a, b) ==> canvas.in_range(#[trigger] self.index_at(canvas.width, a, b))
    }
}

/// When all rows are done the whole rectangle is.
pub proof fn lemma_region_complete(r: Rect, canvas_width: nat, rows: int)
    requires
        rows >= r.height,
    ensures
        r.region_upto(canvas_width, rows, 0) == r.region(canvas_width),
{
    assert(r.region_upto(canvas_width, rows, 0) =~= r.region(canvas_width));
}

/// Before the first cell nothing is done.
pub proof fn lemma_region_start(r: Rect, canvas_width: nat)
    ensures
        r.region_upto(canvas_width, 0, 0) == Set::<int>::empty(),
{
    assert(r.region_upto(canvas_width, 0, 0) =~= Set::<int>::empty());
}

/// One more cell of the current row.
pub proof fn lemma_region_next_cell(r: Rect, canvas_width: nat, a: int, b: int)
    requires
        r.has(a, b),
    ensures
        r.region_upto(canvas_width, b, a + 1) == r.region_upto(canvas_width, b, a).insert(
            r.index_at(canvas_width, a, b),
        ),
{
    assert(r.region_upto(canvas_width, b, a + 1) =~= r.region_upto(canvas_width, b, a).insert(
        r.index_at(canvas_width, a, b),
    ));
}

/// A row that is done up to the rectangle's width is done, and the next one begins.
pub proof fn lemma_region_next_row(r: Rect, canvas_width: nat, b: int, cols: int)
    requires
        cols >= r.width,
    ensures
        r.region_upto(canvas_width, b, cols) == r.region_upto(canvas_width, b + 1, 0),
{
    assert(r.region_upto(canvas_width, b, cols) =~= r.region_upto(canvas_width, b + 1, 0));
}

/// A rectangle that lies on a canvas can be written, and its indices are
/// those of the cells that it covers.
pub proof fn lemma_rect_on_canvas(r: Rect, canvas: Canvas)
    requires
        canvas.wf(),
        0 <= r.x,
        0 <= r.y,
        r.x + r.width <= canvas.width,
        r.y + r.height <= canvas.height,
    ensures
        r.fits(canvas),
        forall|x: int, y: int|
            canvas.contains(x, y) ==> (r.region(canvas.width).contains(
                #[trigger] canvas.index_of(x, y),
            ) <==> r.covers(x, y)),
{
    let w = canvas.width;
    assert forall|a: int, b: int| r.has(a, b) implies canvas.in_range(
        #[trigger] r.index_at(w, a, b),
    ) by {
        crate::canvas::lemma_cell_index(canvas, r.x + a, r.y + b);
    }
    assert forall|x: int, y: int| canvas.contains(x, y) implies (r.region(w).contains(
        #[trigger] canvas.index_of(x, y),
    ) <==> r.covers(x, y)) by {
        crate::canvas::lemma_cell_index(canvas, x, y);
        if r.covers(x, y) {
            assert(r.has(x - r.x, y - r.y));
            assert(canvas.index_of(x, y) == r.index_at(w, x - r.x, y - r.y));
        }
        if r.region(w).contains(canvas.index_of(x, y)) {
            let (a, b) = choose|a: int, b: int|
                r.has(a, b) && canvas.index_of(x, y) == #[trigger] r.index_at(w, a, b);
            crate::canvas::lemma_cell_index(canvas, r.x + a, r.y + b);
        }
    }
}

} // verus!

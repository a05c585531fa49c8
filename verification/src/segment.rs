use crate::canvas::Canvas;
use vstd::prelude::*;

verus! {

/// A point of the integer grid. It may lie outside any canvas.
pub struct Point {
    pub x: int,
    pub y: int,
}

/// The straight line between the grid points `(x0, y0)` and `(x1, y1)`.
pub struct Segment {
    pub x0: int,
    pub x1: int,
    pub y0: int,
    pub y1: int,
}

/// The segment that a call with these four coordinates asks for.
pub open spec fn line_segment(x0: i32, x1: i32, y0: i32, y1: i32) -> Segment {
    Segment { x0: x0 as int, x1: x1 as int, y0: y0 as int, y1: y1 as int }
}

/// Absolute value of an integer.
pub open spec fn magnitude(v: int) -> int {
    if v < 0 {
        -v
    } else {
        v
    }
}

/// The smaller of two integers.
pub open spec fn lesser(a: int, b: int) -> int {
    if a <= b {
        a
    } else {
        b
    }
}

/// The larger of two integers.
pub open spec fn greater(a: int, b: int) -> int {
    if a <= b {
        b
    } else {
        a
    }
}

/// How far a line that covers `rise` cells across `run` cells has moved along
/// its minor axis after `k` unit steps along its major axis: `k * rise / run`
/// rounded to the nearest integer, an exact half rounding down.
pub open spec fn minor_offset(k: int, run: int, rise: int) -> int {
    if run > 0 {
        (2 * k * rise + run - 1) / (2 * run)
    } else {
        0
    }
}

/// The decision variable of the incremental algorithm before step `k`: twice
/// the signed distance, scaled by `run`, between the ideal line one step ahead
/// and the midpoint above the current minor coordinate.
pub open spec fn decision(k: int, run: int, rise: int) -> int {
    2 * rise * (k + 1) - run * (2 * minor_offset(k, run, rise) + 1)
}

/// `minor_offset` is the one integer `m` with
/// `(2m - 1) * run < 2 * k * rise <= (2m + 1) * run`.
pub proof fn lemma_minor_offset_nearest(k: int, run: int, rise: int)
    requires
        run > 0,
    ensures
        (2 * minor_offset(k, run, rise) - 1) * run < 2 * k * rise,
        2 * k * rise <= (2 * minor_offset(k, run, rise) + 1) * run,
{
    let x = 2 * k * rise + run - 1;
    let d = 2 * run;
    let m = x / d;
    let r = x % d;
    vstd::arithmetic::div_mod::lemma_fundamental_div_mod(x, d);
    vstd::arithmetic::div_mod::lemma_mod_bound(x, d);
    assert((2 * m - 1) * run < 2 * k * rise && 2 * k * rise <= (2 * m + 1) * run) by (nonlinear_arith)
        requires
            x == d * m + r,
            0 <= r < d,
            d == 2 * run,
            x == 2 * k * rise + run - 1,
    ;
}

/// Any integer between the two bounds of `lemma_minor_offset_nearest` is the offset.
pub proof fn lemma_minor_offset_unique(k: int, run: int, rise: int, m: int)
    requires
        run > 0,
        (2 * m - 1) * run < 2 * k * rise,
        2 * k * rise <= (2 * m + 1) * run,
    ensures
        minor_offset(k, run, rise) == m,
{
    let x = 2 * k * rise + run - 1;
    let d = 2 * run;
    let r = x - m * d;
    assert(0 <= r < d) by (nonlinear_arith)
        requires
            r == x - m * d,
            d == 2 * run,
            x == 2 * k * rise + run - 1,
            (2 * m - 1) * run < 2 * k * rise,
            2 * k * rise <= (2 * m + 1) * run,
    ;
    vstd::arithmetic::div_mod::lemma_fundamental_div_mod_converse(x, d, m, r);
}

/// The incremental algorithm starts on the line with the decision variable
/// at `2 * rise - run`.
pub proof fn lemma_decision_start(run: int, rise: int)
    ensures
        minor_offset(0, run, rise) == 0,
        decision(0, run, rise) == 2 * rise - run,
{
    assert(2 * rise * (0 + 1) == 2 * rise && run * (2 * 0 + 1) == run) by (nonlinear_arith);
    if run > 0 {
        assert((2 * 0 - 1) * run < 2 * 0 * rise && 2 * 0 * rise <= (2 * 0 + 1) * run)
            by (nonlinear_arith)
            requires
                run > 0,
        ;
        lemma_minor_offset_unique(0, run, rise, 0);
    }
}

/// One step of the incremental algorithm: the minor coordinate advances exactly
/// when the decision variable is positive, and the variable then moves by
/// `2 * (rise - run)`, else by `2 * rise`. It never leaves `(2 * rise - 2 * run, 2 * rise]`.
pub proof fn lemma_decision_step(k: int, run: int, rise: int)
    requires
        run > 0,
        0 <= rise <= run,
    ensures
        2 * rise - 2 * run < decision(k, run, rise) <= 2 * rise,
        decision(k, run, rise) > 0 ==> minor_offset(k + 1, run, rise) == minor_offset(k, run, rise)
            + 1 && decision(k + 1, run, rise) == decision(k, run, rise) + 2 * (rise - run),
        decision(k, run, rise) <= 0 ==> minor_offset(k + 1, run, rise) == minor_offset(
            k,
            run,
            rise,
        ) && decision(k + 1, run, rise) == decision(k, run, rise) + 2 * rise,
{
    let m = minor_offset(k, run, rise);
    let d = decision(k, run, rise);
    lemma_minor_offset_nearest(k, run, rise);
    assert(d == 2 * k * rise + 2 * rise - (2 * m + 1) * run) by (nonlinear_arith)
        requires
            d == 2 * rise * (k + 1) - run * (2 * m + 1),
    ;
    assert((2 * m - 1) * run == (2 * m + 1) * run - 2 * run) by (nonlinear_arith);
    assert(2 * (k + 1) * rise == 2 * k * rise + 2 * rise) by (nonlinear_arith);
    if d > 0 {
        assert((2 * (m + 1) - 1) * run == (2 * m + 1) * run) by (nonlinear_arith);
        assert((2 * (m + 1) + 1) * run == (2 * m + 1) * run + 2 * run) by (nonlinear_arith);
        lemma_minor_offset_unique(k + 1, run, rise, m + 1);
        assert(2 * rise * (k + 2) - run * (2 * (m + 1) + 1) == 2 * rise * (k + 1) - run * (2 * m
            + 1) + 2 * (rise - run)) by (nonlinear_arith);
    } else {
        lemma_minor_offset_unique(k + 1, run, rise, m);
        assert(2 * rise * (k + 2) - run * (2 * m + 1) == 2 * rise * (k + 1) - run * (2 * m + 1) + 2
            * rise) by (nonlinear_arith);
    }
}

/// Along the whole run the offset stays between nothing and the full rise,
/// and it reaches the full rise at the end.
pub proof fn lemma_minor_offset_range(k: int, run: int, rise: int)
    requires
        0 <= rise <= run,
        0 <= k <= run,
    ensures
        0 <= minor_offset(k, run, rise) <= rise,
        minor_offset(0, run, rise) == 0,
        minor_offset(run, run, rise) == rise,
{
    lemma_decision_start(run, rise);
    if run > 0 {
        let m = minor_offset(k, run, rise);
        lemma_minor_offset_nearest(k, run, rise);
        assert(0 <= m <= rise) by (nonlinear_arith)
            requires
                run > 0,
                0 <= rise <= run,
                0 <= k <= run,
                (2 * m - 1) * run < 2 * k * rise,
                2 * k * rise <= (2 * m + 1) * run,
        ;
        assert((2 * rise - 1) * run < 2 * run * rise && 2 * run * rise <= (2 * rise + 1) * run)
            by (nonlinear_arith)
            requires
                run > 0,
        ;
        lemma_minor_offset_unique(run, run, rise, rise);
    }
}

impl Segment {
    /// The line covers more columns than rows, so it is drawn one cell per
    /// column; else it is drawn one cell per row.
    pub open spec fn shallow(self) -> bool {
        magnitude(self.y1 - self.y0) < magnitude(self.x1 - self.x0)
    }

    /// Drawing proceeds along the major axis in ascending order, so it sets
    /// out from the second endpoint when that one comes first on that axis.
    pub open spec fn reversed(self) -> bool {
        if self.shallow() {
            self.x1 < self.x0
        } else {
            self.y1 < self.y0
        }
    }

    /// The same line with its endpoints exchanged.
    pub open spec fn flipped(self) -> Segment {
        Segment { x0: self.x1, x1: self.x0, y0: self.y1, y1: self.y0 }
    }

    /// The endpoint at which drawing sets out.
    pub open spec fn start(self) -> Point {
        if self.reversed() {
            Point { x: self.x1, y: self.y1 }
        } else {
            Point { x: self.x0, y: self.y0 }
        }
    }

    /// The endpoint at which drawing arrives.
    pub open spec fn end(self) -> Point {
        if self.reversed() {
            Point { x: self.x0, y: self.y0 }
        } else {
            Point { x: self.x1, y: self.y1 }
        }
    }

    /// Extent along the major axis: the larger of the two extents.
    pub open spec fn run(self) -> int {
        if self.shallow() {
            magnitude(self.x1 - self.x0)
        } else {
            magnitude(self.y1 - self.y0)
        }
    }

    /// Extent along the minor axis: the smaller of the two extents.
    pub open spec fn rise(self) -> int {
        if self.shallow() {
            magnitude(self.y1 - self.y0)
        } else {
            magnitude(self.x1 - self.x0)
        }
    }

    /// Number of cells drawn: one for each position on the major axis, both
    /// endpoints included.
    pub open spec fn len(self) -> int {
        self.run() + 1
    }

    /// The minor coordinate falls from start to end. Where it stays level the
    /// line counts as rising.
    pub open spec fn falling(self) -> bool {
        if self.shallow() {
            self.end().y < self.start().y
        } else {
            self.end().x < self.start().x
        }
    }

    /// Signed displacement along the minor axis after `k` steps.
    pub open spec fn drift(self, k: int) -> int {
        if self.falling() {
            -minor_offset(k, self.run(), self.rise())
        } else {
            minor_offset(k, self.run(), self.rise())
        }
    }

    /// The `k`-th cell drawn, counted from zero at the start: the grid point
    /// on the `k`-th column (or row, for a steep line) from the start that is
    /// nearest to the ideal line, the one nearer to the start's row (or
    /// column) when two are equally near.
    pub open spec fn point(self, k: int) -> Point {
        if self.shallow() {
            Point { x: self.start().x + k, y: self.start().y + self.drift(k) }
        } else {
            Point { x: self.start().x + self.drift(k), y: self.start().y + k }
        }
    }

    /// Linear index of the `k`-th cell on a canvas `width` cells wide.
    pub open spec fn index_at(self, width: nat, k: int) -> int {
        self.point(k).y * width + self.point(k).x
    }

    /// Indices of the first `n` cells.
    pub open spec fn region_upto(self, width: nat, n: int) -> Set<int> {
        Set::new(|j: int| exists|k: int| 0 <= k < n && j == #[trigger] self.index_at(width, k))
    }

    /// Indices of all cells of the line.
    pub open spec fn region(self, width: nat) -> Set<int> {
        self.region_upto(width, self.len())
    }

    /// Every cell of the line can be written on `canvas`.
    pub open spec fn fits(self, canvas: Canvas) -> bool {
        forall|k: int|
            0 <= k < self.len() ==> canvas.holds((#[trigger] self.point(k)).x, self.point(k).y)
    }
}

/// A line is the same set of cells whichever endpoint is named first.
pub proof fn lemma_flipped(s: Segment, k: int)
    ensures
        s.flipped().len() == s.len(),
        s.flipped().point(k) == s.point(k),
{
}

/// Exchanging the endpoints changes neither the indices of a line nor
/// whether it can be written.
pub proof fn lemma_flipped_region(s: Segment, canvas: Canvas)
    ensures
        s.flipped().region(canvas.width) == s.region(canvas.width),
        s.flipped().fits(canvas) == s.fits(canvas),
{
    let t = s.flipped();
    assert forall|k: int| t.point(k) == s.point(k) && t.index_at(canvas.width, k) == s.index_at(
        canvas.width,
        k,
    ) by {
        lemma_flipped(s, k);
    }
    assert(t.region(canvas.width) =~= s.region(canvas.width));
    assert(t.fits(canvas) == s.fits(canvas));
}

/// The line begins at one endpoint and finishes at the other.
pub proof fn lemma_endpoints(s: Segment)
    ensures
        s.len() >= 1,
        s.point(0) == s.start(),
        s.point(s.len() - 1) == s.end(),
{
    lemma_minor_offset_range(0, s.run(), s.rise());
}

/// No cell of the line leaves the rectangle spanned by its endpoints.
pub proof fn lemma_point_between_endpoints(s: Segment, k: int)
    requires
        0 <= k < s.len(),
    ensures
        s.x0 <= s.point(k).x <= s.x1 || s.x1 <= s.point(k).x <= s.x0,
        s.y0 <= s.point(k).y <= s.y1 || s.y1 <= s.point(k).y <= s.y0,
{
    lemma_minor_offset_range(k, s.run(), s.rise());
}

/// A line between two cells of a canvas stays on the canvas, so all of it
/// can be written.
pub proof fn lemma_fits_between_cells(s: Segment, canvas: Canvas)
    requires
        canvas.wf(),
        canvas.contains(s.x0, s.y0),
        canvas.contains(s.x1, s.y1),
    ensures
        s.fits(canvas),
        forall|k: int| 0 <= k < s.len() ==> canvas.contains((#[trigger] s.point(k)).x, s.point(k).y),
{
    assert forall|k: int| 0 <= k < s.len() implies canvas.contains(
        (#[trigger] s.point(k)).x,
        s.point(k).y,
    ) && canvas.holds(s.point(k).x, s.point(k).y) by {
        lemma_point_between_endpoints(s, k);
        crate::canvas::lemma_cell_index(canvas, s.point(k).x, s.point(k).y);
    }
}

/// A line has one cell more than its longer extent is long.
pub proof fn lemma_len_is_longer_extent(s: Segment)
    ensures
        s.len() == greater(magnitude(s.x1 - s.x0), magnitude(s.y1 - s.y0)) + 1,
{
}

/// A line whose endpoints coincide is one cell, so drawing it stores exactly
/// one color, at that cell.
pub proof fn lemma_line_of_one_point(canvas: Canvas, s: Segment, color: u32)
    requires
        s.x0 == s.x1,
        s.y0 == s.y1,
        s.fits(canvas),
    ensures
        s.len() == 1,
        s.point(0) == (Point { x: s.x0, y: s.y0 }),
        s.region(canvas.width) == set![canvas.index_of(s.x0, s.y0)],
        canvas.paint(s.region(canvas.width), color) == canvas.put(
            canvas.index_of(s.x0, s.y0),
            color,
        ),
{
    let w = canvas.width;
    let index = canvas.index_of(s.x0, s.y0);
    lemma_endpoints(s);
    assert(s.index_at(w, 0) == index);
    assert(s.region(w) =~= set![index]);
    assert(canvas.holds(s.point(0).x, s.point(0).y));
    assert(canvas.paint(s.region(w), color).pixels =~= canvas.put(index, color).pixels);
}

/// A horizontal line is the unbroken span of its row from the left endpoint
/// to the right one: drawing it stores the color at every index from that of
/// the left endpoint to that of the right one, and at no other.
pub proof fn lemma_horizontal_line(canvas: Canvas, s: Segment, color: u32)
    requires
        s.y0 == s.y1,
        s.fits(canvas),
    ensures
        forall|k: int|
            0 <= k < s.len() ==> #[trigger] s.point(k) == (Point {
                x: lesser(s.x0, s.x1) + k,
                y: s.y0,
            }),
        forall|j: int|
            canvas.in_range(j) ==> #[trigger] canvas.paint(s.region(canvas.width), color).pixels[j]
                == if canvas.index_of(lesser(s.x0, s.x1), s.y0) <= j <= canvas.index_of(
                greater(s.x0, s.x1),
                s.y0,
            ) {
                color
            } else {
                canvas.pixels[j]
            },
{
    let w = canvas.width;
    let left = lesser(s.x0, s.x1);
    let right = greater(s.x0, s.x1);
    assert forall|k: int| 0 <= k < s.len() implies #[trigger] s.point(k) == (Point {
        x: left + k,
        y: s.y0,
    }) by {
        lemma_minor_offset_range(k, s.run(), s.rise());
    }
    assert forall|j: int| canvas.in_range(j) implies (s.region(w).contains(j) <==> canvas.index_of(
        left,
        s.y0,
    ) <= j <= canvas.index_of(right, s.y0)) by {
        let k = j - canvas.index_of(left, s.y0);
        if 0 <= k < s.len() {
            assert(s.point(k).x == left + k);
            assert(j == s.index_at(w, k));
        }
        if s.region(w).contains(j) {
            let i = choose|i: int| 0 <= i < s.len() && j == #[trigger] s.index_at(w, i);
            assert(s.point(i).x == left + i);
        }
    }
}

} // verus!

use crate::buffer::{coordinates_to_index, draw_to_buffer, PixelBuffer};
use crate::canvas::{lemma_paint_empty, lemma_paint_put};
use crate::picture::{lemma_blit_next_row, lemma_blit_put, lemma_blit_start, SourceImage};
use crate::rect::{
    lemma_region_complete, lemma_region_next_cell, lemma_region_next_row, lemma_region_start,
    rectangle,
};
use crate::segment::{
    decision, lemma_decision_start, lemma_decision_step, lemma_flipped_region,
    lemma_point_between_endpoints, line_segment, minor_offset,
};
use vstd::prelude::*;

verus! {

/// Fills the rectangle of `sq_width` by `sq_height` cells whose first cell is
/// `(start_x, start_y)` with `color`, row after row.
///
/// Nothing is clipped: the index of every cell, `(start_y + b) * width +
/// start_x + a` for the offsets `a` and `b` within the rectangle, has to be
/// one that the buffer has. A rectangle with a side that is not positive has
/// no cell, and the buffer stays as it is.
pub fn square(
    buffer: &mut PixelBuffer,
    start_x: i32,
    start_y: i32,
    sq_width: i32,
    sq_height: i32,
    color: u32,
)
    requires
        rectangle(start_x, start_y, sq_width, sq_height).fits(old(buffer)@),
    ensures
        final(buffer)@ == old(buffer)@.paint(
            rectangle(start_x, start_y, sq_width, sq_height).region(old(buffer)@.width),
            color,
        ),
{
    let ghost r = rectangle(start_x, start_y, sq_width, sq_height);
    let ghost before = buffer@;
    let width = buffer.width();
    proof {
        buffer.lemma_fits_memory();
        lemma_paint_empty(before, color);
        lemma_region_start(r, before.width);
    }
    let mut y: i32 = 0;
    while y < sq_height
        invariant
            r == rectangle(start_x, start_y, sq_width, sq_height),
            r.fits(before),
            width == before.width,
            before.pixels.len() <= usize::MAX,
            0 <= y,
            buffer@ == before.paint(r.region_upto(before.width, y as int, 0), color),
        decreases sq_height - y,
    {
        let mut x: i32 = 0;
        while x < sq_width
            invariant
                r == rectangle(start_x, start_y, sq_width, sq_height),
                r.fits(before),
                width == before.width,
                before.pixels.len() <= usize::MAX,
                0 <= y < sq_height,
                0 <= x,
                buffer@ == before.paint(r.region_upto(before.width, y as int, x as int), color),
            decreases sq_width - x,
        {
            let row: i128 = start_y as i128 + y as i128;
            let column: i128 = start_x as i128 + x as i128;
            proof {
                assert(r.has(x as int, y as int));
                assert(before.in_range(r.index_at(before.width, x as int, y as int)));
                assert(-0x1_0000_0000_0000_0000_0000_0000 <= row * width
                    <= 0x1_0000_0000_0000_0000_0000_0000) by (nonlinear_arith)
                    requires
                        -0x1_0000_0000 <= row <= 0x1_0000_0000,
                        0 <= width <= 0x1_0000_0000_0000_0000,
                ;
            }
            let index: i128 = row * (width as i128) + column;
            draw_to_buffer(buffer, index as usize, color);
            proof {
                lemma_paint_put(
                    before,
                    r.region_upto(before.width, y as int, x as int),
                    index as int,
                    color,
                );
                lemma_region_next_cell(r, before.width, x as int, y as int);
            }
            x = x + 1;
        }
        proof {
            lemma_region_next_row(r, before.width, y as int, x as int);
        }
        y = y + 1;
    }
    proof {
        lemma_region_complete(r, before.width, y as int);
    }
}

/// Draws a shallow line from its left end `(x0, y0)` to its right end
/// `(x1, y1)`, one cell in each column.
///
/// The row is kept with an integer decision variable: it starts at twice the
/// rise less the run; where it is positive the row moves one cell towards
/// `y1` and the variable loses twice the run; in every column it gains twice
/// the rise.
fn bresenham_low(buffer: &mut PixelBuffer, x0: i32, x1: i32, y0: i32, y1: i32, color: u32)
    requires
        x0 <= x1,
        line_segment(x0, x1, y0, y1).shallow(),
        line_segment(x0, x1, y0, y1).fits(old(buffer)@),
    ensures
        final(buffer)@ == old(buffer)@.paint(
            line_segment(x0, x1, y0, y1).region(old(buffer)@.width),
            color,
        ),
{
    let ghost s = line_segment(x0, x1, y0, y1);
    let ghost before = buffer@;
    let width = buffer.width();
    let dx: i64 = x1 as i64 - x0 as i64;
    let mut dy: i64 = y1 as i64 - y0 as i64;
    let mut yi: i64 = 1;
    if dy < 0 {
        yi = -1;
        dy = -dy;
    }
    let mut d: i64 = 2 * dy - dx;
    let mut y: i64 = y0 as i64;
    let mut x: i64 = x0 as i64;
    proof {
        buffer.lemma_fits_memory();
        lemma_decision_start(dx as int, dy as int);
        lemma_paint_empty(before, color);
        assert(s.region_upto(before.width, 0) =~= Set::empty());
    }
    while x <= x1 as i64
        invariant
            s == line_segment(x0, x1, y0, y1),
            s.shallow(),
            !s.reversed(),
            s.fits(before),
            dx == s.run(),
            dy == s.rise(),
            0 <= dy < dx,
            yi == if s.falling() { -1int } else { 1int },
            width == before.width,
            before.pixels.len() <= usize::MAX,
            x0 <= x <= x1 + 1,
            y == y0 + s.drift(x - x0),
            0 <= minor_offset(x - x0, dx as int, dy as int) <= x - x0,
            d == decision(x - x0, dx as int, dy as int),
            buffer@ == before.paint(s.region_upto(before.width, x - x0), color),
        decreases x1 - x + 1,
    {
        let ghost k = x - x0;
        proof {
            assert(before.holds(s.point(k).x, s.point(k).y));
            lemma_point_between_endpoints(s, k);
            lemma_decision_step(k, dx as int, dy as int);
        }
        let index = coordinates_to_index(x as usize, y as usize, width);
        draw_to_buffer(buffer, index, color);
        proof {
            assert(index == s.index_at(before.width, k));
            lemma_paint_put(before, s.region_upto(before.width, k), index as int, color);
            assert(s.region_upto(before.width, k).insert(index as int) =~= s.region_upto(
                before.width,
                k + 1,
            ));
        }
        if d > 0 {
            y = y + yi;
            d = d + 2 * (dy - dx);
        } else {
            d = d + 2 * dy;
        }
        x = x + 1;
    }
}

/// Draws a steep line from its top end `(x0, y0)` to its bottom end
/// `(x1, y1)`, one cell in each row, the bottom row included. The column is
/// kept as `bresenham_low` keeps the row.
fn bresenham_high(buffer: &mut PixelBuffer, x0: i32, x1: i32, y0: i32, y1: i32, color: u32)
    requires
        y0 <= y1,
        !line_segment(x0, x1, y0, y1).shallow(),
        line_segment(x0, x1, y0, y1).fits(old(buffer)@),
    ensures
        final(buffer)@ == old(buffer)@.paint(
            line_segment(x0, x1, y0, y1).region(old(buffer)@.width),
            color,
        ),
{
    let ghost s = line_segment(x0, x1, y0, y1);
    let ghost before = buffer@;
    let width = buffer.width();
    let mut dx: i64 = x1 as i64 - x0 as i64;
    let dy: i64 = y1 as i64 - y0 as i64;
    let mut xi: i64 = 1;
    if dx < 0 {
        xi = -1;
        dx = -dx;
    }
    let mut d: i64 = 2 * dx - dy;
    let mut x: i64 = x0 as i64;
    let mut y: i64 = y0 as i64;
    proof {
        buffer.lemma_fits_memory();
        lemma_decision_start(dy as int, dx as int);
        lemma_paint_empty(before, color);
        assert(s.region_upto(before.width, 0) =~= Set::empty());
    }
    while y <= y1 as i64
        invariant
            s == line_segment(x0, x1, y0, y1),
            !s.shallow(),
            !s.reversed(),
            s.fits(before),
            dy == s.run(),
            dx == s.rise(),
            0 <= dx <= dy,
            xi == if s.falling() { -1int } else { 1int },
            width == before.width,
            before.pixels.len() <= usize::MAX,
            y0 <= y <= y1 + 1,
            x == x0 + s.drift(y - y0),
            0 <= minor_offset(y - y0, dy as int, dx as int) <= y - y0,
            d == decision(y - y0, dy as int, dx as int),
            buffer@ == before.paint(s.region_upto(before.width, y - y0), color),
        decreases y1 - y + 1,
    {
        let ghost k = y - y0;
        proof {
            assert(before.holds(s.point(k).x, s.point(k).y));
            lemma_point_between_endpoints(s, k);
            if dy > 0 {
                lemma_decision_step(k, dy as int, dx as int);
            } else {
                assert(decision(k + 1, 0, 0) == 0) by (nonlinear_arith);
            }
        }
        let index = coordinates_to_index(x as usize, y as usize, width);
        draw_to_buffer(buffer, index, color);
        proof {
            assert(index == s.index_at(before.width, k));
            lemma_paint_put(before, s.region_upto(before.width, k), index as int, color);
            assert(s.region_upto(before.width, k).insert(index as int) =~= s.region_upto(
                before.width,
                k + 1,
            ));
        }
        if d > 0 {
            x = x + xi;
            d = d + 2 * (dx - dy);
        } else {
            d = d + 2 * dx;
        }
        y = y + 1;
    }
}

/// Draws the straight line between `(x0, y0)` and `(x1, y1)` in `color`, with
/// integer arithmetic only.
///
/// The line has one cell for each position along its longer extent, both
/// endpoints included, so `max(|x1 - x0|, |y1 - y0|) + 1` cells in all; a
/// line whose endpoints coincide is that one cell. The cells are the same
/// whichever endpoint is given first. Nothing is clipped: every cell of the
/// line has to be one that the buffer can take.
pub fn line(buffer: &mut PixelBuffer, x0: i32, x1: i32, y0: i32, y1: i32, color: u32)
    requires
        line_segment(x0, x1, y0, y1).fits(old(buffer)@),
    ensures
        final(buffer)@ == old(buffer)@.paint(
            line_segment(x0, x1, y0, y1).region(old(buffer)@.width),
            color,
        ),
{
    let dx: i64 = x1 as i64 - x0 as i64;
    let dy: i64 = y1 as i64 - y0 as i64;
    let across: i64 = if dx < 0 { -dx } else { dx };
    let down: i64 = if dy < 0 { -dy } else { dy };
    proof {
        lemma_flipped_region(line_segment(x0, x1, y0, y1), buffer@);
    }
    if down < across {
        if x0 > x1 {
            bresenham_low(buffer, x1, x0, y1, y0, color)
        } else {
            bresenham_low(buffer, x0, x1, y0, y1, color)
        }
    } else {
        if y0 > y1 {
            bresenham_high(buffer, x1, x0, y1, y0, color)
        } else {
            bresenham_high(buffer, x0, x1, y0, y1, color)
        }
    }
}

/// Copies a decoded image into the buffer with its first pixel on cell
/// `(x, y)`, each pixel packed with alpha in the top byte, then red, green
/// and blue.
///
/// An image that would reach past the right or the lower edge of the buffer
/// is not drawn at all: the buffer stays as it is, and this is no fault.
pub fn image(buffer: &mut PixelBuffer, source: &SourceImage, x: usize, y: usize)
    ensures
        final(buffer)@ == old(buffer)@.blit(source@, x as int, y as int),
{
    let ghost before = buffer@;
    let ghost picture = source@;
    let width = buffer.width();
    let height = buffer.height();
    let columns = source.width();
    let rows = source.height();
    if columns as usize > width || x > width - columns as usize || rows as usize > height || y
        > height - rows as usize {
        return;
    }
    proof {
        buffer.lemma_fits_memory();
        lemma_blit_start(before, picture, x as int, y as int);
    }
    let mut i: u32 = 0;
    while i < rows
        invariant
            before.wf(),
            before.takes(picture, x as int, y as int),
            picture == source@,
            width == before.width,
            height == before.height,
            before.pixels.len() <= usize::MAX,
            columns == picture.width,
            rows == picture.height,
            i <= rows,
            buffer@ == before.blit_upto(picture, x as int, y as int, i as int, 0),
        decreases rows - i,
    {
        let mut j: u32 = 0;
        while j < columns
            invariant
                before.wf(),
                before.takes(picture, x as int, y as int),
                picture == source@,
                width == before.width,
                height == before.height,
                before.pixels.len() <= usize::MAX,
                columns == picture.width,
                rows == picture.height,
                i < rows,
                j <= columns,
                buffer@ == before.blit_upto(picture, x as int, y as int, i as int, j as int),
            decreases columns - j,
        {
            let pixel = source.get_pixel(j, i);
            proof {
                lemma_blit_put(before, picture, x as int, y as int, j as int, i as int);
            }
            let index = coordinates_to_index(x + j as usize, y + i as usize, width);
            draw_to_buffer(buffer, index, pixel.pack());
            j = j + 1;
        }
        proof {
            lemma_blit_next_row(before, picture, x as int, y as int, i as int, j as int);
        }
        i = i + 1;
    }
}

} // verus!

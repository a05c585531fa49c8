use crate::canvas::Canvas;
use vstd::prelude::*;

verus! {

/// An owned grid of 32-bit packed colors (alpha in bits 24 to 31, red in 16
/// to 23, green in 8 to 15, blue in 0 to 7), stored row by row. Its size is
/// fixed when it is made: it always holds one color for each cell.
#[derive(Debug)]
pub struct PixelBuffer {
    width: usize,
    height: usize,
    pixels: Vec<u32>,
}

/// A write was asked for at an index that the buffer does not have.
#[derive(Clone, Copy, Debug, PartialEq, Eq)]
pub struct OutOfBounds {
    /// The index that was asked for.
    pub index: usize,
    /// The number of colors that the buffer holds.
    pub len: usize,
}

impl View for PixelBuffer {
    type V = Canvas;

    closed spec fn view(&self) -> Canvas {
        Canvas { width: self.width as nat, height: self.height as nat, pixels: self.pixels@ }
    }
}

impl PixelBuffer {
    #[verifier::type_invariant]
    spec fn sized(self) -> bool {
        self.pixels@.len() == self.width * self.height
    }

    /// The colors are held in memory, so both sides of the grid and the
    /// number of colors fit the machine's index type.
    pub proof fn lemma_fits_memory(self)
        ensures
            self@.width <= usize::MAX,
            self@.height <= usize::MAX,
            self@.pixels.len() <= usize::MAX,
    {
        assert(self.pixels.len() == self.pixels@.len());
    }

    /// A buffer of `width` by `height` cells, all zero. There is none when the
    /// number of cells does not fit the machine's index type.
    pub fn new(width: usize, height: usize) -> (made: Option<PixelBuffer>)
        ensures
            made is Some <==> width * height <= usize::MAX,
            made matches Some(buffer) ==> buffer@ == Canvas::blank(width as nat, height as nat),
    {
        match width.checked_mul(height) {
            Some(len) => {
                let pixels = vec![0u32; len];
                let buffer = PixelBuffer { width, height, pixels };
                assert(buffer@ =~= Canvas::blank(width as nat, height as nat));
                Some(buffer)
            },
            None => None,
        }
    }

    /// Number of columns.
    pub fn width(&self) -> (width: usize)
        ensures
            width == self@.width,
            self@.wf(),
    {
        proof {
            use_type_invariant(self);
        }
        self.width
    }

    /// Number of rows.
    pub fn height(&self) -> (height: usize)
        ensures
            height == self@.height,
            self@.wf(),
    {
        proof {
            use_type_invariant(self);
        }
        self.height
    }

    /// Number of colors held, which is the number of cells.
    pub fn len(&self) -> (len: usize)
        ensures
            len == self@.pixels.len(),
            self@.wf(),
    {
        proof {
            use_type_invariant(self);
        }
        self.pixels.len()
    }

    /// The colors, row by row, as the display surface takes them.
    pub fn pixels(&self) -> (pixels: &Vec<u32>)
        ensures
            pixels@ == self@.pixels,
    {
        &self.pixels
    }

    /// The color stored at `index`, if the buffer has that index.
    pub fn get(&self, index: usize) -> (color: Option<u32>)
        ensures
            color == if index < self@.pixels.len() {
                Some(self@.pixels[index as int])
            } else {
                None
            },
    {
        if index < self.pixels.len() {
            Some(self.pixels[index])
        } else {
            None
        }
    }

    /// Whether `(x, y)` is a cell of the grid.
    pub fn contains(&self, x: i32, y: i32) -> (inside: bool)
        ensures
            inside == self@.contains(x as int, y as int),
    {
        x >= 0 && y >= 0 && (x as usize) < self.width && (y as usize) < self.height
    }

    /// Resets every cell to zero.
    pub fn clear(&mut self)
        ensures
            final(self)@ == Canvas::blank(old(self)@.width, old(self)@.height),
    {
        proof {
            use_type_invariant(&*self);
        }
        let len = self.pixels.len();
        let mut i: usize = 0;
        while i < len
            invariant
                i <= len,
                len == self.pixels@.len(),
                len == self.width * self.height,
                self.width == old(self).width,
                self.height == old(self).height,
                forall|j: int| 0 <= j < i ==> self.pixels@[j] == 0u32,
            decreases len - i,
        {
            self.pixels[i] = 0;
            i += 1;
        }
        assert(self@ =~= Canvas::blank(old(self)@.width, old(self)@.height));
    }
}

/// Linear index of the cell in column `x` of row `y` on a canvas `width`
/// cells wide. Nothing is checked against a buffer here: that is for the
/// write that uses the index.
pub fn coordinates_to_index(x: usize, y: usize, width: usize) -> (index: usize)
    requires
        y * width + x <= usize::MAX,
    ensures
        index == y * width + x,
{
    assert(0 <= y * width <= y * width + x) by (nonlinear_arith);
    y * width + x
}

/// Stores `color` at `index`. An index that the buffer does not have is a
/// fault of the caller, its first index past the end as much as any later one.
pub fn draw_to_buffer(buffer: &mut PixelBuffer, index: usize, color: u32)
    requires
        index < old(buffer)@.pixels.len(),
    ensures
        final(buffer)@ == old(buffer)@.put(index as int, color),
        final(buffer)@.pixels[index as int] == color,
        forall|other: int|
            0 <= other < old(buffer)@.pixels.len() && other != index
                ==> final(buffer)@.pixels[other] == old(buffer)@.pixels[other],
{
    proof {
        use_type_invariant(&*buffer);
    }
    buffer.pixels[index] = color;
}

/// Stores `color` at `index` if the buffer has that index, and else reports
/// the index together with the buffer's size and leaves the buffer as it was.
pub fn checked_draw_to_buffer(buffer: &mut PixelBuffer, index: usize, color: u32) -> (done: Result<
    (),
    OutOfBounds,
>)
    ensures
        index < old(buffer)@.pixels.len() ==> done is Ok && final(buffer)@ == old(buffer)@.put(
            index as int,
            color,
        ),
        index >= old(buffer)@.pixels.len() ==> done == Err::<(), OutOfBounds>(
            OutOfBounds { index, len: old(buffer)@.pixels.len() as usize },
        ) && final(buffer)@ == old(buffer)@,
{
    let len = buffer.len();
    if index < len {
        draw_to_buffer(buffer, index, color);
        Ok(())
    } else {
        Err(OutOfBounds { index, len })
    }
}

} // verus!

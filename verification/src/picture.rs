use crate::canvas::Canvas;
use vstd::prelude::*;

verus! {

/// One decoded pixel: red, green, blue and alpha, a byte each.
#[derive(Clone, Copy, Debug, PartialEq, Eq)]
pub struct Rgba {
    pub r: u8,
    pub g: u8,
    pub b: u8,
    pub a: u8,
}

impl Rgba {
    /// The pixel as one packed color: alpha in the top byte, then red, then
    /// green, and blue in the lowest byte.
    pub open spec fn argb(self) -> u32 {
        ((self.a as u32) << 24) | ((self.r as u32) << 16) | ((self.g as u32) << 8) | (
        self.b as u32)
    }

    /// Packs the four channels into one color.
    pub fn pack(self) -> (color: u32)
        ensures
            color == self.argb(),
    {
        ((self.a as u32) << 24) | ((self.r as u32) << 16) | ((self.g as u32) << 8) | (
        self.b as u32)
    }
}

/// Each channel keeps its own byte of the packed color, so it can be read
/// back from it, and the color is the four bytes side by side.
pub proof fn lemma_argb_layout(pixel: Rgba)
    ensures
        (pixel.argb() >> 24) & 0xff == pixel.a,
        (pixel.argb() >> 16) & 0xff == pixel.r,
        (pixel.argb() >> 8) & 0xff == pixel.g,
        pixel.argb() & 0xff == pixel.b,
        pixel.argb() == pixel.a * 0x100_0000 + pixel.r * 0x1_0000 + pixel.g * 0x100 + pixel.b,
{
    let a = pixel.a;
    let r = pixel.r;
    let g = pixel.g;
    let b = pixel.b;
    let packed = ((a as u32) << 24) | ((r as u32) << 16) | ((g as u32) << 8) | (b as u32);
    assert((packed >> 24) & 0xff == a && (packed >> 16) & 0xff == r && (packed >> 8) & 0xff == g
        && packed & 0xff == b && packed == a * 0x100_0000 + r * 0x1_0000 + g * 0x100 + b)
        by (bit_vector)
        requires
            packed == ((a as u32) << 24) | ((r as u32) << 16) | ((g as u32) << 8) | (b as u32),
    ;
}

/// The mathematical content of a decoded image: `width` by `height` pixels,
/// row by row.
#[verifier::ext_equal]
pub struct Picture {
    pub width: nat,
    pub height: nat,
    pub pixels: Seq<Rgba>,
}

impl Picture {
    /// There is exactly one pixel for each position.
    pub open spec fn wf(self) -> bool {
        self.pixels.len() == self.width * self.height
    }

    /// The pixel in column `x` of row `y`.
    pub open spec fn at(self, x: int, y: int) -> Rgba {
        self.pixels[y * self.width + x]
    }
}

impl Canvas {
    /// A picture laid down with its first pixel on cell `(x, y)` lies on the
    /// canvas.
    pub open spec fn takes(self, picture: Picture, x: int, y: int) -> bool {
        x + picture.width <= self.width && y + picture.height <= self.height
    }

    /// The canvas after the first `rows` rows of `picture`, and the first
    /// `cols` pixels of the row after them, are stored packed, the pixel in
    /// column `i` of row `j` on cell `(x + i, y + j)`.
    pub open spec fn blit_upto(self, picture: Picture, x: int, y: int, rows: int, cols: int)
        -> Canvas {
        Canvas {
            pixels: Seq::new(
                self.pixels.len(),
                |j: int|
                    {
                        let column = j % (self.width as int) - x;
                        let row = j / (self.width as int) - y;
                        if 0 <= column < picture.width && 0 <= row < picture.height && (row < rows
                            || (row == rows && column < cols)) {
                            picture.at(column, row).argb()
                        } else {
                            self.pixels[j]
                        }
                    },
            ),
            ..self
        }
    }

    /// The canvas after `picture` is drawn with its first pixel on cell
    /// `(x, y)`: every pixel is stored packed on the cell at its offset, and
    /// all other cells keep their color. A picture that does not lie on the
    /// canvas is not drawn at all.
    pub open spec fn blit(self, picture: Picture, x: int, y: int) -> Canvas {
        if self.takes(picture, x, y) {
            self.blit_upto(picture, x, y, picture.height as int, 0)
        } else {
            self
        }
    }
}

/// Before the first pixel the canvas is as it was.
pub proof fn lemma_blit_start(canvas: Canvas, picture: Picture, x: int, y: int)
    ensures
        canvas.blit_upto(picture, x, y, 0, 0) == canvas,
{
    assert(canvas.blit_upto(picture, x, y, 0, 0).pixels =~= canvas.pixels);
}

/// Storing the packed pixel of column `i` in row `j` on its cell is one more
/// pixel of that row done.
pub proof fn lemma_blit_put(canvas: Canvas, picture: Picture, x: int, y: int, i: int, j: int)
    requires
        canvas.wf(),
        canvas.takes(picture, x, y),
        0 <= x,
        0 <= y,
        0 <= i < picture.width,
        0 <= j < picture.height,
    ensures
        canvas.in_range(canvas.index_of(x + i, y + j)),
        canvas.blit_upto(picture, x, y, j, i).put(
            canvas.index_of(x + i, y + j),
            picture.at(i, j).argb(),
        ) == canvas.blit_upto(picture, x, y, j, i + 1),
{
    let w = canvas.width as int;
    let p = canvas.index_of(x + i, y + j);
    crate::canvas::lemma_cell_index(canvas, x + i, y + j);
    let stored = canvas.blit_upto(picture, x, y, j, i).put(p, picture.at(i, j).argb());
    let wanted = canvas.blit_upto(picture, x, y, j, i + 1);
    assert forall|q: int| 0 <= q < canvas.pixels.len() implies stored.pixels[q]
        == wanted.pixels[q] by {
        if q != p {
            vstd::arithmetic::div_mod::lemma_fundamental_div_mod(q, w);
            vstd::arithmetic::div_mod::lemma_fundamental_div_mod(p, w);
        }
    }
    assert(stored.pixels =~= wanted.pixels);
}

/// A row that is done up to the picture's width is done, and the next one begins.
pub proof fn lemma_blit_next_row(
    canvas: Canvas,
    picture: Picture,
    x: int,
    y: int,
    rows: int,
    cols: int,
)
    requires
        cols >= picture.width,
    ensures
        canvas.blit_upto(picture, x, y, rows, cols) == canvas.blit_upto(picture, x, y, rows + 1, 0),
{
    assert(canvas.blit_upto(picture, x, y, rows, cols).pixels =~= canvas.blit_upto(
        picture,
        x,
        y,
        rows + 1,
        0,
    ).pixels);
}

/// What drawing a picture that lies on the canvas does, cell by cell: the
/// cell at the offset of each pixel holds that pixel, packed, and every cell
/// that the picture does not cover holds what it held.
pub proof fn lemma_blit_cells(canvas: Canvas, picture: Picture, x: int, y: int)
    requires
        canvas.wf(),
        0 <= x,
        0 <= y,
        canvas.takes(picture, x, y),
    ensures
        canvas.blit(picture, x, y).wf(),
        forall|i: int, j: int|
            0 <= i < picture.width && 0 <= j < picture.height ==> #[trigger] canvas.blit(
                picture,
                x,
                y,
            ).at(x + i, y + j) == picture.at(i, j).argb(),
        forall|cx: int, cy: int|
            canvas.contains(cx, cy) && !(x <= cx < x + picture.width && y <= cy < y
                + picture.height) ==> #[trigger] canvas.blit(picture, x, y).at(cx, cy)
                == canvas.at(cx, cy),
{
    let drawn = canvas.blit(picture, x, y);
    assert forall|i: int, j: int| 0 <= i < picture.width && 0 <= j < picture.height implies
        #[trigger] drawn.at(x + i, y + j) == picture.at(i, j).argb() by {
        crate::canvas::lemma_cell_index(canvas, x + i, y + j);
    }
    assert forall|cx: int, cy: int|
        canvas.contains(cx, cy) && !(x <= cx < x + picture.width && y <= cy < y
            + picture.height) implies #[trigger] drawn.at(cx, cy) == canvas.at(cx, cy) by {
        crate::canvas::lemma_cell_index(canvas, cx, cy);
    }
}

/// A decoded image, as an image decoder hands it over.
#[derive(Debug)]
pub struct SourceImage {
    width: u32,
    height: u32,
    pixels: Vec<Rgba>,
}

impl View for SourceImage {
    type V = Picture;

    closed spec fn view(&self) -> Picture {
        Picture { width: self.width as nat, height: self.height as nat, pixels: self.pixels@ }
    }
}

impl SourceImage {
    #[verifier::type_invariant]
    spec fn sized(self) -> bool {
        self.pixels@.len() == self.width * self.height
    }

    /// The image of `width` by `height` pixels that are given row by row.
    /// There is none when the number of pixels is not that of the positions.
    pub fn new(width: u32, height: u32, pixels: Vec<Rgba>) -> (made: Option<SourceImage>)
        ensures
            made is Some <==> pixels@.len() == width * height,
            made matches Some(image) ==> image@ == (Picture {
                width: width as nat,
                height: height as nat,
                pixels: pixels@,
            }),
    {
        assert(width * height <= 0xffff_ffff * 0xffff_ffff) by (nonlinear_arith)
            requires
                width <= 0xffff_ffff,
                height <= 0xffff_ffff,
        ;
        let positions: u64 = (width as u64) * (height as u64);
        if pixels.len() as u64 == positions {
            Some(SourceImage { width, height, pixels })
        } else {
            None
        }
    }

    /// Number of columns.
    pub fn width(&self) -> (width: u32)
        ensures
            width == self@.width,
            self@.wf(),
    {
        proof {
            use_type_invariant(self);
        }
        self.width
    }

    /// Number of rows.
    pub fn height(&self) -> (height: u32)
        ensures
            height == self@.height,
            self@.wf(),
    {
        proof {
            use_type_invariant(self);
        }
        self.height
    }

    /// The pixel in column `x` of row `y`.
    pub fn get_pixel(&self, x: u32, y: u32) -> (pixel: Rgba)
        requires
            x < self@.width,
            y < self@.height,
        ensures
            pixel == self@.at(x as int, y as int),
    {
        proof {
            use_type_invariant(self);
            assert(self.pixels.len() == self.pixels@.len());
            assert(0 <= y * self.width && y * self.width + x < self.width * self.height)
                by (nonlinear_arith)
                requires
                    x < self.width,
                    y < self.height,
            ;
        }
        self.pixels[y as usize * self.width as usize + x as usize]
    }
}

} // verus!

//! The finished picture, held in an image buffer.

use vstd::prelude::*;
use crate::utils::rgb::RGB;
use image::{ImageBuffer, Rgb};

verus! {

/// A finished picture: an `image::ImageBuffer` of 8-bit RGB pixels.
///
/// The buffer is opaque to Verus. What it holds is spoken of through
/// [`frame_pixels`] and [`frame_dimensions`], and only the four private
/// functions below touch it.
#[verifier::external_body]
pub struct Frame {
    buffer: ImageBuffer<Rgb<u8>, Vec<u8>>,
}

/// The pixels of a frame in row-major order, the top-left pixel first.
pub uninterp spec fn frame_pixels(frame: Frame) -> Seq<RGB>;

/// The width and the height of a frame, in that order.
pub uninterp spec fn frame_dimensions(frame: Frame) -> (nat, nat);

/// The colour of a fresh frame's pixels.
pub open spec fn black() -> RGB {
    RGB { r: 0, g: 0, b: 0 }
}

/// A position inside a raster has an offset inside its row-major sequence.
pub proof fn lemma_position_in_range(width: int, height: int, x: int, y: int)
    requires
        0 <= x < width,
        0 <= y < height,
    ensures
        0 <= y * width + x < width * height,
{
    assert(y * width + x < width * height) by (nonlinear_arith)
        requires
            0 <= x < width,
            0 <= y < height,
    ;
    assert(0 <= y * width) by (nonlinear_arith)
        requires
            0 <= y,
            0 <= width,
    ;
}

/// Two positions of a raster with the same row-major offset are the same
/// position.
pub proof fn lemma_position_injective(width: int, x1: int, y1: int, x2: int, y2: int)
    requires
        0 <= x1 < width,
        0 <= x2 < width,
    ensures
        y1 * width + x1 == y2 * width + x2 ==> x1 == x2 && y1 == y2,
{
    if y1 * width + x1 == y2 * width + x2 {
        assert(y1 == y2) by (nonlinear_arith)
            requires
                0 <= x1 < width,
                0 <= x2 < width,
                y1 * width + x1 == y2 * width + x2,
        ;
    }
}

impl Frame {
    /// The number of columns.
    pub open spec fn spec_width(self) -> nat {
        frame_dimensions(self).0
    }

    /// The number of rows.
    pub open spec fn spec_height(self) -> nat {
        frame_dimensions(self).1
    }

    /// There is one pixel for each position, and the dimensions are ones an
    /// image buffer can have.
    pub open spec fn well_formed(self) -> bool {
        &&& self.spec_width() <= u32::MAX
        &&& self.spec_height() <= u32::MAX
        &&& frame_pixels(self).len() == self.spec_width() * self.spec_height()
    }

    /// The pixel in column `x` of row `y`.
    pub open spec fn at(self, x: int, y: int) -> RGB {
        frame_pixels(self)[y * self.spec_width() + x]
    }

    /// `ImageBuffer::new`: a buffer of the given dimensions whose samples
    /// are all zero. The call panics where the sample count overflows or
    /// exceeds what a vector can hold, which the precondition rules out.
    #[verifier::external_body]
    fn blank(width: u32, height: u32) -> (frame: Frame)
        requires
            3 * width * height <= isize::MAX,
        ensures
            frame_dimensions(frame) == (width as nat, height as nat),
            frame_pixels(frame) == Seq::new((width * height) as nat, |i: int| black()),
    {
        Frame { buffer: ImageBuffer::new(width, height) }
    }

    /// `ImageBuffer::dimensions`: the width and height the buffer was made
    /// with.
    #[verifier::external_body]
    fn dimensions(&self) -> (size: (u32, u32))
        ensures
            (size.0 as nat, size.1 as nat) == frame_dimensions(*self),
    {
        self.buffer.dimensions()
    }

    /// `ImageBuffer::put_pixel`: overwrites the one pixel at `(x, y)` and
    /// leaves the others and the dimensions alone. The call panics outside
    /// the bounds, which the precondition rules out.
    #[verifier::external_body]
    fn put_pixel(&mut self, x: u32, y: u32, color: RGB)
        requires
            old(self).well_formed(),
            x < old(self).spec_width(),
            y < old(self).spec_height(),
        ensures
            frame_dimensions(*final(self)) == frame_dimensions(*old(self)),
            frame_pixels(*final(self)) == frame_pixels(*old(self)).update(
                y * old(self).spec_width() + x,
                color,
            ),
    {
        self.buffer.put_pixel(x, y, Rgb([color.r, color.g, color.b]))
    }

    /// `ImageBuffer::get_pixel`: the pixel at `(x, y)`. The call panics
    /// outside the bounds, which the precondition rules out.
    #[verifier::external_body]
    fn get_pixel(&self, x: u32, y: u32) -> (color: RGB)
        requires
            self.well_formed(),
            x < self.spec_width(),
            y < self.spec_height(),
        ensures
            color == self.at(x as int, y as int),
    {
        let pixel = self.buffer.get_pixel(x, y);
        RGB { r: pixel.0[0], g: pixel.0[1], b: pixel.0[2] }
    }

    /// A frame of the given dimensions with every pixel black.
    pub fn new(width: u32, height: u32) -> (frame: Frame)
        requires
            3 * width * height <= isize::MAX,
        ensures
            frame.well_formed(),
            frame.spec_width() == width,
            frame.spec_height() == height,
            forall|x: int, y: int| 0 <= x < width && 0 <= y < height ==> #[trigger] frame.at(x, y) == black(),
    {
        let frame = Frame::blank(width, height);
        assert forall|x: int, y: int| 0 <= x < width && 0 <= y < height implies #[trigger] frame.at(
            x,
            y,
        ) == black() by {
            lemma_position_in_range(width as int, height as int, x, y);
        }
        frame
    }

    /// Sets the pixel in column `x` of row `y` and no other.
    pub fn set(&mut self, x: u32, y: u32, color: RGB)
        requires
            old(self).well_formed(),
            x < old(self).spec_width(),
            y < old(self).spec_height(),
        ensures
            final(self).well_formed(),
            frame_dimensions(*final(self)) == frame_dimensions(*old(self)),
            final(self).at(x as int, y as int) == color,
            forall|i: int, j: int|
                0 <= i < old(self).spec_width() && 0 <= j < old(self).spec_height() && (i != x || j
                    != y) ==> #[trigger] final(self).at(i, j) == old(self).at(i, j),
    {
        let ghost width = self.spec_width() as int;
        let ghost height = self.spec_height() as int;
        let ghost before = *self;
        proof {
            lemma_position_in_range(width, height, x as int, y as int);
        }
        self.put_pixel(x, y, color);
        assert forall|i: int, j: int|
            0 <= i < width && 0 <= j < height && (i != x || j != y) implies #[trigger] self.at(i, j)
            == before.at(i, j) by {
            lemma_position_in_range(width, height, i, j);
            lemma_position_injective(width, i, j, x as int, y as int);
        }
    }

    /// The pixel in column `x` of row `y`, or `None` outside the frame.
    pub fn pixel(&self, x: u32, y: u32) -> (color: Option<RGB>)
        requires
            self.well_formed(),
        ensures
            color == if x < self.spec_width() && y < self.spec_height() {
                Some(self.at(x as int, y as int))
            } else {
                None
            },
    {
        let (width, height) = self.dimensions();
        if x < width && y < height {
            Some(self.get_pixel(x, y))
        } else {
            None
        }
    }

    /// The number of columns.
    pub fn width(&self) -> (w: u32)
        ensures
            w == self.spec_width(),
    {
        self.dimensions().0
    }

    /// The number of rows.
    pub fn height(&self) -> (h: u32)
        ensures
            h == self.spec_height(),
    {
        self.dimensions().1
    }
}

} // verus!

//! Frames and the sampling of rectangles from them.
//!
//! A frame is the pixel grid of one captured image, in logical space: the
//! pixel at column `c`, row `r` of the frame is the point `(c, r)`. Pixels
//! are stored row by row, three bytes each: hue, saturation, value. A frame
//! source that has no image yet reports a width or height that is not
//! positive; such a frame holds no pixels.

use crate::geometry::Rect;
use vstd::prelude::*;

verus! {

/// Bytes per pixel of a frame buffer.
pub const BYTES_PER_PIXEL: usize = 3;

/// One pixel: hue, saturation and value, a byte each.
#[derive(Debug, Clone, Copy, PartialEq, Eq, Structural)]
pub struct HsvPixel {
    pub h: u8,
    pub s: u8,
    pub v: u8,
}

/// Why a rectangle could not be sampled from a frame.
#[derive(Debug, Clone, Copy, PartialEq, Eq, Structural)]
pub enum SampleError {
    /// The rectangle does not lie wholly inside the frame.
    OutOfBounds,
    /// The frame source had no image: the frame's width or height is not
    /// positive.
    NoFrameAvailable,
}

/// The number of pixels of a frame of the given dimensions: none unless both
/// are positive.
pub open spec fn pixel_count(width: int, height: int) -> nat {
    if width > 0 && height > 0 {
        (width * height) as nat
    } else {
        0
    }
}

/// A buffer of `len` bytes whose elements are `elem_size` bytes each holds
/// exactly the pixels of a frame of the given dimensions, in the three-byte
/// pixel format.
pub open spec fn buffer_fits(width: int, height: int, elem_size: nat, len: nat) -> bool {
    &&& len == pixel_count(width, height) * elem_size
    &&& pixel_count(width, height) > 0 ==> elem_size == BYTES_PER_PIXEL
}

/// The mathematical content of a frame.
pub struct FrameView {
    pub width: int,
    pub height: int,
    pub data: Seq<u8>,
}

impl FrameView {
    /// The frame holds an image.
    pub open spec fn available(self) -> bool {
        self.width > 0 && self.height > 0
    }

    /// The buffer has three bytes for each pixel and nothing more.
    pub open spec fn wf(self) -> bool {
        self.data.len() == pixel_count(self.width, self.height) * BYTES_PER_PIXEL
    }

    /// The rectangle lies wholly inside the frame. A rectangle of zero
    /// width or height does so when its corner does.
    pub open spec fn holds(self, rect: Rect) -> bool {
        &&& 0 <= rect.x
        &&& 0 <= rect.y
        &&& rect.right() <= self.width
        &&& rect.bottom() <= self.height
    }

    /// Where the first byte of the pixel at column `c`, row `r` lies in the
    /// buffer.
    pub open spec fn offset(self, c: int, r: int) -> int {
        (r * self.width + c) * BYTES_PER_PIXEL
    }

    /// The pixel at column `c`, row `r`.
    pub open spec fn pixel(self, c: int, r: int) -> HsvPixel {
        HsvPixel {
            h: self.data[self.offset(c, r)],
            s: self.data[self.offset(c, r) + 1],
            v: self.data[self.offset(c, r) + 2],
        }
    }
}

/// The pixels of one captured image.
#[derive(Debug)]
pub struct Frame {
    width: i32,
    height: i32,
    data: Vec<u8>,
}

impl View for Frame {
    type V = FrameView;

    closed spec fn view(&self) -> FrameView {
        FrameView { width: self.width as int, height: self.height as int, data: self.data@ }
    }
}

/// The pixel at column `c`, row `r` of a frame lies inside the frame's
/// buffer, and so does everything before it.
pub proof fn lemma_offset_in_buffer(f: FrameView, c: int, r: int)
    requires
        f.wf(),
        0 <= c < f.width,
        0 <= r < f.height,
    ensures
        0 <= r * f.width,
        r * f.width + c < f.width * f.height,
        0 <= f.offset(c, r),
        f.offset(c, r) + 2 < f.data.len(),
{
    let w = f.width;
    let h = f.height;
    assert(0 <= r * w && r * w + c < w * h) by (nonlinear_arith)
        requires
            0 <= c < w,
            0 <= r < h,
    ;
}

impl Frame {
    /// Holds of every frame at all times: the buffer has three bytes for
    /// each pixel and nothing more.
    #[verifier::type_invariant]
    pub open spec fn inv(self) -> bool {
        self@.wf()
    }

    /// Takes ownership of a pixel buffer as a frame.
    ///
    /// `data` is the buffer as the frame source reports it, `elem_size` the
    /// number of bytes the source says one pixel takes. The buffer is
    /// accepted when its length is the number of pixels times `elem_size`
    /// and, if there are any pixels, `elem_size` is three. A source that has
    /// no image yet reports a width or height that is not positive; its
    /// buffer must be empty.
    pub fn from_buffer(width: i32, height: i32, elem_size: usize, data: Vec<u8>) -> (made: Option<
        Frame,
    >)
        ensures
            made is Some <==> buffer_fits(
                width as int,
                height as int,
                elem_size as nat,
                data@.len(),
            ),
            made matches Some(f) ==> f@ == (FrameView {
                width: width as int,
                height: height as int,
                data: data@,
            }) && f@.wf(),
    {
        let len: u128 = data.len() as u128;
        if width > 0 && height > 0 {
            assert(0 < width * height <= 0x3fff_ffff_0000_0001) by (nonlinear_arith)
                requires
                    0 < width <= 0x7fff_ffff,
                    0 < height <= 0x7fff_ffff,
            ;
            let pixels: u128 = (width as u128) * (height as u128);
            if elem_size == BYTES_PER_PIXEL && len == pixels * 3 {
                Some(Frame { width, height, data })
            } else {
                proof {
                    if elem_size == BYTES_PER_PIXEL {
                        assert(pixels * elem_size == pixels * 3);
                    }
                }
                None
            }
        } else {
            assert(pixel_count(width as int, height as int) * elem_size == 0) by (nonlinear_arith)
                requires
                    pixel_count(width as int, height as int) == 0,
            ;
            if len == 0 {
                Some(Frame { width, height, data })
            } else {
                None
            }
        }
    }

    /// The width the frame source reported.
    pub fn width(&self) -> (w: i32)
        ensures
            w == self@.width,
    {
        self.width
    }

    /// The height the frame source reported.
    pub fn height(&self) -> (h: i32)
        ensures
            h == self@.height,
    {
        self.height
    }

    /// Whether the frame holds an image.
    pub fn is_available(&self) -> (yes: bool)
        ensures
            yes == self@.available(),
    {
        self.width > 0 && self.height > 0
    }

    /// The pixel at `column`, `row`, for a place inside the frame.
    pub(crate) fn fetch(&self, column: usize, row: usize) -> (p: HsvPixel)
        requires
            column < self@.width,
            row < self@.height,
        ensures
            p == self@.pixel(column as int, row as int),
    {
        proof {
            use_type_invariant(self);
            lemma_offset_in_buffer(self@, column as int, row as int);
        }
        let width: usize = self.width as usize;
        let len: usize = self.data.len();
        assert(len == self@.width * self@.height * 3);
        assert(row * width + column < self@.width * self@.height) by (nonlinear_arith)
            requires
                0 <= column < self@.width,
                0 <= row < self@.height,
                width == self@.width,
        ;
        assert(0 <= row * width) by (nonlinear_arith)
            requires
                0 <= row,
                0 <= width,
        ;
        let at: usize = (row * width + column) * BYTES_PER_PIXEL;
        HsvPixel { h: self.data[at], s: self.data[at + 1], v: self.data[at + 2] }
    }

    /// The pixel at `column`, `row`, or nothing for a place outside the
    /// frame.
    pub fn pixel(&self, column: i32, row: i32) -> (p: Option<HsvPixel>)
        ensures
            p is Some <==> 0 <= column < self@.width && 0 <= row < self@.height,
            p matches Some(px) ==> px == self@.pixel(column as int, row as int),
    {
        if 0 <= column && column < self.width && 0 <= row && row < self.height {
            Some(self.fetch(column as usize, row as usize))
        } else {
            None
        }
    }

    /// Whether `rect` lies wholly inside the frame.
    pub fn holds(&self, rect: Rect) -> (yes: bool)
        ensures
            yes == self@.holds(rect),
    {
        rect.x >= 0 && rect.y >= 0 && rect.x as i128 + rect.width as i128 <= self.width as i128
            && rect.y as i128 + rect.height as i128 <= self.height as i128
    }

    /// The part of the frame that `rect` covers, as a view into the frame:
    /// no pixel is copied.
    ///
    /// Fails with `NoFrameAvailable` when the frame holds no image, and
    /// otherwise with `OutOfBounds` when `rect` does not lie wholly inside
    /// the frame. A rectangle inside the frame with zero width or height is
    /// sampled as a sub-image without pixels.
    pub fn sample(&self, rect: Rect) -> (sampled: Result<SubImage<'_>, SampleError>)
        ensures
            match sampled {
                Ok(sub) => self@.available() && self@.holds(rect) && sub@ == (SubImageView {
                    frame: self@,
                    rect,
                }) && sub@.wf(),
                Err(SampleError::NoFrameAvailable) => !self@.available(),
                Err(SampleError::OutOfBounds) => self@.available() && !self@.holds(rect),
            },
    {
        proof {
            use_type_invariant(self);
        }
        if !self.is_available() {
            Err(SampleError::NoFrameAvailable)
        } else if !self.holds(rect) {
            Err(SampleError::OutOfBounds)
        } else {
            Ok(SubImage { frame: self, rect })
        }
    }
}

/// The mathematical content of a sub-image: a frame and the rectangle of it
/// that is looked at.
pub struct SubImageView {
    pub frame: FrameView,
    pub rect: Rect,
}

impl SubImageView {
    /// The frame holds an image and the rectangle lies inside it.
    pub open spec fn wf(self) -> bool {
        self.frame.wf() && self.frame.available() && self.frame.holds(self.rect)
    }

    /// The pixel at column `c`, row `r` of the sub-image, counted from its
    /// own top left corner.
    pub open spec fn pixel_at(self, c: int, r: int) -> HsvPixel {
        self.frame.pixel(self.rect.x + c, self.rect.y + r)
    }

    /// The pixels of the sub-image, row by row.
    pub open spec fn pixels(self) -> Seq<HsvPixel> {
        Seq::new(
            self.rect.area(),
            |i: int| self.pixel_at(i % (self.rect.width as int), i / (self.rect.width as int)),
        )
    }
}

/// A rectangle of a frame, borrowed from the frame.
#[derive(Debug)]
pub struct SubImage<'a> {
    frame: &'a Frame,
    rect: Rect,
}

impl<'a> View for SubImage<'a> {
    type V = SubImageView;

    closed spec fn view(&self) -> SubImageView {
        SubImageView { frame: self.frame@, rect: self.rect }
    }
}

impl<'a> SubImage<'a> {
    /// Holds of every sub-image at all times: its frame holds an image and
    /// its rectangle lies inside the frame.
    #[verifier::type_invariant]
    pub open spec fn inv(self) -> bool {
        self@.wf()
    }

    /// The rectangle of the frame that the sub-image covers.
    pub fn rect(&self) -> (r: Rect)
        ensures
            r == self@.rect,
    {
        self.rect
    }

    /// The number of columns of the sub-image.
    pub fn width(&self) -> (w: u32)
        ensures
            w == self@.rect.width,
    {
        proof {
            use_type_invariant(self);
        }
        self.rect.width as u32
    }

    /// The number of rows of the sub-image.
    pub fn height(&self) -> (h: u32)
        ensures
            h == self@.rect.height,
    {
        proof {
            use_type_invariant(self);
        }
        self.rect.height as u32
    }

    /// The pixel at `column`, `row` of the sub-image, counted from its own
    /// top left corner, for a place inside the sub-image.
    pub(crate) fn fetch(&self, column: u32, row: u32) -> (p: HsvPixel)
        requires
            column < self@.rect.width,
            row < self@.rect.height,
        ensures
            p == self@.pixel_at(column as int, row as int),
    {
        proof {
            use_type_invariant(self);
        }
        let c: usize = (self.rect.x + column as i64) as usize;
        let r: usize = (self.rect.y + row as i64) as usize;
        self.frame.fetch(c, r)
    }

    /// The pixel at `column`, `row` of the sub-image, counted from its own
    /// top left corner, or nothing for a place outside the sub-image.
    pub fn pixel(&self, column: u32, row: u32) -> (p: Option<HsvPixel>)
        ensures
            p is Some <==> column < self@.rect.width && row < self@.rect.height,
            p matches Some(px) ==> px == self@.pixel_at(column as int, row as int),
    {
        if (column as u64) < self.rect.width && (row as u64) < self.rect.height {
            Some(self.fetch(column, row))
        } else {
            None
        }
    }
}

} // verus!

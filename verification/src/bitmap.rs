//! The pixel grid that the rocket is painted on.
//!
//! The grid is an `image::RgbaImage`.  Verus cannot look inside it, so the
//! module names what it holds and states, for each method of the image that
//! the library calls, what that method does to it.  Those statements are
//! believed, not proved; everything else in the library is proved from them.

use crate::codec::png_encoding;
use crate::color::transparent;
use crate::color::Color;
use vstd::prelude::*;

verus! {

/// A grid of pixels, row-major with the origin at the top left.
#[verifier::external_body]
pub struct Bitmap {
    inner: image::RgbaImage,
}

/// The pixels of a bitmap: its rows from top to bottom, each row from left to
/// right.
pub uninterp spec fn bitmap_rows(bitmap: Bitmap) -> Seq<Seq<Color>>;

/// The number of pixels in every row of a bitmap.
pub uninterp spec fn bitmap_width(bitmap: Bitmap) -> nat;

/// Rows of one common length, at most `u32::MAX` of them and each at most
/// that long.
pub open spec fn is_grid(rows: Seq<Seq<Color>>, width: nat) -> bool {
    &&& width <= u32::MAX
    &&& rows.len() <= u32::MAX
    &&& forall|y: int| 0 <= y < rows.len() ==> (#[trigger] rows[y]).len() == width
}

impl View for Bitmap {
    type V = Seq<Seq<Color>>;

    open spec fn view(&self) -> Seq<Seq<Color>> {
        bitmap_rows(*self)
    }
}

impl Bitmap {
    /// The number of columns.
    pub open spec fn spec_width(&self) -> nat {
        bitmap_width(*self)
    }

    /// The number of rows.
    pub open spec fn spec_height(&self) -> nat {
        self@.len()
    }

    /// Every row is as long as the bitmap is wide, and both sizes fit the
    /// 32 bits that the image gives them.
    pub open spec fn wf(&self) -> bool {
        is_grid(self@, self.spec_width())
    }

    /// Whether `(x, y)` names a pixel of the bitmap.
    pub open spec fn holds(&self, x: int, y: int) -> bool {
        0 <= x < self.spec_width() && 0 <= y < self.spec_height()
    }

    /// `ImageBuffer::new`: an image of the given size in which every channel
    /// of every pixel is zero.  The call panics when the byte count
    /// `4 * width * height` is more than a vector can hold, so that is ruled
    /// out.
    #[verifier::external_body]
    fn raw_new(width: u32, height: u32) -> (img: Bitmap)
        requires
            4 * width * height <= isize::MAX,
        ensures
            bitmap_width(img) == width,
            bitmap_rows(img) == Seq::new(
                height as nat,
                |y: int| Seq::new(width as nat, |x: int| transparent()),
            ),
    {
        Bitmap { inner: image::RgbaImage::new(width, height) }
    }

    /// `ImageBuffer::width`.
    #[verifier::external_body]
    fn raw_width(&self) -> (w: u32)
        ensures
            w == bitmap_width(*self),
    {
        self.inner.width()
    }

    /// `ImageBuffer::height`.
    #[verifier::external_body]
    fn raw_height(&self) -> (h: u32)
        ensures
            h == bitmap_rows(*self).len(),
    {
        self.inner.height()
    }

    /// `ImageBuffer::get_pixel`: the pixel in column `x` of row `y`.  The call
    /// panics outside the image, so that is ruled out.
    #[verifier::external_body]
    fn raw_get(&self, x: u32, y: u32) -> (c: Color)
        requires
            x < bitmap_width(*self),
            y < bitmap_rows(*self).len(),
        ensures
            c == bitmap_rows(*self)[y as int][x as int],
    {
        let p = self.inner.get_pixel(x, y);
        Color { r: p.0[0], g: p.0[1], b: p.0[2], a: p.0[3] }
    }

    /// `ImageBuffer::put_pixel`: replaces the pixel in column `x` of row `y`
    /// and leaves every other pixel and the size as they were.  The call
    /// panics outside the image, so that is ruled out.
    #[verifier::external_body]
    fn raw_put(&mut self, x: u32, y: u32, c: Color)
        requires
            x < bitmap_width(*old(self)),
            y < bitmap_rows(*old(self)).len(),
        ensures
            bitmap_width(*final(self)) == bitmap_width(*old(self)),
            bitmap_rows(*final(self)) == bitmap_rows(*old(self)).update(
                y as int,
                bitmap_rows(*old(self))[y as int].update(x as int, c),
            ),
    {
        self.inner.put_pixel(x, y, image::Rgba([c.r, c.g, c.b, c.a]));
    }

    /// `PngEncoder::new` on an empty buffer, then `ImageEncoder::write_image`
    /// with the raw bytes, the width and the height of the image, as 8-bit
    /// RGBA.  The outcome depends on the pixels and the size alone, and
    /// `png_encoding` is its name.  The call panics when the byte count is not
    /// `4 * width * height`, which no image buffer allows.
    #[verifier::external_body]
    pub(crate) fn write_png(&self) -> (r: Result<Vec<u8>, image::ImageError>)
        ensures
            match r {
                Ok(bytes) => png_encoding(bitmap_rows(*self), bitmap_width(*self)) == Some(bytes@),
                Err(_) => png_encoding(bitmap_rows(*self), bitmap_width(*self)) is None,
            },
    {
        let mut buffer = Vec::new();
        let encoder = image::codecs::png::PngEncoder::new(&mut buffer);
        let raw = self.inner.as_raw();
        let (width, height) = (self.inner.width(), self.inner.height());
        let kind = image::ExtendedColorType::Rgba8;
        match image::ImageEncoder::write_image(encoder, raw, width, height, kind) {
            Ok(()) => Ok(buffer),
            Err(e) => Err(e),
        }
    }

    /// A fully transparent bitmap of the given size, which must not take
    /// more bytes than a vector can hold.
    pub fn new(width: u32, height: u32) -> (img: Bitmap)
        requires
            4 * width * height <= isize::MAX,
        ensures
            img.wf(),
            img.spec_width() == width,
            img.spec_height() == height,
            forall|x: int, y: int| img.holds(x, y) ==> #[trigger] img@[y][x] == transparent(),
    {
        Bitmap::raw_new(width, height)
    }

    /// The number of columns.
    pub fn width(&self) -> (w: u32)
        ensures
            w == self.spec_width(),
    {
        self.raw_width()
    }

    /// The number of rows.
    pub fn height(&self) -> (h: u32)
        ensures
            h == self.spec_height(),
    {
        self.raw_height()
    }

    /// The pixel in column `x` of row `y`.
    pub fn get_pixel(&self, x: u32, y: u32) -> (c: Color)
        requires
            self.holds(x as int, y as int),
        ensures
            c == self@[y as int][x as int],
    {
        self.raw_get(x, y)
    }

    /// Replaces the pixel in column `x` of row `y`.
    pub fn put_pixel(&mut self, x: u32, y: u32, c: Color)
        requires
            old(self).wf(),
            old(self).holds(x as int, y as int),
        ensures
            final(self).wf(),
            final(self).spec_width() == old(self).spec_width(),
            final(self).spec_height() == old(self).spec_height(),
            final(self)@ == old(self)@.update(y as int, old(self)@[y as int].update(x as int, c)),
            forall|px: int, py: int|
                old(self).holds(px, py) ==> #[trigger] final(self)@[py][px] == if px == x && py
                    == y {
                    c
                } else {
                    old(self)@[py][px]
                },
    {
        self.raw_put(x, y, c);
    }
}

} // verus!

//! Turns a bitmap into the bytes of a PNG file.

use crate::bitmap::Bitmap;
use crate::color::Color;
use vstd::prelude::*;

verus! {

/// The error of the `image` crate, carried through unread.
#[verifier::external_type_specification]
#[verifier::external_body]
pub struct ExImageError(image::ImageError);

/// The PNG file that the `image` crate writes for the given pixels, row by
/// row, in 8-bit RGBA with its default compression and filter; `None` where
/// it refuses them.
pub uninterp spec fn png_encoding(rows: Seq<Seq<Color>>, width: nat) -> Option<Seq<u8>>;

/// A bitmap that could not be written as a PNG file.
#[derive(Clone, Copy, PartialEq, Eq, Debug, Structural)]
pub struct EncodeError;

/// The PNG encoding of `img`.
///
/// It fails exactly where the encoder refuses the bitmap, and otherwise
/// returns the encoder's bytes unchanged.
pub fn encode_png(img: &Bitmap) -> (r: Result<Vec<u8>, EncodeError>)
    ensures
        match r {
            Ok(bytes) => png_encoding(img@, img.spec_width()) == Some(bytes@),
            Err(_) => png_encoding(img@, img.spec_width()) is None,
        },
{
    match img.write_png() {
        Ok(bytes) => Ok(bytes),
        Err(_) => Err(EncodeError),
    }
}

} // verus!

//! The trusted boundary to the `png` encoder: the one place where the
//! packed buffer, the serialized palette and the transparency table leave
//! the library.

use vstd::prelude::*;
use crate::Error;
use crate::depth::BitDepth;

verus! {

/// `png::EncodingError`, the error type of the `png` encoder, carried
/// through opaquely.
#[verifier::external_type_specification]
#[verifier::external_body]
pub struct ExEncodingError(png::EncodingError);

/// Relies on the `png` encoder: `Encoder::new`, `set_color`, `set_depth`
/// (with `png::BitDepth`'s code for each of the library's four depths),
/// `set_palette`, `set_trns` and `write_header` put the PNG signature and
/// the header chunks (IHDR, PLTE, and tRNS when a table is given) on the
/// writer, and `Writer::write_image_data` compresses and writes the packed
/// scanlines as the image-data chunk. Whether the call returns `Ok` also
/// hangs on the writer, so nothing is promised of the result.
#[verifier::external_body]
pub(crate) fn write_png<W: std::io::Write>(
    writer: W,
    width: u32,
    height: u32,
    depth: BitDepth,
    palette: Vec<u8>,
    trns: Option<Vec<u8>>,
    data: &[u8],
) -> Result<(), png::EncodingError> {
    let mut encoder = png::Encoder::new(writer, width, height);
    encoder.set_color(png::ColorType::Indexed);
    encoder.set_depth(match depth {
        BitDepth::One => png::BitDepth::One,
        BitDepth::Two => png::BitDepth::Two,
        BitDepth::Four => png::BitDepth::Four,
        BitDepth::Eight => png::BitDepth::Eight,
    });
    encoder.set_palette(palette);
    if let Some(table) = trns {
        encoder.set_trns(table);
    }
    let mut out = encoder.write_header()?;
    out.write_image_data(data)
}

/// Relies on `png::EncodingError`: its `IoError` variant wraps a failure
/// of the output writer; every other variant reports a format or
/// parameter the encoder rejected.
#[verifier::external_body]
pub(crate) fn error_from_encoding(err: png::EncodingError) -> (r: Error)
    ensures
        r == Error::Io || r == Error::PngEncoding,
{
    match err {
        png::EncodingError::IoError(_) => Error::Io,
        png::EncodingError::Format(_) => Error::PngEncoding,
        png::EncodingError::Parameter(_) => Error::PngEncoding,
        png::EncodingError::LimitsExceeded => Error::PngEncoding,
    }
}

} // verus!

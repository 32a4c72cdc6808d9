//! Palette-indexed PNG rendering for small, up-scaled raster images.
//!
//! An [`Image`] holds a palette of colors and a flat grid of palette
//! indices. Rendering picks the smallest PNG bit depth that can index the
//! palette, replicates each source pixel `scale` times along both axes,
//! packs the result into tightly packed scanlines, and hands the buffer,
//! together with the serialized palette and an optional transparency
//! table, to the `png` encoder.

use vstd::prelude::*;

pub mod depth;
mod pngw;
pub mod raster;

pub use depth::BitDepth;
pub use depth::ceil_div;

verus! {

/// Everything that can go wrong while rendering.
#[derive(Clone, Copy, Debug, PartialEq, Eq, Structural)]
pub enum Error {
    /// The PNG encoder rejected the declared format or parameters.
    PngEncoding,
    /// The output sink failed during a write.
    Io,
    /// The palette is over 256 colors.
    PaletteTooBig,
    /// The palette is smaller than 2 colors.
    PaletteTooSmall,
}

/// One palette entry, with or without an alpha channel.
#[derive(Clone, Copy, Debug, PartialEq, Eq, Structural)]
pub enum Color {
    /// Red, green and blue, in that order.
    Rgb(u8, u8, u8),
    /// Red, green, blue and alpha, in that order.
    Rgba(u8, u8, u8, u8),
}

/// The red channel of a palette color.
pub open spec fn red(c: Color) -> u8 {
    match c {
        Color::Rgb(r, _, _) => r,
        Color::Rgba(r, _, _, _) => r,
    }
}

/// The green channel of a palette color.
pub open spec fn green(c: Color) -> u8 {
    match c {
        Color::Rgb(_, g, _) => g,
        Color::Rgba(_, g, _, _) => g,
    }
}

/// The blue channel of a palette color.
pub open spec fn blue(c: Color) -> u8 {
    match c {
        Color::Rgb(_, _, b) => b,
        Color::Rgba(_, _, b, _) => b,
    }
}

/// The transparency-table entry a palette color asks for: plain RGB
/// colors are fully opaque, RGBA colors carry their own alpha.
pub open spec fn alpha_of(c: Color) -> u8 {
    match c {
        Color::Rgb(_, _, _) => 255,
        Color::Rgba(_, _, _, a) => a,
    }
}

/// A low-resolution, palette-indexed source image and its scale factor.
pub struct Image<'a> {
    /// Palette of colors, 2 to 256 entries.
    pub palette: &'a [Color],
    /// Unscaled pixels; each byte is an index into `palette`.
    pub pixels: &'a [u8],
    /// Width of the unscaled image; `pixels` length must be divisible by it.
    pub width: usize,
    /// Scale to render the image at.
    pub scale: usize,
}

impl<'a> Image<'a> {
    /// Width of the rendered image in pixels.
    pub open spec fn out_width(self) -> int {
        self.width * self.scale
    }

    /// Height of the rendered image in pixels.
    pub open spec fn out_height(self) -> int {
        (self.pixels@.len() as int / self.width as int) * self.scale
    }

    /// The bit depth the palette calls for.
    pub open spec fn depth_spec(self) -> int {
        depth::bit_depth_of(self.palette@.len() as int)
    }

    /// Bytes of one packed output scanline.
    pub open spec fn bytes_per_line_spec(self) -> int {
        depth::ceil_div_spec(self.out_width(), 8int / self.depth_spec())
    }

    /// The grid is usable: positive width and scale, whole rows.
    pub open spec fn dims_ok(self) -> bool {
        &&& self.width > 0
        &&& self.scale > 0
        &&& self.pixels@.len() as int % self.width as int == 0
    }

    /// Every pixel is an index into the palette.
    pub open spec fn pixels_ok(self) -> bool {
        forall|i: int|
            0 <= i < self.pixels@.len() ==> (self.pixels@[i] as int) < self.palette@.len()
    }

    /// The rendered image fits the PNG header and the address space.
    pub open spec fn fits(self) -> bool {
        &&& self.out_width() <= u32::MAX
        &&& self.out_height() <= u32::MAX
        &&& self.bytes_per_line_spec() * self.out_height() <= usize::MAX
    }

    /// Width and height of the rendered image, in pixels.
    pub fn dimensions(&self) -> (r: (usize, usize))
        requires
            self.width > 0,
            self.out_width() <= usize::MAX,
            self.out_height() <= usize::MAX,
        ensures
            r.0 as int == self.out_width(),
            r.1 as int == self.out_height(),
    {
        let width = self.width * self.scale;
        let height = (self.pixels.len() / self.width) * self.scale;
        (width, height)
    }

    /// Serialize the palette for the PNG palette chunk: three bytes per
    /// entry, red, green and blue in palette order; alpha never appears
    /// here.
    pub fn palette_data(&self) -> (r: Vec<u8>)
        ensures
            r@.len() == self.palette@.len() * 3,
            forall|i: int|
                0 <= i < self.palette@.len() ==> r@[3 * i] == red(self.palette@[i]) && r@[3 * i
                    + 1] == green(self.palette@[i]) && r@[3 * i + 2] == blue(self.palette@[i]),
    {
        let mut data: Vec<u8> = Vec::new();
        let mut i: usize = 0;
        while i < self.palette.len()
            invariant
                i <= self.palette@.len(),
                data@.len() == 3 * i,
                forall|k: int|
                    0 <= k < i ==> data@[3 * k] == red(self.palette@[k]) && data@[3 * k + 1]
                        == green(self.palette@[k]) && data@[3 * k + 2] == blue(self.palette@[k]),
            decreases self.palette@.len() - i,
        {
            match self.palette[i] {
                Color::Rgb(r, g, b) => {
                    data.push(r);
                    data.push(g);
                    data.push(b);
                },
                Color::Rgba(r, g, b, _) => {
                    data.push(r);
                    data.push(g);
                    data.push(b);
                },
            }
            i = i + 1;
        }
        data
    }

    /// The transparency table the palette asks for: `None` when no entry
    /// carries alpha, otherwise one byte per palette entry, 255 for every
    /// plain RGB color and the literal alpha for every RGBA color.
    pub fn transparency(&self) -> (r: Option<Vec<u8>>)
        ensures
            match r {
                None => forall|i: int|
                    0 <= i < self.palette@.len() ==> !(self.palette@[i] is Rgba),
                Some(v) => {
                    &&& exists|i: int| 0 <= i < self.palette@.len() && self.palette@[i] is Rgba
                    &&& v@.len() == self.palette@.len()
                    &&& forall|i: int|
                        0 <= i < self.palette@.len() ==> v@[i] == alpha_of(self.palette@[i])
                },
            },
    {
        let mut has_alpha = false;
        let mut i: usize = 0;
        while i < self.palette.len()
            invariant
                i <= self.palette@.len(),
                has_alpha <==> exists|k: int| 0 <= k < i && self.palette@[k] is Rgba,
            decreases self.palette@.len() - i,
        {
            match self.palette[i] {
                Color::Rgba(_, _, _, _) => {
                    has_alpha = true;
                },
                Color::Rgb(_, _, _) => {},
            }
            i = i + 1;
        }
        if !has_alpha {
            return None;
        }
        let mut buf: Vec<u8> = Vec::new();
        let mut i: usize = 0;
        while i < self.palette.len()
            invariant
                i <= self.palette@.len(),
                buf@.len() == i,
                forall|k: int| 0 <= k < i ==> buf@[k] == alpha_of(self.palette@[k]),
            decreases self.palette@.len() - i,
        {
            match self.palette[i] {
                Color::Rgb(_, _, _) => {
                    buf.push(255);
                },
                Color::Rgba(_, _, _, a) => {
                    buf.push(a);
                },
            }
            i = i + 1;
        }
        Some(buf)
    }

    /// Render the image as an indexed-color PNG bitstream into `writer`.
    ///
    /// The palette is checked first: over 256 entries fails with
    /// `PaletteTooBig`, under 2 with `PaletteTooSmall`. With a usable
    /// palette the only failures left are the encoder's own: `Io` when
    /// the writer fails, `PngEncoding` when the encoder rejects the
    /// declared format.
    pub fn render<W: std::io::Write>(&self, writer: W) -> (r: Result<(), Error>)
        requires
            2 <= self.palette@.len() <= 256 ==> self.dims_ok() && self.pixels_ok() && self.fits(),
        ensures
            self.palette@.len() > 256 <==> r == Err::<(), Error>(Error::PaletteTooBig),
            self.palette@.len() < 2 <==> r == Err::<(), Error>(Error::PaletteTooSmall),
            2 <= self.palette@.len() <= 256 ==> r == Ok::<(), Error>(()) || r == Err::<(),
                Error,
            >(Error::Io) || r == Err::<(), Error>(Error::PngEncoding),
    {
        if self.palette.len() > 256 {
            return Err(Error::PaletteTooBig);
        }
        if self.palette.len() < 2 {
            return Err(Error::PaletteTooSmall);
        }
        let bit_depth = self.bit_depth();
        let depth = bit_depth.as_u8();
        proof {
            depth::lemma_bit_depth_covers(self.palette@.len() as int);
        }
        let pixels_in_byte = raster::pixels_in_byte(depth);
        let (img_width, img_height) = self.dimensions();
        let bytes_per_line = ceil_div(img_width, pixels_in_byte);
        let data = raster::rasterize(self.pixels, self.width, self.scale, depth, bytes_per_line);
        let palette_bytes = self.palette_data();
        let trns = self.transparency();
        match pngw::write_png(
            writer,
            img_width as u32,
            img_height as u32,
            bit_depth,
            palette_bytes,
            trns,
            data.as_slice(),
        ) {
            Ok(()) => Ok(()),
            Err(e) => Err(pngw::error_from_encoding(e)),
        }
    }

    /// The smallest PNG bit depth whose two-power covers the palette.
    pub fn bit_depth(&self) -> (r: BitDepth)
        ensures
            r.bits() == self.depth_spec(),
    {
        let len = self.palette.len();
        if len <= 2 {
            BitDepth::One
        } else if len <= 4 {
            BitDepth::Two
        } else if len <= 16 {
            BitDepth::Four
        } else {
            BitDepth::Eight
        }
    }
}

} // verus!

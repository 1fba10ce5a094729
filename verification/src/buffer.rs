use crate::bucket::Config;
use crate::color::Pixel;
use crate::shade::{cel_shade, shaded};
use vstd::prelude::*;

verus! {

/// The pixels that a row-major buffer of red, green and blue bytes holds.
pub open spec fn pixels_of(bytes: Seq<u8>) -> Seq<Pixel> {
    Seq::new(
        bytes.len() / 3,
        |i: int| Pixel { red: bytes[3 * i], green: bytes[3 * i + 1], blue: bytes[3 * i + 2] },
    )
}

/// The bytes of a sequence of pixels: red, green and blue of each in turn.
pub open spec fn bytes_of(pixels: Seq<Pixel>) -> Seq<u8> {
    Seq::new(
        3 * pixels.len(),
        |k: int|
            if k % 3 == 0 {
                pixels[k / 3].red
            } else if k % 3 == 1 {
                pixels[k / 3].green
            } else {
                pixels[k / 3].blue
            },
    )
}

/// Splitting bytes into pixels and joining them again gives the bytes back,
/// and the other way round.
pub proof fn lemma_bytes_round_trip(bytes: Seq<u8>, pixels: Seq<Pixel>)
    ensures
        bytes.len() % 3 == 0 ==> bytes_of(pixels_of(bytes)) == bytes,
        pixels_of(bytes_of(pixels)) == pixels,
{
    if bytes.len() % 3 == 0 {
        assert(bytes_of(pixels_of(bytes)) =~= bytes);
    }
    assert(pixels_of(bytes_of(pixels)) =~= pixels);
}

/// What a pixel buffer holds, as mathematical values.
pub struct BufferView {
    pub width: nat,
    pub height: nat,
    /// The pixels row by row, `width * height` of them.
    pub pixels: Seq<Pixel>,
}

/// A picture of fixed width and height: its pixels in row-major order.
pub struct PixelBuffer {
    width: u32,
    height: u32,
    pixels: Vec<Pixel>,
}

impl View for PixelBuffer {
    type V = BufferView;

    closed spec fn view(&self) -> BufferView {
        BufferView { width: self.width as nat, height: self.height as nat, pixels: self.pixels@ }
    }
}

impl PixelBuffer {
    #[verifier::type_invariant]
    spec fn filled(self) -> bool {
        self.pixels.len() == self.width * self.height
    }

    /// The picture of the given size over a buffer of red, green and blue
    /// bytes, if the buffer has exactly three bytes for each pixel.
    pub fn from_raw(width: u32, height: u32, bytes: &Vec<u8>) -> (buffer: Option<PixelBuffer>)
        ensures
            buffer.is_some() <==> bytes.len() == 3 * (width * height),
            buffer matches Some(picture) ==> {
                &&& picture@.width == width
                &&& picture@.height == height
                &&& picture@.pixels == pixels_of(bytes@)
                &&& picture@.pixels.len() == width * height
            },
    {
        assert(width * height <= 0xffff_ffff * 0xffff_ffff) by (nonlinear_arith)
            requires
                width <= 0xffff_ffff,
                height <= 0xffff_ffff,
        ;
        let area: u128 = (width as u128) * (height as u128);
        if bytes.len() as u128 != 3 * area {
            return None;
        }
        let count: usize = bytes.len() / 3;
        let mut pixels: Vec<Pixel> = Vec::new();
        let mut at: usize = 0;
        while at < count
            invariant
                at <= count,
                count == bytes.len() / 3,
                bytes.len() == 3 * count,
                pixels.len() == at,
                forall|i: int| 0 <= i < at ==> #[trigger] pixels[i] == pixels_of(bytes@)[i],
            decreases count - at,
        {
            pixels.push(
                Pixel { red: bytes[3 * at], green: bytes[3 * at + 1], blue: bytes[3 * at + 2] },
            );
            at += 1;
        }
        assert(pixels@ =~= pixels_of(bytes@));
        Some(PixelBuffer { width, height, pixels })
    }

    /// The picture as a buffer of red, green and blue bytes.
    pub fn into_raw(self) -> (bytes: Vec<u8>)
        ensures
            bytes@ == bytes_of(self@.pixels),
            bytes.len() == 3 * (self@.width * self@.height),
    {
        proof {
            use_type_invariant(&self);
        }
        let mut bytes: Vec<u8> = Vec::new();
        let mut at: usize = 0;
        while at < self.pixels.len()
            invariant
                at <= self.pixels.len(),
                bytes.len() == 3 * at,
                forall|k: int| 0 <= k < 3 * at ==> #[trigger] bytes[k] == bytes_of(self.pixels@)[k],
            decreases self.pixels.len() - at,
        {
            let pixel: Pixel = self.pixels[at];
            bytes.push(pixel.red);
            bytes.push(pixel.green);
            bytes.push(pixel.blue);
            at += 1;
        }
        assert(bytes@ =~= bytes_of(self.pixels@));
        bytes
    }

    /// The number of pixels in a row.
    pub fn width(&self) -> (width: u32)
        ensures
            width == self@.width,
    {
        self.width
    }

    /// The number of rows.
    pub fn height(&self) -> (height: u32)
        ensures
            height == self@.height,
    {
        self.height
    }

    /// The pixels row by row.
    pub fn pixels(&self) -> (pixels: &Vec<Pixel>)
        ensures
            pixels@ == self@.pixels,
            pixels.len() == self@.width * self@.height,
    {
        proof {
            use_type_invariant(self);
        }
        &self.pixels
    }

    /// Cel-shades the picture: the same buffer comes back with every pixel
    /// overwritten by the mean colour of its cell. Width and height stay as
    /// they are.
    pub fn shade(self, config: &Config) -> (picture: PixelBuffer)
        ensures
            picture@.width == self@.width,
            picture@.height == self@.height,
            picture@.pixels == shaded(self@.pixels, config@),
    {
        proof {
            use_type_invariant(&self);
        }
        let PixelBuffer { width, height, mut pixels } = self;
        cel_shade(&mut pixels, config);
        PixelBuffer { width, height, pixels }
    }
}

} // verus!

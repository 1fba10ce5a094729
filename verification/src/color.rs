use vstd::prelude::*;

verus! {

/// Number of hue units in one degree. Hues and hue thresholds are whole
/// numbers of millionths of a degree.
pub const HUE_UNITS_PER_DEGREE: u32 = 1_000_000;

/// Number of hue units in a full turn.
pub const HUE_UNITS_PER_TURN: u32 = 360_000_000;

/// Weight of the red channel in the luminance, in millionths.
pub const LUMINANCE_RED: u32 = 212_671;

/// Weight of the green channel in the luminance, in millionths.
pub const LUMINANCE_GREEN: u32 = 715_160;

/// Weight of the blue channel in the luminance, in millionths.
pub const LUMINANCE_BLUE: u32 = 72_169;

/// Denominator of the luminance: the three weights add up to a million, and a
/// channel is at most 255.
pub const LUMINANCE_FULL: u32 = 255_000_000;

/// One picture element: three 8-bit channels.
#[derive(Clone, Copy, Debug, PartialEq, Eq, Structural, Hash)]
pub struct Pixel {
    pub red: u8,
    pub green: u8,
    pub blue: u8,
}

/// The exact fraction `num / den`. Saturation, value and luminance are
/// fractions of the unit interval, kept exact so that a level lying precisely
/// on a chunk boundary falls into the upper chunk.
#[derive(Clone, Copy, Debug, PartialEq, Eq, Structural, Hash)]
pub struct Ratio {
    pub num: u32,
    pub den: u32,
}

impl Ratio {
    /// The fraction is well defined and lies in `[0, 1]`.
    pub open spec fn is_unit(self) -> bool {
        0 < self.den && self.num <= self.den
    }

    /// The fraction `num / den`, if it is well defined and lies in `[0, 1]`.
    pub fn new(num: u32, den: u32) -> (ratio: Option<Ratio>)
        ensures
            ratio.is_some() <==> 0 < den && num <= den,
            ratio matches Some(fraction) ==> fraction == (Ratio { num, den }) && fraction.is_unit(),
    {
        if 0 < den && num <= den {
            Some(Ratio { num, den })
        } else {
            None
        }
    }
}

/// A pixel seen as hue, saturation and value.
#[derive(Clone, Copy, Debug, PartialEq, Eq, Structural, Hash)]
pub struct Hsv {
    /// Hue in millionths of a degree, in `[0, 360_000_000)`: the signed
    /// standard hue moved up by half a turn, rounded down to a whole unit.
    pub hue: u32,
    /// Saturation as a fraction of full saturation.
    pub saturation: Ratio,
    /// Value as a fraction of full brightness.
    pub value: Ratio,
}

impl Pixel {
    /// The largest of the three channels.
    pub open spec fn max_channel(self) -> int {
        if self.red >= self.green && self.red >= self.blue {
            self.red as int
        } else if self.green >= self.blue {
            self.green as int
        } else {
            self.blue as int
        }
    }

    /// The smallest of the three channels.
    pub open spec fn min_channel(self) -> int {
        if self.red <= self.green && self.red <= self.blue {
            self.red as int
        } else if self.green <= self.blue {
            self.green as int
        } else {
            self.blue as int
        }
    }

    /// The spread between the largest and the smallest channel.
    pub open spec fn chroma(self) -> int {
        self.max_channel() - self.min_channel()
    }

    /// The standard hue in degrees, multiplied by the chroma: a value in
    /// `[0, 360 * chroma)`. Red lies at 0, green at 120, blue at 240 degrees,
    /// and a gray pixel has hue 0.
    pub open spec fn standard_hue_times_chroma(self) -> int {
        let c = self.chroma();
        if c == 0 {
            0
        } else if self.max_channel() == self.red {
            if self.green >= self.blue {
                60 * (self.green - self.blue)
            } else {
                60 * (self.green - self.blue) + 360 * c
            }
        } else if self.max_channel() == self.green {
            60 * (self.blue - self.red) + 120 * c
        } else {
            60 * (self.red - self.green) + 240 * c
        }
    }

    /// The hue in degrees, multiplied by `hue_divisor()`: the standard hue
    /// read in the signed range `[-180, 180)` and moved up by 180 degrees, so
    /// that it lies in `[0, 360)`.
    pub open spec fn hue_times_divisor(self) -> int {
        let c = self.hue_divisor();
        let n = self.standard_hue_times_chroma();
        if n < 180 * c {
            n + 180 * c
        } else {
            n - 180 * c
        }
    }

    /// The denominator of the exact hue: the chroma, or 1 for a gray pixel.
    pub open spec fn hue_divisor(self) -> int {
        if self.chroma() == 0 {
            1
        } else {
            self.chroma()
        }
    }

    /// The hue in millionths of a degree, rounded down.
    pub open spec fn hue(self) -> int {
        self.hue_times_divisor() * (HUE_UNITS_PER_DEGREE as int) / self.hue_divisor()
    }

    /// The saturation: chroma over the largest channel, and 0 for black.
    pub open spec fn saturation(self) -> Ratio {
        if self.max_channel() == 0 {
            Ratio { num: 0, den: 1 }
        } else {
            Ratio { num: self.chroma() as u32, den: self.max_channel() as u32 }
        }
    }

    /// The value: the largest channel over 255.
    pub open spec fn value(self) -> Ratio {
        Ratio { num: self.max_channel() as u32, den: 255 }
    }

    /// The relative luminance `(0.212671 R + 0.715160 G + 0.072169 B) / 255`
    /// as an exact fraction.
    pub open spec fn luminance(self) -> Ratio {
        Ratio {
            num: (LUMINANCE_RED * self.red + LUMINANCE_GREEN * self.green + LUMINANCE_BLUE
                * self.blue) as u32,
            den: LUMINANCE_FULL,
        }
    }

    /// Hue, saturation and value together.
    pub open spec fn hsv(self) -> Hsv {
        Hsv { hue: self.hue() as u32, saturation: self.saturation(), value: self.value() }
    }

    /// The largest channel.
    pub fn max(&self) -> (m: u8)
        ensures
            m == self.max_channel(),
    {
        if self.red >= self.green && self.red >= self.blue {
            self.red
        } else if self.green >= self.blue {
            self.green
        } else {
            self.blue
        }
    }

    /// The smallest channel.
    pub fn min(&self) -> (m: u8)
        ensures
            m == self.min_channel(),
    {
        if self.red <= self.green && self.red <= self.blue {
            self.red
        } else if self.green <= self.blue {
            self.green
        } else {
            self.blue
        }
    }
}

/// The hue stays below a full turn, and the exact hue below 360 degrees.
pub proof fn lemma_hue_range(pixel: Pixel)
    ensures
        0 < pixel.hue_divisor() <= 255,
        0 <= pixel.hue_times_divisor() < 360 * pixel.hue_divisor(),
        0 <= pixel.hue() < HUE_UNITS_PER_TURN,
{
    let c = pixel.hue_divisor();
    let m = pixel.hue_times_divisor();
    assert(0 <= m < 360 * c);
    assert(0 <= m * 1_000_000 / c < 360_000_000) by (nonlinear_arith)
        requires
            0 < c,
            0 <= m < 360 * c,
    ;
}

/// Rounding the hue down to a whole unit loses nothing against a threshold
/// in whole units: the rounded hue has reached the threshold exactly when
/// the exact hue has.
pub proof fn lemma_hue_rounding_is_exact(pixel: Pixel, threshold: int)
    ensures
        pixel.hue() >= threshold <==> pixel.hue_times_divisor() * HUE_UNITS_PER_DEGREE
            >= threshold * pixel.hue_divisor(),
{
    let c = pixel.hue_divisor();
    let scaled = pixel.hue_times_divisor() * 1_000_000;
    assert(scaled / c >= threshold <==> scaled >= threshold * c) by (nonlinear_arith)
        requires
            0 < c,
    ;
}

impl Hsv {
    /// Converts a pixel to hue, saturation and value, without rounding the
    /// two fractions.
    pub fn from_pixel(pixel: &Pixel) -> (hsv: Hsv)
        ensures
            hsv == pixel.hsv(),
            hsv.hue == pixel.hue(),
            hsv.hue < HUE_UNITS_PER_TURN,
            hsv.saturation.is_unit(),
            hsv.value.is_unit(),
    {
        let max: u8 = pixel.max();
        let min: u8 = pixel.min();
        let chroma: u8 = max - min;
        proof {
            lemma_hue_range(*pixel);
        }
        let saturation = if max == 0 {
            Ratio { num: 0, den: 1 }
        } else {
            Ratio { num: chroma as u32, den: max as u32 }
        };
        let value = Ratio { num: max as u32, den: 255 };
        if chroma == 0 {
            assert(pixel.hue_divisor() == 1 && pixel.hue_times_divisor() == 180);
            return Hsv { hue: 180 * HUE_UNITS_PER_DEGREE, saturation, value };
        }
        let c: i64 = chroma as i64;
        let red: i64 = pixel.red as i64;
        let green: i64 = pixel.green as i64;
        let blue: i64 = pixel.blue as i64;
        let standard: i64 = if max == pixel.red {
            if green >= blue {
                60 * (green - blue)
            } else {
                60 * (green - blue) + 360 * c
            }
        } else if max == pixel.green {
            60 * (blue - red) + 120 * c
        } else {
            60 * (red - green) + 240 * c
        };
        let shifted: i64 = if standard < 180 * c {
            standard + 180 * c
        } else {
            standard - 180 * c
        };
        assert(shifted == pixel.hue_times_divisor());
        let hue: i64 = shifted * 1_000_000 / c;
        Hsv { hue: hue as u32, saturation, value }
    }
}

/// The relative luminance of a pixel as an exact fraction of full luminance:
/// `(0.212671 R + 0.715160 G + 0.072169 B) / 255`.
pub fn luminance(pixel: &Pixel) -> (l: Ratio)
    ensures
        l == pixel.luminance(),
        l.is_unit(),
{
    let num: u32 = LUMINANCE_RED * (pixel.red as u32) + LUMINANCE_GREEN * (pixel.green as u32)
        + LUMINANCE_BLUE * (pixel.blue as u32);
    Ratio { num, den: LUMINANCE_FULL }
}

} // verus!

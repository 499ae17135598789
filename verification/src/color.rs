//! Colors: the display color mode (RGB 5-6-5) and the 8-bit-per-channel
//! color used for blending, with the conversions between them.

use vstd::prelude::*;
use embedded_graphics::pixelcolor::RgbColor;

verus! {

/// A color in the display's native mode: 5 bits red, 6 bits green, 5 bits blue.
#[derive(Clone, Copy, Debug, PartialEq, Eq)]
pub struct Rgb565 {
    r: u8,
    g: u8,
    b: u8,
}

/// The color type every widget draws with.
pub type GraphicsColorMode = Rgb565;

/// A color with 8 bits per channel.
#[derive(Clone, Copy, Debug, PartialEq, Eq, Structural)]
pub struct Rgb888 {
    pub r: u8,
    pub g: u8,
    pub b: u8,
}

impl Rgb565 {
    #[verifier::type_invariant]
    spec fn channels_in_range(self) -> bool {
        self.r <= 31 && self.g <= 63 && self.b <= 31
    }

    /// The red channel, `0..=31`.
    pub closed spec fn red(self) -> u8 {
        self.r
    }

    /// The green channel, `0..=63`.
    pub closed spec fn green(self) -> u8 {
        self.g
    }

    /// The blue channel, `0..=31`.
    pub closed spec fn blue(self) -> u8 {
        self.b
    }

    /// A color from its channels; bits above each channel's width are dropped.
    pub fn new(r: u8, g: u8, b: u8) -> (c: Rgb565)
        ensures
            c.red() == r & 31,
            c.green() == g & 63,
            c.blue() == b & 31,
            r <= 31 ==> c.red() == r,
            g <= 63 ==> c.green() == g,
            b <= 31 ==> c.blue() == b,
    {
        let (r2, g2, b2) = (r & 31, g & 63, b & 31);
        assert(r2 <= 31 && g2 <= 63 && b2 <= 31) by (bit_vector)
            requires r2 == r & 31, g2 == g & 63, b2 == b & 31;
        assert((r <= 31 ==> r2 == r) && (g <= 63 ==> g2 == g) && (b <= 31 ==> b2 == b))
            by (bit_vector)
            requires r2 == r & 31, g2 == g & 63, b2 == b & 31;
        Rgb565 { r: r2, g: g2, b: b2 }
    }

    /// The red channel.
    pub fn r(&self) -> (v: u8)
        ensures
            v == self.red(),
            v <= 31,
    {
        proof { use_type_invariant(self); }
        self.r
    }

    /// The green channel.
    pub fn g(&self) -> (v: u8)
        ensures
            v == self.green(),
            v <= 63,
    {
        proof { use_type_invariant(self); }
        self.g
    }

    /// The blue channel.
    pub fn b(&self) -> (v: u8)
        ensures
            v == self.blue(),
            v <= 31,
    {
        proof { use_type_invariant(self); }
        self.b
    }
}

impl Rgb888 {
    /// A color from its three channels.
    pub fn new(r: u8, g: u8, b: u8) -> (c: Rgb888)
        ensures
            c.r == r,
            c.g == g,
            c.b == b,
    {
        Rgb888 { r, g, b }
    }
}

/// White, the default foreground color.
pub fn fg() -> (c: Rgb565)
    ensures
        c.red() == 31 && c.green() == 63 && c.blue() == 31,
{
    Rgb565::new(31, 63, 31)
}

/// Black, the default background color.
pub fn bg() -> (c: Rgb565)
    ensures
        c.red() == 0 && c.green() == 0 && c.blue() == 0,
{
    Rgb565::new(0, 0, 0)
}

/// Magenta, the primary accent color.
pub fn accent_pr() -> (c: Rgb565)
    ensures
        c.red() == 31 && c.green() == 0 && c.blue() == 31,
{
    Rgb565::new(31, 0, 31)
}

/// Yellow, the secondary accent color.
pub fn accent_sc() -> (c: Rgb565)
    ensures
        c.red() == 31 && c.green() == 63 && c.blue() == 0,
{
    Rgb565::new(31, 63, 0)
}

/// Green, the tertiary accent color.
pub fn accent_tr() -> (c: Rgb565)
    ensures
        c.red() == 0 && c.green() == 63 && c.blue() == 0,
{
    Rgb565::new(0, 63, 0)
}

/// A channel value rescaled from `0..=from_max` to `0..=to_max`, rounded:
/// the fixed-point formula `(value * ((to_max << 24) / from_max) + (1 << 23)) >> 24`.
pub open spec fn channel_rescale(value: u8, from_max: u8, to_max: u8) -> u8 {
    if from_max == to_max {
        value
    } else {
        ((value as int * ((to_max as int * 0x100_0000) / from_max as int) + 0x80_0000)
            / 0x100_0000) as u8
    }
}

/// The display color with the given channels (taken as they are).
pub closed spec fn rgb565_of(r: u8, g: u8, b: u8) -> Rgb565 {
    Rgb565 { r, g, b }
}

/// The channels of `rgb565_of` are the ones it was given.
pub broadcast proof fn lemma_rgb565_of(r: u8, g: u8, b: u8)
    ensures
        #[trigger] rgb565_of(r, g, b).red() == r,
        rgb565_of(r, g, b).green() == g,
        rgb565_of(r, g, b).blue() == b,
{
}

/// The 8-bit-per-channel color a display color widens to.
pub open spec fn widen(c: Rgb565) -> Rgb888 {
    Rgb888 {
        r: channel_rescale(c.red(), 31, 255),
        g: channel_rescale(c.green(), 63, 255),
        b: channel_rescale(c.blue(), 31, 255),
    }
}

/// The display color an 8-bit-per-channel color narrows to.
pub open spec fn narrow(c: Rgb888) -> Rgb565 {
    rgb565_of(
        channel_rescale(c.r, 255, 31),
        channel_rescale(c.g, 255, 63),
        channel_rescale(c.b, 255, 31),
    )
}

/// Widens a display color to 8 bits per channel, through
/// `embedded_graphics`' `From<Rgb565> for Rgb888`.
///
/// Trusted: embedded-graphics-core converts each channel with its
/// `convert_channel`, which is the formula of `channel_rescale`.
#[verifier::external_body]
pub(crate) fn rgb565_to_rgb888(c: Rgb565) -> (out: Rgb888)
    ensures
        out == widen(c),
{
    let e = embedded_graphics::pixelcolor::Rgb565::new(c.r, c.g, c.b);
    let o = embedded_graphics::pixelcolor::Rgb888::from(e);
    Rgb888 { r: o.r(), g: o.g(), b: o.b() }
}

/// Narrows an 8-bit-per-channel color to the display color, through
/// `embedded_graphics`' `From<Rgb888> for Rgb565`.
///
/// Trusted: embedded-graphics-core converts each channel with its
/// `convert_channel`, which is the formula of `channel_rescale`, and the
/// result fits the channel, so `Rgb565::new` keeps it whole.
#[verifier::external_body]
pub(crate) fn rgb888_to_rgb565(c: Rgb888) -> (out: Rgb565)
    ensures
        out == narrow(c),
{
    let e = embedded_graphics::pixelcolor::Rgb888::new(c.r, c.g, c.b);
    let o = embedded_graphics::pixelcolor::Rgb565::from(e);
    Rgb565 { r: o.r(), g: o.g(), b: o.b() }
}

/// A grayscale color, 8 bits of luma.
#[derive(Clone, Copy, Debug, PartialEq, Eq, Structural)]
pub struct Gray8 {
    pub luma: u8,
}

/// A black-and-white color.
#[derive(Clone, Copy, Debug, PartialEq, Eq, Structural)]
pub enum BinaryColor {
    /// Black.
    Off,
    /// White.
    On,
}

/// A pixel color that can be shown as an 8-bit-per-channel color.
pub trait ToRgb888: Copy {
    /// The 8-bit-per-channel color this color shows as.
    spec fn rgb_of(self) -> Rgb888;

    /// The 8-bit-per-channel color this color shows as.
    fn to_rgb888(self) -> (o: Rgb888)
        ensures
            o == self.rgb_of(),
    ;
}

impl ToRgb888 for Rgb565 {
    /// Each channel rescaled to 8 bits.
    open spec fn rgb_of(self) -> Rgb888 {
        widen(self)
    }

    fn to_rgb888(self) -> (o: Rgb888) {
        rgb565_to_rgb888(self)
    }
}

impl ToRgb888 for Rgb888 {
    open spec fn rgb_of(self) -> Rgb888 {
        self
    }

    fn to_rgb888(self) -> (o: Rgb888) {
        self
    }
}

impl ToRgb888 for Gray8 {
    /// The luma in every channel.
    open spec fn rgb_of(self) -> Rgb888 {
        Rgb888 { r: self.luma, g: self.luma, b: self.luma }
    }

    fn to_rgb888(self) -> (o: Rgb888) {
        Rgb888 { r: self.luma, g: self.luma, b: self.luma }
    }
}

impl ToRgb888 for BinaryColor {
    /// Black when off, white when on.
    open spec fn rgb_of(self) -> Rgb888 {
        match self {
            BinaryColor::Off => Rgb888 { r: 0, g: 0, b: 0 },
            BinaryColor::On => Rgb888 { r: 255, g: 255, b: 255 },
        }
    }

    fn to_rgb888(self) -> (o: Rgb888) {
        match self {
            BinaryColor::Off => Rgb888 { r: 0, g: 0, b: 0 },
            BinaryColor::On => Rgb888 { r: 255, g: 255, b: 255 },
        }
    }
}

} // verus!

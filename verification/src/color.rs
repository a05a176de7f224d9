use vstd::prelude::*;

verus! {

/// Fixed-point representation of color value 1.0.
pub const COLOR_ONE: u32 = 65536;

/// Mathematical view of a color: three unbounded channel values.
pub ghost struct SColor {
    pub r: int,
    pub g: int,
    pub b: int,
}

/// Channels within `[0, 1]` in fixed point.
pub open spec fn scolor_wf(c: SColor) -> bool {
    &&& 0 <= c.r <= COLOR_ONE as int
    &&& 0 <= c.g <= COLOR_ONE as int
    &&& 0 <= c.b <= COLOR_ONE as int
}

/// Per-channel fixed-point product, rounded down.
pub open spec fn scolor_mul(a: SColor, b: SColor) -> SColor {
    SColor {
        r: (a.r * b.r) / (COLOR_ONE as int),
        g: (a.g * b.g) / (COLOR_ONE as int),
        b: (a.b * b.b) / (COLOR_ONE as int),
    }
}

/// An RGB color with fixed-point channels in `[0, COLOR_ONE]`.
#[derive(Clone, Copy, PartialEq, Eq, Structural, Debug)]
pub struct Color {
    pub r: u32,
    pub g: u32,
    pub b: u32,
}

impl View for Color {
    type V = SColor;

    open spec fn view(&self) -> SColor {
        SColor { r: self.r as int, g: self.g as int, b: self.b as int }
    }
}

proof fn lemma_channel_mul(a: int, b: int)
    by (nonlinear_arith)
    requires
        0 <= a <= 65536,
        0 <= b <= 65536,
    ensures
        0 <= a * b <= 65536 * 65536,
        0 <= (a * b) / 65536 <= 65536,
{
}

impl Color {
    pub open spec fn wf(&self) -> bool {
        scolor_wf(self@)
    }

    pub fn new(r: u32, g: u32, b: u32) -> (c: Color)
        requires
            r <= COLOR_ONE,
            g <= COLOR_ONE,
            b <= COLOR_ONE,
        ensures
            c@ == (SColor { r: r as int, g: g as int, b: b as int }),
            c.wf(),
    {
        Color { r, g, b }
    }

    /// Full white: the starting attenuation of a bounce walk.
    pub fn white() -> (c: Color)
        ensures
            c@ == (SColor { r: COLOR_ONE as int, g: COLOR_ONE as int, b: COLOR_ONE as int }),
            c.wf(),
    {
        Color { r: COLOR_ONE, g: COLOR_ONE, b: COLOR_ONE }
    }

    /// Black: what a capped bounce walk returns.
    pub fn black() -> (c: Color)
        ensures
            c@ == (SColor { r: 0, g: 0, b: 0 }),
            c.wf(),
    {
        Color { r: 0, g: 0, b: 0 }
    }

    /// Per-channel fixed-point product: the attenuation of one more bounce.
    pub fn mul(&self, o: &Color) -> (c: Color)
        requires
            self.wf(),
            o.wf(),
        ensures
            c@ == scolor_mul(self@, o@),
            c.wf(),
    {
        proof {
            lemma_channel_mul(self@.r, o@.r);
            lemma_channel_mul(self@.g, o@.g);
            lemma_channel_mul(self@.b, o@.b);
        }
        Color {
            r: (((self.r as u64) * (o.r as u64)) / (COLOR_ONE as u64)) as u32,
            g: (((self.g as u64) * (o.g as u64)) / (COLOR_ONE as u64)) as u32,
            b: (((self.b as u64) * (o.b as u64)) / (COLOR_ONE as u64)) as u32,
        }
    }

    /// Per-channel sum; the caller keeps the running total small enough.
    pub fn add(&self, o: &Color) -> (c: Color)
        requires
            self@.r + o@.r <= u32::MAX,
            self@.g + o@.g <= u32::MAX,
            self@.b + o@.b <= u32::MAX,
        ensures
            c@ == (SColor { r: self@.r + o@.r, g: self@.g + o@.g, b: self@.b + o@.b }),
    {
        Color { r: self.r + o.r, g: self.g + o.g, b: self.b + o.b }
    }

    /// Per-channel division, rounding down: averaging over samples.
    pub fn scale_div(&self, k: u32) -> (c: Color)
        requires
            k >= 1,
        ensures
            c@ == (SColor {
                r: self@.r / k as int,
                g: self@.g / k as int,
                b: self@.b / k as int,
            }),
    {
        Color { r: self.r / k, g: self.g / k, b: self.b / k }
    }
}

} // verus!

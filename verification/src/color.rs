//! Colors as the editor stores them: four bytes, red/green/blue premultiplied
//! by alpha, as egui's `Color32` holds them.
use vstd::prelude::*;

verus! {

/// One pixel: premultiplied RGBA bytes.
#[derive(Clone, Copy, PartialEq, Eq, Structural, Debug)]
pub struct Color {
    pub r: u8,
    pub g: u8,
    pub b: u8,
    pub a: u8,
}

/// The fully transparent pixel (all four bytes zero).
pub open spec fn transparent() -> Color {
    Color { r: 0, g: 0, b: 0, a: 0 }
}

impl Color {
    /// The fully transparent pixel.
    pub fn transparent() -> (c: Color)
        ensures
            c == transparent(),
    {
        Color { r: 0, g: 0, b: 0, a: 0 }
    }

    /// An opaque gray of luminance `l`.
    pub fn from_gray(l: u8) -> (c: Color)
        ensures
            c == (Color { r: l, g: l, b: l, a: 255 }),
    {
        Color { r: l, g: l, b: l, a: 255 }
    }

    /// A color from already premultiplied bytes.
    pub fn from_rgba_premultiplied(r: u8, g: u8, b: u8, a: u8) -> (c: Color)
        ensures
            c == (Color { r, g, b, a }),
    {
        Color { r, g, b, a }
    }

    /// Whether this is the transparent pixel.
    pub fn is_transparent(&self) -> (res: bool)
        ensures
            res == (*self == transparent()),
    {
        self.r == 0 && self.g == 0 && self.b == 0 && self.a == 0
    }
}

/// The channel that egui's premultiplication gives `value` under an alpha
/// strictly between 0 and 255 (a lookup table egui builds once per process,
/// gamma correct, with `powf`). It depends on the value and the alpha only;
/// since std leaves the precision of `powf` to the platform, nothing here
/// relies on its entries being the same on another machine or toolchain.
pub uninterp spec fn egui_premultiply(value: u8, alpha: u8) -> u8;

/// egui's `Color32::from_rgba_unmultiplied`: premultiplies the channels by
/// alpha. Claimed of it: alpha is kept; alpha 0 gives the transparent pixel;
/// alpha 255 keeps the channels; for any other alpha each channel is the
/// table entry `egui_premultiply` of that channel and the alpha, whose
/// values this contract does not state.
#[verifier::external_body]
fn egui_from_rgba_unmultiplied(r: u8, g: u8, b: u8, a: u8) -> (c: Color)
    ensures
        c.a == a,
        a == 0 ==> c == transparent(),
        a == 255 ==> c == (Color { r, g, b, a: 255 }),
        0 < a < 255 ==> c.r == egui_premultiply(r, a) && c.g == egui_premultiply(g, a) && c.b == egui_premultiply(b, a),
{
    let c = eframe::egui::Color32::from_rgba_unmultiplied(r, g, b, a);
    Color { r: c.r(), g: c.g(), b: c.b(), a: c.a() }
}

/// `c` is `(r, g, b)` with alpha `a` as egui premultiplies it.
pub open spec fn premultiplied_ok(c: Color, r: u8, g: u8, b: u8, a: u8) -> bool {
    &&& c.a == a
    &&& a == 0 ==> c == transparent()
    &&& a == 255 ==> c == (Color { r, g, b, a: 255 })
    &&& 0 < a < 255 ==> c.r == egui_premultiply(r, a) && c.g == egui_premultiply(g, a) && c.b == egui_premultiply(b, a)
}

/// The pixel for an unpremultiplied color, as egui premultiplies it.
pub fn from_rgba_unmultiplied(r: u8, g: u8, b: u8, a: u8) -> (c: Color)
    ensures
        premultiplied_ok(c, r, g, b, a),
{
    egui_from_rgba_unmultiplied(r, g, b, a)
}

/// One channel of `c` laid with alpha `a` over the background channel `bc`.
pub open spec fn mix_spec(c: int, bc: int, a: int) -> int {
    (c * a + bc * (255 - a)) / 255
}

/// An opaque channel laid over any background keeps its value.
pub proof fn lemma_mix_opaque(c: int, bc: int)
    ensures
        mix_spec(c, bc, 255) == c,
{
    assert(c * 255 + bc * 0 == c * 255) by (nonlinear_arith);
    assert((c * 255) / 255 == c) by (nonlinear_arith);
}

/// `mix_spec` computed on bytes.
pub fn mix(c: u8, bc: u8, a: u8) -> (res: u8)
    ensures
        res as int == mix_spec(c as int, bc as int, a as int),
{
    let c32: u32 = c as u32;
    let bc32: u32 = bc as u32;
    let a32: u32 = a as u32;
    let ia: u32 = 255 - a32;
    assert(c32 * a32 <= 255 * a32) by (nonlinear_arith)
        requires c32 <= 255;
    assert(bc32 * ia <= 255 * ia) by (nonlinear_arith)
        requires bc32 <= 255;
    let num: u32 = c32 * a32 + bc32 * ia;
    assert(num / 255 <= 255) by (nonlinear_arith)
        requires num <= 255 * 255;
    (num / 255) as u8
}

/// What `blended` gives: the color over an opaque background, always opaque.
pub open spec fn blended_spec(r: u8, g: u8, b: u8, a: u8, br: u8, bg: u8, bb: u8) -> (u8, u8, u8, u8) {
    if a == 0 {
        (br, bg, bb, 255u8)
    } else {
        (
            mix_spec(r as int, br as int, a as int) as u8,
            mix_spec(g as int, bg as int, a as int) as u8,
            mix_spec(b as int, bb as int, a as int) as u8,
            255u8,
        )
    }
}

/// Lays the color `(r, g, b)` with alpha `a` over the opaque background
/// `(br, bg, bb)`; a fully transparent color gives the background itself.
pub fn blended(r: u8, g: u8, b: u8, a: u8, br: u8, bg: u8, bb: u8) -> (res: (u8, u8, u8, u8))
    ensures
        res == blended_spec(r, g, b, a, br, bg, bb),
{
    if a == 0 {
        return (br, bg, bb, 255);
    }
    (mix(r, br, a), mix(g, bg, a), mix(b, bb, a), 255)
}

/// Laying a channel `c` with alpha `a` over `bc`: alpha 0 gives the
/// background, alpha 255 the channel, and every result lies between the
/// two; swapping channel and background goes with the opposite alpha.
pub proof fn law_mix_between(c: u8, bc: u8, a: u8)
    ensures
        mix_spec(c as int, bc as int, 0) == bc,
        mix_spec(c as int, bc as int, 255) == c,
        (if c <= bc { c as int } else { bc as int }) <= mix_spec(c as int, bc as int, a as int) <= (if c <= bc { bc as int } else { c as int }),
        mix_spec(c as int, bc as int, a as int) == mix_spec(bc as int, c as int, 255 - a),
{
    let ci = c as int;
    let bi = bc as int;
    let ai = a as int;
    assert(ci * 0 + bi * 255 == bi * 255) by (nonlinear_arith);
    assert((bi * 255) / 255 == bi) by (nonlinear_arith);
    lemma_mix_opaque(ci, bi);
    let lo = if ci <= bi { ci } else { bi };
    let hi = if ci <= bi { bi } else { ci };
    assert(lo * 255 <= ci * ai + bi * (255 - ai) <= hi * 255) by (nonlinear_arith)
        requires 0 <= ai <= 255, lo <= ci <= hi, lo <= bi <= hi;
    assert(lo <= (ci * ai + bi * (255 - ai)) / 255 <= hi) by (nonlinear_arith)
        requires lo * 255 <= ci * ai + bi * (255 - ai) <= hi * 255;
    assert(bi * (255 - ai) + ci * (255 - (255 - ai)) == ci * ai + bi * (255 - ai)) by (nonlinear_arith);
}

/// Blending over a background: a transparent color gives the background,
/// an opaque one itself, and the result is always opaque.
pub proof fn law_blended(r: u8, g: u8, b: u8, a: u8, br: u8, bg: u8, bb: u8)
    ensures
        blended_spec(r, g, b, a, br, bg, bb).3 == 255,
        a == 0 ==> blended_spec(r, g, b, a, br, bg, bb) == (br, bg, bb, 255u8),
        a == 255 ==> blended_spec(r, g, b, a, br, bg, bb) == (r, g, b, 255u8),
{
    if a == 255 {
        lemma_mix_opaque(r as int, br as int);
        lemma_mix_opaque(g as int, bg as int);
        lemma_mix_opaque(b as int, bb as int);
    }
}

} // verus!

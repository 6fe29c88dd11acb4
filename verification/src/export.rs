//! The pixel data of exported PNG images: RGBA8 bytes, row by row.
use vstd::prelude::*;
use crate::color::{Color, blended, blended_spec};
use crate::document::Document;
use crate::grid::{at, lemma_index_in_bounds};

verus! {

/// What transparent pixels are exported over.
#[derive(Clone, Copy, PartialEq, Eq, Structural, Debug)]
pub enum ExportBg {
    Transparent,
    White,
    Black,
    Checker,
}

/// The four exported bytes of pixel `c`, which stands at `(fx, fy)` of the
/// unscaled image.
pub open spec fn export_rgba(c: Color, bg: ExportBg, fx: int, fy: int) -> (u8, u8, u8, u8) {
    match bg {
        ExportBg::Transparent => (c.r, c.g, c.b, c.a),
        ExportBg::White => blended_spec(c.r, c.g, c.b, c.a, 255, 255, 255),
        ExportBg::Black => blended_spec(c.r, c.g, c.b, c.a, 0, 0, 0),
        ExportBg::Checker => if c.a == 0 {
            let v: u8 = if (fx + fy) % 2 == 0 { 200 } else { 180 };
            (v, v, v, 255u8)
        } else {
            blended_spec(c.r, c.g, c.b, c.a, 255, 255, 255)
        },
    }
}

/// The four bytes of pixel `(x, y)` of a `w`-wide RGBA8 image.
pub open spec fn rgba_at(bytes: Seq<u8>, w: int, x: int, y: int) -> (u8, u8, u8, u8) {
    let i = 4 * (y * w + x);
    (bytes[i], bytes[i + 1], bytes[i + 2], bytes[i + 3])
}

/// `export_rgba` computed.
pub fn export_pixel(c: Color, bg: ExportBg, fx: usize, fy: usize) -> (res: (u8, u8, u8, u8))
    ensures
        res == export_rgba(c, bg, fx as int, fy as int),
{
    match bg {
        ExportBg::Transparent => (c.r, c.g, c.b, c.a),
        ExportBg::White => blended(c.r, c.g, c.b, c.a, 255, 255, 255),
        ExportBg::Black => blended(c.r, c.g, c.b, c.a, 0, 0, 0),
        ExportBg::Checker => {
            if c.a == 0 {
                let parity: usize = fx % 2 + fy % 2;
                assert((fx % 2 + fy % 2) % 2 == (fx + fy) % 2) by (nonlinear_arith);
                let v: u8 = if parity % 2 == 0 { 200 } else { 180 };
                (v, v, v, 255)
            } else {
                blended(c.r, c.g, c.b, c.a, 255, 255, 255)
            }
        },
    }
}

/// Appends the four bytes of a pixel.
fn push_rgba(out: &mut Vec<u8>, p: (u8, u8, u8, u8))
    ensures
        final(out)@ == old(out)@ + seq![p.0, p.1, p.2, p.3],
{
    out.push(p.0);
    out.push(p.1);
    out.push(p.2);
    out.push(p.3);
    assert(final(out)@ =~= old(out)@ + seq![p.0, p.1, p.2, p.3]);
}

/// The effective scale: at least 1.
pub open spec fn eff_scale(scale: u32) -> int {
    if scale >= 1 { scale as int } else { 1 }
}

/// The RGBA8 bytes of an `ow` by `oh` image scaled up `scale` times (at
/// least once), each pixel exported over `bg`. The image is the first
/// `ow * oh` pixels of `buf`; any further pixels are not read.
pub fn export_pixels(buf: &Vec<Color>, ow: usize, oh: usize, scale: u32, bg: ExportBg) -> (out: Vec<u8>)
    requires
        buf@.len() >= ow * oh,
        ow * eff_scale(scale) <= usize::MAX,
        oh * eff_scale(scale) <= usize::MAX,
        4 * (ow * eff_scale(scale)) * (oh * eff_scale(scale)) <= usize::MAX,
    ensures
        ({
            let s = eff_scale(scale);
            let w = ow * s;
            let h = oh * s;
            &&& out@.len() == 4 * w * h
            &&& forall|x: int, y: int| 0 <= x < w && 0 <= y < h ==> #[trigger] rgba_at(out@, w, x, y)
                == export_rgba(at(buf@, ow as int, x / s, y / s), bg, x / s, y / s)
        }),
{
    let s: usize = if scale >= 1 { scale as usize } else { 1 };
    let ghost si = s as int;
    assert(ow * s * (oh * s) <= 4 * (ow * s) * (oh * s)) by (nonlinear_arith);
    let w: usize = ow * s;
    let h: usize = oh * s;
    let bn: usize = buf.len();
    let mut out: Vec<u8> = Vec::new();
    let mut y: usize = 0;
    while y < h
        invariant
            buf@.len() >= ow * oh,
            bn == buf@.len(),
            si == eff_scale(scale),
            s == si,
            s >= 1,
            w == ow * s && h == oh * s,
            4 * w * h <= usize::MAX,
            y <= h,
            out@.len() == 4 * (y * w),
            forall|xx: int, yy: int| 0 <= xx < w && 0 <= yy < y ==> #[trigger] rgba_at(out@, w as int, xx, yy)
                == export_rgba(at(buf@, ow as int, xx / si, yy / si), bg, xx / si, yy / si),
        decreases h - y,
    {
        let mut x: usize = 0;
        while x < w
            invariant
                buf@.len() >= ow * oh,
                bn == buf@.len(),
                si == eff_scale(scale),
                s == si,
                s >= 1,
                w == ow * s && h == oh * s,
                4 * w * h <= usize::MAX,
                y < h,
                x <= w,
                out@.len() == 4 * (y * w + x),
                forall|xx: int, yy: int| 0 <= xx < w && 0 <= yy < y ==> #[trigger] rgba_at(out@, w as int, xx, yy)
                    == export_rgba(at(buf@, ow as int, xx / si, yy / si), bg, xx / si, yy / si),
                forall|xx: int| 0 <= xx < x ==> #[trigger] rgba_at(out@, w as int, xx, y as int)
                    == export_rgba(at(buf@, ow as int, xx / si, (y as int) / si), bg, xx / si, (y as int) / si),
            decreases w - x,
        {
            let fx: usize = x / s;
            let fy: usize = y / s;
            proof {
                assert(fx < ow) by (nonlinear_arith) requires fx == x / s, x < w, w == ow * s, s >= 1;
                assert(fy < oh) by (nonlinear_arith) requires fy == y / s, y < h, h == oh * s, s >= 1;
                lemma_index_in_bounds(ow as int, oh as int, fx as int, fy as int);
                lemma_index_in_bounds(w as int, h as int, x as int, y as int);
                assert(4 * (y * w + x) + 4 <= 4 * (w * h));
                assert(4 * (w * h) == 4 * w * h) by (nonlinear_arith);
            }
            let c = buf[fy * ow + fx];
            let p = export_pixel(c, bg, fx, fy);
            let ghost before = out@;
            push_rgba(&mut out, p);
            assert forall|xx: int, yy: int| 0 <= xx < w && 0 <= yy < y implies #[trigger] rgba_at(out@, w as int, xx, yy)
                == export_rgba(at(buf@, ow as int, xx / si, yy / si), bg, xx / si, yy / si) by {
                lemma_index_in_bounds(w as int, y as int, xx, yy);
                assert(w as int * y == y * w as int) by (nonlinear_arith);
                assert(rgba_at(out@, w as int, xx, yy) == rgba_at(before, w as int, xx, yy));
            }
            assert forall|xx: int| 0 <= xx < x + 1 implies #[trigger] rgba_at(out@, w as int, xx, y as int)
                == export_rgba(at(buf@, ow as int, xx / si, (y as int) / si), bg, xx / si, (y as int) / si) by {
                if xx < x {
                    assert(rgba_at(out@, w as int, xx, y as int) == rgba_at(before, w as int, xx, y as int));
                }
            }
            x = x + 1;
        }
        assert(out@.len() == 4 * ((y + 1) * w)) by (nonlinear_arith)
            requires out@.len() == 4 * (y * w + w);
        y = y + 1;
    }
    assert(4 * (h * w) == 4 * w * h) by (nonlinear_arith);
    out
}

impl Document {
    /// The PNG data of the flattened active frame, scaled `scale` times
    /// (at least once) and exported over `bg`.
    pub fn export_image(&self, scale: u32, bg: ExportBg) -> (out: Vec<u8>)
        requires
            self.wf(),
            self.width * eff_scale(scale) <= usize::MAX,
            self.height * eff_scale(scale) <= usize::MAX,
            4 * (self.width * eff_scale(scale)) * (self.height * eff_scale(scale)) <= usize::MAX,
        ensures
            ({
                let s = eff_scale(scale);
                let w = self.width * s;
                let h = self.height * s;
                &&& out@.len() == 4 * w * h
                &&& forall|x: int, y: int| 0 <= x < w && 0 <= y < h ==> #[trigger] rgba_at(out@, w, x, y)
                    == export_rgba(self.flat_pixel(self.active_frame as int, (y / s) * self.width + x / s), bg, x / s, y / s)
            }),
    {
        let flat = self.composite();
        let out = export_pixels(&flat, self.width, self.height, scale, bg);
        proof {
            let s = eff_scale(scale);
            let w = self.width * s;
            assert forall|x: int, y: int| 0 <= x < w && 0 <= y < self.height * s implies #[trigger] rgba_at(out@, w, x, y)
                == export_rgba(self.flat_pixel(self.active_frame as int, (y / s) * self.width + x / s), bg, x / s, y / s) by {
                assert(x / s < self.width) by (nonlinear_arith) requires 0 <= x < self.width * s, s >= 1;
                assert(y / s < self.height) by (nonlinear_arith) requires 0 <= y < self.height * s, s >= 1;
                assert(0 <= x / s && 0 <= y / s) by (nonlinear_arith) requires 0 <= x, 0 <= y, s >= 1;
                lemma_index_in_bounds(self.width as int, self.height as int, x / s, y / s);
                assert(rgba_at(out@, w, x, y) == export_rgba(at(flat@, self.width as int, x / s, y / s), bg, x / s, y / s));
            }
        }
        out
    }

    /// The PNG data of layer `l`'s active cel alone, scaled `scale` times
    /// (at least once) and exported over `bg`.
    pub fn export_layer(&self, l: usize, scale: u32, bg: ExportBg) -> (out: Vec<u8>)
        requires
            self.wf(),
            l < self.layers@.len(),
            self.width * eff_scale(scale) <= usize::MAX,
            self.height * eff_scale(scale) <= usize::MAX,
            4 * (self.width * eff_scale(scale)) * (self.height * eff_scale(scale)) <= usize::MAX,
        ensures
            ({
                let s = eff_scale(scale);
                let w = self.width * s;
                let h = self.height * s;
                &&& out@.len() == 4 * w * h
                &&& forall|x: int, y: int| 0 <= x < w && 0 <= y < h ==> #[trigger] rgba_at(out@, w, x, y)
                    == export_rgba(at(self.cel(l as int, self.active_frame as int), self.width as int, x / s, y / s), bg, x / s, y / s)
            }),
    {
        proof { self.lemma_shape(); }
        assert(self.cel(l as int, self.active_frame as int).len() == self.npix());
        export_pixels(&self.layers[l].cels[self.active_frame], self.width, self.height, scale, bg)
    }

    /// The PNG data of a sprite sheet: all frames flattened, side by side
    /// from left to right, scaled `scale` times (at least once) and
    /// exported over `bg`.
    pub fn export_sheet(&self, scale: u32, bg: ExportBg) -> (out: Vec<u8>)
        requires
            self.wf(),
            self.width * eff_scale(scale) * self.frames <= usize::MAX,
            self.height * eff_scale(scale) <= usize::MAX,
            4 * (self.width * eff_scale(scale) * self.frames) * (self.height * eff_scale(scale)) <= usize::MAX,
        ensures
            ({
                let s = eff_scale(scale);
                let fw = self.width * s;
                let w = fw * self.frames;
                let h = self.height * s;
                &&& out@.len() == 4 * w * h
                &&& forall|x: int, y: int| 0 <= x < w && 0 <= y < h ==> #[trigger] rgba_at(out@, w, x, y)
                    == export_rgba(self.flat_pixel(x / fw, (y / s) * self.width + (x % fw) / s), bg, (x % fw) / s, y / s)
            }),
    {
        proof { self.lemma_shape(); }
        let s: usize = if scale >= 1 { scale as usize } else { 1 };
        let ghost si = s as int;
        let ow: usize = self.width;
        let oh: usize = self.height;
        let n: usize = self.frames;
        assert(ow * s <= ow * s * n) by (nonlinear_arith) requires n >= 1;
        let fw: usize = ow * s;
        let w: usize = fw * n;
        let h: usize = oh * s;
        assert(w * h <= 4 * w * h) by (nonlinear_arith);
        let mut flats: Vec<Vec<Color>> = Vec::new();
        let mut f: usize = 0;
        while f < n
            invariant
                self.wf(),
                n == self.frames,
                f <= n,
                flats@.len() == f,
                forall|g: int| 0 <= g < f ==> (#[trigger] flats@[g])@.len() == self.npix(),
                forall|g: int, i: int| 0 <= g < f && 0 <= i < self.npix() ==> #[trigger] flats@[g]@[i] == self.flat_pixel(g, i),
            decreases n - f,
        {
            flats.push(self.composite_at(f));
            f = f + 1;
        }
        let mut out: Vec<u8> = Vec::new();
        let mut y: usize = 0;
        while y < h
            invariant
                self.wf(),
                ow == self.width && oh == self.height && n == self.frames,
                si == eff_scale(scale),
                s == si,
                s >= 1,
                fw == ow * s && w == fw * n && h == oh * s,
                4 * w * h <= usize::MAX,
                ow * oh == self.npix(),
                self.npix() <= usize::MAX,
                flats@.len() == n,
                forall|g: int| 0 <= g < n ==> (#[trigger] flats@[g])@.len() == self.npix(),
                forall|g: int, i: int| 0 <= g < n && 0 <= i < self.npix() ==> #[trigger] flats@[g]@[i] == self.flat_pixel(g, i),
                y <= h,
                out@.len() == 4 * (y * w),
                forall|xx: int, yy: int| 0 <= xx < w && 0 <= yy < y ==> #[trigger] rgba_at(out@, w as int, xx, yy)
                    == export_rgba(self.flat_pixel(xx / fw as int, (yy / si) * ow + (xx % fw as int) / si), bg, (xx % fw as int) / si, yy / si),
            decreases h - y,
        {
            let mut x: usize = 0;
            while x < w
                invariant
                    self.wf(),
                    ow == self.width && oh == self.height && n == self.frames,
                    si == eff_scale(scale),
                    s == si,
                    s >= 1,
                    fw == ow * s && w == fw * n && h == oh * s,
                    4 * w * h <= usize::MAX,
                    ow * oh == self.npix(),
                    self.npix() <= usize::MAX,
                    flats@.len() == n,
                    forall|g: int| 0 <= g < n ==> (#[trigger] flats@[g])@.len() == self.npix(),
                    forall|g: int, i: int| 0 <= g < n && 0 <= i < self.npix() ==> #[trigger] flats@[g]@[i] == self.flat_pixel(g, i),
                    y < h,
                    x <= w,
                    out@.len() == 4 * (y * w + x),
                    forall|xx: int, yy: int| 0 <= xx < w && 0 <= yy < y ==> #[trigger] rgba_at(out@, w as int, xx, yy)
                        == export_rgba(self.flat_pixel(xx / fw as int, (yy / si) * ow + (xx % fw as int) / si), bg, (xx % fw as int) / si, yy / si),
                    forall|xx: int| 0 <= xx < x ==> #[trigger] rgba_at(out@, w as int, xx, y as int)
                        == export_rgba(self.flat_pixel(xx / fw as int, ((y as int) / si) * ow + (xx % fw as int) / si), bg, (xx % fw as int) / si, (y as int) / si),
                decreases w - x,
            {
                let fr: usize = x / fw;
                let gx: usize = x % fw;
                let fx: usize = gx / s;
                let fy: usize = y / s;
                proof {
                    assert(fr < n) by (nonlinear_arith) requires fr == x / fw, x < w, w == fw * n, fw > 0;
                    assert(gx < fw) by (nonlinear_arith) requires gx == x % fw, fw > 0;
                    assert(fx < ow) by (nonlinear_arith) requires fx == gx / s, gx < fw, fw == ow * s, s >= 1;
                    assert(fy < oh) by (nonlinear_arith) requires fy == y / s, y < h, h == oh * s, s >= 1;
                    lemma_index_in_bounds(ow as int, oh as int, fx as int, fy as int);
                    lemma_index_in_bounds(w as int, h as int, x as int, y as int);
                    assert(4 * (y * w + x) + 4 <= 4 * (w * h));
                    assert(4 * (w * h) == 4 * w * h) by (nonlinear_arith);
                }
                let c = flats[fr][fy * ow + fx];
                let p = export_pixel(c, bg, fx, fy);
                let ghost before = out@;
                push_rgba(&mut out, p);
                assert forall|xx: int, yy: int| 0 <= xx < w && 0 <= yy < y implies #[trigger] rgba_at(out@, w as int, xx, yy)
                    == export_rgba(self.flat_pixel(xx / fw as int, (yy / si) * ow + (xx % fw as int) / si), bg, (xx % fw as int) / si, yy / si) by {
                    lemma_index_in_bounds(w as int, y as int, xx, yy);
                    assert(w as int * y == y * w as int) by (nonlinear_arith);
                    assert(rgba_at(out@, w as int, xx, yy) == rgba_at(before, w as int, xx, yy));
                }
                assert forall|xx: int| 0 <= xx < x + 1 implies #[trigger] rgba_at(out@, w as int, xx, y as int)
                    == export_rgba(self.flat_pixel(xx / fw as int, ((y as int) / si) * ow + (xx % fw as int) / si), bg, (xx % fw as int) / si, (y as int) / si) by {
                    if xx < x {
                        assert(rgba_at(out@, w as int, xx, y as int) == rgba_at(before, w as int, xx, y as int));
                    }
                }
                x = x + 1;
            }
            assert(out@.len() == 4 * ((y + 1) * w)) by (nonlinear_arith)
                requires out@.len() == 4 * (y * w + w);
            y = y + 1;
        }
        assert(4 * (h * w) == 4 * w * h) by (nonlinear_arith);
        out
    }

    /// The PNG data of frame `f` flattened, scaled `scale` times (at least
    /// once) and exported over `bg`.
    pub fn export_frame(&self, f: usize, scale: u32, bg: ExportBg) -> (out: Vec<u8>)
        requires
            self.wf(),
            self.width * eff_scale(scale) <= usize::MAX,
            self.height * eff_scale(scale) <= usize::MAX,
            4 * (self.width * eff_scale(scale)) * (self.height * eff_scale(scale)) <= usize::MAX,
        ensures
            ({
                let s = eff_scale(scale);
                let w = self.width * s;
                let h = self.height * s;
                &&& out@.len() == 4 * w * h
                &&& forall|x: int, y: int| 0 <= x < w && 0 <= y < h ==> #[trigger] rgba_at(out@, w, x, y)
                    == export_rgba(self.flat_pixel(f as int, (y / s) * self.width + x / s), bg, x / s, y / s)
            }),
    {
        let flat = self.composite_at(f);
        let out = export_pixels(&flat, self.width, self.height, scale, bg);
        proof {
            let s = eff_scale(scale);
            let w = self.width * s;
            assert forall|x: int, y: int| 0 <= x < w && 0 <= y < self.height * s implies #[trigger] rgba_at(out@, w, x, y)
                == export_rgba(self.flat_pixel(f as int, (y / s) * self.width + x / s), bg, x / s, y / s) by {
                assert(x / s < self.width) by (nonlinear_arith) requires 0 <= x < self.width * s, s >= 1;
                assert(y / s < self.height) by (nonlinear_arith) requires 0 <= y < self.height * s, s >= 1;
                assert(0 <= x / s && 0 <= y / s) by (nonlinear_arith) requires 0 <= x, 0 <= y, s >= 1;
                lemma_index_in_bounds(self.width as int, self.height as int, x / s, y / s);
                assert(rgba_at(out@, w, x, y) == export_rgba(at(flat@, self.width as int, x / s, y / s), bg, x / s, y / s));
            }
        }
        out
    }
}

/// Which files an export writes.
#[derive(Clone, Copy, PartialEq, Eq, Structural, Debug)]
pub enum ExportPlan {
    /// One sprite sheet with every frame side by side.
    Sheet,
    /// One file per frame.
    Frames,
    /// One file of the flattened image, and one per layer when asked.
    Single { each_layer: bool },
}

/// The files an export writes: a sheet when one is asked for and there is
/// more than one frame, otherwise one file per frame for an animation, and
/// otherwise the single image (with a file per layer when asked).
pub open spec fn plan_spec(sheet: bool, each_layer: bool, frames: nat) -> ExportPlan {
    if sheet && frames > 1 {
        ExportPlan::Sheet
    } else if frames > 1 {
        ExportPlan::Frames
    } else {
        ExportPlan::Single { each_layer }
    }
}

/// See `plan_spec`.
pub fn export_plan(sheet: bool, each_layer: bool, frames: usize) -> (p: ExportPlan)
    ensures
        p == plan_spec(sheet, each_layer, frames as nat),
{
    if sheet && frames > 1 {
        ExportPlan::Sheet
    } else if frames > 1 {
        ExportPlan::Frames
    } else {
        ExportPlan::Single { each_layer }
    }
}

/// The size in pixels of what an export writes, as the export dialog
/// shows it: the sheet is as wide as all frames together.
pub open spec fn out_size(w: nat, h: nat, frames: nat, sheet: bool, scale: u32) -> (int, int) {
    let s = eff_scale(scale);
    if sheet && frames > 1 { (w * frames * s, h * s) } else { (w * s, h * s) }
}

/// See `out_size`.
pub fn export_size(w: usize, h: usize, frames: usize, sheet: bool, scale: u32) -> (r: (usize, usize))
    requires
        w * frames * eff_scale(scale) <= usize::MAX,
        w * eff_scale(scale) <= usize::MAX,
        h * eff_scale(scale) <= usize::MAX,
    ensures
        (r.0 as int, r.1 as int) == out_size(w as nat, h as nat, frames as nat, sheet, scale),
{
    let s: usize = if scale > 1 { scale as usize } else { 1 };
    if sheet && frames > 1 {
        proof {
            assert(w * frames <= w * frames * s) by (nonlinear_arith)
                requires s >= 1;
        }
        (w * frames * s, h * s)
    } else {
        (w * s, h * s)
    }
}

/// Over the checker background a fully transparent pixel shows the
/// checkerboard: opaque grey, light (200) where `fx + fy` is even and dark
/// (180) where it is odd, so every two pixels side by side or one above the
/// other differ.
pub proof fn law_checker_background(c: Color, fx: int, fy: int)
    requires
        c.a == 0,
    ensures
        ({
            let p = export_rgba(c, ExportBg::Checker, fx, fy);
            &&& p.3 == 255 && p.0 == p.1 && p.1 == p.2
            &&& (fx + fy) % 2 == 0 ==> p.0 == 200
            &&& (fx + fy) % 2 != 0 ==> p.0 == 180
            &&& p != export_rgba(c, ExportBg::Checker, fx + 1, fy)
            &&& p != export_rgba(c, ExportBg::Checker, fx, fy + 1)
        }),
{
}

/// Over white or black a fully transparent pixel exports as that opaque
/// color, and an opaque pixel exports as itself over every background.
pub proof fn law_export_backgrounds(c: Color, fx: int, fy: int)
    ensures
        c.a == 0 ==> export_rgba(c, ExportBg::White, fx, fy) == (255u8, 255u8, 255u8, 255u8),
        c.a == 0 ==> export_rgba(c, ExportBg::Black, fx, fy) == (0u8, 0u8, 0u8, 255u8),
        c.a == 255 ==> export_rgba(c, ExportBg::White, fx, fy) == (c.r, c.g, c.b, 255u8)
            && export_rgba(c, ExportBg::Black, fx, fy) == (c.r, c.g, c.b, 255u8)
            && export_rgba(c, ExportBg::Checker, fx, fy) == (c.r, c.g, c.b, 255u8),
        export_rgba(c, ExportBg::Transparent, fx, fy) == (c.r, c.g, c.b, c.a),
{
    if c.a == 255 {
        crate::color::lemma_mix_opaque(c.r as int, 255);
        crate::color::lemma_mix_opaque(c.g as int, 255);
        crate::color::lemma_mix_opaque(c.b as int, 255);
        crate::color::lemma_mix_opaque(c.r as int, 0);
        crate::color::lemma_mix_opaque(c.g as int, 0);
        crate::color::lemma_mix_opaque(c.b as int, 0);
    }
}

} // verus!

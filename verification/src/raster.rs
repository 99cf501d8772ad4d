//! The in-memory raster model and the nearest-neighbor resizer.

use vstd::prelude::*;

verus! {

/// One pixel with 8-bit red, green and blue channels.
#[derive(Clone, Copy, PartialEq, Eq, Structural, Debug)]
pub struct Pixel {
    pub r: u8,
    pub g: u8,
    pub b: u8,
}

/// A rectangular grid of pixels, stored in row-major order: linear index `i`
/// holds the pixel of column `i % width`, row `i / width`.
#[derive(Debug)]
pub struct Raster {
    pub width: usize,
    pub height: usize,
    pub pixels: Vec<Pixel>,
}

impl Raster {
    /// Both dimensions are strictly positive and the pixel count matches them.
    pub open spec fn wf(self) -> bool {
        &&& self.width > 0
        &&& self.height > 0
        &&& self.pixels@.len() == self.width * self.height
    }
}

/// The source coordinate sampled for output coordinate `x` when an axis of
/// `src_dim` pixels is resampled to `out_dim` pixels.
pub open spec fn nn_source(x: int, out_dim: int, src_dim: int) -> int {
    (x * src_dim) / out_dim
}

/// The pixel that nearest-neighbor resampling places at output position
/// `(x, y)` when a `sw x sh` source is resized to `ow x oh`.
pub open spec fn resized_pixel(
    px: Seq<Pixel>,
    sw: int,
    sh: int,
    ow: int,
    oh: int,
    x: int,
    y: int,
) -> Pixel {
    px[nn_source(y, oh, sh) * sw + nn_source(x, ow, sw)]
}

/// The full pixel sequence of the resized raster, row-major.
pub open spec fn resize_spec(px: Seq<Pixel>, sw: int, sh: int, ow: int, oh: int) -> Seq<Pixel> {
    Seq::new((ow * oh) as nat, |i: int| resized_pixel(px, sw, sh, ow, oh, i % ow, i / ow))
}

/// The output dimensions chosen by the preserve-ratio policy: the source
/// dimensions scaled by `min(tw / sw, th / sh)`, each rounded down and held
/// at a floor of one pixel.
pub open spec fn preserve_dims(sw: int, sh: int, tw: int, th: int) -> (int, int) {
    if tw * sh <= th * sw {
        (tw, vstd::math::max(1, (sh * tw) / sw))
    } else {
        (vstd::math::max(1, (sw * th) / sh), th)
    }
}

/// The preserve-ratio policy fits inside the target box and fills it along
/// at least one axis.
pub proof fn lemma_preserve_dims_bounds(sw: int, sh: int, tw: int, th: int)
    requires
        sw > 0,
        sh > 0,
        tw > 0,
        th > 0,
    ensures
        ({
            let (ow, oh) = preserve_dims(sw, sh, tw, th);
            &&& 0 < ow <= tw
            &&& 0 < oh <= th
            &&& ow == tw || oh == th
        }),
{
    if tw * sh <= th * sw {
        assert((sh * tw) / sw <= th) by (nonlinear_arith)
            requires sw > 0, sh > 0, th > 0, tw * sh <= th * sw;
    } else {
        assert((sw * th) / sh <= tw) by (nonlinear_arith)
            requires sh > 0, sw > 0, tw > 0, sw * th <= tw * sh;
    }
}

/// Computes the preserve-ratio output dimensions for a `sw x sh` source and
/// a `tw x th` target box.
pub fn preserve_dims_exec(sw: usize, sh: usize, tw: u16, th: u16) -> (r: (usize, usize))
    requires
        0 < sw <= u32::MAX,
        0 < sh <= u32::MAX,
        tw > 0,
        th > 0,
    ensures
        r.0 == preserve_dims(sw as int, sh as int, tw as int, th as int).0,
        r.1 == preserve_dims(sw as int, sh as int, tw as int, th as int).1,
        0 < r.0 <= tw,
        0 < r.1 <= th,
{
    proof {
        lemma_preserve_dims_bounds(sw as int, sh as int, tw as int, th as int);
    }
    let sw64 = sw as u64;
    let sh64 = sh as u64;
    let tw64 = tw as u64;
    let th64 = th as u64;
    proof {
        assert(tw as int * sh as int <= 0xffff * 0xffffffff
            && th as int * sw as int <= 0xffff * 0xffffffff
            && sh as int * tw as int <= 0xffff * 0xffffffff
            && sw as int * th as int <= 0xffff * 0xffffffff) by (nonlinear_arith)
            requires
                0 <= (tw as int) <= 0xffff,
                0 <= (th as int) <= 0xffff,
                0 <= (sw as int) <= 0xffffffff,
                0 <= (sh as int) <= 0xffffffff;
    }
    if tw64 * sh64 <= th64 * sw64 {
        let oh = (sh64 * tw64) / sw64;
        let oh = if oh < 1 { 1 } else { oh };
        (tw as usize, oh as usize)
    } else {
        let ow = (sw64 * th64) / sh64;
        let ow = if ow < 1 { 1 } else { ow };
        (ow as usize, th as usize)
    }
}

/// Resamples `src` to exactly `ow x oh` pixels by nearest neighbor.
pub fn resize(src: &Raster, ow: usize, oh: usize) -> (r: Raster)
    requires
        src.wf(),
        src.width <= u32::MAX,
        src.height <= u32::MAX,
        0 < ow <= 65535,
        0 < oh <= 65535,
    ensures
        r.wf(),
        r.width == ow,
        r.height == oh,
        r.pixels@ == resize_spec(
            src.pixels@,
            src.width as int,
            src.height as int,
            ow as int,
            oh as int,
        ),
{
    let sw = src.width;
    let sh = src.height;
    let mut out: Vec<Pixel> = Vec::new();
    let ghost gspec = resize_spec(src.pixels@, sw as int, sh as int, ow as int, oh as int);
    let mut y: usize = 0;
    while y < oh
        invariant
            src.wf(),
            sw == src.width <= u32::MAX,
            sh == src.height <= u32::MAX,
            0 < ow <= 65535,
            0 < oh <= 65535,
            y <= oh,
            out@.len() == y * ow,
            gspec == resize_spec(src.pixels@, sw as int, sh as int, ow as int, oh as int),
            forall|i: int| 0 <= i < out@.len() ==> out@[i] == gspec[i],
        decreases oh - y,
    {
        proof {
            assert(y as int * sh as int <= 0xffff * 0xffffffff) by (nonlinear_arith)
                requires 0 <= (y as int) <= 0xffff, 0 <= (sh as int) <= 0xffffffff;
            assert((y as int * sh as int) / (oh as int) < (sh as int)) by (nonlinear_arith)
                requires 0 <= (y as int) < (oh as int), (sh as int) > 0, (oh as int) > 0;
        }
        let sy = ((y as u64 * sh as u64) / (oh as u64)) as usize;
        let mut x: usize = 0;
        while x < ow
            invariant
                src.wf(),
                sw == src.width <= u32::MAX,
                sh == src.height <= u32::MAX,
                0 < ow <= 65535,
                0 < oh <= 65535,
                y < oh,
                x <= ow,
                sy == (y as int * sh as int) / (oh as int),
                0 <= sy < sh,
                out@.len() == y * ow + x,
                gspec == resize_spec(src.pixels@, sw as int, sh as int, ow as int, oh as int),
                forall|i: int| 0 <= i < out@.len() ==> out@[i] == gspec[i],
            decreases ow - x,
        {
            proof {
                assert(x as int * sw as int <= 0xffff * 0xffffffff) by (nonlinear_arith)
                    requires 0 <= (x as int) <= 0xffff, 0 <= (sw as int) <= 0xffffffff;
                assert((x as int * sw as int) / (ow as int) < (sw as int)) by (nonlinear_arith)
                    requires 0 <= (x as int) < (ow as int), (sw as int) > 0, (ow as int) > 0;
            }
            let sx = ((x as u64 * sw as u64) / (ow as u64)) as usize;
            proof {
                assert(sy * sw + sx < sw * sh) by (nonlinear_arith)
                    requires
                        0 <= (sy as int) <= (sh as int) - 1,
                        0 <= (sx as int) <= (sw as int) - 1,
                        (sw as int) > 0,
                        (sh as int) > 0;
            }
            let n = src.pixels.len();
            proof {
                assert(sw * sh == src.pixels@.len());
                assert(sy * sw + sx < n);
            }
            let p = src.pixels[sy * sw + sx];
            out.push(p);
            proof {
                let i = y as int * ow as int + x as int;
                assert(i % (ow as int) == x as int && i / (ow as int) == y as int) by (nonlinear_arith)
                    requires 0 <= (x as int) < (ow as int), 0 <= (y as int), (ow as int) > 0,
                        i == y as int * ow as int + x as int;
                assert(i < ow as int * oh as int) by (nonlinear_arith)
                    requires 0 <= (x as int) < (ow as int), 0 <= (y as int) < (oh as int),
                        i == y as int * ow as int + x as int;
                assert(sx as int == nn_source(x as int, ow as int, sw as int));
                assert(sy as int == nn_source(y as int, oh as int, sh as int));
                assert(gspec[i] == resized_pixel(
                    src.pixels@, sw as int, sh as int, ow as int, oh as int, x as int, y as int));
                assert(out@[i] == gspec[i]);
            }
            x = x + 1;
        }
        y = y + 1;
        proof {
            assert((y - 1) as int * ow as int + ow as int == y as int * ow as int) by (nonlinear_arith)
                requires (y as int) >= 1, (ow as int) > 0;
        }
    }
    proof {
        assert(oh as int * ow as int == ow as int * oh as int) by (nonlinear_arith);
        assert(out@ =~= gspec);
        assert(ow * oh == ow as int * oh as int) by (nonlinear_arith)
            requires 0 < ow <= 65535, 0 < oh <= 65535;
    }
    Raster { width: ow, height: oh, pixels: out }
}

} // verus!

use vstd::prelude::*;
use crate::rle::Raster;

verus! {

/// The pixels of `pixels` (a `w` x `h` raster) resampled to `nw` x `nh`,
/// with the triangle filter when `shrinking`, Catmull-Rom otherwise.
pub uninterp spec fn resized_of(
    pixels: Seq<[u8; 3]>,
    w: nat,
    h: nat,
    nw: nat,
    nh: nat,
    shrinking: bool,
) -> Seq<[u8; 3]>;

/// Relies on image::imageops::resize over an RGB buffer of the raster: a
/// `nw` x `nh` buffer, resampled with the triangle filter when `shrinking`
/// and with Catmull-Rom otherwise.
#[verifier::external_body]
fn resample(img: &Raster, nw: u32, nh: u32, shrinking: bool) -> (r: Vec<[u8; 3]>)
    requires
        img.wf(),
    ensures
        r@ == resized_of(img.pixels@, img.width as nat, img.height as nat, nw as nat, nh as nat, shrinking),
        r@.len() == nw * nh,
{
    let flat: Vec<u8> = img.pixels.iter().flat_map(|p| p.iter().copied()).collect();
    let buf = image::RgbImage::from_raw(img.width, img.height, flat).expect("raster size");
    let filter = if shrinking { image::imageops::FilterType::Triangle } else { image::imageops::FilterType::CatmullRom };
    let out = image::imageops::resize(&buf, nw, nh, filter);
    out.pixels().map(|p| p.0).collect()
}

/// Terminal cells are about twice as tall as they are wide.
pub const CHAR_ASPECT_RATIO: u64 = 2;

/// The size that a `w` x `h` image takes in a `tw` x `th` grid: full width
/// and the height that keeps the aspect ratio (corrected for the cells'
/// shape), rounded; where that is too tall, full height and the width
/// scaled down alike; at least one cell each way.
pub open spec fn fitted_size(w: nat, h: nat, tw: nat, th: nat) -> (nat, nat) {
    let nh0: nat = ((2 * (h * tw) + CHAR_ASPECT_RATIO * w) / (2 * CHAR_ASPECT_RATIO * w)) as nat;
    let (nw, nh): (nat, nat) = if nh0 > th {
        (((2 * (tw * th) + nh0) / (2 * nh0)) as nat, th)
    } else {
        (tw, nh0)
    };
    (if nw < 1 {
        1
    } else {
        nw
    }, if nh < 1 {
        1
    } else {
        nh
    })
}

/// Pixel `k` of a `tw` x `th` black canvas with a `nw` x `nh` image centred
/// on it.
pub open spec fn letterbox_at(image: Seq<[u8; 3]>, nw: nat, nh: nat, tw: nat, th: nat, k: int) -> [u8; 3] {
    let x = k % (tw as int);
    let y = k / (tw as int);
    let sx = (tw - nw) / 2;
    let sy = (th - nh) / 2;
    if sx <= x < sx + nw && sy <= y < sy + nh {
        image[(y - sy) * nw + (x - sx)]
    } else {
        [0u8, 0u8, 0u8]
    }
}

pub proof fn lemma_fitted_size_bounds(w: nat, h: nat, tw: nat, th: nat)
    requires
        w >= 1,
        tw >= 1,
        th >= 1,
    ensures
        1 <= fitted_size(w, h, tw, th).0 <= tw,
        1 <= fitted_size(w, h, tw, th).1 <= th,
{
    let nh0 = (2 * (h * tw) + 2 * w) / (4 * w);
    if nh0 > th {
        assert(2 * (tw * th) + nh0 < 2 * nh0 * (tw + 1)) by (nonlinear_arith)
            requires
                nh0 > th,
                th >= 1,
                tw >= 1,
        ;
        assert((2 * (tw * th) + nh0) / (2 * nh0) <= tw) by (nonlinear_arith)
            requires
                2 * (tw * th) + nh0 < 2 * nh0 * (tw + 1),
                nh0 > 0,
        ;
    }
}

/// A black `w` x `h` raster.
pub fn black_raster(w: u32, h: u32) -> (r: Raster)
    requires
        w * h <= usize::MAX,
    ensures
        r.wf(),
        r.width == w,
        r.height == h,
        forall|k: int| 0 <= k < r.pixels@.len() ==> r.pixels@[k] == [0u8, 0u8, 0u8],
{
    let n: usize = (w as usize) * (h as usize);
    let mut pixels: Vec<[u8; 3]> = Vec::new();
    let mut i: usize = 0;
    while i < n
        invariant
            i <= n,
            pixels@.len() == i,
            forall|k: int| 0 <= k < i ==> pixels@[k] == [0u8, 0u8, 0u8],
        decreases n - i,
    {
        pixels.push([0u8, 0u8, 0u8]);
        i = i + 1;
    }
    Raster { width: w, height: h, pixels }
}

/// Centres a `nw` x `nh` image on a black `tw` x `th` canvas.
pub fn letterbox(image: &Vec<[u8; 3]>, nw: u32, nh: u32, tw: u32, th: u32) -> (r: Raster)
    requires
        image@.len() == nw * nh,
        1 <= nw <= tw,
        1 <= nh <= th,
        tw * th <= usize::MAX,
    ensures
        r.wf(),
        r.width == tw,
        r.height == th,
        forall|k: int|
            0 <= k < r.pixels@.len() ==> r.pixels@[k] == letterbox_at(
                image@,
                nw as nat,
                nh as nat,
                tw as nat,
                th as nat,
                k,
            ),
{
    let ilen: usize = image.len();
    let sx: u32 = (tw - nw) / 2;
    let sy: u32 = (th - nh) / 2;
    let mut pixels: Vec<[u8; 3]> = Vec::new();
    let mut y: u32 = 0;
    while y < th
        invariant
            y <= th,
            1 <= nw <= tw,
            1 <= nh <= th,
            image@.len() == nw * nh,
            ilen == nw * nh,
            tw * th <= usize::MAX,
            sx == (tw - nw) / 2,
            sy == (th - nh) / 2,
            pixels@.len() == y * tw,
            forall|k: int|
                0 <= k < pixels@.len() ==> pixels@[k] == letterbox_at(
                    image@,
                    nw as nat,
                    nh as nat,
                    tw as nat,
                    th as nat,
                    k,
                ),
        decreases th - y,
    {
        let mut x: u32 = 0;
        while x < tw
            invariant
                x <= tw,
                y < th,
                1 <= nw <= tw,
                1 <= nh <= th,
                image@.len() == nw * nh,
                ilen == nw * nh,
                tw * th <= usize::MAX,
                sx == (tw - nw) / 2,
                sy == (th - nh) / 2,
                pixels@.len() == y * tw + x,
                forall|k: int|
                    0 <= k < pixels@.len() ==> pixels@[k] == letterbox_at(
                        image@,
                        nw as nat,
                        nh as nat,
                        tw as nat,
                        th as nat,
                        k,
                    ),
            decreases tw - x,
        {
            let ghost k = (y * tw + x) as int;
            proof {
                vstd::arithmetic::div_mod::lemma_fundamental_div_mod_converse(
                    k,
                    tw as int,
                    y as int,
                    x as int,
                );
            }
            if sx <= x && x < sx + nw && sy <= y && y < sy + nh {
                let iy = y - sy;
                let ix = x - sx;
                assert(iy * nw + ix < nw * nh) by (nonlinear_arith)
                    requires
                        iy < nh,
                        ix < nw,
                ;
                let idx: usize = (iy as usize) * (nw as usize) + (ix as usize);
                pixels.push(image[idx]);
            } else {
                pixels.push([0u8, 0u8, 0u8]);
            }
            x = x + 1;
        }
        assert((y + 1) * tw == y * tw + tw) by (nonlinear_arith);
        y = y + 1;
    }
    assert(th * tw == tw * th) by (nonlinear_arith);
    Raster { width: tw, height: th, pixels }
}

} // verus!

verus! {

/// The fitted size of a `w` x `h` image in a `tw` x `th` grid.
pub fn fit_size(w: u32, h: u32, tw: u32, th: u32) -> (r: (u32, u32))
    requires
        w >= 1,
        1 <= tw <= 65535,
        1 <= th <= 65535,
    ensures
        (r.0 as nat, r.1 as nat) == fitted_size(w as nat, h as nat, tw as nat, th as nat),
        1 <= r.0 <= tw,
        1 <= r.1 <= th,
{
    proof {
        lemma_fitted_size_bounds(w as nat, h as nat, tw as nat, th as nat);
    }
    let w64: u64 = w as u64;
    let den: u64 = 2 * CHAR_ASPECT_RATIO * w64;
    let h64: u64 = h as u64;
    let tw64: u64 = tw as u64;
    let th64: u64 = th as u64;
    assert(h64 * tw64 <= 4294967295 * 65535) by (nonlinear_arith)
        requires
            h64 <= 4294967295,
            tw64 <= 65535,
    ;
    let ht: u64 = h64 * tw64;
    let nh0: u64 = (2 * ht + CHAR_ASPECT_RATIO * w64) / den;
    let mut nw: u64 = tw64;
    let mut nh: u64 = nh0;
    if nh0 > th64 {
        assert(tw64 * th64 <= 65535 * 65535) by (nonlinear_arith)
            requires
                tw64 <= 65535,
                th64 <= 65535,
        ;
        nw = (2 * (tw64 * th64) + nh0) / (2 * nh0);
        nh = th64;
    }
    if nw < 1 {
        nw = 1;
    }
    if nh < 1 {
        nh = 1;
    }
    (nw as u32, nh as u32)
}

/// The grid that a `cols` x `lines` terminal offers a frame, one line kept
/// for the status bar; a single cell where that leaves none.
pub open spec fn canvas_size(cols: u16, lines: u16) -> (nat, nat) {
    if cols == 0 || lines <= 1 {
        (1, 1)
    } else {
        (cols as nat, (lines - 1) as nat)
    }
}

/// The pixels of `img` fitted into a `cols` x `lines` terminal: black where
/// the grid or the image is empty, else the image resampled to its fitted
/// size and centred on black.
pub open spec fn fitted_pixels(img: Raster, cols: u16, lines: u16) -> Seq<[u8; 3]> {
    let (tw, th) = canvas_size(cols, lines);
    let w = img.width as nat;
    let h = img.height as nat;
    if w == 0 || h == 0 || cols == 0 || lines <= 1 {
        Seq::new(tw * th, |_k: int| [0u8, 0u8, 0u8])
    } else {
        let (nw, nh) = fitted_size(w, h, tw, th);
        let shrinking = nw < w || nh < h;
        Seq::new(
            tw * th,
            |k: int| letterbox_at(resized_of(img.pixels@, w, h, nw, nh, shrinking), nw, nh, tw, th, k),
        )
    }
}

/// Fits a decoded image into a terminal of `cols` x `lines` cells, one line
/// kept for the status bar: the image is resampled to its fitted size and
/// centred on a black canvas of the grid's size. A grid without cells gives
/// one black pixel, an image without pixels a black canvas.
pub fn resize_and_center(img: &Raster, cols: u16, lines: u16) -> (r: Raster)
    requires
        img.wf(),
    ensures
        r.wf(),
        (r.width as nat, r.height as nat) == canvas_size(cols, lines),
        r.pixels@ == fitted_pixels(*img, cols, lines),
{
    let tw: u32 = cols as u32;
    let th: u32 = if lines >= 1 {
        (lines - 1) as u32
    } else {
        0
    };
    if tw == 0 || th == 0 {
        let r = black_raster(1, 1);
        assert(r.pixels@ =~= fitted_pixels(*img, cols, lines));
        return r;
    }
    assert(tw * th <= 65535 * 65535) by (nonlinear_arith)
        requires
            tw <= 65535,
            th <= 65535,
    ;
    let w = img.width;
    let h = img.height;
    if w == 0 || h == 0 {
        let r = black_raster(tw, th);
        assert(r.pixels@ =~= fitted_pixels(*img, cols, lines));
        return r;
    }
    let (nw32, nh32) = fit_size(w, h, tw, th);
    let shrinking = nw32 < w || nh32 < h;
    let resized = resample(img, nw32, nh32, shrinking);
    let r = letterbox(&resized, nw32, nh32, tw, th);
    assert(r.pixels@ =~= fitted_pixels(*img, cols, lines));
    r
}

} // verus!

//! Sizing of the working copy: its shorter side is brought down to 500
//! pixels, and an image that is already smaller is never enlarged.
use vstd::prelude::*;

use crate::codec::{resize_triangle, triangle_resized};
use crate::grid::{area, grid_wf, GridModel, PixelGrid};

verus! {

/// The shorter side that a working copy is scaled to.
pub const TARGET_SIDE: u32 = 500;

/// `u * TARGET_SIDE / m`, rounded to the nearest integer, halves up.
pub open spec fn scaled_side(u: u32, m: u32) -> int {
    (2 * TARGET_SIDE * u + m) / (2 * m as int)
}

/// The size of the working copy of a `w` by `h` image: both sides scaled by
/// `TARGET_SIDE / min(w, h)`, where that ratio is at most 1.
pub open spec fn target_dims(w: u32, h: u32) -> (int, int) {
    let m = if w < h { w } else { h };
    if m <= TARGET_SIDE {
        (w as int, h as int)
    } else {
        (scaled_side(w, m), scaled_side(h, m))
    }
}

/// The working copy of grid `g`.
pub open spec fn downsampled(g: GridModel) -> GridModel {
    let (nw, nh) = target_dims(g.0, g.1);
    if nw == g.0 && nh == g.1 {
        g
    } else {
        (nw as u32, nh as u32, triangle_resized(g.2, g.0, g.1, nw as u32, nh as u32))
    }
}

/// The working copy is never larger than the original on either side.
pub proof fn lemma_target_never_larger(w: u32, h: u32)
    ensures
        0 <= target_dims(w, h).0 <= w,
        0 <= target_dims(w, h).1 <= h,
        w > 0 && h > 0 ==> target_dims(w, h).0 > 0 && target_dims(w, h).1 > 0,
{
    let m = if w < h { w } else { h };
    if m > TARGET_SIDE {
        lemma_scaled_side_bounds(w, m);
        lemma_scaled_side_bounds(h, m);
    }
}

proof fn lemma_scaled_side_bounds(u: u32, m: u32)
    requires
        m > TARGET_SIDE,
        u >= m,
    ensures
        0 < scaled_side(u, m) <= u,
{
    let mi = m as int;
    let ui = u as int;
    assert(0 < (1000 * ui + mi) / (2 * mi) <= ui) by (nonlinear_arith)
        requires
            mi > 500,
            ui >= mi,
    {
        assert(1000 * ui + mi < 2 * mi * (ui + 1));
        assert(1000 * ui + mi >= 2 * mi);
    }
}

/// The smaller of two sides.
pub fn smaller(x: u32, y: u32) -> (r: u32)
    ensures
        r == if x < y { x } else { y },
{
    if x < y {
        x
    } else {
        y
    }
}

/// Side `u` scaled by `TARGET_SIDE / m` and rounded.
pub fn calculate(u: u32, m: u32) -> (r: u32)
    requires
        m > TARGET_SIDE,
        u >= m,
    ensures
        r == scaled_side(u, m),
{
    proof {
        lemma_scaled_side_bounds(u, m);
    }
    let num: u64 = 2 * TARGET_SIDE as u64 * u as u64 + m as u64;
    (num / (2 * m as u64)) as u32
}

/// The size of the working copy of a `w` by `h` image.
pub fn target_dimensions(w: u32, h: u32) -> (r: (u32, u32))
    ensures
        r.0 == target_dims(w, h).0,
        r.1 == target_dims(w, h).1,
        r.0 <= w && r.1 <= h,
{
    proof {
        lemma_target_never_larger(w, h);
    }
    let m = smaller(w, h);
    if m <= TARGET_SIDE {
        (w, h)
    } else {
        (calculate(w, m), calculate(h, m))
    }
}

/// Builds the working copy of an image with the triangle filter.
pub fn compressing_image(image: &PixelGrid) -> (r: PixelGrid)
    requires
        image.wf(),
    ensures
        r@ == downsampled(image@),
        r.wf(),
{
    let (nw, nh) = target_dimensions(image.width, image.height);
    let source_len = image.data.len();
    proof {
        lemma_target_never_larger(image.width, image.height);
        assert(3 * area(image.width, image.height) == source_len);
        assert(area(nw, nh) <= area(image.width, image.height)) by (nonlinear_arith)
            requires
                nw <= image.width,
                nh <= image.height,
        {
        }
    }
    let data = resize_triangle(&image.data, image.width, image.height, nw, nh);
    let r = PixelGrid { width: nw, height: nh, data };
    assert(grid_wf(r@));
    r
}

/// An image whose shorter side is at most `TARGET_SIDE` is its own working copy.
pub proof fn lemma_small_image_kept(g: GridModel)
    requires
        g.0 <= TARGET_SIDE || g.1 <= TARGET_SIDE,
    ensures
        downsampled(g) == g,
{
}

} // verus!

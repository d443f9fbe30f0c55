//! Picking texels of a row-major texture: the coordinates are clamped to
//! the texture's last column and row before they are turned into an index.
use vstd::prelude::*;

verus! {

/// A texel coordinate clamped to the last one of a texture dimension.
pub open spec fn clamp_texel(v: u16, dimension: u16) -> int {
    if v <= dimension - 1 {
        v as int
    } else {
        dimension - 1
    }
}

/// Where the texel at `(x, y)`, both clamped, sits in a row-major texture
/// `width` texels wide.
pub open spec fn texel_at(x: u16, y: u16, width: u16, height: u16) -> int {
    clamp_texel(y, height) * width + clamp_texel(x, width)
}

pub(crate) fn clamp_texel_exec(v: u16, dimension: u16) -> (c: u16)
    requires
        dimension >= 1,
    ensures
        c == clamp_texel(v, dimension),
{
    if v <= dimension - 1 {
        v
    } else {
        dimension - 1
    }
}

/// The index of the texel at `(x, y)` of a `width` by `height` texture, the
/// coordinates clamped to the last column and row. It always lies within
/// the texture.
pub fn texel_index(x: u16, y: u16, width: u16, height: u16) -> (i: usize)
    requires
        width >= 1,
        height >= 1,
    ensures
        i == texel_at(x, y, width, height),
        i < width * height,
{
    let cx = clamp_texel_exec(x, width);
    let cy = clamp_texel_exec(y, height);
    proof {
        lemma_texel_in_texture(cx, cy, width, height);
    }
    cy as usize * width as usize + cx as usize
}

/// A clamped position lies within the texture.
pub(crate) proof fn lemma_texel_in_texture(x: u16, y: u16, width: u16, height: u16)
    requires
        x < width,
        y < height,
    ensures
        y * width + x < width * height,
        width * height <= 0xffff * 0xffff,
{
    let (w, h) = (width as int, height as int);
    assert(y * w + x < w * h) by (nonlinear_arith)
        requires
            0 <= x < w,
            0 <= y < h,
    ;
    assert(w * h <= 0xffff * 0xffff) by (nonlinear_arith)
        requires
            0 <= w <= 0xffff,
            0 <= h <= 0xffff,
    ;
}

} // verus!

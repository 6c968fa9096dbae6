//! Software rendering utilities

use super::{in_shape, lemma_paint_agree, Color, Renderer};
use vstd::prelude::*;

verus! {

/// The alpha channel of a colour.
pub open spec fn alpha_of(color: Color) -> int {
    color as int / 0x100_0000
}

/// The red channel of a colour.
pub open spec fn red_of(color: Color) -> int {
    (color as int / 0x1_0000) % 256
}

/// The green channel of a colour.
pub open spec fn green_of(color: Color) -> int {
    (color as int / 0x100) % 256
}

/// The blue channel of a colour.
pub open spec fn blue_of(color: Color) -> int {
    color as int % 256
}

/// The colour with the given channels, each below 256.
pub open spec fn pack(a: int, r: int, g: int, b: int) -> int {
    a * 0x100_0000 + r * 0x1_0000 + g * 0x100 + b
}

/// One channel of `src` over `dst`: the two weighted by the alpha of the
/// source and what is left of 255, rounded down.
pub open spec fn blend_channel(dst: int, src: int, alpha: int) -> int {
    (src * alpha + dst * (255 - alpha)) / 255
}

/// The colour of `src` laid over `dst`.
pub open spec fn blended(dst: Color, src: Color) -> int {
    if alpha_of(src) == 0 {
        dst as int
    } else if alpha_of(src) == 255 {
        src as int
    } else {
        pack(
            255,
            blend_channel(red_of(dst), red_of(src), alpha_of(src)),
            blend_channel(green_of(dst), green_of(src), alpha_of(src)),
            blend_channel(blue_of(dst), blue_of(src), alpha_of(src)),
        )
    }
}

/// The four channels of a colour.
fn channels(color: Color) -> (r: (u32, u32, u32, u32))
    ensures
        r.0 == alpha_of(color),
        r.1 == red_of(color),
        r.2 == green_of(color),
        r.3 == blue_of(color),
        r.0 < 256 && r.1 < 256 && r.2 < 256 && r.3 < 256,
{
    assert((color >> 24u32) & 0xFF == color / 0x100_0000) by (bit_vector);
    assert((color >> 16u32) & 0xFF == (color / 0x1_0000) % 256) by (bit_vector);
    assert((color >> 8u32) & 0xFF == (color / 0x100) % 256) by (bit_vector);
    assert(color & 0xFF == color % 256) by (bit_vector);
    assert(color / 0x100_0000 < 256) by (bit_vector);
    ((color >> 24u32) & 0xFF, (color >> 16u32) & 0xFF, (color >> 8u32) & 0xFF, color & 0xFF)
}

/// The colour made of four channels.
fn compose(a: u32, r: u32, g: u32, b: u32) -> (color: Color)
    requires
        a < 256,
        r < 256,
        g < 256,
        b < 256,
    ensures
        color == pack(a as int, r as int, g as int, b as int),
        alpha_of(color) == a,
        red_of(color) == r,
        green_of(color) == g,
        blue_of(color) == b,
{
    let color: u32 = (a << 24u32) | (r << 16u32) | (g << 8u32) | b;
    assert(color == a * 0x100_0000 + r * 0x1_0000 + g * 0x100 + b) by (bit_vector)
        requires
            color == (a << 24u32) | (r << 16u32) | (g << 8u32) | b,
            a < 256,
            r < 256,
            g < 256,
            b < 256,
    ;
    assert(color / 0x100_0000 == a && (color / 0x1_0000) % 256 == r && (color / 0x100) % 256 == g
        && color % 256 == b) by (bit_vector)
        requires
            color == (a << 24u32) | (r << 16u32) | (g << 8u32) | b,
            a < 256,
            r < 256,
            g < 256,
            b < 256,
    ;
    color
}

/// Blend two colors with alpha
#[inline]
pub fn blend_alpha(dst: Color, src: Color) -> (r: Color)
    ensures
        r == blended(dst, src),
{
    let (sa, sr, sg, sb) = channels(src);
    if sa == 0 {
        return dst;
    }
    if sa == 255 {
        proof {
            assert(src == pack(sa as int, sr as int, sg as int, sb as int)) by {
                assert(src == (src / 0x100_0000) * 0x100_0000 + ((src / 0x1_0000) % 256) * 0x1_0000
                    + ((src / 0x100) % 256) * 0x100 + src % 256) by (bit_vector);
            }
        }
        return src;
    }
    let da: u32 = 255 - sa;
    let (_, dr, dg, db) = channels(dst);

    assert(sr * sa + dr * da <= 255 * 255 && sg * sa + dg * da <= 255 * 255 && sb * sa + db * da
        <= 255 * 255) by (nonlinear_arith)
        requires
            sa + da == 255,
            sr < 256,
            sg < 256,
            sb < 256,
            dr < 256,
            dg < 256,
            db < 256,
            0 <= sa,
            0 <= da,
    ;
    let r: u32 = (sr * sa + dr * da) / 255;
    let g: u32 = (sg * sa + dg * da) / 255;
    let b: u32 = (sb * sa + db * da) / 255;

    compose(255, r, g, b)
}

/// Create color from RGB
#[inline]
pub fn rgb(r: u8, g: u8, b: u8) -> (color: Color)
    ensures
        color == pack(255, r as int, g as int, b as int),
        alpha_of(color) == 255,
        red_of(color) == r,
        green_of(color) == g,
        blue_of(color) == b,
{
    compose(255, r as u32, g as u32, b as u32)
}

/// Create color from RGBA
#[inline]
pub fn rgba(r: u8, g: u8, b: u8, a: u8) -> (color: Color)
    ensures
        color == pack(a as int, r as int, g as int, b as int),
        alpha_of(color) == a,
        red_of(color) == r,
        green_of(color) == g,
        blue_of(color) == b,
{
    compose(a as u32, r as u32, g as u32, b as u32)
}

/// Extract RGB components
#[inline]
pub fn to_rgb(color: Color) -> (r: (u8, u8, u8))
    ensures
        r.0 == red_of(color),
        r.1 == green_of(color),
        r.2 == blue_of(color),
{
    let (_, r, g, b) = channels(color);
    (r as u8, g as u8, b as u8)
}

/// The shape of the pixels of row `row` from column `x0` to column `x1`,
/// both included.
pub open spec fn hline_shape(x0: int, x1: int, row: int) -> spec_fn(int, int) -> bool {
    |x: int, y: int| y == row && x0 <= x <= x1
}

/// The shape of the pixels of column `column` from row `y0` to row `y1`,
/// both included.
pub open spec fn vline_shape(column: int, y0: int, y1: int) -> spec_fn(int, int) -> bool {
    |x: int, y: int| x == column && y0 <= y <= y1
}

/// Horizontal line (optimized)
pub fn hline(renderer: &mut Renderer, x0: i32, x1: i32, y: i32, color: Color)
    requires
        old(renderer).well_formed(),
    ensures
        final(renderer).well_formed(),
        final(renderer).is_painted(
            old(renderer),
            hline_shape(x0 as int, x1 as int, y as int),
            color,
        ),
{
    renderer.fill_box(x0 as i64, y as i64, x1 as i64 + 1, y as i64 + 1, color);
    proof {
        let rect = super::rect_shape(x0 as int, y as int, x1 + 1 - x0, 1);
        let line = hline_shape(x0 as int, x1 as int, y as int);
        assert forall|px: int, py: int| #[trigger]
            in_shape(rect, px, py) == in_shape(line, px, py) by {}
        lemma_paint_agree(
            old(renderer).buffer@,
            old(renderer).width as int,
            old(renderer).height as int,
            rect,
            line,
            color,
        );
    }
}

/// Vertical line (optimized)
pub fn vline(renderer: &mut Renderer, x: i32, y0: i32, y1: i32, color: Color)
    requires
        old(renderer).well_formed(),
    ensures
        final(renderer).well_formed(),
        final(renderer).is_painted(
            old(renderer),
            vline_shape(x as int, y0 as int, y1 as int),
            color,
        ),
{
    renderer.fill_box(x as i64, y0 as i64, x as i64 + 1, y1 as i64 + 1, color);
    proof {
        let rect = super::rect_shape(x as int, y0 as int, 1, y1 + 1 - y0);
        let line = vline_shape(x as int, y0 as int, y1 as int);
        assert forall|px: int, py: int| #[trigger]
            in_shape(rect, px, py) == in_shape(line, px, py) by {}
        lemma_paint_agree(
            old(renderer).buffer@,
            old(renderer).width as int,
            old(renderer).height as int,
            rect,
            line,
            color,
        );
    }
}

} // verus!

//! Pixel work on the overlay's ARGB8888 canvas (bytes in B, G, R, A order):
//! drawing a scaled icon, and blending one glyph pixel of a text colour.

use vstd::prelude::*;

use crate::color::{argb_word, Rgba};
use crate::icons::{quad, IconData};

verus! {

/// `x`, but at most 255.
pub open spec fn at_most_255(x: int) -> int {
    if x > 255 {
        255
    } else {
        x
    }
}

/// One channel of `src` over `dst` with source alpha `sa`, rounded.
pub open spec fn mix(src: int, dst: int, sa: int) -> u8 {
    at_most_255((src * sa + dst * (255 - sa) + 128) / 255) as u8
}

/// An RGBA icon pixel over a BGRA canvas pixel: an opaque pixel replaces the
/// canvas pixel, a translucent one is mixed in by its alpha.
pub open spec fn icon_over(src: (u8, u8, u8, u8), dst: (u8, u8, u8, u8)) -> (u8, u8, u8, u8) {
    let (sr, sg, sb, sa) = src;
    let (db, dg, dr, da) = dst;
    if sa == 255 {
        (sb, sg, sr, 255u8)
    } else {
        (mix(sb as int, db as int, sa as int), mix(sg as int, dg as int, sa as int), mix(sr as int, dr as int, sa as int), mix(255, da as int, sa as int))
    }
}

/// Component `j` (0 to 3) of a four-byte pixel.
pub open spec fn component(q: (u8, u8, u8, u8), j: int) -> u8 {
    if j == 0 {
        q.0
    } else if j == 1 {
        q.1
    } else if j == 2 {
        q.2
    } else {
        q.3
    }
}

/// Column of the canvas pixel that byte `i` belongs to.
pub open spec fn pixel_col(i: int, cw: int) -> int {
    (i / 4) % cw
}

/// Row of the canvas pixel that byte `i` belongs to.
pub open spec fn pixel_row(i: int, cw: int) -> int {
    (i / 4) / cw
}

/// Where the icon is drawn: canvas size, destination corner, drawn size.
pub struct Placement {
    pub canvas_w: u32,
    pub canvas_h: u32,
    pub dest_x: u32,
    pub dest_y: u32,
    pub target_w: u32,
    pub target_h: u32,
}

/// The canvas pixel `(px, py)` lies in the drawn rectangle and on the canvas.
pub open spec fn covers(p: Placement, px: int, py: int) -> bool {
    &&& p.dest_x <= px < p.dest_x + p.target_w
    &&& px < p.canvas_w
    &&& p.dest_y <= py < p.dest_y + p.target_h
    &&& py < p.canvas_h
}

/// The icon pixel (by index) sampled for drawn position `(tx, ty)`: nearest
/// neighbour scaling of the icon to the drawn size.
pub open spec fn sampled(icon: IconData, p: Placement, tx: int, ty: int) -> int {
    scaled(ty, icon.height as int, p.target_h as int) * icon.width + scaled(
        tx,
        icon.width as int,
        p.target_w as int,
    )
}

/// Position `step` of `target` mapped onto `src` positions, at most the last one.
pub open spec fn scaled(step: int, src: int, target: int) -> int {
    let s = step * src / target;
    if s > src - 1 {
        src - 1
    } else {
        s
    }
}

/// Byte `i` of the canvas `old` after the icon is drawn: a byte of a covered
/// pixel (whose four bytes lie within the canvas) gets the sampled icon pixel
/// over the canvas pixel, unless the sampled pixel lies beyond the icon's
/// data or is fully transparent; every other byte is kept. An icon with no
/// width or height draws nothing.
pub open spec fn icon_byte(old: Seq<u8>, p: Placement, icon: IconData, i: int) -> u8 {
    let b = i / 4;
    let px = pixel_col(i, p.canvas_w as int);
    let py = pixel_row(i, p.canvas_w as int);
    if icon.width == 0 || icon.height == 0 || p.canvas_w == 0 || !covers(p, px, py) || 4 * b + 3
        >= old.len() {
        old[i]
    } else {
        let k = sampled(icon, p, px - p.dest_x, py - p.dest_y);
        if k >= icon.pixels@.len() / 4 || icon.pixels@[4 * k + 3] == 0 {
            old[i]
        } else {
            component(icon_over(quad(icon.pixels@, k), quad(old, b)), i % 4)
        }
    }
}

proof fn lemma_coords(i: int, cw: int)
    requires
        0 <= i,
        0 < cw,
    ensures
        i / 4 == pixel_row(i, cw) * cw + pixel_col(i, cw),
        0 <= pixel_col(i, cw) < cw,
        0 <= pixel_row(i, cw),
        4 * (i / 4) <= i < 4 * (i / 4) + 4,
        i % 4 == i - 4 * (i / 4),
{
    vstd::arithmetic::div_mod::lemma_fundamental_div_mod(i / 4, cw);
    vstd::arithmetic::div_mod::lemma_mod_pos_bound(i / 4, cw);
    vstd::arithmetic::div_mod::lemma_div_pos_is_pos(i / 4, cw);
    vstd::arithmetic::mul::lemma_mul_is_commutative(cw, (i / 4) / cw);
}

proof fn lemma_block(px: int, py: int, cw: int, i: int)
    requires
        0 <= px < cw,
        0 <= py,
        4 * (py * cw + px) <= i < 4 * (py * cw + px) + 4,
    ensures
        i / 4 == py * cw + px,
        pixel_col(i, cw) == px,
        pixel_row(i, cw) == py,
        i % 4 == i - 4 * (py * cw + px),
{
    vstd::arithmetic::div_mod::lemma_fundamental_div_mod_converse(i / 4, cw, py, px);
}

/// Byte `i` has been drawn when its pixel comes before `(col, row)` in row order.
pub open spec fn painted(i: int, cw: int, row: int, col: int) -> bool {
    pixel_row(i, cw) < row || (pixel_row(i, cw) == row && pixel_col(i, cw) < col)
}

fn sample_index(step: u32, src: u32, target: u32) -> (r: u32)
    requires
        step < target,
        0 < src,
    ensures
        r == scaled(step as int, src as int, target as int),
{
    assert((step as int) * (src as int) <= u64::MAX) by (nonlinear_arith)
        requires
            step <= u32::MAX,
            src <= u32::MAX,
    ;
    let prod: u64 = (step as u64) * (src as u64);
    let q: u64 = prod / (target as u64);
    assert(q < src) by (nonlinear_arith)
        requires
            step < target,
            q == (step as int) * (src as int) / (target as int),
            0 < src,
    ;
    let q32 = q as u32;
    if q32 > src - 1 {
        src - 1
    } else {
        q32
    }
}

/// The bytes of pixel `b` of `d` replaced by `q`.
pub open spec fn with_pixel(d: Seq<u8>, b: int, q: (u8, u8, u8, u8)) -> Seq<u8> {
    d.update(4 * b, q.0).update(4 * b + 1, q.1).update(4 * b + 2, q.2).update(4 * b + 3, q.3)
}

fn put_icon_pixel(data: &mut [u8], b: usize, src: (u8, u8, u8, u8))
    requires
        4 * b + 3 < old(data)@.len(),
    ensures
        final(data)@ == with_pixel(old(data)@, b as int, icon_over(src, quad(old(data)@, b as int))),
{
    let di = b * 4;
    let (sr8, sg8, sb8, sa8) = src;
    if sa8 == 255 {
        // Fully opaque: direct write (BGRA order)
        data[di] = sb8;
        data[di + 1] = sg8;
        data[di + 2] = sr8;
        data[di + 3] = 255;
    } else {
        // Alpha blend: out = src * sa + dst * (255 - sa)
        let (sr, sg, sb, sa) = (sr8 as u32, sg8 as u32, sb8 as u32, sa8 as u32);
        let db = data[di] as u32;
        let dg = data[di + 1] as u32;
        let dr = data[di + 2] as u32;
        let da = data[di + 3] as u32;
        let inv_sa = 255 - sa;
        assert(sr * sa <= 65025 && sg * sa <= 65025 && sb * sa <= 65025 && sa * 255 <= 65025)
            by (nonlinear_arith)
            requires
                sr <= 255,
                sg <= 255,
                sb <= 255,
                sa <= 255,
        ;
        assert(dr * inv_sa <= 65025 && dg * inv_sa <= 65025 && db * inv_sa <= 65025 && da * inv_sa
            <= 65025) by (nonlinear_arith)
            requires
                dr <= 255,
                dg <= 255,
                db <= 255,
                da <= 255,
                inv_sa <= 255,
        ;
        let out_r = (sr * sa + dr * inv_sa + 128) / 255;
        let out_g = (sg * sa + dg * inv_sa + 128) / 255;
        let out_b = (sb * sa + db * inv_sa + 128) / 255;
        let out_a = (sa * 255 + da * inv_sa + 128) / 255;
        data[di] = if out_b > 255 { 255 } else { out_b as u8 };
        data[di + 1] = if out_g > 255 { 255 } else { out_g as u8 };
        data[di + 2] = if out_r > 255 { 255 } else { out_r as u8 };
        data[di + 3] = if out_a > 255 { 255 } else { out_a as u8 };
    }
}

/// Draw an icon scaled to `target_w` x `target_h` at `(dest_x, dest_y)` on a
/// `canvas_w` x `canvas_h` canvas. The icon is RGBA, the canvas BGRA
/// (little-endian ARGB8888). Uses nearest-neighbour scaling and alpha
/// blending; pixels that fall outside the canvas are not drawn.
pub fn draw_icon(
    data: &mut [u8],
    canvas_w: u32,
    canvas_h: u32,
    dest_x: u32,
    dest_y: u32,
    target_w: u32,
    target_h: u32,
    icon: &IconData,
)
    ensures
        final(data)@.len() == old(data)@.len(),
        forall|i: int|
            0 <= i < old(data)@.len() ==> #[trigger] final(data)@[i] == icon_byte(
                old(data)@,
                Placement { canvas_w, canvas_h, dest_x, dest_y, target_w, target_h },
                *icon,
                i,
            ),
{
    let ghost p = Placement { canvas_w, canvas_h, dest_x, dest_y, target_w, target_h };
    let ghost old_data = data@;
    let src_w = icon.width;
    let src_h = icon.height;
    if src_w == 0 || src_h == 0 || canvas_w == 0 {
        return;
    }
    let len = data.len();
    let n_src = icon.pixels.len() / 4;
    let n_dst = len / 4;
    let ghost cw = canvas_w as int;
    let mut ty: u32 = 0;
    while ty < target_h
        invariant
            p == (Placement { canvas_w, canvas_h, dest_x, dest_y, target_w, target_h }),
            cw == canvas_w as int,
            src_w == icon.width,
            src_h == icon.height,
            src_w > 0,
            src_h > 0,
            canvas_w > 0,
            len == data@.len(),
            len == old_data.len(),
            n_src == icon.pixels@.len() / 4,
            n_dst == len / 4,
            ty <= target_h,
            ty == 0 || dest_y + ty <= canvas_h,
            forall|i: int|
                0 <= i < len ==> #[trigger] data@[i] == if painted(i, cw, dest_y + ty, 0) {
                    icon_byte(old_data, p, *icon, i)
                } else {
                    old_data[i]
                },
        ensures
            ty == target_h || dest_y + ty >= canvas_h,
        decreases target_h - ty,
    {
        let py = dest_y + ty;
        if py >= canvas_h {
            break;
        }
        // Nearest-neighbour: map target row to source row
        let sy = sample_index(ty, src_h, target_h);
        let mut tx: u32 = 0;
        assert forall|i: int| 0 <= i < len implies #[trigger] data@[i] == if painted(
            i,
            cw,
            py as int,
            dest_x as int,
        ) {
            icon_byte(old_data, p, *icon, i)
        } else {
            old_data[i]
        } by {
            lemma_coords(i, cw);
        }
        while tx < target_w
            invariant
                p == (Placement { canvas_w, canvas_h, dest_x, dest_y, target_w, target_h }),
                cw == canvas_w as int,
                src_w == icon.width,
                src_h == icon.height,
                src_w > 0,
                src_h > 0,
                canvas_w > 0,
                len == data@.len(),
                len == old_data.len(),
                n_src == icon.pixels@.len() / 4,
                n_dst == len / 4,
                ty < target_h,
                py == dest_y + ty,
                py < canvas_h,
                sy == scaled(ty as int, src_h as int, target_h as int),
                tx <= target_w,
                tx == 0 || dest_x + tx <= canvas_w,
                forall|i: int|
                    0 <= i < len ==> #[trigger] data@[i] == if painted(i, cw, py as int, dest_x + tx) {
                        icon_byte(old_data, p, *icon, i)
                    } else {
                        old_data[i]
                    },
            ensures
                tx == target_w || dest_x + tx >= canvas_w,
            decreases target_w - tx,
        {
            let px = dest_x + tx;
            if px >= canvas_w {
                break;
            }
            let sx = sample_index(tx, src_w, target_w);
            let ghost before = data@;
            assert((sy as int) * (src_w as int) + (sx as int) <= u64::MAX) by (nonlinear_arith)
                requires
                    sy <= u32::MAX,
                    src_w <= u32::MAX,
                    sx <= u32::MAX,
            ;
            assert((py as int) * (canvas_w as int) + (px as int) <= u64::MAX) by (nonlinear_arith)
                requires
                    py <= u32::MAX,
                    canvas_w <= u32::MAX,
                    px <= u32::MAX,
            ;
            let src_block: u64 = (sy as u64) * (src_w as u64) + (sx as u64);
            let dst_block: u64 = (py as u64) * (canvas_w as u64) + (px as u64);
            assert(src_block == sampled(*icon, p, tx as int, ty as int));
            let ghost b = dst_block as int;
            if src_block < n_src as u64 && dst_block < n_dst as u64 {
                let plen = icon.pixels.len();
                assert(4 * (src_block as int) + 3 < plen);
                let sbi = src_block as usize;
                let dbi = dst_block as usize;
                assert(sbi as int == src_block as int);
                assert(dbi as int == dst_block as int);
                let si = sbi * 4;
                let src = (icon.pixels[si], icon.pixels[si + 1], icon.pixels[si + 2], icon.pixels[si + 3]);
                assert(src == quad(icon.pixels@, sbi as int));
                if src.3 != 0 {
                    put_icon_pixel(data, dbi, src);
                }
            }
            proof {
                assert forall|i: int| 0 <= i < len implies #[trigger] data@[i] == if painted(
                    i,
                    cw,
                    py as int,
                    px + 1,
                ) {
                    icon_byte(old_data, p, *icon, i)
                } else {
                    old_data[i]
                } by {
                    lemma_coords(i, cw);
                    if 4 * b <= i < 4 * b + 4 {
                        lemma_block(px as int, py as int, cw, i);
                        assert(before[i] == old_data[i]);
                    } else {
                        assert(data@[i] == before[i]);
                        if pixel_row(i, cw) == py && pixel_col(i, cw) == px {
                            assert(i / 4 == b);
                        }
                    }
                }
            }
            tx = tx + 1;
        }
        proof {
            assert forall|i: int| 0 <= i < len implies #[trigger] data@[i] == if painted(
                i,
                cw,
                py + 1,
                0,
            ) {
                icon_byte(old_data, p, *icon, i)
            } else {
                old_data[i]
            } by {
                lemma_coords(i, cw);
            }
        }
        ty = ty + 1;
    }
    assert forall|i: int| 0 <= i < len implies #[trigger] data@[i] == icon_byte(
        old_data,
        p,
        *icon,
        i,
    ) by {
        lemma_coords(i, cw);
    }
}

/// The channels of a packed `0xAARRGGBB` colour: (alpha, red, green, blue).
pub open spec fn argb_channels(color: u32) -> (u8, u8, u8, u8) {
    (
        (color / 0x1000000) as u8,
        (color / 0x10000 % 0x100) as u8,
        (color / 0x100 % 0x100) as u8,
        (color % 0x100) as u8,
    )
}

/// The alpha with which a glyph pixel of coverage `coverage` is drawn in a
/// colour of alpha `alpha`.
pub open spec fn glyph_alpha(alpha: int, coverage: int) -> int {
    (alpha * coverage + 128) / 255
}

/// A glyph pixel of colour `color` and coverage `coverage` over a BGRA canvas
/// pixel: full alpha replaces it, partial alpha mixes, zero alpha keeps it.
pub open spec fn glyph_over(color: u32, coverage: u8, dst: (u8, u8, u8, u8)) -> (u8, u8, u8, u8) {
    let (ca, cr, cg, cb) = argb_channels(color);
    let sa = glyph_alpha(ca as int, coverage as int);
    let (db, dg, dr, da) = dst;
    if sa >= 255 {
        (cb, cg, cr, 255u8)
    } else if sa > 0 {
        (mix(cb as int, db as int, sa), mix(cg as int, dg as int, sa), mix(cr as int, dr as int, sa), mix(255, da as int, sa))
    } else {
        dst
    }
}

/// Draw one glyph pixel of colour `color` (packed ARGB) with coverage
/// `coverage` at `(px, py)` of a canvas `canvas_w` pixels wide, in BGRA order.
/// Nothing is drawn for zero coverage or a pixel whose bytes lie beyond `data`.
pub fn blend_glyph_pixel(data: &mut [u8], canvas_w: u32, px: u32, py: u32, color: u32, coverage: u8)
    ensures
        final(data)@.len() == old(data)@.len(),
        ({
            let b = py * canvas_w + px;
            if coverage != 0 && 4 * b + 3 < old(data)@.len() {
                forall|i: int|
                    0 <= i < old(data)@.len() ==> #[trigger] final(data)@[i] == if 4 * b <= i < 4 * b
                        + 4 {
                        component(glyph_over(color, coverage, quad(old(data)@, b)), i - 4 * b)
                    } else {
                        old(data)@[i]
                    }
            } else {
                final(data)@ == old(data)@
            }
        }),
{
    if coverage == 0 {
        return;
    }
    assert((py as int) * (canvas_w as int) + (px as int) <= u64::MAX) by (nonlinear_arith)
        requires
            py <= u32::MAX,
            canvas_w <= u32::MAX,
            px <= u32::MAX,
    ;
    let block: u64 = (py as u64) * (canvas_w as u64) + (px as u64);
    let len = data.len();
    if block >= (len / 4) as u64 {
        return;
    }
    let bi = block as usize;
    assert(bi as int == block as int);
    let idx = bi * 4;
    let ca = color / 0x1000000;
    let cr = color / 0x10000 % 0x100;
    let cg = color / 0x100 % 0x100;
    let cb = color % 0x100;
    let cov = coverage as u32;
    assert(ca * cov <= 65025) by (nonlinear_arith)
        requires
            ca <= 255,
            cov <= 255,
    ;
    // Effective alpha = font colour alpha * glyph coverage
    let sa = (ca * cov + 128) / 255;
    if sa >= 255 {
        data[idx] = cb as u8;
        data[idx + 1] = cg as u8;
        data[idx + 2] = cr as u8;
        data[idx + 3] = 255;
    } else if sa > 0 {
        let db = data[idx] as u32;
        let dg = data[idx + 1] as u32;
        let dr = data[idx + 2] as u32;
        let da = data[idx + 3] as u32;
        let inv_sa = 255 - sa;
        assert(cr * sa <= 65025 && cg * sa <= 65025 && cb * sa <= 65025 && sa * 255 <= 65025)
            by (nonlinear_arith)
            requires
                cr <= 255,
                cg <= 255,
                cb <= 255,
                sa <= 255,
        ;
        assert(dr * inv_sa <= 65025 && dg * inv_sa <= 65025 && db * inv_sa <= 65025 && da * inv_sa
            <= 65025) by (nonlinear_arith)
            requires
                dr <= 255,
                dg <= 255,
                db <= 255,
                da <= 255,
                inv_sa <= 255,
        ;
        let out_b = (cb * sa + db * inv_sa + 128) / 255;
        let out_g = (cg * sa + dg * inv_sa + 128) / 255;
        let out_r = (cr * sa + dr * inv_sa + 128) / 255;
        let out_a = (sa * 255 + da * inv_sa + 128) / 255;
        data[idx] = if out_b > 255 { 255 } else { out_b as u8 };
        data[idx + 1] = if out_g > 255 { 255 } else { out_g as u8 };
        data[idx + 2] = if out_r > 255 { 255 } else { out_r as u8 };
        data[idx + 3] = if out_a > 255 { 255 } else { out_a as u8 };
    }
}

/// Packing a colour as ARGB and reading the channels back for drawing gives
/// back the colour: (alpha, red, green, blue).
pub proof fn lemma_argb_round_trip(c: Rgba)
    ensures
        argb_channels(argb_word(c)) == (c.3, c.0, c.1, c.2),
{
    let (r, g, b, a) = (c.0 as int, c.1 as int, c.2 as int, c.3 as int);
    let w = a * 0x1000000 + r * 0x10000 + g * 0x100 + b;
    assert(w < 0x1_0000_0000);
    assert(w / 0x1000000 == a);
    assert(w / 0x10000 == a * 0x100 + r);
    assert((a * 0x100 + r) % 0x100 == r);
    assert(w / 0x100 == a * 0x10000 + r * 0x100 + g);
    assert((a * 0x10000 + r * 0x100 + g) % 0x100 == g);
    assert(w % 0x100 == b);
}

} // verus!

use vstd::prelude::*;
use crate::fixmath::atan2_deg10;
use crate::fixmath::atan2_deg10_spec;
use crate::fixmath::div_trunc;
use crate::fixmath::is_sqrt_floor;
use crate::fixmath::isqrt;
use crate::fixmath::lemma_sqrt_floor_unique;
use crate::fixmath::sqrt_floor;
use crate::fixmath::wrap_to_half_turn;
use crate::framebuffer::Framebuffer;
use crate::framebuffer::lemma_pixel_coords;
use crate::player::Player;
use crate::player::Vec2Fp;
use crate::texture::Texture;

verus! {

/// Sprites closer than this fixed-point distance are skipped: projecting
/// them would degenerate.
pub const MIN_SPRITE_DIST: i64 = 10240;

/// The texel color treated as sprite-cutout transparency: never plotted.
pub const TRANSPARENT: u32 = 0xFFFFFF;

/// The squared fixed-point distance from the player to a sprite.
pub open spec fn sprite_dist2(player: &Player, pos: Vec2Fp) -> int {
    let dx = pos.x - player.pos.x;
    let dy = pos.y - player.pos.y;
    dx * dx + dy * dy
}

/// The bearing of a sprite relative to the player heading, folded into
/// `[-HALF_TURN, HALF_TURN]`.
pub open spec fn sprite_bearing(player: &Player, pos: Vec2Fp) -> int {
    wrap_to_half_turn(
        atan2_deg10_spec(pos.y - player.pos.y, pos.x - player.pos.x) - player.a,
    )
}

/// A sprite is composited only when its bearing lies inside the view fan
/// and it is not degenerately close.
pub open spec fn sprite_visible(player: &Player, pos: Vec2Fp) -> bool {
    let b = sprite_bearing(player, pos);
    &&& -((player.fov as int) / 2) <= b <= (player.fov as int) / 2
    &&& sprite_dist2(player, pos) >= MIN_SPRITE_DIST * MIN_SPRITE_DIST
}

/// The fixed-point distance the compositor measures to a sprite.
pub open spec fn sprite_depth(player: &Player, pos: Vec2Fp) -> int {
    sqrt_floor(sprite_dist2(player, pos))
}

/// The side length, in pixels, of the square a sprite projects to on a
/// screen `h` pixels high.
pub open spec fn sprite_size_spec(player: &Player, pos: Vec2Fp, h: int) -> int {
    h * 51200 / sprite_depth(player, pos)
}

/// `v` clamped into `[0, limit]`.
pub open spec fn clamp_to(v: int, limit: int) -> int {
    if v < 0 {
        0
    } else if v > limit {
        limit
    } else {
        v
    }
}

/// The screen box a visible sprite covers, clipped to a `w` × `h` canvas:
/// left, top, right and bottom bounds, the right and bottom exclusive. The
/// box is centered horizontally by the bearing-to-pixel mapping and sits
/// off-center vertically, a quarter of its size below the middle.
pub open spec fn sprite_box(player: &Player, pos: Vec2Fp, w: int, h: int) -> (int, int, int, int) {
    let size = sprite_size_spec(player, pos, h);
    let sxr = w / 2 + div_trunc(sprite_bearing(player, pos) * w, player.fov as int) - size / 2;
    let syr = h / 2 - size / 2 + size / 4;
    (clamp_to(sxr, w), clamp_to(syr, h), clamp_to(sxr + size, w), clamp_to(syr + size, h))
}

/// The texel a sprite whose clipped box starts at `(sx, sy)` shows at
/// screen position `(x, y)`, its box rescaled to the texture tile.
pub open spec fn sprite_texel(texture: &Texture, sx: int, sy: int, size: int, x: int, y: int) -> u32 {
    texture.sample((x - sx) * 128 / size, (y - sy) * 128 / size)
}

/// Projects one sprite into the view and composites it against the
/// per-column depth buffer: a pixel is drawn only where the sprite is
/// nearer than what that column already shows, and drawing a column
/// tightens its depth to the sprite distance, so depths never increase.
/// Texels of the transparent cutout color are never plotted.
pub fn render_object(
    framebuffer: &mut Framebuffer,
    player: &Player,
    pos: &Vec2Fp,
    z_buffer: &mut Vec<i64>,
    texture: &Texture,
)
    requires
        old(framebuffer).wf(),
        old(framebuffer).width <= 32768,
        old(framebuffer).height <= 32768,
        player.wf(),
        pos.wf(),
        texture.wf(),
        old(z_buffer)@.len() == old(framebuffer).width,
    ensures
        final(framebuffer).wf(),
        final(framebuffer).width == old(framebuffer).width,
        final(framebuffer).height == old(framebuffer).height,
        final(framebuffer).buffer@.len() == old(framebuffer).buffer@.len(),
        final(framebuffer).background_color == old(framebuffer).background_color,
        final(z_buffer)@.len() == old(z_buffer)@.len(),
        forall|t: int| 0 <= t < final(z_buffer)@.len()
            ==> final(z_buffer)@[t] <= #[trigger] old(z_buffer)@[t],
        forall|t: int| 0 <= t < final(z_buffer)@.len()
            && final(z_buffer)@[t] != #[trigger] old(z_buffer)@[t]
            ==> ({
                let w = old(framebuffer).width as int;
                let h = old(framebuffer).height as int;
                let size = sprite_size_spec(player, *pos, h);
                let sbox = sprite_box(player, *pos, w, h);
                &&& sprite_visible(player, *pos)
                &&& is_sqrt_floor(sprite_dist2(player, *pos), final(z_buffer)@[t] as int)
                &&& sbox.0 <= t < sbox.2
                &&& exists|yy: int|
                    #![trigger sprite_texel(texture, sbox.0, sbox.1, size, t, yy)]
                    sbox.1 <= yy < sbox.3
                        && sprite_texel(texture, sbox.0, sbox.1, size, t, yy) != TRANSPARENT
            }),
        forall|idx: int| 0 <= idx < final(framebuffer).buffer@.len()
            && final(framebuffer).buffer@[idx] != #[trigger] old(framebuffer).buffer@[idx]
            ==> ({
                let w = old(framebuffer).width as int;
                let h = old(framebuffer).height as int;
                let size = sprite_size_spec(player, *pos, h);
                let sbox = sprite_box(player, *pos, w, h);
                let x = idx % w;
                let y = idx / w;
                &&& sprite_visible(player, *pos)
                &&& sbox.0 <= x < sbox.2
                &&& sbox.1 <= y < sbox.3
                &&& sprite_depth(player, *pos) < old(z_buffer)@[x]
                &&& final(framebuffer).buffer@[idx]
                    == sprite_texel(texture, sbox.0, sbox.1, size, x, y)
                &&& sprite_texel(texture, sbox.0, sbox.1, size, x, y) != TRANSPARENT
            }),
        !sprite_visible(player, *pos) ==> {
            &&& final(framebuffer).buffer@ == old(framebuffer).buffer@
            &&& final(framebuffer).current_color == old(framebuffer).current_color
            &&& final(z_buffer)@ == old(z_buffer)@
        },
        sprite_visible(player, *pos) ==> ({
            let w = old(framebuffer).width as int;
            let h = old(framebuffer).height as int;
            let d = sprite_depth(player, *pos);
            let size = sprite_size_spec(player, *pos, h);
            let sbox = sprite_box(player, *pos, w, h);
            forall|x: int, y: int|
                sbox.0 <= x < sbox.2 && sbox.1 <= y < sbox.3 && d < old(z_buffer)@[x]
                    && #[trigger] sprite_texel(texture, sbox.0, sbox.1, size, x, y) != TRANSPARENT
                    ==> final(framebuffer).pixel(x, y)
                        == sprite_texel(texture, sbox.0, sbox.1, size, x, y)
        }),
{
    let dx: i64 = pos.x - player.pos.x;
    let dy: i64 = pos.y - player.pos.y;
    let raw: i64 = atan2_deg10(dy, dx) - player.a;

    let mut sprite_a: i64 = raw;
    while sprite_a < -1800
        invariant
            wrap_to_half_turn(sprite_a as int) == wrap_to_half_turn(raw as int),
            sprite_a <= 1800,
        decreases (if sprite_a < -1800 { -(sprite_a as int) } else { 0 }),
    {
        sprite_a = sprite_a + 3600;
    }
    while sprite_a > 1800
        invariant
            wrap_to_half_turn(sprite_a as int) == wrap_to_half_turn(raw as int),
            sprite_a >= -1800,
        decreases (if sprite_a > 1800 { sprite_a as int } else { 0 }),
    {
        sprite_a = sprite_a - 3600;
    }
    assert(sprite_a == sprite_bearing(player, *pos));

    let fov_half: i64 = player.fov / 2;
    let abs_a: i64 = if sprite_a < 0 {
        -sprite_a
    } else {
        sprite_a
    };
    if abs_a > fov_half {
        assert(!sprite_visible(player, *pos));
        return ;
    }

    proof {
        assert(0 <= dx * dx <= 0x4000000000000 && 0 <= dy * dy <= 0x4000000000000)
            by (nonlinear_arith)
            requires
                -0x2000000 <= dx <= 0x2000000,
                -0x2000000 <= dy <= 0x2000000,
        ;
    }
    let d2: i64 = dx * dx + dy * dy;
    let sprite_d: i64 = isqrt(d2);

    if sprite_d < MIN_SPRITE_DIST {
        proof {
            assert(d2 < MIN_SPRITE_DIST * MIN_SPRITE_DIST) by (nonlinear_arith)
                requires
                    0 <= sprite_d < MIN_SPRITE_DIST,
                    d2 < (sprite_d + 1) * (sprite_d + 1),
            ;
        }
        return ;
    }
    proof {
        assert(d2 >= MIN_SPRITE_DIST * MIN_SPRITE_DIST) by (nonlinear_arith)
            requires
                sprite_d >= MIN_SPRITE_DIST,
                sprite_d * sprite_d <= d2,
        ;
    }

    let w: usize = framebuffer.width;
    let h: usize = framebuffer.height;

    proof {
        assert(-59000000 <= (sprite_a as int) * (w as int) <= 59000000) by (nonlinear_arith)
            requires
                -1800 <= sprite_a <= 1800,
                0 <= (w as int) <= 32768,
        ;
    }
    let size: i64 = (h as i64) * 51200 / sprite_d;
    let start_x_raw: i64 = (w as i64) / 2 + sprite_a * (w as i64) / player.fov - size / 2;
    let start_y_raw: i64 = (h as i64) / 2 - size / 2 + size / 4;

    let ex: usize = {
        let e: i64 = start_x_raw + size;
        if e < 0 {
            0
        } else if e > w as i64 {
            w
        } else {
            e as usize
        }
    };
    let ey: usize = {
        let e: i64 = start_y_raw + size;
        if e < 0 {
            0
        } else if e > h as i64 {
            h
        } else {
            e as usize
        }
    };
    let sx: usize = if start_x_raw < 0 {
        0
    } else if start_x_raw > w as i64 {
        w
    } else {
        start_x_raw as usize
    };
    let sy: usize = if start_y_raw < 0 {
        0
    } else if start_y_raw > h as i64 {
        h
    } else {
        start_y_raw as usize
    };

    proof {
        lemma_sqrt_floor_unique(d2 as int, sprite_d as int);
        assert(sprite_visible(player, *pos));
    }
    let ghost gw = w as int;
    let ghost gh = h as int;
    let ghost gsize = sprite_size_spec(player, *pos, gh);
    let ghost sbox = sprite_box(player, *pos, gw, gh);
    proof {
        assert(size == gsize);
        assert(start_x_raw == gw / 2 + div_trunc(
            sprite_bearing(player, *pos) * gw,
            player.fov as int,
        ) - gsize / 2) by {
            if sprite_a * (w as i64) >= 0 {
            } else {
            }
        }
        assert(sx == sbox.0 && sy == sbox.1 && ex == sbox.2 && ey == sbox.3);
    }

    let ghost fb0 = *framebuffer;
    let ghost z0 = z_buffer@;

    let mut x: usize = sx;
    while x < ex
        invariant
            sx <= x <= ex || (ex <= sx && x == sx),
            ex <= w,
            sy <= h,
            ey <= h,
            w <= 32768,
            h <= 32768,
            texture.wf(),
            sx < ex ==> size > 0,
            sy < ey ==> size > 0,
            fb0.wf(),
            fb0.width == w,
            fb0.height == h,
            framebuffer.wf(),
            framebuffer.width == fb0.width,
            framebuffer.height == fb0.height,
            framebuffer.buffer@.len() == fb0.buffer@.len(),
            framebuffer.background_color == fb0.background_color,
            z_buffer@.len() == z0.len(),
            z0.len() == w,
            0 < sprite_d,
            is_sqrt_floor(d2 as int, sprite_d as int),
            sprite_d == sprite_depth(player, *pos),
            gw == w,
            gh == h,
            gsize == size,
            sbox == sprite_box(player, *pos, gw, gh),
            sx == sbox.0,
            sy == sbox.1,
            ex == sbox.2,
            ey == sbox.3,
            forall|t: int| 0 <= t < z_buffer@.len() ==> z_buffer@[t] <= #[trigger] z0[t],
            forall|t: int| 0 <= t < z_buffer@.len() && z_buffer@[t] != #[trigger] z0[t]
                ==> z_buffer@[t] == sprite_d && sbox.0 <= t < sbox.2 && exists|yy: int|
                    #![trigger sprite_texel(texture, sbox.0, sbox.1, gsize, t, yy)]
                    sbox.1 <= yy < sbox.3
                        && sprite_texel(texture, sbox.0, sbox.1, gsize, t, yy) != TRANSPARENT,
            forall|t: int| x <= t < z_buffer@.len() ==> z_buffer@[t] == #[trigger] z0[t],
            forall|idx: int| 0 <= idx < framebuffer.buffer@.len()
                && framebuffer.buffer@[idx] != #[trigger] fb0.buffer@[idx]
                ==> ({
                    let x2 = idx % gw;
                    let y2 = idx / gw;
                    &&& sbox.0 <= x2 < sbox.2
                    &&& sbox.1 <= y2 < sbox.3
                    &&& sprite_d < z0[x2]
                    &&& framebuffer.buffer@[idx]
                        == sprite_texel(texture, sbox.0, sbox.1, gsize, x2, y2)
                    &&& sprite_texel(texture, sbox.0, sbox.1, gsize, x2, y2) != TRANSPARENT
                }),
            forall|x2: int, yy: int|
                sbox.0 <= x2 < x && sbox.1 <= yy < sbox.3 && sprite_d < z0[x2]
                    && #[trigger] sprite_texel(texture, sbox.0, sbox.1, gsize, x2, yy)
                        != TRANSPARENT
                    ==> framebuffer.pixel(x2, yy)
                        == sprite_texel(texture, sbox.0, sbox.1, gsize, x2, yy),
        decreases ex - x,
    {
        if sprite_d < z_buffer[x] {
            let ghost zx = z_buffer@;
            let mut y: usize = sy;
            while y < ey
                invariant
                    sy <= y <= ey || (ey <= sy && y == sy),
                    sx <= x < ex,
                    ex <= w,
                    ey <= h,
                    w <= 32768,
                    h <= 32768,
                    texture.wf(),
                    sx < ex ==> size > 0,
                    sy < ey ==> size > 0,
                    fb0.wf(),
                    fb0.width == w,
                    fb0.height == h,
                    framebuffer.wf(),
                    framebuffer.width == fb0.width,
                    framebuffer.height == fb0.height,
                    framebuffer.buffer@.len() == fb0.buffer@.len(),
                    framebuffer.background_color == fb0.background_color,
                    z_buffer@.len() == zx.len(),
                    zx.len() == w,
                    0 < sprite_d,
                    sprite_d == sprite_depth(player, *pos),
                    gw == w,
                    gh == h,
                    gsize == size,
                    sbox == sprite_box(player, *pos, gw, gh),
                    sx == sbox.0,
                    sy == sbox.1,
                    ex == sbox.2,
                    ey == sbox.3,
                    forall|t: int| 0 <= t < zx.len() && t != x ==> z_buffer@[t] == #[trigger] zx[t],
                    z_buffer@[x as int] == zx[x as int] || z_buffer@[x as int] == sprite_d,
                    sprite_d < zx[x as int],
                    forall|t: int| 0 <= t < zx.len() ==> zx[t] <= #[trigger] z0[t],
                    forall|t: int| 0 <= t < zx.len() && zx[t] != #[trigger] z0[t]
                        ==> zx[t] == sprite_d && sbox.0 <= t < sbox.2 && exists|yy: int|
                            #![trigger sprite_texel(texture, sbox.0, sbox.1, gsize, t, yy)]
                            sbox.1 <= yy < sbox.3
                                && sprite_texel(texture, sbox.0, sbox.1, gsize, t, yy)
                                    != TRANSPARENT,
                    forall|t: int| x <= t < zx.len() ==> zx[t] == #[trigger] z0[t],
                    z_buffer@[x as int] != zx[x as int] ==> exists|yy: int|
                        #![trigger sprite_texel(texture, sbox.0, sbox.1, gsize, x as int, yy)]
                        sbox.1 <= yy < y
                            && sprite_texel(texture, sbox.0, sbox.1, gsize, x as int, yy)
                                != TRANSPARENT,
                    forall|idx: int| 0 <= idx < framebuffer.buffer@.len()
                        && framebuffer.buffer@[idx] != #[trigger] fb0.buffer@[idx]
                        ==> ({
                            let x2 = idx % gw;
                            let y2 = idx / gw;
                            &&& sbox.0 <= x2 < sbox.2
                            &&& sbox.1 <= y2 < sbox.3
                            &&& sprite_d < z0[x2]
                            &&& framebuffer.buffer@[idx]
                                == sprite_texel(texture, sbox.0, sbox.1, gsize, x2, y2)
                            &&& sprite_texel(texture, sbox.0, sbox.1, gsize, x2, y2)
                                != TRANSPARENT
                        }),
                    forall|x2: int, yy: int|
                        sbox.0 <= x2 < x && sbox.1 <= yy < sbox.3 && sprite_d < z0[x2]
                            && #[trigger] sprite_texel(texture, sbox.0, sbox.1, gsize, x2, yy)
                                != TRANSPARENT
                            ==> framebuffer.pixel(x2, yy)
                                == sprite_texel(texture, sbox.0, sbox.1, gsize, x2, yy),
                    forall|yy: int|
                        sbox.1 <= yy < y
                            && #[trigger] sprite_texel(texture, sbox.0, sbox.1, gsize, x as int, yy)
                                != TRANSPARENT
                            ==> framebuffer.pixel(x as int, yy)
                                == sprite_texel(texture, sbox.0, sbox.1, gsize, x as int, yy),
                decreases ey - y,
            {
                let txx: u32 = (((x - sx) as i64) * 128 / size) as u32;
                let tyy: u32 = (((y - sy) as i64) * 128 / size) as u32;
                proof {
                    assert(txx == ((x as int) - sbox.0) * 128 / gsize);
                    assert(tyy == ((y as int) - sbox.1) * 128 / gsize);
                }
                let color: u32 = texture.get_pixel_color(txx, tyy);
                if color != TRANSPARENT {
                    framebuffer.set_current_color(color);
                    let ghost before = framebuffer.buffer@;
                    framebuffer.point(x, y);
                    proof {
                        assert(0 <= (y as int) * framebuffer.width + (x as int) < before.len())
                            by (nonlinear_arith)
                            requires
                                0 <= (x as int) < framebuffer.width,
                                0 <= (y as int) < framebuffer.height,
                                before.len() == framebuffer.width * framebuffer.height,
                        ;
                        lemma_pixel_coords(gw, x as int, y as int);
                        assert(zx[x as int] == z0[x as int]);
                        assert(sprite_texel(texture, sbox.0, sbox.1, gsize, x as int, y as int)
                            != TRANSPARENT);
                        assert forall|idx: int| 0 <= idx < framebuffer.buffer@.len()
                            && #[trigger] framebuffer.buffer@[idx] != fb0.buffer@[idx]
                            implies ({
                                let x2 = idx % gw;
                                let y2 = idx / gw;
                                &&& sbox.0 <= x2 < sbox.2
                                &&& sbox.1 <= y2 < sbox.3
                                &&& sprite_d < z0[x2]
                                &&& framebuffer.buffer@[idx]
                                    == sprite_texel(texture, sbox.0, sbox.1, gsize, x2, y2)
                                &&& sprite_texel(texture, sbox.0, sbox.1, gsize, x2, y2)
                                    != TRANSPARENT
                            })
                        by {
                            if framebuffer.buffer@[idx] == before[idx] {
                                assert(before[idx] != fb0.buffer@[idx]);
                            } else {
                                assert(idx == (y as int) * gw + (x as int));
                            }
                        }
                        assert forall|x2: int, yy: int|
                            sbox.0 <= x2 < x && sbox.1 <= yy < sbox.3 && sprite_d < z0[x2]
                                && #[trigger] sprite_texel(texture, sbox.0, sbox.1, gsize, x2, yy)
                                    != TRANSPARENT
                                implies framebuffer.pixel(x2, yy)
                                    == sprite_texel(texture, sbox.0, sbox.1, gsize, x2, yy)
                        by {
                            assert(0 <= yy * gw + x2 < before.len()) by (nonlinear_arith)
                                requires
                                    0 <= x2 < gw,
                                    0 <= yy < fb0.height,
                                    before.len() == gw * fb0.height,
                            ;
                            lemma_pixel_coords(gw, x2, yy);
                        }
                        assert forall|yy: int|
                            sbox.1 <= yy < y + 1
                                && #[trigger] sprite_texel(texture, sbox.0, sbox.1, gsize, x as int, yy)
                                    != TRANSPARENT
                                implies framebuffer.pixel(x as int, yy)
                                    == sprite_texel(texture, sbox.0, sbox.1, gsize, x as int, yy)
                        by {
                            assert(0 <= yy * gw + (x as int) < before.len()) by (nonlinear_arith)
                                requires
                                    0 <= (x as int) < gw,
                                    0 <= yy < fb0.height,
                                    before.len() == gw * fb0.height,
                            ;
                            lemma_pixel_coords(gw, x as int, yy);
                        }
                    }
                    z_buffer[x] = sprite_d;
                }
                y = y + 1;
            }
        } else {
            proof {
                assert(z_buffer@[x as int] == z0[x as int]);
                assert(!(sprite_d < z0[x as int]));
            }
        }
        x = x + 1;
    }
}

/// The pixel value `v` at buffer slot `idx` is what sprite `sp` shows
/// there: `sp` is visible, its clipped box covers the slot's coordinates,
/// and `v` is its opaque texel at that position.
pub open spec fn sprite_accounts_for(
    player: &Player,
    sp: Vec2Fp,
    texture: &Texture,
    w: int,
    h: int,
    idx: int,
    v: u32,
) -> bool {
    let size = sprite_size_spec(player, sp, h);
    let sbox = sprite_box(player, sp, w, h);
    let x = idx % w;
    let y = idx / w;
    &&& sprite_visible(player, sp)
    &&& sbox.0 <= x < sbox.2
    &&& sbox.1 <= y < sbox.3
    &&& v == sprite_texel(texture, sbox.0, sbox.1, size, x, y)
    &&& sprite_texel(texture, sbox.0, sbox.1, size, x, y) != TRANSPARENT
}

/// Composites a batch of sprites in the supplied order, all sharing one
/// texture; later sprites can only tighten the depth buffer further, and
/// every pixel the batch paints shows the opaque texel of one of its
/// visible sprites at that position.
pub fn position_sprites(
    framebuffer: &mut Framebuffer,
    player: &Player,
    sprites: &Vec<Vec2Fp>,
    z_buffer: &mut Vec<i64>,
    texture: &Texture,
)
    requires
        old(framebuffer).wf(),
        old(framebuffer).width <= 32768,
        old(framebuffer).height <= 32768,
        player.wf(),
        forall|s: int| 0 <= s < sprites@.len() ==> (#[trigger] sprites@[s]).wf(),
        texture.wf(),
        old(z_buffer)@.len() == old(framebuffer).width,
    ensures
        final(framebuffer).wf(),
        final(framebuffer).width == old(framebuffer).width,
        final(framebuffer).height == old(framebuffer).height,
        final(framebuffer).buffer@.len() == old(framebuffer).buffer@.len(),
        final(framebuffer).background_color == old(framebuffer).background_color,
        final(z_buffer)@.len() == old(z_buffer)@.len(),
        forall|t: int| 0 <= t < final(z_buffer)@.len()
            ==> final(z_buffer)@[t] <= #[trigger] old(z_buffer)@[t],
        forall|idx: int| 0 <= idx < final(framebuffer).buffer@.len()
            && #[trigger] final(framebuffer).buffer@[idx] != old(framebuffer).buffer@[idx]
            ==> exists|si: int|
                #![trigger sprites@[si]]
                0 <= si < sprites@.len() && sprite_accounts_for(
                    player,
                    sprites@[si],
                    texture,
                    old(framebuffer).width as int,
                    old(framebuffer).height as int,
                    idx,
                    final(framebuffer).buffer@[idx],
                ),
{
    let ghost z0 = z_buffer@;
    let ghost fb0 = *framebuffer;
    let mut s: usize = 0;
    while s < sprites.len()
        invariant
            s <= sprites@.len(),
            player.wf(),
            forall|t: int| 0 <= t < sprites@.len() ==> (#[trigger] sprites@[t]).wf(),
            texture.wf(),
            fb0.wf(),
            framebuffer.wf(),
            framebuffer.width == fb0.width,
            framebuffer.height == fb0.height,
            framebuffer.width <= 32768,
            framebuffer.height <= 32768,
            framebuffer.buffer@.len() == fb0.buffer@.len(),
            framebuffer.background_color == fb0.background_color,
            z_buffer@.len() == z0.len(),
            z0.len() == framebuffer.width,
            forall|t: int| 0 <= t < z_buffer@.len() ==> z_buffer@[t] <= #[trigger] z0[t],
            forall|idx: int| 0 <= idx < framebuffer.buffer@.len()
                && #[trigger] framebuffer.buffer@[idx] != fb0.buffer@[idx]
                ==> exists|si: int|
                    #![trigger sprites@[si]]
                    0 <= si < s && sprite_accounts_for(
                        player,
                        sprites@[si],
                        texture,
                        fb0.width as int,
                        fb0.height as int,
                        idx,
                        framebuffer.buffer@[idx],
                    ),
        decreases sprites@.len() - s,
    {
        let ghost zprev = z_buffer@;
        let ghost fprev = framebuffer.buffer@;
        render_object(framebuffer, player, &sprites[s], z_buffer, texture);
        proof {
            assert(forall|t: int| 0 <= t < z_buffer@.len()
                ==> z_buffer@[t] <= zprev[t] && zprev[t] <= #[trigger] z0[t]);
            assert forall|idx: int| 0 <= idx < framebuffer.buffer@.len()
                && #[trigger] framebuffer.buffer@[idx] != fb0.buffer@[idx]
                implies exists|si: int|
                    #![trigger sprites@[si]]
                    0 <= si < s + 1 && sprite_accounts_for(
                        player,
                        sprites@[si],
                        texture,
                        fb0.width as int,
                        fb0.height as int,
                        idx,
                        framebuffer.buffer@[idx],
                    )
            by {
                if framebuffer.buffer@[idx] == fprev[idx] {
                    assert(fprev[idx] != fb0.buffer@[idx]);
                } else {
                    assert(sprite_accounts_for(
                        player,
                        sprites@[s as int],
                        texture,
                        fb0.width as int,
                        fb0.height as int,
                        idx,
                        framebuffer.buffer@[idx],
                    ));
                }
            }
        }
        s = s + 1;
    }
}

} // verus!

use vstd::prelude::*;
use vstd::arithmetic::div_mod::lemma_multiply_divide_lt;
use crate::fixmath::FP_ONE;
use crate::fixmath::QUARTER_TURN;
use crate::fixmath::angle_norm;
use crate::fixmath::cos_deg10;
use crate::fixmath::cos_fp;
use crate::fixmath::lemma_sin_fp_bounds;
use crate::fixmath::sin_fp;
use crate::framebuffer::Framebuffer;
use crate::grid::grid_view;
use crate::player::Player;
use crate::raycast::CAST_STEP;
use crate::raycast::MAX_CAST_DISTANCE;
use crate::raycast::cast_ray;
use crate::raycast::first_hit;
use crate::raycast::ray_cell;
use crate::raycast::tx_spec;
use crate::grid::OPEN_CELL;
use crate::framebuffer::lemma_pixel_coords;
use crate::texture::WallTextures;
use crate::texture::texture_walls;
use crate::texture::texture_walls_spec;

verus! {

/// The flat band painted above the horizon before walls are drawn.
pub const SKY_COLOR: u32 = 0x2c9473;

/// The flat band painted below the horizon before walls are drawn.
pub const FLOOR_COLOR: u32 = 0x56615d;

/// Tunable scale of projected wall height, in world units.
pub const PROJECTION_SCALE: i64 = 70;

/// The depth a fresh buffer starts at: farther than any cast can report.
pub const DEPTH_FAR: i64 = 0x4000000000000000;

/// The ray angle of screen column `i` out of `num_rays`: the view fan
/// spreads the field of view evenly across the columns, centered on the
/// player heading.
pub open spec fn column_angle(player: &Player, i: int, num_rays: int) -> int {
    player.a - (player.fov as int) / 2 + ((player.fov as int) * i) / num_rays
}

/// The fish-eye-corrected fixed-point depth the wall renderer records for
/// column `i`: the cast distance scaled by the cosine of the column's
/// offset from the view center.
pub open spec fn column_depth(
    m: Seq<Seq<char>>,
    player: &Player,
    block: int,
    i: int,
    num_rays: int,
) -> int {
    let ang = column_angle(player, i, num_rays);
    let dist = match first_hit(
        m,
        player.pos.x as int,
        player.pos.y as int,
        cos_fp(ang),
        sin_fp(ang),
        block,
    ) {
        Some(k) => k * CAST_STEP,
        None => MAX_CAST_DISTANCE as int,
    };
    dist * cos_fp(ang - player.a)
}

/// The wall symbol column `i`'s ray strikes, or the open symbol when the
/// cast exhausts its guard.
pub open spec fn column_symbol(
    m: Seq<Seq<char>>,
    player: &Player,
    block: int,
    i: int,
    num_rays: int,
) -> char {
    let ang = column_angle(player, i, num_rays);
    let cosv = cos_fp(ang);
    let sinv = sin_fp(ang);
    let px = player.pos.x as int;
    let py = player.pos.y as int;
    match first_hit(m, px, py, cosv, sinv, block) {
        Some(k) => ray_cell(m, px, py, cosv, sinv, block, k * CAST_STEP)->Some_0,
        None => OPEN_CELL,
    }
}

/// The texture column the strike of screen column `i` maps to, 0 when
/// nothing was struck.
pub open spec fn column_tx(
    m: Seq<Seq<char>>,
    player: &Player,
    block: int,
    i: int,
    num_rays: int,
) -> int {
    let ang = column_angle(player, i, num_rays);
    let cosv = cos_fp(ang);
    let sinv = sin_fp(ang);
    let px = player.pos.x as int;
    let py = player.pos.y as int;
    match first_hit(m, px, py, cosv, sinv, block) {
        Some(k) => tx_spec(px, py, cosv, sinv, block, k * CAST_STEP),
        None => 0,
    }
}

/// Column `i`'s projected stake height in pixels: inverse to the corrected
/// depth, clamped to the screen height, and the whole height for a
/// degenerate zero depth.
pub open spec fn column_stake(
    m: Seq<Seq<char>>,
    player: &Player,
    block: int,
    i: int,
    num_rays: int,
    h: int,
) -> int {
    let depth = column_depth(m, player, block, i, num_rays);
    if depth <= 0 {
        h
    } else {
        let stake = h * (PROJECTION_SCALE * FP_ONE) / depth;
        if stake > h {
            h
        } else {
            stake
        }
    }
}

/// The color the wall renderer leaves at `(i, y)`: the vertically centered
/// textured stake between the sky band above and the floor band below.
pub open spec fn wall_pixel(
    m: Seq<Seq<char>>,
    player: &Player,
    block: int,
    i: int,
    y: int,
    num_rays: int,
    h: int,
    textures: &WallTextures,
) -> u32 {
    let stake = column_stake(m, player, block, i, num_rays, h);
    let top = h / 2 - stake / 2;
    let bottom = h / 2 + stake / 2;
    if top <= y < bottom {
        texture_walls_spec(
            column_symbol(m, player, block, i, num_rays),
            column_tx(m, player, block, i, num_rays),
            (y - top) * 128 / (bottom - top),
            textures,
        )
    } else if y < h / 2 {
        SKY_COLOR
    } else {
        FLOOR_COLOR
    }
}

/// A fresh per-frame depth buffer, one slot per screen column, every slot
/// farther than anything a frame can draw.
pub fn new_depth_buffer(width: usize) -> (z: Vec<i64>)
    ensures
        z@.len() == width,
        forall|t: int| 0 <= t < z@.len() ==> z@[t] == DEPTH_FAR,
{
    let mut z: Vec<i64> = Vec::new();
    while z.len() < width
        invariant
            z@.len() <= width,
            forall|t: int| 0 <= t < z@.len() ==> z@[t] == DEPTH_FAR,
        decreases width - z@.len(),
    {
        z.push(DEPTH_FAR);
    }
    z
}

/// Every already-rendered column shows exactly its spec pixels.
pub open spec fn columns_done(
    fb0: Framebuffer,
    fb: Framebuffer,
    m: Seq<Seq<char>>,
    player: &Player,
    block: int,
    upto: int,
    textures: &WallTextures,
) -> bool {
    forall|i2: int, y2: int|
        #![trigger wall_pixel(m, player, block, i2, y2, fb0.width as int, fb0.height as int, textures)]
        0 <= i2 < upto && 0 <= y2 < fb0.height ==> fb.pixel(i2, y2) == wall_pixel(
            m,
            player,
            block,
            i2,
            y2,
            fb0.width as int,
            fb0.height as int,
            textures,
        )
}

/// Paints the sky and floor bands, casts one ray per screen column, draws
/// each strike as a vertical textured stake centered on the horizon, and
/// records every column's fish-eye-corrected depth in the depth buffer —
/// whether or not any wall pixel was drawn for that column. Every pixel of
/// the frame ends exactly as `wall_pixel` specifies: stake texel, sky
/// above, floor below.
pub fn render_walls(
    framebuffer: &mut Framebuffer,
    maze: &Vec<Vec<char>>,
    player: &Player,
    block_size: usize,
    textures: &WallTextures,
    z_buffer: &mut Vec<i64>,
)
    requires
        old(framebuffer).wf(),
        old(framebuffer).width <= 32768,
        old(framebuffer).height <= 32768,
        player.wf(),
        0 < block_size <= 100000,
        textures.wf(),
        old(z_buffer)@.len() == old(framebuffer).width,
    ensures
        final(framebuffer).wf(),
        final(framebuffer).width == old(framebuffer).width,
        final(framebuffer).height == old(framebuffer).height,
        final(framebuffer).buffer@.len() == old(framebuffer).buffer@.len(),
        final(framebuffer).background_color == old(framebuffer).background_color,
        final(z_buffer)@.len() == old(z_buffer)@.len(),
        forall|i: int| 0 <= i < final(z_buffer)@.len()
            ==> final(z_buffer)@[i] == column_depth(
                grid_view(maze),
                player,
                block_size as int,
                i,
                old(framebuffer).width as int,
            ),
        forall|i: int| 0 <= i < final(z_buffer)@.len() ==> 0 <= #[trigger] final(z_buffer)@[i],
        columns_done(
            *old(framebuffer),
            *final(framebuffer),
            grid_view(maze),
            player,
            block_size as int,
            old(framebuffer).width as int,
            textures,
        ),
{
    let w: usize = framebuffer.width;
    let h: usize = framebuffer.height;
    let ghost fb0 = *old(framebuffer);
    let ghost m = grid_view(maze);
    let ghost gb = block_size as int;

    let mut i: usize = 0;
    while i < w
        invariant
            i <= w,
            w <= 32768,
            h <= 32768,
            player.wf(),
            0 < block_size <= 100000,
            gb == block_size,
            textures.wf(),
            fb0.wf(),
            fb0.width == w,
            fb0.height == h,
            framebuffer.wf(),
            framebuffer.width == w,
            framebuffer.height == h,
            framebuffer.buffer@.len() == fb0.buffer@.len(),
            framebuffer.background_color == fb0.background_color,
            z_buffer@.len() == w,
            m == grid_view(maze),
            forall|t: int| 0 <= t < i
                ==> z_buffer@[t] == column_depth(m, player, gb, t, w as int),
            forall|t: int| 0 <= t < i ==> 0 <= #[trigger] z_buffer@[t],
            columns_done(fb0, *framebuffer, m, player, gb, i as int, textures),
        decreases w - i,
    {
        framebuffer.set_current_color(SKY_COLOR);
        let mut j: usize = 0;
        while j < h / 2
            invariant
                j <= h,
                i < w,
                w <= 32768,
                h <= 32768,
                player.wf(),
                0 < block_size <= 100000,
                gb == block_size,
                textures.wf(),
                fb0.wf(),
                fb0.width == w,
                fb0.height == h,
                framebuffer.wf(),
                framebuffer.width == w,
                framebuffer.height == h,
                framebuffer.buffer@.len() == fb0.buffer@.len(),
                framebuffer.background_color == fb0.background_color,
                framebuffer.current_color == SKY_COLOR,
                z_buffer@.len() == w,
                m == grid_view(maze),
                forall|t: int| 0 <= t < i
                    ==> z_buffer@[t] == column_depth(m, player, gb, t, w as int),
                forall|t: int| 0 <= t < i ==> 0 <= #[trigger] z_buffer@[t],
                columns_done(fb0, *framebuffer, m, player, gb, i as int, textures),
                forall|y2: int| 0 <= y2 < j && fb0.in_bounds(i as int, y2)
                    ==> framebuffer.pixel(i as int, y2) == SKY_COLOR,
            decreases h / 2 - j,
        {
            let ghost before = framebuffer.buffer@;
            framebuffer.point(i, j);
            proof {
                lemma_band_written(fb0, before, framebuffer, m, player, gb, textures, i as int, j as int, SKY_COLOR);
            }
            j = j + 1;
        }
        framebuffer.set_current_color(FLOOR_COLOR);
        let mut j2: usize = h / 2;
        while j2 < h
            invariant
                h / 2 <= j2 <= h,
                i < w,
                w <= 32768,
                h <= 32768,
                player.wf(),
                0 < block_size <= 100000,
                gb == block_size,
                textures.wf(),
                fb0.wf(),
                fb0.width == w,
                fb0.height == h,
                framebuffer.wf(),
                framebuffer.width == w,
                framebuffer.height == h,
                framebuffer.buffer@.len() == fb0.buffer@.len(),
                framebuffer.background_color == fb0.background_color,
                framebuffer.current_color == FLOOR_COLOR,
                z_buffer@.len() == w,
                m == grid_view(maze),
                forall|t: int| 0 <= t < i
                    ==> z_buffer@[t] == column_depth(m, player, gb, t, w as int),
                forall|t: int| 0 <= t < i ==> 0 <= #[trigger] z_buffer@[t],
                columns_done(fb0, *framebuffer, m, player, gb, i as int, textures),
                forall|y2: int| 0 <= y2 < h / 2 && fb0.in_bounds(i as int, y2)
                    ==> framebuffer.pixel(i as int, y2) == SKY_COLOR,
                forall|y2: int| h / 2 <= y2 < j2 && fb0.in_bounds(i as int, y2)
                    ==> framebuffer.pixel(i as int, y2) == FLOOR_COLOR,
            decreases h - j2,
        {
            let ghost before = framebuffer.buffer@;
            framebuffer.point(i, j2);
            proof {
                lemma_band_written(fb0, before, framebuffer, m, player, gb, textures, i as int, j2 as int, FLOOR_COLOR);
            }
            j2 = j2 + 1;
        }

        let num_rays: i64 = w as i64;
        proof {
            assert(0 <= (player.fov as int) * (i as int) < (w as int) * (player.fov as int)
                && (player.fov as int) * (i as int) <= 59000000) by (nonlinear_arith)
                requires
                    0 < player.fov <= 1800,
                    0 <= (i as int) < (w as int),
                    w <= 32768,
            ;
            lemma_multiply_divide_lt(
                (player.fov as int) * (i as int),
                w as int,
                player.fov as int,
            );
        }
        let fov_term: i64 = player.fov * (i as i64) / num_rays;
        let ang: i64 = player.a - player.fov / 2 + fov_term;

        let hit = cast_ray(framebuffer, maze, player, ang, block_size, false);

        let cos_off: i64 = cos_deg10(ang - player.a);
        proof {
            assert(-102400000 <= (hit.distance as int) * (cos_off as int) <= 102400000)
                by (nonlinear_arith)
                requires
                    0 <= hit.distance <= 100000,
                    -1024 <= cos_off <= 1024,
            ;
        }
        let depth: i64 = hit.distance * cos_off;
        proof {
            // the view-center offset stays within a quarter turn either
            // way, so the fish-eye factor is never negative
            let off = (ang - player.a) as int;
            assert(-900 <= off < 900);
            vstd::arithmetic::div_mod::lemma_small_mod((off + 900) as nat, 3600);
            lemma_sin_fp_bounds(off + (QUARTER_TURN as int));
            assert(angle_norm(off + (QUARTER_TURN as int)) == off + 900);
            assert(cos_off >= 0);
            assert(depth >= 0) by (nonlinear_arith)
                requires
                    depth == hit.distance * cos_off,
                    hit.distance >= 0,
                    cos_off >= 0,
            ;
        }
        z_buffer[i] = depth;
        assert(depth == column_depth(m, player, gb, i as int, w as int));
        assert(hit.impact == column_symbol(m, player, gb, i as int, w as int));
        assert(hit.tx == column_tx(m, player, gb, i as int, w as int));

        let stake: i64 = if depth <= 0 {
            h as i64
        } else {
            let s: i64 = (h as i64) * (PROJECTION_SCALE * FP_ONE) / depth;
            if s > h as i64 {
                h as i64
            } else {
                s
            }
        };
        assert(stake == column_stake(m, player, gb, i as int, w as int, h as int));
        let half_stake: usize = (stake / 2) as usize;
        let top: usize = h / 2 - half_stake;
        let bottom: usize = h / 2 + half_stake;

        let mut y: usize = top;
        while y < bottom
            invariant
                top <= y <= bottom,
                top == (h as int) / 2 - column_stake(m, player, gb, i as int, w as int, h as int) / 2,
                bottom == (h as int) / 2 + column_stake(m, player, gb, i as int, w as int, h as int) / 2,
                top <= h / 2 <= bottom,
                bottom <= h,
                i < w,
                w <= 32768,
                h <= 32768,
                player.wf(),
                0 < block_size <= 100000,
                gb == block_size,
                textures.wf(),
                fb0.wf(),
                fb0.width == w,
                fb0.height == h,
                framebuffer.wf(),
                framebuffer.width == w,
                framebuffer.height == h,
                framebuffer.buffer@.len() == fb0.buffer@.len(),
                framebuffer.background_color == fb0.background_color,
                hit.impact == column_symbol(m, player, gb, i as int, w as int),
                hit.tx == column_tx(m, player, gb, i as int, w as int),
                hit.tx < 128,
                z_buffer@.len() == w,
                m == grid_view(maze),
                z_buffer@[i as int] == column_depth(m, player, gb, i as int, w as int),
                z_buffer@[i as int] >= 0,
                forall|t: int| 0 <= t < i
                    ==> z_buffer@[t] == column_depth(m, player, gb, t, w as int),
                forall|t: int| 0 <= t < i ==> 0 <= #[trigger] z_buffer@[t],
                columns_done(fb0, *framebuffer, m, player, gb, i as int, textures),
                forall|y2: int| 0 <= y2 < h / 2 && (y2 < top || bottom <= y2)
                    && fb0.in_bounds(i as int, y2)
                    ==> framebuffer.pixel(i as int, y2) == SKY_COLOR,
                forall|y2: int| h / 2 <= y2 < h && (y2 < top || bottom <= y2)
                    && fb0.in_bounds(i as int, y2)
                    ==> framebuffer.pixel(i as int, y2) == FLOOR_COLOR,
                forall|y2: int| top <= y2 < y && fb0.in_bounds(i as int, y2)
                    ==> framebuffer.pixel(i as int, y2) == texture_walls_spec(
                        column_symbol(m, player, gb, i as int, w as int),
                        column_tx(m, player, gb, i as int, w as int),
                        (y2 - top) * 128 / (bottom - top),
                        textures,
                    ),
            decreases bottom - y,
        {
            let ty: usize = (y - top) * 128 / (bottom - top);
            let color: u32 = texture_walls(hit.impact, hit.tx as u32, ty as u32, textures);
            framebuffer.set_current_color(color);
            let ghost before = framebuffer.buffer@;
            framebuffer.point(i, y);
            proof {
                lemma_band_written(fb0, before, framebuffer, m, player, gb, textures, i as int, y as int, color);
            }
            y = y + 1;
        }
        proof {
            assert forall|i2: int, y2: int|
                #![trigger wall_pixel(m, player, gb, i2, y2, fb0.width as int, fb0.height as int, textures)]
                0 <= i2 < i + 1 && 0 <= y2 < fb0.height
                implies framebuffer.pixel(i2, y2) == wall_pixel(
                    m,
                    player,
                    gb,
                    i2,
                    y2,
                    fb0.width as int,
                    fb0.height as int,
                    textures,
                )
            by {
                if i2 == i {
                    assert(fb0.in_bounds(i as int, y2));
                }
            }
        }
        i = i + 1;
    }
}

/// One band or stake pixel was just written at `(x, y)` of the column in
/// progress: every pixel of every other position keeps its value, and the
/// written one now shows the current color.
proof fn lemma_band_written(
    fb0: Framebuffer,
    before: Seq<u32>,
    fb: &Framebuffer,
    m: Seq<Seq<char>>,
    player: &Player,
    block: int,
    textures: &WallTextures,
    x: int,
    y: int,
    color: u32,
)
    requires
        fb0.wf(),
        fb.wf(),
        fb.width == fb0.width,
        fb.height == fb0.height,
        before.len() == fb0.buffer@.len(),
        fb.buffer@.len() == fb0.buffer@.len(),
        0 <= x < fb0.width,
        0 <= y,
        fb0.in_bounds(x, y) ==> fb.buffer@ == before.update(y * fb0.width + x, color),
        !fb0.in_bounds(x, y) ==> fb.buffer@ == before,
    ensures
        fb0.in_bounds(x, y) ==> fb.pixel(x, y) == color,
        forall|px: int, py: int|
            0 <= px < fb0.width && 0 <= py < fb0.height && (px != x || py != y)
                ==> #[trigger] fb.pixel(px, py) == before[py * fb0.width + px],
{
    let w = fb0.width as int;
    if fb0.in_bounds(x, y) {
        assert(0 <= y * w + x < before.len()) by (nonlinear_arith)
            requires
                0 <= x < w,
                0 <= y < fb0.height,
                before.len() == w * fb0.height,
        ;
        lemma_pixel_coords(w, x, y);
    }
    assert forall|px: int, py: int|
        0 <= px < fb0.width && 0 <= py < fb0.height && (px != x || py != y)
        implies #[trigger] fb.pixel(px, py) == before[py * w + px]
    by {
        assert(0 <= py * w + px < before.len()) by (nonlinear_arith)
            requires
                0 <= px < w,
                0 <= py < fb0.height,
                before.len() == w * fb0.height,
        ;
        if fb0.in_bounds(x, y) {
            lemma_pixel_coords(w, px, py);
        }
    }
}

} // verus!

use vstd::prelude::*;
use vstd::arithmetic::div_mod::lemma_multiply_divide_lt;
use crate::fixmath::FP_ONE;
use crate::framebuffer::Framebuffer;
use crate::framebuffer::lemma_pixel_coords;
use crate::grid::OPEN_CELL;
use crate::grid::grid_blocked;
use crate::grid::grid_cell;
use crate::grid::grid_view;
use crate::player::Player;
use crate::raycast::cast_ray;

verus! {

/// The fill color of non-traversable cells on the minimap.
pub const WALL_BLOCK_COLOR: u32 = 0x14544b;

/// The backdrop color of the minimap overlay.
pub const MINIMAP_BACK_COLOR: u32 = 0x56615d;

/// Side length of the square minimap grid area, in pixels.
pub const MINIMAP_SIZE: usize = 150;

/// Rays in the top-down overview's view fan.
pub const FAN_RAYS: usize = 150;

/// Fills one grid cell's square on the minimap, in the wall color, iff the
/// cell is not traversable; a traversable cell leaves the framebuffer
/// exactly as it was. Every pixel the call changes lies inside the square
/// and carries the wall color, and the whole on-canvas part of the square
/// is painted.
pub fn walls_minimap(
    framebuffer: &mut Framebuffer,
    xo: usize,
    yo: usize,
    block_size: usize,
    cell: char,
)
    requires
        old(framebuffer).wf(),
        xo <= 0x20000000,
        yo <= 0x20000000,
        block_size <= 100000,
    ensures
        final(framebuffer).wf(),
        final(framebuffer).width == old(framebuffer).width,
        final(framebuffer).height == old(framebuffer).height,
        final(framebuffer).buffer@.len() == old(framebuffer).buffer@.len(),
        final(framebuffer).background_color == old(framebuffer).background_color,
        cell == OPEN_CELL ==> *final(framebuffer) == *old(framebuffer),
        cell != OPEN_CELL ==> final(framebuffer).current_color == WALL_BLOCK_COLOR,
        forall|idx: int|
            0 <= idx < final(framebuffer).buffer@.len()
                && final(framebuffer).buffer@[idx] != old(framebuffer).buffer@[idx] ==> {
                &&& final(framebuffer).buffer@[idx] == WALL_BLOCK_COLOR
                &&& xo <= idx % (old(framebuffer).width as int) < xo + block_size
                &&& yo <= idx / (old(framebuffer).width as int) < yo + block_size
            },
        cell != OPEN_CELL ==> forall|px: int, py: int|
            xo <= px < xo + block_size && yo <= py < yo + block_size
                && old(framebuffer).in_bounds(px, py)
                ==> final(framebuffer).pixel(px, py) == WALL_BLOCK_COLOR,
{
    if cell != ' ' {
        framebuffer.set_current_color(WALL_BLOCK_COLOR);
        let ghost fb0 = *framebuffer;
        let ghost w = framebuffer.width as int;
        let mut x: usize = xo;
        while x < xo + block_size
            invariant
                xo <= x <= xo + block_size,
                xo <= 0x20000000,
                yo <= 0x20000000,
                block_size <= 100000,
                fb0.wf(),
                framebuffer.wf(),
                w == fb0.width,
                framebuffer.width == fb0.width,
                framebuffer.height == fb0.height,
                framebuffer.buffer@.len() == fb0.buffer@.len(),
                framebuffer.background_color == fb0.background_color,
                framebuffer.current_color == WALL_BLOCK_COLOR,
                forall|idx: int|
                    0 <= idx < framebuffer.buffer@.len()
                        && framebuffer.buffer@[idx] != fb0.buffer@[idx] ==> {
                        &&& framebuffer.buffer@[idx] == WALL_BLOCK_COLOR
                        &&& xo <= idx % w < xo + block_size
                        &&& yo <= idx / w < yo + block_size
                    },
                forall|px: int, py: int|
                    xo <= px < x && yo <= py < yo + block_size && fb0.in_bounds(px, py)
                        ==> framebuffer.pixel(px, py) == WALL_BLOCK_COLOR,
            decreases xo + block_size - x,
        {
            let mut y: usize = yo;
            while y < yo + block_size
                invariant
                    yo <= y <= yo + block_size,
                    xo <= x < xo + block_size,
                    xo <= 0x20000000,
                    yo <= 0x20000000,
                    block_size <= 100000,
                    fb0.wf(),
                    framebuffer.wf(),
                    w == fb0.width,
                    framebuffer.width == fb0.width,
                    framebuffer.height == fb0.height,
                    framebuffer.buffer@.len() == fb0.buffer@.len(),
                    framebuffer.background_color == fb0.background_color,
                    framebuffer.current_color == WALL_BLOCK_COLOR,
                    forall|idx: int|
                        0 <= idx < framebuffer.buffer@.len()
                            && framebuffer.buffer@[idx] != fb0.buffer@[idx] ==> {
                            &&& framebuffer.buffer@[idx] == WALL_BLOCK_COLOR
                            &&& xo <= idx % w < xo + block_size
                            &&& yo <= idx / w < yo + block_size
                        },
                    forall|px: int, py: int|
                        xo <= px < x && yo <= py < yo + block_size && fb0.in_bounds(px, py)
                            ==> framebuffer.pixel(px, py) == WALL_BLOCK_COLOR,
                    forall|py: int|
                        yo <= py < y && fb0.in_bounds(x as int, py)
                            ==> framebuffer.pixel(x as int, py) == WALL_BLOCK_COLOR,
                decreases yo + block_size - y,
            {
                let ghost before = framebuffer.buffer@;
                framebuffer.point(x, y);
                proof {
                    if fb0.in_bounds(x as int, y as int) {
                        assert(0 <= (y as int) * w + (x as int) < before.len())
                            by (nonlinear_arith)
                            requires
                                0 <= (x as int) < w,
                                0 <= (y as int) < fb0.height,
                                before.len() == w * fb0.height,
                        ;
                        lemma_pixel_coords(w, x as int, y as int);
                    }
                    assert forall|idx: int|
                        0 <= idx < framebuffer.buffer@.len()
                            && framebuffer.buffer@[idx] != fb0.buffer@[idx] implies {
                            &&& framebuffer.buffer@[idx] == WALL_BLOCK_COLOR
                            &&& xo <= idx % w < xo + block_size
                            &&& yo <= idx / w < yo + block_size
                        }
                    by {
                        if framebuffer.buffer@[idx] == before[idx] {
                            assert(before[idx] != fb0.buffer@[idx]);
                        }
                    }
                    assert forall|px: int, py: int|
                        xo <= px < x && yo <= py < yo + block_size && fb0.in_bounds(px, py)
                            implies framebuffer.pixel(px, py) == WALL_BLOCK_COLOR
                    by {
                        assert(0 <= py * w + px < before.len()) by (nonlinear_arith)
                            requires
                                0 <= px < w,
                                0 <= py < fb0.height,
                                before.len() == w * fb0.height,
                        ;
                        if fb0.in_bounds(x as int, y as int) {
                            lemma_pixel_coords(w, px, py);
                        }
                    }
                    assert forall|py: int|
                        yo <= py < y + 1 && fb0.in_bounds(x as int, py)
                            implies framebuffer.pixel(x as int, py) == WALL_BLOCK_COLOR
                    by {
                        assert(0 <= py * w + (x as int) < before.len()) by (nonlinear_arith)
                            requires
                                0 <= (x as int) < w,
                                0 <= py < fb0.height,
                                before.len() == w * fb0.height,
                        ;
                        if fb0.in_bounds(x as int, y as int) {
                            lemma_pixel_coords(w, x as int, py);
                            lemma_pixel_coords(w, x as int, y as int);
                        }
                    }
                }
                y = y + 1;
            }
            x = x + 1;
        }
        proof {
            assert forall|px: int, py: int|
                xo <= px < xo + block_size && yo <= py < yo + block_size
                    && old(framebuffer).in_bounds(px, py)
                    implies framebuffer.pixel(px, py) == WALL_BLOCK_COLOR
            by {
                assert(fb0.in_bounds(px, py));
                assert(xo <= px < x);
            }
        }
    }
}

/// The backdrop, cells and player marker the overlay draws all start at
/// this corner: a rectangle fixed by the framebuffer size alone.
pub open spec fn minimap_origin(width: int, height: int) -> (int, int) {
    (width - 230, height - 160)
}

/// The grid and pose are proportioned so that the whole overlay, player
/// marker included, stays inside its backdrop rectangle: rows at least as
/// numerous as any row is long, and the player inside the mapped square.
pub open spec fn minimap_grid_fits(m: Seq<Seq<char>>, player: &Player, block: int) -> bool {
    &&& m.len() > 0
    &&& forall|j: int| 0 <= j < m.len() ==> (#[trigger] m[j]).len() <= m.len()
    &&& (player.pos.x as int) / (FP_ONE as int) < m.len() * block
    &&& (player.pos.y as int) / (FP_ONE as int) < m.len() * block
}

proof fn lemma_div_sum_le(a: int, b: int, d: int)
    requires
        0 <= a,
        0 <= b,
        0 < d,
    ensures
        a / d + b / d <= (a + b) / d,
{
    vstd::arithmetic::div_mod::lemma_fundamental_div_mod(a, d);
    vstd::arithmetic::div_mod::lemma_fundamental_div_mod(b, d);
    vstd::arithmetic::div_mod::lemma_mod_bound(a, d);
    vstd::arithmetic::div_mod::lemma_mod_bound(b, d);
    assert(d * (a / d + b / d) == d * (a / d) + d * (b / d)) by (nonlinear_arith);
    vstd::arithmetic::div_mod::lemma_div_is_ordered(d * (a / d + b / d), a + b, d);
    vstd::arithmetic::div_mod::lemma_div_multiples_vanish(a / d + b / d, d);
}

/// Every pixel of `buf` that differs from `fb0`'s lies at or beyond the
/// overlay corner; under `fits`, inside the backdrop rectangle too.
pub open spec fn overlay_confined(fb0: Framebuffer, buf: Seq<u32>, fits: bool) -> bool {
    forall|idx: int| 0 <= idx < buf.len() && #[trigger] buf[idx] != fb0.buffer@[idx] ==> {
        let w = fb0.width as int;
        &&& w - 230 <= idx % w
        &&& fb0.height - 160 <= idx / w
        &&& (fits ==> idx % w < w - 10 && idx / w < fb0.height - 10)
    }
}

/// Every on-canvas pixel of a processed non-open cell's scaled square
/// shows the wall color: rows before `limit_r` wholly processed, row
/// `limit_r` processed up to column `limit_c`.
spec fn minimap_cells_drawn(
    fb0: Framebuffer,
    fb: Framebuffer,
    m: Seq<Seq<char>>,
    block: int,
    limit_r: int,
    limit_c: int,
) -> bool {
    forall|r: int, c: int, qx: int, qy: int|
        #![trigger grid_cell(m, c, r), fb0.in_bounds(qx, qy)]
        {
            let denom = m.len() * block;
            let mx = fb0.width - 230;
            let my = fb0.height - 160;
            let cx = mx + c * block * 150 / denom;
            let cy = my + r * block * 150 / denom;
            let mini = block * 150 / denom;
            (0 <= r && 0 <= c && (r < limit_r || (r == limit_r && c < limit_c))
                && grid_blocked(m, c, r) && cx <= qx < cx + mini && cy <= qy < cy + mini
                && fb0.in_bounds(qx, qy)) ==> fb.pixel(qx, qy) == WALL_BLOCK_COLOR
        }
}

/// Every on-canvas pixel of the overlay's backdrop rectangle shows one of
/// the three overlay colors: the backdrop itself, a scaled wall cell, or
/// the white player marker.
pub open spec fn overlay_covered(fb0: Framebuffer, fb: Framebuffer) -> bool {
    forall|px: int, py: int|
        fb0.width - 230 <= px < fb0.width - 10 && fb0.height - 160 <= py < fb0.height - 10
            && #[trigger] fb0.in_bounds(px, py) ==> {
            ||| fb.pixel(px, py) == MINIMAP_BACK_COLOR
            ||| fb.pixel(px, py) == WALL_BLOCK_COLOR
            ||| fb.pixel(px, py) == 0xFFFFFFu32
        }
}

/// Draws the always-visible minimap overlay pinned to the lower-right
/// screen corner: a backdrop rectangle, every grid cell scaled down into
/// it, and a white player marker, whatever the primary render mode drew
/// before. The corner depends on the framebuffer size alone; every painted
/// pixel lies at or beyond it, and when the grid and pose fit the mapped
/// square the whole overlay stays inside the backdrop rectangle.
pub fn minimap_function(
    framebuffer: &mut Framebuffer,
    maze: &Vec<Vec<char>>,
    block_size: usize,
    player: &Player,
)
    requires
        old(framebuffer).wf(),
        230 <= old(framebuffer).width <= 32768,
        160 <= old(framebuffer).height <= 32768,
        player.wf(),
        0 < block_size <= 100000,
        maze@.len() <= 4096,
        forall|j: int| 0 <= j < maze@.len() ==> (#[trigger] maze@[j])@.len() <= 4096,
    ensures
        final(framebuffer).wf(),
        final(framebuffer).width == old(framebuffer).width,
        final(framebuffer).height == old(framebuffer).height,
        final(framebuffer).buffer@.len() == old(framebuffer).buffer@.len(),
        final(framebuffer).background_color == old(framebuffer).background_color,
        overlay_confined(
            *old(framebuffer),
            final(framebuffer).buffer@,
            minimap_grid_fits(grid_view(maze), player, block_size as int),
        ),
        overlay_covered(*old(framebuffer), *final(framebuffer)),
        // every non-open cell's scaled square is painted: wall color, with
        // only the white player marker allowed over it
        forall|r: int, c: int, qx: int, qy: int|
            #![trigger grid_cell(grid_view(maze), c, r), old(framebuffer).in_bounds(qx, qy)]
            ({
                let m = grid_view(maze);
                let denom = m.len() * (block_size as int);
                let mx = old(framebuffer).width - 230;
                let my = old(framebuffer).height - 160;
                let cx = mx + c * block_size * 150 / denom;
                let cy = my + r * block_size * 150 / denom;
                let mini = (block_size as int) * 150 / denom;
                (0 <= r && 0 <= c && grid_blocked(m, c, r) && cx <= qx < cx + mini
                    && cy <= qy < cy + mini && old(framebuffer).in_bounds(qx, qy))
                    ==> final(framebuffer).pixel(qx, qy) == WALL_BLOCK_COLOR
                        || final(framebuffer).pixel(qx, qy) == 0xFFFFFFu32
            }),
        // the player marker lands white whenever its pixel is on canvas
        maze@.len() > 0 ==> ({
            let mx = old(framebuffer).width - 230;
            let my = old(framebuffer).height - 160;
            let denom = maze@.len() * (block_size as int);
            let pxs = ((player.pos.x as int) / 1024) * 150 / denom;
            let pys = ((player.pos.y as int) / 1024) * 150 / denom;
            (pxs <= 0x7FFFFFFF - mx && pys <= 0x7FFFFFFF - my
                && old(framebuffer).in_bounds(mx + pxs, my + pys))
                ==> final(framebuffer).pixel(mx + pxs, my + pys) == 0xFFFFFFu32
        }),
{
    let ghost fb0 = *old(framebuffer);
    let ghost w = old(framebuffer).width as int;
    let ghost m = grid_view(maze);
    let ghost fits = minimap_grid_fits(grid_view(maze), player, block_size as int);

    let minimap_x: usize = framebuffer.width - MINIMAP_SIZE - 80;
    let minimap_y: usize = framebuffer.height - MINIMAP_SIZE - 10;

    framebuffer.set_current_color(MINIMAP_BACK_COLOR);
    let mut x: usize = minimap_x;
    while x < minimap_x + MINIMAP_SIZE + 70
        invariant
            minimap_x <= x <= minimap_x + 220,
            minimap_x == fb0.width - 230,
            minimap_y == fb0.height - 160,
            230 <= fb0.width <= 32768,
            160 <= fb0.height <= 32768,
            fb0.wf(),
            framebuffer.wf(),
            framebuffer.width == fb0.width,
            framebuffer.height == fb0.height,
            framebuffer.buffer@.len() == fb0.buffer@.len(),
            framebuffer.background_color == fb0.background_color,
            framebuffer.current_color == MINIMAP_BACK_COLOR,
            w == fb0.width,
            overlay_confined(fb0, framebuffer.buffer@, fits),
            forall|px: int, py: int|
                minimap_x <= px < x && minimap_y <= py < minimap_y + 150
                    && #[trigger] fb0.in_bounds(px, py)
                    ==> framebuffer.pixel(px, py) == MINIMAP_BACK_COLOR,
        decreases minimap_x + 220 - x,
    {
        let mut y: usize = minimap_y;
        while y < minimap_y + MINIMAP_SIZE
            invariant
                minimap_y <= y <= minimap_y + 150,
                minimap_x <= x < minimap_x + 220,
                minimap_x == fb0.width - 230,
                minimap_y == fb0.height - 160,
                230 <= fb0.width <= 32768,
                160 <= fb0.height <= 32768,
                fb0.wf(),
                framebuffer.wf(),
                framebuffer.width == fb0.width,
                framebuffer.height == fb0.height,
                framebuffer.buffer@.len() == fb0.buffer@.len(),
                framebuffer.background_color == fb0.background_color,
                framebuffer.current_color == MINIMAP_BACK_COLOR,
                w == fb0.width,
                overlay_confined(fb0, framebuffer.buffer@, fits),
                forall|px: int, py: int|
                    minimap_x <= px < x && minimap_y <= py < minimap_y + 150
                        && #[trigger] fb0.in_bounds(px, py)
                        ==> framebuffer.pixel(px, py) == MINIMAP_BACK_COLOR,
                forall|py: int|
                    minimap_y <= py < y && #[trigger] fb0.in_bounds(x as int, py)
                        ==> framebuffer.pixel(x as int, py) == MINIMAP_BACK_COLOR,
            decreases minimap_y + 150 - y,
        {
            let ghost prev = framebuffer.buffer@;
            framebuffer.point(x, y);
            proof {
                if fb0.in_bounds(x as int, y as int) {
                    assert(0 <= (y as int) * w + (x as int) < prev.len()) by (nonlinear_arith)
                        requires
                            0 <= (x as int) < w,
                            0 <= (y as int) < fb0.height,
                            prev.len() == w * fb0.height,
                    ;
                    lemma_pixel_coords(w, x as int, y as int);
                }
                assert forall|idx: int|
                    0 <= idx < framebuffer.buffer@.len()
                        && #[trigger] framebuffer.buffer@[idx] != fb0.buffer@[idx] implies {
                        &&& w - 230 <= idx % w
                        &&& fb0.height - 160 <= idx / w
                        &&& (fits ==> idx % w < w - 10 && idx / w < fb0.height - 10)
                    }
                by {
                    if framebuffer.buffer@[idx] == prev[idx] {
                        assert(prev[idx] != fb0.buffer@[idx]);
                    }
                }
                assert forall|px: int, py: int|
                    minimap_x <= px < x && minimap_y <= py < minimap_y + 150
                        && #[trigger] fb0.in_bounds(px, py)
                    implies framebuffer.pixel(px, py) == MINIMAP_BACK_COLOR
                by {
                    assert(0 <= py * w + px < prev.len()) by (nonlinear_arith)
                        requires
                            0 <= px < w,
                            0 <= py < fb0.height,
                            prev.len() == w * fb0.height,
                    ;
                    if fb0.in_bounds(x as int, y as int) {
                        lemma_pixel_coords(w, px, py);
                        lemma_pixel_coords(w, x as int, y as int);
                    }
                }
                assert forall|py: int|
                    minimap_y <= py < y + 1 && #[trigger] fb0.in_bounds(x as int, py)
                    implies framebuffer.pixel(x as int, py) == MINIMAP_BACK_COLOR
                by {
                    assert(0 <= py * w + (x as int) < prev.len()) by (nonlinear_arith)
                        requires
                            0 <= (x as int) < w,
                            0 <= py < fb0.height,
                            prev.len() == w * fb0.height,
                    ;
                    if fb0.in_bounds(x as int, y as int) {
                        lemma_pixel_coords(w, x as int, py);
                        lemma_pixel_coords(w, x as int, y as int);
                    }
                }
            }
            y = y + 1;
        }
        x = x + 1;
    }
    proof {
        assert(overlay_covered(fb0, *framebuffer));
    }

    let rows: usize = maze.len();
    if rows > 0 {
        proof {
            assert(0 < (rows as int) * (block_size as int) <= 409600000) by (nonlinear_arith)
                requires
                    0 < rows <= 4096,
                    0 < block_size <= 100000,
            ;
        }
        let denom: i64 = (rows as i64) * (block_size as i64);
        let mut row: usize = 0;
        while row < rows
            invariant
                row <= rows,
                rows == maze@.len(),
                0 < rows <= 4096,
                forall|j: int| 0 <= j < maze@.len() ==> (#[trigger] maze@[j])@.len() <= 4096,
                0 < block_size <= 100000,
                denom == rows * block_size,
                0 < denom <= 409600000,
                player.wf(),
                minimap_x == fb0.width - 230,
                minimap_y == fb0.height - 160,
                230 <= fb0.width <= 32768,
                160 <= fb0.height <= 32768,
                fb0.wf(),
                framebuffer.wf(),
                framebuffer.width == fb0.width,
                framebuffer.height == fb0.height,
                framebuffer.buffer@.len() == fb0.buffer@.len(),
                framebuffer.background_color == fb0.background_color,
                w == fb0.width,
                fits == minimap_grid_fits(grid_view(maze), player, block_size as int),
                m == grid_view(maze),
                overlay_confined(fb0, framebuffer.buffer@, fits),
                overlay_covered(fb0, *framebuffer),
                minimap_cells_drawn(fb0, *framebuffer, m, block_size as int, row as int, 0),
            decreases rows - row,
        {
            let cols: usize = maze[row].len();
            let mut col: usize = 0;
            while col < cols
                invariant
                    col <= cols,
                    row < rows,
                    rows == maze@.len(),
                    cols == maze@[row as int]@.len(),
                    0 < rows <= 4096,
                    cols <= 4096,
                    forall|j: int| 0 <= j < maze@.len() ==> (#[trigger] maze@[j])@.len() <= 4096,
                    0 < block_size <= 100000,
                    denom == rows * block_size,
                    0 < denom <= 409600000,
                    player.wf(),
                    minimap_x == fb0.width - 230,
                    minimap_y == fb0.height - 160,
                    230 <= fb0.width <= 32768,
                    160 <= fb0.height <= 32768,
                    fb0.wf(),
                    framebuffer.wf(),
                    framebuffer.width == fb0.width,
                    framebuffer.height == fb0.height,
                    framebuffer.buffer@.len() == fb0.buffer@.len(),
                    framebuffer.background_color == fb0.background_color,
                    w == fb0.width,
                    fits == minimap_grid_fits(grid_view(maze), player, block_size as int),
                    m == grid_view(maze),
                    overlay_confined(fb0, framebuffer.buffer@, fits),
                    overlay_covered(fb0, *framebuffer),
                    minimap_cells_drawn(fb0, *framebuffer, m, block_size as int, row as int, col as int),
                decreases cols - col,
            {
                proof {
                    assert((col as int) * (block_size as int) * 150 <= denom * ((col as int) * 150)
                        && 0 <= (col as int) * (block_size as int) * 150 <= 0x10000000000
                        && (row as int) * (block_size as int) * 150 <= denom * 150
                        && 0 <= (row as int) * (block_size as int) * 150 <= 0x10000000000
                        && (block_size as int) * 150 <= denom * 150) by (nonlinear_arith)
                        requires
                            0 <= (col as int) <= 4096,
                            0 <= (row as int) < rows,
                            0 < block_size <= 100000,
                            0 < rows <= 4096,
                            denom == rows * block_size,
                    ;
                    vstd::arithmetic::div_mod::lemma_multiply_divide_le(
                        (col as int) * (block_size as int) * 150,
                        denom as int,
                        (col as int) * 150,
                    );
                    vstd::arithmetic::div_mod::lemma_multiply_divide_le(
                        (row as int) * (block_size as int) * 150,
                        denom as int,
                        150,
                    );
                    vstd::arithmetic::div_mod::lemma_multiply_divide_le(
                        (block_size as int) * 150,
                        denom as int,
                        150,
                    );
                }
                let cell_x: usize = ((col as i64) * (block_size as i64) * 150 / denom) as usize;
                let cell_y: usize = ((row as i64) * (block_size as i64) * 150 / denom) as usize;
                let mini_block: usize = ((block_size as i64) * 150 / denom) as usize;

                proof {
                    // a strictly interior row keeps its scaled square inside
                    // the 150-pixel band
                    lemma_div_sum_le(
                        (row as int) * (block_size as int) * 150,
                        (block_size as int) * 150,
                        denom as int,
                    );
                    assert((row as int) * (block_size as int) * 150 + (block_size as int) * 150
                        == ((row as int) + 1) * (block_size as int) * 150) by (nonlinear_arith);
                    assert(((row as int) + 1) * (block_size as int) * 150 <= denom * 150)
                        by (nonlinear_arith)
                        requires
                            (row as int) + 1 <= rows,
                            0 < block_size,
                            denom == rows * block_size,
                    ;
                    vstd::arithmetic::div_mod::lemma_multiply_divide_le(
                        ((row as int) + 1) * (block_size as int) * 150,
                        denom as int,
                        150,
                    );
                    if fits {
                        lemma_div_sum_le(
                            (col as int) * (block_size as int) * 150,
                            (block_size as int) * 150,
                            denom as int,
                        );
                        assert((col as int) * (block_size as int) * 150 + (block_size as int) * 150
                            == ((col as int) + 1) * (block_size as int) * 150) by (nonlinear_arith);
                        assert(grid_view(maze)[row as int].len() <= rows);
                        assert(((col as int) + 1) * (block_size as int) * 150 <= denom * 150)
                            by (nonlinear_arith)
                            requires
                                (col as int) + 1 <= rows,
                                0 < block_size,
                                denom == rows * block_size,
                        ;
                        vstd::arithmetic::div_mod::lemma_multiply_divide_le(
                            ((col as int) + 1) * (block_size as int) * 150,
                            denom as int,
                            150,
                        );
                    }
                }

                let ghost prev = framebuffer.buffer@;
                let cell: char = maze[row][col];
                walls_minimap(
                    framebuffer,
                    minimap_x + cell_x,
                    minimap_y + cell_y,
                    mini_block,
                    cell,
                );
                proof {
                    assert forall|idx: int|
                        0 <= idx < framebuffer.buffer@.len()
                            && #[trigger] framebuffer.buffer@[idx] != fb0.buffer@[idx] implies {
                            &&& w - 230 <= idx % w
                            &&& fb0.height - 160 <= idx / w
                            &&& (fits ==> idx % w < w - 10 && idx / w < fb0.height - 10)
                        }
                    by {
                        if framebuffer.buffer@[idx] == prev[idx] {
                            assert(prev[idx] != fb0.buffer@[idx]);
                        }
                    }
                    assert forall|px: int, py: int|
                        fb0.width - 230 <= px < fb0.width - 10
                            && fb0.height - 160 <= py < fb0.height - 10
                            && #[trigger] fb0.in_bounds(px, py)
                        implies {
                            ||| framebuffer.pixel(px, py) == MINIMAP_BACK_COLOR
                            ||| framebuffer.pixel(px, py) == WALL_BLOCK_COLOR
                            ||| framebuffer.pixel(px, py) == 0xFFFFFFu32
                        }
                    by {
                        assert(0 <= py * w + px < prev.len()) by (nonlinear_arith)
                            requires
                                0 <= px < w,
                                0 <= py < fb0.height,
                                prev.len() == w * fb0.height,
                        ;
                        lemma_pixel_coords(w, px, py);
                    }
                    assert forall|r: int, c: int, qx: int, qy: int|
                        #![trigger grid_cell(m, c, r), fb0.in_bounds(qx, qy)]
                        ({
                            let dn = m.len() * (block_size as int);
                            let mx = fb0.width - 230;
                            let my = fb0.height - 160;
                            let cx = mx + c * block_size * 150 / dn;
                            let cy = my + r * block_size * 150 / dn;
                            let mini = (block_size as int) * 150 / dn;
                            (0 <= r && 0 <= c
                                && (r < row || (r == row && c < col + 1))
                                && grid_blocked(m, c, r) && cx <= qx < cx + mini
                                && cy <= qy < cy + mini && fb0.in_bounds(qx, qy))
                        }) implies framebuffer.pixel(qx, qy) == WALL_BLOCK_COLOR
                    by {
                        assert(0 <= qy * w + qx < prev.len()) by (nonlinear_arith)
                            requires
                                0 <= qx < w,
                                0 <= qy < fb0.height,
                                prev.len() == w * fb0.height,
                        ;
                        lemma_pixel_coords(w, qx, qy);
                        if r == row && c == col {
                            assert(cell == m[r][c] && cell != OPEN_CELL);
                        } else {
                            assert((r < row || (r == row && c < col)));
                        }
                    }
                }
                col = col + 1;
            }
            row = row + 1;
        }

        framebuffer.set_current_color(0xFFFFFF);
        let px_units: i64 = player.pos.x / 1024;
        let py_units: i64 = player.pos.y / 1024;
        proof {
            vstd::arithmetic::div_mod::lemma_div_pos_is_pos(player.pos.x as int, 1024);
            vstd::arithmetic::div_mod::lemma_div_pos_is_pos(player.pos.y as int, 1024);
            vstd::arithmetic::div_mod::lemma_div_is_ordered(player.pos.x as int, 0x2000000, 1024);
            vstd::arithmetic::div_mod::lemma_div_is_ordered(player.pos.y as int, 0x2000000, 1024);
            assert(0 <= px_units * 150 <= 0x10000000000 && 0 <= py_units * 150 <= 0x10000000000)
                by (nonlinear_arith)
                requires
                    0 <= px_units <= 0x2000000,
                    0 <= py_units <= 0x2000000,
            ;
            vstd::arithmetic::div_mod::lemma_div_pos_is_pos(px_units * 150, denom as int);
            vstd::arithmetic::div_mod::lemma_div_pos_is_pos(py_units * 150, denom as int);
            if fits {
                assert(px_units * 150 < denom * 150 && py_units * 150 < denom * 150)
                    by (nonlinear_arith)
                    requires
                        px_units < denom,
                        py_units < denom,
                        0 <= px_units,
                        0 <= py_units,
                        0 < denom,
                ;
                lemma_multiply_divide_lt(px_units * 150, denom as int, 150);
                lemma_multiply_divide_lt(py_units * 150, denom as int, 150);
            }
            assert(px_units * 150 <= denom * 0x10000000000) by (nonlinear_arith)
                requires
                    0 <= px_units * 150 <= 0x10000000000,
                    0 < denom,
            ;
            assert(py_units * 150 <= denom * 0x10000000000) by (nonlinear_arith)
                requires
                    0 <= py_units * 150 <= 0x10000000000,
                    0 < denom,
            ;
            vstd::arithmetic::div_mod::lemma_multiply_divide_le(
                px_units * 150,
                denom as int,
                0x10000000000,
            );
            vstd::arithmetic::div_mod::lemma_multiply_divide_le(
                py_units * 150,
                denom as int,
                0x10000000000,
            );
        }
        let player_x: usize = (px_units * 150 / denom) as usize;
        let player_y: usize = (py_units * 150 / denom) as usize;
        let ghost prev = framebuffer.buffer@;
        let mark_x: usize = if player_x <= 0x7FFFFFFF - minimap_x {
            minimap_x + player_x
        } else {
            framebuffer.width
        };
        let mark_y: usize = if player_y <= 0x7FFFFFFF - minimap_y {
            minimap_y + player_y
        } else {
            framebuffer.height
        };
        framebuffer.point(mark_x, mark_y);
        proof {
            if fb0.in_bounds(mark_x as int, mark_y as int) {
                assert(0 <= (mark_y as int) * w + (mark_x as int) < prev.len())
                    by (nonlinear_arith)
                    requires
                        0 <= (mark_x as int) < w,
                        0 <= (mark_y as int) < fb0.height,
                        prev.len() == w * fb0.height,
                ;
                lemma_pixel_coords(w, mark_x as int, mark_y as int);
            }
            assert forall|idx: int|
                0 <= idx < framebuffer.buffer@.len()
                    && #[trigger] framebuffer.buffer@[idx] != fb0.buffer@[idx] implies {
                    &&& w - 230 <= idx % w
                    &&& fb0.height - 160 <= idx / w
                    &&& (fits ==> idx % w < w - 10 && idx / w < fb0.height - 10)
                }
            by {
                if framebuffer.buffer@[idx] == prev[idx] {
                    assert(prev[idx] != fb0.buffer@[idx]);
                }
            }
            assert forall|px: int, py: int|
                fb0.width - 230 <= px < fb0.width - 10
                    && fb0.height - 160 <= py < fb0.height - 10
                    && #[trigger] fb0.in_bounds(px, py)
                implies {
                    ||| framebuffer.pixel(px, py) == MINIMAP_BACK_COLOR
                    ||| framebuffer.pixel(px, py) == WALL_BLOCK_COLOR
                    ||| framebuffer.pixel(px, py) == 0xFFFFFFu32
                }
            by {
                assert(0 <= py * w + px < prev.len()) by (nonlinear_arith)
                    requires
                        0 <= px < w,
                        0 <= py < fb0.height,
                        prev.len() == w * fb0.height,
                ;
                lemma_pixel_coords(w, px, py);
            }
            assert forall|r: int, c: int, qx: int, qy: int|
                #![trigger grid_cell(m, c, r), fb0.in_bounds(qx, qy)]
                ({
                    let dn = m.len() * (block_size as int);
                    let mx = fb0.width - 230;
                    let my = fb0.height - 160;
                    let cx = mx + c * block_size * 150 / dn;
                    let cy = my + r * block_size * 150 / dn;
                    let mini = (block_size as int) * 150 / dn;
                    (0 <= r && 0 <= c && grid_blocked(m, c, r) && cx <= qx < cx + mini
                        && cy <= qy < cy + mini && fb0.in_bounds(qx, qy))
                }) implies framebuffer.pixel(qx, qy) == WALL_BLOCK_COLOR
                    || framebuffer.pixel(qx, qy) == 0xFFFFFFu32
            by {
                assert(0 <= qy * w + qx < prev.len()) by (nonlinear_arith)
                    requires
                        0 <= qx < w,
                        0 <= qy < fb0.height,
                        prev.len() == w * fb0.height,
                ;
                lemma_pixel_coords(w, qx, qy);
                assert(r < rows);
            }
            if fb0.in_bounds(mark_x as int, mark_y as int) {
                assert(framebuffer.pixel(mark_x as int, mark_y as int) == 0xFFFFFFu32);
            }
        }
    }
}

/// Every on-canvas pixel of a processed non-open cell's full-scale block
/// shows the wall color on the top-down overview: rows before `limit_r`
/// wholly processed, row `limit_r` up to column `limit_c`.
spec fn topdown_cells_drawn(
    fb0: Framebuffer,
    fb: Framebuffer,
    m: Seq<Seq<char>>,
    block: int,
    limit_r: int,
    limit_c: int,
) -> bool {
    forall|r: int, c: int, qx: int, qy: int|
        #![trigger grid_cell(m, c, r), fb0.in_bounds(qx, qy)]
        (0 <= r && 0 <= c && (r < limit_r || (r == limit_r && c < limit_c))
            && grid_blocked(m, c, r) && c * block <= qx < c * block + block
            && r * block <= qy < r * block + block && fb0.in_bounds(qx, qy))
            ==> fb.pixel(qx, qy) == WALL_BLOCK_COLOR
}

/// The angle of ray `i` of the top-down overview's 150-ray view fan.
pub open spec fn fan_angle(player: &Player, i: int) -> int {
    player.a - (player.fov as int) / 2 + ((player.fov as int) * i) / 150
}

/// The point fan ray `i` samples at step `t`.
pub open spec fn fan_point(player: &Player, i: int, t: int) -> (int, int) {
    crate::raycast::ray_point(
        player.pos.x as int,
        player.pos.y as int,
        crate::fixmath::cos_fp(fan_angle(player, i)),
        crate::fixmath::sin_fp(fan_angle(player, i)),
        t,
    )
}

/// The last step fan ray `i` walks over grid `m`.
pub open spec fn fan_last_step(m: Seq<Seq<char>>, player: &Player, block: int, i: int) -> int {
    crate::raycast::last_step(
        m,
        player.pos.x as int,
        player.pos.y as int,
        crate::fixmath::cos_fp(fan_angle(player, i)),
        crate::fixmath::sin_fp(fan_angle(player, i)),
        block,
    )
}

/// Draws the full-scale top-down overview: every grid cell as a filled
/// block, the player as a single white pixel, and a fan of recorded
/// raycasts visualizing the field of view.
pub fn maze_to_minimap(
    framebuffer: &mut Framebuffer,
    maze: &Vec<Vec<char>>,
    player: &Player,
    block_size: usize,
)
    requires
        old(framebuffer).wf(),
        old(framebuffer).width <= 32768,
        old(framebuffer).height <= 32768,
        player.wf(),
        0 < block_size <= 100000,
        maze@.len() <= 4096,
        forall|j: int| 0 <= j < maze@.len() ==> (#[trigger] maze@[j])@.len() <= 4096,
    ensures
        final(framebuffer).wf(),
        final(framebuffer).width == old(framebuffer).width,
        final(framebuffer).height == old(framebuffer).height,
        final(framebuffer).buffer@.len() == old(framebuffer).buffer@.len(),
        final(framebuffer).background_color == old(framebuffer).background_color,
        forall|idx: int|
            0 <= idx < final(framebuffer).buffer@.len()
                && #[trigger] final(framebuffer).buffer@[idx] != old(framebuffer).buffer@[idx]
                ==> final(framebuffer).buffer@[idx] == WALL_BLOCK_COLOR
                    || final(framebuffer).buffer@[idx] == 0xFFFFFFu32,
        old(framebuffer).in_bounds((player.pos.x as int) / 1024, (player.pos.y as int) / 1024)
            ==> final(framebuffer).pixel(
                (player.pos.x as int) / 1024,
                (player.pos.y as int) / 1024,
            ) == 0xFFFFFFu32,
        // every non-open cell's block is painted: wall color, with only the
        // white player marker and ray fan allowed over it
        forall|r: int, c: int, qx: int, qy: int|
            #![trigger grid_cell(grid_view(maze), c, r), old(framebuffer).in_bounds(qx, qy)]
            (0 <= r && 0 <= c && grid_blocked(grid_view(maze), c, r)
                && c * block_size <= qx < c * block_size + block_size
                && r * block_size <= qy < r * block_size + block_size
                && old(framebuffer).in_bounds(qx, qy))
                ==> final(framebuffer).pixel(qx, qy) == WALL_BLOCK_COLOR
                    || final(framebuffer).pixel(qx, qy) == 0xFFFFFFu32,
        // every in-bounds sample of every fan ray, up to its strike, is
        // plotted white
        forall|i: int, t: int|
            #![trigger fan_point(player, i, t)]
            0 <= i < 150 && 0 <= t <= fan_last_step(grid_view(maze), player, block_size as int, i)
                && old(framebuffer).in_bounds(fan_point(player, i, t).0, fan_point(player, i, t).1)
                ==> final(framebuffer).pixel(
                    fan_point(player, i, t).0,
                    fan_point(player, i, t).1,
                ) == 0xFFFFFFu32,
{
    let ghost fb0 = *old(framebuffer);
    let ghost m = grid_view(maze);
    let ghost gpx = (player.pos.x as int) / 1024;
    let ghost gpy = (player.pos.y as int) / 1024;
    let rows: usize = maze.len();
    let mut row: usize = 0;
    while row < rows
        invariant
            row <= rows,
            rows == maze@.len(),
            rows <= 4096,
            forall|j: int| 0 <= j < maze@.len() ==> (#[trigger] maze@[j])@.len() <= 4096,
            0 < block_size <= 100000,
            framebuffer.wf(),
            framebuffer.width == old(framebuffer).width,
            framebuffer.height == old(framebuffer).height,
            framebuffer.buffer@.len() == old(framebuffer).buffer@.len(),
            framebuffer.background_color == old(framebuffer).background_color,
            fb0 == *old(framebuffer),
            m == grid_view(maze),
            forall|idx: int|
                0 <= idx < framebuffer.buffer@.len()
                    && #[trigger] framebuffer.buffer@[idx] != fb0.buffer@[idx]
                    ==> framebuffer.buffer@[idx] == WALL_BLOCK_COLOR
                        || framebuffer.buffer@[idx] == 0xFFFFFFu32,
            topdown_cells_drawn(fb0, *framebuffer, m, block_size as int, row as int, 0),
        decreases rows - row,
    {
        let cols: usize = maze[row].len();
        let mut col: usize = 0;
        while col < cols
            invariant
                col <= cols,
                row < rows,
                rows == maze@.len(),
                rows <= 4096,
                cols == maze@[row as int]@.len(),
                cols <= 4096,
                0 < block_size <= 100000,
                framebuffer.wf(),
                framebuffer.width == old(framebuffer).width,
                framebuffer.height == old(framebuffer).height,
                framebuffer.buffer@.len() == old(framebuffer).buffer@.len(),
                framebuffer.background_color == old(framebuffer).background_color,
                fb0 == *old(framebuffer),
                m == grid_view(maze),
                forall|idx: int|
                    0 <= idx < framebuffer.buffer@.len()
                        && #[trigger] framebuffer.buffer@[idx] != fb0.buffer@[idx]
                        ==> framebuffer.buffer@[idx] == WALL_BLOCK_COLOR
                            || framebuffer.buffer@[idx] == 0xFFFFFFu32,
                topdown_cells_drawn(fb0, *framebuffer, m, block_size as int, row as int, col as int),
            decreases cols - col,
        {
            proof {
                assert(0 <= (col as int) * (block_size as int) <= 409600000
                    && 0 <= (row as int) * (block_size as int) <= 409600000)
                    by (nonlinear_arith)
                    requires
                        0 <= col <= 4096,
                        0 <= row <= 4096,
                        0 < block_size <= 100000,
                ;
            }
            let cell: char = maze[row][col];
            let ghost prev = framebuffer.buffer@;
            walls_minimap(framebuffer, col * block_size, row * block_size, block_size, cell);
            proof {
                assert forall|idx: int|
                    0 <= idx < framebuffer.buffer@.len()
                        && #[trigger] framebuffer.buffer@[idx] != fb0.buffer@[idx]
                    implies framebuffer.buffer@[idx] == WALL_BLOCK_COLOR
                        || framebuffer.buffer@[idx] == 0xFFFFFFu32
                by {
                    if framebuffer.buffer@[idx] == prev[idx] {
                        assert(prev[idx] != fb0.buffer@[idx]);
                    }
                }
                assert forall|r: int, c: int, qx: int, qy: int|
                    #![trigger grid_cell(m, c, r), fb0.in_bounds(qx, qy)]
                    (0 <= r && 0 <= c && (r < row || (r == row && c < col + 1))
                        && grid_blocked(m, c, r)
                        && c * block_size <= qx < c * block_size + block_size
                        && r * block_size <= qy < r * block_size + block_size
                        && fb0.in_bounds(qx, qy))
                    implies framebuffer.pixel(qx, qy) == WALL_BLOCK_COLOR
                by {
                    assert(0 <= qy * (fb0.width as int) + qx < prev.len()) by (nonlinear_arith)
                        requires
                            0 <= qx < fb0.width,
                            0 <= qy < fb0.height,
                            prev.len() == fb0.width * fb0.height,
                    ;
                    lemma_pixel_coords(fb0.width as int, qx, qy);
                    if r == row && c == col {
                        assert(cell == m[r][c] && cell != OPEN_CELL);
                    } else {
                        assert((r < row || (r == row && c < col)));
                    }
                }
            }
            col = col + 1;
        }
        row = row + 1;
    }

    framebuffer.set_current_color(0xFFFFFF);
    proof {
        vstd::arithmetic::div_mod::lemma_div_pos_is_pos(player.pos.x as int, 1024);
        vstd::arithmetic::div_mod::lemma_div_pos_is_pos(player.pos.y as int, 1024);
        vstd::arithmetic::div_mod::lemma_div_is_ordered(player.pos.x as int, 0x2000000, 1024);
        vstd::arithmetic::div_mod::lemma_div_is_ordered(player.pos.y as int, 0x2000000, 1024);
    }
    let px: usize = (player.pos.x / 1024) as usize;
    let py: usize = (player.pos.y / 1024) as usize;
    let ghost prev_mark = framebuffer.buffer@;
    framebuffer.point(px, py);
    proof {
        assert(px == gpx && py == gpy);
        if fb0.in_bounds(px as int, py as int) {
            assert(0 <= (py as int) * fb0.width + (px as int) < prev_mark.len())
                by (nonlinear_arith)
                requires
                    0 <= (px as int) < fb0.width,
                    0 <= (py as int) < fb0.height,
                    prev_mark.len() == fb0.width * fb0.height,
        ;
            assert(framebuffer.pixel(gpx, gpy) == 0xFFFFFFu32);
        }
        assert forall|r: int, c: int, qx: int, qy: int|
            #![trigger grid_cell(m, c, r), fb0.in_bounds(qx, qy)]
            (0 <= r && 0 <= c && grid_blocked(m, c, r)
                && c * block_size <= qx < c * block_size + block_size
                && r * block_size <= qy < r * block_size + block_size
                && fb0.in_bounds(qx, qy))
            implies framebuffer.pixel(qx, qy) == WALL_BLOCK_COLOR
                || framebuffer.pixel(qx, qy) == 0xFFFFFFu32
        by {
            assert(0 <= qy * (fb0.width as int) + qx < prev_mark.len()) by (nonlinear_arith)
                requires
                    0 <= qx < fb0.width,
                    0 <= qy < fb0.height,
                    prev_mark.len() == fb0.width * fb0.height,
            ;
            lemma_pixel_coords(fb0.width as int, qx, qy);
            assert(r < rows);
        }
        assert forall|idx: int|
            0 <= idx < framebuffer.buffer@.len()
                && #[trigger] framebuffer.buffer@[idx] != fb0.buffer@[idx]
            implies framebuffer.buffer@[idx] == WALL_BLOCK_COLOR
                || framebuffer.buffer@[idx] == 0xFFFFFFu32
        by {
            if framebuffer.buffer@[idx] == prev_mark[idx] {
                assert(prev_mark[idx] != fb0.buffer@[idx]);
            }
        }
    }

    let mut i: usize = 0;
    while i < FAN_RAYS
        invariant
            i <= FAN_RAYS,
            player.wf(),
            0 < block_size <= 100000,
            framebuffer.wf(),
            framebuffer.width == old(framebuffer).width,
            framebuffer.height == old(framebuffer).height,
            framebuffer.buffer@.len() == old(framebuffer).buffer@.len(),
            framebuffer.background_color == old(framebuffer).background_color,
            fb0 == *old(framebuffer),
            m == grid_view(maze),
            rows == maze@.len(),
            gpx == (player.pos.x as int) / 1024,
            gpy == (player.pos.y as int) / 1024,
            forall|idx: int|
                0 <= idx < framebuffer.buffer@.len()
                    && #[trigger] framebuffer.buffer@[idx] != fb0.buffer@[idx]
                    ==> framebuffer.buffer@[idx] == WALL_BLOCK_COLOR
                        || framebuffer.buffer@[idx] == 0xFFFFFFu32,
            fb0.in_bounds(gpx, gpy) ==> framebuffer.pixel(gpx, gpy) == 0xFFFFFFu32,
            forall|r: int, c: int, qx: int, qy: int|
                #![trigger grid_cell(m, c, r), fb0.in_bounds(qx, qy)]
                (0 <= r && 0 <= c && grid_blocked(m, c, r)
                    && c * block_size <= qx < c * block_size + block_size
                    && r * block_size <= qy < r * block_size + block_size
                    && fb0.in_bounds(qx, qy))
                    ==> framebuffer.pixel(qx, qy) == WALL_BLOCK_COLOR
                        || framebuffer.pixel(qx, qy) == 0xFFFFFFu32,
            forall|i2: int, t: int|
                #![trigger fan_point(player, i2, t)]
                0 <= i2 < i && 0 <= t <= fan_last_step(m, player, block_size as int, i2)
                    && fb0.in_bounds(fan_point(player, i2, t).0, fan_point(player, i2, t).1)
                    ==> framebuffer.pixel(
                        fan_point(player, i2, t).0,
                        fan_point(player, i2, t).1,
                    ) == 0xFFFFFFu32,
        decreases FAN_RAYS - i,
    {
        proof {
            assert(0 <= (player.fov as int) * (i as int) <= 270000) by (nonlinear_arith)
                requires
                    0 < player.fov <= 1800,
                    0 <= i < 150,
            ;
            vstd::arithmetic::div_mod::lemma_div_pos_is_pos((player.fov as int) * (i as int), 150);
            vstd::arithmetic::div_mod::lemma_div_is_ordered(
                (player.fov as int) * (i as int),
                270000,
                150,
            );
        }
        let a: i64 = player.a - player.fov / 2 + player.fov * (i as i64) / 150;
        let ghost prev_cast = framebuffer.buffer@;
        cast_ray(framebuffer, maze, player, a, block_size, true);
        proof {
            assert(a == fan_angle(player, i as int));
            if fb0.in_bounds(gpx, gpy) {
                assert(0 <= gpy * fb0.width + gpx < prev_cast.len()) by (nonlinear_arith)
                    requires
                        0 <= gpx < fb0.width,
                        0 <= gpy < fb0.height,
                        prev_cast.len() == fb0.width * fb0.height,
                ;
                assert(framebuffer.pixel(gpx, gpy) == 0xFFFFFFu32);
            }
            assert forall|idx: int|
                0 <= idx < framebuffer.buffer@.len()
                    && #[trigger] framebuffer.buffer@[idx] != fb0.buffer@[idx]
                implies framebuffer.buffer@[idx] == WALL_BLOCK_COLOR
                    || framebuffer.buffer@[idx] == 0xFFFFFFu32
            by {
                if framebuffer.buffer@[idx] == prev_cast[idx] {
                    assert(prev_cast[idx] != fb0.buffer@[idx]);
                }
            }
            assert forall|r: int, c: int, qx: int, qy: int|
                #![trigger grid_cell(m, c, r), fb0.in_bounds(qx, qy)]
                (0 <= r && 0 <= c && grid_blocked(m, c, r)
                    && c * block_size <= qx < c * block_size + block_size
                    && r * block_size <= qy < r * block_size + block_size
                    && fb0.in_bounds(qx, qy))
                implies framebuffer.pixel(qx, qy) == WALL_BLOCK_COLOR
                    || framebuffer.pixel(qx, qy) == 0xFFFFFFu32
            by {
                assert(0 <= qy * (fb0.width as int) + qx < prev_cast.len()) by (nonlinear_arith)
                    requires
                        0 <= qx < fb0.width,
                        0 <= qy < fb0.height,
                        prev_cast.len() == fb0.width * fb0.height,
                ;
                lemma_pixel_coords(fb0.width as int, qx, qy);
            }
            assert forall|i2: int, t: int|
                #![trigger fan_point(player, i2, t)]
                0 <= i2 < i + 1 && 0 <= t <= fan_last_step(m, player, block_size as int, i2)
                    && fb0.in_bounds(fan_point(player, i2, t).0, fan_point(player, i2, t).1)
                implies framebuffer.pixel(
                    fan_point(player, i2, t).0,
                    fan_point(player, i2, t).1,
                ) == 0xFFFFFFu32
            by {
                let rp = fan_point(player, i2, t);
                assert(0 <= rp.1 * (fb0.width as int) + rp.0 < prev_cast.len())
                    by (nonlinear_arith)
                    requires
                        0 <= rp.0 < fb0.width,
                        0 <= rp.1 < fb0.height,
                        prev_cast.len() == fb0.width * fb0.height,
                ;
                if i2 < i {
                    lemma_pixel_coords(fb0.width as int, rp.0, rp.1);
                }
            }
        }
        i = i + 1;
    }
}

} // verus!

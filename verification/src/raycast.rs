use vstd::prelude::*;
use vstd::arithmetic::div_mod::lemma_mod_bound;
use vstd::arithmetic::div_mod::lemma_multiply_divide_lt;
use crate::fixmath::FP_ONE;
use crate::fixmath::cos_deg10;
use crate::fixmath::cos_fp;
use crate::fixmath::lemma_trig_anchors;
use crate::fixmath::sin_deg10;
use crate::fixmath::sin_fp;
use crate::framebuffer::Framebuffer;
use crate::grid::OPEN_CELL;
use crate::grid::grid_blocked;
use crate::grid::grid_cell;
use crate::grid::grid_lookup;
use crate::grid::grid_view;
use crate::player::Player;

verus! {

/// World units the ray advances per sample.
pub const CAST_STEP: i64 = 2;

/// Samples a cast takes before it gives up, the explicit traversal guard.
pub const MAX_CAST_STEPS: i64 = 50000;

/// The large-but-finite distance reported when a ray exhausts its guard
/// without striking a wall: `CAST_STEP * MAX_CAST_STEPS`.
pub const MAX_CAST_DISTANCE: i64 = 100000;

/// Texels per row and per column of a canonical wall tile.
pub const TEX_SIZE: usize = 128;

/// The result of one cast: the distance walked to the strike, the cell
/// symbol struck, and the texture column the strike falls in.
pub struct Intersect {
    pub distance: i64,
    pub impact: char,
    pub tx: usize,
}

/// The world-unit coordinate sampled after walking `d` units from `p` along
/// an axis whose fixed-point direction component is `trig`: negative sample
/// points clamp to the axis, as the walkers never leave the non-negative
/// quarter plane.
pub open spec fn sample_coord(p: int, d: int, trig: int) -> int {
    let s = p + d * trig;
    if s < 0 {
        0
    } else {
        s / (FP_ONE as int)
    }
}

/// The cell the sample at distance `d` falls in, if the grid defines one.
pub open spec fn ray_cell(
    m: Seq<Seq<char>>,
    px: int,
    py: int,
    cosv: int,
    sinv: int,
    block: int,
    d: int,
) -> Option<char> {
    grid_cell(m, sample_coord(px, d, cosv) / block, sample_coord(py, d, sinv) / block)
}

/// The sample at distance `d` lands in a defined, non-traversable cell.
pub open spec fn ray_hits(
    m: Seq<Seq<char>>,
    px: int,
    py: int,
    cosv: int,
    sinv: int,
    block: int,
    d: int,
) -> bool {
    grid_blocked(m, sample_coord(px, d, cosv) / block, sample_coord(py, d, sinv) / block)
}

/// The sample at step index `t` — distance `t * CAST_STEP` — strikes a wall.
pub open spec fn hits_step(
    m: Seq<Seq<char>>,
    px: int,
    py: int,
    cosv: int,
    sinv: int,
    block: int,
    t: int,
) -> bool {
    ray_hits(m, px, py, cosv, sinv, block, t * CAST_STEP)
}

/// The first sample index at or after `k` whose cell is a wall, up to the
/// traversal guard.
pub open spec fn first_hit_from(
    m: Seq<Seq<char>>,
    px: int,
    py: int,
    cosv: int,
    sinv: int,
    block: int,
    k: int,
) -> Option<int>
    decreases MAX_CAST_STEPS - k + 1 when 0 <= k <= MAX_CAST_STEPS + 1
{
    if k > MAX_CAST_STEPS {
        None
    } else if hits_step(m, px, py, cosv, sinv, block, k) {
        Some(k)
    } else {
        first_hit_from(m, px, py, cosv, sinv, block, k + 1)
    }
}

/// The first sample index whose cell is a wall, if the ray strikes one
/// before the traversal guard runs out.
pub open spec fn first_hit(
    m: Seq<Seq<char>>,
    px: int,
    py: int,
    cosv: int,
    sinv: int,
    block: int,
) -> Option<int> {
    first_hit_from(m, px, py, cosv, sinv, block, 0)
}

/// The world-unit point the cast samples at step `k`.
pub open spec fn ray_point(px: int, py: int, cosv: int, sinv: int, k: int) -> (int, int) {
    (sample_coord(px, k * CAST_STEP, cosv), sample_coord(py, k * CAST_STEP, sinv))
}

/// The last step index a cast walks: the striking step, or the whole
/// guard when nothing is struck.
pub open spec fn last_step(
    m: Seq<Seq<char>>,
    px: int,
    py: int,
    cosv: int,
    sinv: int,
    block: int,
) -> int {
    match first_hit(m, px, py, cosv, sinv, block) {
        Some(k) => k,
        None => MAX_CAST_STEPS as int,
    }
}

/// The texture column a strike at distance `d` maps to: of the two
/// sub-cell offsets, the one not sitting on a cell edge picks the wall face,
/// and is rescaled from `block` world units to `TEX_SIZE` texels.
pub open spec fn tx_spec(px: int, py: int, cosv: int, sinv: int, block: int, d: int) -> int {
    let x = sample_coord(px, d, cosv);
    let y = sample_coord(py, d, sinv);
    let hitx = x % block;
    let hity = y % block;
    let basis = if hitx > 1 && hitx < block - 1 {
        hitx
    } else {
        hity
    };
    basis * (TEX_SIZE as int) / block
}

proof fn lemma_first_hit_found(
    m: Seq<Seq<char>>,
    px: int,
    py: int,
    cosv: int,
    sinv: int,
    block: int,
    j: int,
    k: int,
)
    requires
        0 <= j <= k <= MAX_CAST_STEPS,
        forall|t: int| j <= t < k ==> !#[trigger] hits_step(m, px, py, cosv, sinv, block, t),
        hits_step(m, px, py, cosv, sinv, block, k),
    ensures
        first_hit_from(m, px, py, cosv, sinv, block, j) == Some(k),
    decreases k - j,
{
    if j < k {
        lemma_first_hit_found(m, px, py, cosv, sinv, block, j + 1, k);
    }
}

proof fn lemma_first_hit_missed(
    m: Seq<Seq<char>>,
    px: int,
    py: int,
    cosv: int,
    sinv: int,
    block: int,
    j: int,
)
    requires
        0 <= j <= MAX_CAST_STEPS + 1,
        forall|t: int| j <= t <= MAX_CAST_STEPS
            ==> !#[trigger] hits_step(m, px, py, cosv, sinv, block, t),
    ensures
        first_hit_from(m, px, py, cosv, sinv, block, j) == None::<int>,
    decreases MAX_CAST_STEPS - j + 1,
{
    if j <= MAX_CAST_STEPS {
        lemma_first_hit_missed(m, px, py, cosv, sinv, block, j + 1);
    }
}

/// Steps a ray outward from the player position along the direction of
/// angle `a`, in `CAST_STEP`-unit increments, until it strikes the first
/// non-traversable cell; `draw_line` additionally plots every sampled point
/// in white. A ray that exhausts the traversal guard — possible only when
/// the maze is not wall-enclosed — reports a large-but-finite distance and
/// an open-cell strike.
pub fn cast_ray(
    framebuffer: &mut Framebuffer,
    maze: &Vec<Vec<char>>,
    player: &Player,
    a: i64,
    block_size: usize,
    draw_line: bool,
) -> (r: Intersect)
    requires
        old(framebuffer).wf(),
        player.wf(),
        0 < block_size <= 100000,
        -100000 <= a <= 100000,
    ensures
        final(framebuffer).wf(),
        final(framebuffer).width == old(framebuffer).width,
        final(framebuffer).height == old(framebuffer).height,
        final(framebuffer).buffer@.len() == old(framebuffer).buffer@.len(),
        final(framebuffer).background_color == old(framebuffer).background_color,
        final(framebuffer).current_color == 0xFFFFFFu32,
        !draw_line ==> final(framebuffer).buffer@ == old(framebuffer).buffer@,
        forall|idx: int|
            0 <= idx < final(framebuffer).buffer@.len()
                && final(framebuffer).buffer@[idx] != old(framebuffer).buffer@[idx]
                ==> final(framebuffer).buffer@[idx] == 0xFFFFFFu32,
        draw_line ==> ({
            let m = grid_view(maze);
            let cosv = cos_fp(a as int);
            let sinv = sin_fp(a as int);
            let px = player.pos.x as int;
            let py = player.pos.y as int;
            let b = block_size as int;
            let kend = last_step(m, px, py, cosv, sinv, b);
            // every in-bounds sample up to and including the last step is
            // plotted white ...
            &&& forall|t: int|
                #![trigger ray_point(px, py, cosv, sinv, t)]
                0 <= t <= kend && old(framebuffer).in_bounds(
                    ray_point(px, py, cosv, sinv, t).0,
                    ray_point(px, py, cosv, sinv, t).1,
                ) ==> final(framebuffer).pixel(
                    ray_point(px, py, cosv, sinv, t).0,
                    ray_point(px, py, cosv, sinv, t).1,
                ) == 0xFFFFFFu32
            // ... and nothing but sample points changes
            &&& forall|idx: int|
                0 <= idx < final(framebuffer).buffer@.len()
                    && #[trigger] final(framebuffer).buffer@[idx] != old(framebuffer).buffer@[idx]
                    ==> exists|t: int|
                        #![trigger ray_point(px, py, cosv, sinv, t)]
                        0 <= t <= kend && ({
                            let rp = ray_point(px, py, cosv, sinv, t);
                            &&& old(framebuffer).in_bounds(rp.0, rp.1)
                            &&& idx == rp.1 * old(framebuffer).width + rp.0
                        })
        }),
        ({
            let m = grid_view(maze);
            let cosv = cos_fp(a as int);
            let sinv = sin_fp(a as int);
            let px = player.pos.x as int;
            let py = player.pos.y as int;
            let b = block_size as int;
            match first_hit(m, px, py, cosv, sinv, b) {
                Some(k) => {
                    &&& r.distance == k * CAST_STEP
                    &&& ray_cell(m, px, py, cosv, sinv, b, k * CAST_STEP) == Some(r.impact)
                    &&& r.impact != OPEN_CELL
                    &&& r.tx == tx_spec(px, py, cosv, sinv, b, k * CAST_STEP)
                },
                None => {
                    &&& r.distance == MAX_CAST_DISTANCE
                    &&& r.impact == OPEN_CELL
                    &&& r.tx == 0
                },
            }
        }),
        r.tx < TEX_SIZE,
        0 <= r.distance <= MAX_CAST_DISTANCE,
{
    framebuffer.set_current_color(0xFFFFFF);
    let cos_a: i64 = cos_deg10(a);
    let sin_a: i64 = sin_deg10(a);
    let ghost fb0 = *framebuffer;
    let ghost m = grid_view(maze);
    let ghost px = player.pos.x as int;
    let ghost py = player.pos.y as int;
    let ghost b = block_size as int;

    let mut k: i64 = 0;
    while k <= MAX_CAST_STEPS
        invariant
            0 <= k <= MAX_CAST_STEPS + 1,
            player.wf(),
            0 < block_size <= 100000,
            -100000 <= a <= 100000,
            cos_a == cos_fp(a as int),
            -FP_ONE <= cos_a <= FP_ONE,
            sin_a == sin_fp(a as int),
            -FP_ONE <= sin_a <= FP_ONE,
            m == grid_view(maze),
            px == player.pos.x as int,
            py == player.pos.y as int,
            b == block_size as int,
            fb0.wf(),
            fb0.width == old(framebuffer).width,
            fb0.height == old(framebuffer).height,
            fb0.buffer@ == old(framebuffer).buffer@,
            fb0.background_color == old(framebuffer).background_color,
            fb0.current_color == 0xFFFFFFu32,
            framebuffer.wf(),
            framebuffer.same_frame(&fb0),
            !draw_line ==> framebuffer.buffer@ == fb0.buffer@,
            forall|idx: int|
                0 <= idx < framebuffer.buffer@.len()
                    && framebuffer.buffer@[idx] != fb0.buffer@[idx]
                    ==> framebuffer.buffer@[idx] == 0xFFFFFFu32,
            forall|t: int| 0 <= t < k
                ==> !#[trigger] hits_step(m, px, py, cos_a as int, sin_a as int, b, t),
            draw_line ==> forall|t: int|
                #![trigger ray_point(px, py, cos_a as int, sin_a as int, t)]
                0 <= t < k && fb0.in_bounds(
                    ray_point(px, py, cos_a as int, sin_a as int, t).0,
                    ray_point(px, py, cos_a as int, sin_a as int, t).1,
                ) ==> framebuffer.pixel(
                    ray_point(px, py, cos_a as int, sin_a as int, t).0,
                    ray_point(px, py, cos_a as int, sin_a as int, t).1,
                ) == 0xFFFFFFu32,
            draw_line ==> forall|idx: int|
                0 <= idx < framebuffer.buffer@.len()
                    && #[trigger] framebuffer.buffer@[idx] != fb0.buffer@[idx]
                    ==> exists|t: int|
                        #![trigger ray_point(px, py, cos_a as int, sin_a as int, t)]
                        0 <= t < k && ({
                            let rp = ray_point(px, py, cos_a as int, sin_a as int, t);
                            &&& fb0.in_bounds(rp.0, rp.1)
                            &&& idx == rp.1 * fb0.width + rp.0
                        }),
        decreases MAX_CAST_STEPS + 1 - k,
    {
        let d: i64 = k * CAST_STEP;
        proof {
            assert(-102400000 <= d * cos_a <= 102400000 && -102400000 <= d * sin_a <= 102400000)
                by (nonlinear_arith)
                requires
                    0 <= d <= 100000,
                    -1024 <= cos_a <= 1024,
                    -1024 <= sin_a <= 1024,
            ;
        }
        let x_fp: i64 = player.pos.x + d * cos_a;
        let y_fp: i64 = player.pos.y + d * sin_a;
        let x: usize = if x_fp < 0 {
            0
        } else {
            (x_fp / 1024) as usize
        };
        let y: usize = if y_fp < 0 {
            0
        } else {
            (y_fp / 1024) as usize
        };
        assert(x == sample_coord(px, d as int, cos_a as int));
        assert(y == sample_coord(py, d as int, sin_a as int));

        let i: usize = x / block_size;
        let j: usize = y / block_size;

        if draw_line {
            let ghost before = framebuffer.buffer@;
            framebuffer.point(x, y);
            proof {
                assert(ray_point(px, py, cos_a as int, sin_a as int, k as int)
                    == (x as int, y as int));
                if fb0.in_bounds(x as int, y as int) {
                    assert(0 <= (y as int) * fb0.width + (x as int) < before.len())
                        by (nonlinear_arith)
                        requires
                            0 <= (x as int) < fb0.width,
                            0 <= (y as int) < fb0.height,
                            before.len() == fb0.width * fb0.height,
                    ;
                }
                assert forall|idx: int|
                    0 <= idx < framebuffer.buffer@.len()
                        && framebuffer.buffer@[idx] != fb0.buffer@[idx]
                    implies framebuffer.buffer@[idx] == 0xFFFFFFu32
                by {
                    if framebuffer.buffer@[idx] == before[idx] {
                        assert(before[idx] != fb0.buffer@[idx]);
                    }
                }
                assert forall|t: int|
                    #![trigger ray_point(px, py, cos_a as int, sin_a as int, t)]
                    0 <= t < k + 1 && fb0.in_bounds(
                        ray_point(px, py, cos_a as int, sin_a as int, t).0,
                        ray_point(px, py, cos_a as int, sin_a as int, t).1,
                    ) implies framebuffer.pixel(
                        ray_point(px, py, cos_a as int, sin_a as int, t).0,
                        ray_point(px, py, cos_a as int, sin_a as int, t).1,
                    ) == 0xFFFFFFu32
                by {
                    let rp = ray_point(px, py, cos_a as int, sin_a as int, t);
                    assert(0 <= rp.1 * fb0.width + rp.0 < before.len()) by (nonlinear_arith)
                        requires
                            0 <= rp.0 < fb0.width,
                            0 <= rp.1 < fb0.height,
                            before.len() == fb0.width * fb0.height,
                    ;
                }
                assert forall|idx: int|
                    0 <= idx < framebuffer.buffer@.len()
                        && #[trigger] framebuffer.buffer@[idx] != fb0.buffer@[idx]
                    implies exists|t: int|
                        #![trigger ray_point(px, py, cos_a as int, sin_a as int, t)]
                        0 <= t < k + 1 && ({
                            let rp = ray_point(px, py, cos_a as int, sin_a as int, t);
                            &&& fb0.in_bounds(rp.0, rp.1)
                            &&& idx == rp.1 * fb0.width + rp.0
                        })
                by {
                    if framebuffer.buffer@[idx] == before[idx] {
                        assert(before[idx] != fb0.buffer@[idx]);
                    } else {
                        assert(fb0.in_bounds(x as int, y as int));
                        assert(idx == (y as int) * fb0.width + (x as int));
                        assert(0 <= k < k + 1 && ({
                            let rp = ray_point(px, py, cos_a as int, sin_a as int, k as int);
                            &&& fb0.in_bounds(rp.0, rp.1)
                            &&& idx == rp.1 * fb0.width + rp.0
                        }));
                    }
                }
            }
        }

        if let Some(impact) = grid_lookup(maze, i, j) {
            if impact != ' ' {
                let hitx: usize = x % block_size;
                let hity: usize = y % block_size;
                let basis: usize = if hitx > 1 && hitx < block_size - 1 {
                    hitx
                } else {
                    hity
                };
                let tx: usize = basis * 128 / block_size;
                proof {
                    lemma_mod_bound(x as int, b);
                    lemma_mod_bound(y as int, b);
                    assert(basis * 128 < b * 128) by (nonlinear_arith)
                        requires
                            0 <= basis < b,
                    ;
                    lemma_multiply_divide_lt(basis * 128, b, 128);
                    lemma_first_hit_found(m, px, py, cos_a as int, sin_a as int, b, 0, k as int);
                }
                return Intersect { distance: d, impact, tx };
            }
        }
        k = k + 1;
    }
    proof {
        lemma_first_hit_missed(m, px, py, cos_a as int, sin_a as int, b, 0);
    }
    Intersect { distance: MAX_CAST_DISTANCE, impact: ' ', tx: 0 }
}

/// Law of first strike, for every heading: the step a cast reports is a
/// hit, lies within the guard, and no earlier sample hits anything — so a
/// ray over open interior cells passes them all untouched.
pub proof fn lemma_first_hit_is_least(
    m: Seq<Seq<char>>,
    px: int,
    py: int,
    cosv: int,
    sinv: int,
    block: int,
    k: int,
)
    requires
        first_hit(m, px, py, cosv, sinv, block) == Some(k),
    ensures
        0 <= k <= MAX_CAST_STEPS,
        hits_step(m, px, py, cosv, sinv, block, k),
        forall|t: int| 0 <= t < k ==> !#[trigger] hits_step(m, px, py, cosv, sinv, block, t),
{
    lemma_first_hit_from_least(m, px, py, cosv, sinv, block, 0, k);
}

proof fn lemma_first_hit_from_least(
    m: Seq<Seq<char>>,
    px: int,
    py: int,
    cosv: int,
    sinv: int,
    block: int,
    j: int,
    k: int,
)
    requires
        0 <= j <= MAX_CAST_STEPS + 1,
        first_hit_from(m, px, py, cosv, sinv, block, j) == Some(k),
    ensures
        j <= k <= MAX_CAST_STEPS,
        hits_step(m, px, py, cosv, sinv, block, k),
        forall|t: int| j <= t < k ==> !#[trigger] hits_step(m, px, py, cosv, sinv, block, t),
    decreases MAX_CAST_STEPS + 1 - j,
{
    if j <= MAX_CAST_STEPS && !hits_step(m, px, py, cosv, sinv, block, j) {
        lemma_first_hit_from_least(m, px, py, cosv, sinv, block, j + 1, k);
    }
}

/// Law of cast accuracy, stated for a ray walking straight along the
/// positive x axis, where the fixed-point direction `(FP_ONE, 0)` is exact:
/// in a grid whose row under the ray is open (and defined) from the
/// player's column up to a wall at column `iw` — the enclosing ring of a
/// fully open maze, or any wall the ray faces — the cast strikes exactly
/// that wall cell, and the returned distance matches the straight-line
/// distance to the wall within one step. The heading 0 produces this
/// direction, by `lemma_trig_anchors`.
pub proof fn lemma_cast_east_hits_wall(
    m: Seq<Seq<char>>,
    px: int,
    py: int,
    block: int,
    iw: int,
)
    requires
        CAST_STEP <= block <= 100000,
        0 <= px,
        0 <= py,
        0 <= (py / 1024) / block < m.len(),
        0 <= iw < m[(py / 1024) / block].len(),
        m[(py / 1024) / block][iw] != OPEN_CELL,
        forall|c: int|
            (px / 1024) / block <= c < iw
                ==> 0 <= c < m[(py / 1024) / block].len()
                    && #[trigger] m[(py / 1024) / block][c] == OPEN_CELL,
        px / 1024 < iw * block,
        iw * block - px / 1024 <= MAX_CAST_DISTANCE,
    ensures
        cos_fp(0) == FP_ONE && sin_fp(0) == 0,
        first_hit(m, px, py, FP_ONE as int, 0, block) is Some,
        ({
            let k = first_hit(m, px, py, FP_ONE as int, 0, block)->Some_0;
            let d = k * CAST_STEP;
            let dw = iw * block - px / 1024;
            &&& dw <= d < dw + CAST_STEP
            &&& ray_cell(m, px, py, FP_ONE as int, 0, block, d)
                == Some(m[(py / 1024) / block][iw])
        }),
{
    lemma_trig_anchors();
    let px0 = px / 1024;
    let j = (py / 1024) / block;
    let dw = iw * block - px0;
    let dstar = ((dw + 1) / 2) * 2;
    let kstar = (dw + 1) / 2;

    vstd::arithmetic::div_mod::lemma_div_pos_is_pos(px, 1024);
    vstd::arithmetic::div_mod::lemma_div_pos_is_pos(py, 1024);
    vstd::arithmetic::div_mod::lemma_fundamental_div_mod(dw + 1, 2);
    vstd::arithmetic::div_mod::lemma_mod_bound(dw + 1, 2);
    assert(dw <= dstar <= dw + 1);

    // every sample along the ray lands at x-unit px/1024 + d and stays in row j
    assert forall|d: int| 0 <= d implies #[trigger] sample_coord(px, d, FP_ONE as int) == px0 + d
    by {
        assert(0 <= px + d * 1024) by (nonlinear_arith)
            requires
                0 <= px,
                0 <= d,
        ;
        vstd::arithmetic::div_mod::lemma_hoist_over_denominator(px, d, 1024);
    }
    assert forall|d: int| 0 <= d implies #[trigger] sample_coord(py, d, 0) == py / 1024
    by {
        assert(d * 0 == 0) by (nonlinear_arith);
    }

    // the first sample at or past the wall column lands exactly in it
    assert(hits_step(m, px, py, FP_ONE as int, 0, block, kstar)) by {
        assert(kstar * CAST_STEP == dstar) by (nonlinear_arith)
            requires
                kstar == (dw + 1) / 2,
                dstar == ((dw + 1) / 2) * 2,
        ;
        assert(sample_coord(px, dstar, FP_ONE as int) == px0 + dstar);
        assert(iw * block <= px0 + dstar < iw * block + block);
        vstd::arithmetic::div_mod::lemma_fundamental_div_mod_converse(
            px0 + dstar,
            block,
            iw,
            px0 + dstar - iw * block,
        );
        assert((px0 + dstar) / block == iw);
    }

    // every earlier sample sits in an open cell of the same row
    assert forall|t: int| 0 <= t < kstar
        implies !#[trigger] hits_step(m, px, py, FP_ONE as int, 0, block, t)
    by {
        let d = t * CAST_STEP;
        assert(0 <= d < dstar) by (nonlinear_arith)
            requires
                0 <= t < kstar,
                d == t * CAST_STEP,
                dstar == kstar * 2,
                CAST_STEP == 2,
        ;
        assert(d <= dw - 1);
        assert(sample_coord(px, d, FP_ONE as int) == px0 + d);
        assert(px0 + d < block * iw) by (nonlinear_arith)
            requires
                px0 + d < iw * block,
        ;
        vstd::arithmetic::div_mod::lemma_multiply_divide_lt(px0 + d, block, iw);
        vstd::arithmetic::div_mod::lemma_div_is_ordered(px0, px0 + d, block);
        assert(px0 / block <= (px0 + d) / block < iw);
    }

    assert(0 <= kstar <= MAX_CAST_STEPS) by (nonlinear_arith)
        requires
            kstar == (dw + 1) / 2,
            dstar == kstar * 2,
            dw <= dstar <= dw + 1,
            0 < dw <= 100000,
    ;
    lemma_first_hit_found(m, px, py, FP_ONE as int, 0, block, 0, kstar);
    assert(kstar * CAST_STEP == dstar) by (nonlinear_arith)
        requires
            kstar == (dw + 1) / 2,
            dstar == ((dw + 1) / 2) * 2,
    ;
    assert(sample_coord(px, dstar, FP_ONE as int) == px0 + dstar);
    assert(iw * block <= px0 + dstar < iw * block + block);
    vstd::arithmetic::div_mod::lemma_fundamental_div_mod_converse(
        px0 + dstar,
        block,
        iw,
        px0 + dstar - iw * block,
    );
    assert((px0 + dstar) / block == iw);
    assert(sample_coord(py, dstar, 0) == py / 1024);
    assert(ray_cell(m, px, py, FP_ONE as int, 0, block, dstar) == Some(m[j][iw]));
}

} // verus!

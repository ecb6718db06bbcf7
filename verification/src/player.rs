use vstd::prelude::*;
use crate::fixmath::FULL_TURN;
use crate::fixmath::HALF_TURN;
use crate::fixmath::angle_norm;
use crate::fixmath::cos_deg10;
use crate::fixmath::cos_fp;
use crate::fixmath::normalize_angle;
use crate::fixmath::sin_deg10;
use crate::fixmath::sin_fp;
use crate::grid::OPEN_CELL;
use crate::grid::grid_cell;
use crate::grid::grid_lookup;
use crate::grid::grid_view;

verus! {

/// The largest coordinate a pose or sprite may carry, in fixed-point
/// sub-units: keeps every product the renderers form inside `i64`.
pub const MAX_COORD: i64 = 0x2000000;

/// A 2D point in fixed-point world coordinates: `FP_ONE` sub-units make one
/// world unit, and one grid cell spans `block_size` world units.
#[derive(Clone, Copy, PartialEq, Eq, Structural)]
pub struct Vec2Fp {
    pub x: i64,
    pub y: i64,
}

impl Vec2Fp {
    pub open spec fn wf(&self) -> bool {
        0 <= self.x <= MAX_COORD && 0 <= self.y <= MAX_COORD
    }

    pub fn new(x: i64, y: i64) -> (v: Vec2Fp)
        ensures
            v.x == x,
            v.y == y,
    {
        Vec2Fp { x, y }
    }
}

/// The player pose the renderers read: a fixed-point position, a heading
/// angle and a field-of-view angle, both in tenths of a degree.
pub struct Player {
    pub pos: Vec2Fp,
    pub a: i64,
    pub fov: i64,
}

impl Player {
    /// The position sits in the non-negative quarter plane within
    /// `MAX_COORD`, the heading is normalized, and the view fans out over at
    /// most a half turn.
    pub open spec fn wf(&self) -> bool {
        &&& self.pos.wf()
        &&& 0 <= self.a < FULL_TURN
        &&& 0 < self.fov <= HALF_TURN
    }

    pub fn new(pos: Vec2Fp, a: i64, fov: i64) -> (p: Player)
        requires
            pos.wf(),
            0 <= a < FULL_TURN,
            0 < fov <= HALF_TURN,
        ensures
            p.wf(),
            p.pos == pos,
            p.a == a,
            p.fov == fov,
    {
        Player { pos, a, fov }
    }
}

/// World units walked per forward or backward step.
pub const MOVE_SPEED: i64 = 2;

/// Tenths of a degree turned per rotation tick.
pub const ROTATION_SPEED: i64 = 22;

/// One frame's worth of already-polled movement input: which movement keys
/// are held, and the sign of any large-enough horizontal mouse swipe.
pub struct InputState {
    pub turn_left: bool,
    pub turn_right: bool,
    pub forward: bool,
    pub backward: bool,
    pub mouse_turn: i64,
}

/// What the footstep audio should do after a frame's movement: start when a
/// step was taken, stop when movement was refused or absent, stay as it was
/// when a step cancelled itself out.
#[derive(Clone, Copy, Debug, PartialEq, Eq, Structural)]
pub enum StepSound {
    Play,
    Pause,
    Keep,
}

/// The grid column or row a fixed-point coordinate falls in, with negative
/// overshoot clamped to the first cell.
pub open spec fn cell_coord(p: int, block: int) -> int {
    (if p < 0 { 0 } else { p / 1024 }) / block
}

/// The cell under `pos` is defined and traversable.
pub open spec fn can_move_spec(m: Seq<Seq<char>>, pos: Vec2Fp, block: int) -> bool {
    grid_cell(m, cell_coord(pos.x as int, block), cell_coord(pos.y as int, block))
        == Some(OPEN_CELL)
}

/// The net rotation one frame's input asks for, in tenths of a degree.
pub open spec fn turn_delta(input: &InputState) -> int {
    (if input.mouse_turn > 0 { ROTATION_SPEED as int }
     else if input.mouse_turn < 0 { -(ROTATION_SPEED as int) }
     else { 0 })
    + (if input.turn_left { -(ROTATION_SPEED as int) } else { 0 })
    + (if input.turn_right { ROTATION_SPEED as int } else { 0 })
}

/// The net fixed-point movement along x a frame's input asks for, at
/// heading `a`.
pub open spec fn step_dx(a: int, input: &InputState) -> int {
    (if input.forward { MOVE_SPEED * cos_fp(a) } else { 0 })
        - (if input.backward { MOVE_SPEED * cos_fp(a) } else { 0 })
}

/// The net fixed-point movement along y a frame's input asks for, at
/// heading `a`.
pub open spec fn step_dy(a: int, input: &InputState) -> int {
    (if input.forward { MOVE_SPEED * sin_fp(a) } else { 0 })
        - (if input.backward { MOVE_SPEED * sin_fp(a) } else { 0 })
}

impl Player {
    /// A position is enterable iff the grid cell under it is defined and
    /// holds the traversable symbol; a miss outside the grid refuses the
    /// move.
    pub fn can_move_to(
        &self,
        new_pos: Vec2Fp,
        maze: &Vec<Vec<char>>,
        block_size: usize,
    ) -> (r: bool)
        requires
            0 < block_size <= 100000,
            new_pos.x <= 0x40000000,
            new_pos.y <= 0x40000000,
        ensures
            r == can_move_spec(grid_view(maze), new_pos, block_size as int),
    {
        let x_units: i64 = if new_pos.x < 0 {
            0
        } else {
            new_pos.x / 1024
        };
        let y_units: i64 = if new_pos.y < 0 {
            0
        } else {
            new_pos.y / 1024
        };
        proof {
            if new_pos.x >= 0 {
                vstd::arithmetic::div_mod::lemma_div_pos_is_pos(new_pos.x as int, 1024);
                vstd::arithmetic::div_mod::lemma_div_is_ordered(new_pos.x as int, 0x40000000, 1024);
            }
            if new_pos.y >= 0 {
                vstd::arithmetic::div_mod::lemma_div_pos_is_pos(new_pos.y as int, 1024);
                vstd::arithmetic::div_mod::lemma_div_is_ordered(new_pos.y as int, 0x40000000, 1024);
            }
            vstd::arithmetic::div_mod::lemma_div_pos_is_pos(x_units as int, block_size as int);
            vstd::arithmetic::div_mod::lemma_div_pos_is_pos(y_units as int, block_size as int);
            vstd::arithmetic::div_mod::lemma_div_is_ordered(
                x_units as int,
                0x40000000,
                block_size as int,
            );
            vstd::arithmetic::div_mod::lemma_div_is_ordered(
                y_units as int,
                0x40000000,
                block_size as int,
            );
        }
        let col: usize = (x_units / (block_size as i64)) as usize;
        let row: usize = (y_units / (block_size as i64)) as usize;
        match grid_lookup(maze, col, row) {
            Some(c) => c == ' ',
            None => false,
        }
    }
}

/// Applies one frame of already-polled input to the player: rotation ticks
/// from the mouse and the turn keys, then a forward or backward step along
/// the new heading, taken only when the target cell is traversable and the
/// target stays inside the fixed-point coordinate range. The result says
/// what the footstep audio should do.
pub fn process_events(
    player: &mut Player,
    input: &InputState,
    maze: &Vec<Vec<char>>,
    block_size: usize,
) -> (sound: StepSound)
    requires
        old(player).wf(),
        0 < block_size <= 100000,
    ensures
        final(player).wf(),
        final(player).fov == old(player).fov,
        final(player).a == angle_norm(old(player).a + turn_delta(input)),
        ({
            let a2 = angle_norm(old(player).a + turn_delta(input));
            let target = (Vec2Fp {
                x: (old(player).pos.x + step_dx(a2, input)) as i64,
                y: (old(player).pos.y + step_dy(a2, input)) as i64,
            });
            let moved = input.forward || input.backward;
            let allowed = moved && target.wf()
                && can_move_spec(grid_view(maze), target, block_size as int);
            &&& final(player).pos == (if allowed { target } else { old(player).pos })
            &&& sound == (if allowed {
                if target == old(player).pos { StepSound::Keep } else { StepSound::Play }
            } else {
                StepSound::Pause
            })
        }),
{
    let mut a2: i64 = player.a;
    if input.mouse_turn > 0 {
        a2 = a2 + ROTATION_SPEED;
    } else if input.mouse_turn < 0 {
        a2 = a2 - ROTATION_SPEED;
    }
    if input.turn_left {
        a2 = a2 - ROTATION_SPEED;
    }
    if input.turn_right {
        a2 = a2 + ROTATION_SPEED;
    }
    let a_new: i64 = normalize_angle(a2);
    player.a = a_new;

    let cosv: i64 = cos_deg10(a_new);
    let sinv: i64 = sin_deg10(a_new);
    let mut nx: i64 = player.pos.x;
    let mut ny: i64 = player.pos.y;
    let mut moved: bool = false;
    if input.forward {
        nx = nx + MOVE_SPEED * cosv;
        ny = ny + MOVE_SPEED * sinv;
        moved = true;
    }
    if input.backward {
        nx = nx - MOVE_SPEED * cosv;
        ny = ny - MOVE_SPEED * sinv;
        moved = true;
    }
    let target = Vec2Fp { x: nx, y: ny };

    if moved && nx >= 0 && nx <= MAX_COORD && ny >= 0 && ny <= MAX_COORD
        && player.can_move_to(target, maze, block_size) {
        if player.pos.x == nx && player.pos.y == ny {
            StepSound::Keep
        } else {
            player.pos = target;
            StepSound::Play
        }
    } else {
        StepSound::Pause
    }
}

} // verus!

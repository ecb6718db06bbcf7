use space_maze::fixmath::FP_ONE;
use space_maze::maze_to_minimap;
use space_maze::minimap_function;
use space_maze::new_depth_buffer;
use space_maze::position_sprites;
use space_maze::render::DEPTH_FAR;
use space_maze::render_object;
use space_maze::render_walls;
use space_maze::texture_walls;
use space_maze::walls_minimap;
use space_maze::Framebuffer;
use space_maze::Player;
use space_maze::Texture;
use space_maze::Vec2Fp;
use space_maze::WallTextures;

fn solid_texture(color: u32) -> Texture {
    let pixels: Vec<u32> = vec![color; 128 * 128];
    Texture::from_pixels(128, 128, &pixels)
}

fn wall_set() -> WallTextures {
    WallTextures {
        wall: solid_texture(0xAA0000),
        wall_alt: solid_texture(0x00AA00),
        station: solid_texture(0x0000AA),
    }
}

fn closed_room() -> Vec<Vec<char>> {
    vec![
        vec!['-', '-', '-'],
        vec!['-', ' ', '-'],
        vec!['-', '-', '-'],
    ]
}

#[test]
fn out_of_range_point_leaves_the_buffer_unchanged() {
    let mut fb = Framebuffer::new(8, 6);
    fb.set_current_color(0xABCDEF);
    let snapshot = fb.buffer.clone();
    fb.point(8, 0);
    fb.point(0, 6);
    fb.point(usize::MAX, usize::MAX);
    assert_eq!(fb.buffer, snapshot);
}

#[test]
fn point_writes_the_current_color_in_bounds() {
    let mut fb = Framebuffer::new(8, 6);
    fb.set_current_color(0xABCDEF);
    fb.point(3, 2);
    assert_eq!(fb.get_pixel(3, 2), 0xABCDEF);
    assert_eq!(fb.get_pixel(2, 3), 0);
}

#[test]
fn clear_fills_every_pixel_with_the_background() {
    let mut fb = Framebuffer::new(8, 6);
    fb.set_current_color(0x111111);
    fb.point(1, 1);
    fb.set_background_color(0x213b31);
    fb.clear();
    for y in 0..6 {
        for x in 0..8 {
            assert_eq!(fb.get_pixel(x, y), 0x213b31);
        }
    }
}

#[test]
fn texture_sampling_is_bounds_checked() {
    let mut pixels: Vec<u32> = vec![0; 4 * 3];
    pixels[1 * 4 + 2] = 0xDEAD00;
    let t = Texture::from_pixels(4, 3, &pixels);
    assert_eq!(t.get_pixel_color(2, 1), 0xDEAD00);
    assert_eq!(t.get_pixel_color(4, 0), 0x000000);
    assert_eq!(t.get_pixel_color(0, 3), 0x000000);
}

#[test]
fn wall_symbols_map_to_their_textures() {
    let t = wall_set();
    assert_eq!(texture_walls('-', 5, 5, &t), 0xAA0000);
    assert_eq!(texture_walls('+', 5, 5, &t), 0x00AA00);
    assert_eq!(texture_walls('|', 5, 5, &t), 0x00AA00);
    assert_eq!(texture_walls('g', 5, 5, &t), 0x0000AA);
    assert_eq!(texture_walls('?', 5, 5, &t), 0x000000);
    assert_eq!(texture_walls('-', 200, 5, &t), 0x000000);
}

#[test]
fn depth_buffer_starts_beyond_everything() {
    let z = new_depth_buffer(17);
    assert_eq!(z.len(), 17);
    for v in &z {
        assert_eq!(*v, DEPTH_FAR);
    }
}

#[test]
fn wall_renderer_records_the_corrected_depth_per_column() {
    let maze = closed_room();
    let mut fb = Framebuffer::new(100, 60);
    let player = Player::new(Vec2Fp::new(150 * 1024, 150 * 1024), 0, 600);
    let mut z = new_depth_buffer(100);
    render_walls(&mut fb, &maze, &player, 100, &wall_set(), &mut z);
    assert_eq!(z.len(), 100);
    // column 50 looks along the exact heading: distance 50, no fish-eye
    assert_eq!(z[50], 50 * FP_ONE);
    for i in 0..100 {
        assert!(z[i] > 0 && z[i] < DEPTH_FAR);
    }
}

#[test]
fn wall_renderer_paints_the_center_column_with_the_wall_texture() {
    let maze = closed_room();
    let mut fb = Framebuffer::new(100, 60);
    let player = Player::new(Vec2Fp::new(150 * 1024, 150 * 1024), 0, 600);
    let mut z = new_depth_buffer(100);
    render_walls(&mut fb, &maze, &player, 100, &wall_set(), &mut z);
    // the wall stake at the screen center shows the '-' texture
    assert_eq!(fb.get_pixel(50, 30), 0xAA0000);
}

#[test]
fn wall_renderer_layers_sky_stake_and_floor() {
    // a 5x5 ring seen from 250 units: the stake spans 28 rows centered on
    // the horizon, sky above it, floor below it
    let maze = vec![
        vec!['-', '-', '-', '-', '-'],
        vec!['-', ' ', ' ', ' ', '-'],
        vec!['-', ' ', ' ', ' ', '-'],
        vec!['-', ' ', ' ', ' ', '-'],
        vec!['-', '-', '-', '-', '-'],
    ];
    let mut fb = Framebuffer::new(100, 100);
    let player = Player::new(Vec2Fp::new(150 * 1024, 250 * 1024), 0, 600);
    let mut z = new_depth_buffer(100);
    render_walls(&mut fb, &maze, &player, 100, &wall_set(), &mut z);
    assert_eq!(fb.get_pixel(50, 0), 0x2c9473);
    assert_eq!(fb.get_pixel(50, 35), 0x2c9473);
    assert_eq!(fb.get_pixel(50, 36), 0xAA0000);
    assert_eq!(fb.get_pixel(50, 50), 0xAA0000);
    assert_eq!(fb.get_pixel(50, 63), 0xAA0000);
    assert_eq!(fb.get_pixel(50, 64), 0x56615d);
    assert_eq!(fb.get_pixel(50, 99), 0x56615d);
}

#[test]
fn nearer_sprite_wins_when_drawn_first() {
    let mut fb = Framebuffer::new(200, 100);
    let player = Player::new(Vec2Fp::new(150 * 1024, 150 * 1024), 0, 600);
    let mut z = new_depth_buffer(200);
    let near = Vec2Fp::new(250 * 1024, 150 * 1024);
    let far = Vec2Fp::new(350 * 1024, 150 * 1024);
    let red = solid_texture(0xFF0000);
    let green = solid_texture(0x00FF00);

    render_object(&mut fb, &player, &near, &mut z, &red);
    render_object(&mut fb, &player, &far, &mut z, &green);

    let mut red_seen = false;
    for k in 0..fb.buffer.len() {
        assert_ne!(fb.buffer[k], 0x00FF00, "a farther sprite pixel survived");
        if fb.buffer[k] == 0xFF0000 {
            red_seen = true;
        }
    }
    assert!(red_seen);
}

#[test]
fn nearer_sprite_wins_when_drawn_last() {
    let mut fb = Framebuffer::new(200, 100);
    let player = Player::new(Vec2Fp::new(150 * 1024, 150 * 1024), 0, 600);
    let mut z = new_depth_buffer(200);
    let near = Vec2Fp::new(250 * 1024, 150 * 1024);
    let far = Vec2Fp::new(350 * 1024, 150 * 1024);
    let red = solid_texture(0xFF0000);
    let green = solid_texture(0x00FF00);

    render_object(&mut fb, &player, &far, &mut z, &green);
    render_object(&mut fb, &player, &near, &mut z, &red);

    // the nearer box fully covers the farther one here, so no farther
    // pixel may remain where they overlap — and the column depths now
    // carry the nearer distance
    assert_eq!(fb.get_pixel(100, 50), 0xFF0000);
    assert_eq!(z[100], 100 * FP_ONE);
}

#[test]
fn sprite_depths_never_increase() {
    let mut fb = Framebuffer::new(200, 100);
    let player = Player::new(Vec2Fp::new(150 * 1024, 150 * 1024), 0, 600);
    let mut z = new_depth_buffer(200);
    let sprites = vec![
        Vec2Fp::new(350 * 1024, 150 * 1024),
        Vec2Fp::new(250 * 1024, 150 * 1024),
        Vec2Fp::new(300 * 1024, 160 * 1024),
    ];
    let tex = solid_texture(0x552200);
    let mut previous = z.clone();
    for s in &sprites {
        render_object(&mut fb, &player, s, &mut z, &tex);
        for x in 0..z.len() {
            assert!(z[x] <= previous[x], "depth grew at column {}", x);
        }
        previous = z.clone();
    }
}

#[test]
fn transparent_texels_are_never_plotted() {
    let mut fb = Framebuffer::new(200, 100);
    let player = Player::new(Vec2Fp::new(150 * 1024, 150 * 1024), 0, 600);
    let mut z = new_depth_buffer(200);
    let cutout = solid_texture(0xFFFFFF);
    let snapshot = fb.buffer.clone();
    let zs = z.clone();
    render_object(
        &mut fb,
        &player,
        &Vec2Fp::new(250 * 1024, 150 * 1024),
        &mut z,
        &cutout,
    );
    assert_eq!(fb.buffer, snapshot);
    assert_eq!(z, zs);
}

#[test]
fn sprite_outside_the_view_fan_is_skipped() {
    let mut fb = Framebuffer::new(200, 100);
    let player = Player::new(Vec2Fp::new(150 * 1024, 150 * 1024), 0, 600);
    let mut z = new_depth_buffer(200);
    let behind = Vec2Fp::new(50 * 1024, 150 * 1024);
    let tex = solid_texture(0x992299);
    let snapshot = fb.buffer.clone();
    render_object(&mut fb, &player, &behind, &mut z, &tex);
    assert_eq!(fb.buffer, snapshot);
}

#[test]
fn sprite_batch_runs_in_supplied_order() {
    let mut fb = Framebuffer::new(200, 100);
    let player = Player::new(Vec2Fp::new(150 * 1024, 150 * 1024), 0, 600);
    let mut z = new_depth_buffer(200);
    let sprites = vec![
        Vec2Fp::new(250 * 1024, 250 * 1024),
        Vec2Fp::new(250 * 1024, 150 * 1024),
    ];
    let tex = solid_texture(0x334455);
    position_sprites(&mut fb, &player, &sprites, &mut z, &tex);
    assert!(z.iter().any(|d| *d < DEPTH_FAR));
}

#[test]
fn minimap_cell_fill_is_confined_and_open_cells_draw_nothing() {
    let mut fb = Framebuffer::new(100, 100);
    let snapshot = fb.buffer.clone();
    walls_minimap(&mut fb, 10, 20, 5, ' ');
    assert_eq!(fb.buffer, snapshot);
    walls_minimap(&mut fb, 10, 20, 5, '-');
    for y in 0..100 {
        for x in 0..100 {
            let inside = x >= 10 && x < 15 && y >= 20 && y < 25;
            if inside {
                assert_eq!(fb.get_pixel(x, y), 0x14544b);
            } else {
                assert_eq!(fb.get_pixel(x, y), 0);
            }
        }
    }
}

#[test]
fn minimap_overlay_stays_in_its_corner_in_both_modes() {
    let maze = closed_room();
    let player = Player::new(Vec2Fp::new(150 * 1024, 150 * 1024), 0, 600);
    let textures = wall_set();

    for mode_3d in [true, false] {
        let mut fb = Framebuffer::new(1200, 720);
        fb.set_background_color(0x213b31);
        fb.clear();
        if mode_3d {
            let mut z = new_depth_buffer(1200);
            render_walls(&mut fb, &maze, &player, 100, &textures, &mut z);
        } else {
            maze_to_minimap(&mut fb, &maze, &player, 100);
        }
        let before = fb.buffer.clone();
        minimap_function(&mut fb, &maze, 100, &player);
        for k in 0..fb.buffer.len() {
            if fb.buffer[k] != before[k] {
                let x = k % 1200;
                let y = k / 1200;
                assert!(x >= 970 && y >= 560, "overlay escaped at ({}, {})", x, y);
                assert!(x < 1190 && y < 710, "overlay escaped at ({}, {})", x, y);
            }
        }
        // a wall cell's scaled square shows the wall color, and the
        // player marker its white pixel
        assert_eq!(fb.get_pixel(975, 565), 0x14544b);
        assert_eq!(fb.get_pixel(970 + 75, 560 + 75), 0xFFFFFF);
        // the whole backdrop rectangle shows overlay colors only
        for y in 560..710 {
            for x in 970..1190 {
                let p = fb.get_pixel(x, y);
                assert!(
                    p == 0x56615d || p == 0x14544b || p == 0xFFFFFF,
                    "unexpected overlay color {:x} at ({}, {})",
                    p,
                    x,
                    y
                );
            }
        }
    }
}

#[test]
fn top_down_overview_draws_wall_blocks_and_rays() {
    let maze = closed_room();
    let player = Player::new(Vec2Fp::new(150 * 1024, 150 * 1024), 0, 600);
    let mut fb = Framebuffer::new(400, 400);
    maze_to_minimap(&mut fb, &maze, &player, 100);
    // a wall block covers the top-left cell, the player pixel is white,
    // and the ray fan left more white
    assert_eq!(fb.get_pixel(50, 50), 0x14544b);
    assert_eq!(fb.get_pixel(150, 150), 0xFFFFFF);
    assert!(fb.buffer.iter().any(|p| *p == 0xFFFFFF));
}

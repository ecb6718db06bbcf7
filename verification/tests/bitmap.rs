use space_maze::decode_bmp;
use space_maze::export_bmp;
use space_maze::new_depth_buffer;
use space_maze::render_walls;
use space_maze::Framebuffer;
use space_maze::Player;
use space_maze::Texture;
use space_maze::Vec2Fp;
use space_maze::WallTextures;

#[test]
fn export_then_decode_reproduces_the_pixel_grid() {
    let pixels: Vec<u32> = vec![
        0xFF0000, 0x00FF00, 0x0000FF,
        0x123456, 0xABCDEF, 0x000000,
    ];
    let bytes = export_bmp(3, 2, &pixels);
    let decoded = decode_bmp(&bytes).expect("a freshly exported bitmap must decode");
    assert_eq!(decoded.0, 3);
    assert_eq!(decoded.1, 2);
    assert_eq!(decoded.2, pixels);
}

#[test]
fn export_of_a_framebuffer_round_trips() {
    let mut fb = Framebuffer::new(13, 7);
    fb.set_background_color(0x213b31);
    fb.clear();
    fb.set_current_color(0xFFFFFF);
    fb.point(0, 0);
    fb.point(12, 6);
    fb.set_current_color(0x14544b);
    fb.point(5, 3);
    let bytes = export_bmp(13, 7, &fb.buffer);
    let decoded = decode_bmp(&bytes).expect("decode");
    assert_eq!(decoded.0, 13);
    assert_eq!(decoded.1, 7);
    assert_eq!(decoded.2, fb.buffer);
}

#[test]
fn exported_bytes_decode_with_a_standard_image_library() {
    let pixels: Vec<u32> = vec![
        0xFF0000, 0x00FF00, 0x0000FF, 0x804020,
        0x123456, 0xABCDEF, 0x000000, 0xFFFFFF,
        0x101010, 0x202020, 0x304050, 0x99AABB,
    ];
    let bytes = export_bmp(4, 3, &pixels);
    let img = image::load_from_memory(&bytes).expect("a standard decoder must accept the file");
    let rgb = img.to_rgb8();
    assert_eq!(rgb.width(), 4);
    assert_eq!(rgb.height(), 3);
    for y in 0..3u32 {
        for x in 0..4u32 {
            let p = pixels[(y * 4 + x) as usize];
            let texel = rgb.get_pixel(x, y);
            assert_eq!(texel[0] as u32, (p >> 16) & 0xFF);
            assert_eq!(texel[1] as u32, (p >> 8) & 0xFF);
            assert_eq!(texel[2] as u32, p & 0xFF);
        }
    }
}

#[test]
fn garbage_bytes_are_rejected() {
    assert!(decode_bmp(&vec![]).is_none());
    assert!(decode_bmp(&vec![0u8; 40]).is_none());
    let mut bytes = export_bmp(2, 2, &vec![0u32; 4]);
    bytes[0] = 0; // break the magic
    assert!(decode_bmp(&bytes).is_none());
    let mut truncated = export_bmp(2, 2, &vec![0u32; 4]);
    truncated.pop();
    assert!(decode_bmp(&truncated).is_none());
}

#[test]
fn a_rendered_frame_survives_the_bitmap_round_trip() {
    let maze = vec![
        vec!['-', '-', '-'],
        vec!['-', ' ', '-'],
        vec!['-', '-', '-'],
    ];
    let solid = |color: u32| {
        let pixels: Vec<u32> = vec![color; 128 * 128];
        Texture::from_pixels(128, 128, &pixels)
    };
    let textures = WallTextures {
        wall: solid(0xAA0000),
        wall_alt: solid(0x00AA00),
        station: solid(0x0000AA),
    };
    let mut fb = Framebuffer::new(100, 60);
    fb.set_background_color(0x213b31);
    fb.clear();
    let player = Player::new(Vec2Fp::new(150 * 1024, 150 * 1024), 0, 600);
    let mut z = new_depth_buffer(100);
    render_walls(&mut fb, &maze, &player, 100, &textures, &mut z);

    let bytes = space_maze::export_bmp(100, 60, &fb.buffer);
    let decoded = decode_bmp(&bytes).expect("decode");
    assert_eq!(decoded.2, fb.buffer);

    let img = image::load_from_memory(&bytes).expect("standard decode").to_rgb8();
    for y in 0..60u32 {
        for x in 0..100u32 {
            let p = fb.buffer[(y * 100 + x) as usize];
            let texel = img.get_pixel(x, y);
            assert_eq!(
                ((texel[0] as u32) << 16) | ((texel[1] as u32) << 8) | (texel[2] as u32),
                p
            );
        }
    }
}

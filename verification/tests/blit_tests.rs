use tilecore::blit::{blit_masked, blit_opaque, screen_copy};
use tilecore::dma::DmaChannel;
use tilecore::fb::Framebuffer;
use tilecore::tile::DecodedTile;
use tilecore::{SCREEN_HEIGHT, SCREEN_WIDTH, TILE_SIZE, TILE_WORDS};

fn solid_tile(v: u16) -> DecodedTile {
    DecodedTile { pixels: vec![v; TILE_WORDS], masks: None }
}

fn gradient_tile() -> DecodedTile {
    let pixels: Vec<u16> = (0..TILE_WORDS as u32).map(|i| (i % 65536) as u16).collect();
    DecodedTile { pixels, masks: None }
}

#[test]
fn opaque_blit_inside_is_exact() {
    let tile = gradient_tile();
    let mut fb = Framebuffer::new();
    let mut ch = DmaChannel::claim(0);
    let full = blit_opaque(&mut fb, &tile, 10, 20, &mut ch);
    assert!(full);
    for ly in 0..TILE_SIZE {
        for lx in 0..TILE_SIZE {
            assert_eq!(
                fb.read_pixel(10 + lx, 20 + ly),
                tile.pixels[ly * TILE_SIZE + lx]
            );
        }
    }
    // A border of untouched pixels all around.
    assert_eq!(fb.read_pixel(9, 20), 0);
    assert_eq!(fb.read_pixel(10 + TILE_SIZE, 20), 0);
    assert_eq!(fb.read_pixel(10, 19), 0);
    assert_eq!(fb.read_pixel(10, 20 + TILE_SIZE), 0);
}

#[test]
fn opaque_blit_clips_top_left() {
    let tile = gradient_tile();
    let mut fb = Framebuffer::new();
    let mut ch = DmaChannel::claim(0);
    let full = blit_opaque(&mut fb, &tile, -16, -8, &mut ch);
    assert!(!full);
    // The visible quarter shows the tile's lower-right part.
    assert_eq!(fb.read_pixel(0, 0), tile.pixels[8 * TILE_SIZE + 16]);
    assert_eq!(fb.read_pixel(15, 23), tile.pixels[31 * TILE_SIZE + 31]);
    // Beyond the visible part nothing was written.
    assert_eq!(fb.read_pixel(16, 0), 0);
    assert_eq!(fb.read_pixel(0, 24), 0);
}

#[test]
fn opaque_blit_clips_bottom_right() {
    let tile = solid_tile(0x1F);
    let mut fb = Framebuffer::new();
    let mut ch = DmaChannel::claim(0);
    let x = (SCREEN_WIDTH - 8) as i32;
    let y = (SCREEN_HEIGHT - 4) as i32;
    let full = blit_opaque(&mut fb, &tile, x, y, &mut ch);
    assert!(!full);
    assert_eq!(fb.read_pixel(SCREEN_WIDTH - 1, SCREEN_HEIGHT - 1), 0x1F);
    assert_eq!(fb.read_pixel(SCREEN_WIDTH - 9, SCREEN_HEIGHT - 1), 0);
}

#[test]
fn opaque_blit_fully_offscreen_changes_nothing() {
    let tile = solid_tile(0xFFFF);
    let mut fb = Framebuffer::new();
    let mut ch = DmaChannel::claim(0);
    let full = blit_opaque(&mut fb, &tile, -100, 0, &mut ch);
    assert!(!full);
    for y in (0..SCREEN_HEIGHT).step_by(7) {
        for x in (0..SCREEN_WIDTH).step_by(7) {
            assert_eq!(fb.read_pixel(x, y), 0);
        }
    }
}

#[test]
fn masked_blit_draws_only_set_bits() {
    // Row mask 0x0000FFFF: the left 16 columns opaque, the right 16 clear.
    let tile = DecodedTile {
        pixels: vec![0x7BEF; TILE_WORDS],
        masks: Some(vec![0x0000_FFFF; TILE_SIZE]),
    };
    let mut fb = Framebuffer::new();
    let mut ch = DmaChannel::claim(0);
    let full = blit_masked(&mut fb, &tile, 50, 60, &mut ch);
    assert!(full);
    for ly in 0..TILE_SIZE {
        for lx in 0..TILE_SIZE {
            let expected = if lx < 16 { 0x7BEF } else { 0 };
            assert_eq!(fb.read_pixel(50 + lx, 60 + ly), expected);
        }
    }
}

#[test]
fn masked_blit_single_pixel_runs() {
    // Alternating bits exercise the single-pixel fallback path.
    let tile = DecodedTile {
        pixels: vec![0x0421; TILE_WORDS],
        masks: Some(vec![0x5555_5555; TILE_SIZE]),
    };
    let mut fb = Framebuffer::new();
    let mut ch = DmaChannel::claim(0);
    blit_masked(&mut fb, &tile, 0, 0, &mut ch);
    for lx in 0..TILE_SIZE {
        let expected = if lx % 2 == 0 { 0x0421 } else { 0 };
        assert_eq!(fb.read_pixel(lx, 0), expected);
    }
}

#[test]
fn masked_blit_without_mask_is_opaque() {
    let tile = gradient_tile();
    let mut fb1 = Framebuffer::new();
    let mut fb2 = Framebuffer::new();
    let mut ch = DmaChannel::claim(0);
    blit_masked(&mut fb1, &tile, 30, 40, &mut ch);
    blit_opaque(&mut fb2, &tile, 30, 40, &mut ch);
    for y in 0..SCREEN_HEIGHT {
        for x in 0..SCREEN_WIDTH {
            assert_eq!(fb1.read_pixel(x, y), fb2.read_pixel(x, y));
        }
    }
}

#[test]
fn masked_blit_preserves_underlying_pixels() {
    let base = solid_tile(0x1111);
    let overlay = DecodedTile {
        pixels: vec![0x2222; TILE_WORDS],
        masks: Some(vec![0x0000_00FF; TILE_SIZE]),
    };
    let mut fb = Framebuffer::new();
    let mut ch = DmaChannel::claim(0);
    blit_opaque(&mut fb, &base, 0, 0, &mut ch);
    blit_masked(&mut fb, &overlay, 0, 0, &mut ch);
    assert_eq!(fb.read_pixel(0, 5), 0x2222);
    assert_eq!(fb.read_pixel(7, 5), 0x2222);
    assert_eq!(fb.read_pixel(8, 5), 0x1111);
    assert_eq!(fb.read_pixel(31, 5), 0x1111);
}

#[test]
fn screen_copy_duplicates_a_drawn_tile() {
    // The screen-copy reuse path must give the same pixels as drawing the
    // tile directly at the new location.
    let tile = gradient_tile();
    let mut fb = Framebuffer::new();
    let mut ch = DmaChannel::claim(0);
    blit_opaque(&mut fb, &tile, 0, 0, &mut ch);
    let full = screen_copy(&mut fb, 0, 0, 100, 50, TILE_SIZE, TILE_SIZE, &mut ch);
    assert!(full);

    let mut direct = Framebuffer::new();
    blit_opaque(&mut direct, &tile, 100, 50, &mut ch);
    for ly in 0..TILE_SIZE {
        for lx in 0..TILE_SIZE {
            assert_eq!(
                fb.read_pixel(100 + lx, 50 + ly),
                direct.read_pixel(100 + lx, 50 + ly)
            );
        }
    }
}

#[test]
fn screen_copy_clips_destination() {
    let tile = solid_tile(0x00FF);
    let mut fb = Framebuffer::new();
    let mut ch = DmaChannel::claim(0);
    blit_opaque(&mut fb, &tile, 0, 0, &mut ch);
    let full = screen_copy(
        &mut fb,
        0,
        0,
        (SCREEN_WIDTH - 8) as i32,
        100,
        TILE_SIZE,
        TILE_SIZE,
        &mut ch,
    );
    assert!(!full);
    assert_eq!(fb.read_pixel(SCREEN_WIDTH - 1, 100), 0x00FF);
    assert_eq!(fb.read_pixel(SCREEN_WIDTH - 9, 100), 0);
}

use tilecore::codec::encode;
use tilecore::dma::DmaChannel;
use tilecore::fb::Framebuffer;
use tilecore::gate::SimulatedTransmission;
use tilecore::render::{
    fallback_tile, miss_rate_permille, render_frame, GridMap, LayerSet, RenderConfig,
};
use tilecore::tile::{AssetRegistry, TileAsset};
use tilecore::{SCREEN_HEIGHT, SCREEN_WIDTH, TILE_SIZE, TILE_WORDS};

fn solid_asset(v: u16) -> TileAsset {
    TileAsset { data: encode(&vec![v; TILE_WORDS]), mask_words: None }
}

fn overlay_asset(v: u16, mask_row: u32) -> TileAsset {
    TileAsset {
        data: encode(&vec![v; TILE_WORDS]),
        mask_words: Some(vec![mask_row; TILE_SIZE]),
    }
}

fn config() -> RenderConfig {
    RenderConfig { group_rows: 32, margin: 0, cache_enabled: true }
}

#[test]
fn two_cells_render_and_second_reuses_screen() {
    let mut reg = AssetRegistry::new();
    let base = reg.register(solid_asset(0x5555)).unwrap();
    let cells = vec![
        LayerSet { layers: vec![base] },
        LayerSet { layers: vec![base] },
    ];
    let map = GridMap { width: 2, height: 1, cells };
    let mut fb = Framebuffer::new();
    let mut progress = SimulatedTransmission::new();
    let mut a = DmaChannel::claim(0);
    let mut b = DmaChannel::claim(1);
    let fallback: Vec<u32> = Vec::new();
    let stats = render_frame(
        &mut fb, &map, &reg, &mut progress, &fallback, 0, 0, &config(), &mut a, &mut b,
    );
    // Both authored cells are on screen; everything else stays blank.
    for y in 0..TILE_SIZE {
        for x in 0..2 * TILE_SIZE {
            assert_eq!(fb.read_pixel(x, y), 0x5555);
        }
    }
    assert_eq!(fb.read_pixel(2 * TILE_SIZE, 0), 0);
    assert_eq!(fb.read_pixel(0, TILE_SIZE), 0);
    // The first cell decoded the tile, the second reused its pixels.
    assert_eq!(stats.base_misses, 1);
    assert_eq!(stats.base_hits, 1);
    assert!(!stats.slow_draw);
}

#[test]
fn screen_reuse_matches_direct_draw() {
    // Render the same map with the base cache on and off: the cached
    // screen-copy path must produce the identical frame.
    let mut reg = AssetRegistry::new();
    let pixels: Vec<u16> = (0..TILE_WORDS as u32).map(|i| (i * 13 % 65536) as u16).collect();
    let base = reg
        .register(TileAsset { data: encode(&pixels), mask_words: None })
        .unwrap();
    let cells = vec![
        LayerSet { layers: vec![base] },
        LayerSet { layers: vec![base] },
        LayerSet { layers: vec![base] },
    ];
    let fallback: Vec<u32> = Vec::new();

    let mut cached_fb = Framebuffer::new();
    {
        let map = GridMap { width: 3, height: 1, cells: cells.clone() };
        let mut progress = SimulatedTransmission::new();
        let mut a = DmaChannel::claim(0);
        let mut b = DmaChannel::claim(1);
        let stats = render_frame(
            &mut cached_fb, &map, &reg, &mut progress, &fallback, 0, 0, &config(), &mut a,
            &mut b,
        );
        assert_eq!(stats.base_hits, 2);
    }

    let mut direct_fb = Framebuffer::new();
    {
        let map = GridMap { width: 3, height: 1, cells };
        let mut progress = SimulatedTransmission::new();
        let mut a = DmaChannel::claim(0);
        let mut b = DmaChannel::claim(1);
        let cfg = RenderConfig { group_rows: 32, margin: 0, cache_enabled: false };
        let stats = render_frame(
            &mut direct_fb, &map, &reg, &mut progress, &fallback, 0, 0, &cfg, &mut a, &mut b,
        );
        assert_eq!(stats.base_hits, 0);
    }

    for y in 0..SCREEN_HEIGHT {
        for x in 0..SCREEN_WIDTH {
            assert_eq!(cached_fb.read_pixel(x, y), direct_fb.read_pixel(x, y));
        }
    }
}

#[test]
fn overlays_composite_over_base() {
    let mut reg = AssetRegistry::new();
    let base = reg.register(solid_asset(0x1111)).unwrap();
    // Overlay opaque on the left 8 columns only.
    let over = reg.register(overlay_asset(0x2222, 0x0000_00FF)).unwrap();
    let cells = vec![LayerSet { layers: vec![base, over] }];
    let map = GridMap { width: 1, height: 1, cells };
    let mut fb = Framebuffer::new();
    let mut progress = SimulatedTransmission::new();
    let mut a = DmaChannel::claim(0);
    let mut b = DmaChannel::claim(1);
    let fallback: Vec<u32> = Vec::new();
    let stats = render_frame(
        &mut fb, &map, &reg, &mut progress, &fallback, 0, 0, &config(), &mut a, &mut b,
    );
    assert_eq!(fb.read_pixel(0, 0), 0x2222);
    assert_eq!(fb.read_pixel(7, 10), 0x2222);
    assert_eq!(fb.read_pixel(8, 10), 0x1111);
    assert_eq!(fb.read_pixel(31, 31), 0x1111);
    assert_eq!(stats.overlay_misses, 1);
}

#[test]
fn fallback_covers_unauthored_cells() {
    let mut reg = AssetRegistry::new();
    let ocean = reg.register(solid_asset(0x0D5F)).unwrap();
    let map = GridMap { width: 0, height: 0, cells: Vec::new() };
    let mut fb = Framebuffer::new();
    let mut progress = SimulatedTransmission::new();
    let mut a = DmaChannel::claim(0);
    let mut b = DmaChannel::claim(1);
    let fallback = vec![ocean];
    let stats = render_frame(
        &mut fb, &map, &reg, &mut progress, &fallback, 0, 0, &config(), &mut a, &mut b,
    );
    // Coverage is never left blank.
    for y in (0..SCREEN_HEIGHT).step_by(5) {
        for x in (0..SCREEN_WIDTH).step_by(5) {
            assert_eq!(fb.read_pixel(x, y), 0x0D5F);
        }
    }
    // Every window cell costs exactly one base lookup on a blank map with
    // a fallback, and the frame's first lookup is a miss.
    assert_eq!(stats.base_hits + stats.base_misses, 81);
    assert!(stats.base_misses >= 1);
}

#[test]
fn camera_offset_shifts_the_map() {
    let mut reg = AssetRegistry::new();
    let base = reg.register(solid_asset(0x4444)).unwrap();
    let cells = vec![LayerSet { layers: vec![base] }];
    let map = GridMap { width: 1, height: 1, cells };
    let mut fb = Framebuffer::new();
    let mut progress = SimulatedTransmission::new();
    let mut a = DmaChannel::claim(0);
    let mut b = DmaChannel::claim(1);
    let fallback: Vec<u32> = Vec::new();
    // Camera 10 pixels right and 6 down: the cell lands at (-10, -6).
    render_frame(
        &mut fb, &map, &reg, &mut progress, &fallback, 10, 6, &config(), &mut a, &mut b,
    );
    assert_eq!(fb.read_pixel(0, 0), 0x4444);
    assert_eq!(fb.read_pixel(21, 25), 0x4444);
    assert_eq!(fb.read_pixel(22, 0), 0);
    assert_eq!(fb.read_pixel(0, 26), 0);
}

#[test]
fn fallback_pick_is_deterministic_and_in_range() {
    let fallback = vec![10u32, 20, 30];
    let a = fallback_tile(-7, 13, &fallback);
    let b = fallback_tile(-7, 13, &fallback);
    assert_eq!(a, b);
    assert!(fallback.contains(&a.unwrap()));
    let none: Vec<u32> = Vec::new();
    assert_eq!(fallback_tile(5, 5, &none), None);
}

#[test]
fn miss_rate_is_in_thousandths() {
    assert_eq!(miss_rate_permille(0, 0), 0);
    assert_eq!(miss_rate_permille(1, 4), 250);
    assert_eq!(miss_rate_permille(4, 4), 1000);
    assert_eq!(miss_rate_permille(0, 9), 0);
}

#[test]
fn cached_and_uncached_frames_match_with_overlays() {
    // The same base appears in several cells across two strips, each with
    // the same overlay.  The screen-copy reuse path must duplicate pure
    // base pixels only: overlays deferred for freshly decoded bases are
    // composited after the last strip, so a remembered spot never carries
    // an overlay into another cell.
    let mut reg = AssetRegistry::new();
    let pixels: Vec<u16> = (0..TILE_WORDS as u32).map(|i| (i * 11 % 65536) as u16).collect();
    let base = reg
        .register(TileAsset { data: encode(&pixels), mask_words: None })
        .unwrap();
    let over = reg.register(overlay_asset(0x3333, 0x0F0F_0F0F)).unwrap();
    let cells: Vec<LayerSet> = (0..4).map(|_| LayerSet { layers: vec![base, over] }).collect();
    let fallback: Vec<u32> = Vec::new();

    let mut cached_fb = Framebuffer::new();
    {
        let map = GridMap { width: 2, height: 2, cells: cells.clone() };
        let mut progress = SimulatedTransmission::new();
        let mut a = DmaChannel::claim(0);
        let mut b = DmaChannel::claim(1);
        let stats = render_frame(
            &mut cached_fb, &map, &reg, &mut progress, &fallback, 0, 0, &config(), &mut a, &mut b,
        );
        assert!(stats.base_hits >= 1);
    }

    let mut direct_fb = Framebuffer::new();
    {
        let map = GridMap { width: 2, height: 2, cells };
        let mut progress = SimulatedTransmission::new();
        let mut a = DmaChannel::claim(0);
        let mut b = DmaChannel::claim(1);
        let cfg = RenderConfig { group_rows: 32, margin: 0, cache_enabled: false };
        let stats = render_frame(
            &mut direct_fb, &map, &reg, &mut progress, &fallback, 0, 0, &cfg, &mut a, &mut b,
        );
        assert_eq!(stats.base_hits, 0);
    }

    for y in 0..SCREEN_HEIGHT {
        for x in 0..SCREEN_WIDTH {
            assert_eq!(cached_fb.read_pixel(x, y), direct_fb.read_pixel(x, y));
        }
    }
}

#[test]
fn fallback_pick_uses_the_hash_index() {
    // The pick is the hash of the coordinate taken modulo the table size.
    let fallback = vec![10u32, 20, 30];
    for cx in -3..3i32 {
        for cy in -3..3i32 {
            let h = ((cx as i64) + 0x8000_0000i64) * 31 + ((cy as i64) + 0x8000_0000i64) * 17;
            let idx = (h % 3) as usize;
            assert_eq!(fallback_tile(cx, cy, &fallback), Some(fallback[idx]));
        }
    }
}

use tilecore::codec::{control_word, encode};
use tilecore::dma::DmaChannel;
use tilecore::tile::{AssetRegistry, TileAsset, decode_tile};
use tilecore::{STAGE_WORDS, TILE_SIZE, TILE_WORDS};

fn checker_pixels() -> Vec<u16> {
    (0..TILE_WORDS)
        .map(|i| {
            let x = i % TILE_SIZE;
            let y = i / TILE_SIZE;
            if (x + y) % 2 == 0 { 0xF800 } else { 0x001F }
        })
        .collect()
}

#[test]
fn register_assigns_sequential_identities() {
    let mut reg = AssetRegistry::new();
    let a = TileAsset { data: encode(&checker_pixels()), mask_words: None };
    let b = TileAsset { data: encode(&vec![3u16; TILE_WORDS]), mask_words: None };
    assert_eq!(reg.register(a), Some(0));
    assert_eq!(reg.register(b), Some(1));
}

#[test]
fn register_refuses_overlong_stream() {
    let mut reg = AssetRegistry::new();
    let a = TileAsset { data: vec![0u16; STAGE_WORDS + 1], mask_words: None };
    assert_eq!(reg.register(a), None);
}

#[test]
fn register_refuses_overrunning_stream() {
    // One record that would walk the cursor past the tile's pixel grid.
    let mut reg = AssetRegistry::new();
    let mut data = Vec::new();
    for _ in 0..5 {
        data.push(control_word(0, 255));
    }
    let a = TileAsset { data, mask_words: None };
    assert_eq!(reg.register(a), None);
}

#[test]
fn register_refuses_short_mask_column() {
    let mut reg = AssetRegistry::new();
    let a = TileAsset {
        data: encode(&vec![1u16; TILE_WORDS]),
        mask_words: Some(vec![0xFFFF_FFFF; TILE_SIZE - 1]),
    };
    assert_eq!(reg.register(a), None);
}

#[test]
fn decode_tile_reproduces_pixels() {
    let pixels = checker_pixels();
    let mut reg = AssetRegistry::new();
    let id = reg
        .register(TileAsset { data: encode(&pixels), mask_words: None })
        .unwrap();
    let mut a = DmaChannel::claim(0);
    let mut b = DmaChannel::claim(1);
    let t = decode_tile(&reg, id, false, &mut a, &mut b);
    assert_eq!(t.pixels, pixels);
    assert!(t.masks.is_none());
}

#[test]
fn decode_tile_skips_leave_zeros() {
    // A stream of skips and one literal: skipped words of the
    // zero-initialized grid stay zero.
    let data = vec![control_word(0, 100), control_word(1, 0), 0x4444];
    let mut reg = AssetRegistry::new();
    let id = reg.register(TileAsset { data, mask_words: None }).unwrap();
    let mut a = DmaChannel::claim(0);
    let mut b = DmaChannel::claim(1);
    let t = decode_tile(&reg, id, false, &mut a, &mut b);
    assert_eq!(t.pixels[99], 0);
    assert_eq!(t.pixels[100], 0x4444);
    assert_eq!(t.pixels[101], 0);
}

#[test]
fn decode_tile_carries_mask_when_asked() {
    let mask: Vec<u32> = (0..TILE_SIZE as u32).map(|r| r | 0x8000_0000).collect();
    let asset = TileAsset {
        data: encode(&checker_pixels()),
        mask_words: Some(mask.clone()),
    };
    let mut reg = AssetRegistry::new();
    let id = reg.register(asset).unwrap();
    let mut a = DmaChannel::claim(0);
    let mut b = DmaChannel::claim(1);
    let with = decode_tile(&reg, id, true, &mut a, &mut b);
    assert_eq!(with.masks, Some(mask));
    let without = decode_tile(&reg, id, false, &mut a, &mut b);
    assert!(without.masks.is_none());
}

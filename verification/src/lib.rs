//! Tile-rendering core for a small handheld display.
//!
//! The library reconstructs tile pixel data from a compact run-length
//! format, places tiles into a single shared framebuffer through clipped
//! blit primitives, remembers recent work in two bounded caches, and paces
//! rendering against the ongoing transmission of the previous frame so a
//! single framebuffer can be reused without tearing.

use vstd::prelude::*;

pub mod blit;
pub mod cache;
pub mod codec;
pub mod dma;
pub mod fb;
pub mod gate;
pub mod render;
pub mod tile;

verus! {

/// Width of the visible display, in pixels.
pub const SCREEN_WIDTH: usize = 240;

/// Height of the visible display, in pixels.
pub const SCREEN_HEIGHT: usize = 240;

/// Side length of a square tile, in pixels.
pub const TILE_SIZE: usize = 32;

/// Number of 16-bit pixel words in one decoded tile.
pub const TILE_WORDS: usize = TILE_SIZE * TILE_SIZE;

/// Number of 16-bit pixel words in the framebuffer.
pub const FRAME_WORDS: usize = SCREEN_WIDTH * SCREEN_HEIGHT;

/// Capacity, in 16-bit words, of the staging buffer a compressed stream is
/// copied into before decoding.  A stream longer than this cannot be a
/// well-authored tile.
pub const STAGE_WORDS: usize = 2048;

/// Slots in the base-tile screen cache.
pub const BASE_CACHE_SLOTS: usize = 64;

/// Slots in the overlay-tile decode cache.  Deliberately small: overlays
/// are rarer and each entry holds a whole decoded tile.
pub const OVERLAY_CACHE_SLOTS: usize = 4;

/// Tile columns touched by one frame pass: enough to cover the screen at
/// any camera offset.
pub const VISIBLE_TILE_COLS: usize = 9;

/// Tile rows touched by one frame pass.
pub const VISIBLE_TILE_ROWS: usize = 9;

} // verus!

//! Decoded tiles, compressed tile assets, and the asset registry.
//!
//! A compressed asset is an immutable word stream in the codec's run-length
//! format, optionally paired with one 32-bit row mask per tile row (bit set
//! means the pixel is opaque).  Assets live in a read-only registry and are
//! identified by their registry index: two identities are equal exactly when
//! they name the same registered asset.

use vstd::prelude::*;

verus! {

use crate::codec;
use crate::dma::DmaChannel;
use crate::{STAGE_WORDS, TILE_SIZE, TILE_WORDS};

/// True when bit `i` of a row mask is set, marking an opaque pixel.
pub open spec fn mask_bit(m: u32, i: int) -> bool {
    (m >> (i as u32)) & 1 == 1
}

/// Test one bit of a row mask.
pub fn bit_is_set(m: u32, i: u32) -> (r: bool)
    requires
        i < 32,
    ensures
        r == mask_bit(m, i as int),
{
    (m >> i) & 1 == 1
}

/// A fixed-size decoded tile: `TILE_SIZE x TILE_SIZE` 16-bit pixels in
/// row-major order, plus one row mask per row when the source asset carries
/// transparency.
pub struct DecodedTile {
    pub pixels: Vec<u16>,
    pub masks: Option<Vec<u32>>,
}

impl DecodedTile {
    /// Shape invariant: a full pixel grid, and a full mask column if any.
    pub open spec fn wf(self) -> bool {
        &&& self.pixels@.len() == TILE_WORDS
        &&& match self.masks {
            Some(m) => m@.len() == TILE_SIZE,
            None => true,
        }
    }

    /// The pixel at tile-local coordinates.
    pub open spec fn pixel(self, lx: int, ly: int) -> u16 {
        self.pixels@[ly * TILE_SIZE + lx]
    }

    pub open spec fn has_mask(self) -> bool {
        self.masks is Some
    }

    /// The mask rows; empty when the tile is fully opaque.
    pub open spec fn mask_seq(self) -> Seq<u32> {
        match self.masks {
            Some(m) => m@,
            None => Seq::empty(),
        }
    }

    /// True when the pixel at tile-local coordinates is opaque.  A tile
    /// without a mask is opaque everywhere.
    pub open spec fn opaque_at(self, lx: int, ly: int) -> bool {
        match self.masks {
            Some(m) => mask_bit(m@[ly], lx),
            None => true,
        }
    }
}

/// A compressed, immutable tile asset.
pub struct TileAsset {
    /// The run-length compressed pixel stream.
    pub data: Vec<u16>,
    /// Uncompressed row masks, one word per tile row, if the tile has
    /// transparent pixels.
    pub mask_words: Option<Vec<u32>>,
}

impl TileAsset {
    /// The mask rows; empty when the asset has none.
    pub open spec fn mask_seq(self) -> Seq<u32> {
        match self.mask_words {
            Some(m) => m@,
            None => Seq::empty(),
        }
    }

    /// A well-authored asset: its stream fits the staging buffer, decodes
    /// within one tile's pixel grid, and carries a full mask column if any.
    pub open spec fn wf(self) -> bool {
        &&& self.data@.len() <= STAGE_WORDS
        &&& codec::stream_ok_from(self.data@, 0, TILE_WORDS as int, 0)
        &&& match self.mask_words {
            Some(m) => m@.len() == TILE_SIZE,
            None => true,
        }
    }
}

/// The pixel grid an asset decodes to, starting from a zero-initialized
/// buffer (skipped words stay zero).
pub open spec fn decoded_pixels(asset: TileAsset) -> Seq<u16> {
    codec::decode_from(asset.data@, 0, zero_words_spec(TILE_WORDS as nat), 0)
}

/// A sequence of `n` zero words.
pub open spec fn zero_words_spec(n: nat) -> Seq<u16> {
    Seq::new(n, |i: int| 0u16)
}

/// Allocate a zero-initialized word buffer.
pub fn zero_words(n: usize) -> (v: Vec<u16>)
    ensures
        v@ == zero_words_spec(n as nat),
{
    let mut v: Vec<u16> = Vec::new();
    let mut i: usize = 0;
    while i < n
        invariant
            i <= n,
            v@.len() == i,
            forall|j: int| 0 <= j < i ==> v@[j] == 0u16,
        decreases n - i,
    {
        v.push(0u16);
        i = i + 1;
    }
    proof {
        assert(v@ =~= zero_words_spec(n as nat));
    }
    v
}

/// The read-only registry of embedded tile assets.  An asset's identity is
/// its index here, so identities are equal exactly when they reference the
/// same asset, and the registry is append-only.
pub struct AssetRegistry {
    pub assets: Vec<TileAsset>,
}

impl AssetRegistry {
    /// Every registered asset is well authored.
    pub open spec fn wf(self) -> bool {
        forall|i: int| 0 <= i < self.assets@.len() ==> (#[trigger] self.assets@[i]).wf()
    }

    pub open spec fn count(self) -> nat {
        self.assets@.len()
    }

    pub fn new() -> (reg: AssetRegistry)
        ensures
            reg.wf(),
            reg.count() == 0,
    {
        AssetRegistry { assets: Vec::new() }
    }

    /// Validate an asset and hand back its identity.  A stream that would
    /// overrun the staging buffer or the tile's pixel grid, or a mask column
    /// of the wrong height, is a mis-authored asset and is refused.
    pub fn register(&mut self, asset: TileAsset) -> (id: Option<u32>)
        requires
            old(self).wf(),
        ensures
            final(self).wf(),
            id is Some <==> asset.wf() && old(self).count() < u32::MAX,
            match id {
                Some(i) => i == old(self).count() && final(self).assets@ == old(
                    self,
                ).assets@.push(asset),
                None => final(self).assets@ == old(self).assets@,
            },
    {
        if self.assets.len() >= u32::MAX as usize {
            return None;
        }
        if asset.data.len() > STAGE_WORDS {
            return None;
        }
        if !codec::stream_fits(&asset.data, TILE_WORDS, 0) {
            return None;
        }
        match &asset.mask_words {
            Some(m) => {
                if m.len() != TILE_SIZE {
                    return None;
                }
            },
            None => {},
        }
        let id = self.assets.len() as u32;
        self.assets.push(asset);
        Some(id)
    }

    /// Borrow the asset a valid identity names.
    pub fn asset(&self, id: u32) -> (a: &TileAsset)
        requires
            id < self.count(),
        ensures
            *a == self.assets@[id as int],
    {
        &self.assets[id as usize]
    }
}

/// Decode one registered asset into a fresh tile.  The compressed stream is
/// first staged into working memory with a plain copy transfer (asset
/// storage is not directly addressable by the decompression engine), then
/// the record stream is applied over a zero-initialized pixel grid.  The
/// mask rows, when wanted and present, are copied through unchanged.
pub fn decode_tile(
    reg: &AssetRegistry,
    id: u32,
    with_mask: bool,
    copy_ch: &mut DmaChannel,
    fill_ch: &mut DmaChannel,
) -> (t: DecodedTile)
    requires
        reg.wf(),
        id < reg.count(),
        old(copy_ch).is_idle(),
        old(fill_ch).is_idle(),
    ensures
        t.wf(),
        t.pixels@ == decoded_pixels(reg.assets@[id as int]),
        t.has_mask() == (with_mask && reg.assets@[id as int].mask_words is Some),
        t.has_mask() ==> t.mask_seq() == reg.assets@[id as int].mask_seq(),
        final(copy_ch).is_idle(),
        final(copy_ch).number() == old(copy_ch).number(),
        final(fill_ch).is_idle(),
        final(fill_ch).number() == old(fill_ch).number(),
{
    let asset = reg.asset(id);
    let n = asset.data.len();
    // Stage the stream out of asset storage into working memory.
    let mut staged = zero_words(n);
    copy_ch.start_copy(&asset.data, 0, &mut staged, 0, n);
    copy_ch.wait();
    proof {
        assert(staged@ =~= asset.data@);
    }
    let mut pixels = zero_words(TILE_WORDS);
    codec::decode_into(&staged, &mut pixels, 0, copy_ch, fill_ch);
    let masks: Option<Vec<u32>> = if with_mask {
        match &asset.mask_words {
            Some(m) => {
                let mut out: Vec<u32> = zero_mask_words(TILE_SIZE);
                copy_ch.start_copy(m, 0, &mut out, 0, TILE_SIZE);
                copy_ch.wait();
                proof {
                    assert(out@ =~= m@);
                }
                Some(out)
            },
            None => None,
        }
    } else {
        None
    };
    DecodedTile { pixels, masks }
}

/// Allocate a zero-initialized mask buffer.
fn zero_mask_words(n: usize) -> (v: Vec<u32>)
    ensures
        v@.len() == n,
{
    let mut v: Vec<u32> = Vec::new();
    let mut i: usize = 0;
    while i < n
        invariant
            i <= n,
            v@.len() == i,
        decreases n - i,
    {
        v.push(0u32);
        i = i + 1;
    }
    v
}

} // verus!

//! The synchronized per-frame draw loop.
//!
//! The renderer walks the screen in horizontal strips of tiles.  Before a
//! strip is written, the renderer waits until the display transmission
//! has moved far enough past it.  For every cell of a strip the map source
//! is asked for the cell's layer set; the base layer goes through the base
//! screen cache (hit: duplicate the pixels already on screen; miss: decode
//! and blit, then remember the spot if the draw was complete), and overlay
//! layers go through the decoded-overlay cache.  Overlays above a freshly
//! decoded base are deferred to the end of the frame, after the last
//! strip: while the base cache is in use, every spot it remembers holds
//! pure base pixels, so duplicating a remembered spot never copies an
//! overlay along.  Both caches are bounded and reset every frame; the
//! base cache is also dropped mid-frame once a strip above the visible
//! area has been drawn, because the screen spots it remembers are about
//! to be overwritten.

use vstd::prelude::*;

verus! {

use crate::blit::{
    blit_masked, blit_opaque, masked_blitted, opaque_blitted, rect_inside, screen_copy,
};
use crate::cache::BoundedCache;
use crate::dma::DmaChannel;
use crate::fb::{pix_of, Framebuffer};
use crate::gate::{wait_for_row_group, ProgressSource};
use crate::tile::{decode_tile, decoded_pixels, mask_bit, AssetRegistry, DecodedTile, TileAsset};
use crate::{
    BASE_CACHE_SLOTS, OVERLAY_CACHE_SLOTS, SCREEN_HEIGHT, SCREEN_WIDTH, TILE_SIZE,
    VISIBLE_TILE_COLS, VISIBLE_TILE_ROWS,
};

/// The ordered tile layers of one map cell: layer 0 is the opaque base,
/// later layers are transparent overlays drawn on top in order.
#[derive(Clone)]
pub struct LayerSet {
    pub layers: Vec<u32>,
}

/// An element-for-element copy of a layer set.
pub fn copy_layer_set(ls: &LayerSet) -> (r: LayerSet)
    ensures
        r.layers@ == ls.layers@,
{
    let mut out: Vec<u32> = Vec::new();
    let n = ls.layers.len();
    let mut i: usize = 0;
    while i < n
        invariant
            i <= n,
            n == ls.layers@.len(),
            out@.len() == i,
            forall|j: int| 0 <= j < i ==> out@[j] == ls.layers@[j],
        decreases n - i,
    {
        let v = ls.layers[i];
        out.push(v);
        i = i + 1;
    }
    proof {
        assert(out@ =~= ls.layers@);
    }
    LayerSet { layers: out }
}

/// Where the map comes from: a pure resolver from a map cell coordinate
/// to the cell's layer set, empty outside authored bounds.  `layer_seq`
/// is the map's mathematical view, and `resolve` must hand back exactly
/// that; a procedural generator or a baked static map implements both.
pub trait TileMapSource {
    /// The layer identities of one cell.
    spec fn layer_seq(&self, cell_x: int, cell_y: int) -> Seq<u32>;

    /// Resolve one cell.
    fn resolve(&self, cell_x: i32, cell_y: i32) -> (r: LayerSet)
        ensures
            r.layers@ == self.layer_seq(cell_x as int, cell_y as int),
    ;
}

/// A static map: a rectangle of authored cells, everything else empty.
pub struct GridMap {
    pub width: u32,
    pub height: u32,
    pub cells: Vec<LayerSet>,
}

impl TileMapSource for GridMap {
    open spec fn layer_seq(&self, cell_x: int, cell_y: int) -> Seq<u32> {
        if 0 <= cell_x < self.width && 0 <= cell_y < self.height && cell_y * self.width + cell_x
            < self.cells@.len() {
            self.cells@[cell_y * self.width + cell_x].layers@
        } else {
            Seq::empty()
        }
    }

    fn resolve(&self, cell_x: i32, cell_y: i32) -> (r: LayerSet)
        ensures
            r.layers@ == self.layer_seq(cell_x as int, cell_y as int),
    {
        if cell_x >= 0 && cell_y >= 0 && (cell_x as u32) < self.width && (cell_y as u32)
            < self.height {
            proof {
                assert((cell_y as u64) * (self.width as u64) <= 0xffff_ffffu64 * 0xffff_ffffu64)
                    by (nonlinear_arith)
                    requires
                        cell_y as u64 <= 0xffff_ffffu64,
                        self.width as u64 <= 0xffff_ffffu64,
                ;
            }
            let idx64: u64 = (cell_y as u64) * (self.width as u64) + (cell_x as u64);
            if idx64 < self.cells.len() as u64 {
                return copy_layer_set(&self.cells[idx64 as usize]);
            }
        }
        LayerSet { layers: Vec::new() }
    }
}

/// Per-frame diagnostic counters, reported to the caller and otherwise
/// never used to drive behavior.
pub struct FrameStats {
    pub base_hits: u32,
    pub base_misses: u32,
    pub base_rejects: u32,
    pub overlay_hits: u32,
    pub overlay_misses: u32,
    pub overlay_rejects: u32,
    pub slow_draw: bool,
}

impl FrameStats {
    pub fn new() -> (s: FrameStats)
        ensures
            s.base_hits == 0 && s.base_misses == 0 && s.base_rejects == 0,
            s.overlay_hits == 0 && s.overlay_misses == 0 && s.overlay_rejects == 0,
            !s.slow_draw,
    {
        FrameStats {
            base_hits: 0,
            base_misses: 0,
            base_rejects: 0,
            overlay_hits: 0,
            overlay_misses: 0,
            overlay_rejects: 0,
            slow_draw: false,
        }
    }
}

/// A counter bump that can never overflow a frame summary.
pub open spec fn sat_inc_spec(c: u32) -> u32 {
    if c < u32::MAX {
        (c + 1) as u32
    } else {
        c
    }
}

/// Saturating increment for a diagnostic counter.
pub fn sat_inc(c: u32) -> (r: u32)
    ensures
        r == sat_inc_spec(c),
{
    if c < u32::MAX {
        c + 1
    } else {
        c
    }
}

/// A cache miss rate in thousandths, for the frame summary.
pub fn miss_rate_permille(misses: u32, lookups: u32) -> (r: u32)
    requires
        misses <= lookups,
    ensures
        lookups > 0 ==> r == misses as int * 1000 / lookups as int,
        lookups == 0 ==> r == 0,
        r <= 1000,
{
    if lookups == 0 {
        0
    } else {
        let r64: u64 = (misses as u64) * 1000 / (lookups as u64);
        proof {
            assert(misses as int * 1000 / lookups as int <= 1000) by (nonlinear_arith)
                requires
                    0 < lookups <= u32::MAX,
                    0 <= misses <= lookups,
            ;
        }
        r64 as u32
    }
}

/// True when every visible pixel outside the tile rectangle at `(x, y)`
/// is the same in both framebuffer states: a draw of that tile touched
/// nothing else.
pub open spec fn outside_tile_rect_unchanged(fb0: Seq<u16>, fb1: Seq<u16>, x: int, y: int) -> bool {
    forall|px: int, py: int|
        0 <= px < SCREEN_WIDTH && 0 <= py < SCREEN_HEIGHT && !(x <= px < x + TILE_SIZE && y <= py
            < y + TILE_SIZE) ==> #[trigger] pix_of(fb1, px, py) == pix_of(fb0, px, py)
}

/// True when the pixel at tile-local coordinates of an asset is opaque:
/// its mask bit is set, or the asset carries no mask at all.
pub open spec fn asset_opaque_at(asset: TileAsset, lx: int, ly: int) -> bool {
    match asset.mask_words {
        Some(m) => mask_bit(m@[ly], lx),
        None => true,
    }
}

/// One overlay layer applied to the pixel underneath: the layer's decoded
/// pixel where it is opaque, the underlying pixel elsewhere.  An identity
/// outside the registry draws nothing.
pub open spec fn apply_overlay(reg: AssetRegistry, id: int, lx: int, ly: int, under: u16) -> u16 {
    if 0 <= id < reg.assets@.len() && asset_opaque_at(reg.assets@[id], lx, ly) {
        decoded_pixels(reg.assets@[id])[ly * TILE_SIZE + lx]
    } else {
        under
    }
}

/// The pixel at tile-local coordinates after compositing the layers with
/// indices in `[first, end)` over `under`, in order: the last layer lands
/// on top.
pub open spec fn composited_pixel(
    reg: AssetRegistry,
    layers: Seq<u32>,
    first: int,
    end: int,
    lx: int,
    ly: int,
    under: u16,
) -> u16
    decreases end - first,
{
    if end <= first || end < 1 || end > layers.len() {
        under
    } else {
        apply_overlay(
            reg,
            layers[end - 1] as int,
            lx,
            ly,
            composited_pixel(reg, layers, first, end - 1, lx, ly, under),
        )
    }
}

/// True when the map authors no cell anywhere, so every visible cell
/// falls back.
pub open spec fn map_is_blank<M: TileMapSource>(map: M) -> bool {
    forall|cx: int, cy: int| (#[trigger] map.layer_seq(cx, cy)).len() == 0
}

/// A well-formed base cache: every remembered screen spot is a complete
/// tile footprint inside the visible bounds.
pub open spec fn base_cache_ok(c: BoundedCache<(u16, u16)>) -> bool {
    &&& c.wf()
    &&& forall|k: u32|
        #[trigger] c.model().contains_key(k) ==> c.model()[k].0 + TILE_SIZE <= SCREEN_WIDTH
            && c.model()[k].1 + TILE_SIZE <= SCREEN_HEIGHT
}

/// One overlay-cache entry agrees with the registry: it is the full
/// decode, mask included, of the registered asset its identity names.
pub open spec fn overlay_entry_coherent(t: DecodedTile, reg: AssetRegistry, id: int) -> bool {
    &&& t.wf()
    &&& 0 <= id < reg.assets@.len()
    &&& t.pixels@ == decoded_pixels(reg.assets@[id])
    &&& t.has_mask() == (reg.assets@[id].mask_words is Some)
    &&& (t.has_mask() ==> t.mask_seq() == reg.assets@[id].mask_seq())
}

/// A coherent overlay cache: every remembered tile is the decode of the
/// asset its identity names, so a cache hit draws the same pixels a fresh
/// decode would.
pub open spec fn overlay_cache_coherent(c: BoundedCache<DecodedTile>, reg: AssetRegistry) -> bool {
    &&& c.wf()
    &&& forall|k: u32|
        #[trigger] c.model().contains_key(k) ==> overlay_entry_coherent(c.model()[k], reg, k as int)
}

/// The hash a fallback pick is made from: a fixed affine mix of the cell
/// coordinate, shifted into the non-negative range.
pub open spec fn fallback_hash(cell_x: int, cell_y: int) -> int {
    (cell_x + 0x8000_0000) * 31 + (cell_y + 0x8000_0000) * 17
}

/// The deterministic stand-in for a cell outside the authored map: the
/// fallback table entry selected by hashing the cell coordinate, so
/// coverage is never left blank.  `None` only when no fallback tiles were
/// configured.
pub fn fallback_tile(cell_x: i32, cell_y: i32, fallback: &Vec<u32>) -> (r: Option<u32>)
    ensures
        (r is Some) == (fallback@.len() > 0),
        match r {
            Some(i) => i == fallback@[fallback_hash(cell_x as int, cell_y as int) % (
            fallback@.len() as int)],
            None => true,
        },
{
    let n = fallback.len();
    if n == 0 {
        return None;
    }
    let ux: u64 = ((cell_x as i64) + 0x8000_0000i64) as u64;
    let uy: u64 = ((cell_y as i64) + 0x8000_0000i64) as u64;
    let h: u64 = ux * 31 + uy * 17;
    let idx = (h % (n as u64)) as usize;
    proof {
        assert(h % (n as u64) < n as u64) by (nonlinear_arith)
            requires
                n > 0,
        ;
    }
    Some(fallback[idx])
}

/// One overlay blit advances the composite by one layer: with the
/// framebuffer holding the composite of layers `[first, li)` inside the
/// tile rectangle, a masked blit of layer `li`'s decoded tile leaves the
/// composite of `[first, li + 1)`, and still touches nothing outside.
proof fn lemma_overlay_step(
    reg: AssetRegistry,
    layers: Seq<u32>,
    first: int,
    li: int,
    sx: int,
    sy: int,
    fb0: Seq<u16>,
    prev: Seq<u16>,
    cur: Seq<u16>,
    t: DecodedTile,
)
    requires
        0 <= first <= li < layers.len(),
        overlay_entry_coherent(t, reg, layers[li] as int),
        masked_blitted(prev, cur, t, sx, sy),
        prev.len() == fb0.len(),
        forall|px: int, py: int|
            0 <= px < SCREEN_WIDTH && 0 <= py < SCREEN_HEIGHT && sx <= px < sx + TILE_SIZE && sy
                <= py < sy + TILE_SIZE ==> #[trigger] pix_of(prev, px, py) == composited_pixel(
                reg,
                layers,
                first,
                li,
                px - sx,
                py - sy,
                pix_of(fb0, px, py),
            ),
        outside_tile_rect_unchanged(fb0, prev, sx, sy),
    ensures
        cur.len() == fb0.len(),
        forall|px: int, py: int|
            0 <= px < SCREEN_WIDTH && 0 <= py < SCREEN_HEIGHT && sx <= px < sx + TILE_SIZE && sy
                <= py < sy + TILE_SIZE ==> #[trigger] pix_of(cur, px, py) == composited_pixel(
                reg,
                layers,
                first,
                li + 1,
                px - sx,
                py - sy,
                pix_of(fb0, px, py),
            ),
        outside_tile_rect_unchanged(fb0, cur, sx, sy),
{
    let id = layers[li] as int;
    let asset = reg.assets@[id];
    assert forall|px: int, py: int|
        0 <= px < SCREEN_WIDTH && 0 <= py < SCREEN_HEIGHT && sx <= px < sx + TILE_SIZE && sy <= py
            < sy + TILE_SIZE implies #[trigger] pix_of(cur, px, py) == composited_pixel(
        reg,
        layers,
        first,
        li + 1,
        px - sx,
        py - sy,
        pix_of(fb0, px, py),
    ) by {
        let lx = px - sx;
        let ly = py - sy;
        assert(pix_of(prev, px, py) == composited_pixel(
            reg,
            layers,
            first,
            li,
            lx,
            ly,
            pix_of(fb0, px, py),
        ));
        if t.has_mask() {
            assert(t.masks is Some);
            assert(asset.mask_words is Some);
            assert(t.mask_seq() == asset.mask_seq());
            assert(t.opaque_at(lx, ly) == mask_bit(t.mask_seq()[ly], lx));
            assert(asset_opaque_at(asset, lx, ly) == mask_bit(asset.mask_seq()[ly], lx));
        } else {
            assert(t.opaque_at(lx, ly));
            assert(!(asset.mask_words is Some));
            assert(asset_opaque_at(asset, lx, ly));
        }
        assert(t.opaque_at(lx, ly) == asset_opaque_at(asset, lx, ly));
        assert(t.opaque_at(lx, ly) ==> t.pixel(lx, ly) == decoded_pixels(asset)[ly * TILE_SIZE
            + lx]);
    }
    assert forall|px: int, py: int|
        0 <= px < SCREEN_WIDTH && 0 <= py < SCREEN_HEIGHT && !(sx <= px < sx + TILE_SIZE && sy
            <= py < sy + TILE_SIZE) implies #[trigger] pix_of(cur, px, py) == pix_of(
        fb0,
        px,
        py,
    ) by {
        assert(pix_of(prev, px, py) == pix_of(fb0, px, py));
    }
}

/// Composite the overlay layers (indices `first` and up) of one cell at a
/// screen position, through the overlay decode cache.  Inside the tile
/// rectangle the result is exactly the layers' in-order composite over
/// what was there; outside it nothing changes.
pub fn draw_overlays(
    fb: &mut Framebuffer,
    reg: &AssetRegistry,
    overlay_cache: &mut BoundedCache<DecodedTile>,
    layers: &LayerSet,
    first: usize,
    sx: i32,
    sy: i32,
    ch_a: &mut DmaChannel,
    ch_b: &mut DmaChannel,
    stats: &mut FrameStats,
)
    requires
        old(fb).wf(),
        reg.wf(),
        overlay_cache_coherent(*old(overlay_cache), *reg),
        old(ch_a).is_idle(),
        old(ch_b).is_idle(),
    ensures
        final(fb).wf(),
        overlay_cache_coherent(*final(overlay_cache), *reg),
        final(overlay_cache).capacity() == old(overlay_cache).capacity(),
        final(ch_a).is_idle(),
        final(ch_a).number() == old(ch_a).number(),
        final(ch_b).is_idle(),
        final(ch_b).number() == old(ch_b).number(),
        outside_tile_rect_unchanged(old(fb).pixels@, final(fb).pixels@, sx as int, sy as int),
        forall|px: int, py: int|
            0 <= px < SCREEN_WIDTH && 0 <= py < SCREEN_HEIGHT && sx <= px < sx + TILE_SIZE && sy
                <= py < sy + TILE_SIZE ==> #[trigger] pix_of(final(fb).pixels@, px, py)
                == composited_pixel(
                *reg,
                layers.layers@,
                first as int,
                layers.layers@.len() as int,
                px - sx,
                py - sy,
                pix_of(old(fb).pixels@, px, py),
            ),
        final(stats).base_hits == old(stats).base_hits,
        final(stats).base_misses == old(stats).base_misses,
        final(stats).base_rejects == old(stats).base_rejects,
        final(stats).slow_draw == old(stats).slow_draw,
{
    let ghost num_a: u8 = ch_a.number();
    let ghost num_b: u8 = ch_b.number();
    let ghost fb0: Seq<u16> = fb.pixels@;
    let n = layers.layers.len();
    let mut li: usize = first;
    if li >= n {
        return ;
    }
    while li < n
        invariant
            first <= li <= n,
            n == layers.layers@.len(),
            fb.wf(),
            reg.wf(),
            overlay_cache_coherent(*overlay_cache, *reg),
            overlay_cache.capacity() == old(overlay_cache).capacity(),
            ch_a.is_idle(),
            ch_a.number() == num_a,
            ch_b.is_idle(),
            ch_b.number() == num_b,
            fb.pixels@.len() == fb0.len(),
            outside_tile_rect_unchanged(fb0, fb.pixels@, sx as int, sy as int),
            forall|px: int, py: int|
                0 <= px < SCREEN_WIDTH && 0 <= py < SCREEN_HEIGHT && sx <= px < sx + TILE_SIZE
                    && sy <= py < sy + TILE_SIZE ==> #[trigger] pix_of(fb.pixels@, px, py)
                    == composited_pixel(
                    *reg,
                    layers.layers@,
                    first as int,
                    li as int,
                    px - sx,
                    py - sy,
                    pix_of(fb0, px, py),
                ),
            stats.base_hits == old(stats).base_hits,
            stats.base_misses == old(stats).base_misses,
            stats.base_rejects == old(stats).base_rejects,
            stats.slow_draw == old(stats).slow_draw,
        decreases n - li,
    {
        let ghost prev: Seq<u16> = fb.pixels@;
        let id = layers.layers[li];
        if (id as usize) < reg.assets.len() {
            let ghost prev_model = overlay_cache.model();
            let mut cached = false;
            match overlay_cache.get(id) {
                Some(t) => {
                    blit_masked(fb, t, sx, sy, ch_a);
                    proof {
                        lemma_overlay_step(
                            *reg,
                            layers.layers@,
                            first as int,
                            li as int,
                            sx as int,
                            sy as int,
                            fb0,
                            prev,
                            fb.pixels@,
                            *t,
                        );
                    }
                    cached = true;
                },
                None => {},
            }
            if cached {
                stats.overlay_hits = sat_inc(stats.overlay_hits);
            } else {
                stats.overlay_misses = sat_inc(stats.overlay_misses);
                let t = decode_tile(reg, id, true, ch_a, ch_b);
                blit_masked(fb, &t, sx, sy, ch_a);
                proof {
                    lemma_overlay_step(
                        *reg,
                        layers.layers@,
                        first as int,
                        li as int,
                        sx as int,
                        sy as int,
                        fb0,
                        prev,
                        fb.pixels@,
                        t,
                    );
                }
                let accepted = overlay_cache.insert(id, t);
                if !accepted {
                    stats.overlay_rejects = sat_inc(stats.overlay_rejects);
                }
                proof {
                    assert forall|k: u32| #[trigger] overlay_cache.model().contains_key(
                        k,
                    ) implies overlay_entry_coherent(overlay_cache.model()[k], *reg, k as int) by {
                        if k != id {
                            assert(prev_model.contains_key(k));
                        }
                    }
                }
            }
        } else {
            proof {
                assert forall|px: int, py: int|
                    0 <= px < SCREEN_WIDTH && 0 <= py < SCREEN_HEIGHT && sx <= px < sx + TILE_SIZE
                        && sy <= py < sy + TILE_SIZE implies #[trigger] pix_of(fb.pixels@, px, py)
                    == composited_pixel(
                    *reg,
                    layers.layers@,
                    first as int,
                    li + 1,
                    px - sx,
                    py - sy,
                    pix_of(fb0, px, py),
                ) by {
                    assert(pix_of(prev, px, py) == composited_pixel(
                        *reg,
                        layers.layers@,
                        first as int,
                        li as int,
                        px - sx,
                        py - sy,
                        pix_of(fb0, px, py),
                    ));
                }
            }
        }
        li = li + 1;
    }
}

/// How one cell's base layer was placed.
pub enum BasePlacement {
    /// Nothing drawn: the layer list was empty or its base identity is
    /// not registered.
    Empty,
    /// The base was decoded afresh and blitted; its overlays, if any,
    /// were deferred to the end of the frame.
    Fresh { full: bool },
    /// The base was duplicated on screen from a remembered spot, and the
    /// overlays were composited at once.
    Reused { spot_x: u16, spot_y: u16 },
}

/// A cell whose base was freshly decoded this frame and whose overlays
/// still have to be composited after the last strip.
pub struct DeferredCell {
    pub sx: i32,
    pub sy: i32,
    pub layers: LayerSet,
}

/// Draw one resolved map cell at a screen position.  The base layer goes
/// through the base screen cache: a remembered, non-overlapping spot is
/// duplicated with a screen copy and the overlays are composited at once;
/// otherwise the base is decoded and blitted, a complete draw is
/// remembered, and the overlays are deferred.  The returned placement
/// says which happened, and the contract fixes the tile rectangle's
/// pixels for each outcome.
pub fn draw_cell(
    fb: &mut Framebuffer,
    reg: &AssetRegistry,
    base_cache: &mut BoundedCache<(u16, u16)>,
    overlay_cache: &mut BoundedCache<DecodedTile>,
    deferred: &mut Vec<DeferredCell>,
    layers: &LayerSet,
    sx: i32,
    sy: i32,
    cache_enabled: bool,
    ch_a: &mut DmaChannel,
    ch_b: &mut DmaChannel,
    stats: &mut FrameStats,
) -> (placed: BasePlacement)
    requires
        old(fb).wf(),
        reg.wf(),
        base_cache_ok(*old(base_cache)),
        overlay_cache_coherent(*old(overlay_cache), *reg),
        old(ch_a).is_idle(),
        old(ch_b).is_idle(),
    ensures
        final(fb).wf(),
        base_cache_ok(*final(base_cache)),
        final(base_cache).capacity() == old(base_cache).capacity(),
        overlay_cache_coherent(*final(overlay_cache), *reg),
        final(overlay_cache).capacity() == old(overlay_cache).capacity(),
        final(ch_a).is_idle(),
        final(ch_a).number() == old(ch_a).number(),
        final(ch_b).is_idle(),
        final(ch_b).number() == old(ch_b).number(),
        outside_tile_rect_unchanged(old(fb).pixels@, final(fb).pixels@, sx as int, sy as int),
        (placed is Empty) == (layers.layers@.len() == 0 || layers.layers@[0] as int
            >= reg.assets@.len()),
        match placed {
            BasePlacement::Empty => {
                &&& final(fb).pixels@ == old(fb).pixels@
                &&& final(deferred)@ == old(deferred)@
                &&& final(base_cache).model() == old(base_cache).model()
                &&& *final(stats) == *old(stats)
            },
            BasePlacement::Fresh { full } => {
                &&& opaque_blitted(
                    old(fb).pixels@,
                    final(fb).pixels@,
                    decoded_pixels(reg.assets@[layers.layers@[0] as int]),
                    sx as int,
                    sy as int,
                )
                &&& full == rect_inside(sx as int, sy as int, TILE_SIZE as int, TILE_SIZE as int)
                &&& if layers.layers@.len() > 1 {
                    &&& final(deferred)@.len() == old(deferred)@.len() + 1
                    &&& final(deferred)@.last().sx == sx
                    &&& final(deferred)@.last().sy == sy
                    &&& final(deferred)@.last().layers.layers@ == layers.layers@
                    &&& forall|i: int|
                        0 <= i < old(deferred)@.len() ==> final(deferred)@[i] == old(deferred)@[i]
                } else {
                    final(deferred)@ == old(deferred)@
                }
                &&& final(stats).base_misses == sat_inc_spec(old(stats).base_misses)
                &&& final(stats).base_hits == old(stats).base_hits
                &&& (final(stats).base_rejects == old(stats).base_rejects || final(stats).base_rejects == sat_inc_spec(old(stats).base_rejects))
                &&& final(stats).overlay_hits == old(stats).overlay_hits
                &&& final(stats).overlay_misses == old(stats).overlay_misses
                &&& final(stats).overlay_rejects == old(stats).overlay_rejects
                &&& final(stats).slow_draw == old(stats).slow_draw
            },
            BasePlacement::Reused { spot_x, spot_y } => {
                &&& old(base_cache).model().contains_key(layers.layers@[0])
                &&& old(base_cache).model()[layers.layers@[0]] == (spot_x, spot_y)
                &&& spot_x + TILE_SIZE <= SCREEN_WIDTH
                &&& spot_y + TILE_SIZE <= SCREEN_HEIGHT
                &&& forall|px: int, py: int|
                    0 <= px < SCREEN_WIDTH && 0 <= py < SCREEN_HEIGHT && sx <= px < sx + TILE_SIZE
                        && sy <= py < sy + TILE_SIZE ==> #[trigger] pix_of(
                        final(fb).pixels@,
                        px,
                        py,
                    ) == composited_pixel(
                        *reg,
                        layers.layers@,
                        1,
                        layers.layers@.len() as int,
                        px - sx,
                        py - sy,
                        pix_of(old(fb).pixels@, spot_x + (px - sx), spot_y + (py - sy)),
                    )
                &&& final(deferred)@ == old(deferred)@
                &&& final(base_cache).model() == old(base_cache).model()
                &&& final(stats).base_hits == sat_inc_spec(old(stats).base_hits)
                &&& final(stats).base_misses == old(stats).base_misses
                &&& final(stats).base_rejects == old(stats).base_rejects
                &&& final(stats).slow_draw == old(stats).slow_draw
            },
        },
{
    let ghost fb0: Seq<u16> = fb.pixels@;
    if layers.layers.len() == 0 {
        return BasePlacement::Empty;
    }
    let base = layers.layers[0];
    if (base as usize) >= reg.assets.len() {
        // A layer reference outside the registry is a mis-authored map
        // cell; there is nothing it could draw.
        return BasePlacement::Empty;
    }
    let mut reuse: Option<(u16, u16)> = None;
    match base_cache.get(base) {
        Some(p) => {
            let (cx, cy) = *p;
            // Reuse only a spot whose rectangle does not overlap the
            // target; duplicating a spot onto itself would read what it
            // writes.
            let disjoint = (cx as i64) + (TILE_SIZE as i64) <= (sx as i64) || (sx as i64) + (
            TILE_SIZE as i64) <= (cx as i64) || (cy as i64) + (TILE_SIZE as i64) <= (sy as i64) || (
            sy as i64) + (TILE_SIZE as i64) <= (cy as i64);
            if disjoint {
                reuse = Some((cx, cy));
            }
        },
        None => {},
    }
    match reuse {
        Some((cx, cy)) => {
            stats.base_hits = sat_inc(stats.base_hits);
            screen_copy(fb, cx as usize, cy as usize, sx, sy, TILE_SIZE, TILE_SIZE, ch_a);
            let ghost mid: Seq<u16> = fb.pixels@;
            draw_overlays(fb, reg, overlay_cache, layers, 1, sx, sy, ch_a, ch_b, stats);
            proof {
                assert forall|px: int, py: int|
                    0 <= px < SCREEN_WIDTH && 0 <= py < SCREEN_HEIGHT && !(sx <= px < sx
                        + TILE_SIZE && sy <= py < sy + TILE_SIZE) implies #[trigger] pix_of(
                    fb.pixels@,
                    px,
                    py,
                ) == pix_of(fb0, px, py) by {
                    assert(pix_of(mid, px, py) == pix_of(fb0, px, py));
                }
                assert forall|px: int, py: int|
                    0 <= px < SCREEN_WIDTH && 0 <= py < SCREEN_HEIGHT && sx <= px < sx + TILE_SIZE
                        && sy <= py < sy + TILE_SIZE implies #[trigger] pix_of(fb.pixels@, px, py)
                    == composited_pixel(
                    *reg,
                    layers.layers@,
                    1,
                    layers.layers@.len() as int,
                    px - sx,
                    py - sy,
                    pix_of(fb0, cx + (px - sx), cy + (py - sy)),
                ) by {
                    assert(pix_of(mid, px, py) == pix_of(fb0, cx + (px - sx), cy + (py - sy)));
                }
            }
            BasePlacement::Reused { spot_x: cx, spot_y: cy }
        },
        None => {
            stats.base_misses = sat_inc(stats.base_misses);
            let ghost prev_model = base_cache.model();
            let t = decode_tile(reg, base, false, ch_a, ch_b);
            let full = blit_opaque(fb, &t, sx, sy, ch_a);
            if full && cache_enabled {
                let accepted = base_cache.insert(base, (sx as u16, sy as u16));
                if !accepted {
                    stats.base_rejects = sat_inc(stats.base_rejects);
                }
                proof {
                    assert forall|k: u32| #[trigger] base_cache.model().contains_key(
                        k,
                    ) implies base_cache.model()[k].0 + TILE_SIZE <= SCREEN_WIDTH
                        && base_cache.model()[k].1 + TILE_SIZE <= SCREEN_HEIGHT by {
                        if k != base {
                            assert(prev_model.contains_key(k));
                        }
                    }
                }
            }
            if layers.layers.len() > 1 {
                let kept = copy_layer_set(layers);
                deferred.push(DeferredCell { sx, sy, layers: kept });
            }
            BasePlacement::Fresh { full }
        },
    }
}

/// How a frame pass is run.
pub struct RenderConfig {
    /// Rows per synchronization step.
    pub group_rows: u32,
    /// Extra safety rows the consumer must stay ahead by.
    pub margin: u32,
    /// Whether complete base draws are remembered for screen-copy reuse.
    pub cache_enabled: bool,
}

/// Render one full frame into the shared framebuffer, strip of tiles by
/// strip of tiles, each strip paced against the transmission of the
/// previous frame; deferred overlays are composited once the last strip
/// is done.  The camera gives the world pixel coordinate of the screen's
/// top-left corner; it is bounded so that all coordinate arithmetic stays
/// within machine range.  Returns the frame's diagnostic counters; at
/// most one base lookup is counted per visible cell.
pub fn render_frame<M: TileMapSource, P: ProgressSource>(
    fb: &mut Framebuffer,
    map: &M,
    reg: &AssetRegistry,
    progress: &mut P,
    fallback: &Vec<u32>,
    cam_x: i32,
    cam_y: i32,
    cfg: &RenderConfig,
    ch_a: &mut DmaChannel,
    ch_b: &mut DmaChannel,
) -> (stats: FrameStats)
    requires
        old(fb).wf(),
        reg.wf(),
        old(ch_a).is_idle(),
        old(ch_b).is_idle(),
        forall|i: int| 0 <= i < fallback@.len() ==> (#[trigger] fallback@[i]) < reg.count(),
        -16_000_000 <= cam_x <= 16_000_000,
        -16_000_000 <= cam_y <= 16_000_000,
        cfg.group_rows <= SCREEN_HEIGHT,
        cfg.margin <= SCREEN_HEIGHT,
    ensures
        final(fb).wf(),
        final(ch_a).is_idle(),
        final(ch_a).number() == old(ch_a).number(),
        final(ch_b).is_idle(),
        final(ch_b).number() == old(ch_b).number(),
        stats.base_hits + stats.base_misses <= VISIBLE_TILE_ROWS * VISIBLE_TILE_COLS,
        map_is_blank(*map) && fallback@.len() > 0 ==> stats.base_hits + stats.base_misses
            == VISIBLE_TILE_ROWS * VISIBLE_TILE_COLS && stats.base_misses >= 1,
{
    let ghost num_a: u8 = ch_a.number();
    let ghost num_b: u8 = ch_b.number();
    let mut stats = FrameStats::new();
    let mut base_cache: BoundedCache<(u16, u16)> = BoundedCache::new(BASE_CACHE_SLOTS);
    let mut overlay_cache: BoundedCache<DecodedTile> = BoundedCache::new(OVERLAY_CACHE_SLOTS);
    let mut deferred: Vec<DeferredCell> = Vec::new();
    let row0 = tile_floor(cam_y);
    let col0 = tile_floor(cam_x);
    let mut ty: usize = 0;
    while ty < VISIBLE_TILE_ROWS
        invariant
            ty <= VISIBLE_TILE_ROWS,
            fb.wf(),
            reg.wf(),
            base_cache_ok(base_cache),
            overlay_cache_coherent(overlay_cache, *reg),
            ch_a.is_idle(),
            ch_a.number() == num_a,
            ch_b.is_idle(),
            ch_b.number() == num_b,
            forall|i: int| 0 <= i < fallback@.len() ==> (#[trigger] fallback@[i]) < reg.count(),
            -16_000_000 <= cam_x <= 16_000_000,
            -16_000_000 <= cam_y <= 16_000_000,
            cfg.group_rows <= SCREEN_HEIGHT,
            cfg.margin <= SCREEN_HEIGHT,
            TILE_SIZE as int * row0 <= cam_y < TILE_SIZE as int * row0 + TILE_SIZE,
            TILE_SIZE as int * col0 <= cam_x < TILE_SIZE as int * col0 + TILE_SIZE,
            stats.base_hits + stats.base_misses <= ty * VISIBLE_TILE_COLS,
            ty == 0 ==> base_cache.model() == Map::<u32, (u16, u16)>::empty(),
            map_is_blank(*map) && fallback@.len() > 0 ==> stats.base_hits + stats.base_misses
                == ty * VISIBLE_TILE_COLS && (ty >= 1 ==> stats.base_misses >= 1),
        decreases VISIBLE_TILE_ROWS - ty,
    {
        let cell_y = row0 + ty as i32;
        let sy: i32 = cell_y * (TILE_SIZE as i32) - cam_y;
        // Pace this strip: its bottom row must stay a row group plus the
        // margin behind the transmission.
        let strip_bottom: i32 = sy + TILE_SIZE as i32;
        let drawn_row: u32 = if strip_bottom < 0 {
            0
        } else if strip_bottom > SCREEN_HEIGHT as i32 {
            SCREEN_HEIGHT as u32
        } else {
            strip_bottom as u32
        };
        let pace = wait_for_row_group(progress, drawn_row, cfg.group_rows, cfg.margin);
        if pace.1 {
            stats.slow_draw = true;
        }
        let mut tx: usize = 0;
        while tx < VISIBLE_TILE_COLS
            invariant
                tx <= VISIBLE_TILE_COLS,
                fb.wf(),
                reg.wf(),
                base_cache_ok(base_cache),
                overlay_cache_coherent(overlay_cache, *reg),
                ch_a.is_idle(),
                ch_a.number() == num_a,
                ch_b.is_idle(),
                ch_b.number() == num_b,
                forall|i: int| 0 <= i < fallback@.len() ==> (#[trigger] fallback@[i]) < reg.count(),
                -16_000_000 <= cam_x <= 16_000_000,
                -16_000_000 <= cam_y <= 16_000_000,
                TILE_SIZE as int * col0 <= cam_x < TILE_SIZE as int * col0 + TILE_SIZE,
                cell_y == row0 + ty,
                TILE_SIZE as int * row0 <= cam_y < TILE_SIZE as int * row0 + TILE_SIZE,
                ty < VISIBLE_TILE_ROWS,
                sy == cell_y * TILE_SIZE - cam_y,
                stats.base_hits + stats.base_misses <= ty * VISIBLE_TILE_COLS + tx,
                ty * VISIBLE_TILE_COLS + tx == 0 ==> base_cache.model() == Map::<
                    u32,
                    (u16, u16),
                >::empty(),
                map_is_blank(*map) && fallback@.len() > 0 ==> stats.base_hits + stats.base_misses
                    == ty * VISIBLE_TILE_COLS + tx && (ty * VISIBLE_TILE_COLS + tx >= 1
                    ==> stats.base_misses >= 1),
            decreases VISIBLE_TILE_COLS - tx,
        {
            let cell_x = col0 + tx as i32;
            let sx: i32 = cell_x * (TILE_SIZE as i32) - cam_x;
            let resolved = map.resolve(cell_x, cell_y);
            proof {
                assert(resolved.layers@ == map.layer_seq(cell_x as int, cell_y as int));
            }
            let cell_layers = if resolved.layers.len() == 0 {
                match fallback_tile(cell_x, cell_y, fallback) {
                    Some(fid) => {
                        let mut one: Vec<u32> = Vec::new();
                        one.push(fid);
                        LayerSet { layers: one }
                    },
                    None => LayerSet { layers: Vec::new() },
                }
            } else {
                resolved
            };
            proof {
                if map_is_blank(*map) && fallback@.len() > 0 {
                    // A blank map resolves nothing, so this cell took the
                    // fallback pick, which names a registered asset: the
                    // cell is drawable and costs exactly one base lookup.
                    assert(cell_layers.layers@.len() == 1);
                    assert(fallback@[fallback_hash(cell_x as int, cell_y as int) % (
                    fallback@.len() as int)] < reg.count());
                }
            }
            let ghost cache_before: Map<u32, (u16, u16)> = base_cache.model();
            let ghost hits_before: u32 = stats.base_hits;
            let ghost misses_before: u32 = stats.base_misses;
            let placed = draw_cell(
                fb,
                reg,
                &mut base_cache,
                &mut overlay_cache,
                &mut deferred,
                &cell_layers,
                sx,
                sy,
                cfg.cache_enabled,
                ch_a,
                ch_b,
                &mut stats,
            );
            proof {
                if map_is_blank(*map) && fallback@.len() > 0 {
                    assert(!(placed is Empty));
                    match placed {
                        BasePlacement::Empty => {
                            assert(false);
                        },
                        BasePlacement::Fresh { full } => {
                            assert(misses_before < u32::MAX);
                            assert(stats.base_misses == misses_before + 1);
                            assert(stats.base_hits == hits_before);
                        },
                        BasePlacement::Reused { spot_x, spot_y } => {
                            assert(cache_before.contains_key(cell_layers.layers@[0]));
                            if ty * VISIBLE_TILE_COLS + tx == 0 {
                                // The frame's first lookup cannot hit an
                                // empty cache.
                                assert(false);
                            }
                            assert(hits_before < u32::MAX);
                            assert(stats.base_hits == hits_before + 1);
                            assert(stats.base_misses == misses_before);
                        },
                    }
                }
            }
            tx = tx + 1;
        }
        if sy < 0 {
            // This strip reached above the visible top; the spots the base
            // cache remembers are about to be overwritten as rendering
            // continues downward, so drop them.
            base_cache.clear();
        }
        ty = ty + 1;
    }
    // Composite the overlays that were deferred while their bases were
    // decoded fresh.  This runs after the last strip, so no spot the base
    // cache served during the frame was ever composited over.
    let ghost hits_done: u32 = stats.base_hits;
    let ghost misses_done: u32 = stats.base_misses;
    let mut d: usize = 0;
    while d < deferred.len()
        invariant
            d <= deferred@.len(),
            fb.wf(),
            reg.wf(),
            overlay_cache_coherent(overlay_cache, *reg),
            ch_a.is_idle(),
            ch_a.number() == num_a,
            ch_b.is_idle(),
            ch_b.number() == num_b,
            stats.base_hits == hits_done,
            stats.base_misses == misses_done,
        decreases deferred@.len() - d,
    {
        let item_sx = deferred[d].sx;
        let item_sy = deferred[d].sy;
        draw_overlays(
            fb,
            reg,
            &mut overlay_cache,
            &deferred[d].layers,
            1,
            item_sx,
            item_sy,
            ch_a,
            ch_b,
            &mut stats,
        );
        d = d + 1;
    }
    stats
}

/// The tile row or column covering a world pixel coordinate: floor
/// division by the tile size, computed on a shifted non-negative range.
pub fn tile_floor(a: i32) -> (r: i32)
    requires
        -16_000_000 <= a <= 16_000_000,
    ensures
        TILE_SIZE as int * r <= a < TILE_SIZE as int * r + TILE_SIZE,
{
    let shifted: u64 = ((a as i64) + 33_554_432) as u64;
    let q: u64 = shifted / (TILE_SIZE as u64);
    proof {
        let ts = TILE_SIZE as int;
        let sh = shifted as int;
        assert(ts * (sh / ts) <= sh < ts * (sh / ts) + ts);
    }
    ((q as i64) - 1_048_576) as i32
}

} // verus!

//! Clipped pixel-blit primitives.
//!
//! All primitives first clip the requested destination rectangle against
//! the visible display bounds; a rectangle partly off screen is shrunk to
//! its visible intersection before any transfer, and each primitive reports
//! whether the full requested rectangle was drawn.  The cache layer uses
//! that report: a partially clipped draw has an incomplete screen footprint
//! and must not be remembered for screen-copy reuse.

use vstd::prelude::*;

verus! {

use crate::dma::DmaChannel;
use crate::fb::{pix_of, Framebuffer};
use crate::tile::{bit_is_set, mask_bit, DecodedTile};
use crate::{SCREEN_HEIGHT, SCREEN_WIDTH, TILE_SIZE};

/// The start of the intersection of `[v, ...)` with the visible axis.
pub open spec fn span_start(v: int) -> int {
    if v < 0 {
        0
    } else {
        v
    }
}

/// The length of the intersection of `[v, v + len)` with `[0, limit)`.
pub open spec fn span_len(v: int, len: int, limit: int) -> int {
    let lo = span_start(v);
    let hi = if v + len < limit {
        v + len
    } else {
        limit
    };
    if hi > lo {
        hi - lo
    } else {
        0
    }
}

/// True when the whole rectangle lies inside the visible bounds.
pub open spec fn rect_inside(x: int, y: int, w: int, h: int) -> bool {
    0 <= x && 0 <= y && x + w <= SCREEN_WIDTH && y + h <= SCREEN_HEIGHT
}

/// True when two rectangles share no pixel.
pub open spec fn rects_disjoint(
    ax: int,
    ay: int,
    aw: int,
    ah: int,
    bx: int,
    by: int,
    bw: int,
    bh: int,
) -> bool {
    ax + aw <= bx || bx + bw <= ax || ay + ah <= by || by + bh <= ay
}

/// The clip result for a requested rectangle: the window's bounds are
/// in range, and when the intersection is nonempty on both axes its fields
/// are exactly the intersection of the rectangle with the screen.
pub open spec fn clip_window_for(c: ClipWindow, x: int, y: int, w: int, h: int) -> bool {
    &&& c.full == rect_inside(x, y, w, h)
    &&& c.dst_x + c.width <= SCREEN_WIDTH
    &&& c.dst_y + c.height <= SCREEN_HEIGHT
    &&& c.src_x + c.width <= w
    &&& c.src_y + c.height <= h
    &&& (span_len(x, w, SCREEN_WIDTH as int) == 0 || span_len(y, h, SCREEN_HEIGHT as int) == 0
        ==> c.width == 0 && c.height == 0)
    &&& (span_len(x, w, SCREEN_WIDTH as int) > 0 && span_len(y, h, SCREEN_HEIGHT as int) > 0 ==> {
        &&& c.width == span_len(x, w, SCREEN_WIDTH as int)
        &&& c.height == span_len(y, h, SCREEN_HEIGHT as int)
        &&& c.dst_x == span_start(x)
        &&& c.dst_y == span_start(y)
        &&& c.src_x == span_start(x) - x
        &&& c.src_y == span_start(y) - y
    })
}

/// The visible part of a requested rectangle: where it lands on screen,
/// which part of the source it takes, and whether anything was cut away.
pub struct ClipWindow {
    /// Offset into the source rectangle of its first visible column.
    pub src_x: usize,
    /// Offset into the source rectangle of its first visible row.
    pub src_y: usize,
    /// Screen column of the window's left edge.
    pub dst_x: usize,
    /// Screen row of the window's top edge.
    pub dst_y: usize,
    pub width: usize,
    pub height: usize,
    /// True when the requested rectangle was visible in full.
    pub full: bool,
}

/// Clip a requested rectangle against the visible display bounds.  An
/// intersection that is empty on either axis comes back as the empty
/// window.
pub fn clip_rect(x: i32, y: i32, w: usize, h: usize) -> (c: ClipWindow)
    requires
        w <= SCREEN_WIDTH,
        h <= SCREEN_HEIGHT,
    ensures
        clip_window_for(c, x as int, y as int, w as int, h as int),
{
    let full = x >= 0 && y >= 0 && (x as i64) + (w as i64) <= SCREEN_WIDTH as i64 && (y as i64) + (
    h as i64) <= SCREEN_HEIGHT as i64;
    let xi = x as i64;
    let yi = y as i64;
    let lo_x: i64 = if xi < 0 {
        0
    } else {
        xi
    };
    let hi_x: i64 = if xi + (w as i64) < SCREEN_WIDTH as i64 {
        xi + (w as i64)
    } else {
        SCREEN_WIDTH as i64
    };
    let lo_y: i64 = if yi < 0 {
        0
    } else {
        yi
    };
    let hi_y: i64 = if yi + (h as i64) < SCREEN_HEIGHT as i64 {
        yi + (h as i64)
    } else {
        SCREEN_HEIGHT as i64
    };
    if hi_x <= lo_x || hi_y <= lo_y {
        return ClipWindow { src_x: 0, src_y: 0, dst_x: 0, dst_y: 0, width: 0, height: 0, full };
    }
    ClipWindow {
        src_x: (lo_x - xi) as usize,
        src_y: (lo_y - yi) as usize,
        dst_x: lo_x as usize,
        dst_y: lo_y as usize,
        width: (hi_x - lo_x) as usize,
        height: (hi_y - lo_y) as usize,
        full,
    }
}

/// Clipping is the identity on a rectangle that already lies inside the
/// visible bounds: the clip path then covers exactly the requested
/// rectangle, so blitting through it writes the same pixels as an
/// unclipped blit would.
pub proof fn lemma_clip_inside_identity(x: int, y: int, w: int, h: int)
    requires
        rect_inside(x, y, w, h),
        0 < w,
        0 < h,
    ensures
        span_start(x) == x,
        span_start(y) == y,
        span_len(x, w, SCREEN_WIDTH as int) == w,
        span_len(y, h, SCREEN_HEIGHT as int) == h,
{
}

/// The opaque-blit relation: inside the tile's rectangle every visible
/// pixel holds the tile's pixel; everywhere else the framebuffer is
/// untouched.
pub open spec fn opaque_blitted(
    fb0: Seq<u16>,
    fb1: Seq<u16>,
    tile: Seq<u16>,
    x: int,
    y: int,
) -> bool {
    &&& fb1.len() == fb0.len()
    &&& forall|px: int, py: int|
        0 <= px < SCREEN_WIDTH && 0 <= py < SCREEN_HEIGHT ==> #[trigger] pix_of(fb1, px, py) == if x
            <= px < x + TILE_SIZE && y <= py < y + TILE_SIZE {
            tile[(py - y) * TILE_SIZE + (px - x)]
        } else {
            pix_of(fb0, px, py)
        }
}

/// Copy a decoded tile's full rectangle into the framebuffer, one transfer
/// per visible row, clipped to the display bounds.
pub fn blit_opaque(
    fb: &mut Framebuffer,
    tile: &DecodedTile,
    x: i32,
    y: i32,
    ch: &mut DmaChannel,
) -> (full: bool)
    requires
        old(fb).wf(),
        tile.wf(),
        old(ch).is_idle(),
    ensures
        final(fb).wf(),
        opaque_blitted(old(fb).pixels@, final(fb).pixels@, tile.pixels@, x as int, y as int),
        full == rect_inside(x as int, y as int, TILE_SIZE as int, TILE_SIZE as int),
        final(ch).is_idle(),
        final(ch).number() == old(ch).number(),
{
    let ghost fb0: Seq<u16> = fb.pixels@;
    let ghost ch_num: u8 = ch.number();
    let c = clip_rect(x, y, TILE_SIZE, TILE_SIZE);
    let mut j: usize = 0;
    while j < c.height
        invariant
            j <= c.height,
            fb.wf(),
            fb.pixels@.len() == fb0.len(),
            tile.wf(),
            ch.is_idle(),
            ch.number() == ch_num,
            c.dst_x + c.width <= SCREEN_WIDTH,
            c.dst_y + c.height <= SCREEN_HEIGHT,
            c.src_x + c.width <= TILE_SIZE,
            c.src_y + c.height <= TILE_SIZE,
            forall|px: int, py: int|
                0 <= px < SCREEN_WIDTH && 0 <= py < SCREEN_HEIGHT ==> #[trigger] pix_of(
                    fb.pixels@,
                    px,
                    py,
                ) == if c.dst_x <= px < c.dst_x + c.width && c.dst_y <= py < c.dst_y + j {
                    tile.pixels@[(c.src_y + (py - c.dst_y)) * TILE_SIZE + c.src_x + (px - c.dst_x)]
                } else {
                    pix_of(fb0, px, py)
                },
        decreases c.height - j,
    {
        let ghost prev: Seq<u16> = fb.pixels@;
        let src_off = (c.src_y + j) * TILE_SIZE + c.src_x;
        fb.copy_row_from(&tile.pixels, src_off, c.dst_x, c.dst_y + j, c.width, ch);
        proof {
            assert forall|px: int, py: int|
                0 <= px < SCREEN_WIDTH && 0 <= py < SCREEN_HEIGHT implies #[trigger] pix_of(
                fb.pixels@,
                px,
                py,
            ) == if c.dst_x <= px < c.dst_x + c.width && c.dst_y <= py < c.dst_y + (j + 1) {
                tile.pixels@[(c.src_y + (py - c.dst_y)) * TILE_SIZE + c.src_x + (px - c.dst_x)]
            } else {
                pix_of(fb0, px, py)
            } by {
                assert(fb.pix(px, py) == pix_of(fb.pixels@, px, py));
                assert(pix_of(prev, px, py) == (if c.dst_x <= px < c.dst_x + c.width && c.dst_y
                    <= py < c.dst_y + j {
                    tile.pixels@[(c.src_y + (py - c.dst_y)) * TILE_SIZE + c.src_x + (px - c.dst_x)]
                } else {
                    pix_of(fb0, px, py)
                }));
            }
        }
        j = j + 1;
    }
    proof {
        assert forall|px: int, py: int|
            0 <= px < SCREEN_WIDTH && 0 <= py < SCREEN_HEIGHT implies #[trigger] pix_of(
            fb.pixels@,
            px,
            py,
        ) == if x <= px < x + TILE_SIZE && y <= py < y + TILE_SIZE {
            tile.pixels@[(py - y) * TILE_SIZE + (px - x)]
        } else {
            pix_of(fb0, px, py)
        } by {
            lemma_window_covers(x as int, y as int, TILE_SIZE as int, TILE_SIZE as int, c, px, py);
            assert(pix_of(fb.pixels@, px, py) == (if c.dst_x <= px < c.dst_x + c.width && c.dst_y
                <= py < c.dst_y + c.height {
                tile.pixels@[(c.src_y + (py - c.dst_y)) * TILE_SIZE + c.src_x + (px - c.dst_x)]
            } else {
                pix_of(fb0, px, py)
            }));
        }
    }
    c.full
}

/// Inside the screen, a clip window covers exactly the requested
/// rectangle's visible pixels, and window coordinates translate back to
/// rectangle-local ones.
proof fn lemma_window_covers(x: int, y: int, w: int, h: int, c: ClipWindow, px: int, py: int)
    requires
        0 <= px < SCREEN_WIDTH,
        0 <= py < SCREEN_HEIGHT,
        clip_window_for(c, x, y, w, h),
    ensures
        (c.dst_x <= px < c.dst_x + c.width && c.dst_y <= py < c.dst_y + c.height) <==> (x <= px < x
            + w && y <= py < y + h),
        c.dst_x <= px < c.dst_x + c.width && c.dst_y <= py < c.dst_y + c.height ==> c.src_x + (px
            - c.dst_x) == px - x && c.src_y + (py - c.dst_y) == py - y,
{
}


/// The screen-copy relation: the destination rectangle's visible pixels
/// hold the source rectangle's pixels as they were before the copy;
/// everything else is untouched.
pub open spec fn screen_copied(
    fb0: Seq<u16>,
    fb1: Seq<u16>,
    sx: int,
    sy: int,
    x: int,
    y: int,
    w: int,
    h: int,
) -> bool {
    &&& fb1.len() == fb0.len()
    &&& forall|px: int, py: int|
        0 <= px < SCREEN_WIDTH && 0 <= py < SCREEN_HEIGHT ==> #[trigger] pix_of(fb1, px, py) == if x
            <= px < x + w && y <= py < y + h {
            pix_of(fb0, sx + (px - x), sy + (py - y))
        } else {
            pix_of(fb0, px, py)
        }
}

/// Copy a previously drawn rectangle to another screen location, one
/// transfer per visible row, clipped at the destination.  The source
/// rectangle must be fully on screen (it records a complete earlier draw)
/// and must not overlap the requested destination.
pub fn screen_copy(
    fb: &mut Framebuffer,
    from_x: usize,
    from_y: usize,
    x: i32,
    y: i32,
    w: usize,
    h: usize,
    ch: &mut DmaChannel,
) -> (full: bool)
    requires
        old(fb).wf(),
        old(ch).is_idle(),
        from_x + w <= SCREEN_WIDTH,
        from_y + h <= SCREEN_HEIGHT,
        rects_disjoint(
            from_x as int,
            from_y as int,
            w as int,
            h as int,
            x as int,
            y as int,
            w as int,
            h as int,
        ),
    ensures
        final(fb).wf(),
        screen_copied(
            old(fb).pixels@,
            final(fb).pixels@,
            from_x as int,
            from_y as int,
            x as int,
            y as int,
            w as int,
            h as int,
        ),
        full == rect_inside(x as int, y as int, w as int, h as int),
        final(ch).is_idle(),
        final(ch).number() == old(ch).number(),
{
    let ghost fb0: Seq<u16> = fb.pixels@;
    let ghost ch_num: u8 = ch.number();
    let c = clip_rect(x, y, w, h);
    let mut j: usize = 0;
    while j < c.height
        invariant
            j <= c.height,
            fb.wf(),
            fb.pixels@.len() == fb0.len(),
            ch.is_idle(),
            ch.number() == ch_num,
            from_x + w <= SCREEN_WIDTH,
            from_y + h <= SCREEN_HEIGHT,
            rects_disjoint(
                from_x as int,
                from_y as int,
                w as int,
                h as int,
                x as int,
                y as int,
                w as int,
                h as int,
            ),
            clip_window_for(c, x as int, y as int, w as int, h as int),
            forall|px: int, py: int|
                0 <= px < SCREEN_WIDTH && 0 <= py < SCREEN_HEIGHT ==> #[trigger] pix_of(
                    fb.pixels@,
                    px,
                    py,
                ) == if c.dst_x <= px < c.dst_x + c.width && c.dst_y <= py < c.dst_y + j {
                    pix_of(fb0, from_x + c.src_x + (px - c.dst_x), from_y + c.src_y + (py
                        - c.dst_y))
                } else {
                    pix_of(fb0, px, py)
                },
        decreases c.height - j,
    {
        let ghost prev: Seq<u16> = fb.pixels@;
        proof {
            lemma_src_row_outside_window(
                from_x as int,
                from_y as int,
                x as int,
                y as int,
                w as int,
                h as int,
                c,
                j as int,
            );
        }
        fb.copy_row_within(
            from_x + c.src_x,
            from_y + c.src_y + j,
            c.dst_x,
            c.dst_y + j,
            c.width,
            ch,
        );
        proof {
            assert forall|px: int, py: int|
                0 <= px < SCREEN_WIDTH && 0 <= py < SCREEN_HEIGHT implies #[trigger] pix_of(
                fb.pixels@,
                px,
                py,
            ) == if c.dst_x <= px < c.dst_x + c.width && c.dst_y <= py < c.dst_y + (j + 1) {
                pix_of(fb0, from_x + c.src_x + (px - c.dst_x), from_y + c.src_y + (py - c.dst_y))
            } else {
                pix_of(fb0, px, py)
            } by {
                assert(fb.pix(px, py) == pix_of(fb.pixels@, px, py));
                assert(pix_of(prev, px, py) == (if c.dst_x <= px < c.dst_x + c.width && c.dst_y
                    <= py < c.dst_y + j {
                    pix_of(fb0, from_x + c.src_x + (px - c.dst_x), from_y + c.src_y + (py
                        - c.dst_y))
                } else {
                    pix_of(fb0, px, py)
                }));
                if py == c.dst_y + j && c.dst_x <= px < c.dst_x + c.width {
                    // The row just copied reads the source rectangle, which the
                    // window never touches, so the values are still the original
                    // ones.
                    let sx = from_x + c.src_x + (px - c.dst_x);
                    let sy = from_y + c.src_y + j;
                    assert(pix_of(prev, sx, sy) == pix_of(fb0, sx, sy));
                }
            }
        }
        j = j + 1;
    }
    proof {
        assert forall|px: int, py: int|
            0 <= px < SCREEN_WIDTH && 0 <= py < SCREEN_HEIGHT implies #[trigger] pix_of(
            fb.pixels@,
            px,
            py,
        ) == if x <= px < x + w && y <= py < y + h {
            pix_of(fb0, from_x + (px - x), from_y + (py - y))
        } else {
            pix_of(fb0, px, py)
        } by {
            lemma_window_covers(x as int, y as int, w as int, h as int, c, px, py);
            assert(pix_of(fb.pixels@, px, py) == (if c.dst_x <= px < c.dst_x + c.width && c.dst_y
                <= py < c.dst_y + c.height {
                pix_of(fb0, from_x + c.src_x + (px - c.dst_x), from_y + c.src_y + (py - c.dst_y))
            } else {
                pix_of(fb0, px, py)
            }));
        }
    }
    c.full
}

/// A source row segment of a disjoint screen copy lies outside the
/// destination window: either on a row the window never writes, or in a
/// column range the window never writes.
proof fn lemma_src_row_outside_window(
    from_x: int,
    from_y: int,
    x: int,
    y: int,
    w: int,
    h: int,
    c: ClipWindow,
    j: int,
)
    requires
        0 <= j < c.height,
        from_x + w <= SCREEN_WIDTH,
        from_y + h <= SCREEN_HEIGHT,
        rects_disjoint(from_x, from_y, w, h, x, y, w, h),
        clip_window_for(c, x, y, w, h),
    ensures
        from_y + c.src_y + j != c.dst_y + j || from_x + c.src_x + c.width <= c.dst_x || c.dst_x
            + c.width <= from_x + c.src_x,
{
}

/// Screen-copy equivalence: an opaque tile drawn once and then duplicated
/// to another location through the screen-copy path carries exactly the
/// pixels a direct decode-and-blit at that location would produce.
pub proof fn lemma_screen_copy_matches_direct(
    fb0: Seq<u16>,
    fb1: Seq<u16>,
    fb2: Seq<u16>,
    gb0: Seq<u16>,
    gb1: Seq<u16>,
    tile: Seq<u16>,
    ax: int,
    ay: int,
    bx: int,
    by: int,
)
    requires
        opaque_blitted(fb0, fb1, tile, ax, ay),
        screen_copied(fb1, fb2, ax, ay, bx, by, TILE_SIZE as int, TILE_SIZE as int),
        opaque_blitted(gb0, gb1, tile, bx, by),
        rect_inside(ax, ay, TILE_SIZE as int, TILE_SIZE as int),
        rect_inside(bx, by, TILE_SIZE as int, TILE_SIZE as int),
    ensures
        forall|px: int, py: int|
            bx <= px < bx + TILE_SIZE && by <= py < by + TILE_SIZE ==> #[trigger] pix_of(
                fb2,
                px,
                py,
            ) == pix_of(gb1, px, py),
{
    assert forall|px: int, py: int|
        bx <= px < bx + TILE_SIZE && by <= py < by + TILE_SIZE implies #[trigger] pix_of(
        fb2,
        px,
        py,
    ) == pix_of(gb1, px, py) by {
        let sx = ax + (px - bx);
        let sy = ay + (py - by);
        assert(pix_of(fb1, sx, sy) == tile[(sy - ay) * TILE_SIZE + (sx - ax)]);
        assert(pix_of(gb1, px, py) == tile[(py - by) * TILE_SIZE + (px - bx)]);
        assert(pix_of(fb2, px, py) == pix_of(fb1, sx, sy));
    }
}


/// The masked-blit relation: inside the tile's rectangle every visible
/// pixel whose mask bit is set holds the tile's pixel; transparent pixels
/// and everything outside are untouched.
pub open spec fn masked_blitted(
    fb0: Seq<u16>,
    fb1: Seq<u16>,
    tile: DecodedTile,
    x: int,
    y: int,
) -> bool {
    &&& fb1.len() == fb0.len()
    &&& forall|px: int, py: int|
        0 <= px < SCREEN_WIDTH && 0 <= py < SCREEN_HEIGHT ==> #[trigger] pix_of(fb1, px, py) == if x
            <= px < x + TILE_SIZE && y <= py < y + TILE_SIZE && tile.opaque_at(px - x, py - y) {
            tile.pixel(px - x, py - y)
        } else {
            pix_of(fb0, px, py)
        }
}

/// Find the end of the maximal run of equal mask bits that starts at
/// window column `k`, i.e. at bit `src_x + k` of the row mask `m`.
fn run_end(m: u32, src_x: usize, width: usize, k: usize) -> (e: usize)
    requires
        src_x + width <= 32,
        k < width,
    ensures
        k < e <= width,
        forall|b: int|
            src_x + k <= b < src_x + e ==> #[trigger] mask_bit(m, b) == mask_bit(
                m,
                (src_x + k) as int,
            ),
        e < width ==> mask_bit(m, (src_x + e) as int) != mask_bit(m, (src_x + k) as int),
{
    let set0 = bit_is_set(m, (src_x + k) as u32);
    let mut e = k + 1;
    while e < width
        invariant_except_break
            k < e <= width,
            src_x + width <= 32,
            set0 == mask_bit(m, (src_x + k) as int),
            forall|b: int| src_x + k <= b < src_x + e ==> #[trigger] mask_bit(m, b) == set0,
        ensures
            k < e <= width,
            forall|b: int| src_x + k <= b < src_x + e ==> #[trigger] mask_bit(m, b) == set0,
            e < width ==> mask_bit(m, (src_x + e) as int) != set0,
        decreases width - e,
    {
        if bit_is_set(m, (src_x + e) as u32) != set0 {
            break ;
        }
        e = e + 1;
    }
    e
}

/// Blit a decoded tile through its transparency mask, clipped to the
/// display bounds.  Each row's mask is walked as maximal runs: a run of set
/// bits becomes one transfer, a run of clear bits only advances the
/// cursors, and a single-pixel span falls back to a direct write.  A tile
/// without a mask is treated as opaque everywhere.
pub fn blit_masked(
    fb: &mut Framebuffer,
    tile: &DecodedTile,
    x: i32,
    y: i32,
    ch: &mut DmaChannel,
) -> (full: bool)
    requires
        old(fb).wf(),
        tile.wf(),
        old(ch).is_idle(),
    ensures
        final(fb).wf(),
        masked_blitted(old(fb).pixels@, final(fb).pixels@, *tile, x as int, y as int),
        full == rect_inside(x as int, y as int, TILE_SIZE as int, TILE_SIZE as int),
        final(ch).is_idle(),
        final(ch).number() == old(ch).number(),
{
    let ghost fb0: Seq<u16> = fb.pixels@;
    let ghost ch_num: u8 = ch.number();
    let c = clip_rect(x, y, TILE_SIZE, TILE_SIZE);
    let mut j: usize = 0;
    while j < c.height
        invariant
            j <= c.height,
            fb.wf(),
            fb.pixels@.len() == fb0.len(),
            tile.wf(),
            ch.is_idle(),
            ch.number() == ch_num,
            clip_window_for(c, x as int, y as int, TILE_SIZE as int, TILE_SIZE as int),
            forall|px: int, py: int|
                0 <= px < SCREEN_WIDTH && 0 <= py < SCREEN_HEIGHT ==> #[trigger] pix_of(
                    fb.pixels@,
                    px,
                    py,
                ) == if c.dst_x <= px < c.dst_x + c.width && c.dst_y <= py < c.dst_y + j
                    && tile.opaque_at(c.src_x + (px - c.dst_x), c.src_y + (py - c.dst_y)) {
                    tile.pixels@[(c.src_y + (py - c.dst_y)) * TILE_SIZE + c.src_x + (px - c.dst_x)]
                } else {
                    pix_of(fb0, px, py)
                },
        decreases c.height - j,
    {
        let ghost rowfb: Seq<u16> = fb.pixels@;
        let ly = c.src_y + j;
        let row_y = c.dst_y + j;
        match &tile.masks {
            None => {
                fb.copy_row_from(
                    &tile.pixels,
                    ly * TILE_SIZE + c.src_x,
                    c.dst_x,
                    row_y,
                    c.width,
                    ch,
                );
                proof {
                    assert forall|px: int, py: int|
                        0 <= px < SCREEN_WIDTH && 0 <= py < SCREEN_HEIGHT implies #[trigger] pix_of(
                        fb.pixels@,
                        px,
                        py,
                    ) == if c.dst_x <= px < c.dst_x + c.width && c.dst_y <= py < c.dst_y + (j + 1)
                        && tile.opaque_at(c.src_x + (px - c.dst_x), c.src_y + (py - c.dst_y)) {
                        tile.pixels@[(c.src_y + (py - c.dst_y)) * TILE_SIZE + c.src_x + (px
                            - c.dst_x)]
                    } else {
                        pix_of(fb0, px, py)
                    } by {
                        assert(fb.pix(px, py) == pix_of(fb.pixels@, px, py));
                        assert(pix_of(rowfb, px, py) == (if c.dst_x <= px < c.dst_x + c.width
                            && c.dst_y <= py < c.dst_y + j && tile.opaque_at(
                            c.src_x + (px - c.dst_x),
                            c.src_y + (py - c.dst_y),
                        ) {
                            tile.pixels@[(c.src_y + (py - c.dst_y)) * TILE_SIZE + c.src_x + (px
                                - c.dst_x)]
                        } else {
                            pix_of(fb0, px, py)
                        }));
                    }
                }
            },
            Some(mv) => {
                let m = mv[ly];
                let mut k: usize = 0;
                while k < c.width
                    invariant
                        k <= c.width,
                        fb.wf(),
                        fb.pixels@.len() == fb0.len(),
                        tile.wf(),
                        ch.is_idle(),
                        ch.number() == ch_num,
                        clip_window_for(c, x as int, y as int, TILE_SIZE as int, TILE_SIZE as int),
                        j < c.height,
                        ly == c.src_y + j,
                        row_y == c.dst_y + j,
                        tile.masks is Some,
                        m == tile.mask_seq()[ly as int],
                        forall|px: int, py: int|
                            0 <= px < SCREEN_WIDTH && 0 <= py < SCREEN_HEIGHT ==> #[trigger] pix_of(
                                fb.pixels@,
                                px,
                                py,
                            ) == if py == row_y && c.dst_x <= px < c.dst_x + k && mask_bit(
                                m,
                                c.src_x + (px - c.dst_x),
                            ) {
                                tile.pixels@[ly * TILE_SIZE + c.src_x + (px - c.dst_x)]
                            } else {
                                pix_of(rowfb, px, py)
                            },
                    decreases c.width - k,
                {
                    let ghost prevk: Seq<u16> = fb.pixels@;
                    let lx = c.src_x + k;
                    let set0 = bit_is_set(m, lx as u32);
                    let e = run_end(m, c.src_x, c.width, k);
                    if set0 {
                        if e - k == 1 {
                            let v = tile.pixels[ly * TILE_SIZE + lx];
                            fb.write_pixel(c.dst_x + k, row_y, v);
                        } else {
                            fb.copy_row_from(
                                &tile.pixels,
                                ly * TILE_SIZE + lx,
                                c.dst_x + k,
                                row_y,
                                e - k,
                                ch,
                            );
                        }
                    }
                    proof {
                        assert forall|px: int, py: int|
                            0 <= px < SCREEN_WIDTH && 0 <= py < SCREEN_HEIGHT implies #[trigger] pix_of(
                            fb.pixels@,
                            px,
                            py,
                        ) == if py == row_y && c.dst_x <= px < c.dst_x + e && mask_bit(
                            m,
                            c.src_x + (px - c.dst_x),
                        ) {
                            tile.pixels@[ly * TILE_SIZE + c.src_x + (px - c.dst_x)]
                        } else {
                            pix_of(rowfb, px, py)
                        } by {
                            assert(fb.pix(px, py) == pix_of(fb.pixels@, px, py));
                            assert(pix_of(prevk, px, py) == (if py == row_y && c.dst_x <= px
                                < c.dst_x + k && mask_bit(m, c.src_x + (px - c.dst_x)) {
                                tile.pixels@[ly * TILE_SIZE + c.src_x + (px - c.dst_x)]
                            } else {
                                pix_of(rowfb, px, py)
                            }));
                            if c.dst_x + k <= px < c.dst_x + e {
                                assert(mask_bit(m, c.src_x + (px - c.dst_x)) == set0);
                            }
                        }
                    }
                    k = e;
                }
                proof {
                    assert forall|px: int, py: int|
                        0 <= px < SCREEN_WIDTH && 0 <= py < SCREEN_HEIGHT implies #[trigger] pix_of(
                        fb.pixels@,
                        px,
                        py,
                    ) == if c.dst_x <= px < c.dst_x + c.width && c.dst_y <= py < c.dst_y + (j + 1)
                        && tile.opaque_at(c.src_x + (px - c.dst_x), c.src_y + (py - c.dst_y)) {
                        tile.pixels@[(c.src_y + (py - c.dst_y)) * TILE_SIZE + c.src_x + (px
                            - c.dst_x)]
                    } else {
                        pix_of(fb0, px, py)
                    } by {
                        assert(pix_of(fb.pixels@, px, py) == (if py == row_y && c.dst_x <= px
                            < c.dst_x + c.width && mask_bit(m, c.src_x + (px - c.dst_x)) {
                            tile.pixels@[ly * TILE_SIZE + c.src_x + (px - c.dst_x)]
                        } else {
                            pix_of(rowfb, px, py)
                        }));
                        assert(pix_of(rowfb, px, py) == (if c.dst_x <= px < c.dst_x + c.width
                            && c.dst_y <= py < c.dst_y + j && tile.opaque_at(
                            c.src_x + (px - c.dst_x),
                            c.src_y + (py - c.dst_y),
                        ) {
                            tile.pixels@[(c.src_y + (py - c.dst_y)) * TILE_SIZE + c.src_x + (px
                                - c.dst_x)]
                        } else {
                            pix_of(fb0, px, py)
                        }));
                        if py == row_y && c.dst_x <= px < c.dst_x + c.width {
                            assert(tile.opaque_at(c.src_x + (px - c.dst_x), ly as int) == mask_bit(
                                m,
                                c.src_x + (px - c.dst_x),
                            ));
                        }
                    }
                }
            },
        }
        j = j + 1;
    }
    proof {
        assert forall|px: int, py: int|
            0 <= px < SCREEN_WIDTH && 0 <= py < SCREEN_HEIGHT implies #[trigger] pix_of(
            fb.pixels@,
            px,
            py,
        ) == if x <= px < x + TILE_SIZE && y <= py < y + TILE_SIZE && tile.opaque_at(
            px - x,
            py - y,
        ) {
            tile.pixel(px - x, py - y)
        } else {
            pix_of(fb0, px, py)
        } by {
            lemma_window_covers(x as int, y as int, TILE_SIZE as int, TILE_SIZE as int, c, px, py);
            assert(pix_of(fb.pixels@, px, py) == (if c.dst_x <= px < c.dst_x + c.width && c.dst_y
                <= py < c.dst_y + c.height && tile.opaque_at(
                c.src_x + (px - c.dst_x),
                c.src_y + (py - c.dst_y),
            ) {
                tile.pixels@[(c.src_y + (py - c.dst_y)) * TILE_SIZE + c.src_x + (px - c.dst_x)]
            } else {
                pix_of(fb0, px, py)
            }));
        }
    }
    c.full
}

} // verus!

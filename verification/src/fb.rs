//! The shared framebuffer.
//!
//! One mutable pixel buffer sized to the display, addressed linearly by
//! `x + y * SCREEN_WIDTH`.  The renderer writes the next frame into it while
//! the display transmission drains the previous one row by row; the pacing
//! that makes that safe lives in the synchronization module.  All contracts
//! here speak in screen coordinates; the translation to flat indices is
//! proved once, in this module.

use vstd::prelude::*;

verus! {

use crate::dma::DmaChannel;
use crate::{FRAME_WORDS, SCREEN_HEIGHT, SCREEN_WIDTH};

/// The pixel of a framebuffer word sequence at screen coordinates.
pub open spec fn pix_of(fb: Seq<u16>, x: int, y: int) -> u16 {
    fb[y * SCREEN_WIDTH + x]
}

/// The single shared pixel buffer.
pub struct Framebuffer {
    pub pixels: Vec<u16>,
}

impl Framebuffer {
    /// Shape invariant: exactly one word per screen pixel.
    pub open spec fn wf(self) -> bool {
        self.pixels@.len() == FRAME_WORDS
    }

    /// The pixel at screen coordinates.
    pub open spec fn pix(self, x: int, y: int) -> u16 {
        pix_of(self.pixels@, x, y)
    }

    /// A framebuffer cleared to zero.
    pub fn new() -> (fb: Framebuffer)
        ensures
            fb.wf(),
            forall|x: int, y: int|
                0 <= x < SCREEN_WIDTH && 0 <= y < SCREEN_HEIGHT ==> #[trigger] fb.pix(x, y) == 0,
    {
        let mut pixels: Vec<u16> = Vec::new();
        let mut i: usize = 0;
        while i < FRAME_WORDS
            invariant
                i <= FRAME_WORDS,
                pixels@.len() == i,
                forall|j: int| 0 <= j < i ==> pixels@[j] == 0u16,
            decreases FRAME_WORDS - i,
        {
            pixels.push(0u16);
            i = i + 1;
        }
        Framebuffer { pixels }
    }

    /// Read one pixel.
    pub fn read_pixel(&self, x: usize, y: usize) -> (p: u16)
        requires
            self.wf(),
            x < SCREEN_WIDTH,
            y < SCREEN_HEIGHT,
        ensures
            p == self.pix(x as int, y as int),
    {
        self.pixels[y * SCREEN_WIDTH + x]
    }

    /// Write one pixel directly, bypassing the transfer engines (used for
    /// short ambiguous spans in the masked blit).
    pub fn write_pixel(&mut self, x: usize, y: usize, v: u16)
        requires
            old(self).wf(),
            x < SCREEN_WIDTH,
            y < SCREEN_HEIGHT,
        ensures
            final(self).wf(),
            forall|px: int, py: int|
                0 <= px < SCREEN_WIDTH && 0 <= py < SCREEN_HEIGHT ==> #[trigger] final(self).pix(
                    px,
                    py,
                ) == if px == x && py == y {
                    v
                } else {
                    old(self).pix(px, py)
                },
    {
        let ghost fb0: Seq<u16> = self.pixels@;
        self.pixels.set(y * SCREEN_WIDTH + x, v);
        proof {
            assert forall|px: int, py: int|
                0 <= px < SCREEN_WIDTH && 0 <= py < SCREEN_HEIGHT implies #[trigger] self.pix(
                px,
                py,
            ) == if px == x && py == y {
                v
            } else {
                pix_of(fb0, px, py)
            } by {
                lemma_flat_unique(x as int, y as int, px, py);
            }
        }
    }

    /// Copy one row segment from an external word buffer into the
    /// framebuffer through a transfer channel.
    pub fn copy_row_from(
        &mut self,
        src: &Vec<u16>,
        src_off: usize,
        dst_x: usize,
        dst_y: usize,
        count: usize,
        ch: &mut DmaChannel,
    )
        requires
            old(self).wf(),
            src_off + count <= src.len(),
            dst_x + count <= SCREEN_WIDTH,
            dst_y < SCREEN_HEIGHT,
            old(ch).is_idle(),
        ensures
            final(self).wf(),
            final(ch).is_idle(),
            final(ch).number() == old(ch).number(),
            forall|px: int, py: int|
                0 <= px < SCREEN_WIDTH && 0 <= py < SCREEN_HEIGHT ==> #[trigger] final(self).pix(
                    px,
                    py,
                ) == if py == dst_y && dst_x <= px < dst_x + count {
                    src@[src_off + (px - dst_x)]
                } else {
                    old(self).pix(px, py)
                },
    {
        let ghost fb0: Seq<u16> = self.pixels@;
        let off = dst_y * SCREEN_WIDTH + dst_x;
        ch.start_copy(src, src_off, &mut self.pixels, off, count);
        ch.wait();
        proof {
            assert forall|px: int, py: int|
                0 <= px < SCREEN_WIDTH && 0 <= py < SCREEN_HEIGHT implies #[trigger] self.pix(
                px,
                py,
            ) == if py == dst_y && dst_x <= px < dst_x + count {
                src@[src_off + (px - dst_x)]
            } else {
                pix_of(fb0, px, py)
            } by {
                lemma_row_window(dst_x as int, dst_y as int, count as int, px, py);
            }
        }
    }

    /// Copy one row segment from one framebuffer location to another
    /// through a transfer channel.  The two segments must not overlap.
    pub fn copy_row_within(
        &mut self,
        src_x: usize,
        src_y: usize,
        dst_x: usize,
        dst_y: usize,
        count: usize,
        ch: &mut DmaChannel,
    )
        requires
            old(self).wf(),
            src_x + count <= SCREEN_WIDTH,
            src_y < SCREEN_HEIGHT,
            dst_x + count <= SCREEN_WIDTH,
            dst_y < SCREEN_HEIGHT,
            src_y != dst_y || src_x + count <= dst_x || dst_x + count <= src_x,
            old(ch).is_idle(),
        ensures
            final(self).wf(),
            final(ch).is_idle(),
            final(ch).number() == old(ch).number(),
            forall|px: int, py: int|
                0 <= px < SCREEN_WIDTH && 0 <= py < SCREEN_HEIGHT ==> #[trigger] final(self).pix(
                    px,
                    py,
                ) == if py == dst_y && dst_x <= px < dst_x + count {
                    old(self).pix(src_x + (px - dst_x), src_y as int)
                } else {
                    old(self).pix(px, py)
                },
    {
        let ghost fb0: Seq<u16> = self.pixels@;
        let src_off = src_y * SCREEN_WIDTH + src_x;
        let dst_off = dst_y * SCREEN_WIDTH + dst_x;
        ch.start_copy_within(&mut self.pixels, src_off, dst_off, count);
        ch.wait();
        proof {
            assert forall|px: int, py: int|
                0 <= px < SCREEN_WIDTH && 0 <= py < SCREEN_HEIGHT implies #[trigger] self.pix(
                px,
                py,
            ) == if py == dst_y && dst_x <= px < dst_x + count {
                pix_of(fb0, src_x + (px - dst_x), src_y as int)
            } else {
                pix_of(fb0, px, py)
            } by {
                lemma_row_window(dst_x as int, dst_y as int, count as int, px, py);
            }
        }
    }
}

/// Two screen coordinates map to the same flat index exactly when they are
/// the same coordinate.
proof fn lemma_flat_unique(x: int, y: int, px: int, py: int)
    requires
        0 <= x < SCREEN_WIDTH,
        0 <= y < SCREEN_HEIGHT,
        0 <= px < SCREEN_WIDTH,
        0 <= py < SCREEN_HEIGHT,
    ensures
        (py * SCREEN_WIDTH + px == y * SCREEN_WIDTH + x) <==> (px == x && py == y),
{
}

/// A screen coordinate's flat index lies in a row window's flat range
/// exactly when the coordinate lies in the window.
proof fn lemma_row_window(dst_x: int, dst_y: int, count: int, px: int, py: int)
    requires
        0 <= dst_x,
        dst_x + count <= SCREEN_WIDTH,
        0 <= dst_y < SCREEN_HEIGHT,
        0 <= count,
        0 <= px < SCREEN_WIDTH,
        0 <= py < SCREEN_HEIGHT,
    ensures
        (dst_y * SCREEN_WIDTH + dst_x <= py * SCREEN_WIDTH + px < dst_y * SCREEN_WIDTH + dst_x
            + count) <==> (py == dst_y && dst_x <= px < dst_x + count),
{
}

} // verus!

//! Producer/consumer pacing over the shared framebuffer.
//!
//! The renderer (producer) and the display transmission (consumer) walk the
//! same single buffer top to bottom, offset by a bounded row distance: the
//! renderer writes the next frame while the transmission drains the
//! previous one.  Before writing a row group the renderer waits until the
//! consumer's progress counter is far enough ahead that overwriting is
//! safe, unless the consumer has already finished the whole frame.  A gap
//! that has grown past roughly two row groups only flags a diagnostic
//! "slow draw" condition; it never aborts the frame.

use vstd::prelude::*;

verus! {

use crate::{FRAME_WORDS, SCREEN_HEIGHT, SCREEN_WIDTH};

/// The display transmission's progress, as the renderer consumes it: a
/// monotonically non-decreasing count of pixels sent so far in the current
/// frame, reset by the transport at each frame boundary.  Waiting blocks
/// (the transport busy-polls its hardware counter) until the count reaches
/// the requested amount or the whole frame has been sent, and reports the
/// count observed.
pub trait ProgressSource {
    /// The counter's current value: pixels of the previous frame sent so
    /// far.
    spec fn progress(&self) -> int;

    /// Block until at least `pixels` pixels of the previous frame have
    /// been transmitted, or the frame has finished.  Reports the counter
    /// value observed, which only ever grows.
    fn wait_until_transmitted(&mut self, pixels: u32) -> (r: u32)
        ensures
            r >= pixels || r >= FRAME_WORDS,
            r == final(self).progress(),
            final(self).progress() >= old(self).progress(),
    ;
}

/// A deterministic stand-in for the display transport, for runs with no
/// display attached: the counter jumps to whatever is waited for, capped
/// at one frame.
pub struct SimulatedTransmission {
    pub sent: u32,
}

impl SimulatedTransmission {
    pub fn new() -> (s: SimulatedTransmission)
        ensures
            s.sent == 0,
    {
        SimulatedTransmission { sent: 0 }
    }
}

impl ProgressSource for SimulatedTransmission {
    open spec fn progress(&self) -> int {
        self.sent as int
    }

    fn wait_until_transmitted(&mut self, pixels: u32) -> (r: u32)
        ensures
            r >= pixels || r >= FRAME_WORDS,
            r == final(self).progress(),
            final(self).progress() >= old(self).progress(),
    {
        let target = if pixels > FRAME_WORDS as u32 {
            FRAME_WORDS as u32
        } else {
            pixels
        };
        if self.sent < target {
            self.sent = target;
        }
        self.sent
    }
}

/// True when the renderer must keep waiting before writing the next row
/// group: the consumer has not finished the frame and its safe row has not
/// moved a full row group plus the margin past the producer's cursor.
pub open spec fn gate_must_wait(
    safe_row: int,
    drawn_row: int,
    group_rows: int,
    margin: int,
    frame_rows: int,
) -> bool {
    safe_row < frame_rows && safe_row - drawn_row < group_rows + margin
}

/// True when an observed gap marks the renderer as drawing slowly: the
/// transmission has run more than two row groups ahead of the producer.
pub open spec fn slow_draw(safe_row: int, drawn_row: int, group_rows: int) -> bool {
    safe_row - drawn_row > 2 * group_rows
}

/// Decide, from one observation of the consumer's safe row, whether
/// the renderer has to keep waiting.
pub fn must_wait(safe_row: u32, drawn_row: u32, group_rows: u32, margin: u32, frame_rows: u32) -> (r:
    bool)
    ensures
        r == gate_must_wait(
            safe_row as int,
            drawn_row as int,
            group_rows as int,
            margin as int,
            frame_rows as int,
        ),
{
    safe_row < frame_rows && (safe_row as i64) - (drawn_row as i64) < (group_rows as i64) + (
    margin as i64)
}

/// Decide the slow-draw diagnostic from one observation.
pub fn is_slow_draw(safe_row: u32, drawn_row: u32, group_rows: u32) -> (r: bool)
    ensures
        r == slow_draw(safe_row as int, drawn_row as int, group_rows as int),
{
    (safe_row as i64) - (drawn_row as i64) > 2 * (group_rows as i64)
}

/// The pixel count the renderer asks the transport to reach before the
/// row group above `drawn_row` is written: one row group plus the margin
/// past the cursor, capped at the frame's end.
pub open spec fn wait_threshold(drawn_row: int, group_rows: int, margin: int) -> int {
    let rows = if drawn_row + group_rows + margin > SCREEN_HEIGHT {
        SCREEN_HEIGHT as int
    } else {
        drawn_row + group_rows + margin
    };
    rows * SCREEN_WIDTH
}

/// The safe row a pixel progress count stands for, capped at the frame
/// height.
pub open spec fn row_cap(pixels: int) -> int {
    if pixels / (SCREEN_WIDTH as int) > SCREEN_HEIGHT {
        SCREEN_HEIGHT as int
    } else {
        pixels / (SCREEN_WIDTH as int)
    }
}

/// The number of rows fully transmitted, given a pixel progress count.
pub fn safe_rows(pixels: u32) -> (r: u32)
    ensures
        r == pixels as int / SCREEN_WIDTH as int,
{
    pixels / (SCREEN_WIDTH as u32)
}

/// Wait until the row group above `drawn_row` may be written: either the
/// consumer's safe row stands at least one row group plus the margin past
/// the producer's cursor, or the whole frame has been transmitted.
/// Returns the safe row that ended the wait (capped at the frame height)
/// and whether that observation flagged the renderer as slow.
pub fn wait_for_row_group<P: ProgressSource>(
    progress: &mut P,
    drawn_row: u32,
    group_rows: u32,
    margin: u32,
) -> (r: (u32, bool))
    requires
        drawn_row <= SCREEN_HEIGHT,
        group_rows <= SCREEN_HEIGHT,
        margin <= SCREEN_HEIGHT,
    ensures
        !gate_must_wait(
            r.0 as int,
            drawn_row as int,
            group_rows as int,
            margin as int,
            SCREEN_HEIGHT as int,
        ),
        r.1 == slow_draw(r.0 as int, drawn_row as int, group_rows as int),
        final(progress).progress() >= old(progress).progress(),
        final(progress).progress() >= wait_threshold(
            drawn_row as int,
            group_rows as int,
            margin as int,
        ) || final(progress).progress() >= FRAME_WORDS,
        r.0 == row_cap(final(progress).progress()),
{
    let needed64: u64 = drawn_row as u64 + group_rows as u64 + margin as u64;
    let needed_rows: u32 = if needed64 > SCREEN_HEIGHT as u64 {
        SCREEN_HEIGHT as u32
    } else {
        needed64 as u32
    };
    let threshold: u32 = needed_rows * (SCREEN_WIDTH as u32);
    let pixels = progress.wait_until_transmitted(threshold);
    let observed = safe_rows(pixels);
    let safe = if observed > SCREEN_HEIGHT as u32 {
        SCREEN_HEIGHT as u32
    } else {
        observed
    };
    proof {
        if pixels >= FRAME_WORDS {
            assert(pixels as int / SCREEN_WIDTH as int >= SCREEN_HEIGHT as int) by (nonlinear_arith)
                requires
                    pixels >= FRAME_WORDS,
                    FRAME_WORDS == SCREEN_WIDTH * SCREEN_HEIGHT,
            ;
        } else {
            assert(pixels as int / SCREEN_WIDTH as int >= needed_rows as int) by (nonlinear_arith)
                requires
                    pixels >= needed_rows * SCREEN_WIDTH,
            ;
        }
    }
    let slow = is_slow_draw(safe, drawn_row, group_rows);
    (safe, slow)
}

} // verus!

//! Exclusive handles to the hardware transfer engines.
//!
//! On the target device a numbered channel copies or fills memory
//! asynchronously while the processor keeps running, and `wait` blocks until
//! the transfer has landed.  Starting a new operation on a channel whose
//! previous operation has not been waited on is a hardware protocol
//! violation, so the handle tracks an in-flight marker and every start
//! operation demands an idle channel.  The data movement itself is carried
//! out by verified loops, so the effect of a transfer is fully visible to
//! the verifier as soon as it is started; `wait` retires the in-flight
//! marker.

use vstd::prelude::*;

verus! {

/// Exclusive handle to one numbered transfer engine.
pub struct DmaChannel {
    channel_number: u8,
    in_flight: bool,
}

impl DmaChannel {
    /// True when the channel has no operation in flight.
    pub closed spec fn is_idle(self) -> bool {
        !self.in_flight
    }

    /// The engine number this handle owns.
    pub closed spec fn number(self) -> u8 {
        self.channel_number
    }

    /// Claim exclusive use of the engine with the given number.
    pub fn claim(channel_number: u8) -> (ch: DmaChannel)
        ensures
            ch.is_idle(),
            ch.number() == channel_number,
    {
        DmaChannel { channel_number, in_flight: false }
    }

    /// Start copying `count` elements from `src` at `src_off` into `dst` at
    /// `dst_off`.  Elements outside the destination window are untouched.
    pub fn start_copy<T: Copy>(
        &mut self,
        src: &Vec<T>,
        src_off: usize,
        dst: &mut Vec<T>,
        dst_off: usize,
        count: usize,
    )
        requires
            old(self).is_idle(),
            src_off + count <= src.len(),
            dst_off + count <= old(dst).len(),
        ensures
            !final(self).is_idle(),
            final(self).number() == old(self).number(),
            final(dst)@.len() == old(dst)@.len(),
            forall|i: int|
                dst_off <= i < dst_off + count ==> final(dst)@[i] == src@[src_off + (i - dst_off)],
            forall|i: int|
                0 <= i < old(dst)@.len() && !(dst_off <= i < dst_off + count) ==> final(dst)@[i] == old(dst)@[i],
    {
        self.in_flight = true;
        let ghost dst0: Seq<T> = dst@;
        let dst_len: usize = dst.len();
        let mut i: usize = 0;
        while i < count
            invariant
                i <= count,
                src_off + count <= src.len(),
                dst_off + count <= dst_len,
                dst_len == dst0.len(),
                dst@.len() == dst0.len(),
                forall|j: int|
                    dst_off <= j < dst_off + i ==> dst@[j] == src@[src_off + (j - dst_off)],
                forall|j: int|
                    0 <= j < dst0.len() && !(dst_off <= j < dst_off + i) ==> dst@[j] == dst0[j],
            decreases count - i,
        {
            let v = src[src_off + i];
            dst.set(dst_off + i, v);
            i = i + 1;
        }
    }

    /// Start writing `count` repetitions of `value` into `dst` at `dst_off`.
    /// Elements outside the destination window are untouched.
    pub fn start_fill<T: Copy>(&mut self, value: T, dst: &mut Vec<T>, dst_off: usize, count: usize)
        requires
            old(self).is_idle(),
            dst_off + count <= old(dst).len(),
        ensures
            !final(self).is_idle(),
            final(self).number() == old(self).number(),
            final(dst)@.len() == old(dst)@.len(),
            forall|i: int| dst_off <= i < dst_off + count ==> final(dst)@[i] == value,
            forall|i: int|
                0 <= i < old(dst)@.len() && !(dst_off <= i < dst_off + count) ==> final(dst)@[i] == old(dst)@[i],
    {
        self.in_flight = true;
        let ghost dst0: Seq<T> = dst@;
        let dst_len: usize = dst.len();
        let mut i: usize = 0;
        while i < count
            invariant
                i <= count,
                dst_off + count <= dst_len,
                dst_len == dst0.len(),
                dst@.len() == dst0.len(),
                forall|j: int| dst_off <= j < dst_off + i ==> dst@[j] == value,
                forall|j: int|
                    0 <= j < dst0.len() && !(dst_off <= j < dst_off + i) ==> dst@[j] == dst0[j],
            decreases count - i,
        {
            dst.set(dst_off + i, value);
            i = i + 1;
        }
    }

    /// Start copying `count` elements within one buffer, from `src_off` to
    /// `dst_off`.  The two windows must not overlap, matching the hardware
    /// requirement that a copy never reads what it is writing.
    pub fn start_copy_within<T: Copy>(
        &mut self,
        buf: &mut Vec<T>,
        src_off: usize,
        dst_off: usize,
        count: usize,
    )
        requires
            old(self).is_idle(),
            src_off + count <= old(buf).len(),
            dst_off + count <= old(buf).len(),
            src_off + count <= dst_off || dst_off + count <= src_off,
        ensures
            !final(self).is_idle(),
            final(self).number() == old(self).number(),
            final(buf)@.len() == old(buf)@.len(),
            forall|i: int|
                dst_off <= i < dst_off + count ==> final(buf)@[i] == old(buf)@[src_off + (i - dst_off)],
            forall|i: int|
                0 <= i < old(buf)@.len() && !(dst_off <= i < dst_off + count) ==> final(buf)@[i] == old(buf)@[i],
    {
        self.in_flight = true;
        let ghost buf0: Seq<T> = buf@;
        let buf_len: usize = buf.len();
        let mut i: usize = 0;
        while i < count
            invariant
                i <= count,
                src_off + count <= buf_len,
                dst_off + count <= buf_len,
                buf_len == buf0.len(),
                src_off + count <= dst_off || dst_off + count <= src_off,
                buf@.len() == buf0.len(),
                forall|j: int|
                    dst_off <= j < dst_off + i ==> buf@[j] == buf0[src_off + (j - dst_off)],
                forall|j: int|
                    0 <= j < buf0.len() && !(dst_off <= j < dst_off + i) ==> buf@[j] == buf0[j],
            decreases count - i,
        {
            let v = buf[src_off + i];
            buf.set(dst_off + i, v);
            i = i + 1;
        }
    }

    /// Block until the in-flight operation, if any, has completed.
    pub fn wait(&mut self)
        ensures
            final(self).is_idle(),
            final(self).number() == old(self).number(),
    {
        self.in_flight = false;
    }
}

} // verus!

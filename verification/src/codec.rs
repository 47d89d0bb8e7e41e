//! Run-length tile decompression codec.
//!
//! A compressed stream is a sequence of 16-bit words grouped into records.
//! Each record starts with a control word whose low 8 bits are the record's
//! `data_length` and whose high bits are its `run_length`:
//!
//! - `data_length == 0`: skip `run_length` destination words.  No source
//!   word beyond the control word is consumed and the skipped destination
//!   words keep their previous contents.
//! - `data_length > 0`: copy the next `data_length` literal words from the
//!   source, then, if `run_length > 0`, fill the following `run_length`
//!   destination words with a repetition of the last copied literal.
//!
//! The stream ends when the source cursor reaches the input length.  The
//! literal copy and the trailing fill of a record touch disjoint destination
//! windows, so the decoder drives them through two independent transfer
//! channels.

use vstd::prelude::*;

verus! {

use crate::dma::DmaChannel;

/// The `data_length` field of a control word: its low 8 bits.
pub open spec fn ctrl_data_len(w: u16) -> int {
    (w % 256) as int
}

/// The `run_length` field of a control word: its high 8 bits.
pub open spec fn ctrl_run_len(w: u16) -> int {
    (w / 256) as int
}

/// `dst` with the words of `vals` written at offset `at`.
pub open spec fn write_run(dst: Seq<u16>, at: int, vals: Seq<u16>) -> Seq<u16> {
    Seq::new(
        dst.len(),
        |i: int| if at <= i < at + vals.len() { vals[i - at] } else { dst[i] },
    )
}

/// `dst` with `count` repetitions of `value` written at offset `at`.
pub open spec fn fill_run(dst: Seq<u16>, at: int, value: u16, count: int) -> Seq<u16> {
    Seq::new(dst.len(), |i: int| if at <= i < at + count { value } else { dst[i] })
}

/// True when the stream suffix starting at `si`, decoded at destination
/// cursor `di`, stays inside both the source and a destination of length
/// `dst_len`.  A stream that fails this check is a mis-authored asset.
pub open spec fn stream_ok_from(s: Seq<u16>, si: int, dst_len: int, di: int) -> bool
    decreases s.len() - si,
{
    if si < 0 || si >= s.len() {
        true
    } else {
        let dl = ctrl_data_len(s[si]);
        let rl = ctrl_run_len(s[si]);
        if dl == 0 {
            di + rl <= dst_len && stream_ok_from(s, si + 1, dst_len, di + rl)
        } else {
            si + 1 + dl <= s.len() && di + dl + rl <= dst_len && stream_ok_from(
                s,
                si + 1 + dl,
                dst_len,
                di + dl + rl,
            )
        }
    }
}

/// The destination produced by one record of the stream: the literal words
/// written at `di`, then the run filled with the record's last literal.
pub open spec fn record_output(s: Seq<u16>, si: int, dst: Seq<u16>, di: int) -> Seq<u16> {
    let dl = ctrl_data_len(s[si]);
    let rl = ctrl_run_len(s[si]);
    fill_run(write_run(dst, di, s.subrange(si + 1, si + 1 + dl)), di + dl, s[si + dl], rl)
}

/// The destination after decoding the stream suffix starting at `si` over
/// `dst`, with the destination cursor at `di`.
pub open spec fn decode_from(s: Seq<u16>, si: int, dst: Seq<u16>, di: int) -> Seq<u16>
    decreases s.len() - si,
{
    if si < 0 || si >= s.len() {
        dst
    } else {
        let dl = ctrl_data_len(s[si]);
        let rl = ctrl_run_len(s[si]);
        if dl == 0 {
            decode_from(s, si + 1, dst, di + rl)
        } else if si + 1 + dl <= s.len() {
            decode_from(s, si + 1 + dl, record_output(s, si, dst, di), di + dl + rl)
        } else {
            dst
        }
    }
}

/// Build a control word from its two fields.
pub fn control_word(data_len: u16, run_len: u16) -> (w: u16)
    requires
        data_len < 256,
        run_len < 256,
    ensures
        ctrl_data_len(w) == data_len,
        ctrl_run_len(w) == run_len,
{
    let w = data_len | (run_len << 8u16);
    proof {
        assert(data_len < 256 && run_len < 256 ==> (data_len | (run_len << 8u16)) % 256 == data_len
            && (data_len | (run_len << 8u16)) / 256 == run_len) by (bit_vector);
    }
    w
}

/// Check that a whole stream decodes within a destination of `dst_len`
/// words when started at destination cursor `start`.  Decoding demands this
/// check; a stream that fails it would run a cursor out of bounds.
pub fn stream_fits(src: &Vec<u16>, dst_len: usize, start: usize) -> (ok: bool)
    ensures
        ok == stream_ok_from(src@, 0, dst_len as int, start as int),
{
    let n = src.len();
    let mut si: usize = 0;
    let mut di: usize = start;
    if start > dst_len {
        // The cursor already stands past the destination: an empty stream is
        // trivially fine, and any record would overrun.
        return n == 0;
    }
    while si < n
        invariant
            si <= n,
            n == src@.len(),
            stream_ok_from(src@, 0, dst_len as int, start as int) == stream_ok_from(
                src@,
                si as int,
                dst_len as int,
                di as int,
            ),
            di <= dst_len,
        decreases n - si,
    {
        let w = src[si];
        let dl = (w & 0xff) as usize;
        let rl = (w >> 8) as usize;
        proof {
            assert((w & 0xff) == w % 256 && (w >> 8) == w / 256) by (bit_vector);
        }
        if dl == 0 {
            if rl > dst_len - di {
                return false;
            }
            di = di + rl;
            si = si + 1;
        } else {
            if dl > n - si - 1 {
                return false;
            }
            if dl + rl > dst_len - di {
                return false;
            }
            di = di + dl + rl;
            si = si + 1 + dl;
        }
    }
    true
}

/// Decode a whole compressed stream into `dst`, starting at destination
/// cursor `start`, using one channel for literal copies and one for run
/// fills so the two transfers of a record can overlap.
pub fn decode_into(
    src: &Vec<u16>,
    dst: &mut Vec<u16>,
    start: usize,
    copy_ch: &mut DmaChannel,
    fill_ch: &mut DmaChannel,
)
    requires
        old(copy_ch).is_idle(),
        old(fill_ch).is_idle(),
        start <= old(dst).len(),
        stream_ok_from(src@, 0, old(dst)@.len() as int, start as int),
    ensures
        final(dst)@ == decode_from(src@, 0, old(dst)@, start as int),
        final(dst)@.len() == old(dst)@.len(),
        final(copy_ch).is_idle(),
        final(copy_ch).number() == old(copy_ch).number(),
        final(fill_ch).is_idle(),
        final(fill_ch).number() == old(fill_ch).number(),
{
    let ghost dst0: Seq<u16> = dst@;
    let ghost goal: Seq<u16> = decode_from(src@, 0, dst0, start as int);
    let ghost copy_num: u8 = copy_ch.number();
    let ghost fill_num: u8 = fill_ch.number();
    let n = src.len();
    let dst_len = dst.len();
    let mut si: usize = 0;
    let mut di: usize = start;
    while si < n
        invariant
            si <= n,
            n == src@.len(),
            di <= dst_len,
            dst_len == dst@.len(),
            dst@.len() == dst0.len(),
            stream_ok_from(src@, si as int, dst_len as int, di as int),
            decode_from(src@, si as int, dst@, di as int) == goal,
            copy_ch.is_idle(),
            copy_ch.number() == copy_num,
            fill_ch.is_idle(),
            fill_ch.number() == fill_num,
        decreases n - si,
    {
        let ghost prev: Seq<u16> = dst@;
        let w = src[si];
        let dl = (w & 0xff) as usize;
        let rl = (w >> 8) as usize;
        proof {
            assert((w & 0xff) == w % 256 && (w >> 8) == w / 256) by (bit_vector);
        }
        if dl == 0 {
            di = di + rl;
            si = si + 1;
        } else {
            copy_ch.start_copy(src, si + 1, dst, di, dl);
            let last = src[si + dl];
            if rl > 0 {
                fill_ch.start_fill(last, dst, di + dl, rl);
            }
            copy_ch.wait();
            fill_ch.wait();
            proof {
                assert(dst@ =~= record_output(src@, si as int, prev, di as int));
            }
            di = di + dl + rl;
            si = si + 1 + dl;
        }
    }
}

/// Reference encoder: emits each block of up to 255 words as one literal
/// record with no run.  It never produces skips or fills, so it is a
/// simple witness that every pixel grid has an encoding.
pub open spec fn encode_spec(p: Seq<u16>) -> Seq<u16>
    decreases p.len(),
{
    if p.len() == 0 {
        Seq::empty()
    } else {
        let c: int = if p.len() <= 255 { p.len() as int } else { 255 };
        seq![c as u16] + p.take(c) + encode_spec(p.skip(c))
    }
}

/// Encode a pixel grid with the reference encoder.
pub fn encode(p: &Vec<u16>) -> (r: Vec<u16>)
    ensures
        r@ == encode_spec(p@),
{
    let mut r: Vec<u16> = Vec::new();
    let n = p.len();
    let mut i: usize = 0;
    proof {
        assert(p@.skip(0) =~= p@);
        assert(r@ + encode_spec(p@.skip(0)) =~= encode_spec(p@));
    }
    while i < n
        invariant
            i <= n,
            n == p@.len(),
            r@ + encode_spec(p@.skip(i as int)) == encode_spec(p@),
        decreases n - i,
    {
        let ghost r0: Seq<u16> = r@;
        let c: usize = if n - i <= 255 {
            n - i
        } else {
            255
        };
        r.push(c as u16);
        let mut k: usize = 0;
        while k < c
            invariant
                k <= c,
                i + c <= n,
                n == p@.len(),
                r@ == r0 + seq![c as u16] + p@.subrange(i as int, i + k),
            decreases c - k,
        {
            proof {
                assert(r@ + seq![p@[i + k]] =~= r0 + seq![c as u16] + p@.subrange(
                    i as int,
                    i + k + 1,
                ));
            }
            let v = p[i + k];
            r.push(v);
            k = k + 1;
        }
        proof {
            let ii = i as int;
            let cc = c as int;
            assert(p@.skip(ii).take(cc) =~= p@.subrange(ii, ii + cc));
            assert(p@.skip(ii).skip(cc) =~= p@.skip(ii + cc));
            assert(encode_spec(p@.skip(ii)) == seq![cc as u16] + p@.skip(ii).take(cc) + encode_spec(
                p@.skip(ii).skip(cc),
            ));
            assert(r@ + encode_spec(p@.skip(ii + cc)) =~= r0 + encode_spec(p@.skip(ii)));
        }
        i = i + c;
    }
    proof {
        assert(encode_spec(p@.skip(n as int)) =~= Seq::<u16>::empty());
        assert(r@ + encode_spec(p@.skip(n as int)) =~= r@);
    }
    r
}

/// A record whose `data_length` is zero reads no source word beyond its
/// control word, leaves the destination untouched, and advances the
/// destination cursor by exactly its `run_length`.
pub proof fn lemma_skip_record(s: Seq<u16>, si: int, dst: Seq<u16>, di: int)
    requires
        0 <= si < s.len(),
        ctrl_data_len(s[si]) == 0,
    ensures
        decode_from(s, si, dst, di) == decode_from(s, si + 1, dst, di + ctrl_run_len(s[si])),
{
}

/// A record with nonzero `data_length` and nonzero `run_length` fills
/// exactly `run_length` destination words, each with the value of the
/// record's last literal word, right after the literal block.
pub proof fn lemma_run_fill_record(s: Seq<u16>, si: int, dst: Seq<u16>, di: int)
    requires
        0 <= si < s.len(),
        0 <= di,
        ctrl_data_len(s[si]) > 0,
        ctrl_run_len(s[si]) > 0,
        si + 1 + ctrl_data_len(s[si]) <= s.len(),
        di + ctrl_data_len(s[si]) + ctrl_run_len(s[si]) <= dst.len(),
    ensures
        decode_from(s, si, dst, di) == decode_from(
            s,
            si + 1 + ctrl_data_len(s[si]),
            record_output(s, si, dst, di),
            di + ctrl_data_len(s[si]) + ctrl_run_len(s[si]),
        ),
        forall|j: int|
            di + ctrl_data_len(s[si]) <= j < di + ctrl_data_len(s[si]) + ctrl_run_len(s[si])
                ==> record_output(s, si, dst, di)[j] == s[si + ctrl_data_len(s[si])],
{
}

/// Round trip: decoding the reference encoding of any pixel grid over any
/// destination of the same length reproduces the grid exactly, and the
/// encoded stream stays in bounds throughout.
pub proof fn lemma_codec_round_trip(p: Seq<u16>, dst: Seq<u16>)
    requires
        dst.len() == p.len(),
    ensures
        stream_ok_from(encode_spec(p), 0, dst.len() as int, 0),
        decode_from(encode_spec(p), 0, dst, 0) == p,
{
    let s = encode_spec(p);
    assert(s.skip(0) =~= s);
    lemma_encode_decodes_back(p, s, 0, dst, 0);
    assert(write_run(dst, 0, p) =~= p);
}

/// Corollary for arbitrary well-formed streams: decode a stream, re-encode
/// the pixel grid with the reference encoder, and decoding that encoding
/// reproduces the grid exactly.
pub proof fn lemma_reencode_reproduces_decoded(s: Seq<u16>, dst: Seq<u16>, dst2: Seq<u16>)
    requires
        dst.len() == dst2.len(),
    ensures
        decode_from(encode_spec(decode_from(s, 0, dst, 0)), 0, dst2, 0) == decode_from(
            s,
            0,
            dst,
            0,
        ),
{
    lemma_decode_len(s, 0, dst, 0);
    lemma_codec_round_trip(decode_from(s, 0, dst, 0), dst2);
}

/// Decoding never changes the destination's length.
pub proof fn lemma_decode_len(s: Seq<u16>, si: int, dst: Seq<u16>, di: int)
    ensures
        decode_from(s, si, dst, di).len() == dst.len(),
    decreases s.len() - si,
{
    if 0 <= si < s.len() {
        let dl = ctrl_data_len(s[si]);
        let rl = ctrl_run_len(s[si]);
        if dl == 0 {
            lemma_decode_len(s, si + 1, dst, di + rl);
        } else if si + 1 + dl <= s.len() {
            lemma_decode_len(s, si + 1 + dl, record_output(s, si, dst, di), di + dl + rl);
        }
    }
}

/// Decoding an encoded grid embedded as the suffix of a stream writes the
/// grid at the destination cursor and leaves the rest of the destination
/// alone.
proof fn lemma_encode_decodes_back(p: Seq<u16>, s: Seq<u16>, si: int, dst: Seq<u16>, di: int)
    requires
        0 <= si <= s.len(),
        0 <= di,
        s.skip(si) == encode_spec(p),
        di + p.len() <= dst.len(),
    ensures
        stream_ok_from(s, si, dst.len() as int, di),
        decode_from(s, si, dst, di) == write_run(dst, di, p),
    decreases p.len(),
{
    if p.len() == 0 {
        assert(s.skip(si).len() == 0);
        assert(si == s.len());
        assert(write_run(dst, di, p) =~= dst);
    } else {
        let c: int = if p.len() <= 255 { p.len() as int } else { 255 };
        let cw = c as u16;
        let enc = s.skip(si);
        assert(enc == seq![cw] + p.take(c) + encode_spec(p.skip(c)));
        assert(s[si] == enc[0]);
        assert(enc[0] == cw);
        assert(ctrl_data_len(cw) == c);
        assert(ctrl_run_len(cw) == 0);
        assert(1 + c <= enc.len());
        assert(si + 1 + c <= s.len());
        let lits = s.subrange(si + 1, si + 1 + c);
        assert(lits =~= p.take(c)) by {
            assert forall|j: int| 0 <= j < c implies lits[j] == p.take(c)[j] by {
                assert(lits[j] == s[si + 1 + j]);
                assert(s[si + 1 + j] == enc[1 + j]);
            }
        }
        assert(s[si + c] == enc[c]);
        assert(enc[c] == p.take(c)[c - 1]);
        let out = record_output(s, si, dst, di);
        assert(out =~= write_run(dst, di, p.take(c)));
        assert(s.skip(si + 1 + c) =~= encode_spec(p.skip(c))) by {
            assert forall|j: int| 0 <= j < s.len() - (si + 1 + c) implies s.skip(si + 1 + c)[j]
                == encode_spec(p.skip(c))[j] by {
                assert(s.skip(si + 1 + c)[j] == s[si + 1 + c + j]);
                assert(s[si + 1 + c + j] == enc[1 + c + j]);
            }
        }
        lemma_encode_decodes_back(p.skip(c), s, si + 1 + c, out, di + c);
        assert(decode_from(s, si, dst, di) == decode_from(s, si + 1 + c, out, di + c));
        assert(decode_from(s, si + 1 + c, out, di + c) == write_run(out, di + c, p.skip(c)));
        assert(write_run(out, di + c, p.skip(c)) =~= write_run(dst, di, p));
        assert(stream_ok_from(s, si, dst.len() as int, di));
    }
}

} // verus!

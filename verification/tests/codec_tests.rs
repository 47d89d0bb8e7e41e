use tilecore::codec::{control_word, decode_into, encode, stream_fits};
use tilecore::dma::DmaChannel;

fn decode(src: &Vec<u16>, dst_len: usize) -> Vec<u16> {
    assert!(stream_fits(src, dst_len, 0));
    let mut dst = vec![0u16; dst_len];
    let mut a = DmaChannel::claim(0);
    let mut b = DmaChannel::claim(1);
    decode_into(src, &mut dst, 0, &mut a, &mut b);
    dst
}

#[test]
fn control_word_splits_fields() {
    let w = control_word(3, 2);
    assert_eq!(w & 0xff, 3);
    assert_eq!(w >> 8, 2);
    assert_eq!(control_word(0, 255), 255 << 8);
    assert_eq!(control_word(255, 0), 255);
}

#[test]
fn literal_then_run_record() {
    // data_length = 3, run_length = 2 over literals [A, B, C]
    let src = vec![control_word(3, 2), 0xAAAA, 0xBBBB, 0xCCCC];
    let dst = decode(&src, 5);
    assert_eq!(dst, vec![0xAAAA, 0xBBBB, 0xCCCC, 0xCCCC, 0xCCCC]);
}

#[test]
fn pure_skip_leaves_zeros() {
    // data_length = 0, run_length = 5 over a zero destination
    let src = vec![control_word(0, 5)];
    let dst = decode(&src, 5);
    assert_eq!(dst, vec![0u16; 5]);
}

#[test]
fn skip_advances_cursor_by_run_length() {
    // The skip consumes no source and moves the cursor by exactly 5: the
    // next record lands at position 5.
    let src = vec![control_word(0, 5), control_word(1, 0), 0x1234];
    let dst = decode(&src, 6);
    assert_eq!(dst, vec![0, 0, 0, 0, 0, 0x1234]);
}

#[test]
fn run_repeats_last_literal() {
    let src = vec![control_word(1, 10), 7];
    let dst = decode(&src, 11);
    assert_eq!(dst, vec![7u16; 11]);
}

#[test]
fn skip_preserves_existing_words() {
    // Decode a stream with a skip over a destination that already holds
    // data: the skipped words keep their previous contents.
    let src = vec![control_word(2, 0), 1, 2, control_word(0, 2), control_word(1, 0), 9];
    let mut dst = vec![100u16, 100, 100, 100, 100];
    assert!(stream_fits(&src, 5, 0));
    let mut a = DmaChannel::claim(0);
    let mut b = DmaChannel::claim(1);
    decode_into(&src, &mut dst, 0, &mut a, &mut b);
    assert_eq!(dst, vec![1, 2, 100, 100, 9]);
}

#[test]
fn round_trip_small() {
    let pixels: Vec<u16> = (0..37u16).map(|i| i * 3 + 1).collect();
    let encoded = encode(&pixels);
    let decoded = decode(&encoded, pixels.len());
    assert_eq!(decoded, pixels);
}

#[test]
fn round_trip_tile_sized() {
    // A full tile's worth of pixels, longer than one literal record can
    // hold, so the encoder emits several records.
    let pixels: Vec<u16> = (0..1024u32).map(|i| (i * 7 % 65521) as u16).collect();
    let encoded = encode(&pixels);
    assert!(encoded.len() > pixels.len());
    let decoded = decode(&encoded, pixels.len());
    assert_eq!(decoded, pixels);
}

#[test]
fn round_trip_empty() {
    let pixels: Vec<u16> = Vec::new();
    let encoded = encode(&pixels);
    assert_eq!(encoded.len(), 0);
    let decoded = decode(&encoded, 0);
    assert_eq!(decoded.len(), 0);
}

#[test]
fn overlong_stream_is_refused() {
    // A run that would walk the cursor past the destination.
    let src = vec![control_word(0, 6)];
    assert!(!stream_fits(&src, 5, 0));
    // Literals past the end of the source.
    let src = vec![control_word(3, 0), 1, 2];
    assert!(!stream_fits(&src, 5, 0));
    // A literal block past the end of the destination.
    let src = vec![control_word(3, 0), 1, 2, 3];
    assert!(!stream_fits(&src, 2, 0));
}

#[test]
fn starting_cursor_counts_against_capacity() {
    let src = vec![control_word(1, 0), 5];
    assert!(stream_fits(&src, 3, 2));
    assert!(!stream_fits(&src, 3, 3));
}

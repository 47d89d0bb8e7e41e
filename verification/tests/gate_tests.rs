use tilecore::gate::{
    is_slow_draw, must_wait, safe_rows, wait_for_row_group, ProgressSource, SimulatedTransmission,
};
use tilecore::{FRAME_WORDS, SCREEN_WIDTH};

#[test]
fn gate_waits_until_one_group_ahead() {
    // Row-group height 32, margin 0: with safe_row = 10 and drawn_row = 0
    // the renderer must wait until safe_row reaches 32.
    assert!(must_wait(10, 0, 32, 0, 240));
    assert!(must_wait(31, 0, 32, 0, 240));
    assert!(!must_wait(32, 0, 32, 0, 240));

    // The transport is asked for exactly one row group of pixels and the
    // wait ends at safe row 32.
    let mut t = SimulatedTransmission::new();
    let (safe, slow) = wait_for_row_group(&mut t, 0, 32, 0);
    assert_eq!(t.sent, 32 * SCREEN_WIDTH as u32);
    assert_eq!(safe, 32);
    assert!(!slow);
    assert!(!must_wait(safe, 0, 32, 0, 240));
}

#[test]
fn gate_open_when_frame_finished() {
    // Once the consumer has sent the whole frame there is nothing left
    // to race against.
    assert!(!must_wait(240, 230, 32, 0, 240));
    assert!(must_wait(239, 230, 32, 0, 240));
}

#[test]
fn gate_respects_margin() {
    assert!(must_wait(40, 0, 32, 16, 240));
    assert!(!must_wait(48, 0, 32, 16, 240));

    let mut t = SimulatedTransmission::new();
    let (safe, _) = wait_for_row_group(&mut t, 0, 32, 16);
    assert_eq!(t.sent, 48 * SCREEN_WIDTH as u32);
    assert_eq!(safe, 48);
}

#[test]
fn gate_request_is_capped_at_frame() {
    // A cursor near the bottom would need rows past the frame; the wait
    // then only asks for the frame's end.
    let mut t = SimulatedTransmission::new();
    let (safe, _) = wait_for_row_group(&mut t, 230, 32, 0);
    assert_eq!(t.sent, FRAME_WORDS as u32);
    assert_eq!(safe, 240);
}

#[test]
fn slow_draw_flags_large_gap() {
    assert!(!is_slow_draw(64, 0, 32));
    assert!(is_slow_draw(65, 0, 32));
    assert!(!is_slow_draw(80, 40, 32));
}

#[test]
fn safe_rows_divides_pixels() {
    assert_eq!(safe_rows(0), 0);
    assert_eq!(safe_rows(SCREEN_WIDTH as u32 - 1), 0);
    assert_eq!(safe_rows(SCREEN_WIDTH as u32), 1);
    assert_eq!(safe_rows(10 * SCREEN_WIDTH as u32 + 5), 10);
}

#[test]
fn simulated_transmission_advances_monotonically() {
    let mut s = SimulatedTransmission::new();
    let a = s.wait_until_transmitted(100);
    assert!(a >= 100);
    let b = s.wait_until_transmitted(50);
    assert!(b >= a);
    let c = s.wait_until_transmitted(2 * FRAME_WORDS as u32);
    assert!(c >= FRAME_WORDS as u32);
}

use whalescale::expiry::{expires_within, is_active};
use whalescale::relay::{decode_frame, encode_frame};
use whalescale::stats::{counter_delta, LatencyWindow};

#[test]
fn p95_nearest_rank() {
    let mut w = LatencyWindow::new(100);
    for i in 1..=100 {
        w.push(i);
    }
    assert_eq!(w.p95(), Some(95));
}

#[test]
fn window_aggregates_and_evicts() {
    let mut w = LatencyWindow::new(3);
    assert_eq!(w.last(), None);
    w.push(10);
    w.push(20);
    w.push(30);
    assert_eq!(w.last(), Some(30));
    assert_eq!(w.min(), Some(10));
    assert_eq!(w.max(), Some(30));
    w.push(40);
    assert_eq!(w.samples(), vec![20, 30, 40]);
    assert_eq!(w.min(), Some(20));
}

#[test]
fn zero_capacity_window_keeps_one_sample() {
    let mut w = LatencyWindow::new(0);
    w.push(1);
    w.push(2);
    assert_eq!(w.samples(), vec![2]);
    assert_eq!(w.p95(), Some(2));
}

#[test]
fn counter_reset_counts_nothing() {
    assert_eq!(counter_delta(1000, 5000), 4000);
    assert_eq!(counter_delta(5000, 1000), 0);
}

#[test]
fn active_and_expiry_windows() {
    let now: i64 = 1_700_000_000_000;
    let hour: i64 = 3_600_000;
    let day: i64 = 24 * hour;
    assert!(is_active(None, now), "no expiry = active");
    assert!(is_active(Some(now + hour), now));
    assert!(!is_active(Some(now - hour), now), "past = inactive");

    assert!(expires_within(Some(now + 12 * hour), now, day));
    assert!(!expires_within(Some(now + 5 * day), now, day));
    assert!(!expires_within(None, now, day));
    assert!(!expires_within(Some(now - hour), now, day));
}

#[test]
fn frame_roundtrip() {
    let payload = b"encrypted-wireguard-bytes";
    let frame = encode_frame("PEERKEYBASE64==", payload);
    let (key, got) = decode_frame(&frame).expect("decodes");
    assert_eq!(key, "PEERKEYBASE64==");
    assert_eq!(got, payload);
}

#[test]
fn rejects_truncated_frame() {
    assert!(decode_frame(&[200, 1, 2, 3]).is_none());
}

#[test]
fn frame_layout_is_length_key_payload() {
    assert_eq!(encode_frame("ab", &[9]), vec![2, b'a', b'b', 9]);
    assert!(decode_frame(&[]).is_none());
    assert!(decode_frame(&[1, 0xff]).is_none()); // key is not UTF-8
}

#[test]
fn p95_is_the_nearest_rank() {
    let mut w = LatencyWindow::new(10);
    w.push(20);
    w.push(10);
    assert_eq!(w.p95(), Some(20));
    w.push(30);
    assert_eq!(w.p95(), Some(30));
}

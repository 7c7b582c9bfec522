use indexer::reader::CachedReader;

#[test]
fn hit_inside_window_returns_exact_bytes() {
    let mut c = CachedReader::new(1000);
    let window: Vec<u8> = (0..100).collect();
    c.install(50, window);
    // fully inside the retained window: answered with no fetch
    let got = c.read(60, 70).unwrap();
    assert_eq!(got, (10..20).collect::<Vec<u8>>());
    // touching both window ends still hits
    let got = c.read(50, 150).unwrap();
    assert_eq!(got.len(), 100);
}

#[test]
fn straddling_read_misses_and_plan_covers_request() {
    let mut c = CachedReader::new(1000);
    c.install(0, vec![7u8; 100]);
    assert!(c.read(90, 120).is_none());
    let (a, b) = c.plan(90, 120);
    assert_eq!(a, 90);
    assert!(b >= 120 && b <= 1000);
}

#[test]
fn short_request_is_topped_up_to_read_ahead() {
    let c = CachedReader::new(1000);
    let (a, b) = c.plan(200, 210);
    assert_eq!(a, 200);
    // 10 bytes wanted, topped up by 118 toward the 128-byte look-ahead
    assert_eq!(b, 328);
    // a long request gets no padding
    let (a, b) = c.plan(0, 500);
    assert_eq!((a, b), (0, 500));
}

#[test]
fn plan_clamps_to_file_end() {
    let c = CachedReader::new(1000);
    let (a, b) = c.plan(990, 1005);
    assert_eq!((a, b), (990, 1000));
}

#[test]
fn read_past_file_end_is_empty_hit() {
    let mut c = CachedReader::new(100);
    c.install(0, vec![1u8; 100]);
    let got = c.read(100, 120).unwrap();
    assert_eq!(got, Vec::<u8>::new());
    // a read ending past the file end is clamped, not missed
    let got = c.read(95, 120).unwrap();
    assert_eq!(got, vec![1u8; 5]);
}

#[test]
fn backward_read_misses() {
    let mut c = CachedReader::new(1000);
    c.install(500, vec![2u8; 100]);
    assert!(c.read(400, 410).is_none());
    let (a, b) = c.plan(400, 410);
    assert_eq!(a, 400);
    assert!(b >= 410);
}

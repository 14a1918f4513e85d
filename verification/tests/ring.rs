use corsair::ring::{pack_frame, unpack_frames, Ring};

#[test]
fn create_open_round_trip() {
    let mut ring = Ring::create_owner(4096);
    assert!(ring.read_available().is_empty());
    assert_eq!(ring.frames_dropped(), 0);
}

#[test]
fn write_then_read_via_two_handles() {
    let mut ring = Ring::create_owner(4096);
    assert!(ring.write_frame(b"hello"));
    let data = ring.read_available();
    assert_eq!(data, b"hello");
}

#[test]
fn buffer_full_drops_frame() {
    let mut ring = Ring::create_owner(64);
    let big = vec![0u8; 40];
    assert!(!ring.write_frame(&big));
    assert_eq!(ring.frames_dropped(), 1);
}

#[test]
fn write_body_round_trip_matches_write_frame() {
    let mut r1 = Ring::create_owner(4096);
    let mut r2 = Ring::create_owner(4096);
    let body = b"hello world";
    let frame = pack_frame(&body.to_vec());
    assert!(r1.write_frame(&frame));
    assert!(r2.write_body(body));
    assert_eq!(r1.read_available(), r2.read_available());
}

#[test]
fn write_body_wrap_around_prefix_split() {
    let mut ring = Ring::create_owner(256);
    for _ in 0..4 {
        let body = vec![0xAAu8; 50];
        assert!(ring.write_body(&body));
        let _ = ring.read_available();
    }
    let priming = vec![0xCCu8; 34];
    assert!(ring.write_body(&priming));
    let _ = ring.read_available();
    let body_split = vec![0xBBu8; 16];
    assert!(ring.write_body(&body_split));
    let data = ring.read_available();
    assert_eq!(&data[..4], &(16u32).to_be_bytes());
    assert_eq!(&data[4..], &body_split[..]);
}

#[test]
fn write_then_read_preserves_byte_order() {
    let mut ring = Ring::create_owner(4096);
    let frames: Vec<Vec<u8>> = (0..16).map(|i| vec![i as u8; 32]).collect();
    for f in &frames {
        assert!(ring.write_frame(f));
    }
    let bytes = ring.read_available();
    let expected: Vec<u8> = frames.iter().flatten().copied().collect();
    assert_eq!(bytes, expected);
}

#[test]
fn full_ring_drops_and_counts() {
    let mut ring = Ring::create_owner(64);
    let body = vec![7u8; 16];
    assert!(ring.write_body(&body));
    assert!(ring.write_body(&body));
    assert!(ring.write_body(&body));
    assert!(!ring.write_body(&body));
    assert_eq!(ring.frames_dropped(), 1);
    assert_eq!(ring.read_available().len(), 60);
    assert!(ring.write_body(&body));
}

#[test]
fn bodies_come_back_from_frames() {
    let mut stream = pack_frame(&b"one".to_vec());
    stream.extend(pack_frame(&b"".to_vec()));
    stream.extend(pack_frame(&b"three".to_vec()));
    stream.extend([0u8, 0, 0]);
    let bodies = unpack_frames(&mut stream);
    assert_eq!(bodies, vec![b"one".to_vec(), b"".to_vec(), b"three".to_vec()]);
    assert_eq!(stream, vec![0u8, 0, 0]);
}

#[test]
fn a_body_is_written_as_its_frame() {
    let mut a = Ring::create_owner(32);
    let mut b = Ring::create_owner(32);
    for body in [&b"abcde"[..], b"", b"0123456789", b"0123456789abcdef", b"xyz", b"0123456"] {
        let frame = pack_frame(&body.to_vec());
        assert_eq!(a.write_body(body), b.write_frame(&frame));
        assert_eq!(a.frames_dropped(), b.frames_dropped());
        if body.len() == 3 {
            assert_eq!(a.read_available(), b.read_available());
        }
    }
    assert_eq!(a.frames_dropped(), 2);
    assert_eq!(a.read_available(), b.read_available());
}

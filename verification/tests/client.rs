use bytes::BytesMut;
use corsair::client::{
    decode_payload, parse_int, try_decode_frame, Backlog, ClientState, FrameReader, HandshakeReader, HandshakeStep,
    DISPATCH_CHANNEL_CAP,
};
use corsair::codec::{encode_owned, frame_payload};
use corsair::native_error::NativeError;

fn fields(parts: &[&str]) -> Vec<String> {
    parts.iter().map(|p| p.to_string()).collect()
}

#[test]
fn frames_are_decoded_as_they_complete() {
    let one = encode_owned(&fields(&["61", "3", "acct"]));
    let two = encode_owned(&fields(&["9", "", "12"]));
    let mut all = one.clone();
    all.extend(&two);
    let mut reader = FrameReader::new();
    let (head, tail) = all.split_at(one.len() + 3);
    let got = reader.feed(head).unwrap();
    assert_eq!(got, vec![fields(&["61", "3", "acct"])]);
    let got = reader.feed(tail).unwrap();
    assert_eq!(got, vec![fields(&["9", "", "12"])]);
    assert!(reader.feed(&[]).unwrap().is_empty());
}

#[test]
fn bytes_that_are_no_text_are_refused() {
    let mut reader = FrameReader::new();
    let bad = frame_payload(&vec![0xff, 0x00]);
    assert!(matches!(reader.feed(&bad), Err(NativeError::Malformed(_))));
    assert!(matches!(decode_payload(&[0xc3, 0x28, 0]), Err(NativeError::Malformed(_))));
    assert_eq!(decode_payload(b"a\0\0b\0").unwrap(), fields(&["a", "", "b"]));
}

#[test]
fn a_frame_is_taken_off_the_front() {
    let mut buf = BytesMut::from(&encode_owned(&fields(&["4", "x"]))[..]);
    buf.extend_from_slice(&[0, 0]);
    assert_eq!(try_decode_frame(&mut buf).unwrap(), Some(fields(&["4", "x"])));
    assert_eq!(&buf[..], &[0, 0]);
    assert_eq!(try_decode_frame(&mut buf).unwrap(), None);
    assert_eq!(&buf[..], &[0, 0]);
}

#[test]
fn integers_are_read() {
    assert_eq!(parse_int("176").unwrap(), 176);
    assert_eq!(parse_int("-3").unwrap(), -3);
    assert!(matches!(parse_int("12x"), Err(NativeError::Malformed(_))));
}

#[test]
fn new_returns_disconnected_client() {
    let client = ClientState::new();
    assert_eq!(client.server_version, 0);
    assert_eq!(client.next_order_id, 0);
    assert!(!client.bootstrapped());
}

#[test]
fn order_ids_only_grow() {
    let mut c = ClientState::new();
    assert_eq!(c.alloc_order_id(), 0);
    c.note_frame(&fields(&["9", "1", "100"]));
    assert_eq!(c.alloc_order_id(), 100);
    assert_eq!(c.alloc_order_id(), 101);
    c.note_frame(&fields(&["9", "1", "50"]));
    assert_eq!(c.alloc_order_id(), 102);
    c.note_frame(&fields(&["9", "1", "500"]));
    assert_eq!(c.alloc_order_id(), 500);
    assert_eq!(c.msgs_recv, 3);
    c.note_frame(&fields(&["15", "1", "DU1,DU2"]));
    assert_eq!(c.managed_accounts, fields(&["DU1", "DU2"]));
    assert!(c.bootstrapped());
}

#[test]
fn dropped_messages_are_reported_rarely() {
    let mut c = ClientState::new();
    let reports: Vec<bool> = (0..8).map(|_| c.note_dropped()).collect();
    assert_eq!(reports, vec![true, true, false, true, false, false, false, true]);
    c.note_sent();
    assert_eq!(c.msgs_sent, 1);
}

#[test]
fn handshake_needs_a_version_that_is_known() {
    let mut c = ClientState::new();
    assert!(matches!(
        c.accept_handshake(100, "t".to_string()),
        Err(NativeError::ServerVersionTooLow(100, _))
    ));
    assert_eq!(c.server_version, 0);
    assert!(c.accept_handshake(176, "t".to_string()).is_ok());
    assert_eq!((c.server_version, c.conn_time.as_str()), (176, "t"));
}

#[test]
fn handshake_reply_may_come_in_pieces() {
    let frame = encode_owned(&fields(&["176", "20260504 10:00:00 CST"]));
    let mut r = HandshakeReader::new();
    assert!(r.step(HandshakeStep::Got(frame[..5].to_vec())).unwrap().is_none());
    assert!(r.step(HandshakeStep::WouldBlock).unwrap().is_none());
    let (version, time) = r.step(HandshakeStep::Got(frame[5..].to_vec())).unwrap().unwrap();
    assert_eq!((version, time.as_str()), (176, "20260504 10:00:00 CST"));
    assert!(matches!(r.step(HandshakeStep::Eof), Err(NativeError::Protocol(_))));
    assert!(matches!(r.step(HandshakeStep::TimedOut), Err(NativeError::HandshakeTimeout)));
    assert!(matches!(r.step(HandshakeStep::Failed("reset".to_string())), Err(NativeError::Io(_))));
}

#[test]
fn errors_have_their_words() {
    assert_eq!(NativeError::NotConnected.message(), "not connected");
    assert_eq!(NativeError::HandshakeTimeout.message(), "handshake timed out");
    assert_eq!(NativeError::Io("x".to_string()).message(), "io: x");
    assert_eq!(
        NativeError::ServerVersionTooLow(99, 142).message(),
        "server version 99 below minimum supported 142"
    );
}

#[test]
fn a_full_backlog_loses_the_oldest() {
    let mut b = Backlog::new();
    assert!(b.pop().is_none());
    for i in 0..DISPATCH_CHANNEL_CAP as u64 {
        assert!(!b.push(vec![i.to_string()], i));
    }
    assert!(b.push(vec!["last".to_string()], 99_999));
    assert_eq!(b.pop(), Some((vec!["1".to_string()], 1)));
    let mut last = None;
    while let Some(m) = b.pop() {
        last = Some(m);
    }
    assert_eq!(last, Some((vec!["last".to_string()], 99_999)));
}

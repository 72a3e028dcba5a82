use proxy::error::ProxyError;
use proxy::message::{encode, Message, CAPACITY, FRAME_SIZE};

#[test]
fn test() {
    let tmp = "I am good boy";
    println!("tmp is: {:?}", tmp.as_bytes());
    let s = Message::from_str_to_vec(1, tmp).unwrap();
    let len = Message::len_fromn_u8(&s) as usize;
    let req = std::str::from_utf8(&s[..len]).unwrap();
    println!("{req}");
    assert_eq!(req, tmp);
    assert_eq!(len, 13);
    assert_eq!(Message::id_fromn_u8(&s), 1);
}

#[test]
fn frame_layout_is_exact() {
    let frame = encode(0x0102_0304_0506_0708, b"abc").unwrap();
    assert_eq!(frame.len(), 512);
    assert_eq!(&frame[..3], b"abc");
    assert!(frame[3..496].iter().all(|b| *b == 0));
    assert_eq!(&frame[496..504], &[3, 0, 0, 0, 0, 0, 0, 0]);
    assert_eq!(&frame[504..512], &[8, 7, 6, 5, 4, 3, 2, 1]);
}

#[test]
fn constants_describe_the_frame() {
    assert_eq!(CAPACITY, 496);
    assert_eq!(FRAME_SIZE, CAPACITY + 16);
}

#[test]
fn empty_payload_round_trips() {
    let frame = encode(42, b"").unwrap();
    assert!(frame[..496].iter().all(|b| *b == 0));
    assert_eq!(Message::len_fromn_u8(&frame), 0);
    assert_eq!(Message::id_fromn_u8(&frame), 42);
}

#[test]
fn full_payload_round_trips() {
    let payload: Vec<u8> = (0..496u32).map(|i| (i % 251) as u8).collect();
    let frame = encode(u64::MAX, &payload).unwrap();
    assert_eq!(Message::len_fromn_u8(&frame), 496);
    assert_eq!(Message::id_fromn_u8(&frame), u64::MAX);
    assert_eq!(&frame[..496], &payload[..]);
}

#[test]
fn oversized_payload_is_rejected() {
    let payload = vec![7u8; 497];
    assert_eq!(encode(1, &payload), Err(ProxyError::PayloadTooLarge));
    let text = "x".repeat(497);
    assert_eq!(Message::from_str_to_vec(1, &text), Err(ProxyError::PayloadTooLarge));
    assert!(matches!(Message::new(1, &payload), Err(ProxyError::PayloadTooLarge)));
}

#[test]
fn trailer_fields_are_read_independently() {
    let mut frame = [0xffu8; 512];
    frame[496..504].copy_from_slice(&[1, 2, 0, 0, 0, 0, 0, 0]);
    assert_eq!(Message::len_fromn_u8(&frame), 513);
    assert_eq!(Message::id_fromn_u8(&frame), u64::MAX);
}

#[test]
fn from_body_to_vec_frames_in_place() {
    let mut buf = [0xaau8; 520];
    buf[..5].copy_from_slice(b"hello");
    assert_eq!(Message::from_body_to_vec(9, &mut buf, 5), Ok(()));
    assert_eq!(&buf[..512], &encode(9, b"hello").unwrap()[..]);
    assert!(buf[512..].iter().all(|b| *b == 0xaa));
}

#[test]
fn from_body_to_vec_rejects_and_keeps_the_buffer() {
    let mut buf = [0x55u8; 512];
    assert_eq!(Message::from_body_to_vec(9, &mut buf, 497), Err(ProxyError::PayloadTooLarge));
    assert!(buf.iter().all(|b| *b == 0x55));
}

#[test]
fn message_getters() {
    let m = Message::new(17, b"payload").unwrap();
    assert_eq!(m.id(), 17);
    assert_eq!(m.len(), 7);
    assert_eq!(m.payload(), b"payload".to_vec());
}

#[test]
fn message_to_frame_and_back() {
    let m = Message::new(3, b"ping").unwrap();
    let frame = m.to_frame();
    assert_eq!(frame, encode(3, b"ping").unwrap());
    let back = Message::from_frame(&frame).unwrap();
    assert_eq!(back.id(), 3);
    assert_eq!(back.payload(), b"ping".to_vec());
}

#[test]
fn from_frame_ignores_padding_and_checks_the_frame() {
    let mut frame = encode(5, b"ab").unwrap();
    frame[100] = 0xee;
    let m = Message::from_frame(&frame).unwrap();
    assert_eq!(m.payload(), b"ab".to_vec());
    assert!(Message::from_frame(&frame[..511]).is_none());
    frame[497] = 2;
    assert!(Message::from_frame(&frame).is_none());
}

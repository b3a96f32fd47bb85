use race_server::codec::{
    envelope, frame, parse_frame, parse_frames, seal, split_datagram, unseal,
};
use race_server::error::ServerError;

fn chat_payload(len: usize) -> Vec<u8> {
    let mut payload = b"C:0:".to_vec();
    while payload.len() < len {
        let letter = b'a' + (payload.len() % 26) as u8;
        payload.push(letter);
    }
    payload
}

#[test]
fn frame_writes_little_endian_length() {
    let bytes = frame(b"Hi").unwrap();
    assert_eq!(bytes, vec![2, 0, 0, 0, b'H', b'i']);
    let long = vec![7u8; 258];
    let bytes = frame(&long).unwrap();
    assert_eq!(&bytes[..4], &[2, 1, 0, 0]);
    assert_eq!(&bytes[4..], &long[..]);
}

#[test]
fn frame_of_empty_payload_is_the_prefix_alone() {
    assert_eq!(frame(b"").unwrap(), vec![0, 0, 0, 0]);
}

#[test]
fn parse_frame_waits_for_the_whole_frame() {
    assert_eq!(parse_frame(&[]), None);
    assert_eq!(parse_frame(&[3, 0, 0]), None);
    assert_eq!(parse_frame(&[3, 0, 0, 0, b'a', b'b']), None);
    assert_eq!(
        parse_frame(&[3, 0, 0, 0, b'a', b'b', b'c', 9]),
        Some((b"abc".to_vec(), 7))
    );
}

#[test]
fn frames_round_trip_in_order() {
    let packets: Vec<Vec<u8>> = vec![
        b"H".to_vec(),
        Vec::new(),
        b"C:0:hello".to_vec(),
        chat_payload(700),
    ];
    let mut stream = Vec::new();
    for packet in &packets {
        stream.extend_from_slice(&frame(packet).unwrap());
    }
    let (parsed, used) = parse_frames(&stream);
    assert_eq!(parsed, packets);
    assert_eq!(used, stream.len());
}

#[test]
fn parse_frames_leaves_an_incomplete_tail() {
    let mut stream = frame(b"Od:1-2").unwrap();
    let whole = stream.len();
    stream.extend_from_slice(&[5, 0, 0, 0, b'x']);
    let (parsed, used) = parse_frames(&stream);
    assert_eq!(parsed, vec![b"Od:1-2".to_vec()]);
    assert_eq!(used, whole);
}

#[test]
fn datagram_header_gives_sender_and_payload() {
    assert_eq!(
        split_datagram(&[3, b':', b'p']),
        Ok((2, b"p".to_vec()))
    );
    assert_eq!(split_datagram(&[1, b':']), Ok((0, Vec::new())));
    assert_eq!(split_datagram(&[]), Err(ServerError::BrokenPacket));
    assert_eq!(split_datagram(&[4]), Err(ServerError::BrokenPacket));
    assert_eq!(split_datagram(&[0, b':', b'p']), Err(ServerError::BrokenPacket));
}

#[test]
fn envelope_puts_the_marker_first() {
    assert_eq!(envelope(&[1, 2, 3]), vec![b'A', b'B', b'G', b':', 1, 2, 3]);
}

#[test]
fn compression_threshold() {
    let long = chat_payload(401);
    let sent = seal(long.clone()).unwrap();
    assert_eq!(&sent[..4], b"ABG:");
    assert_ne!(sent, long);

    let short = chat_payload(400);
    let sent = seal(short.clone()).unwrap();
    assert_eq!(sent, short);
}

#[test]
fn sealed_payload_opens_to_what_was_sealed() {
    for len in [401usize, 402, 1000, 4096, 20000] {
        let payload = chat_payload(len);
        let sent = seal(payload.clone()).unwrap();
        assert_eq!(&sent[..4], b"ABG:");
        assert_eq!(unseal(sent), Ok(payload));
    }
}

#[test]
fn sealing_compresses() {
    let payload = vec![b'a'; 5000];
    let sent = seal(payload.clone()).unwrap();
    assert_eq!(&sent[..4], b"ABG:");
    assert!(sent.len() < 200);
    assert_eq!(sent[4] & 0x0f, 8);
    assert_eq!(unseal(sent), Ok(payload));
}

#[test]
fn a_known_zlib_stream_opens_to_its_text() {
    let mut sent = b"ABG:".to_vec();
    sent.extend_from_slice(&[
        0x78, 0x9c, 0xf3, 0x48, 0xcd, 0xc9, 0xc9, 0x07, 0x00, 0x05, 0x8c, 0x01, 0xf5,
    ]);
    assert_eq!(unseal(sent), Ok(b"Hello".to_vec()));
}

#[test]
fn plain_payload_opens_unchanged() {
    assert_eq!(unseal(b"C:0:hi".to_vec()), Ok(b"C:0:hi".to_vec()));
    assert_eq!(unseal(b"ABG".to_vec()), Ok(b"ABG".to_vec()));
    assert_eq!(unseal(Vec::new()), Ok(Vec::new()));
}

#[test]
fn corrupt_envelope_is_a_broken_packet() {
    assert_eq!(
        unseal(b"ABG:this is no zlib stream".to_vec()),
        Err(ServerError::BrokenPacket)
    );
}

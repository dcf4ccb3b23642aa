use paxos::{
    decode_frame, decode_header, decode_payload, AcceptedProposal, Codec, Datagram, FrameError,
    Request, Response, SequenceNumber,
};

fn all_datagrams() -> Vec<Datagram> {
    let s = SequenceNumber::new(3, 17);
    let big = SequenceNumber::new(usize::MAX, usize::MAX);
    vec![
        Datagram::Request(Request::Propose { value: 0 }),
        Datagram::Request(Request::Propose { value: u32::MAX }),
        Datagram::Request(Request::Prepare { seq: s }),
        Datagram::Request(Request::Prepare { seq: big }),
        Datagram::Request(Request::Accept { seq: s, value: 42 }),
        Datagram::Request(Request::Learn { value: 24 }),
        Datagram::Request(Request::Query),
        Datagram::Response(Response::Prepare(None)),
        Datagram::Response(Response::Prepare(Some(AcceptedProposal::new(s, 7)))),
        Datagram::Response(Response::Accept { seq: s }),
        Datagram::Response(Response::Query { val: Some(42) }),
        Datagram::Response(Response::Query { val: None }),
    ]
}

#[test]
fn frames_round_trip() {
    for d in all_datagrams() {
        for src in [0usize, 1, 42] {
            let frame = d.encode_with_src(src);
            assert_eq!(decode_frame(&frame), Some((src, d)));
        }
        assert_eq!(decode_payload(&d.encode()), Some(d));
    }
}

#[test]
fn frame_bytes_are_big_endian() {
    let d = Datagram::Request(Request::Propose { value: 42 });
    let frame = d.encode_with_src(1);
    let expected: Vec<u8> = vec![
        0, 0, 0, 0, 0, 0, 0, 1, // src
        0, 0, 0, 0, 0, 0, 0, 12, // payload length
        0, 0, 0, 0, // request
        0, 0, 0, 0, // propose
        0, 0, 0, 42, // value
    ];
    assert_eq!(frame, expected);
}

#[test]
fn ballot_bytes_are_counter_then_proposer() {
    let s = SequenceNumber::new(0x0102, 0x0a0b0c0d);
    let d = Datagram::Response(Response::Accept { seq: s });
    let payload = d.encode();
    let expected: Vec<u8> = vec![
        0, 0, 0, 1, // response
        0, 0, 0, 1, // accept
        0, 0, 0, 0, 0x0a, 0x0b, 0x0c, 0x0d, // counter
        0, 0, 0, 0, 0, 0, 0x01, 0x02, // proposer
    ];
    assert_eq!(payload, expected);
    assert_eq!(decode_payload(&expected), Some(d));
}

#[test]
fn malformed_payloads_are_rejected() {
    assert_eq!(decode_payload(&[]), None);
    assert_eq!(decode_payload(&[0, 0, 0, 2, 0, 0, 0, 4]), None);
    assert_eq!(decode_payload(&[0, 0, 0, 0, 0, 0, 0, 5]), None);
    assert_eq!(decode_payload(&[0, 0, 0, 0, 0, 0, 0, 4]), Some(Datagram::Request(Request::Query)));
    assert_eq!(decode_payload(&[0, 0, 0, 0, 0, 0, 0, 4, 9]), None);
    assert_eq!(decode_payload(&[0, 0, 0, 1, 0, 0, 0, 2, 2]), None);
}

#[test]
fn headers_are_checked() {
    let frame = Datagram::Request(Request::Query).encode_with_src(7);
    assert_eq!(decode_header(&frame[..16]), Some((7, 8)));
    assert_eq!(decode_header(&frame[..15]), None);
    let mut long = frame[..16].to_vec();
    long[15] = 30;
    assert_eq!(decode_header(&long), None);
    assert_eq!(decode_frame(&frame[..frame.len() - 1]), None);
}

#[test]
fn codec_reassembles_a_stream() {
    let a = Datagram::Request(Request::Propose { value: 5 });
    let b = Datagram::Response(Response::Query { val: None });
    let mut codec = Codec::new();
    let mut stream = Vec::new();
    codec.encode(a, 2, &mut stream);
    codec.encode(b, 3, &mut stream);
    assert_eq!(codec.decode(&stream[..10]), Ok(None));
    assert_eq!(codec.decode(&stream[10..20]), Ok(None));
    assert_eq!(codec.decode(&stream[20..]), Ok(Some((2, a))));
    assert_eq!(codec.decode(&[]), Ok(Some((3, b))));
    assert_eq!(codec.decode(&[]), Ok(None));
}

#[test]
fn codec_reports_bad_frames() {
    let mut codec = Codec::new();
    let mut header = vec![0u8; 16];
    header[15] = 100;
    assert_eq!(codec.decode(&header), Err(FrameError::Header));
    let mut codec = Codec::new();
    let mut frame = vec![0u8; 16];
    frame[15] = 4;
    frame.extend_from_slice(&[0, 0, 0, 9]);
    assert_eq!(codec.decode(&frame), Err(FrameError::Payload));
}

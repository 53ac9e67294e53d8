//! Framing and the wire codec: round trips, the compression bit, and
//! streaming reads.

use kv::{CommandRequest, CommandResponse, Kvpair, Value, COMPRESSION_LIMIT};

fn is_compressed(data: &[u8]) -> bool {
    data[0] >> 7 == 1
}

#[test]
fn command_request_encode_decode_should_work() {
    let mut buf: Vec<u8> = Vec::new();

    let cmd = CommandRequest::new_hget("t1", "k1");
    cmd.encode_frame(&mut buf).unwrap();

    assert_eq!(is_compressed(&buf), false);

    let cmd1 = CommandRequest::decode_frame(&mut buf).unwrap();
    assert_eq!(cmd, cmd1);

    // make sure buf is exhausted
    assert_eq!(0, buf.len());
}

#[test]
fn command_response_encode_decode_should_work() {
    let mut buf: Vec<u8> = Vec::new();
    let values: Vec<Value> = vec![1.into(), "hello".into(), "world".into()];
    let res = CommandResponse {
        status: 200,
        message: String::new(),
        values,
        pairs: Vec::new(),
    };

    res.encode_frame(&mut buf).unwrap();
    assert_eq!(is_compressed(&buf), false);

    let res1 = CommandResponse::decode_frame(&mut buf).unwrap();
    assert_eq!(res, res1);
}

#[test]
fn command_response_compressed_encode_decode_should_work() {
    let mut buf: Vec<u8> = Vec::new();
    let value: Value = Value::Bin(vec![0u8; COMPRESSION_LIMIT + 1]);
    let res = CommandResponse {
        status: 200,
        message: String::new(),
        values: vec![value],
        pairs: Vec::new(),
    };

    res.encode_frame(&mut buf).unwrap();
    assert_eq!(is_compressed(&buf), true);
    // the run of zeroes must really have been compressed
    assert!(buf.len() < COMPRESSION_LIMIT);

    let res1 = CommandResponse::decode_frame(&mut buf).unwrap();
    assert_eq!(res, res1);
}

#[test]
fn codec_should_work() {
    let req = CommandRequest::new_hget("a", "b");
    let req_clone = req.clone();

    let mut output: Vec<u8> = Vec::new();
    req.encode_frame(&mut output).unwrap();

    let req1 = kv::frame::try_decode_request(&mut output).unwrap().unwrap();

    assert_eq!(req1, req_clone);
    assert_eq!(0, output.len());
}

#[test]
fn frame_roundtrip_at_every_size_boundary() {
    for size in [0usize, 1, 1435, 1436, 1437, 64 * 1024 + 3] {
        let req = CommandRequest::new_hset("t", "k", Value::Bin(vec![7u8; size]));
        let mut buf: Vec<u8> = Vec::new();
        req.clone().encode_frame(&mut buf).unwrap();
        let got = CommandRequest::decode_frame(&mut buf).unwrap();
        assert_eq!(req, got);
        assert_eq!(0, buf.len());
    }
}

#[test]
fn compression_bit_tracks_payload_size() {
    // the whole message, not just the binary value, must cross the limit
    let small = CommandResponse {
        status: 200,
        message: String::new(),
        values: vec![Value::Bin(vec![1u8; COMPRESSION_LIMIT - 10])],
        pairs: Vec::new(),
    };
    let mut buf: Vec<u8> = Vec::new();
    small.encode_frame(&mut buf).unwrap();
    assert!(!is_compressed(&buf));

    let big = CommandResponse {
        status: 200,
        message: String::new(),
        values: vec![Value::Bin(vec![1u8; COMPRESSION_LIMIT + 1])],
        pairs: Vec::new(),
    };
    let mut buf: Vec<u8> = Vec::new();
    big.encode_frame(&mut buf).unwrap();
    assert!(is_compressed(&buf));
}

#[test]
fn truncated_frame_waits_for_more_bytes() {
    let req = CommandRequest::new_hset("table", "key", "value".into());
    let mut full: Vec<u8> = Vec::new();
    req.clone().encode_frame(&mut full).unwrap();

    // a short header
    let mut partial: Vec<u8> = full[..3].to_vec();
    assert!(kv::frame::try_decode_request(&mut partial).unwrap().is_none());
    assert_eq!(partial.len(), 3);

    // a whole header but a short payload
    let mut partial: Vec<u8> = full[..full.len() - 1].to_vec();
    assert!(kv::frame::try_decode_request(&mut partial).unwrap().is_none());

    // the whole frame plus the start of the next one
    let mut two: Vec<u8> = full.clone();
    two.extend_from_slice(&full[..4]);
    let got = kv::frame::try_decode_request(&mut two).unwrap().unwrap();
    assert_eq!(req, got);
    assert_eq!(two.len(), 4);
}

#[test]
fn zero_length_frame_is_an_empty_message() {
    // header 0: no payload, high bit clear
    let mut buf: Vec<u8> = vec![0, 0, 0, 0];
    let got = kv::frame::try_decode_request(&mut buf).unwrap().unwrap();
    assert_eq!(got, CommandRequest { request_data: None });
    assert_eq!(0, buf.len());

    let mut buf: Vec<u8> = vec![0, 0, 0, 0];
    let got = kv::frame::try_decode_response(&mut buf).unwrap().unwrap();
    assert_eq!(got, CommandResponse::unsubscribe_ack());
}

#[test]
fn incomplete_frame_is_a_frame_error_on_the_strict_path() {
    let mut buf: Vec<u8> = vec![0, 0];
    let err = CommandRequest::decode_frame(&mut buf).unwrap_err();
    assert_eq!(err.message(), "Frame error: frame incomplete");
}

#[test]
fn corrupt_compressed_payload_is_an_io_error() {
    // a header with the compression bit set over bytes that are no gzip stream
    let mut buf: Vec<u8> = vec![0x80, 0, 0, 3, 1, 2, 3];
    let err = kv::frame::try_decode_request(&mut buf).unwrap_err();
    assert!(err.message().starts_with("IO error: "));
}

#[test]
fn garbage_payload_is_a_decode_error() {
    // header length 2, payload bytes that no message starts with
    let mut buf: Vec<u8> = vec![0, 0, 0, 2, 0xff, 0xff];
    assert!(kv::frame::try_decode_request(&mut buf).is_err());
}

#[test]
fn every_request_variant_round_trips() {
    let reqs = vec![
        CommandRequest::new_hget("t", "k"),
        CommandRequest::new_hgetall("t"),
        CommandRequest::new_hmget("t", vec!["a".into(), String::new(), "c".into()]),
        CommandRequest::new_hset("t", "k", Value::Null),
        CommandRequest::new_hset("", "", Value::Bool(false)),
        CommandRequest::new_hmset(
            "t",
            vec![Kvpair::new("a", 1.into()), Kvpair::new("", Value::Null)],
        ),
        CommandRequest::new_hdel("t", "k"),
        CommandRequest::new_hmdel("t", vec![]),
        CommandRequest::new_hexist("t", "k"),
        CommandRequest::new_hmexist("t", vec!["x".into()]),
        CommandRequest::new_subscribe("topic"),
        CommandRequest::new_unsubscribe("topic", 7),
        CommandRequest::new_unsubscribe("", 0),
        CommandRequest::new_publish(
            "topic",
            vec![
                Value::Null,
                Value::Str("héllo, wörld".into()),
                Value::Int(-5),
                Value::Int(i64::MAX),
                Value::Int(i64::MIN),
                Value::Bin(vec![]),
                Value::Bin(vec![0, 255]),
                Value::Bool(true),
                Value::FloatBits((3.25f64).to_bits()),
                Value::FloatBits(u64::MAX),
            ],
        ),
    ];
    for req in reqs {
        let mut buf: Vec<u8> = Vec::new();
        req.clone().encode_frame(&mut buf).unwrap();
        let got = CommandRequest::decode_frame(&mut buf).unwrap();
        assert_eq!(req, got);
        assert_eq!(0, buf.len());
    }
}

#[test]
fn response_with_pairs_and_message_round_trips() {
    let res = CommandResponse {
        status: 404,
        message: "Not found for table: t1, key: absent".into(),
        values: vec![],
        pairs: vec![
            Kvpair::new("k1", "v1".into()),
            Kvpair::new("k2", Value::FloatBits((0.5f64).to_bits())),
        ],
    };
    let mut buf: Vec<u8> = Vec::new();
    res.encode_frame(&mut buf).unwrap();
    let got = CommandResponse::decode_frame(&mut buf).unwrap();
    assert_eq!(res, got);

    // the sentinel (all defaults) is the empty message
    let mut buf: Vec<u8> = Vec::new();
    CommandResponse::unsubscribe_ack().encode_frame(&mut buf).unwrap();
    assert_eq!(buf, vec![0, 0, 0, 0]);
}

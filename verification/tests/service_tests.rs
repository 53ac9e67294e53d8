//! The service end to end: one-shot commands, subscription streams, and
//! the client-side view of a stream.

use kv::{
    assert_res_ref_error, assert_res_ref_ok, assert_res_ok, stream_result_id,
    stream_result_step, CommandRequest, CommandResponse, MemTable, RecvOutcome, Service,
    StreamingResponse, Value, COMPRESSION_LIMIT,
};

fn single(r: StreamingResponse) -> CommandResponse {
    match r {
        StreamingResponse::Single(resp) => resp,
        StreamingResponse::Subscribed(_) => panic!("expected a single response"),
    }
}

fn subscribed(r: StreamingResponse) -> u32 {
    match r {
        StreamingResponse::Subscribed(id) => id,
        StreamingResponse::Single(_) => panic!("expected a subscription"),
    }
}

fn recv_msg(svc: &mut Service, id: u32) -> CommandResponse {
    match svc.recv(id) {
        RecvOutcome::Message(m) => m,
        _ => panic!("expected a message"),
    }
}

#[test]
fn basic_set_then_get() {
    let mut svc = Service::new(MemTable::new());

    let res = single(svc.execute(CommandRequest::new_hset("t1", "k1", "v1".into())));
    assert!(assert_res_ref_ok(&res, &[Value::default()], &[]));

    let res = single(svc.execute(CommandRequest::new_hget("t1", "k1")));
    assert!(assert_res_ref_ok(&res, &["v1".into()], &[]));
}

#[test]
fn large_binary_value_survives_framing_and_storage() {
    let mut svc = Service::new(MemTable::new());
    let payload = vec![0u8; COMPRESSION_LIMIT + 1];

    // the request's frame crosses the compression limit
    let cmd = CommandRequest::new_hset("t2", "k2", Value::Bin(payload.clone()));
    let mut buf: Vec<u8> = Vec::new();
    cmd.encode_frame(&mut buf).unwrap();
    assert!(buf[0] >> 7 == 1);
    let cmd = CommandRequest::decode_frame(&mut buf).unwrap();

    let res = single(svc.execute(cmd));
    assert!(assert_res_ref_ok(&res, &[Value::default()], &[]));

    // the response's own frame is small, so its high bit is clear
    let mut out: Vec<u8> = Vec::new();
    res.encode_frame(&mut out).unwrap();
    assert!(out[0] >> 7 == 0);

    // the bytes come back verbatim
    let res = single(svc.execute(CommandRequest::new_hget("t2", "k2")));
    assert!(assert_res_ref_ok(&res, &[Value::Bin(payload)], &[]));
}

#[test]
fn missing_key_is_a_404_with_table_and_key() {
    let mut svc = Service::new(MemTable::new());
    let res = single(svc.execute(CommandRequest::new_hget("t1", "absent")));
    assert!(assert_res_ref_error(&res, 404, "table: t1, key: absent"));
}

#[test]
fn subscribe_publish_unsubscribe_end_to_end() {
    let mut svc = Service::new(MemTable::new());

    // client A subscribes; the first message carries id 1
    let id = subscribed(svc.execute(CommandRequest::new_subscribe("cae")));
    let first = recv_msg(&mut svc, id);
    assert!(assert_res_ref_ok(&first, &[Value::Int(1)], &[]));
    assert_eq!(stream_result_id(&Some(first)), Ok(1));

    // client B publishes and gets the acknowledgment at once
    let ack = single(svc.execute(CommandRequest::new_publish("cae", vec!["hello".into()])));
    assert!(assert_res_ref_ok(&ack, &[], &[]));

    // A receives the published value
    let got = recv_msg(&mut svc, id);
    assert!(assert_res_ref_ok(&got, &["hello".into()], &[]));
    assert!(stream_result_step(got).is_some());

    // A unsubscribes: a bare 200, then the status-0 sentinel ends the stream
    let res = single(svc.execute(CommandRequest::new_unsubscribe("cae", id)));
    assert!(assert_res_ref_ok(&res, &[], &[]));
    let sentinel = recv_msg(&mut svc, id);
    assert_eq!(sentinel.status, 0);
    assert_eq!(sentinel.message, "");
    assert!(sentinel.values.is_empty());
    assert!(sentinel.pairs.is_empty());
    assert!(stream_result_step(sentinel).is_none());
    assert!(matches!(svc.recv(id), RecvOutcome::Closed));

    // B publishes again: nothing is delivered
    let ack = single(svc.execute(CommandRequest::new_publish("cae", vec!["bye".into()])));
    assert!(assert_res_ref_ok(&ack, &[], &[]));
    assert!(matches!(svc.recv(id), RecvOutcome::Closed));

    // B unsubscribes the stale id: 404 naming the subscription
    let res = single(svc.execute(CommandRequest::new_unsubscribe("cae", id)));
    assert!(assert_res_ref_error(&res, 404, "subscription 1"));
}

#[test]
fn two_subscribers_are_independent() {
    let mut svc = Service::new(MemTable::new());

    let a = subscribed(svc.execute(CommandRequest::new_subscribe("x")));
    let b = subscribed(svc.execute(CommandRequest::new_subscribe("x")));
    assert_eq!((a, b), (1, 2));
    recv_msg(&mut svc, a);
    recv_msg(&mut svc, b);

    single(svc.execute(CommandRequest::new_publish("x", vec!["v1".into()])));
    assert!(assert_res_ref_ok(&recv_msg(&mut svc, a), &["v1".into()], &[]));
    assert!(assert_res_ref_ok(&recv_msg(&mut svc, b), &["v1".into()], &[]));

    // A goes away without unsubscribing
    svc.drop_receiver(a);

    single(svc.execute(CommandRequest::new_publish("x", vec!["v2".into()])));
    assert!(assert_res_ref_ok(&recv_msg(&mut svc, b), &["v2".into()], &[]));

    // the failed send pruned id 1: an explicit unsubscribe is a 404 now
    let res = single(svc.execute(CommandRequest::new_unsubscribe("x", a)));
    assert!(assert_res_ref_error(&res, 404, "subscription 1"));
}

#[test]
fn one_shot_and_subscription_interleave() {
    let mut svc = Service::new(MemTable::new());

    // one logical stream runs an Hset while another opens a subscription
    let id = subscribed(svc.execute(CommandRequest::new_subscribe("events")));
    let res = single(svc.execute(CommandRequest::new_hset("t1", "k1", "v1".into())));
    assert!(assert_res_ok(res, &[Value::default()], &[]));

    let first = recv_msg(&mut svc, id);
    assert_eq!(stream_result_id(&Some(first)), Ok(id));

    let res = single(svc.execute(CommandRequest::new_hget("t1", "k1")));
    assert!(assert_res_ok(res, &["v1".into()], &[]));
}

#[test]
fn stream_head_must_carry_an_integer_id() {
    // no first message at all
    assert!(stream_result_id(&None).is_err());

    // a first message whose value is not an integer
    let bad = CommandResponse {
        status: 200,
        message: String::new(),
        values: vec!["nope".into()],
        pairs: Vec::new(),
    };
    let err = stream_result_id(&Some(bad)).unwrap_err();
    assert_eq!(err.message(), "Internal error: Invalid stream");

    // a first message with no values
    let empty = CommandResponse {
        status: 200,
        message: String::new(),
        values: Vec::new(),
        pairs: Vec::new(),
    };
    assert!(stream_result_id(&Some(empty)).is_err());
}

//! The one-shot commands against the in-memory store.

use kv::storage::Storage;
use kv::{
    assert_res_error, assert_res_ok, CommandRequest, Kvpair, MemTable, Value,
};

#[test]
fn hset_should_work() {
    let mut store = MemTable::new();
    let cmd = CommandRequest::new_hset("t1", "hello", "world".into());
    let res = cmd.clone().dispatch(&mut store);
    assert!(assert_res_ok(res, &[Value::default()], &[]));

    let res = cmd.dispatch(&mut store);
    assert!(assert_res_ok(res, &["world".into()], &[]));
}

#[test]
fn hget_should_work() {
    let mut store = MemTable::new();
    let cmd = CommandRequest::new_hset("score", "u1", 10.into());
    cmd.dispatch(&mut store);
    let cmd = CommandRequest::new_hget("score", "u1");
    let res = cmd.dispatch(&mut store);
    assert!(assert_res_ok(res, &[10.into()], &[]));
}

#[test]
fn hdel_should_work() {
    let mut store = MemTable::new();
    set_key_pairs("score", vec![("u1", Value::from(10))], &mut store);

    let cmd = CommandRequest::new_hget("score", "u1");
    let res = cmd.dispatch(&mut store);
    assert!(assert_res_ok(res, &[10.into()], &[]));

    let cmd = CommandRequest::new_hdel("score", "u1");
    cmd.dispatch(&mut store);

    let cmd = CommandRequest::new_hget("score", "u1");
    let res = cmd.dispatch(&mut store);
    assert!(assert_res_error(res, 404, ""));
}

#[test]
fn hexist_should_work() {
    let mut store = MemTable::new();
    set_key_pairs("score", vec![("u1", Value::from(10))], &mut store);

    let cmd = CommandRequest::new_hexist("score", "u1");
    let res = cmd.dispatch(&mut store);
    assert!(assert_res_ok(res, &[true.into()], &[]));

    let cmd = CommandRequest::new_hdel("score", "u1");
    cmd.dispatch(&mut store);

    let cmd = CommandRequest::new_hexist("score", "u1");
    let res = cmd.dispatch(&mut store);
    assert!(assert_res_ok(res, &[false.into()], &[]));
}

#[test]
fn hmget_should_work() {
    let mut store = MemTable::new();

    set_key_pairs(
        "score",
        vec![
            ("u1", Value::from(10)),
            ("u2", Value::from(8)),
            ("u3", Value::from(22)),
            ("u4", Value::from(6)),
        ],
        &mut store,
    );

    let cmd = CommandRequest::new_hmget("score", vec!["u1".into(), "u2".into(), "u3".into()]);
    let res = cmd.dispatch(&mut store);
    let values = &[10.into(), 8.into(), 22.into()];
    assert!(assert_res_ok(res, values, &[]));
}

#[test]
fn hgetall_should_work() {
    let mut store = MemTable::new();

    set_key_pairs(
        "score",
        vec![
            ("u1", Value::from(10)),
            ("u2", Value::from(8)),
            ("u3", Value::from(11)),
            ("u1", Value::from(6)),
        ],
        &mut store,
    );

    let cmd = CommandRequest::new_hgetall("score");
    let res = cmd.dispatch(&mut store);
    let pairs = &[
        Kvpair::new("u1", 6.into()),
        Kvpair::new("u2", 8.into()),
        Kvpair::new("u3", 11.into()),
    ];
    assert!(assert_res_ok(res, &[], pairs));
}

#[test]
fn hmset_should_work() {
    let mut store = MemTable::new();
    set_key_pairs("t1", vec![("u1", Value::from("world"))], &mut store);
    let pairs = vec![
        Kvpair::new("u1", Value::FloatBits((10.1f64).to_bits())),
        Kvpair::new("u2", Value::FloatBits((8.1f64).to_bits())),
    ];
    let cmd = CommandRequest::new_hmset("t1", pairs);
    let res = cmd.dispatch(&mut store);
    assert!(assert_res_ok(res, &["world".into(), Value::default()], &[]));
}

#[test]
fn hmexist_should_work() {
    let mut store = MemTable::new();
    set_key_pairs(
        "t1",
        vec![("u1", Value::from("v1")), ("u2", Value::from("v2"))],
        &mut store,
    );

    let cmd = CommandRequest::new_hmexist("t1", vec!["u1".into(), "u3".into()]);
    let res = cmd.dispatch(&mut store);
    assert!(assert_res_ok(res, &[true.into(), false.into()], &[]));
}

#[test]
fn hdel_is_idempotent() {
    let mut store = MemTable::new();
    set_key_pairs("t1", vec![("k", Value::from("v"))], &mut store);

    let res = CommandRequest::new_hdel("t1", "k").dispatch(&mut store);
    assert!(assert_res_ok(res, &["v".into()], &[]));

    let res = CommandRequest::new_hdel("t1", "k").dispatch(&mut store);
    assert!(assert_res_ok(res, &[Value::default()], &[]));
}

#[test]
fn hget_absent_names_table_and_key() {
    let mut store = MemTable::new();
    let res = CommandRequest::new_hget("t1", "absent").dispatch(&mut store);
    assert!(assert_res_error(res, 404, "table: t1, key: absent"));
}

#[test]
fn hmdel_should_work() {
    let mut store = MemTable::new();
    set_key_pairs(
        "t1",
        vec![("u1", Value::from("v1")), ("u2", Value::from("v2"))],
        &mut store,
    );

    let cmd = CommandRequest::new_hmdel("t1", vec!["u1".into(), "u1".into(), "u2".into()]);
    let res = cmd.dispatch(&mut store);
    assert!(assert_res_ok(
        res,
        &["v1".into(), Value::default(), "v2".into()],
        &[]
    ));
}

#[test]
fn dispatch_refuses_empty_and_streaming() {
    let mut store = MemTable::new();
    let cmd = CommandRequest { request_data: None };
    let res = cmd.dispatch(&mut store);
    assert!(assert_res_error(res, 400, "Request has no data"));

    let cmd = CommandRequest::new_subscribe("cae");
    let res = cmd.dispatch(&mut store);
    assert!(assert_res_error(res, 400, "Not command"));
}

fn set_key_pairs(table: &str, pairs: Vec<(&str, Value)>, store: &mut MemTable) {
    for (k, v) in pairs {
        CommandRequest::new_hset(table, k, v).dispatch(store);
    }
}

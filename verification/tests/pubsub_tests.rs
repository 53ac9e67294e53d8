//! The broadcaster: subscribe, publish, unsubscribe, cleanup.

use kv::{
    assert_res_ref_error, assert_res_ref_ok, CommandResponse, PubSub, RecvOutcome, Value,
};

fn recv_msg(ps: &mut PubSub, id: u32) -> CommandResponse {
    match ps.recv(id) {
        RecvOutcome::Message(m) => m,
        _ => panic!("expected a message"),
    }
}

#[test]
fn pub_sub_should_work() {
    let mut b = PubSub::new();
    let cae = "cae".to_string();

    // subscribe
    let id1 = b.subscribe(cae.clone());
    let id2 = b.subscribe(cae.clone());
    assert!(id1 != id2);

    // publish
    let v: Value = "hello".into();
    b.publish(&cae, vec![v.clone()]);

    // the id-discovery packet comes first
    let first1 = recv_msg(&mut b, id1);
    assert_eq!(first1.values, vec![Value::Int(id1 as i64)]);
    let first2 = recv_msg(&mut b, id2);
    assert_eq!(first2.values, vec![Value::Int(id2 as i64)]);

    let res1 = recv_msg(&mut b, id1);
    let res2 = recv_msg(&mut b, id2);
    assert_eq!(res1, res2);
    assert!(assert_res_ref_ok(&res1, &[v.clone()], &[]));

    // first subscriber unsubscribes
    b.unsubscribe(&cae, id1).unwrap();

    // publish again
    let v: Value = "world".into();
    b.publish(&cae, vec![v.clone()]);

    let cancel = recv_msg(&mut b, id1);
    assert!(assert_res_ref_error(&cancel, 0, ""));
    assert!(matches!(b.recv(id1), RecvOutcome::Closed));

    let res2 = recv_msg(&mut b, id2);
    assert!(assert_res_ref_ok(&res2, &[v.clone()], &[]));
}

#[test]
fn subscription_ids_are_strictly_increasing() {
    let mut b = PubSub::new();
    let mut last: u32 = 0;
    for round in 0..5u32 {
        let id = b.subscribe(format!("topic-{}", round % 2));
        assert!(id > last);
        last = id;
        if round % 2 == 0 {
            b.unsubscribe("unused-name-still-closes-by-id", id).unwrap();
        }
    }
}

#[test]
fn publish_order_equals_receive_order() {
    let mut b = PubSub::new();
    let id = b.subscribe("t".into());
    // drain the id packet
    recv_msg(&mut b, id);

    for i in 0..10i64 {
        b.publish("t", vec![Value::Int(i)]);
    }
    for i in 0..10i64 {
        let m = recv_msg(&mut b, id);
        assert_eq!(m.values, vec![Value::Int(i)]);
    }
    assert!(matches!(b.recv(id), RecvOutcome::Pending));
}

#[test]
fn unsubscribed_id_gets_nothing_and_fanout_counts_subscribers() {
    let mut b = PubSub::new();
    let a = b.subscribe("x".into());
    let c = b.subscribe("x".into());

    // two live subscribers, three values in one message: 2 messages out
    let delivered = b.publish("x", vec![1.into(), 2.into(), 3.into()]);
    assert_eq!(delivered, 2);

    b.unsubscribe("x", a).unwrap();
    let delivered = b.publish("x", vec![4.into()]);
    assert_eq!(delivered, 1);

    // a's mailbox: id packet, the first fan-out, the sentinel -- nothing after
    recv_msg(&mut b, a);
    let m = recv_msg(&mut b, a);
    assert_eq!(m.values, vec![1.into(), 2.into(), 3.into()]);
    let sentinel = recv_msg(&mut b, a);
    assert_eq!(sentinel.status, 0);
    assert!(matches!(b.recv(a), RecvOutcome::Closed));

    // c still gets both rounds
    recv_msg(&mut b, c);
    assert_eq!(recv_msg(&mut b, c).values, vec![1.into(), 2.into(), 3.into()]);
    assert_eq!(recv_msg(&mut b, c).values, vec![4.into()]);
}

#[test]
fn unsubscribe_twice_reports_not_found() {
    let mut b = PubSub::new();
    let id = b.subscribe("cae".into());
    assert_eq!(b.unsubscribe("cae", id), Ok(id));
    let err = b.unsubscribe("cae", id).unwrap_err();
    assert!(err.message().contains(&format!("subscription {}", id)));
}

#[test]
fn unsubscribe_unknown_id_reports_not_found() {
    let mut b = PubSub::new();
    let err = b.unsubscribe("cae", 114514).unwrap_err();
    assert!(err.message().contains("subscription 114514"));
}

#[test]
fn dropped_receiver_is_cleaned_up_on_next_publish() {
    let mut b = PubSub::new();
    let id = b.subscribe("cae".into());
    b.drop_receiver(id);

    // the next publish observes the loss and prunes the subscription
    let delivered = b.publish("cae", vec!["hello".into()]);
    assert_eq!(delivered, 0);

    // an explicit unsubscribe now reports it as gone
    assert!(b.unsubscribe("cae", id).is_err());
}

#[test]
fn dropped_receiver_does_not_disturb_the_other_subscriber() {
    let mut b = PubSub::new();
    let a = b.subscribe("x".into());
    let c = b.subscribe("x".into());

    assert_eq!(b.publish("x", vec!["v1".into()]), 2);
    b.drop_receiver(a);
    assert_eq!(b.publish("x", vec!["v2".into()]), 1);
    assert!(b.unsubscribe("x", a).is_err());

    recv_msg(&mut b, c);
    assert_eq!(recv_msg(&mut b, c).values, vec![Value::Str("v1".into())]);
    assert_eq!(recv_msg(&mut b, c).values, vec![Value::Str("v2".into())]);
}

#[test]
fn remove_subscription_is_the_silent_cleanup() {
    let mut b = PubSub::new();
    let id = b.subscribe("t".into());
    assert_eq!(b.remove_subscription(id), Some(id));
    assert_eq!(b.remove_subscription(id), None);
    // no sentinel was queued: after the id packet the mailbox just closes
    recv_msg(&mut b, id);
    assert!(matches!(b.recv(id), RecvOutcome::Closed));
}

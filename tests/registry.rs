use topic_relay::db::{Db, Subscription};
use topic_relay::session::Session;
use topic_relay::topic::{Received, Topic, CAPACITY};

fn message(r: Received) -> Vec<u8> {
    match r {
        Received::Message(p) => p,
        Received::Lagged(n) => panic!("lagged by {}", n),
        Received::Empty => panic!("empty"),
        Received::Closed => panic!("closed"),
    }
}

#[test]
fn unused_name_has_no_value() {
    let db = Db::new();
    assert_eq!(db.latest("never/seen"), None);
}

#[test]
fn publish_hello_without_subscribers() {
    let mut db = Db::new();
    assert_eq!(db.publish("temp", b"hello".to_vec()), 0);
    assert_eq!(db.latest("temp"), Some(b"hello".to_vec()));
}

#[test]
fn latest_is_most_recent_publish() {
    let mut db = Db::default();
    db.publish("t", b"one".to_vec());
    db.publish("t", b"two".to_vec());
    assert_eq!(db.latest("t"), Some(b"two".to_vec()));
    assert_eq!(db.latest("T"), None);
}

#[test]
fn publish_counts_subscribers_with_room() {
    let mut db = Db::new();
    let _a = db.subscribe("temp").unwrap();
    let _b = db.subscribe("temp").unwrap();
    let _c = db.subscribe("temp").unwrap();
    let _other = db.subscribe("other").unwrap();
    assert_eq!(db.publish("temp", b"x".to_vec()), 3);
}

#[test]
fn subscriber_receives_in_publish_order() {
    let mut db = Db::new();
    let sub = db.subscribe("temp").unwrap();
    db.publish("temp", b"a".to_vec());
    db.publish("temp", b"b".to_vec());
    assert_eq!(message(db.receive(&sub)), b"a".to_vec());
    assert_eq!(message(db.receive(&sub)), b"b".to_vec());
    assert!(matches!(db.receive(&sub), Received::Empty));
    assert_eq!(db.latest("temp"), Some(b"b".to_vec()));
}

#[test]
fn subscriber_sees_only_later_payloads() {
    let mut db = Db::new();
    db.publish("t", b"before".to_vec());
    let sub = db.subscribe("t").unwrap();
    assert!(matches!(db.receive(&sub), Received::Empty));
    db.publish("t", b"after".to_vec());
    assert_eq!(message(db.receive(&sub)), b"after".to_vec());
}

#[test]
fn many_payloads_keep_their_order() {
    let mut db = Db::new();
    let sub = db.subscribe("t").unwrap();
    for i in 0..20u8 {
        assert_eq!(db.publish("t", vec![i]), 1);
    }
    for i in 0..20u8 {
        assert_eq!(message(db.receive(&sub)), vec![i]);
    }
}

#[test]
fn lagging_subscriber_sees_gap_then_continues() {
    let mut db = Db::new();
    let slow = db.subscribe("t").unwrap();
    let fresh_count = CAPACITY as u8;
    for i in 0..fresh_count {
        assert_eq!(db.publish("t", vec![i]), 1);
    }
    assert_eq!(db.publish("t", vec![fresh_count]), 0);
    assert_eq!(db.publish("t", vec![fresh_count + 1]), 0);
    assert!(matches!(db.receive(&slow), Received::Lagged(2)));
    for i in 2..(fresh_count + 2) {
        assert_eq!(message(db.receive(&slow)), vec![i]);
    }
    assert!(matches!(db.receive(&slow), Received::Empty));
    assert_eq!(db.publish("t", b"later".to_vec()), 1);
    assert_eq!(message(db.receive(&slow)), b"later".to_vec());
}

#[test]
fn full_subscriber_does_not_hold_up_others() {
    let mut db = Db::new();
    let slow = db.subscribe("t").unwrap();
    for i in 0..CAPACITY {
        db.publish("t", vec![i as u8]);
    }
    let quick = db.subscribe("t").unwrap();
    assert_eq!(db.publish("t", b"n".to_vec()), 1);
    assert_eq!(message(db.receive(&quick)), b"n".to_vec());
    assert!(matches!(db.receive(&slow), Received::Lagged(1)));
}

#[test]
fn unsubscribed_receives_nothing() {
    let mut db = Db::new();
    let sub = db.subscribe("t").unwrap();
    assert!(db.unsubscribe(&sub));
    assert!(!db.unsubscribe(&sub));
    assert_eq!(db.publish("t", b"x".to_vec()), 0);
    assert!(matches!(db.receive(&sub), Received::Closed));
}

#[test]
fn unknown_topic_subscription_is_closed() {
    let mut db = Db::new();
    let sub = Subscription { topic: "nowhere".to_string(), id: 0 };
    assert!(matches!(db.receive(&sub), Received::Closed));
    assert!(!db.unsubscribe(&sub));
    assert_eq!(db.latest("nowhere"), None);
}

#[test]
fn get_returns_same_topic_for_same_name() {
    let mut db = Db::new();
    db.publish("a/b", b"v".to_vec());
    assert_eq!(db.get("a/b").latest(), Some(b"v".to_vec()));
    assert_eq!(db.get("a/c").latest(), None);
}

#[test]
fn replacement_cancels_earlier_subscription() {
    let mut db = Db::new();
    let mut session = Session::new();
    let first = session.replace_subscription(&mut db, "temp").unwrap();
    let second = session.replace_subscription(&mut db, "temp").unwrap();
    assert_ne!(first.id, second.id);
    assert_eq!(session.subscription("temp"), Some(second.id));
    assert_eq!(db.publish("temp", b"p".to_vec()), 1);
    assert!(matches!(db.receive(&first), Received::Closed));
    assert_eq!(message(db.receive(&second)), b"p".to_vec());
}

#[test]
fn cancel_subscription_ends_it() {
    let mut db = Db::new();
    let mut session = Session::new();
    let sub = session.replace_subscription(&mut db, "t").unwrap();
    assert!(session.cancel_subscription(&mut db, "t"));
    assert!(!session.cancel_subscription(&mut db, "t"));
    assert_eq!(session.subscription("t"), None);
    assert_eq!(db.publish("t", b"x".to_vec()), 0);
    assert!(matches!(db.receive(&sub), Received::Closed));
}

#[test]
fn cancel_all_ends_every_subscription_of_session() {
    let mut db = Db::new();
    let mut mine = Session::new();
    let mut theirs = Session::new();
    let a = mine.replace_subscription(&mut db, "a").unwrap();
    let b = mine.replace_subscription(&mut db, "b").unwrap();
    let other = theirs.replace_subscription(&mut db, "a").unwrap();
    mine.cancel_all(&mut db);
    assert_eq!(mine.subscription("a"), None);
    assert_eq!(mine.subscription("b"), None);
    assert_eq!(db.publish("a", b"x".to_vec()), 1);
    assert_eq!(db.publish("b", b"y".to_vec()), 0);
    assert!(matches!(db.receive(&a), Received::Closed));
    assert!(matches!(db.receive(&b), Received::Closed));
    assert_eq!(message(db.receive(&other)), b"x".to_vec());
}

#[test]
fn topic_direct_use() {
    let mut t = Topic::default();
    assert_eq!(t.latest(), None);
    assert_eq!(t.send(b"x".to_vec()), 0);
    let id = t.subscribe().unwrap();
    let id2 = t.subscribe().unwrap();
    assert_ne!(id, id2);
    assert_eq!(t.send(b"y".to_vec()), 2);
    assert_eq!(t.latest(), Some(b"y".to_vec()));
    assert_eq!(message(t.receive(id)), b"y".to_vec());
    assert!(t.unsubscribe(id));
    assert!(matches!(t.receive(id), Received::Closed));
    assert_eq!(t.send(b"z".to_vec()), 1);
    let _ = Topic::new();
}

use corpo_drone::hub::{message_text, react, Hub, Incoming, Reaction};

#[test]
fn clients_come_and_go() {
    let mut hub: Hub<&str> = Hub::new();
    assert_eq!(hub.session_count(), 0);
    hub.register(1, "a");
    hub.register(2, "b");
    assert_eq!(hub.session_count(), 2);
    hub.register(2, "c");
    assert_eq!(hub.session_count(), 2);
    assert_eq!(hub.session(&2), Some(&"c"));
    hub.unregister(&2);
    assert_eq!(hub.session(&2), None);
    assert_eq!(hub.session_count(), 1);
    hub.unregister(&2);
    assert_eq!(hub.session_count(), 1);
}

#[test]
fn a_client_gets_a_random_identifier() {
    let mut hub: Hub<u8> = Hub::new();
    let a = hub.connect(1);
    let b = hub.connect(2);
    assert_ne!(a, b);
    assert_eq!((a >> 76) & 0xf, 4);
    assert_eq!((a >> 62) & 3, 2);
    assert_eq!(hub.session(&a), Some(&1));
    let mut ids = hub.ids();
    ids.sort();
    let mut want = vec![a, b];
    want.sort();
    assert_eq!(ids, want);
}

#[test]
fn a_broadcast_removes_the_closed_sessions() {
    let mut hub: Hub<u8> = Hub::new();
    for i in 0..4u128 {
        hub.register(i, 0);
    }
    hub.broadcast(&vec![(0, true), (1, false), (3, false), (9, false)]);
    let mut ids = hub.ids();
    ids.sort();
    assert_eq!(ids, vec![0, 2]);
}

#[test]
fn a_message_is_sent_as_one_line() {
    let v: serde_json::Value = serde_json::from_str("{ \"b\" : [ 1 , null ], \"a\" : \"x\\ny\" }").unwrap();
    assert_eq!(message_text(&v), "{\"a\":\"x\\ny\",\"b\":[1,null]}");
}

#[test]
fn clients_are_answered() {
    assert!(react(Incoming::Close) == Reaction::Leave);
    assert!(react(Incoming::Failed) == Reaction::Leave);
    assert!(react(Incoming::Ping) == Reaction::Pong);
    assert!(react(Incoming::Other) == Reaction::Ignore);
}

use fly_common::pubsub::Rooms;

#[derive(Debug, Clone, PartialEq)]
struct RoomMessage {
    room: String,
    event: String,
    sender_token: Option<String>,
    title: String,
}

#[test]
fn test_broadcast_hub_pubsub() {
    let mut hub: Rooms<RoomMessage> = Rooms::new(16);
    let mut rx1 = hub.subscribe("trip-101");
    let mut rx2 = hub.subscribe("trip-101");
    let mut rx_other = hub.subscribe("trip-202");

    let msg = RoomMessage {
        room: "trip-101".to_string(),
        event: "pin_added".to_string(),
        sender_token: Some("usr_alice".to_string()),
        title: "Tokyo Tower".to_string(),
    };

    let delivered = hub.broadcast(&msg.room, msg.clone()).expect("broadcast ok");
    assert_eq!(delivered, 2);

    let received1 = rx1.try_recv().expect("recv 1");
    assert_eq!(received1.event, "pin_added");
    assert_eq!(received1.title, "Tokyo Tower");

    let received2 = rx2.try_recv().expect("recv 2");
    assert_eq!(received2.sender_token.as_deref(), Some("usr_alice"));

    assert!(rx_other.try_recv().is_err());
}

#[test]
fn test_ws_hub_integration() {
    let mut hub: Rooms<RoomMessage> = Rooms::new(32);
    let mut sub = hub.subscribe("room_alpha");

    let msg = RoomMessage {
        room: "room_alpha".to_string(),
        event: "doc_updated".to_string(),
        sender_token: Some("usr_creator".to_string()),
        title: "added paragraph".to_string(),
    };

    let delivered = hub.broadcast("room_alpha", msg).expect("broadcast");
    assert_eq!(delivered, 1);

    let received = sub.try_recv().expect("recv");
    assert_eq!(received.event, "doc_updated");
    assert_eq!(received.title, "added paragraph");
}

#[test]
fn unknown_rooms_reach_nobody_and_closed_rooms_fail() {
    let mut hub: Rooms<u32> = Rooms::new(4);
    assert_eq!(hub.broadcast("nobody", 1), Ok(0));
    let rx = hub.subscribe("gone");
    drop(rx);
    assert_eq!(hub.broadcast("gone", 2), Err("channel closed".to_string()));
    let mut again = hub.subscribe("gone");
    assert_eq!(hub.broadcast("gone", 3), Ok(1));
    assert_eq!(again.try_recv(), Ok(3));
}

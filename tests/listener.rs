use ant_msgbus::listener::{ListenerError, MessageBusListener};
use bytes::Bytes;

#[test]
fn test_new_listener() {
    let listener = MessageBusListener::new();
    assert!(!listener.is_closed());
}

#[test]
fn test_close_listener() {
    let mut listener = MessageBusListener::new();
    listener.close();
    assert!(listener.is_closed());
}

#[test]
fn test_publish_and_receive() {
    let mut listener = MessageBusListener::new();
    let mut rx = listener
        .get_stream_receiver()
        .expect("Faild to get stream receiver");
    assert!(listener.publish("test-topic", Bytes::from("test-payload")));
    let msg = rx.try_recv().expect("No message received");
    assert_eq!(msg.topic, "test-topic");
    assert_eq!(msg.payload.as_ref(), b"test-payload");
}

#[test]
fn test_multiple_messages() {
    let mut listener = MessageBusListener::new();
    let mut rx = listener
        .get_stream_receiver()
        .expect("Failed to get stream receiver");
    let topics = vec!["topic1", "topic2", "topic3"];
    let payloads = vec!["payload1", "payload2", "payload3"];
    for i in 0..3 {
        listener.publish(topics[i], Bytes::from(payloads[i].as_bytes().to_vec()));
    }
    let mut received = Vec::new();
    for _ in 0..3 {
        if let Ok(msg) = rx.try_recv() {
            received.push((msg.topic, String::from_utf8(msg.payload.to_vec()).unwrap()));
        }
    }
    for i in 0..3 {
        assert!(received.contains(&(topics[i], payloads[i].to_string())));
    }
    assert_eq!(received.len(), 3);
}

#[test]
fn test_stream_receiver_already_taken() {
    let mut listener = MessageBusListener::new();
    let _rx = listener
        .get_stream_receiver()
        .expect("Faild to get stream reciever");
    assert!(listener.get_stream_receiver().is_err());
}

#[test]
fn test_publish_after_close() {
    let mut listener = MessageBusListener::new();
    let mut rx = listener
        .get_stream_receiver()
        .expect("Faild to get stream reciever");
    listener.close();
    assert!(listener.is_closed());
    assert!(!listener.publish("test-topic", Bytes::from("test-payload")));
    assert!(rx.try_recv().is_err());
}

#[test]
fn messages_published_before_draining_come_out_in_order() {
    let mut listener = MessageBusListener::new();
    let mut rx = listener.get_stream_receiver().unwrap();
    for i in 0..100u32 {
        assert!(listener.publish("t", Bytes::from(i.to_be_bytes().to_vec())));
    }
    for i in 0..100u32 {
        let msg = rx.try_recv().unwrap();
        assert_eq!(msg.payload.as_ref(), &i.to_be_bytes());
    }
    assert!(rx.try_recv().is_err());
}

#[test]
fn closing_before_taking_the_receiver_makes_it_unavailable() {
    let mut listener = MessageBusListener::new();
    listener.close();
    assert_eq!(listener.get_stream_receiver().unwrap_err(), ListenerError::ReceiverTaken);
    assert!(!listener.publish("t", Bytes::new()));
}

#[test]
fn dropping_the_receiver_closes_the_listener() {
    let mut listener = MessageBusListener::new();
    let rx = listener.get_stream_receiver().unwrap();
    assert!(!listener.is_closed());
    drop(rx);
    assert!(listener.is_closed());
    assert!(!listener.publish("t", Bytes::new()));
}

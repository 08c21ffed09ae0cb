use memo_server::hub::{EventHub, compose_frame};

#[test]
fn frame_layout() {
    let frame = compose_frame("transcript", "{\"x\":1}");
    assert_eq!(frame, "event: transcript\ndata: {\"x\":1}\n\n");
}

#[test]
fn every_subscriber_gets_every_event_in_publish_order() {
    let mut hub = EventHub::new();
    let mut rx1 = hub.subscribe();
    let mut rx2 = hub.subscribe();
    let mut rx3 = hub.subscribe();

    for n in 0..5 {
        hub.broadcast_sse("transcript", &format!("{{\"n\":{}}}", n));
    }

    for rx in [&mut rx1, &mut rx2, &mut rx3] {
        for n in 0..5 {
            let msg = rx.try_recv().expect("a delivery for every event");
            assert_eq!(msg, format!("event: transcript\ndata: {{\"n\":{}}}\n\n", n));
        }
        assert!(rx.try_recv().is_err());
    }
}

#[test]
fn dropped_subscriber_is_pruned_and_does_not_block_the_rest() {
    let mut hub = EventHub::new();
    let mut rx_keep = hub.subscribe();
    let rx_drop = hub.subscribe();
    assert_eq!(hub.senders.len(), 2);

    drop(rx_drop);
    hub.broadcast_sse("device_status", "{\"recording\":true}");

    // the dead channel left at the failed delivery, nothing else did
    assert_eq!(hub.senders.len(), 1);
    assert_eq!(
        rx_keep.try_recv().expect("the live subscriber is unaffected"),
        "event: device_status\ndata: {\"recording\":true}\n\n"
    );

    // the pruned set keeps working
    hub.broadcast_sse("device_status", "{\"recording\":false}");
    assert_eq!(
        rx_keep.try_recv().unwrap(),
        "event: device_status\ndata: {\"recording\":false}\n\n"
    );
}

#[test]
fn late_subscriber_sees_no_replay() {
    let mut hub = EventHub::new();
    hub.broadcast_sse("transcript", "{\"early\":true}");
    let mut rx = hub.subscribe();
    assert!(rx.try_recv().is_err());
}

use std::sync::Arc;
use exchange::codec::{decode, make_payload, Tag};
use exchange::router::{Event, Router, Tx};
use tokio::sync::mpsc::error::TryRecvError;
use tokio::sync::mpsc::{unbounded_channel, UnboundedReceiver};

type ReleaseRx = UnboundedReceiver<Arc<Vec<u8>>>;

fn new_router() -> Router {
    let (_tx, rx) = unbounded_channel();
    Router::new(rx)
}

fn payload(channel: &str, body: &[u8]) -> Vec<u8> {
    make_payload(channel, &body.to_vec()).unwrap()
}

fn recv_one(rx: &mut ReleaseRx) -> (Tag, Vec<u8>) {
    let chunk = rx.try_recv().expect("expected exactly one message");
    let (tag, body) = decode(&*chunk).unwrap();
    assert!(matches!(rx.try_recv(), Err(TryRecvError::Empty)), "expected no further message");
    (tag, body)
}

fn assert_silent(rx: &mut ReleaseRx) {
    assert!(matches!(rx.try_recv(), Err(TryRecvError::Empty)));
}

fn wire_up(router: &mut Router, name: &str) -> ReleaseRx {
    let (tx, rx): (Tx, ReleaseRx) = unbounded_channel();
    router.register(name.to_string(), tx);
    rx
}

#[test]
fn subscribe_is_idempotent() {
    let mut router = new_router();
    let mut rx_a = wire_up(&mut router, "A");
    let p = payload("c", b"");
    router.deliver(&"A".to_string(), Tag::Pull, &p);
    assert_eq!(router.subscriber_count("c"), 1);
    router.deliver(&"A".to_string(), Tag::Pull, &p);
    assert_eq!(router.subscriber_count("c"), 1);
    assert_silent(&mut rx_a);
}

#[test]
fn catch_up_goes_to_all_subscribers_once() {
    let mut router = new_router();
    let mut rx_a = wire_up(&mut router, "A");
    let mut rx_b = wire_up(&mut router, "B");
    let frame = payload("c", b"K1");

    // A subscribes, then the frame is cached (and forwarded to A).
    router.deliver(&"A".to_string(), Tag::Pull, &payload("c", b""));
    router.deliver(&"P".to_string(), Tag::Frame, &frame);
    let (tag, body) = recv_one(&mut rx_a);
    assert_eq!(tag, Tag::Frame);
    assert_eq!(body, frame);

    // B's first Pull triggers one catch-up, delivered to both subscribers.
    router.deliver(&"B".to_string(), Tag::Pull, &payload("c", b""));
    let (tag_a, body_a) = recv_one(&mut rx_a);
    let (tag_b, body_b) = recv_one(&mut rx_b);
    assert_eq!((tag_a, tag_b), (Tag::Frame, Tag::Frame));
    assert_eq!(body_a, frame);
    assert_eq!(body_b, frame);

    // A later Pull from B is no longer a first subscription: no catch-up.
    router.deliver(&"B".to_string(), Tag::Pull, &payload("c", b""));
    assert_silent(&mut rx_a);
    assert_silent(&mut rx_b);
}

#[test]
fn avg_is_suppressed_everywhere() {
    let mut router = new_router();
    let mut rx_a = wire_up(&mut router, "A");
    let mut rx_b = wire_up(&mut router, "B");
    router.deliver(&"A".to_string(), Tag::Pull, &payload("c", b""));
    router.deliver(&"B".to_string(), Tag::Pull, &payload("c", b""));

    router.deliver(&"P".to_string(), Tag::Avg, &payload("c", b"load"));
    assert_silent(&mut rx_a);
    assert_silent(&mut rx_b);
    // and it mutated nothing
    assert_eq!(router.subscriber_count("c"), 2);
    assert!(router.publisher_of("c").is_none());
    assert!(router.cached_frame("c").is_none());
}

#[test]
fn pull_is_never_rebroadcast() {
    let mut router = new_router();
    let mut rx_a = wire_up(&mut router, "A");
    let mut rx_b = wire_up(&mut router, "B");
    router.deliver(&"A".to_string(), Tag::Pull, &payload("c", b""));

    // No frame is cached, so B's Pull causes no catch-up either: nothing at
    // all may reach A, and B never receives its own subscription.
    router.deliver(&"B".to_string(), Tag::Pull, &payload("c", b""));
    assert_silent(&mut rx_a);
    assert_silent(&mut rx_b);
    assert!(router.is_subscribed("c", &"B".to_string()));
}

#[test]
fn fanout_reaches_each_subscriber_exactly_once() {
    let mut router = new_router();
    let mut rx_x = wire_up(&mut router, "X");
    let mut rx_y = wire_up(&mut router, "Y");
    let mut rx_z = wire_up(&mut router, "Z");
    let mut rx_p = wire_up(&mut router, "P");
    for name in ["X", "Y", "Z"] {
        router.deliver(&name.to_string(), Tag::Pull, &payload("c", b""));
    }

    let d = payload("c", b"D");
    router.deliver(&"P".to_string(), Tag::Publish, &d);
    for rx in [&mut rx_x, &mut rx_y, &mut rx_z] {
        let (tag, body) = recv_one(rx);
        assert_eq!(tag, Tag::Publish);
        assert_eq!(body, d);
    }
    // the publisher is not a subscriber and receives nothing
    assert_silent(&mut rx_p);
    assert_eq!(router.publisher_of("c"), Some(&"P".to_string()));
}

#[test]
fn failed_delivery_evicts_only_the_dead_subscriber() {
    let mut router = new_router();
    let mut rx_x = wire_up(&mut router, "X");
    let rx_y = wire_up(&mut router, "Y");
    let mut rx_z = wire_up(&mut router, "Z");
    for name in ["X", "Y", "Z"] {
        router.deliver(&name.to_string(), Tag::Pull, &payload("c", b""));
    }
    assert_eq!(router.subscriber_count("c"), 3);

    // Y's outbound queue closes before the next fanout.
    drop(rx_y);
    let d = payload("c", b"D");
    router.deliver(&"P".to_string(), Tag::Publish, &d);

    let (tag_x, body_x) = recv_one(&mut rx_x);
    let (tag_z, body_z) = recv_one(&mut rx_z);
    assert_eq!((tag_x, tag_z), (Tag::Publish, Tag::Publish));
    assert_eq!(body_x, d);
    assert_eq!(body_z, d);
    assert!(!router.is_subscribed("c", &"Y".to_string()));
    assert!(router.is_subscribed("c", &"X".to_string()));
    assert!(router.is_subscribed("c", &"Z".to_string()));
    assert_eq!(router.subscriber_count("c"), 2);
}

#[test]
fn publish_then_pull_lands_in_both_registries() {
    let mut router = new_router();
    let p = payload("c", b"");
    router.deliver(&"A".to_string(), Tag::Publish, &p);
    router.deliver(&"A".to_string(), Tag::Pull, &p);
    assert_eq!(router.publisher_of("c"), Some(&"A".to_string()));
    assert!(router.is_subscribed("c", &"A".to_string()));
}

#[test]
fn end_to_end_late_subscriber_catches_up() {
    let mut router = new_router();
    let mut rx_a = wire_up(&mut router, "A");
    let frame = payload("chat", b"K1");
    router.deliver(&"A".to_string(), Tag::Frame, &frame);
    let mut rx_b = wire_up(&mut router, "B");
    router.deliver(&"B".to_string(), Tag::Pull, &payload("chat", b""));

    let (tag, body) = recv_one(&mut rx_b);
    assert_eq!(tag, Tag::Frame);
    assert_eq!(body, frame);
    assert_eq!(router.subscriber_count("chat"), 1);
    assert!(router.is_subscribed("chat", &"B".to_string()));
    // A never subscribed, so A saw neither the frame nor the catch-up
    assert_silent(&mut rx_a);
}

#[test]
fn re_registration_replaces_the_sender() {
    let mut router = new_router();
    let mut rx_old = wire_up(&mut router, "A");
    router.deliver(&"A".to_string(), Tag::Pull, &payload("c", b""));
    let mut rx_new = wire_up(&mut router, "A");

    let d = payload("c", b"D");
    router.deliver(&"P".to_string(), Tag::Publish, &d);
    // the replaced sender was dropped by the upsert: its receiver reports
    // disconnection, and no message ever reached it
    assert!(rx_old.try_recv().is_err());
    let (tag, body) = recv_one(&mut rx_new);
    assert_eq!(tag, Tag::Publish);
    assert_eq!(body, d);
}

#[test]
fn subscriber_without_socket_is_skipped_not_evicted() {
    let mut router = new_router();
    router.deliver(&"A".to_string(), Tag::Pull, &payload("c", b""));
    assert!(!router.has_socket("A"));

    router.deliver(&"P".to_string(), Tag::Publish, &payload("c", b"D"));
    assert!(router.is_subscribed("c", &"A".to_string()));
}

#[test]
fn frame_cache_keeps_only_the_last_frame() {
    let mut router = new_router();
    let first = payload("c", b"K1");
    let second = payload("c", b"K2");
    router.deliver(&"P".to_string(), Tag::Frame, &first);
    router.deliver(&"P".to_string(), Tag::Frame, &second);
    assert_eq!(router.cached_frame("c"), Some(&second));
}

#[test]
fn malformed_payload_is_a_silent_no_op() {
    let mut router = new_router();
    let mut rx_a = wire_up(&mut router, "A");
    router.deliver(&"A".to_string(), Tag::Pull, &payload("c", b""));

    let garbage: Vec<u8> = vec![0, 9, 1];
    router.deliver(&"P".to_string(), Tag::Frame, &garbage);
    assert_silent(&mut rx_a);
    assert_eq!(router.subscriber_count("c"), 1);
    assert!(router.cached_frame("c").is_none());
}

#[test]
fn unknown_tag_is_forwarded_verbatim() {
    let mut router = new_router();
    let mut rx_a = wire_up(&mut router, "A");
    router.deliver(&"A".to_string(), Tag::Pull, &payload("c", b""));

    let d = payload("c", b"misc");
    router.deliver(&"P".to_string(), Tag::Other(77), &d);
    let (tag, body) = recv_one(&mut rx_a);
    assert_eq!(tag, Tag::Other(77));
    assert_eq!(body, d);
    // and it mutated no registry
    assert!(router.publisher_of("c").is_none());
    assert!(router.cached_frame("c").is_none());
    assert_eq!(router.subscriber_count("c"), 1);
}

#[test]
fn process_applies_a_batch_in_arrival_order() {
    let mut router = new_router();
    let (tx_a, mut rx_a): (Tx, ReleaseRx) = unbounded_channel();
    let frame = payload("c", b"K1");
    let events = vec![
        Event::Socket("A".to_string(), tx_a),
        Event::Bytes("P".to_string(), Tag::Frame, frame.clone()),
        Event::Bytes("A".to_string(), Tag::Pull, payload("c", b"")),
        Event::Release(Arc::new(vec![9])),
    ];
    router.process(events);

    // the frame was cached before A pulled, so A caught up
    let (tag, body) = recv_one(&mut rx_a);
    assert_eq!(tag, Tag::Frame);
    assert_eq!(body, frame);
    assert_eq!(router.cached_frame("c"), Some(&frame));
    assert!(router.is_subscribed("c", &"A".to_string()));
}

#[test]
fn poll_step_drains_the_inbox_in_order() {
    let (tx, rx) = unbounded_channel::<Event>();
    let mut router = Router::new(rx);
    let (tx_a, mut rx_a): (Tx, ReleaseRx) = unbounded_channel();
    let frame = payload("c", b"K1");
    tx.send(Event::Socket("A".to_string(), tx_a)).unwrap();
    tx.send(Event::Bytes("P".to_string(), Tag::Frame, frame.clone()))
        .unwrap();
    tx.send(Event::Bytes("A".to_string(), Tag::Pull, payload("c", b"")))
        .unwrap();

    let rt = tokio::runtime::Builder::new_current_thread().build().unwrap();
    rt.block_on(std::future::poll_fn(|cx| {
        while router.poll_step(cx) {}
        std::task::Poll::Ready(())
    }));

    // the frame was cached before A pulled, so A caught up exactly once
    let (tag, body) = recv_one(&mut rx_a);
    assert_eq!(tag, Tag::Frame);
    assert_eq!(body, frame);
    assert_eq!(router.cached_frame("c"), Some(&frame));
    assert!(router.is_subscribed("c", &"A".to_string()));
}

#[test]
fn fanout_is_scoped_to_the_payloads_channel() {
    let mut router = new_router();
    let mut rx_a = wire_up(&mut router, "A");
    router.deliver(&"A".to_string(), Tag::Pull, &payload("other", b""));

    router.deliver(&"P".to_string(), Tag::Publish, &payload("c", b"D"));
    assert_silent(&mut rx_a);
    assert!(router.is_subscribed("other", &"A".to_string()));
    assert_eq!(router.subscriber_count("c"), 0);
}

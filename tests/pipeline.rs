use admiral::courier::{Courier, SendError};
use admiral::registry::{Registry, MAX_BATCH_SIZE, MAX_DRAIN_PER_TICK, MIN_DELIVERY_INTERVAL_MS};
use admiral::session::{
    ChatEvent, ConnectError, ConnectionState, ReceiveAction, Session, COURIER_CAPACITY,
    DROP_LOG_INTERVAL_MS,
};

fn event(channel: &str, text: &str) -> ChatEvent {
    ChatEvent {
        channel_id: channel.to_string(),
        sender: "viewer".to_string(),
        timestamp: "1:02:03 PM".to_string(),
        text: text.to_string(),
        color: Some("#FF0000".to_string()),
    }
}

#[test]
fn full_courier_refuses_at_once() {
    let mut c: Courier<u32> = Courier::new(4);
    for i in 0..4 {
        assert!(c.try_send(i).is_ok());
    }
    for i in 0..10_000u32 {
        match c.try_send(i) {
            Err(SendError::Full(v)) => assert_eq!(v, i),
            _ => panic!("a full courier must refuse"),
        }
    }
    assert_eq!(c.len(), 4);
    assert_eq!(c.try_recv(), Some(0));
}

#[test]
fn closed_courier_reports_disconnection() {
    let mut c: Courier<u32> = Courier::new(2);
    c.close();
    assert!(matches!(c.try_send(7), Err(SendError::Disconnected(7))));
    assert!(c.is_closed());
}

#[test]
fn courier_is_first_in_first_out() {
    let mut c: Courier<u32> = Courier::new(64);
    for i in 0..50 {
        assert!(c.try_send(i).is_ok());
    }
    let first = c.drain_up_to(20);
    assert_eq!(first, (0..20).collect::<Vec<u32>>());
    for i in 50..60 {
        assert!(c.try_send(i).is_ok());
    }
    let mut rest = Vec::new();
    while let Some(v) = c.try_recv() {
        rest.push(v);
    }
    assert_eq!(rest, (20..60).collect::<Vec<u32>>());
    assert!(c.is_empty());
}

#[test]
fn courier_discards_oldest_first() {
    let mut c: Courier<u32> = Courier::new(8);
    for i in 0..6 {
        assert!(c.try_send(i).is_ok());
    }
    assert_eq!(c.discard_up_to(4), 4);
    assert_eq!(c.try_recv(), Some(4));
    assert_eq!(c.discard_up_to(10), 1);
    assert_eq!(c.discard_all(), 0);
}

#[test]
fn session_connects_with_folded_name_and_new_generation() {
    let mut s = Session::new("tab_1".to_string(), false);
    assert!(matches!(s.begin_connect(""), Err(ConnectError::EmptyChannel)));
    let g = s.begin_connect("SomeStreamer").ok().unwrap();
    assert_eq!(g, 1);
    assert_eq!(s.channel().unwrap(), "somestreamer");
    assert!(matches!(s.state(), ConnectionState::Connecting));
    assert!(matches!(s.begin_connect("other"), Err(ConnectError::Busy)));
    assert!(!s.on_joined(g + 1));
    assert!(s.on_joined(g));
    match s.state() {
        ConnectionState::Connected(c) => assert_eq!(c, "somestreamer"),
        _ => panic!("expected a connection"),
    }
    assert!(s.on_stream_end(g));
    assert!(matches!(s.state(), ConnectionState::Disconnected));
    assert_eq!(s.receive(g, event("somestreamer", "after"), 0), ReceiveAction::Stop);
    assert_eq!(s.queued(), 0);
}

#[test]
fn failed_join_returns_to_placeholder() {
    let mut s = Session::new("tab_1".to_string(), false);
    let g = s.begin_connect("foo").ok().unwrap();
    assert!(s.on_join_failed(g));
    assert!(matches!(s.state(), ConnectionState::Disconnected));
    assert!(s.channel().is_none());
    assert!(!s.on_joined(g));
}

#[test]
fn receive_loop_decisions() {
    let mut s = Session::new("tab_1".to_string(), false);
    let g = s.begin_connect("foo").ok().unwrap();
    assert_eq!(s.receive(g, event("foo", "hi"), 0), ReceiveAction::Enqueued);
    assert_eq!(s.receive(g + 1, event("foo", "stale"), 0), ReceiveAction::Stop);
    for i in 1..COURIER_CAPACITY {
        assert_eq!(s.receive(g, event("foo", "x"), i as u64), ReceiveAction::Enqueued);
    }
    assert_eq!(s.queued(), COURIER_CAPACITY);
    assert_eq!(s.receive(g, event("foo", "y"), 1000), ReceiveAction::Dropped { log: true });
    assert_eq!(s.receive(g, event("foo", "y"), 1001), ReceiveAction::Dropped { log: false });
    assert_eq!(
        s.receive(g, event("foo", "y"), 1000 + DROP_LOG_INTERVAL_MS),
        ReceiveAction::Dropped { log: true }
    );
    s.set_paused(true);
    assert_eq!(s.receive(g, event("foo", "z"), 9000), ReceiveAction::Discarded);
    assert_eq!(s.begin_close(), COURIER_CAPACITY);
    assert_eq!(s.receive(g, event("foo", "z"), 9001), ReceiveAction::Stop);
    assert!(matches!(s.begin_connect("foo"), Err(ConnectError::Busy)));
    s.finish_close();
    assert_eq!(s.begin_connect("foo").ok(), Some(g + 1));
}

fn open_connected(r: &mut Registry, id: &str, channel: &str) -> u64 {
    let id = id.to_string();
    assert!(r.open(id.clone()));
    let g = r.connect(&id, channel).ok().unwrap();
    assert!(r.joined(&id, g));
    g
}

#[test]
fn registry_refuses_duplicate_ids() {
    let mut r = Registry::new();
    assert!(r.open("a".to_string()));
    assert!(!r.open("a".to_string()));
    assert_eq!(r.len(), 1);
    assert!(matches!(
        r.connect(&"zzz".to_string(), "foo"),
        Err(ConnectError::UnknownSession)
    ));
}

#[test]
fn focus_switch_drains_and_pauses_old_session() {
    let mut r = Registry::new();
    let a = "A".to_string();
    let b = "B".to_string();
    let ga = open_connected(&mut r, "A", "chan_a");
    let _gb = open_connected(&mut r, "B", "chan_b");
    r.set_focus(Some(&a));
    for i in 0..40u64 {
        assert_eq!(r.receive(&a, ga, event("chan_a", "m"), i), ReceiveAction::Enqueued);
    }
    let ia = r.find(&a).unwrap();
    assert_eq!(r.session(ia).queued(), 40);
    r.set_focus(Some(&b));
    let ia = r.find(&a).unwrap();
    let ib = r.find(&b).unwrap();
    assert_eq!(r.session(ia).queued(), 0);
    assert!(r.session(ia).is_paused());
    assert!(!r.session(ib).is_paused());
    for i in 0..10u64 {
        assert_eq!(r.receive(&a, ga, event("chan_a", "late"), 100 + i), ReceiveAction::Discarded);
    }
    assert_eq!(r.session(ia).queued(), 0);
    assert!(r.tick(1_000).is_none());
}

#[test]
fn tick_delivers_bounded_batches_in_order() {
    let mut r = Registry::new();
    let a = "A".to_string();
    let ga = open_connected(&mut r, "A", "chan_a");
    r.set_focus(Some(&a));
    for i in 0..45u64 {
        let text = format!("m{}", i);
        assert_eq!(r.receive(&a, ga, event("chan_a", &text), i), ReceiveAction::Enqueued);
    }
    let d = r.tick(1_000).unwrap();
    assert_eq!(d.session_id, "A");
    assert_eq!(d.events.len(), MAX_BATCH_SIZE);
    assert_eq!(d.events[0].text, "m0");
    assert_eq!(d.events[29].text, "m29");
    // Throttled: too soon after the last delivery.
    assert!(r.tick(1_000 + MIN_DELIVERY_INTERVAL_MS - 1).is_none());
    let d = r.tick(1_000 + MIN_DELIVERY_INTERVAL_MS).unwrap();
    assert_eq!(d.events.len(), 15);
    assert_eq!(d.events[0].text, "m30");
    assert!(r.tick(5_000).is_none());
}

#[test]
fn unfocused_sessions_stay_empty_across_ticks() {
    let mut r = Registry::new();
    let a = "A".to_string();
    let b = "B".to_string();
    let ga = open_connected(&mut r, "A", "chan_a");
    let gb = open_connected(&mut r, "B", "chan_b");
    r.set_focus(Some(&a));
    for i in 0..80u64 {
        assert_eq!(r.receive(&a, ga, event("chan_a", "m"), i), ReceiveAction::Enqueued);
        assert_eq!(r.receive(&b, gb, event("chan_b", "m"), i), ReceiveAction::Discarded);
    }
    let d = r.tick(1_000).unwrap();
    assert_eq!(d.session_id, "A");
    let ia = r.find(&a).unwrap();
    let ib = r.find(&b).unwrap();
    assert_eq!(r.session(ia).queued(), 80 - MAX_BATCH_SIZE);
    assert_eq!(r.session(ib).queued(), 0);
    r.set_focus(None);
    assert_eq!(r.session(ia).queued(), 0);
    assert!(r.tick(2_000).is_none());
    assert!(MAX_DRAIN_PER_TICK > MAX_BATCH_SIZE);
}

#[test]
fn tick_without_focus_drains_every_session() {
    let mut r = Registry::new();
    let a = "A".to_string();
    let ga = open_connected(&mut r, "A", "chan_a");
    r.set_focus(Some(&a));
    for i in 0..70u64 {
        assert_eq!(r.receive(&a, ga, event("chan_a", "m"), i), ReceiveAction::Enqueued);
    }
    // Removing the focused session clears the focus.
    assert!(!r.remove(&a));
    assert!(r.begin_close(&a));
    assert!(r.remove(&a));
    assert!(r.focus().is_none());
    assert_eq!(r.len(), 0);
}

#[test]
fn stale_loop_is_stopped_after_reconnect() {
    let mut r = Registry::new();
    let a = "A".to_string();
    let ga = open_connected(&mut r, "A", "chan_a");
    assert!(r.stream_ended(&a, ga));
    let g2 = r.connect(&a, "chan_a").ok().unwrap();
    assert_eq!(r.receive(&a, ga, event("chan_a", "old"), 0), ReceiveAction::Stop);
    assert!(!r.join_failed(&a, ga));
    assert!(r.join_failed(&a, g2));
    assert_eq!(r.receive(&"gone".to_string(), 0, event("x", "y"), 0), ReceiveAction::Stop);
}

use futures_channel::mpsc::{unbounded, UnboundedReceiver};
use lordserver::channel::Polled;
use lordserver::hub::{Delivery, DistributionHub, PeerId};
use lordserver::recorder::{react, Recorder, RecorderStep};
use lordserver::replay::{split_lines, Replay, REPLAY_INTERVAL_MS};

fn peer(n: u16) -> PeerId {
    PeerId::V4 { ip4: 0x7f00_0001, port4: n }
}

fn drain(inbox: &mut UnboundedReceiver<String>) -> Vec<String> {
    let mut messages = Vec::new();
    while let Ok(message) = inbox.try_recv() {
        messages.push(message);
    }
    messages
}

#[test]
fn new_hub_is_empty() {
    let hub = DistributionHub::new();
    assert_eq!(hub.len(), 0);
    assert!(!hub.contains(peer(1)));
}

#[test]
fn publish_without_peers_does_nothing() {
    let mut hub = DistributionHub::new();
    assert_eq!(hub.publish("nobody listens"), Vec::new());
    assert_eq!(hub.len(), 0);
}

#[test]
fn publish_reaches_every_peer_in_order() {
    let mut hub = DistributionHub::new();
    let (tx1, mut rx1) = unbounded();
    let (tx2, mut rx2) = unbounded();
    hub.register(peer(1), tx1);
    hub.register(PeerId::Local(0), tx2);
    let first = hub.publish("one");
    let second = hub.publish("two");
    assert_eq!(first.len(), 2);
    assert!(first.iter().all(|d| d.accepted));
    assert!(second.iter().all(|d| d.accepted));
    assert_eq!(drain(&mut rx1), vec!["one".to_string(), "two".to_string()]);
    assert_eq!(drain(&mut rx2), vec!["one".to_string(), "two".to_string()]);
    assert_eq!(hub.len(), 2);
}

#[test]
fn closed_peer_is_removed_on_publish() {
    let mut hub = DistributionHub::new();
    let (tx1, mut rx1) = unbounded();
    let (tx2, rx2) = unbounded();
    hub.register(peer(1), tx1);
    hub.register(peer(2), tx2);
    drop(rx2);
    let mut deliveries = hub.publish("hello");
    deliveries.sort_by_key(|d| d.accepted);
    assert_eq!(
        deliveries,
        vec![
            Delivery { peer: peer(2), accepted: false },
            Delivery { peer: peer(1), accepted: true },
        ]
    );
    assert_eq!(drain(&mut rx1), vec!["hello".to_string()]);
    assert_eq!(hub.len(), 1);
    assert!(hub.contains(peer(1)));
    assert!(!hub.contains(peer(2)));
    let again = hub.publish("again");
    assert_eq!(again, vec![Delivery { peer: peer(1), accepted: true }]);
}

#[test]
fn publish_does_not_wait_for_an_unresponsive_peer() {
    let mut hub = DistributionHub::new();
    let (slow, mut never_read) = unbounded();
    let (tx1, mut rx1) = unbounded();
    let (tx2, mut rx2) = unbounded();
    hub.register(peer(1), tx1);
    hub.register(peer(9), slow);
    hub.register(peer(2), tx2);
    for n in 0..1000 {
        let deliveries = hub.publish(&format!("message {}", n));
        assert_eq!(deliveries.len(), 3);
        assert!(deliveries.iter().all(|d| d.accepted));
        assert_eq!(drain(&mut rx1), vec![format!("message {}", n)]);
        assert_eq!(drain(&mut rx2), vec![format!("message {}", n)]);
    }
    assert_eq!(hub.len(), 3);
    assert_eq!(drain(&mut never_read).len(), 1000);
}

#[test]
fn unregister_is_idempotent() {
    let mut hub = DistributionHub::new();
    let (tx1, _rx1) = unbounded();
    let (tx2, mut rx2) = unbounded();
    hub.register(peer(1), tx1);
    hub.register(peer(2), tx2);
    assert!(!hub.unregister(peer(7)));
    assert_eq!(hub.len(), 2);
    assert!(hub.unregister(peer(1)));
    assert_eq!(hub.len(), 1);
    assert!(!hub.unregister(peer(1)));
    assert_eq!(hub.len(), 1);
    assert!(hub.contains(peer(2)));
    hub.publish("still there");
    assert_eq!(drain(&mut rx2), vec!["still there".to_string()]);
}

#[test]
fn unregister_closes_the_peers_channel() {
    let mut hub = DistributionHub::new();
    let (tx, mut rx) = unbounded::<String>();
    hub.register(peer(1), tx);
    hub.publish("last");
    assert!(hub.unregister(peer(1)));
    assert_eq!(rx.try_recv(), Ok("last".to_string()));
    assert!(rx.try_recv().unwrap_err().is_closed());
}

#[test]
fn last_registration_wins() {
    let mut hub = DistributionHub::new();
    let (old, mut old_rx) = unbounded();
    let (new, mut new_rx) = unbounded();
    hub.register(peer(1), old);
    hub.register(peer(1), new);
    assert_eq!(hub.len(), 1);
    let deliveries = hub.publish("to the new one");
    assert_eq!(deliveries, vec![Delivery { peer: peer(1), accepted: true }]);
    assert!(drain(&mut old_rx).is_empty());
    assert_eq!(drain(&mut new_rx), vec!["to the new one".to_string()]);
}

#[test]
fn identities_of_different_kinds_are_different_peers() {
    let mut hub = DistributionHub::new();
    let (a, _ra) = unbounded();
    let (b, _rb) = unbounded();
    let (c, _rc) = unbounded();
    hub.register(PeerId::V4 { ip4: 1, port4: 1 }, a);
    hub.register(PeerId::V6 { ip6: 1, port6: 1, flow: 0, scope: 0 }, b);
    hub.register(PeerId::Local(1), c);
    assert_eq!(hub.len(), 3);
}

#[test]
fn settle_removes_exactly_the_refused() {
    let mut hub = DistributionHub::new();
    let mut inboxes = Vec::new();
    for n in 1..=4 {
        let (tx, rx) = unbounded();
        hub.register(peer(n), tx);
        inboxes.push(rx);
    }
    hub.settle(&[
        Delivery { peer: peer(1), accepted: true },
        Delivery { peer: peer(2), accepted: false },
        Delivery { peer: peer(8), accepted: false },
        Delivery { peer: peer(4), accepted: false },
        Delivery { peer: peer(4), accepted: true },
    ]);
    assert!(hub.contains(peer(1)));
    assert!(!hub.contains(peer(2)));
    assert!(hub.contains(peer(3)));
    assert!(!hub.contains(peer(4)));
    assert_eq!(hub.len(), 2);
    hub.settle(&[]);
    assert_eq!(hub.len(), 2);
}

#[test]
fn react_writes_a_message_as_one_line() {
    assert_eq!(
        react(Polled::Message("{\"x\":1.0}".to_string())),
        RecorderStep::Append("{\"x\":1.0}\n".to_string())
    );
    assert_eq!(react(Polled::Message(String::new())), RecorderStep::Append("\n".to_string()));
    assert_eq!(react(Polled::Empty), RecorderStep::Idle);
    assert_eq!(react(Polled::Closed), RecorderStep::Stop);
}

#[test]
fn recorder_receives_what_is_published() {
    let mut hub = DistributionHub::new();
    let mut recorder = Recorder::attach(&mut hub, PeerId::Local(0));
    assert_eq!(recorder.id(), PeerId::Local(0));
    assert!(hub.contains(PeerId::Local(0)));
    assert_eq!(recorder.step(), RecorderStep::Idle);
    hub.publish("first");
    hub.publish("second");
    assert_eq!(recorder.step(), RecorderStep::Append("first\n".to_string()));
    assert_eq!(recorder.step(), RecorderStep::Append("second\n".to_string()));
    assert_eq!(recorder.step(), RecorderStep::Idle);
    recorder.detach(&mut hub);
    assert!(!hub.contains(PeerId::Local(0)));
    assert_eq!(hub.len(), 0);
}

#[test]
fn recorder_stops_when_its_channel_closes() {
    let mut hub = DistributionHub::new();
    let mut recorder = Recorder::attach(&mut hub, PeerId::Local(3));
    hub.publish("kept");
    assert!(hub.unregister(PeerId::Local(3)));
    assert_eq!(recorder.step(), RecorderStep::Append("kept\n".to_string()));
    assert_eq!(recorder.step(), RecorderStep::Stop);
    assert_eq!(recorder.step(), RecorderStep::Stop);
    recorder.detach(&mut hub);
    assert_eq!(hub.len(), 0);
}

#[test]
fn recorder_replaces_a_peer_of_the_same_identity() {
    let mut hub = DistributionHub::new();
    let (tx, mut rx) = unbounded();
    hub.register(PeerId::Local(0), tx);
    let mut recorder = Recorder::attach(&mut hub, PeerId::Local(0));
    assert_eq!(hub.len(), 1);
    hub.publish("for the recorder");
    assert!(drain(&mut rx).is_empty());
    assert_eq!(recorder.step(), RecorderStep::Append("for the recorder\n".to_string()));
}

#[test]
fn lines_are_cut_at_newlines() {
    assert_eq!(split_lines(b"one\ntwo\nthree\n"), vec![b"one".to_vec(), b"two".to_vec(), b"three".to_vec()]);
    assert_eq!(split_lines(b"one\ntwo"), vec![b"one".to_vec(), b"two".to_vec()]);
    assert_eq!(split_lines(b""), Vec::<Vec<u8>>::new());
    assert_eq!(split_lines(b"\n"), vec![Vec::<u8>::new()]);
    assert_eq!(split_lines(b"a\n\nb\n"), vec![b"a".to_vec(), Vec::new(), b"b".to_vec()]);
}

#[test]
fn carriage_return_before_newline_is_dropped() {
    assert_eq!(split_lines(b"one\r\ntwo\r\n"), vec![b"one".to_vec(), b"two".to_vec()]);
    assert_eq!(split_lines(b"a\rb\n"), vec![b"a\rb".to_vec()]);
    assert_eq!(split_lines(b"a\r\r\n"), vec![b"a\r".to_vec()]);
    assert_eq!(split_lines(b"\r\n"), vec![Vec::<u8>::new()]);
    assert_eq!(split_lines(b"end\r"), vec![b"end\r".to_vec()]);
}

#[test]
fn replay_starts_over_behind_the_last_line() {
    let mut replay = Replay::from_bytes(b"line 1\nline 2\nline 3\n");
    assert_eq!(replay.len(), 3);
    assert_eq!(replay.position(), 0);
    assert_eq!(replay.next_message(), Some("line 1".to_string()));
    assert_eq!(replay.next_message(), Some("line 2".to_string()));
    assert_eq!(replay.position(), 2);
    assert_eq!(replay.next_message(), Some("line 3".to_string()));
    assert_eq!(replay.position(), 0);
    assert_eq!(replay.next_message(), Some("line 1".to_string()));
    assert_eq!(replay.position(), 1);
}

#[test]
fn replay_publishes_through_the_hub() {
    let mut hub = DistributionHub::new();
    let (tx, mut rx) = unbounded();
    hub.register(peer(1), tx);
    let mut replay = Replay::from_bytes(b"{\"a\":1}\n{\"b\":2}\n{\"c\":3}");
    for _ in 0..4 {
        let deliveries = replay.publish_next(&mut hub).unwrap();
        assert_eq!(deliveries, vec![Delivery { peer: peer(1), accepted: true }]);
    }
    assert_eq!(
        drain(&mut rx),
        vec![
            "{\"a\":1}".to_string(),
            "{\"b\":2}".to_string(),
            "{\"c\":3}".to_string(),
            "{\"a\":1}".to_string(),
        ]
    );
}

#[test]
fn replay_period_is_the_number_of_lines() {
    let mut replay = Replay::new(vec!["a".to_string(), "b".to_string()]);
    let mut seen = Vec::new();
    for _ in 0..7 {
        seen.push(replay.next_message().unwrap());
    }
    assert_eq!(seen, vec!["a", "b", "a", "b", "a", "b", "a"]);
}

#[test]
fn empty_replay_publishes_nothing() {
    let mut hub = DistributionHub::new();
    let (tx, mut rx) = unbounded();
    hub.register(peer(1), tx);
    let mut replay = Replay::from_bytes(b"");
    assert_eq!(replay.len(), 0);
    assert_eq!(replay.next_message(), None);
    assert_eq!(replay.publish_next(&mut hub), None);
    assert_eq!(replay.position(), 0);
    assert!(drain(&mut rx).is_empty());
    assert_eq!(hub.len(), 1);
}

#[test]
fn replay_leaves_out_lines_that_are_no_text() {
    let mut replay = Replay::from_bytes(b"good\n\xff\xfe\ngr\xc3\xbc\xc3\x9f\n\xc3\n");
    assert_eq!(replay.len(), 2);
    assert_eq!(replay.next_message(), Some("good".to_string()));
    assert_eq!(replay.next_message(), Some("gr\u{fc}\u{df}".to_string()));
    assert_eq!(replay.next_message(), Some("good".to_string()));
}

#[test]
fn replay_keeps_empty_lines() {
    let mut replay = Replay::from_bytes(b"a\n\nb\n");
    assert_eq!(replay.len(), 3);
    assert_eq!(replay.next_message(), Some("a".to_string()));
    assert_eq!(replay.next_message(), Some(String::new()));
    assert_eq!(replay.next_message(), Some("b".to_string()));
}

#[test]
fn replay_reads_what_the_recorder_wrote() {
    let mut hub = DistributionHub::new();
    let mut recorder = Recorder::attach(&mut hub, PeerId::Local(0));
    hub.publish("alpha");
    hub.publish("beta");
    let mut file = String::new();
    while let RecorderStep::Append(line) = recorder.step() {
        file.push_str(&line);
    }
    assert_eq!(file, "alpha\nbeta\n");
    let mut replay = Replay::from_bytes(file.as_bytes());
    assert_eq!(replay.next_message(), Some("alpha".to_string()));
    assert_eq!(replay.next_message(), Some("beta".to_string()));
    assert_eq!(replay.next_message(), Some("alpha".to_string()));
}

#[test]
fn replay_cadence() {
    assert_eq!(REPLAY_INTERVAL_MS, 200);
}

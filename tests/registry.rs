use std::cell::RefCell;

use broadcast_relay::{
    broadcast_line, listen_address, reader_step, ConnectionRegistry, ReaderStep, DEFAULT_PORT,
};

/// A stand-in for a peer's write side: its name, whether its socket is
/// already closed, and what it has received.
struct FakePeer {
    name: &'static str,
    closed: bool,
    received: RefCell<Vec<String>>,
}

fn peer(name: &'static str, closed: bool) -> FakePeer {
    FakePeer { name, closed, received: RefCell::new(Vec::new()) }
}

fn received(registry: &ConnectionRegistry<FakePeer>, id: usize) -> Vec<String> {
    registry.get(id).unwrap().received.borrow().clone()
}

/// Writes `message` to every target of one fan-out, the way the broadcaster
/// does: a failed write to one peer is passed over and the rest go on.
fn fan_out(registry: &ConnectionRegistry<FakePeer>, message: &str) -> usize {
    let mut failures = 0;
    for id in registry.fanout_targets() {
        let p = registry.get(id).unwrap();
        if p.closed {
            failures += 1;
        } else {
            p.received.borrow_mut().push(message.to_string());
        }
    }
    failures
}

#[test]
fn ids_start_at_zero_in_accept_order() {
    let mut r: ConnectionRegistry<u32> = ConnectionRegistry::new();
    assert_eq!(r.next_id(), 0);
    assert_eq!(r.register(10), 0);
    assert_eq!(r.register(11), 1);
    assert_eq!(r.register(12), 2);
    assert_eq!(r.next_id(), 3);
    assert_eq!(r.len(), 3);
}

#[test]
fn ids_not_reused_after_disconnect() {
    let mut r: ConnectionRegistry<u32> = ConnectionRegistry::new();
    let a = r.register(1);
    let b = r.register(2);
    assert_eq!(r.deregister(a), Some(1));
    assert_eq!(r.deregister(b), Some(2));
    assert!(r.is_empty());
    let c = r.register(3);
    assert_eq!(c, 2);
    assert!(!r.contains(a));
    assert!(!r.contains(b));
    assert!(r.contains(c));
    assert_eq!(r.fanout_targets(), vec![2]);
}

#[test]
fn registered_connection_in_every_fanout_until_removed() {
    let mut r: ConnectionRegistry<u32> = ConnectionRegistry::new();
    let c = r.register(7);
    assert_eq!(r.fanout_targets(), vec![c]);
    let d = r.register(8);
    assert_eq!(r.fanout_targets(), vec![c, d]);
    r.deregister(d);
    let e = r.register(9);
    assert_eq!(r.fanout_targets(), vec![c, e]);
    r.deregister(c);
    assert_eq!(r.fanout_targets(), vec![e]);
}

#[test]
fn end_of_stream_deregisters() {
    let mut r: ConnectionRegistry<u32> = ConnectionRegistry::new();
    let c = r.register(5);
    let other = r.register(6);
    assert_eq!(reader_step(Some(0)), ReaderStep::Deregister);
    assert_eq!(r.deregister(c), Some(5));
    assert!(!r.contains(c));
    assert_eq!(r.fanout_targets(), vec![other]);
    let later = r.register(7);
    assert_eq!(r.fanout_targets(), vec![other, later]);
    assert!(!r.fanout_targets().contains(&c));
}

#[test]
fn read_error_ends_reader_like_end_of_stream() {
    assert_eq!(reader_step(None), ReaderStep::Deregister);
    assert_eq!(reader_step(None), reader_step(Some(0)));
}

#[test]
fn nonempty_read_keeps_reading() {
    assert_eq!(reader_step(Some(1)), ReaderStep::KeepReading);
    assert_eq!(reader_step(Some(6)), ReaderStep::KeepReading);
    assert_eq!(reader_step(Some(usize::MAX)), ReaderStep::KeepReading);
}

#[test]
fn fanout_reaches_others_when_one_peer_is_closed() {
    let mut r: ConnectionRegistry<FakePeer> = ConnectionRegistry::new();
    let a = r.register(peer("a", false));
    let b = r.register(peer("b", true));
    let c = r.register(peer("c", false));
    let message = broadcast_line("ping\n");
    assert_eq!(fan_out(&r, &message), 1);
    assert_eq!(received(&r, a), vec!["server> ping\n".to_string()]);
    assert_eq!(received(&r, c), vec!["server> ping\n".to_string()]);
    assert!(received(&r, b).is_empty());
    // a failed write leaves the entry where it is
    assert!(r.contains(b));
    assert_eq!(r.len(), 3);
}

#[test]
fn removal_touches_no_other_entry() {
    let mut r: ConnectionRegistry<FakePeer> = ConnectionRegistry::new();
    let a = r.register(peer("a", false));
    let b = r.register(peer("b", false));
    let c = r.register(peer("c", false));
    let removed = r.deregister(b).unwrap();
    assert_eq!(removed.name, "b");
    assert_eq!(r.get(a).unwrap().name, "a");
    assert_eq!(r.get(c).unwrap().name, "c");
    assert!(received(&r, a).is_empty());
    assert!(received(&r, c).is_empty());
    assert_eq!(r.next_id(), 3);
}

#[test]
fn three_clients_one_leaves_then_hello() {
    let mut r: ConnectionRegistry<FakePeer> = ConnectionRegistry::new();
    let one = r.register(peer("client 1", false));
    let two = r.register(peer("client 2", false));
    let three = r.register(peer("client 3", false));
    // client 2 disconnects: its reader reads end of stream
    assert_eq!(reader_step(Some(0)), ReaderStep::Deregister);
    assert!(r.deregister(two).is_some());
    let message = broadcast_line("hello\n");
    assert_eq!(message, "server> hello\n");
    assert_eq!(fan_out(&r, &message), 0);
    assert_eq!(received(&r, one), vec!["server> hello\n".to_string()]);
    assert_eq!(received(&r, three), vec!["server> hello\n".to_string()]);
    assert!(!r.contains(two));
    assert_eq!(r.fanout_targets(), vec![one, three]);
}

#[test]
fn deregister_unknown_id_is_none() {
    let mut r: ConnectionRegistry<u32> = ConnectionRegistry::new();
    assert_eq!(r.deregister(0), None);
    let a = r.register(1);
    assert_eq!(r.deregister(a + 1), None);
    assert_eq!(r.deregister(a), Some(1));
    assert_eq!(r.deregister(a), None);
    assert_eq!(r.len(), 0);
}

#[test]
fn get_finds_registered_handle() {
    let mut r: ConnectionRegistry<u32> = ConnectionRegistry::new();
    assert_eq!(r.get(0), None);
    let a = r.register(41);
    let b = r.register(42);
    assert_eq!(r.get(a), Some(&41));
    assert_eq!(r.get(b), Some(&42));
    assert_eq!(r.get(2), None);
}

#[test]
fn empty_registry_has_no_targets() {
    let r: ConnectionRegistry<u32> = ConnectionRegistry::new();
    assert!(r.is_empty());
    assert_eq!(r.len(), 0);
    assert!(r.fanout_targets().is_empty());
    assert!(r.has_free_id());
}

#[test]
fn broadcast_line_puts_marker_in_front() {
    assert_eq!(broadcast_line("hello\n"), "server> hello\n");
    assert_eq!(broadcast_line(""), "server> ");
    assert_eq!(broadcast_line("a b\n"), "server> a b\n");
}

#[test]
fn listen_address_joins_host_and_port() {
    assert_eq!(listen_address(DEFAULT_PORT), "127.0.0.1:7878");
    assert_eq!(listen_address("9000"), "127.0.0.1:9000");
}

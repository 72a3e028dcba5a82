use proxy::error::ProxyError;
use proxy::link::Link;
use proxy::message::{encode, Message};
use proxy::routing::RoutingTable;

#[test]
fn table_holds_one_channel_per_id() {
    let mut table: RoutingTable<&str> = RoutingTable::new();
    assert_eq!(table.len(), 0);
    assert_eq!(table.insert(3, "three"), None);
    assert_eq!(table.insert(7, "seven"), None);
    assert_eq!(table.insert(3, "again"), Some("three"));
    assert_eq!(table.len(), 2);
    assert!(table.contains(3));
    assert!(!table.contains(4));
    assert_eq!(table.lookup(3), Some(&"again"));
    assert_eq!(table.lookup(4), None);
    assert_eq!(table.remove(3), Some("again"));
    assert_eq!(table.remove(3), None);
    assert_eq!(table.len(), 1);
}

#[test]
fn frame_goes_to_the_channel_of_its_id() {
    let mut table: RoutingTable<u32> = RoutingTable::new();
    table.insert(3, 300);
    table.insert(7, 700);
    let frame = encode(7, b"for seven").unwrap();
    let (channel, message) = table.route(&frame).unwrap();
    assert_eq!(*channel, 700);
    assert_eq!(message.id(), 7);
    assert_eq!(message.payload(), b"for seven".to_vec());
    let frame = encode(3, b"").unwrap();
    let (channel, message) = table.route(&frame).unwrap();
    assert_eq!(*channel, 300);
    assert_eq!(message.len(), 0);
}

#[test]
fn frame_for_an_unknown_id_is_dropped() {
    let mut table: RoutingTable<u32> = RoutingTable::new();
    table.insert(3, 300);
    let frame = encode(4, b"lost").unwrap();
    assert!(matches!(table.route(&frame), Err(ProxyError::UnroutableFrame)));
    assert_eq!(table.len(), 1);
}

#[test]
fn frame_for_a_removed_id_is_dropped() {
    let mut table: RoutingTable<u32> = RoutingTable::new();
    table.insert(3, 300);
    let frame = encode(3, b"late").unwrap();
    assert!(table.route(&frame).is_ok());
    table.remove(3);
    assert!(matches!(table.route(&frame), Err(ProxyError::UnroutableFrame)));
}

#[test]
fn broken_frame_is_dropped() {
    let mut table: RoutingTable<u32> = RoutingTable::new();
    table.insert(3, 300);
    let mut frame = encode(3, b"abc").unwrap();
    assert!(matches!(table.route(&frame[..100]), Err(ProxyError::UnroutableFrame)));
    frame[497] = 0xff;
    assert!(matches!(table.route(&frame), Err(ProxyError::UnroutableFrame)));
}

#[test]
fn link_opens_and_closes_connections() {
    let mut link: Link<&str> = Link::new(2);
    assert_eq!(link.open("a"), Ok(0));
    assert_eq!(link.open("b"), Ok(1));
    assert!(link.is_open(0));
    assert!(link.is_open(1));
    assert_eq!(link.open("c"), Err(ProxyError::IdSpaceExhausted));
    assert_eq!(link.close(0), Some("a"));
    assert!(!link.is_open(0));
    assert_eq!(link.close(0), None);
    assert_eq!(link.open("d"), Ok(0));
    assert_eq!(link.close(5), None);
}

#[test]
fn link_keeps_an_id_while_its_connection_is_open() {
    let mut link: Link<u64> = Link::new(3);
    let mut open: Vec<u64> = Vec::new();
    for round in 0..50u64 {
        match link.open(round) {
            Ok(id) => {
                assert!(!open.contains(&id));
                open.push(id);
            }
            Err(e) => {
                assert_eq!(e, ProxyError::IdSpaceExhausted);
                assert_eq!(open.len(), 3);
                let id = open.remove((round % 3) as usize);
                assert!(link.close(id).is_some());
            }
        }
    }
}

#[test]
fn link_routes_only_to_open_connections() {
    let mut link: Link<&str> = Link::new(8);
    let a = link.open("a").unwrap();
    let b = link.open("b").unwrap();
    let for_a = encode(a, b"one").unwrap();
    let for_b = Message::new(b, b"two").unwrap().to_frame();
    assert_eq!(*link.route(&for_a).unwrap().0, "a");
    assert_eq!(*link.route(&for_b).unwrap().0, "b");
    assert_eq!(link.route(&for_b).unwrap().1.payload(), b"two".to_vec());
    link.close(a);
    assert!(matches!(link.route(&for_a), Err(ProxyError::UnroutableFrame)));
    assert_eq!(*link.route(&for_b).unwrap().0, "b");
}

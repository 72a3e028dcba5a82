use proxy::message::{Message, CAPACITY, FRAME_SIZE};
use proxy::mux::split_chunk;
use proxy::routing::RoutingTable;

fn bytes(count: usize, seed: u8) -> Vec<u8> {
    (0..count).map(|i| (i as u8).wrapping_mul(31).wrapping_add(seed)).collect()
}

fn lengths(messages: &[Message]) -> Vec<usize> {
    messages.iter().map(|m| m.len()).collect()
}

#[test]
fn chunk_is_cut_into_pieces_that_fit() {
    assert_eq!(lengths(&split_chunk(1, &bytes(0, 0))), Vec::<usize>::new());
    assert_eq!(lengths(&split_chunk(1, &bytes(1, 0))), vec![1]);
    assert_eq!(lengths(&split_chunk(1, &bytes(496, 0))), vec![496]);
    assert_eq!(lengths(&split_chunk(1, &bytes(497, 0))), vec![496, 1]);
    assert_eq!(lengths(&split_chunk(1, &bytes(992, 0))), vec![496, 496]);
    assert_eq!(lengths(&split_chunk(1, &bytes(1000, 0))), vec![496, 496, 8]);
    assert_eq!(lengths(&split_chunk(1, &bytes(4096, 0))).len(), 9);
}

#[test]
fn pieces_carry_the_chunk_in_order() {
    let chunk = bytes(1300, 5);
    let messages = split_chunk(42, &chunk);
    let mut joined: Vec<u8> = Vec::new();
    for m in &messages {
        assert_eq!(m.id(), 42);
        assert!(m.len() <= CAPACITY);
        joined.extend_from_slice(&m.payload());
    }
    assert_eq!(joined, chunk);
    assert_eq!(messages[1].payload(), chunk[496..992].to_vec());
}

fn deliver(stream: &[u8], table: &RoutingTable<usize>, sinks: &mut Vec<Vec<u8>>) -> usize {
    let mut dropped = 0;
    for frame in stream.chunks(FRAME_SIZE) {
        match table.route(frame) {
            Ok((sink, message)) => sinks[*sink].extend_from_slice(&message.payload()),
            Err(_) => dropped += 1,
        }
    }
    dropped
}

#[test]
fn two_connections_share_one_transport() {
    let from_three = bytes(1000, 3);
    let from_seven = bytes(1000, 7);
    let frames_three = split_chunk(3, &from_three);
    let frames_seven = split_chunk(7, &from_seven);
    let mut stream: Vec<u8> = Vec::new();
    for i in 0..3 {
        stream.extend_from_slice(&frames_seven[i].to_frame());
        stream.extend_from_slice(&frames_three[i].to_frame());
    }
    assert_eq!(stream.len(), 6 * FRAME_SIZE);
    let mut table: RoutingTable<usize> = RoutingTable::new();
    table.insert(3, 0);
    table.insert(7, 1);
    let mut sinks = vec![Vec::new(), Vec::new()];
    assert_eq!(deliver(&stream, &table, &mut sinks), 0);
    assert_eq!(sinks[0], from_three);
    assert_eq!(sinks[1], from_seven);
}

#[test]
fn chunks_of_one_connection_arrive_in_order() {
    let a = bytes(700, 1);
    let b = bytes(300, 2);
    let mut stream: Vec<u8> = Vec::new();
    for m in split_chunk(5, &a) {
        stream.extend_from_slice(&m.to_frame());
    }
    for m in split_chunk(9, b"noise") {
        stream.extend_from_slice(&m.to_frame());
    }
    for m in split_chunk(5, &b) {
        stream.extend_from_slice(&m.to_frame());
    }
    let mut table: RoutingTable<usize> = RoutingTable::new();
    table.insert(5, 0);
    let mut sinks = vec![Vec::new()];
    assert_eq!(deliver(&stream, &table, &mut sinks), 1);
    let mut expected = a.clone();
    expected.extend_from_slice(&b);
    assert_eq!(sinks[0], expected);
}

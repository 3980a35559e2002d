use transport_zigbee::frame::frames;
use transport_zigbee::reassembly::Response;
use transport_zigbee::{Fragment, Frame, Header, Reassembly, ZigbeeError};

fn header() -> Header {
    Header {
        destination: 0,
        source: 0x1a2b,
        endpoint: 1,
        cluster: 0x0402,
        profile: 0x0104,
        counter: 9,
    }
}

#[test]
fn blocks_come_back_together_and_the_last_is_acknowledged() {
    let mut node = Reassembly::new();
    let long: Vec<u8> = (0..300u32)
        .map(|n| u8::try_from(n % 256).unwrap_or(0))
        .collect();
    let frames = frames(&header(), &long).expect("frames");
    for frame in &frames[..frames.len() - 1] {
        let response = node.handle(frame).expect("block");
        assert!(response.acks.is_empty() && response.complete.is_none());
    }
    let response = node.handle(&frames[frames.len() - 1]).expect("last");
    assert_eq!(response.acks.len(), 1);
    assert!(response.acks[0].ack);
    assert_eq!(response.complete, Some((header(), long)));
}

#[test]
fn an_unfragmented_frame_is_whole_and_acknowledged_at_once() {
    let mut node = Reassembly::new();
    let frame = Frame::data(header(), None, b"on").expect("frame");
    let response = node.handle(&frame).expect("data");
    assert_eq!(response.acks.len(), 1);
    assert_eq!(response.complete, Some((header(), b"on".to_vec())));
    let response = node.handle(&frame.acknowledging()).expect("an ack");
    assert_eq!(response, Response::default(), "an ack is not data");
}

#[test]
fn a_block_out_of_place_is_refused() {
    let mut node = Reassembly::new();
    let stray = Frame::data(header(), Some(Fragment::Block { index: 1 }), b"x").expect("f");
    assert!(node.handle(&stray).is_err(), "no transmission");
    let first = Frame::data(header(), Some(Fragment::First { count: 2 }), b"a").expect("f");
    node.handle(&first).expect("first");
    assert!(node.handle(&first).is_err(), "another first");
    let beyond = Frame::data(header(), Some(Fragment::Block { index: 2 }), b"x").expect("f");
    assert!(node.handle(&beyond).is_err(), "beyond the count");
    let mut other = header();
    other.counter = 10;
    let elsewhere = Frame::data(other, Some(Fragment::Block { index: 1 }), b"x").expect("f");
    assert!(node.handle(&elsewhere).is_err(), "another counter");
    let response = node.handle(&stray).expect("the block that was due");
    assert_eq!(response.complete, Some((header(), b"ax".to_vec())));
}

#[test]
fn each_block_out_of_place_is_told_apart() {
    let mut node = Reassembly::default();
    let block = |counter: u8, index: u8| {
        let header = Header { counter, ..header() };
        Frame::data(header, Some(Fragment::Block { index }), b"x").expect("f")
    };
    let first = Frame::data(header(), Some(Fragment::First { count: 3 }), b"a").expect("f");
    assert_eq!(node.handle(&block(9, 0)), Err(ZigbeeError::NotStarted));
    node.handle(&first).expect("first");
    assert_eq!(node.handle(&first), Err(ZigbeeError::AnotherUnderWay));
    assert_eq!(node.handle(&block(8, 200)), Err(ZigbeeError::AnotherCounter));
    assert_eq!(node.handle(&block(9, 3)), Err(ZigbeeError::BeyondCount));
    assert_eq!(node.handle(&block(9, 2)).expect("last"), Response::default());
    let response = node.handle(&block(9, 1)).expect("the one between");
    assert_eq!(response.complete, Some((header(), b"axx".to_vec())));
    assert_eq!(response.acks, vec![block(9, 1).acknowledging()]);
}

#[test]
fn blocks_may_come_in_any_order_and_twice() {
    let long: Vec<u8> = (0..500u32).map(|n| (n % 256) as u8).collect();
    let blocks = frames(&header(), &long).expect("frames");
    assert_eq!(blocks.len(), 6);
    let mut node = Reassembly::new();
    for index in [0, 5, 3, 3, 1, 5, 2] {
        assert_eq!(node.handle(&blocks[index]).expect("block"), Response::default());
    }
    let response = node.handle(&blocks[4]).expect("the missing one");
    assert_eq!(response.acks, vec![blocks[4].acknowledging()]);
    assert_eq!(response.complete, Some((header(), long)));
    assert_eq!(node.handle(&blocks[4]), Err(ZigbeeError::NotStarted));
}

#[test]
fn a_first_block_of_none_or_one_is_whole_by_itself() {
    for count in [0, 1] {
        let mut node = Reassembly::new();
        let first = Frame::data(header(), Some(Fragment::First { count }), b"a").expect("f");
        let response = node.handle(&first).expect("first");
        assert_eq!(response.complete, Some((header(), b"a".to_vec())));
        assert_eq!(response.acks, vec![first.acknowledging()]);
    }
}

#[test]
fn a_block_that_names_the_first_takes_its_place() {
    let mut node = Reassembly::new();
    let first = Frame::data(header(), Some(Fragment::First { count: 2 }), b"a").expect("f");
    let again = Frame::data(header(), Some(Fragment::Block { index: 0 }), b"b").expect("f");
    let last = Frame::data(header(), Some(Fragment::Block { index: 1 }), b"c").expect("f");
    node.handle(&first).expect("first");
    node.handle(&again).expect("again");
    let response = node.handle(&last).expect("last");
    assert_eq!(response.complete, Some((header(), b"bc".to_vec())));
}

#[test]
fn an_unfragmented_frame_passes_a_transmission_under_way() {
    let mut node = Reassembly::new();
    let first = Frame::data(header(), Some(Fragment::First { count: 2 }), b"a").expect("f");
    let last = Frame::data(header(), Some(Fragment::Block { index: 1 }), b"b").expect("f");
    let whole = Frame::data(header(), None, b"on").expect("f");
    node.handle(&first).expect("first");
    let response = node.handle(&whole).expect("whole");
    assert_eq!(response.acks, vec![whole.acknowledging()]);
    assert_eq!(response.complete, Some((header(), b"on".to_vec())));
    let response = node.handle(&last).expect("last");
    assert_eq!(response.complete, Some((header(), b"ab".to_vec())));
}

#[test]
fn what_does_not_ask_is_not_acknowledged() {
    let mut node = Reassembly::new();
    let mut quiet = Frame::data(header(), None, b"on").expect("f");
    quiet.ack_request = false;
    let response = node.handle(&quiet).expect("data");
    assert!(response.acks.is_empty());
    assert_eq!(response.complete, Some((header(), b"on".to_vec())));
}

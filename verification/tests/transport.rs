use std::collections::VecDeque;
use std::sync::{Arc, Mutex};
use std::time::Duration;

use transport_zigbee::error::not_a_node;
use transport_zigbee::frame::frames;
use transport_zigbee::node::{acknowledged, use_up};
use transport_zigbee::target::node_and_endpoint;
use transport_zigbee::{
    Fragment, Frame, Header, Listening, LoopbackRadio, Radio, Reception, ZigbeeError,
    ZigbeeTransport, MAX_STREAM,
};

fn loopback() -> ZigbeeTransport<LoopbackRadio> {
    ZigbeeTransport::loopback(Duration::from_secs(2))
}

fn patterned(length: usize) -> Vec<u8> {
    (0..length).map(|n| (n * 31 % 251) as u8).collect()
}

/// The shapes a protocol breaks on, up to the ceiling.
fn payloads() -> Vec<(&'static str, Vec<u8>)> {
    vec![
        ("empty", Vec::new()),
        ("one byte", vec![0]),
        ("zeros", vec![0; 64]),
        ("all ones", vec![0xff; 64]),
        ("line ends", b"\r\n\r\n\0\n".to_vec()),
        ("one frame", patterned(100)),
        ("one over", patterned(101)),
        ("two blocks", patterned(196)),
        ("mtu", patterned(1_472)),
        ("the brim", patterned(MAX_STREAM)),
    ]
}

#[test]
fn a_loopback_round_carries_a_stream_as_one_transmission() {
    let mut loopback = loopback();
    let arrived = loopback.round(b"21.5").expect("round");
    assert_eq!(arrived.bytes, b"21.5");
    assert_eq!(
        arrived.origin_uri,
        "zigbee://loopback/0x1a2b/1?cluster=0x0402"
    );
    let long = vec![7; 1000];
    assert_eq!(loopback.round(&long).expect("blocks").bytes, long);
    assert_eq!(loopback.ceiling(), Some(24_990));
}

#[test]
fn the_loopback_returns_the_edges_whole_and_refuses_over_the_brim() {
    let mut loopback = loopback();
    for (name, bytes) in payloads() {
        let arrived = loopback
            .round(&bytes)
            .unwrap_or_else(|error| panic!("{name}: {}", error.message()));
        assert_eq!(arrived.bytes, bytes, "{name}");
    }
    let error = loopback.round(&vec![0; MAX_STREAM + 1]).expect_err("over");
    assert!(error.message().contains("over the 24990"), "{}", error.message());
}

/// A loopback radio that its sender and the test both hold.
struct Shared(Arc<Mutex<LoopbackRadio>>);

impl Radio for Shared {
    fn name(&self) -> &str {
        "loopback"
    }
    fn transmit(&mut self, frame: &[u8]) -> Result<(), ZigbeeError> {
        self.0.lock().expect("lock").transmit(frame)
    }
    fn receive(&mut self, timeout: Duration) -> Result<Option<Vec<u8>>, ZigbeeError> {
        self.0.lock().expect("lock").receive(timeout)
    }
}

#[test]
fn a_target_names_the_node_and_endpoint_and_a_bad_one_is_refused() {
    let radio = Arc::new(Mutex::new(LoopbackRadio::new()));
    let mut loopback = ZigbeeTransport::new(Shared(Arc::clone(&radio)), 0x1a2b);
    loopback.send(Some("0x0007/3"), b"on").expect("sending");
    let (header, bytes) = radio.lock().expect("lock").take().expect("taken");
    assert_eq!((header.destination, header.endpoint), (7, 3));
    assert_eq!(bytes, b"on");
    assert!(loopback.send(Some("seven"), b"x").is_err());
    assert!(loopback.send(Some("0x0007/x"), b"x").is_err());
    assert!(radio.lock().expect("lock").take().is_none(), "nothing was sent");
}

/// Two ends of one air: what one transmits, the other receives.
struct Air {
    up: Mutex<VecDeque<Vec<u8>>>,
    down: Mutex<VecDeque<Vec<u8>>>,
}

fn air() -> Arc<Air> {
    Arc::new(Air { up: Mutex::new(VecDeque::new()), down: Mutex::new(VecDeque::new()) })
}

/// The node's end: it hears what went up and what it transmits goes down.
struct NodeEnd(Arc<Air>);

impl Radio for NodeEnd {
    fn name(&self) -> &str {
        "air"
    }
    fn transmit(&mut self, frame: &[u8]) -> Result<(), ZigbeeError> {
        self.0.down.lock().expect("lock").push_back(frame.to_vec());
        Ok(())
    }
    fn receive(&mut self, _timeout: Duration) -> Result<Option<Vec<u8>>, ZigbeeError> {
        Ok(self.0.up.lock().expect("lock").pop_front())
    }
}

/// The sender's end: while it waits, the node takes what was sent.
struct SenderEnd {
    air: Arc<Air>,
    node: ZigbeeTransport<NodeEnd>,
    taken: Arc<Mutex<Vec<Reception>>>,
}

impl Radio for SenderEnd {
    fn name(&self) -> &str {
        "air"
    }
    fn transmit(&mut self, frame: &[u8]) -> Result<(), ZigbeeError> {
        self.air.up.lock().expect("lock").push_back(frame.to_vec());
        Ok(())
    }
    fn receive(&mut self, _timeout: Duration) -> Result<Option<Vec<u8>>, ZigbeeError> {
        let reception = self.node.receive_one(usize::MAX)?;
        self.taken.lock().expect("lock").push(reception);
        Ok(self.air.down.lock().expect("lock").pop_front())
    }
}

#[test]
fn the_node_takes_a_transmission_over_any_radio() {
    let air = air();
    let mut node = ZigbeeTransport::new(NodeEnd(Arc::clone(&air)), 0)
        .timing_out_after(Duration::from_secs(2));
    assert!(node.far_end().is_err(), "a real radio has no node inside");
    assert!(
        matches!(node.receive_one(usize::MAX).expect("quiet"), Reception::Quiet),
        "nothing is not an error"
    );
    let taken = Arc::new(Mutex::new(Vec::new()));
    let mut sender =
        ZigbeeTransport::new(SenderEnd { air, node, taken: Arc::clone(&taken) }, 0x1a2b)
            .speaking(0x0104, 0x0006)
            .timing_out_after(Duration::from_secs(2));
    sender.send(Some(""), &[9; 300]).expect("sending");
    let arrived = taken.lock().expect("lock");
    assert_eq!(arrived.len(), 1);
    match &arrived[0] {
        Reception::Arrived(arrived) => {
            assert_eq!(arrived.bytes, [9; 300]);
            assert_eq!(arrived.origin_uri, "zigbee://air/0x1a2b/1?cluster=0x0006");
        }
        _ => panic!("nothing arrived"),
    }
}

/// A radio that plays what it is given and keeps what it is handed.
struct Script {
    heard: VecDeque<Result<Option<Vec<u8>>, ZigbeeError>>,
    put_out: Arc<Mutex<Vec<Vec<u8>>>>,
    waited: Arc<Mutex<Vec<Duration>>>,
    refuse_at: usize,
}

fn script(heard: Vec<Result<Option<Vec<u8>>, ZigbeeError>>) -> Script {
    Script {
        heard: heard.into_iter().collect(),
        put_out: Arc::new(Mutex::new(Vec::new())),
        waited: Arc::new(Mutex::new(Vec::new())),
        refuse_at: usize::MAX,
    }
}

fn refusal() -> ZigbeeError {
    ZigbeeError::Radio { message: "the air is busy".to_string(), retryable: true }
}

impl Radio for Script {
    fn name(&self) -> &str {
        "script"
    }
    fn transmit(&mut self, frame: &[u8]) -> Result<(), ZigbeeError> {
        let mut out = self.put_out.lock().expect("lock");
        if out.len() == self.refuse_at {
            return Err(refusal());
        }
        out.push(frame.to_vec());
        Ok(())
    }
    fn receive(&mut self, timeout: Duration) -> Result<Option<Vec<u8>>, ZigbeeError> {
        self.waited.lock().expect("lock").push(timeout);
        self.heard.pop_front().unwrap_or(Ok(None))
    }
}

fn header(counter: u8) -> Header {
    Header {
        destination: 0,
        source: 0x1a2b,
        endpoint: 1,
        cluster: 0x0402,
        profile: 0x0104,
        counter,
    }
}

fn ack(counter: u8) -> Vec<u8> {
    Frame::data(header(counter), None, b"").expect("frame").acknowledging().encode()
}

#[test]
fn a_stream_goes_out_in_order_and_its_acknowledgement_is_awaited_once() {
    let radio = script(vec![Ok(Some(ack(0))), Ok(Some(ack(1)))]);
    let (put_out, waited) = (Arc::clone(&radio.put_out), Arc::clone(&radio.waited));
    let mut sender = ZigbeeTransport::new(radio, 0x1a2b);
    let stream = patterned(250);
    sender.send_stream(0, 1, &stream).expect("sending");
    let expected: Vec<Vec<u8>> = frames(&header(0), &stream)
        .expect("frames")
        .iter()
        .map(Frame::encode)
        .collect();
    assert_eq!(*put_out.lock().expect("lock"), expected);
    assert_eq!(*waited.lock().expect("lock"), vec![Duration::from_secs(5)]);
    sender.send_stream(0, 1, b"next").expect("the next counter");
}

#[test]
fn a_sending_that_goes_wrong_is_told_apart() {
    let data = Frame::data(header(3), None, b"").expect("frame").encode();
    let replies = vec![
        (Ok(None), ZigbeeError::NoAcknowledgement),
        (Ok(Some(ack(9))), ZigbeeError::AnotherAcknowledgement),
        (Ok(Some(ack(2).split_off(1))), ZigbeeError::NotData),
        (Ok(Some(data)), ZigbeeError::AnotherAcknowledgement),
        (Err(refusal()), refusal()),
    ];
    let (heard, expected): (Vec<_>, Vec<_>) = replies.into_iter().unzip();
    let mut sender = ZigbeeTransport::new(script(heard), 0x1a2b);
    for error in expected {
        assert_eq!(sender.send_stream(0, 1, b"x"), Err(error));
    }
    assert_eq!(acknowledged(7, Some(ack(7))), Ok(()));
    assert_eq!(acknowledged(7, None), Err(ZigbeeError::NoAcknowledgement));
}

#[test]
fn nothing_goes_out_behind_a_refused_frame() {
    let mut radio = script(Vec::new());
    radio.refuse_at = 2;
    let (put_out, waited) = (Arc::clone(&radio.put_out), Arc::clone(&radio.waited));
    let mut sender = ZigbeeTransport::new(radio, 0x1a2b);
    assert_eq!(sender.send_stream(0, 1, &patterned(500)), Err(refusal()));
    assert_eq!(put_out.lock().expect("lock").len(), 2);
    assert!(waited.lock().expect("lock").is_empty());
}

#[test]
fn more_than_a_transmission_uses_up_a_counter_and_sends_nothing() {
    let radio = script(vec![Ok(Some(ack(1)))]);
    let put_out = Arc::clone(&radio.put_out);
    let mut sender = ZigbeeTransport::new(radio, 0x1a2b);
    assert_eq!(
        sender.send_stream(0, 1, &vec![0; 24_991]),
        Err(ZigbeeError::OverCeiling { length: 24_991, ceiling: 24_990 })
    );
    assert!(put_out.lock().expect("lock").is_empty());
    sender.send_stream(0, 1, b"x").expect("under counter 1");
}

#[test]
fn clones_that_share_a_counter_count_on() {
    let mut counter = 254;
    for due in [254, 255, 0, 1] {
        let mut sender = ZigbeeTransport::new(script(vec![Ok(Some(ack(due)))]), 0x1a2b)
            .counting_from(use_up(&mut counter));
        sender.send_stream(0, 1, b"x").expect("under its counter");
    }
    assert_eq!(counter, 2);
}

#[test]
fn the_counter_comes_round() {
    let mut loopback = loopback();
    for turn in 0..600usize {
        let bytes = patterned(turn % 300);
        assert_eq!(loopback.round(&bytes).expect("round").bytes, bytes);
    }
}

#[test]
fn a_reception_that_is_gone_on_with_is_the_same() {
    let stream = patterned(300);
    let blocks: Vec<_> = frames(&header(9), &stream)
        .expect("frames")
        .iter()
        .map(|frame| Ok(Some(frame.encode())))
        .collect();
    assert_eq!(blocks.len(), 4);
    let last = frames(&header(9), &stream).expect("frames")[3].acknowledging().encode();
    for most in 1..6 {
        let radio = script(blocks.clone());
        let put_out = Arc::clone(&radio.put_out);
        let mut node = ZigbeeTransport::new(radio, 0);
        let mut listening = Listening::new();
        let arrived = loop {
            match node.receive_more(listening, most).expect("receiving") {
                Reception::Underway(rest) => listening = rest,
                Reception::Arrived(arrived) => break arrived,
                Reception::Quiet => panic!("quiet"),
            }
        };
        assert_eq!(arrived.bytes, stream);
        assert_eq!(arrived.origin_uri, "zigbee://script/0x1a2b/1?cluster=0x0402");
        assert_eq!(*put_out.lock().expect("lock"), vec![last.clone()]);
    }
}

#[test]
fn a_reception_that_goes_wrong_is_told_apart() {
    let first = Frame::data(header(9), Some(Fragment::First { count: 2 }), b"a").expect("f");
    let whole = Frame::data(header(9), None, b"a").expect("f");
    let mut node = ZigbeeTransport::new(script(vec![Ok(Some(first.encode()))]), 0);
    assert_eq!(node.receive_one(9).err(), Some(ZigbeeError::SenderQuiet));
    let mut node = ZigbeeTransport::new(script(vec![Err(refusal())]), 0);
    assert_eq!(node.receive_one(9).err(), Some(refusal()));
    let mut node = ZigbeeTransport::new(script(vec![Ok(Some(vec![8, 0]))]), 0);
    assert_eq!(node.receive_one(9).err(), Some(ZigbeeError::CutOff));
    let heard = vec![Ok(Some(first.encode())), Ok(Some(first.encode()))];
    let mut node = ZigbeeTransport::new(script(heard), 0);
    assert_eq!(node.receive_one(9).err(), Some(ZigbeeError::AnotherUnderWay));
    let mut radio = script(vec![Ok(Some(whole.encode()))]);
    radio.refuse_at = 0;
    let mut node = ZigbeeTransport::new(radio, 0);
    assert_eq!(node.receive_one(9).err(), Some(refusal()), "the acknowledgement");
}

#[test]
fn a_loopback_refuses_what_is_out_of_place_and_keeps_the_rest() {
    let mut radio = LoopbackRadio::default();
    let stray = Frame::data(header(9), Some(Fragment::Block { index: 1 }), b"x").expect("f");
    assert_eq!(radio.name(), "loopback");
    assert_eq!(radio.transmit(&[8, 0]), Err(ZigbeeError::CutOff));
    assert_eq!(radio.transmit(&stray.encode()), Err(ZigbeeError::NotStarted));
    assert_eq!(radio.receive(Duration::ZERO), Ok(None));
    assert!(radio.take().is_none());
    let one = Frame::data(header(1), None, b"one").expect("f");
    let two = Frame::data(header(2), None, b"two").expect("f");
    radio.transmit(&one.encode()).expect("one");
    radio.transmit(&two.encode()).expect("two");
    assert_eq!(radio.take(), Some((header(1), b"one".to_vec())));
    assert_eq!(radio.take(), Some((header(2), b"two".to_vec())));
    assert_eq!(radio.receive(Duration::ZERO), Ok(Some(one.acknowledging().encode())));
    assert_eq!(radio.receive(Duration::ZERO), Ok(Some(two.acknowledging().encode())));
    assert_eq!(radio.receive(Duration::ZERO), Ok(None));
}

#[test]
fn only_a_loopback_has_a_far_end() {
    assert_eq!(loopback().far_end().expect("far end"), "zigbee://loopback/0x0000/1");
    let mut bare = ZigbeeTransport::new(LoopbackRadio::new(), 0x1a2b);
    assert_eq!(bare.far_end(), Err(ZigbeeError::NotLoopback));
    assert_eq!(bare.round(b"x"), Err(ZigbeeError::NotLoopback));
    assert_eq!(bare.take_arrived(), Err(ZigbeeError::NothingCompleted));
}

#[test]
fn an_origin_can_be_sent_to() {
    let node = loopback();
    for (address, endpoint) in [(0, 0), (7, 3), (0x1a2b, 1), (0xbeef, 99), (0xffff, 255)] {
        let origin = node.origin(address, endpoint);
        assert_eq!(origin, format!("zigbee://loopback/{address:#06x}/{endpoint}"));
        let path = &origin["zigbee://loopback/".len()..];
        assert_eq!(node_and_endpoint(path), Ok((address, endpoint)));
    }
}

#[test]
fn a_path_is_read_as_the_standard_library_reads_numbers() {
    let addresses = [
        "", "0", "7", "0007", "00007", "0000000000000000007", "fFfF", "10000", "ffff0", "+7",
        "++7", "+", "-7", "-0", " 7", "7 ", "g", "1_0", "0x7", "\u{661}", "\u{ff17}",
    ];
    let endpoints = [
        "", "0", "1", "255", "256", "0255", "00000000000000001", "+3", "+", "-3", "a", "1/2",
        " 1", "1 ", "\u{661}",
    ];
    for address in addresses {
        for endpoint in endpoints {
            let path = format!("0x{address}/{endpoint}");
            let expected = match (u16::from_str_radix(address, 16), endpoint.parse::<u8>()) {
                (Ok(address), Ok(endpoint)) => Ok((address, endpoint)),
                _ => Err(ZigbeeError::NotANode { path: path.clone() }),
            };
            assert_eq!(node_and_endpoint(&path), expected, "{path}");
        }
    }
    assert_eq!(node_and_endpoint("0x12"), Ok((0x12, 1)), "endpoint 1 unless named");
    for path in ["", "0", "x7/1", "0X7/1", "7/1", "/0x7/1", "0x", "0x/1"] {
        let refused = Err(ZigbeeError::NotANode { path: path.to_string() });
        assert_eq!(node_and_endpoint(path), refused, "{path}");
    }
}

#[test]
fn no_path_is_the_node_s_own_destination() {
    assert_eq!(loopback().own_destination(), (0, 1));
    assert_eq!(loopback().addressee(Some("0x0007/3")), Ok((7, 3)));
    for path in [None, Some("")] {
        let mut loopback = loopback();
        loopback.send(path, b"on").expect("sending");
        assert_eq!(loopback.take_arrived().expect("taken").bytes, b"on");
    }
}

#[test]
fn what_is_refused_says_why() {
    let said = [
        (ZigbeeError::FrameTooLarge, "more than one frame carries"),
        (ZigbeeError::OverMac, "more than the MAC carries"),
        (ZigbeeError::CutOff, "a frame cut off inside its headers"),
        (ZigbeeError::NotData, "a network frame that is not data"),
        (
            ZigbeeError::FragmentationCode { code: 3 },
            "a fragmentation code Zigbee does not use: 3",
        ),
        (
            ZigbeeError::OverCeiling { length: 24_991, ceiling: MAX_STREAM },
            "24991 bytes, over the 24990 a fragmented transmission carries",
        ),
        (ZigbeeError::AnotherUnderWay, "a first block while another is under way"),
        (ZigbeeError::NotStarted, "a block of a transmission that did not start"),
        (ZigbeeError::AnotherCounter, "a block under another counter"),
        (ZigbeeError::BeyondCount, "a block beyond the count"),
        (ZigbeeError::NoAcknowledgement, "no acknowledgement came"),
        (ZigbeeError::AnotherAcknowledgement, "an acknowledgement of something else"),
        (ZigbeeError::SenderQuiet, "the sender went quiet"),
        (
            ZigbeeError::NotANode { path: "a\"b\n".to_string() },
            "\"a\\\"b\\n\" is not a node and endpoint",
        ),
        (ZigbeeError::NotLoopback, "a radio, not a loopback radio"),
        (ZigbeeError::NothingCompleted, "no transmission completed"),
        (refusal(), "the air is busy"),
    ];
    for (error, message) in said {
        assert_eq!(error.message(), message);
        let retryable = matches!(
            error,
            ZigbeeError::NoAcknowledgement
                | ZigbeeError::SenderQuiet
                | ZigbeeError::Radio { retryable: true, .. }
        );
        assert_eq!(error.is_retryable(), retryable, "{message}");
    }
    assert_eq!(not_a_node("\"x\"".to_string()), "\"x\" is not a node and endpoint");
}

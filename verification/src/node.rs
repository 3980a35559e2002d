//! One node on one radio: what it sends, what it takes, and what it calls
//! where a Stream came from.
use std::time::Duration;

use vstd::prelude::*;
use vstd::string::*;

use crate::error::ZigbeeError;
use crate::exchange::{
    acknowledges, answered, answered_whole, carried, heard_many, heard_one, put_out, sent,
};
use crate::frame::{decoded, frame_views, frames, Frame, Header, MAX_STREAM};
use crate::radio::{encodings, fresh, heard_view, LoopbackRadio, LoopbackView, Radio};
use crate::reassembly::{handled, whole_view, Reassembly, TransmissionView};
use crate::target::{law_a_written_node_is_named, named, node_and_endpoint};
use crate::text::{decimal, push_address, push_decimal, short_address};

verus! {

/// The span of so many whole seconds.
pub uninterp spec fn seconds(count: u64) -> Duration;

/// `Duration::from_secs`: the span of so many whole seconds. What a span is
/// stays closed; all that is claimed is that the same count gives the same
/// span.
pub assume_specification[ Duration::from_secs ](secs: u64) -> (span: Duration)
    ensures
        span == seconds(secs),
;

/// A Stream that arrived, and where from.
#[derive(Clone, Debug, PartialEq, Eq)]
pub struct Arrived {
    pub origin_uri: String,
    pub bytes: Vec<u8>,
}

/// A Stream that arrived, its text and bytes as sequences.
#[verifier::ext_equal]
pub struct ArrivedView {
    pub origin_uri: Seq<char>,
    pub bytes: Seq<u8>,
}

impl View for Arrived {
    type V = ArrivedView;

    open spec fn view(&self) -> ArrivedView {
        ArrivedView { origin_uri: self.origin_uri@, bytes: self.bytes@ }
    }
}

/// `zigbee://<radio>/<address>/<endpoint>`.
pub open spec fn origin_of(radio: Seq<char>, address: u16, endpoint: u8) -> Seq<char> {
    "zigbee://"@ + radio + "/"@ + short_address(address) + "/"@ + decimal(endpoint as nat)
}

/// Where a transmission came from: its sender and the cluster it speaks.
pub open spec fn arrival_of(radio: Seq<char>, header: Header) -> Seq<char> {
    origin_of(radio, header.source, header.endpoint) + "?cluster="@ + short_address(
        header.cluster,
    )
}

/// One node on one radio: a short address, an endpoint, and the profile and
/// cluster it speaks.
pub struct ZigbeeTransport<R> {
    radio: R,
    address: u16,
    endpoint: u8,
    profile: u16,
    cluster: u16,
    destination: u16,
    /// The APS counter: a transmission is known by it.
    counter: u8,
    timeout: Duration,
    /// Set on a loopback: the radio holds what the node took.
    loopback: bool,
}

/// A node, its fields in the open.
pub struct NodeView<R> {
    pub radio: R,
    pub address: u16,
    pub endpoint: u8,
    pub profile: u16,
    pub cluster: u16,
    pub destination: u16,
    pub counter: u8,
    pub timeout: Duration,
    pub loopback: bool,
}

impl<R> View for ZigbeeTransport<R> {
    type V = NodeView<R>;

    closed spec fn view(&self) -> NodeView<R> {
        NodeView {
            radio: self.radio,
            address: self.address,
            endpoint: self.endpoint,
            profile: self.profile,
            cluster: self.cluster,
            destination: self.destination,
            counter: self.counter,
            timeout: self.timeout,
            loopback: self.loopback,
        }
    }
}

/// The counter behind `counter`: it comes round after 255.
pub open spec fn next_count(counter: u8) -> u8 {
    ((counter + 1) % 256) as u8
}

/// Uses up a counter: gives the one that is due and moves on to the next.
pub fn use_up(counter: &mut u8) -> (due: u8)
    ensures
        due == *old(counter),
        *final(counter) == next_count(*old(counter)),
{
    let due = *counter;
    *counter = due.wrapping_add(1);
    due
}

/// The header of a node's next transmission.
pub open spec fn header_of<R>(node: NodeView<R>, destination: u16, endpoint: u8) -> Header {
    Header {
        destination,
        source: node.address,
        endpoint,
        cluster: node.cluster,
        profile: node.profile,
        counter: node.counter,
    }
}

/// A target's path as a sequence.
pub open spec fn path_view(path: Option<&str>) -> Option<Seq<char>> {
    match path {
        Some(path) => Some(path@),
        None => None,
    }
}

/// The node and endpoint that a target addresses: those its path names, or
/// the sender's own destination where it has no path or an empty one.
pub open spec fn addressed<R>(node: NodeView<R>, path: Option<Seq<char>>) -> Option<(u16, u8)> {
    match path {
        Some(path) => if path.len() > 0 {
            named(path)
        } else {
            Some((node.destination, node.endpoint))
        },
        None => Some((node.destination, node.endpoint)),
    }
}

/// Whether a reply acknowledges the transmission under `counter`: refused are
/// none at all, one that is no frame, and one that is not an acknowledgement
/// or names another transmission.
pub fn acknowledged(counter: u8, reply: Option<Vec<u8>>) -> (result: Result<(), ZigbeeError>)
    ensures
        result == acknowledges(counter, heard_view(Ok(reply))),
{
    match reply {
        None => Err(ZigbeeError::NoAcknowledgement),
        Some(bytes) => match Frame::decode(&bytes) {
            Err(error) => Err(error),
            Ok(ack) => if !ack.ack || ack.header.counter != counter {
                Err(ZigbeeError::AnotherAcknowledgement)
            } else {
                Ok(())
            },
        },
    }
}

/// A reception that is not over: what the node has under way, and whether it
/// has heard anything yet.
pub struct Listening {
    node: Reassembly,
    opened: bool,
}

/// A reception that is not over, in the open.
#[verifier::ext_equal]
pub struct ListeningView {
    pub state: Option<TransmissionView>,
    pub opened: bool,
}

impl View for Listening {
    type V = ListeningView;

    closed spec fn view(&self) -> ListeningView {
        ListeningView { state: self.node@, opened: self.opened }
    }
}

impl Listening {
    /// A reception that has heard nothing yet.
    #[must_use]
    pub fn new() -> (listening: Self)
        ensures
            listening@ == unopened(),
    {
        Listening { node: Reassembly::new(), opened: false }
    }
}

/// A reception that has heard nothing yet.
pub open spec fn unopened() -> ListeningView {
    ListeningView { state: None, opened: false }
}

/// How far a reception has come.
pub enum Reception {
    /// Nothing arrived in time.
    Quiet,
    /// A transmission arrived whole.
    Arrived(Arrived),
    /// As many frames were heard as were asked for, and nothing is whole yet.
    Underway(Listening),
}

/// How far a reception has come, in the open.
pub enum ReceptionView {
    Quiet,
    Arrived(ArrivedView),
    Underway(ListeningView),
}

impl View for Reception {
    type V = ReceptionView;

    open spec fn view(&self) -> ReceptionView {
        match self {
            Reception::Quiet => ReceptionView::Quiet,
            Reception::Arrived(arrived) => ReceptionView::Arrived(arrived@),
            Reception::Underway(listening) => ReceptionView::Underway(listening@),
        }
    }
}

/// The outcome of a reception, in the open.
pub open spec fn outcome_view(outcome: Result<Reception, ZigbeeError>) -> Result<
    ReceptionView,
    ZigbeeError,
> {
    match outcome {
        Ok(reception) => Ok(reception@),
        Err(error) => Err(error),
    }
}

/// A node with `state` under way took bytes off the air, put its
/// acknowledgements out, and so took whole what is said to have arrived, from
/// the sender that its header names.
pub open spec fn arrived_whole<R: Radio>(
    before: R,
    state: Option<TransmissionView>,
    bytes: Seq<u8>,
    after: R,
    arrived: ArrivedView,
) -> bool {
    exists|rest: Option<TransmissionView>, header: Header|
        {
            &&& #[trigger] answered_whole(
                before,
                state,
                bytes,
                after,
                rest,
                header,
                arrived.bytes,
            )
            &&& arrived.origin_uri == arrival_of(after.called(), header)
        }
}

/// What came of listening once more ends the reception: the radio failed, or
/// nothing came in time, or what came was refused, or it made a transmission
/// whole.
pub open spec fn listening_ended<R: Radio>(
    before: R,
    timeout: Duration,
    listening: ListeningView,
    heard: Result<Option<Seq<u8>>, ZigbeeError>,
    middle: R,
    after: R,
    outcome: Result<ReceptionView, ZigbeeError>,
) -> bool {
    &&& R::receives(before, timeout, middle, heard)
    &&& match heard {
        Err(error) => after == middle && outcome == Err::<ReceptionView, ZigbeeError>(error),
        Ok(None) => after == middle && outcome == if listening.opened {
            Err::<ReceptionView, ZigbeeError>(ZigbeeError::SenderQuiet)
        } else {
            Ok(ReceptionView::Quiet)
        },
        Ok(Some(bytes)) => match outcome {
            Err(error) => answered(middle, listening.state, bytes, after, Err(error)),
            Ok(ReceptionView::Arrived(arrived)) => arrived_whole(
                middle,
                listening.state,
                bytes,
                after,
                arrived,
            ),
            Ok(_) => false,
        },
    }
}

/// A reception that has heard `count` frames more.
pub open spec fn carried_on(
    listening: ListeningView,
    count: nat,
    state: Option<TransmissionView>,
) -> ListeningView {
    ListeningView { state, opened: listening.opened || count > 0 }
}

/// A reception went on over a radio: it heard `most` frames, answered each,
/// and is not over; or it heard fewer, and listening once more ended it.
pub open spec fn received<R: Radio>(
    before: R,
    timeout: Duration,
    listening: ListeningView,
    most: nat,
    after: R,
    outcome: Result<ReceptionView, ZigbeeError>,
) -> bool {
    ||| exists|state: Option<TransmissionView>|
        {
            &&& #[trigger] heard_many(before, timeout, listening.state, most, after, state)
            &&& outcome == Ok::<ReceptionView, ZigbeeError>(
                ReceptionView::Underway(carried_on(listening, most, state)),
            )
        }
    ||| exists|
        count: nat,
        last: R,
        state: Option<TransmissionView>,
        heard: Result<Option<Seq<u8>>, ZigbeeError>,
        middle: R,
    |
        {
            &&& count < most
            &&& #[trigger] heard_many(before, timeout, listening.state, count, last, state)
            &&& #[trigger] listening_ended(
                last,
                timeout,
                carried_on(listening, count, state),
                heard,
                middle,
                after,
                outcome,
            )
        }
}

impl<R: Radio> ZigbeeTransport<R> {
    /// A node at `address` on `radio`, endpoint 1, the Home Automation profile
    /// and the temperature measurement cluster, sending to the coordinator
    /// and waiting five seconds.
    #[must_use]
    pub fn new(radio: R, address: u16) -> (node: Self)
        ensures
            node@ == (NodeView {
                radio,
                address,
                endpoint: 1,
                profile: 0x0104,
                cluster: 0x0402,
                destination: 0x0000,
                counter: 0,
                timeout: seconds(5),
                loopback: false,
            }),
    {
        ZigbeeTransport {
            radio,
            address,
            endpoint: 1,
            profile: 0x0104,
            cluster: 0x0402,
            destination: 0x0000,
            counter: 0,
            timeout: Duration::from_secs(5),
            loopback: false,
        }
    }

    /// Speak `cluster` in `profile`.
    #[must_use]
    pub fn speaking(self, profile: u16, cluster: u16) -> (node: Self)
        ensures
            node@ == (NodeView { profile, cluster, ..self@ }),
    {
        ZigbeeTransport { profile, cluster, ..self }
    }

    /// Give up on an acknowledgement that does not come within `timeout`.
    #[must_use]
    pub fn timing_out_after(self, timeout: Duration) -> (node: Self)
        ensures
            node@ == (NodeView { timeout, ..self@ }),
    {
        ZigbeeTransport { timeout, ..self }
    }

    /// Count the next transmission as `counter`.
    #[must_use]
    pub fn counting_from(self, counter: u8) -> (node: Self)
        ensures
            node@ == (NodeView { counter, ..self@ }),
    {
        ZigbeeTransport { counter, ..self }
    }

    /// `zigbee://<radio>/<address>/<endpoint>`.
    #[must_use]
    pub fn origin(&self, address: u16, endpoint: u8) -> (origin: String)
        ensures
            origin@ == origin_of(self@.radio.called(), address, endpoint),
    {
        let mut origin = "zigbee://".to_owned();
        origin.append(self.radio.name());
        origin.append("/");
        push_address(&mut origin, address);
        origin.append("/");
        push_decimal(&mut origin, endpoint as u64);
        origin
    }

    /// Where a transmission came from: its sender and the cluster it speaks.
    #[must_use]
    pub fn arrival(&self, header: &Header) -> (arrival: String)
        ensures
            arrival@ == arrival_of(self@.radio.called(), *header),
    {
        let mut arrival = self.origin(header.source, header.endpoint);
        arrival.append("?cluster=");
        push_address(&mut arrival, header.cluster);
        arrival
    }

    /// The counter of the next transmission, used up.
    fn next_counter(&mut self) -> (counter: u8)
        ensures
            counter == old(self)@.counter,
            final(self)@ == (NodeView { counter: next_count(old(self)@.counter), ..old(self)@ }),
    {
        use_up(&mut self.counter)
    }

    /// The node and endpoint that this node sends to unless told otherwise.
    #[must_use]
    pub fn own_destination(&self) -> (node: (u16, u8))
        ensures
            node == (self@.destination, self@.endpoint),
    {
        (self.destination, self.endpoint)
    }

    /// Puts frames on the air in order, up to one that the radio refuses.
    fn put_on_air(&mut self, frames: &Vec<Frame>) -> (result: Result<(), ZigbeeError>)
        ensures
            put_out(
                old(self)@.radio,
                encodings(frame_views(frames@)),
                final(self)@.radio,
                result,
            ),
            final(self)@ == (NodeView { radio: final(self)@.radio, ..old(self)@ }),
    {
        let ghost all = encodings(frame_views(frames@));
        let mut index: usize = 0;
        while index < frames.len()
            invariant
                index <= frames@.len(),
                all == encodings(frame_views(frames@)),
                carried(old(self)@.radio, all.take(index as int), self@.radio),
                self@ == (NodeView { radio: self@.radio, ..old(self)@ }),
            decreases frames@.len() - index,
        {
            let ghost middle = self.radio;
            let bytes = frames[index].encode();
            assert(bytes@ == all[index as int]);
            let result = self.radio.transmit(bytes.as_slice());
            assert(R::transmits(middle, bytes@, self.radio, result));
            match result {
                Ok(done) => {
                    assert(done == ());
                },
                Err(error) => {
                    return Err(error);
                },
            }
            proof {
                let upto = all.take(index + 1);
                assert(upto.drop_last() =~= all.take(index as int));
                assert(carried(old(self)@.radio, upto.drop_last(), middle));
                assert(upto.last() == bytes@);
            }
            index = index + 1;
        }
        assert(all.take(index as int) =~= all);
        Ok(())
    }

    /// Send `bytes` to `destination` as one transmission and wait for its
    /// acknowledgement. Refused are more than a transmission carries, a frame
    /// that the radio refuses, and an acknowledgement that does not come or
    /// names another transmission. A counter is used up either way.
    pub fn send_stream(&mut self, destination: u16, endpoint: u8, bytes: &[u8]) -> (result: Result<
        (),
        ZigbeeError,
    >)
        ensures
            sent(
                old(self)@.radio,
                header_of(old(self)@, destination, endpoint),
                bytes@,
                old(self)@.timeout,
                final(self)@.radio,
                result,
            ),
            final(self)@ == (NodeView {
                radio: final(self)@.radio,
                counter: next_count(old(self)@.counter),
                ..old(self)@
            }),
    {
        let header = Header {
            destination,
            source: self.address,
            endpoint,
            cluster: self.cluster,
            profile: self.profile,
            counter: self.next_counter(),
        };
        let frames = match frames(&header, bytes) {
            Ok(frames) => frames,
            Err(error) => {
                return Err(error);
            },
        };
        if let Err(error) = self.put_on_air(&frames) {
            return Err(error);
        }
        let ghost middle = self.radio;
        let timeout = self.timeout;
        let reply = match self.radio.receive(timeout) {
            Ok(reply) => reply,
            Err(error) => {
                assert(R::receives(middle, timeout, self.radio, Err(error)));
                return Err(error);
            },
        };
        assert(R::receives(middle, timeout, self.radio, heard_view(Ok(reply))));
        acknowledged(header.counter, reply)
    }

    /// Takes bytes off the air into `node` and puts its acknowledgements out:
    /// what it took whole, or why bytes or acknowledgement were refused. Bytes
    /// that are refused leave `node` as it was.
    pub fn take_in(&mut self, node: &mut Reassembly, bytes: &[u8]) -> (result: Result<
        Option<(Header, Vec<u8>)>,
        ZigbeeError,
    >)
        ensures
            answered(
                old(self)@.radio,
                old(node)@,
                bytes@,
                final(self)@.radio,
                match result {
                    Ok(whole) => Ok((final(node)@, whole_view(whole))),
                    Err(error) => Err(error),
                },
            ),
            final(node)@ == match decoded(bytes@) {
                Ok(frame) => match handled(old(node)@, frame) {
                    Ok((rest, _)) => rest,
                    Err(_) => old(node)@,
                },
                Err(_) => old(node)@,
            },
            final(self)@ == (NodeView { radio: final(self)@.radio, ..old(self)@ }),
    {
        let frame = match Frame::decode(bytes) {
            Ok(frame) => frame,
            Err(error) => {
                return Err(error);
            },
        };
        let response = match node.handle(&frame) {
            Ok(response) => response,
            Err(error) => {
                return Err(error);
            },
        };
        match self.put_on_air(&response.acks) {
            Ok(done) => {
                assert(done == ());
                Ok(response.complete)
            },
            Err(error) => Err(error),
        }
    }

    /// Goes on with a reception, acknowledging as it comes, until a
    /// transmission is whole, nothing came in time, something was refused, or
    /// `most` frames were heard.
    pub fn receive_more(&mut self, listening: Listening, most: usize) -> (outcome: Result<
        Reception,
        ZigbeeError,
    >)
        ensures
            received(
                old(self)@.radio,
                old(self)@.timeout,
                listening@,
                most as nat,
                final(self)@.radio,
                outcome_view(outcome),
            ),
            final(self)@ == (NodeView { radio: final(self)@.radio, ..old(self)@ }),
    {
        let ghost start = listening@;
        let timeout = self.timeout;
        let mut node = listening.node;
        let mut opened = listening.opened;
        let mut count: usize = 0;
        while count < most
            invariant
                count <= most,
                timeout == old(self)@.timeout,
                start == listening@,
                heard_many(
                    old(self)@.radio,
                    timeout,
                    start.state,
                    count as nat,
                    self@.radio,
                    node@,
                ),
                (ListeningView { state: node@, opened }) == carried_on(start, count as nat, node@),
                self@ == (NodeView { radio: self@.radio, ..old(self)@ }),
            decreases most - count,
        {
            let ghost last = self.radio;
            let ghost state = node@;
            assert(heard_many(
                old(self)@.radio,
                timeout,
                start.state,
                count as nat,
                last,
                state,
            ));
            let heard = self.radio.receive(timeout);
            let ghost middle = self.radio;
            let ghost hearing = heard_view(heard);
            let bytes = match heard {
                Err(error) => {
                    assert(listening_ended(
                        last,
                        timeout,
                        carried_on(start, count as nat, state),
                        hearing,
                        middle,
                        self@.radio,
                        Err(error),
                    ));
                    return Err(error);
                },
                Ok(None) => {
                    if opened {
                        assert(listening_ended(
                            last,
                            timeout,
                            carried_on(start, count as nat, state),
                            hearing,
                            middle,
                            self@.radio,
                            Err(ZigbeeError::SenderQuiet),
                        ));
                        return Err(ZigbeeError::SenderQuiet);
                    }
                    assert(listening_ended(
                        last,
                        timeout,
                        carried_on(start, count as nat, state),
                        hearing,
                        middle,
                        self@.radio,
                        Ok(ReceptionView::Quiet),
                    ));
                    return Ok(Reception::Quiet);
                },
                Ok(Some(bytes)) => bytes,
            };
            opened = true;
            match self.take_in(&mut node, &bytes) {
                Err(error) => {
                    assert(listening_ended(
                        last,
                        timeout,
                        carried_on(start, count as nat, state),
                        hearing,
                        middle,
                        self@.radio,
                        Err(error),
                    ));
                    return Err(error);
                },
                Ok(Some((header, payload))) => {
                    let arrived = Arrived { origin_uri: self.arrival(&header), bytes: payload };
                    assert(answered_whole(
                        middle,
                        state,
                        bytes@,
                        self@.radio,
                        node@,
                        header,
                        arrived@.bytes,
                    ));
                    assert(arrived_whole(middle, state, bytes@, self@.radio, arrived@));
                    assert(listening_ended(
                        last,
                        timeout,
                        carried_on(start, count as nat, state),
                        hearing,
                        middle,
                        self@.radio,
                        Ok(ReceptionView::Arrived(arrived@)),
                    ));
                    return Ok(Reception::Arrived(arrived));
                },
                Ok(None) => {
                    assert(answered(middle, state, bytes@, self@.radio, Ok((node@, None))));
                    assert(heard_one(last, timeout, state, self@.radio, node@));
                },
            }
            count = count + 1;
        }
        Ok(Reception::Underway(Listening { node, opened }))
    }

    /// Take one transmission sent to this node, acknowledging as it comes,
    /// hearing no more than `most` frames for it: what arrived, that nothing
    /// arrived in time, or the reception to go on with.
    pub fn receive_one(&mut self, most: usize) -> (outcome: Result<Reception, ZigbeeError>)
        ensures
            received(
                old(self)@.radio,
                old(self)@.timeout,
                unopened(),
                most as nat,
                final(self)@.radio,
                outcome_view(outcome),
            ),
            final(self)@ == (NodeView { radio: final(self)@.radio, ..old(self)@ }),
    {
        self.receive_more(Listening::new(), most)
    }

    /// The node and endpoint that a target addresses: those its path names, or
    /// the node's own destination where the target has no path or an empty
    /// one. A path that names none is refused.
    pub fn addressee(&self, path: Option<&str>) -> (result: Result<(u16, u8), ZigbeeError>)
        ensures
            match result {
                Ok(node) => addressed(self@, path_view(path)) == Some(node),
                Err(error) => {
                    &&& addressed(self@, path_view(path)) is None
                    &&& error matches ZigbeeError::NotANode { path: refused }
                    &&& Some(refused@) == path_view(path)
                },
            },
    {
        match path {
            Some(path) => if path.is_empty() {
                Ok(self.own_destination())
            } else {
                node_and_endpoint(path)
            },
            None => Ok(self.own_destination()),
        }
    }

    /// Send `bytes` as one transmission to the node and endpoint that a
    /// target's path names, or to the node's own destination where the target
    /// has no path or an empty one. A path that names none is refused, and
    /// nothing is sent.
    pub fn send(&mut self, path: Option<&str>, bytes: &[u8]) -> (result: Result<(), ZigbeeError>)
        ensures
            match addressed(old(self)@, path_view(path)) {
                Some((destination, endpoint)) => {
                    &&& sent(
                        old(self)@.radio,
                        header_of(old(self)@, destination, endpoint),
                        bytes@,
                        old(self)@.timeout,
                        final(self)@.radio,
                        result,
                    )
                    &&& final(self)@ == (NodeView {
                        radio: final(self)@.radio,
                        counter: next_count(old(self)@.counter),
                        ..old(self)@
                    })
                },
                None => {
                    &&& result matches Err(ZigbeeError::NotANode { path: refused })
                    &&& Some(refused@) == path_view(path)
                    &&& final(self)@ == old(self)@
                },
            },
    {
        let (destination, endpoint) = match self.addressee(path) {
            Ok(node) => node,
            Err(error) => {
                return Err(error);
            },
        };
        self.send_stream(destination, endpoint, bytes)
    }

    /// The most that one transmission carries: one byte counts the blocks and
    /// one block carries 98 bytes.
    #[must_use]
    pub fn ceiling(&self) -> (ceiling: Option<usize>)
        ensures
            ceiling == Some(MAX_STREAM),
    {
        Some(MAX_STREAM)
    }

    /// Where the far end of a loopback is, refusing any other radio.
    pub fn far_end(&self) -> (result: Result<String, ZigbeeError>)
        ensures
            match result {
                Ok(address) => self@.loopback && address@ == origin_of(
                    self@.radio.called(),
                    self@.destination,
                    self@.endpoint,
                ),
                Err(error) => !self@.loopback && error == ZigbeeError::NotLoopback,
            },
    {
        if self.loopback {
            Ok(self.origin(self.destination, self.endpoint))
        } else {
            Err(ZigbeeError::NotLoopback)
        }
    }
}

impl ZigbeeTransport<LoopbackRadio> {
    /// Both ends on one in-process radio: a node at `0x1a2b` sending to the
    /// coordinator, and the coordinator taking and acknowledging, with
    /// `timeout` on the acknowledgement.
    #[must_use]
    pub fn loopback(timeout: Duration) -> (node: Self)
        ensures
            node@.radio@ == fresh(),
            node@ == (NodeView {
                radio: node@.radio,
                address: 0x1a2b,
                endpoint: 1,
                profile: 0x0104,
                cluster: 0x0402,
                destination: 0x0000,
                counter: 0,
                timeout,
                loopback: true,
            }),
    {
        let node = Self::new(LoopbackRadio::new(), 0x1a2b).timing_out_after(timeout);
        ZigbeeTransport { loopback: true, ..node }
    }

    /// The next transmission that the far end took whole.
    pub fn take_arrived(&mut self) -> (result: Result<Arrived, ZigbeeError>)
        ensures
            match result {
                Ok(arrived) => {
                    &&& old(self)@.radio@.arrived.len() > 0
                    &&& arrived@ == arrival_view(old(self)@.radio@.arrived[0])
                    &&& final(self)@.radio@ == (LoopbackView {
                        arrived: old(self)@.radio@.arrived.skip(1),
                        ..old(self)@.radio@
                    })
                },
                Err(error) => {
                    &&& old(self)@.radio@.arrived.len() == 0
                    &&& error == ZigbeeError::NothingCompleted
                    &&& final(self)@.radio@ == old(self)@.radio@
                },
            },
            final(self)@ == (NodeView { radio: final(self)@.radio, ..old(self)@ }),
    {
        match self.radio.take() {
            Some((header, bytes)) => Ok(Arrived { origin_uri: self.arrival(&header), bytes }),
            None => Err(ZigbeeError::NothingCompleted),
        }
    }
}

/// A transmission that a loopback's far end took whole, as it arrives.
pub open spec fn arrival_view(whole: (Header, Seq<u8>)) -> ArrivedView {
    ArrivedView { origin_uri: arrival_of("loopback"@, whole.0), bytes: whole.1 }
}

/// An origin ends in a path that names its node and endpoint: what was called
/// after a node can be sent to.
pub proof fn law_an_origin_names_its_node(radio: Seq<char>, address: u16, endpoint: u8)
    ensures
        ({
            let path = short_address(address) + "/"@ + decimal(endpoint as nat);
            &&& origin_of(radio, address, endpoint) == "zigbee://"@ + radio + "/"@ + path
            &&& named(path) == Some((address, endpoint))
        }),
{
    reveal_strlit("/");
    assert("/"@ =~= seq!['/']);
    law_a_written_node_is_named(address, endpoint);
    let path = short_address(address) + "/"@ + decimal(endpoint as nat);
    assert(origin_of(radio, address, endpoint) =~= "zigbee://"@ + radio + "/"@ + path);
}

} // verus!

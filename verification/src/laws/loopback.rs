//! The loopback: what goes in at one end and what comes out of the other.
use std::time::Duration;

use vstd::prelude::*;

use crate::error::ZigbeeError;
use crate::exchange::{acknowledges, carried, put_out, sent};
use crate::frame::{encoded, framed, Frame, Header};
use crate::laws::naming::{
    address_text, arrival_text, endpoint_text, law_numbers_are_written_digit_by_digit,
};
use crate::laws::sending::{only_counted_on, unchanged_but_for_radio_and_counter};
use crate::loopback::{idle, law_an_idle_loopback_takes_a_stream, rounded};
use crate::node::{arrival_view, header_of, Arrived, ArrivedView, ZigbeeTransport};
use crate::radio::{encodings, taken_in, LoopbackRadio, LoopbackView, Radio};
use crate::reassembly::{Reassembly, Response};

verus! {

/// A new loopback radio has nothing under way, nothing to say and nothing
/// taken.
pub proof fn law_a_new_loopback_is_empty(made: LoopbackRadio)
    requires
        call_ensures(LoopbackRadio::new, (), made) || call_ensures(
            <LoopbackRadio as Default>::default,
            (),
            made,
        ),
    ensures
        made@.node is None,
        made@.to_sender.len() == 0,
        made@.arrived.len() == 0,
{
}

/// A loopback radio is called `loopback`.
pub proof fn law_a_loopback_has_its_name(radio: LoopbackRadio, name: &str)
    requires
        call_ensures(<LoopbackRadio as Radio>::name, (&radio,), name),
    ensures
        name@ == "loopback"@,
        radio.called() == "loopback"@,
{
}

/// What is put on the air of a loopback is read and handed to the node in it:
/// what cannot be read, or is refused, is refused for that reason and changes
/// nothing; else the node is where the frame takes it, what it has to say is
/// queued for the sender as it is written, behind what was queued before, and
/// what it took whole is kept behind what was kept before.
pub proof fn law_a_loopback_hands_frames_to_its_node(
    radio: &mut LoopbackRadio,
    bytes: &[u8],
    result: Result<(), ZigbeeError>,
    read: Result<Frame, ZigbeeError>,
    twin: &mut Reassembly,
    answer: Result<Response, ZigbeeError>,
    said: Seq<Vec<u8>>,
)
    requires
        call_ensures(<LoopbackRadio as Radio>::transmit, (radio, bytes), result),
        call_ensures(Frame::decode, (bytes,), read),
        twin@ == radio@.node,
        read matches Ok(frame) ==> call_ensures(Reassembly::handle, (twin, &frame), answer),
        answer matches Ok(response) ==> said.len() == response.acks@.len() && forall|i: int|
            0 <= i < said.len() ==> call_ensures(
                Frame::encode,
                (&response.acks@[i],),
                #[trigger] said[i],
            ),
    ensures
        match (read, answer) {
            (Err(error), _) | (Ok(_), Err(error)) => {
                &&& result matches Err(why) && why == error
                &&& final(radio)@ == old(radio)@
            },
            (Ok(_), Ok(response)) => {
                &&& result is Ok
                &&& final(radio)@.node == final(twin)@
                &&& final(radio)@.to_sender == old(radio)@.to_sender + said.map_values(
                    |bytes: Vec<u8>| bytes@,
                )
                &&& match response.complete {
                    Some((header, payload)) => final(radio)@.arrived == old(radio)@.arrived.push(
                        (header, payload@),
                    ),
                    None => final(radio)@.arrived == old(radio)@.arrived,
                }
            },
        },
{
    if let Ok(frame) = read {
        if let Ok(response) = answer {
            let acks = encodings(response@.acks);
            let written = said.map_values(|bytes: Vec<u8>| bytes@);
            assert forall|i: int| 0 <= i < acks.len() implies acks[i] == written[i] by {
                assert(said[i]@ == encoded(response.acks@[i]@));
            }
            assert(acks =~= written);
        }
    }
}

/// The sender hears what is queued for it, the oldest first, and nothing where
/// nothing is, however long it listens; all else stays.
pub proof fn law_a_loopback_is_heard_in_order(
    radio: &mut LoopbackRadio,
    timeout: Duration,
    heard: Result<Option<Vec<u8>>, ZigbeeError>,
)
    requires
        call_ensures(<LoopbackRadio as Radio>::receive, (radio, timeout), heard),
    ensures
        final(radio)@.node == old(radio)@.node,
        final(radio)@.arrived == old(radio)@.arrived,
        match heard {
            Ok(Some(bytes)) => old(radio)@.to_sender == seq![bytes@] + final(radio)@.to_sender,
            Ok(None) => old(radio)@.to_sender.len() == 0 && final(radio)@.to_sender.len() == 0,
            Err(_) => false,
        },
{
    let queue = old(radio)@.to_sender;
    if queue.len() > 0 {
        assert(queue =~= seq![queue[0]] + queue.skip(1));
    }
}

/// What the node took whole is handed out, the oldest first, and nothing where
/// nothing is left; all else stays.
pub proof fn law_a_loopback_is_emptied_in_order(
    radio: &mut LoopbackRadio,
    whole: Option<(Header, Vec<u8>)>,
)
    requires
        call_ensures(LoopbackRadio::take, (radio,), whole),
    ensures
        final(radio)@.node == old(radio)@.node,
        final(radio)@.to_sender == old(radio)@.to_sender,
        match whole {
            Some((header, bytes)) => old(radio)@.arrived == seq![(header, bytes@)]
                + final(radio)@.arrived,
            None => old(radio)@.arrived.len() == 0 && final(radio)@.arrived.len() == 0,
        },
{
    let queue = old(radio)@.arrived;
    if queue.len() > 0 {
        assert(queue =~= seq![queue[0]] + queue.skip(1));
    }
}

/// What comes out of the far end is the oldest transmission that it took
/// whole: its bytes, and where it came from by its header.
pub proof fn law_what_arrived_comes_out_in_order(
    node: &mut ZigbeeTransport<LoopbackRadio>,
    result: Result<Arrived, ZigbeeError>,
)
    requires
        call_ensures(ZigbeeTransport::<LoopbackRadio>::take_arrived, (node,), result),
    ensures
        match result {
            Ok(arrived) => exists|header: Header|
                {
                    &&& old(node)@.radio@.arrived == seq![(header, arrived.bytes@)]
                        + final(node)@.radio@.arrived
                    &&& #[trigger] arrival_text("loopback"@, header) == arrived.origin_uri@
                },
            Err(error) => {
                &&& error == ZigbeeError::NothingCompleted
                &&& old(node)@.radio@.arrived.len() == 0
                &&& final(node)@.radio@.arrived.len() == 0
            },
        },
        final(node)@.radio@.node == old(node)@.radio@.node,
        final(node)@.radio@.to_sender == old(node)@.radio@.to_sender,
        final(node)@.counter == old(node)@.counter,
        unchanged_but_for_radio_and_counter(old(node)@, final(node)@),
{
    let queue = old(node)@.radio@.arrived;
    if queue.len() > 0 {
        let (header, bytes) = queue[0];
        assert(queue =~= seq![queue[0]] + queue.skip(1));
        law_numbers_are_written_digit_by_digit(header.source, header.endpoint);
        law_numbers_are_written_digit_by_digit(header.cluster, header.endpoint);
        assert(arrival_text("loopback"@, header) == result->Ok_0.origin_uri@);
    }
}

/// A Stream of up to 24990 bytes sent over an idle loopback goes well, comes
/// to stand behind what arrived before under the names that it was sent with,
/// and leaves the loopback idle; a longer one is refused and changes nothing
/// but the counter.
pub proof fn law_a_loopback_takes_what_is_sent(
    node: &mut ZigbeeTransport<LoopbackRadio>,
    destination: u16,
    endpoint: u8,
    bytes: &[u8],
    result: Result<(), ZigbeeError>,
)
    requires
        call_ensures(
            ZigbeeTransport::<LoopbackRadio>::send_stream,
            (node, destination, endpoint, bytes),
            result,
        ),
        node@.radio@.node is None,
        node@.radio@.to_sender.len() == 0,
    ensures
        final(node)@.radio@.node is None,
        final(node)@.radio@.to_sender.len() == 0,
        bytes@.len() <= 24990 ==> {
            &&& result is Ok
            &&& final(node)@.radio@.arrived == old(node)@.radio@.arrived.push(
                (
                    Header {
                        destination,
                        source: old(node)@.address,
                        endpoint,
                        cluster: old(node)@.cluster,
                        profile: old(node)@.profile,
                        counter: old(node)@.counter,
                    },
                    bytes@,
                ),
            )
        },
        bytes@.len() > 24990 ==> {
            &&& result matches Err(ZigbeeError::OverCeiling { length, ceiling })
            &&& length == bytes@.len() && ceiling == 24990
            &&& final(node)@.radio@.arrived == old(node)@.radio@.arrived
        },
        only_counted_on(old(node)@, final(node)@),
{
    assert(crate::frame::MAX_STREAM == 24990) by (nonlinear_arith);
    assert(bytes.len() == bytes@.len());
    law_an_idle_loopback_takes_a_stream(
        node@.radio,
        Header {
            destination,
            source: node@.address,
            endpoint,
            cluster: node@.cluster,
            profile: node@.profile,
            counter: node@.counter,
        },
        bytes@,
        node@.timeout,
        final(node)@.radio,
        result,
    );
}

/// A round over an idle loopback with nothing left to take gives back what went
/// in, from the node's own address on its own endpoint and cluster, and leaves
/// the loopback idle with nothing to take; over 24990 bytes is refused; and
/// over a radio that is no loopback nothing is done.
pub proof fn law_a_round_gives_back_what_went_in(
    node: &mut ZigbeeTransport<LoopbackRadio>,
    payload: &[u8],
    result: Result<Arrived, ZigbeeError>,
)
    requires
        call_ensures(ZigbeeTransport::<LoopbackRadio>::round, (node, payload), result),
        node@.radio@.node is None,
        node@.radio@.to_sender.len() == 0,
        node@.radio@.arrived.len() == 0,
    ensures
        !old(node)@.loopback ==> {
            &&& result matches Err(error) && error == ZigbeeError::NotLoopback
            &&& final(node)@ == old(node)@
        },
        old(node)@.loopback ==> only_counted_on(old(node)@, final(node)@),
        old(node)@.loopback && payload@.len() <= 24990 ==> {
            &&& result matches Ok(arrived)
            &&& arrived.bytes@ == payload@
            &&& arrived.origin_uri@ == "zigbee://"@ + "loopback"@ + "/"@ + address_text(
                old(node)@.address,
            ) + "/"@ + endpoint_text(old(node)@.endpoint) + "?cluster="@ + address_text(
                old(node)@.cluster,
            )
        },
        old(node)@.loopback && payload@.len() > 24990 ==> {
            &&& result matches Err(ZigbeeError::OverCeiling { length, ceiling })
            &&& length == payload@.len() && ceiling == 24990
        },
        final(node)@.radio@.node is None,
        final(node)@.radio@.to_sender.len() == 0,
        final(node)@.radio@.arrived.len() == 0,
{
    assert(crate::frame::MAX_STREAM == 24990) by (nonlinear_arith);
    assert(payload.len() == payload@.len());
    law_numbers_are_written_digit_by_digit(node@.address, node@.endpoint);
    law_numbers_are_written_digit_by_digit(node@.cluster, node@.endpoint);
    assert(idle(node@.radio@));
}

/// What a run of frames makes of a loopback, up to the first that is refused.
spec fn through(state: LoopbackView, frames: Seq<Seq<u8>>) -> (
    LoopbackView,
    Result<(), ZigbeeError>,
)
    decreases frames.len(),
{
    if frames.len() == 0 {
        (state, Ok(()))
    } else {
        match through(state, frames.drop_last()) {
            (middle, Ok(_)) => taken_in(middle, frames.last()),
            (middle, Err(error)) => (middle, Err(error)),
        }
    }
}

proof fn lemma_carried_goes_through(
    before: LoopbackRadio,
    frames: Seq<Seq<u8>>,
    after: LoopbackRadio,
)
    requires
        carried(before, frames, after),
    ensures
        through(before@, frames) == (after@, Ok::<(), ZigbeeError>(())),
    decreases frames.len(),
{
    if frames.len() > 0 {
        let middle = choose|middle: LoopbackRadio|
            {
                &&& carried(before, frames.drop_last(), middle)
                &&& #[trigger] LoopbackRadio::transmits(middle, frames.last(), after, Ok(()))
            };
        lemma_carried_goes_through(before, frames.drop_last(), middle);
    }
}

proof fn lemma_refused_stays_refused(state: LoopbackView, frames: Seq<Seq<u8>>, count: int)
    requires
        0 <= count <= frames.len(),
        through(state, frames.take(count)).1 is Err,
    ensures
        through(state, frames) == through(state, frames.take(count)),
    decreases frames.len() - count,
{
    if count == frames.len() {
        assert(frames.take(count) =~= frames);
    } else {
        assert(frames.take(count + 1).drop_last() =~= frames.take(count));
        lemma_refused_stays_refused(state, frames, count + 1);
    }
}

proof fn lemma_put_out_goes_through(
    before: LoopbackRadio,
    frames: Seq<Seq<u8>>,
    after: LoopbackRadio,
    result: Result<(), ZigbeeError>,
)
    requires
        put_out(before, frames, after, result),
    ensures
        through(before@, frames) == (after@, result),
{
    match result {
        Ok(done) => {
            assert(done == ());
            lemma_carried_goes_through(before, frames, after);
        },
        Err(error) => {
            let (count, middle) = choose|count: int, middle: LoopbackRadio|
                {
                    &&& 0 <= count < frames.len()
                    &&& #[trigger] carried(before, frames.take(count), middle)
                    &&& LoopbackRadio::transmits(middle, frames[count], after, Err(error))
                };
            lemma_carried_goes_through(before, frames.take(count), middle);
            let upto = frames.take(count + 1);
            assert(upto.drop_last() =~= frames.take(count));
            lemma_refused_stays_refused(before@, frames, count + 1);
        },
    }
}

/// Sending the same over loopbacks in the same state comes to the same.
proof fn lemma_sent_is_one(
    before: LoopbackRadio,
    other: LoopbackRadio,
    header: Header,
    bytes: Seq<u8>,
    timeout: Duration,
    after: LoopbackRadio,
    another: LoopbackRadio,
    result: Result<(), ZigbeeError>,
    same: Result<(), ZigbeeError>,
)
    requires
        before@ == other@,
        sent(before, header, bytes, timeout, after, result),
        sent(other, header, bytes, timeout, another, same),
    ensures
        after@ == another@,
        result == same,
{
    let out = encodings(framed(header, bytes));
    if bytes.len() <= crate::frame::MAX_STREAM {
        if result is Err && put_out(before, out, after, result) {
            lemma_put_out_goes_through(before, out, after, result);
        } else {
            let (middle, reply) = choose|
                middle: LoopbackRadio,
                reply: Result<Option<Seq<u8>>, ZigbeeError>,
            |
                {
                    &&& carried(before, out, middle)
                    &&& #[trigger] LoopbackRadio::receives(middle, timeout, after, reply)
                    &&& result == acknowledges(header.counter, reply)
                };
            lemma_carried_goes_through(before, out, middle);
        }
        if same is Err && put_out(other, out, another, same) {
            lemma_put_out_goes_through(other, out, another, same);
        } else {
            let (middle, reply) = choose|
                middle: LoopbackRadio,
                reply: Result<Option<Seq<u8>>, ZigbeeError>,
            |
                {
                    &&& carried(other, out, middle)
                    &&& #[trigger] LoopbackRadio::receives(middle, timeout, another, reply)
                    &&& same == acknowledges(header.counter, reply)
                };
            lemma_carried_goes_through(other, out, middle);
        }
    }
}

/// A round is a sending to the node's own destination and, where that went
/// well, a taking of what arrived: whatever state the loopback is in, it comes
/// to the same as the two by themselves.
pub proof fn law_a_round_is_a_sending_and_a_taking(
    node: &mut ZigbeeTransport<LoopbackRadio>,
    payload: &[u8],
    result: Result<Arrived, ZigbeeError>,
    twin: &mut ZigbeeTransport<LoopbackRadio>,
    sending: Result<(), ZigbeeError>,
    taker: &mut ZigbeeTransport<LoopbackRadio>,
    taking: Result<Arrived, ZigbeeError>,
)
    requires
        call_ensures(ZigbeeTransport::<LoopbackRadio>::round, (node, payload), result),
        node@.loopback,
        *twin == *node,
        call_ensures(
            ZigbeeTransport::<LoopbackRadio>::send_stream,
            (twin, node@.destination, node@.endpoint, payload),
            sending,
        ),
        *taker == *final(twin),
        call_ensures(ZigbeeTransport::<LoopbackRadio>::take_arrived, (taker,), taking),
    ensures
        only_counted_on(old(node)@, final(node)@),
        match sending {
            Err(error) => {
                &&& result matches Err(why) && why == error
                &&& final(node)@.radio@ == final(twin)@.radio@
            },
            Ok(_) => {
                &&& final(node)@.radio@ == final(taker)@.radio@
                &&& match (result, taking) {
                    (Ok(arrived), Ok(taken)) => {
                        &&& arrived.origin_uri@ == taken.origin_uri@
                        &&& arrived.bytes@ == taken.bytes@
                    },
                    (Err(error), Err(why)) => error == why,
                    _ => false,
                }
            },
        },
{
    let header = header_of(node@, node@.destination, node@.endpoint);
    let came: Result<ArrivedView, ZigbeeError> = match result {
        Ok(arrived) => Ok(arrived@),
        Err(error) => Err(error),
    };
    assert(rounded(node@.radio, header, payload@, node@.timeout, final(node)@.radio, came));
    let (middle, first) = choose|middle: LoopbackRadio, first: Result<(), ZigbeeError>|
        {
            &&& #[trigger] sent(node@.radio, header, payload@, node@.timeout, middle, first)
            &&& match first {
                Err(error) => final(node)@.radio@ == middle@ && came == Err::<
                    ArrivedView,
                    ZigbeeError,
                >(error),
                Ok(_) => if middle@.arrived.len() == 0 {
                    &&& final(node)@.radio@ == middle@
                    &&& came == Err::<ArrivedView, ZigbeeError>(ZigbeeError::NothingCompleted)
                } else {
                    &&& final(node)@.radio@ == (LoopbackView {
                        arrived: middle@.arrived.skip(1),
                        ..middle@
                    })
                    &&& came == Ok::<ArrivedView, ZigbeeError>(arrival_view(middle@.arrived[0]))
                },
            }
        };
    lemma_sent_is_one(
        node@.radio,
        twin@.radio,
        header,
        payload@,
        node@.timeout,
        middle,
        final(twin)@.radio,
        first,
        sending,
    );
}

} // verus!

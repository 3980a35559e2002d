//! Sending, frame by frame and byte by byte.
use std::time::Duration;

use vstd::prelude::*;

use crate::error::ZigbeeError;
use crate::exchange::{acknowledges, carried, put_out, sent};
use crate::frame::{decoded, encoded, framed, Fragment, Header};
use crate::laws::frames::{
    laid_out, lemma_control_parts, lemma_encoded_is_laid_out, lemma_framed_is_cut, names_stand,
};
use crate::laws::naming::{address_text, endpoint_text, law_numbers_are_written_digit_by_digit};
use crate::node::{acknowledged, use_up, NodeView, ZigbeeTransport};
use crate::radio::{encodings, heard_view, Radio};
use crate::target::law_a_written_node_is_named;

verus! {

/// What can be told of a radio from outside: what it has put on the air, how
/// many frames more it takes, and what it will have heard each time that it
/// is listened to.
#[verifier::reject_recursive_types(R)]
pub struct Air<R> {
    pub out: spec_fn(R) -> Seq<Seq<u8>>,
    pub room: spec_fn(R) -> nat,
    pub ear: spec_fn(R) -> Seq<Result<Option<Seq<u8>>, ZigbeeError>>,
}

/// A radio keeps to this: a frame that it takes is put on the air behind those
/// before it and takes up room, one that there is no room for is refused and
/// changes nothing, and listening for `timeout` hears the next thing that is
/// to be heard.
pub open spec fn keeps<R: Radio>(air: Air<R>, refusal: ZigbeeError, timeout: Duration) -> bool {
    &&& forall|before: R, frame: Seq<u8>, after: R, result: Result<(), ZigbeeError>|
        #[trigger] R::transmits(before, frame, after, result) ==> {
            &&& (air.ear)(after) == (air.ear)(before)
            &&& if (air.room)(before) > 0 {
                &&& result == Ok::<(), ZigbeeError>(())
                &&& (air.out)(after) == (air.out)(before).push(frame)
                &&& (air.room)(after) == (air.room)(before) - 1
            } else {
                &&& result == Err::<(), ZigbeeError>(refusal)
                &&& (air.out)(after) == (air.out)(before)
                &&& (air.room)(after) == (air.room)(before)
            }
        }
    &&& forall|before: R, after: R, heard: Result<Option<Seq<u8>>, ZigbeeError>|
        #[trigger] R::receives(before, timeout, after, heard) && (air.ear)(before).len() > 0 ==> {
            &&& heard == (air.ear)(before)[0]
            &&& (air.ear)(after) == (air.ear)(before).skip(1)
            &&& (air.out)(after) == (air.out)(before)
            &&& (air.room)(after) == (air.room)(before)
        }
}

/// Frames that a radio took are on the air in order.
pub proof fn lemma_carried_on_air<R: Radio>(
    air: Air<R>,
    refusal: ZigbeeError,
    timeout: Duration,
    before: R,
    frames: Seq<Seq<u8>>,
    after: R,
)
    requires
        keeps(air, refusal, timeout),
        carried(before, frames, after),
    ensures
        frames.len() <= (air.room)(before),
        (air.out)(after) == (air.out)(before) + frames,
        (air.room)(after) == (air.room)(before) - frames.len(),
        (air.ear)(after) == (air.ear)(before),
    decreases frames.len(),
{
    if frames.len() == 0 {
        assert((air.out)(before) + frames =~= (air.out)(before));
    } else {
        let middle = choose|middle: R|
            {
                &&& carried(before, frames.drop_last(), middle)
                &&& #[trigger] R::transmits(middle, frames.last(), after, Ok(()))
            };
        lemma_carried_on_air(air, refusal, timeout, before, frames.drop_last(), middle);
        assert((air.out)(middle).push(frames.last()) =~= (air.out)(before) + frames);
    }
}

/// Frames that a radio was handed are on the air in order as far as there was
/// room for them.
pub proof fn lemma_put_on_air<R: Radio>(
    air: Air<R>,
    refusal: ZigbeeError,
    timeout: Duration,
    before: R,
    frames: Seq<Seq<u8>>,
    after: R,
    result: Result<(), ZigbeeError>,
)
    requires
        keeps(air, refusal, timeout),
        put_out(before, frames, after, result),
    ensures
        (air.ear)(after) == (air.ear)(before),
        if frames.len() <= (air.room)(before) {
            &&& result == Ok::<(), ZigbeeError>(())
            &&& (air.out)(after) == (air.out)(before) + frames
            &&& (air.room)(after) == (air.room)(before) - frames.len()
        } else {
            &&& result == Err::<(), ZigbeeError>(refusal)
            &&& (air.out)(after) == (air.out)(before) + frames.take((air.room)(before) as int)
            &&& (air.room)(after) == 0
        },
{
    match result {
        Ok(done) => {
            assert(done == ());
            lemma_carried_on_air(air, refusal, timeout, before, frames, after);
        },
        Err(error) => {
            let (count, middle) = choose|count: int, middle: R|
                {
                    &&& 0 <= count < frames.len()
                    &&& #[trigger] carried(before, frames.take(count), middle)
                    &&& R::transmits(middle, frames[count], after, Err(error))
                };
            lemma_carried_on_air(air, refusal, timeout, before, frames.take(count), middle);
        },
    }
}

/// The bytes of one of `count` blocks: 98, or what is left in the last.
pub open spec fn nth_block(bytes: Seq<u8>, index: int, count: int) -> Seq<u8> {
    bytes.subrange(
        98 * index,
        if index + 1 < count {
            98 * index + 98
        } else {
            bytes.len() as int
        },
    )
}

/// A Stream on the air, byte by byte: every frame carries these names and asks
/// to be acknowledged; up to 100 bytes are one frame, more are as many blocks
/// of 98 as it takes, the first saying how many there are and every other
/// which it is.
pub open spec fn on_air(names: Header, bytes: Seq<u8>, out: Seq<Seq<u8>>) -> bool {
    &&& out.len() > 0
    &&& forall|i: int| 0 <= i < out.len() ==> names_stand(#[trigger] out[i], names)
    &&& if bytes.len() <= 100 {
        &&& out.len() == 1
        &&& laid_out(out[0], names, false, true, None, bytes)
    } else {
        &&& 98 * (out.len() - 1) < bytes.len() <= 98 * out.len()
        &&& forall|i: int|
            0 <= i < out.len() ==> laid_out(
                #[trigger] out[i],
                names,
                false,
                true,
                Some(nth_fragment(i, out.len() as int)),
                nth_block(bytes, i, out.len() as int),
            )
    }
}

/// Which of `count` blocks a frame is.
pub open spec fn nth_fragment(index: int, count: int) -> Fragment {
    if index == 0 {
        Fragment::First { count: count as u8 }
    } else {
        Fragment::Block { index: index as u8 }
    }
}

/// One frame of a Stream on the air.
proof fn lemma_frame_on_air(header: Header, bytes: Seq<u8>, index: int)
    requires
        bytes.len() <= 24990,
        0 <= index < framed(header, bytes).len(),
    ensures
        names_stand(encoded(framed(header, bytes)[index]), header),
        bytes.len() <= 100 ==> laid_out(
            encoded(framed(header, bytes)[index]),
            header,
            false,
            true,
            None,
            bytes,
        ),
        bytes.len() > 100 ==> laid_out(
            encoded(framed(header, bytes)[index]),
            header,
            false,
            true,
            Some(nth_fragment(index, framed(header, bytes).len() as int)),
            nth_block(bytes, index, framed(header, bytes).len() as int),
        ),
{
    let all = framed(header, bytes);
    let frame = all[index];
    lemma_framed_is_cut(header, bytes);
    lemma_encoded_is_laid_out(frame);
    if bytes.len() > 100 {
        assert(frame.payload.len() <= bytes.len() - 98 * index);
        assert(frame.payload =~= nth_block(bytes, index, all.len() as int));
    }
}

/// The frames of a Stream are it on the air.
#[verifier::rlimit(30)]
pub proof fn lemma_framed_on_air(header: Header, bytes: Seq<u8>)
    requires
        bytes.len() <= 24990,
    ensures
        on_air(header, bytes, encodings(framed(header, bytes))),
        encodings(framed(header, bytes)).len() <= 255,
{
    let all = framed(header, bytes);
    let out = encodings(all);
    assert(out.len() == all.len());
    assert(0 < all.len() <= 255 && (bytes.len() <= 100 ==> all.len() == 1) && (bytes.len() > 100
        ==> 98 * (all.len() - 1) < bytes.len() <= 98 * all.len())) by {
        lemma_framed_is_cut(header, bytes);
    }
    assert forall|i: int| 0 <= i < out.len() implies names_stand(#[trigger] out[i], header) by {
        lemma_frame_on_air(header, bytes, i);
    }
    if bytes.len() > 100 {
        assert forall|i: int| 0 <= i < out.len() implies laid_out(
            #[trigger] out[i],
            header,
            false,
            true,
            Some(nth_fragment(i, out.len() as int)),
            nth_block(bytes, i, out.len() as int),
        ) by {
            lemma_frame_on_air(header, bytes, i);
        }
    } else {
        lemma_frame_on_air(header, bytes, 0);
        assert(out[0] == encoded(all[0]));
    }
}

/// What comes of listening for an acknowledgement: the transmission went well
/// where bytes were heard that are a frame, an acknowledgement by the low bits
/// of its control byte, and under the counter of the transmission.
pub open spec fn accepted(
    counter: u8,
    heard: Result<Option<Seq<u8>>, ZigbeeError>,
    result: Result<(), ZigbeeError>,
) -> bool {
    match heard {
        Err(error) => result == Err::<(), ZigbeeError>(error),
        Ok(None) => result == Err::<(), ZigbeeError>(ZigbeeError::NoAcknowledgement),
        Ok(Some(bytes)) => {
            let framed = {
                &&& 16 <= bytes.len() <= 116
                &&& bytes[0] == 0x08 && bytes[1] == 0x00
                &&& bytes[8] >= 128 ==> bytes.len() >= 18 && (bytes[16] % 4 == 1 || bytes[16] % 4
                    == 2)
            };
            if !framed {
                &&& decoded(bytes) is Err
                &&& result == Err::<(), ZigbeeError>(decoded(bytes)->Err_0)
            } else if bytes[8] % 4 == 2 && bytes[15] == counter {
                result == Ok::<(), ZigbeeError>(())
            } else {
                result == Err::<(), ZigbeeError>(ZigbeeError::AnotherAcknowledgement)
            }
        },
    }
}

proof fn lemma_acknowledges_accepts(counter: u8, heard: Result<Option<Seq<u8>>, ZigbeeError>)
    ensures
        accepted(counter, heard, acknowledges(counter, heard)),
{
    if let Ok(Some(b)) = heard {
        if 8 <= b.len() {
            assert(b.take(2)[0] == b[0] && b.take(2)[1] == b[1]);
            if b[0] == 0x08 && b[1] == 0x00 {
                assert(b.take(2) =~= crate::frame::NWK_DATA@);
            }
        }
        lemma_control_parts(b[8]);
        lemma_control_parts(b[16]);
    }
}

/// A reply is accepted where it acknowledges the transmission under this
/// counter, and refused by what is amiss everywhere else.
pub proof fn law_a_reply_is_accepted_by_its_counter(
    counter: u8,
    reply: Option<Vec<u8>>,
    result: Result<(), ZigbeeError>,
)
    requires
        call_ensures(acknowledged, (counter, reply), result),
    ensures
        accepted(
            counter,
            Ok(
                match reply {
                    Some(bytes) => Some(bytes@),
                    None => None,
                },
            ),
            result,
        ),
{
    lemma_acknowledges_accepts(counter, heard_view(Ok(reply)));
}

/// What sending a Stream under these names does over a radio that keeps to
/// what is told of it: more than 24990 bytes are refused and nothing goes out;
/// else its frames go out in order, as far as there is room; and where all
/// went out the radio is listened to once, and what was heard decides.
pub open spec fn went_out<R>(
    air: Air<R>,
    refusal: ZigbeeError,
    names: Header,
    bytes: Seq<u8>,
    before: R,
    after: R,
    result: Result<(), ZigbeeError>,
) -> bool {
    if bytes.len() > 24990 {
        &&& after == before
        &&& result matches Err(ZigbeeError::OverCeiling { length, ceiling })
        &&& length == bytes.len() && ceiling == 24990
    } else {
        exists|out: Seq<Seq<u8>>|
            {
                &&& #[trigger] on_air(names, bytes, out)
                &&& if out.len() > (air.room)(before) {
                    &&& result == Err::<(), ZigbeeError>(refusal)
                    &&& (air.out)(after) == (air.out)(before) + out.take(
                        (air.room)(before) as int,
                    )
                    &&& (air.ear)(after) == (air.ear)(before)
                } else {
                    &&& (air.out)(after) == (air.out)(before) + out
                    &&& (air.ear)(after) == (air.ear)(before).skip(1)
                    &&& accepted(names.counter, (air.ear)(before)[0], result)
                }
            }
    }
}

proof fn lemma_sent_goes_out<R: Radio>(
    air: Air<R>,
    refusal: ZigbeeError,
    timeout: Duration,
    before: R,
    header: Header,
    bytes: Seq<u8>,
    after: R,
    result: Result<(), ZigbeeError>,
)
    requires
        keeps(air, refusal, timeout),
        (air.ear)(before).len() > 0,
        bytes.len() <= usize::MAX,
        sent(before, header, bytes, timeout, after, result),
    ensures
        went_out(air, refusal, header, bytes, before, after, result),
{
    assert(crate::frame::MAX_STREAM == 24990) by (nonlinear_arith);
    if bytes.len() <= 24990 {
        let out = encodings(framed(header, bytes));
        lemma_framed_on_air(header, bytes);
        if result is Err && put_out(before, out, after, result) {
            lemma_put_on_air(air, refusal, timeout, before, out, after, result);
        } else {
            let (middle, reply) = choose|middle: R, reply: Result<Option<Seq<u8>>, ZigbeeError>|
                {
                    &&& carried(before, out, middle)
                    &&& #[trigger] R::receives(middle, timeout, after, reply)
                    &&& result == acknowledges(header.counter, reply)
                };
            lemma_carried_on_air(air, refusal, timeout, before, out, middle);
            lemma_acknowledges_accepts(header.counter, reply);
        }
        assert(on_air(header, bytes, out));
    }
}

/// Every frame of a Stream that a node sends carries the address and endpoint
/// sent to, and the node's own address, cluster, profile and due counter; the
/// counter is used up whatever came of it, and nothing else of the node
/// changes.
pub proof fn law_a_sent_stream_carries_the_names<R: Radio>(
    air: Air<R>,
    refusal: ZigbeeError,
    node: &mut ZigbeeTransport<R>,
    destination: u16,
    endpoint: u8,
    bytes: &[u8],
    result: Result<(), ZigbeeError>,
)
    requires
        keeps(air, refusal, node@.timeout),
        (air.ear)(node@.radio).len() > 0,
        call_ensures(
            ZigbeeTransport::<R>::send_stream,
            (node, destination, endpoint, bytes),
            result,
        ),
    ensures
        went_out(
            air,
            refusal,
            (Header {
                destination,
                source: old(node)@.address,
                endpoint,
                cluster: old(node)@.cluster,
                profile: old(node)@.profile,
                counter: old(node)@.counter,
            }),
            bytes@,
            old(node)@.radio,
            final(node)@.radio,
            result,
        ),
        only_counted_on(old(node)@, final(node)@),
{
    assert(bytes.len() == bytes@.len());
    lemma_sent_goes_out(
        air,
        refusal,
        node@.timeout,
        node@.radio,
        Header {
            destination,
            source: node@.address,
            endpoint,
            cluster: node@.cluster,
            profile: node@.profile,
            counter: node@.counter,
        },
        bytes@,
        final(node)@.radio,
        result,
    );
}

/// A node has used up one counter, 0 behind 255, and but for its radio is
/// otherwise what it was.
pub open spec fn only_counted_on<R>(before: NodeView<R>, after: NodeView<R>) -> bool {
    &&& after.counter == if before.counter == 255 {
        0int
    } else {
        before.counter + 1
    }
    &&& unchanged_but_for_radio_and_counter(before, after)
}

/// Nothing but the radio and the counter of a node differs.
pub open spec fn unchanged_but_for_radio_and_counter<R>(
    before: NodeView<R>,
    after: NodeView<R>,
) -> bool {
    &&& after.address == before.address
    &&& after.endpoint == before.endpoint
    &&& after.profile == before.profile
    &&& after.cluster == before.cluster
    &&& after.destination == before.destination
    &&& after.timeout == before.timeout
    &&& after.loopback == before.loopback
}

/// A node that was made to speak a cluster in a profile sends every frame in
/// that profile and that cluster.
pub proof fn law_a_node_sends_what_it_speaks<R: Radio>(
    air: Air<R>,
    refusal: ZigbeeError,
    made: ZigbeeTransport<R>,
    profile: u16,
    cluster: u16,
    spoken: ZigbeeTransport<R>,
    node: &mut ZigbeeTransport<R>,
    destination: u16,
    endpoint: u8,
    bytes: &[u8],
    result: Result<(), ZigbeeError>,
)
    requires
        call_ensures(ZigbeeTransport::<R>::speaking, (made, profile, cluster), spoken),
        *node == spoken,
        keeps(air, refusal, made@.timeout),
        (air.ear)(made@.radio).len() > 0,
        call_ensures(
            ZigbeeTransport::<R>::send_stream,
            (node, destination, endpoint, bytes),
            result,
        ),
    ensures
        went_out(
            air,
            refusal,
            (Header {
                destination,
                source: made@.address,
                endpoint,
                cluster,
                profile,
                counter: made@.counter,
            }),
            bytes@,
            made@.radio,
            final(node)@.radio,
            result,
        ),
{
    law_a_sent_stream_carries_the_names(
        air,
        refusal,
        node,
        destination,
        endpoint,
        bytes,
        result,
    );
}

/// A Stream sent to a target goes to the node and endpoint that the target
/// addresses; where it addresses none the path is refused, nothing goes out,
/// and no counter is used up.
pub proof fn law_a_stream_goes_to_its_target<R: Radio>(
    air: Air<R>,
    refusal: ZigbeeError,
    node: &mut ZigbeeTransport<R>,
    path: Option<&str>,
    bytes: &[u8],
    to: Result<(u16, u8), ZigbeeError>,
    result: Result<(), ZigbeeError>,
)
    requires
        keeps(air, refusal, node@.timeout),
        (air.ear)(node@.radio).len() > 0,
        call_ensures(ZigbeeTransport::<R>::addressee, (&*node, path), to),
        call_ensures(ZigbeeTransport::<R>::send, (node, path, bytes), result),
    ensures
        match to {
            Ok((destination, endpoint)) => {
                &&& went_out(
                    air,
                    refusal,
                    (Header {
                        destination,
                        source: old(node)@.address,
                        endpoint,
                        cluster: old(node)@.cluster,
                        profile: old(node)@.profile,
                        counter: old(node)@.counter,
                    }),
                    bytes@,
                    old(node)@.radio,
                    final(node)@.radio,
                    result,
                )
                &&& only_counted_on(old(node)@, final(node)@)
            },
            Err(_) => {
                &&& final(node)@ == old(node)@
                &&& path is Some
                &&& result matches Err(ZigbeeError::NotANode { path: refused }) && refused@
                    == path->Some_0@
            },
        },
{
    assert(bytes.len() == bytes@.len());
    if let Ok((destination, endpoint)) = to {
        lemma_sent_goes_out(
            air,
            refusal,
            node@.timeout,
            node@.radio,
            Header {
                destination,
                source: node@.address,
                endpoint,
                cluster: node@.cluster,
                profile: node@.profile,
                counter: node@.counter,
            },
            bytes@,
            final(node)@.radio,
            result,
        );
    }
}

/// A Stream sent to a path that writes an address and an endpoint goes to
/// exactly that node and that endpoint.
pub proof fn law_a_stream_goes_where_its_path_says<R: Radio>(
    air: Air<R>,
    refusal: ZigbeeError,
    node: &mut ZigbeeTransport<R>,
    path: &str,
    address: u16,
    endpoint: u8,
    bytes: &[u8],
    result: Result<(), ZigbeeError>,
)
    requires
        keeps(air, refusal, node@.timeout),
        (air.ear)(node@.radio).len() > 0,
        path@ == address_text(address) + seq!['/'] + endpoint_text(endpoint),
        call_ensures(ZigbeeTransport::<R>::send, (node, Some(path), bytes), result),
    ensures
        went_out(
            air,
            refusal,
            (Header {
                destination: address,
                source: old(node)@.address,
                endpoint,
                cluster: old(node)@.cluster,
                profile: old(node)@.profile,
                counter: old(node)@.counter,
            }),
            bytes@,
            old(node)@.radio,
            final(node)@.radio,
            result,
        ),
        only_counted_on(old(node)@, final(node)@),
{
    law_numbers_are_written_digit_by_digit(address, endpoint);
    law_a_written_node_is_named(address, endpoint);
    assert(bytes.len() == bytes@.len());
    lemma_sent_goes_out(
        air,
        refusal,
        node@.timeout,
        node@.radio,
        Header {
            destination: address,
            source: node@.address,
            endpoint,
            cluster: node@.cluster,
            profile: node@.profile,
            counter: node@.counter,
        },
        bytes@,
        final(node)@.radio,
        result,
    );
}

/// A counter that is due is used up: the next is one more, and 0 behind 255.
pub proof fn law_a_counter_is_used_up(counter: &mut u8, due: u8)
    requires
        call_ensures(use_up, (counter,), due),
    ensures
        due == *old(counter),
        *final(counter) == if *old(counter) == 255 {
            0int
        } else {
            *old(counter) + 1
        },
{
}

} // verus!

//! Both ends on one in-process radio: a Stream that is sent comes out of the
//! far end whole.
use std::time::Duration;

use vstd::prelude::*;

use crate::error::ZigbeeError;
use crate::exchange::{acknowledges, carried, put_out, sent};
use crate::frame::{
    acknowledgement, encoded, framed, law_decode_undoes_encode, law_frames_are_numbered_blocks,
    law_frames_fit_the_mac, FrameView, Header, MAX_NPDU, MAX_STREAM,
};
use crate::node::{
    arrival_view, header_of, next_count, Arrived, ArrivedView, NodeView, ZigbeeTransport,
};
use crate::radio::{encodings, LoopbackRadio, LoopbackView, Radio};
use crate::reassembly::{
    fed, handled, law_a_stream_comes_back_whole, lemma_fed_prefix, made_whole, nothing, silence,
    ResponseView, TransmissionView,
};

verus! {

/// What a node says back in a run of responses, as the radio carries it.
pub open spec fn said_back(responses: Seq<ResponseView>) -> Seq<Seq<u8>>
    decreases responses.len(),
{
    if responses.len() == 0 {
        Seq::empty()
    } else {
        said_back(responses.drop_last()) + encodings(responses.last().acks)
    }
}

/// What a node takes whole in a run of responses.
pub open spec fn taken_whole(responses: Seq<ResponseView>) -> Seq<(Header, Seq<u8>)>
    decreases responses.len(),
{
    if responses.len() == 0 {
        Seq::empty()
    } else {
        taken_whole(responses.drop_last()) + match responses.last().complete {
            Some(whole) => seq![whole],
            None => Seq::empty(),
        }
    }
}

/// A loopback radio behind a run of responses of its node.
pub open spec fn kept(
    state: LoopbackView,
    rest: Option<TransmissionView>,
    responses: Seq<ResponseView>,
) -> LoopbackView {
    LoopbackView {
        node: rest,
        to_sender: state.to_sender + said_back(responses),
        arrived: state.arrived + taken_whole(responses),
    }
}

/// What a loopback radio took in a run of frames is what its node makes of
/// them: it queues what the node says back and keeps what it takes whole.
pub proof fn law_a_loopback_feeds_its_node(
    before: LoopbackRadio,
    frames: Seq<FrameView>,
    after: LoopbackRadio,
)
    requires
        carried(before, encodings(frames), after),
        forall|i: int| 0 <= i < frames.len() ==> encoded(#[trigger] frames[i]).len() <= MAX_NPDU,
    ensures
        fed(before@.node, frames) matches Ok((rest, responses)) && after@ == kept(
            before@,
            rest,
            responses,
        ),
    decreases frames.len(),
{
    if frames.len() == 0 {
        assert(after@ =~= kept(before@, before@.node, Seq::empty()));
    } else {
        let earlier = frames.drop_last();
        let frame = frames.last();
        let out = encodings(frames);
        assert(out.drop_last() =~= encodings(earlier));
        let middle = choose|middle: LoopbackRadio|
            {
                &&& carried(before, out.drop_last(), middle)
                &&& #[trigger] LoopbackRadio::transmits(middle, out.last(), after, Ok(()))
            };
        assert forall|i: int| 0 <= i < earlier.len() implies encoded(#[trigger] earlier[i]).len()
            <= MAX_NPDU by {
            assert(earlier[i] == frames[i]);
        }
        law_a_loopback_feeds_its_node(before, earlier, middle);
        assert(frame == frames[frames.len() - 1]);
        law_decode_undoes_encode(frame);
        let (between, responses) = fed(before@.node, earlier)->Ok_0;
        let (rest, response) = handled(between, frame)->Ok_0;
        let all = responses.push(response);
        assert(all.drop_last() =~= responses);
        assert(after@ =~= kept(before@, rest, all));
    }
}

/// Nothing is said back, and nothing taken whole, by responses that leave a
/// transmission waiting.
proof fn lemma_silence(count: nat)
    ensures
        said_back(silence(count)) == Seq::<Seq<u8>>::empty(),
        taken_whole(silence(count)) == Seq::<(Header, Seq<u8>)>::empty(),
    decreases count,
{
    if count > 0 {
        let before = (count - 1) as nat;
        lemma_silence(before);
        assert(silence(count).drop_last() =~= silence(before));
        assert(encodings(nothing().acks) =~= Seq::empty());
        assert(said_back(silence(count)) =~= Seq::empty());
        assert(taken_whole(silence(count)) =~= Seq::empty());
    }
}

/// The far end is idle: its node has nothing under way and the sender has
/// nothing to receive.
pub open spec fn idle(state: LoopbackView) -> bool {
    state.node is None && state.to_sender.len() == 0
}

/// A Stream sent over an idle loopback is acknowledged, is taken whole behind
/// whatever was taken before it, and leaves the loopback idle: up to
/// [`MAX_STREAM`] bytes, and one more is refused with nothing sent.
pub proof fn law_an_idle_loopback_takes_a_stream(
    before: LoopbackRadio,
    header: Header,
    bytes: Seq<u8>,
    timeout: Duration,
    after: LoopbackRadio,
    result: Result<(), ZigbeeError>,
)
    requires
        idle(before@),
        sent(before, header, bytes, timeout, after, result),
    ensures
        bytes.len() <= MAX_STREAM ==> {
            &&& result == Ok::<(), ZigbeeError>(())
            &&& after@ == (LoopbackView {
                arrived: before@.arrived.push((header, bytes)),
                ..before@
            })
        },
        bytes.len() > MAX_STREAM ==> {
            &&& result == Err::<(), ZigbeeError>(
                ZigbeeError::OverCeiling { length: bytes.len() as usize, ceiling: MAX_STREAM },
            )
            &&& after@ == before@
        },
        idle(after@),
{
    if bytes.len() <= MAX_STREAM {
        let frames = framed(header, bytes);
        let out = encodings(frames);
        assert forall|i: int| 0 <= i < frames.len() implies encoded(#[trigger] frames[i]).len()
            <= MAX_NPDU by {
            law_frames_are_numbered_blocks(header, bytes, i);
        }
        law_a_stream_comes_back_whole(header, bytes);
        if result is Err && put_out(before, out, after, result) {
            let error = result->Err_0;
            let (count, middle) = choose|count: int, middle: LoopbackRadio|
                {
                    &&& 0 <= count < out.len()
                    &&& #[trigger] carried(before, out.take(count), middle)
                    &&& LoopbackRadio::transmits(middle, out[count], after, Err(error))
                };
            let upto = frames.take(count);
            assert(out.take(count) =~= encodings(upto));
            assert forall|i: int| 0 <= i < upto.len() implies encoded(#[trigger] upto[i]).len()
                <= MAX_NPDU by {
                assert(upto[i] == frames[i]);
            }
            law_a_loopback_feeds_its_node(before, upto, middle);
            law_decode_undoes_encode(frames[count]);
            lemma_fed_prefix(None, frames, count + 1);
            assert(frames.take(count + 1).drop_last() =~= upto);
            assert(false);
        }
        let (middle, reply) = choose|
            middle: LoopbackRadio,
            reply: Result<Option<Seq<u8>>, ZigbeeError>,
        |
            {
                &&& carried(before, out, middle)
                &&& #[trigger] LoopbackRadio::receives(middle, timeout, after, reply)
                &&& result == acknowledges(header.counter, reply)
            };
        law_a_loopback_feeds_its_node(before, frames, middle);
        let last = frames.last();
        let quiet = silence((frames.len() - 1) as nat);
        let whole = made_whole(last, header, bytes);
        lemma_silence((frames.len() - 1) as nat);
        assert(quiet.push(whole).drop_last() =~= quiet);
        let ack = acknowledgement(last);
        assert(encodings(whole.acks) =~= seq![encoded(ack)]);
        assert(middle@.to_sender =~= seq![encoded(ack)]);
        assert(middle@.arrived =~= before@.arrived.push((header, bytes)));
        law_frames_are_numbered_blocks(header, bytes, frames.len() - 1);
        law_frames_fit_the_mac(last.header, last.fragment, last.payload);
        law_decode_undoes_encode(ack);
        assert(after@.to_sender =~= before@.to_sender);
        assert(after@ =~= (LoopbackView {
            arrived: before@.arrived.push((header, bytes)),
            ..before@
        }));
    }
}

/// A round over a loopback: the Stream was sent to the far end, and where the
/// sending went well the next transmission that the far end took whole came
/// back.
pub open spec fn rounded(
    before: LoopbackRadio,
    header: Header,
    bytes: Seq<u8>,
    timeout: Duration,
    after: LoopbackRadio,
    result: Result<ArrivedView, ZigbeeError>,
) -> bool {
    exists|middle: LoopbackRadio, sending: Result<(), ZigbeeError>|
        {
            &&& #[trigger] sent(before, header, bytes, timeout, middle, sending)
            &&& match sending {
                Err(error) => after@ == middle@ && result == Err::<ArrivedView, ZigbeeError>(error),
                Ok(_) => if middle@.arrived.len() == 0 {
                    &&& after@ == middle@
                    &&& result == Err::<ArrivedView, ZigbeeError>(ZigbeeError::NothingCompleted)
                } else {
                    &&& after@ == (LoopbackView {
                        arrived: middle@.arrived.skip(1),
                        ..middle@
                    })
                    &&& result == Ok::<ArrivedView, ZigbeeError>(arrival_view(middle@.arrived[0]))
                },
            }
        }
}

impl ZigbeeTransport<LoopbackRadio> {
    /// One round: `payload` is sent to the far end and taken out of it. In
    /// order on one thread: the coordinator lives in the radio and
    /// acknowledges as the node sends, so the send goes first and the take
    /// finds the transmission whole.
    ///
    /// On an idle loopback with nothing left to take, what comes out is what
    /// went in, up to [`MAX_STREAM`] bytes, and the loopback is idle with
    /// nothing left to take again; more is refused.
    pub fn round(&mut self, payload: &[u8]) -> (result: Result<Arrived, ZigbeeError>)
        ensures
            !old(self)@.loopback ==> {
                &&& result matches Err(error) && error == ZigbeeError::NotLoopback
                &&& final(self)@ == old(self)@
            },
            old(self)@.loopback ==> {
                let header = header_of(old(self)@, old(self)@.destination, old(self)@.endpoint);
                &&& rounded(
                    old(self)@.radio,
                    header,
                    payload@,
                    old(self)@.timeout,
                    final(self)@.radio,
                    match result {
                        Ok(arrived) => Ok(arrived@),
                        Err(error) => Err(error),
                    },
                )
                &&& final(self)@ == (NodeView {
                    radio: final(self)@.radio,
                    counter: next_count(old(self)@.counter),
                    ..old(self)@
                })
                &&& idle(old(self)@.radio@) && old(self)@.radio@.arrived.len() == 0 ==> {
                    &&& idle(final(self)@.radio@) && final(self)@.radio@.arrived.len() == 0
                    &&& match result {
                        Ok(arrived) => {
                            &&& payload@.len() <= MAX_STREAM
                            &&& arrived@ == arrival_view((header, payload@))
                        },
                        Err(error) => {
                            &&& payload@.len() > MAX_STREAM
                            &&& error == (ZigbeeError::OverCeiling {
                                length: payload@.len() as usize,
                                ceiling: MAX_STREAM,
                            })
                        },
                    }
                }
            },
    {
        if let Err(error) = self.far_end() {
            return Err(error);
        }
        let (destination, endpoint) = self.own_destination();
        let ghost header = header_of(old(self)@, destination, endpoint);
        let sending = self.send_stream(destination, endpoint, payload);
        let ghost middle = self@.radio;
        proof {
            if idle(old(self)@.radio@) {
                law_an_idle_loopback_takes_a_stream(
                    old(self)@.radio,
                    header,
                    payload@,
                    old(self)@.timeout,
                    middle,
                    sending,
                );
            }
        }
        if let Err(error) = sending {
            return Err(error);
        }
        self.take_arrived()
    }
}

} // verus!

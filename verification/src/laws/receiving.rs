//! Receiving, frame by frame and byte by byte.
use std::time::Duration;

use vstd::prelude::*;

use crate::error::ZigbeeError;
use crate::exchange::{answered, answered_whole, heard_many, heard_one};
use crate::frame::{
    decoded, encoded, framed, law_decode_undoes_encode, Fragment, Frame, FrameView, Header,
};
use crate::laws::frames::{laid_out, lemma_encoded_is_laid_out, lemma_framed_is_cut};
use crate::laws::naming::{arrival_text, law_numbers_are_written_digit_by_digit};
use crate::laws::sending::{
    keeps, lemma_framed_on_air, lemma_put_on_air, nth_block, nth_fragment, on_air,
    unchanged_but_for_radio_and_counter, Air,
};
use crate::node::{
    arrival_of, arrived_whole, carried_on, listening_ended, outcome_view, received, unopened,
    Listening, ListeningView, Reception, ReceptionView, ZigbeeTransport,
};
use crate::radio::{encodings, Radio};
use crate::reassembly::{
    fed, handled, law_a_stream_comes_back_whole, lemma_fed_prefix, made_whole, nothing, silence,
    Reassembly, Response, TransmissionView,
};

verus! {

/// Bytes that a node with `state` under way takes without having anything
/// whole: it has `next` under way then.
pub open spec fn goes_on(
    state: Option<TransmissionView>,
    bytes: Seq<u8>,
    next: Option<TransmissionView>,
) -> bool {
    decoded(bytes) matches Ok(frame) && handled(state, frame) matches Ok((rest, response)) && rest
        == next && response.complete is None
}

/// What may be heard before something ends the reception: bytes each of which
/// takes the node from one of `states` to the next.
pub open spec fn leads_through(
    heard: Seq<Result<Option<Seq<u8>>, ZigbeeError>>,
    states: Seq<Option<TransmissionView>>,
) -> bool {
    &&& states.len() > 0
    &&& heard.len() >= states.len()
    &&& forall|i: int|
        0 <= i < states.len() - 1 ==> {
            &&& (#[trigger] heard[i]) matches Ok(Some(bytes))
            &&& goes_on(states[i], bytes, states[i + 1])
        }
}

/// Only what makes something whole is answered, so a node that goes on has
/// said nothing.
proof fn lemma_going_on_is_silent(state: Option<TransmissionView>, frame: FrameView)
    requires
        handled(state, frame) matches Ok((_, response)) && response.complete is None,
    ensures
        handled(state, frame)->Ok_0.1.acks.len() == 0,
{
}

/// A node that hears what leads through `states` and goes on has heard so
/// many, is where they lead, and has put nothing out.
proof fn lemma_heard_leads<R: Radio>(
    air: Air<R>,
    refusal: ZigbeeError,
    timeout: Duration,
    before: R,
    states: Seq<Option<TransmissionView>>,
    count: nat,
    after: R,
    state: Option<TransmissionView>,
)
    requires
        keeps(air, refusal, timeout),
        leads_through((air.ear)(before), states),
        count < states.len(),
        heard_many(before, timeout, states[0], count, after, state),
    ensures
        state == states[count as int],
        (air.ear)(after) == (air.ear)(before).skip(count as int),
        (air.out)(after) == (air.out)(before),
        (air.room)(after) == (air.room)(before),
    decreases count,
{
    let ear = (air.ear)(before);
    if count == 0 {
        assert(ear.skip(0) =~= ear);
    } else {
        let less = (count - 1) as nat;
        let (last, between) = choose|last: R, between: Option<TransmissionView>|
            {
                &&& heard_many(before, timeout, states[0], less, last, between)
                &&& #[trigger] heard_one(last, timeout, between, after, state)
            };
        lemma_heard_leads(air, refusal, timeout, before, states, less, last, between);
        let (middle, bytes) = choose|middle: R, bytes: Seq<u8>|
            {
                &&& R::receives(last, timeout, middle, Ok(Some(bytes)))
                &&& #[trigger] answered(middle, between, bytes, after, Ok((state, None)))
            };
        assert(ear.skip(less as int)[0] == ear[less as int]);
        assert(ear[less as int] == Ok::<Option<Seq<u8>>, ZigbeeError>(Some(bytes)));
        let frame = decoded(bytes)->Ok_0;
        lemma_going_on_is_silent(between, frame);
        let acks = encodings(handled(between, frame)->Ok_0.1.acks);
        lemma_put_on_air(air, refusal, timeout, middle, acks, after, Ok(()));
        assert((air.out)(middle) + acks =~= (air.out)(middle));
        assert(ear.skip(less as int).skip(1) =~= ear.skip(count as int));
        assert(states[less as int + 1] == states[count as int]);
    }
}

/// A node that hears what leads through `states` cannot have gone on past
/// something that ends the reception.
proof fn lemma_heard_no_further<R: Radio>(
    air: Air<R>,
    refusal: ZigbeeError,
    timeout: Duration,
    before: R,
    states: Seq<Option<TransmissionView>>,
    count: nat,
    after: R,
    state: Option<TransmissionView>,
)
    requires
        keeps(air, refusal, timeout),
        leads_through((air.ear)(before), states),
        ends((air.ear)(before)[states.len() - 1], states.last()),
        heard_many(before, timeout, states[0], count, after, state),
    ensures
        count < states.len(),
    decreases count,
{
    if count > 0 {
        let ear = (air.ear)(before);
        let less = (count - 1) as nat;
        let (last, between) = choose|last: R, between: Option<TransmissionView>|
            {
                &&& heard_many(before, timeout, states[0], less, last, between)
                &&& #[trigger] heard_one(last, timeout, between, after, state)
            };
        lemma_heard_no_further(air, refusal, timeout, before, states, less, last, between);
        lemma_heard_leads(air, refusal, timeout, before, states, less, last, between);
        let (middle, bytes) = choose|middle: R, bytes: Seq<u8>|
            {
                &&& R::receives(last, timeout, middle, Ok(Some(bytes)))
                &&& #[trigger] answered(middle, between, bytes, after, Ok((state, None)))
            };
        assert(ear.skip(less as int)[0] == ear[less as int]);
        assert(ear[less as int] == Ok::<Option<Seq<u8>>, ZigbeeError>(Some(bytes)));
    }
}

/// What is heard ends a reception that has `state` under way: the radio
/// failed, or nothing came in time, or what came is refused or makes something
/// whole.
pub open spec fn ends(
    heard: Result<Option<Seq<u8>>, ZigbeeError>,
    state: Option<TransmissionView>,
) -> bool {
    heard matches Ok(Some(bytes)) ==> (decoded(bytes) matches Ok(frame) ==> (handled(state, frame)
        matches Ok((_, response)) ==> response.complete is Some))
}

/// How a reception ends that has `state` under way, has heard something before
/// or not, and hears this: a failure of the radio is passed on; silence is
/// nothing at all where nothing was heard yet, and the sender gone quiet where
/// something was; what is refused is refused for the reason it has; and what
/// is whole arrived, from the sender that its header names, once it is
/// acknowledged where it asked to be.
pub open spec fn ended<R: Radio>(
    air: Air<R>,
    refusal: ZigbeeError,
    before: R,
    opened: bool,
    state: Option<TransmissionView>,
    heard: Result<Option<Seq<u8>>, ZigbeeError>,
    after: R,
    outcome: Result<ReceptionView, ZigbeeError>,
) -> bool {
    match heard {
        Err(error) => {
            &&& outcome == Err::<ReceptionView, ZigbeeError>(error)
            &&& (air.out)(after) == (air.out)(before)
        },
        Ok(None) => {
            &&& opened ==> outcome == Err::<ReceptionView, ZigbeeError>(ZigbeeError::SenderQuiet)
            &&& !opened ==> outcome == Ok::<ReceptionView, ZigbeeError>(ReceptionView::Quiet)
            &&& (air.out)(after) == (air.out)(before)
        },
        Ok(Some(bytes)) => match decoded(bytes) {
            Err(error) => {
                &&& outcome == Err::<ReceptionView, ZigbeeError>(error)
                &&& (air.out)(after) == (air.out)(before)
            },
            Ok(frame) => match handled(state, frame) {
                Err(error) => {
                    &&& outcome == Err::<ReceptionView, ZigbeeError>(error)
                    &&& (air.out)(after) == (air.out)(before)
                },
                Ok((_, response)) => if frame.ack_request && (air.room)(before) == 0 {
                    &&& outcome == Err::<ReceptionView, ZigbeeError>(refusal)
                    &&& (air.out)(after) == (air.out)(before)
                } else {
                    &&& outcome matches Ok(ReceptionView::Arrived(arrived))
                    &&& response.complete matches Some((header, payload))
                    &&& arrived.origin_uri == arrival_text(after.called(), header)
                    &&& arrived.bytes == payload
                    &&& if frame.ack_request {
                        put_behind(air, before, frame.header, frame.fragment, after)
                    } else {
                        (air.out)(after) == (air.out)(before)
                    }
                },
            },
        },
    }
}

/// One frame more was put on the air: the acknowledgement of a frame with this
/// header and this block, back to where it came from.
pub open spec fn put_behind<R>(
    air: Air<R>,
    before: R,
    header: Header,
    fragment: Option<Fragment>,
    after: R,
) -> bool {
    &&& (air.out)(after).len() == (air.out)(before).len() + 1
    &&& (air.out)(after).drop_last() == (air.out)(before)
    &&& laid_out(
        (air.out)(after).last(),
        (Header {
            destination: header.source,
            source: header.destination,
            endpoint: header.endpoint,
            cluster: header.cluster,
            profile: header.profile,
            counter: header.counter,
        }),
        true,
        false,
        fragment,
        Seq::empty(),
    )
}

proof fn lemma_arrival_text(radio: Seq<char>, header: Header)
    ensures
        arrival_of(radio, header) == arrival_text(radio, header),
{
    law_numbers_are_written_digit_by_digit(header.source, header.endpoint);
    law_numbers_are_written_digit_by_digit(header.cluster, header.endpoint);
}

/// What ends a reception ends it so.
proof fn lemma_listening_ends<R: Radio>(
    air: Air<R>,
    refusal: ZigbeeError,
    timeout: Duration,
    before: R,
    listening: ListeningView,
    heard: Result<Option<Seq<u8>>, ZigbeeError>,
    middle: R,
    after: R,
    outcome: Result<ReceptionView, ZigbeeError>,
)
    requires
        keeps(air, refusal, timeout),
        (air.ear)(before).len() > 0,
        ends((air.ear)(before)[0], listening.state),
        listening_ended(before, timeout, listening, heard, middle, after, outcome),
    ensures
        ended(
            air,
            refusal,
            before,
            listening.opened,
            listening.state,
            (air.ear)(before)[0],
            after,
            outcome,
        ),
        (air.ear)(after) == (air.ear)(before).skip(1),
{
    let state = listening.state;
    if let Ok(Some(bytes)) = heard {
        if let Ok(frame) = decoded(bytes) {
            if let Ok((rest, response)) = handled(state, frame) {
                let acks = encodings(response.acks);
                if frame.ack_request {
                    assert(response.acks =~= seq![crate::frame::acknowledgement(frame)]);
                    assert(acks =~= seq![encoded(crate::frame::acknowledgement(frame))]);
                    lemma_encoded_is_laid_out(crate::frame::acknowledgement(frame));
                } else {
                    assert(acks =~= Seq::empty());
                }
                match outcome {
                    Err(error) => {
                        lemma_put_on_air(air, refusal, timeout, middle, acks, after, Err(error));
                        assert(acks.take(0) =~= Seq::empty());
                        assert((air.out)(before) + acks.take(0) =~= (air.out)(before));
                    },
                    Ok(ReceptionView::Arrived(arrived)) => {
                        let (remains, header) = choose|
                            remains: Option<TransmissionView>,
                            header: Header,
                        |
                            {
                                &&& #[trigger] answered_whole(
                                    middle,
                                    state,
                                    bytes,
                                    after,
                                    remains,
                                    header,
                                    arrived.bytes,
                                )
                                &&& arrived.origin_uri == arrival_of(after.called(), header)
                            };
                        lemma_put_on_air(air, refusal, timeout, middle, acks, after, Ok(()));
                        lemma_arrival_text(after.called(), header);
                        if frame.ack_request {
                            assert(((air.out)(before) + acks).drop_last() =~= (air.out)(before));
                            assert(((air.out)(before) + acks).last() == acks[0]);
                        } else {
                            assert((air.out)(before) + acks =~= (air.out)(before));
                        }
                    },
                    Ok(_) => {},
                }
            }
        }
    }
}

/// A reception goes by what is heard, one thing after the other.
proof fn lemma_received_follows<R: Radio>(
    air: Air<R>,
    refusal: ZigbeeError,
    timeout: Duration,
    before: R,
    listening: ListeningView,
    states: Seq<Option<TransmissionView>>,
    most: nat,
    after: R,
    outcome: Result<ReceptionView, ZigbeeError>,
)
    requires
        keeps(air, refusal, timeout),
        leads_through((air.ear)(before), states),
        ends((air.ear)(before)[states.len() - 1], states.last()),
        states[0] == listening.state,
        received(before, timeout, listening, most, after, outcome),
    ensures
        most < states.len() ==> {
            &&& outcome == Ok::<ReceptionView, ZigbeeError>(
                ReceptionView::Underway(
                    ListeningView {
                        state: states[most as int],
                        opened: listening.opened || most > 0,
                    },
                ),
            )
            &&& (air.out)(after) == (air.out)(before)
            &&& (air.room)(after) == (air.room)(before)
            &&& (air.ear)(after) == (air.ear)(before).skip(most as int)
        },
        most >= states.len() ==> {
            &&& ended(
                air,
                refusal,
                before,
                listening.opened || states.len() > 1,
                states.last(),
                (air.ear)(before)[states.len() - 1],
                after,
                outcome,
            )
            &&& (air.ear)(after) == (air.ear)(before).skip(states.len() as int)
        },
{
    let ear = (air.ear)(before);
    if exists|state: Option<TransmissionView>|
        {
            &&& #[trigger] heard_many(before, timeout, listening.state, most, after, state)
            &&& outcome == Ok::<ReceptionView, ZigbeeError>(
                ReceptionView::Underway(carried_on(listening, most, state)),
            )
        } {
        let state = choose|state: Option<TransmissionView>|
            {
                &&& #[trigger] heard_many(before, timeout, listening.state, most, after, state)
                &&& outcome == Ok::<ReceptionView, ZigbeeError>(
                    ReceptionView::Underway(carried_on(listening, most, state)),
                )
            };
        lemma_heard_no_further(air, refusal, timeout, before, states, most, after, state);
        lemma_heard_leads(air, refusal, timeout, before, states, most, after, state);
    } else {
        let (count, last, state, heard, middle) = choose|
            count: nat,
            last: R,
            state: Option<TransmissionView>,
            heard: Result<Option<Seq<u8>>, ZigbeeError>,
            middle: R,
        |
            {
                &&& count < most
                &&& #[trigger] heard_many(before, timeout, listening.state, count, last, state)
                &&& #[trigger] listening_ended(
                    last,
                    timeout,
                    carried_on(listening, count, state),
                    heard,
                    middle,
                    after,
                    outcome,
                )
            };
        lemma_heard_no_further(air, refusal, timeout, before, states, count, last, state);
        lemma_heard_leads(air, refusal, timeout, before, states, count, last, state);
        let next = ear.skip(count as int);
        assert(next[0] == ear[count as int]);
        if count + 1 < states.len() {
            let bytes = ear[count as int]->Ok_0->Some_0;
            assert(goes_on(state, bytes, states[count as int + 1]));
            assert(R::receives(last, timeout, middle, heard));
            assert(heard == ear[count as int]);
            let frame = decoded(bytes)->Ok_0;
            lemma_going_on_is_silent(state, frame);
            let acks = encodings(handled(state, frame)->Ok_0.1.acks);
            assert(acks.len() == 0);
            match outcome {
                Err(error) => {
                    lemma_put_on_air(air, refusal, timeout, middle, acks, after, Err(error));
                },
                Ok(ReceptionView::Arrived(arrived)) => {
                    assert(arrived_whole(middle, state, bytes, after, arrived));
                },
                Ok(_) => {},
            }
            assert(false);
        }
        assert(count + 1 == states.len());
        lemma_listening_ends(
            air,
            refusal,
            timeout,
            last,
            carried_on(listening, count, state),
            heard,
            middle,
            after,
            outcome,
        );
        assert(next.skip(1) =~= ear.skip(states.len() as int));
    }
}

/// A reception that is gone on with goes by what is heard, one thing after the
/// other: bytes that make nothing whole take the node on; after as many as
/// were asked for it is not over; and the first thing that ends it ends it as
/// told. Nothing of the node changes but its radio.
pub proof fn law_a_reception_goes_by_what_is_heard<R: Radio>(
    air: Air<R>,
    refusal: ZigbeeError,
    node: &mut ZigbeeTransport<R>,
    listening: Listening,
    states: Seq<Option<TransmissionView>>,
    most: usize,
    outcome: Result<Reception, ZigbeeError>,
)
    requires
        keeps(air, refusal, node@.timeout),
        leads_through((air.ear)(node@.radio), states),
        ends((air.ear)(node@.radio)[states.len() - 1], states.last()),
        states[0] == listening@.state,
        call_ensures(ZigbeeTransport::<R>::receive_more, (node, listening, most), outcome),
    ensures
        most < states.len() ==> {
            &&& outcome matches Ok(Reception::Underway(paused))
            &&& paused@.state == states[most as int]
            &&& paused@.opened == (listening@.opened || most > 0)
            &&& (air.out)(final(node)@.radio) == (air.out)(old(node)@.radio)
            &&& (air.room)(final(node)@.radio) == (air.room)(old(node)@.radio)
            &&& (air.ear)(final(node)@.radio) == (air.ear)(old(node)@.radio).skip(most as int)
        },
        most >= states.len() ==> {
            &&& ended(
                air,
                refusal,
                old(node)@.radio,
                listening@.opened || states.len() > 1,
                states.last(),
                (air.ear)(old(node)@.radio)[states.len() - 1],
                final(node)@.radio,
                outcome_view(outcome),
            )
            &&& (air.ear)(final(node)@.radio) == (air.ear)(old(node)@.radio).skip(
                states.len() as int,
            )
        },
        final(node)@.counter == old(node)@.counter,
        unchanged_but_for_radio_and_counter(old(node)@, final(node)@),
{
    lemma_received_follows(
        air,
        refusal,
        node@.timeout,
        node@.radio,
        listening@,
        states,
        most as nat,
        final(node)@.radio,
        outcome_view(outcome),
    );
}

/// A reception starts with nothing under way and nothing heard, and then goes
/// by what is heard.
pub proof fn law_a_reception_starts_with_nothing<R: Radio>(
    air: Air<R>,
    refusal: ZigbeeError,
    node: &mut ZigbeeTransport<R>,
    states: Seq<Option<TransmissionView>>,
    most: usize,
    outcome: Result<Reception, ZigbeeError>,
)
    requires
        keeps(air, refusal, node@.timeout),
        leads_through((air.ear)(node@.radio), states),
        ends((air.ear)(node@.radio)[states.len() - 1], states.last()),
        states[0] is None,
        call_ensures(ZigbeeTransport::<R>::receive_one, (node, most), outcome),
    ensures
        most < states.len() ==> {
            &&& outcome matches Ok(Reception::Underway(paused))
            &&& paused@.state == states[most as int]
            &&& paused@.opened == (most > 0)
            &&& (air.out)(final(node)@.radio) == (air.out)(old(node)@.radio)
            &&& (air.room)(final(node)@.radio) == (air.room)(old(node)@.radio)
            &&& (air.ear)(final(node)@.radio) == (air.ear)(old(node)@.radio).skip(most as int)
        },
        most >= states.len() ==> {
            &&& ended(
                air,
                refusal,
                old(node)@.radio,
                states.len() > 1,
                states.last(),
                (air.ear)(old(node)@.radio)[states.len() - 1],
                final(node)@.radio,
                outcome_view(outcome),
            )
            &&& (air.ear)(final(node)@.radio) == (air.ear)(old(node)@.radio).skip(
                states.len() as int,
            )
        },
        final(node)@.counter == old(node)@.counter,
        unchanged_but_for_radio_and_counter(old(node)@, final(node)@),
{
    lemma_received_follows(
        air,
        refusal,
        node@.timeout,
        node@.radio,
        unopened(),
        states,
        most as nat,
        final(node)@.radio,
        outcome_view(outcome),
    );
}

/// A new reception has nothing under way and has heard nothing.
pub proof fn law_a_new_reception_has_heard_nothing(made: Listening)
    requires
        call_ensures(Listening::new, (), made),
    ensures
        made@.state is None,
        !made@.opened,
{
}

/// Two runs of bytes that are laid out the same are the same.
pub proof fn law_a_layout_leaves_nothing_open(
    one: Seq<u8>,
    two: Seq<u8>,
    header: Header,
    ack: bool,
    ack_request: bool,
    fragment: Option<Fragment>,
    payload: Seq<u8>,
)
    requires
        laid_out(one, header, ack, ack_request, fragment, payload),
        laid_out(two, header, ack, ack_request, fragment, payload),
    ensures
        one == two,
{
    let start: int = if fragment is Some {
        18
    } else {
        16
    };
    assert(one.len() == two.len());
    assert forall|i: int| 0 <= i < one.len() implies one[i] == two[i] by {
        if i >= start {
            assert(one.skip(start)[i - start] == one[i]);
            assert(two.skip(start)[i - start] == two[i]);
        }
    }
    assert(one =~= two);
}

/// A Stream is on the air in one way.
proof fn lemma_on_air_is_framed(names: Header, bytes: Seq<u8>, out: Seq<Seq<u8>>)
    requires
        bytes.len() <= 24990,
        on_air(names, bytes, out),
    ensures
        out == encodings(framed(names, bytes)),
{
    let all = encodings(framed(names, bytes));
    lemma_framed_on_air(names, bytes);
    assert(out.len() == all.len());
    assert forall|i: int| 0 <= i < out.len() implies out[i] == all[i] by {
        if bytes.len() <= 100 {
            law_a_layout_leaves_nothing_open(out[i], all[i], names, false, true, None, bytes);
        } else {
            law_a_layout_leaves_nothing_open(
                out[i],
                all[i],
                names,
                false,
                true,
                Some(nth_fragment(i, out.len() as int)),
                nth_block(bytes, i, out.len() as int),
            );
        }
    }
    assert(out =~= all);
}

/// What a node has under way behind each of the frames of a Stream.
spec fn stages(header: Header, bytes: Seq<u8>) -> Seq<Option<TransmissionView>> {
    Seq::new(
        framed(header, bytes).len(),
        |i: int| fed(None, framed(header, bytes).take(i))->Ok_0.0,
    )
}

/// The frames of a Stream lead a node with nothing under way through these
/// stages, and the last makes it whole.
proof fn lemma_stream_leads_through(
    header: Header,
    bytes: Seq<u8>,
    heard: Seq<Result<Option<Seq<u8>>, ZigbeeError>>,
)
    requires
        bytes.len() <= 24990,
        heard.len() >= framed(header, bytes).len(),
        forall|i: int|
            0 <= i < framed(header, bytes).len() ==> #[trigger] heard[i] == Ok::<
                Option<Seq<u8>>,
                ZigbeeError,
            >(Some(encoded(framed(header, bytes)[i]))),
    ensures
        framed(header, bytes).len() > 0,
        leads_through(heard, stages(header, bytes)),
        stages(header, bytes)[0] is None,
        decoded(encoded(framed(header, bytes).last())) == Ok::<FrameView, ZigbeeError>(
            framed(header, bytes).last(),
        ),
        handled(stages(header, bytes).last(), framed(header, bytes).last()) matches Ok((_, answer))
            && answer.complete == Some((header, bytes)),
{
    let all = framed(header, bytes);
    let states = stages(header, bytes);
    assert(crate::frame::MAX_STREAM == 24990) by (nonlinear_arith);
    lemma_framed_is_cut(header, bytes);
    law_a_stream_comes_back_whole(header, bytes);
    let answers = silence((all.len() - 1) as nat).push(made_whole(all.last(), header, bytes));
    assert forall|i: int| 0 <= i < all.len() implies {
        &&& decoded(encoded(#[trigger] all[i])) == Ok::<FrameView, ZigbeeError>(all[i])
        &&& handled(states[i], all[i]) matches Ok((rest, answer)) && answer == answers[i] && (i
            + 1 < all.len() ==> rest == states[i + 1])
    } by {
        crate::frame::law_frames_are_numbered_blocks(header, bytes, i);
        law_decode_undoes_encode(all[i]);
        lemma_fed_prefix(None, all, i + 1);
        lemma_fed_prefix(None, all, i);
        assert(all.take(i + 1).drop_last() =~= all.take(i));
        let upto = fed(None, all.take(i + 1))->Ok_0.1;
        assert(upto.last() == answers.take(i + 1)[i]);
    }
    assert(all.take(0) =~= Seq::empty());
    assert forall|i: int| 0 <= i < states.len() - 1 implies {
        &&& (#[trigger] heard[i]) matches Ok(Some(at))
        &&& goes_on(states[i], at, states[i + 1])
    } by {
        assert(answers[i] == nothing());
        assert(decoded(encoded(all[i])) == Ok::<FrameView, ZigbeeError>(all[i]));
    }
    assert(all.last() == all[all.len() - 1]);
}

/// A Stream that is on the air under these names arrives: heard frame by frame
/// by a node that has room for the acknowledgement, its bytes are what was
/// sent, from the sender, endpoint and cluster that the names say; one frame
/// is put out, the acknowledgement of the last, back to the sender; and the
/// node listened as often as there were frames. Asked to hear fewer, it is
/// not over and has put nothing out.
pub proof fn law_a_stream_on_the_air_arrives<R: Radio>(
    air: Air<R>,
    refusal: ZigbeeError,
    node: &mut ZigbeeTransport<R>,
    names: Header,
    bytes: Seq<u8>,
    heard: Seq<Seq<u8>>,
    most: usize,
    outcome: Result<Reception, ZigbeeError>,
)
    requires
        bytes.len() <= 24990,
        on_air(names, bytes, heard),
        keeps(air, refusal, node@.timeout),
        (air.ear)(node@.radio).len() >= heard.len(),
        forall|i: int|
            0 <= i < heard.len() ==> #[trigger] (air.ear)(node@.radio)[i] == Ok::<
                Option<Seq<u8>>,
                ZigbeeError,
            >(Some(heard[i])),
        (air.room)(node@.radio) > 0,
        call_ensures(ZigbeeTransport::<R>::receive_one, (node, most), outcome),
    ensures
        most >= heard.len() ==> {
            &&& outcome matches Ok(Reception::Arrived(arrived))
            &&& arrived.origin_uri@ == arrival_text(final(node)@.radio.called(), names)
            &&& arrived.bytes@ == bytes
            &&& put_behind(
                air,
                old(node)@.radio,
                names,
                if bytes.len() <= 100 {
                    None
                } else {
                    Some(nth_fragment(heard.len() - 1, heard.len() as int))
                },
                final(node)@.radio,
            )
            &&& (air.ear)(final(node)@.radio) == (air.ear)(old(node)@.radio).skip(
                heard.len() as int,
            )
        },
        most < heard.len() ==> {
            &&& outcome matches Ok(Reception::Underway(paused))
            &&& paused@.opened == (most > 0)
            &&& (air.out)(final(node)@.radio) == (air.out)(old(node)@.radio)
            &&& (air.ear)(final(node)@.radio) == (air.ear)(old(node)@.radio).skip(most as int)
        },
{
    let all = framed(names, bytes);
    let ear = (air.ear)(node@.radio);
    lemma_on_air_is_framed(names, bytes, heard);
    assert forall|i: int| 0 <= i < all.len() implies #[trigger] ear[i] == Ok::<
        Option<Seq<u8>>,
        ZigbeeError,
    >(Some(encoded(all[i]))) by {
        assert(heard[i] == encoded(all[i]));
    }
    lemma_stream_leads_through(names, bytes, ear);
    lemma_framed_is_cut(names, bytes);
    let states = stages(names, bytes);
    assert(ear[states.len() - 1] == Ok::<Option<Seq<u8>>, ZigbeeError>(
        Some(encoded(all.last())),
    ));
    law_a_reception_starts_with_nothing(air, refusal, node, states, most, outcome);
}

/// A reception of a Stream that is broken off and gone on with ends as one that
/// is not: whatever was heard before, the rest makes the Stream whole.
#[verifier::rlimit(40)]
pub proof fn law_a_broken_off_stream_arrives<R: Radio>(
    air: Air<R>,
    refusal: ZigbeeError,
    first: &mut ZigbeeTransport<R>,
    names: Header,
    bytes: Seq<u8>,
    heard: Seq<Seq<u8>>,
    few: usize,
    paused: Listening,
    second: &mut ZigbeeTransport<R>,
    most: usize,
    outcome: Result<Reception, ZigbeeError>,
)
    requires
        bytes.len() <= 24990,
        on_air(names, bytes, heard),
        keeps(air, refusal, first@.timeout),
        (air.ear)(first@.radio).len() >= heard.len(),
        forall|i: int|
            0 <= i < heard.len() ==> #[trigger] (air.ear)(first@.radio)[i] == Ok::<
                Option<Seq<u8>>,
                ZigbeeError,
            >(Some(heard[i])),
        (air.room)(first@.radio) > 0,
        few < heard.len() <= few + most,
        call_ensures(
            ZigbeeTransport::<R>::receive_one,
            (first, few),
            Ok(Reception::Underway(paused)),
        ),
        *second == *final(first),
        call_ensures(ZigbeeTransport::<R>::receive_more, (second, paused, most), outcome),
    ensures
        outcome matches Ok(Reception::Arrived(arrived)) && {
            &&& arrived.origin_uri@ == arrival_text(final(second)@.radio.called(), names)
            &&& arrived.bytes@ == bytes
        },
        put_behind(
            air,
            old(first)@.radio,
            names,
            if bytes.len() <= 100 {
                None
            } else {
                Some(nth_fragment(heard.len() - 1, heard.len() as int))
            },
            final(second)@.radio,
        ),
        (air.ear)(final(second)@.radio) == (air.ear)(old(first)@.radio).skip(heard.len() as int),
{
    let all = framed(names, bytes);
    let ear = (air.ear)(first@.radio);
    lemma_on_air_is_framed(names, bytes, heard);
    assert forall|i: int| 0 <= i < all.len() implies #[trigger] ear[i] == Ok::<
        Option<Seq<u8>>,
        ZigbeeError,
    >(Some(encoded(all[i]))) by {
        assert(heard[i] == encoded(all[i]));
    }
    lemma_stream_leads_through(names, bytes, ear);
    lemma_framed_is_cut(names, bytes);
    let states = stages(names, bytes);
    assert(ear[states.len() - 1] == Ok::<Option<Seq<u8>>, ZigbeeError>(
        Some(encoded(all.last())),
    ));
    law_a_reception_starts_with_nothing(
        air,
        refusal,
        first,
        states,
        few,
        Ok(Reception::Underway(paused)),
    );
    let rest = states.skip(few as int);
    let later = (air.ear)(second@.radio);
    assert(later == ear.skip(few as int));
    assert forall|i: int| 0 <= i < rest.len() - 1 implies {
        &&& (#[trigger] later[i]) matches Ok(Some(at))
        &&& goes_on(rest[i], at, rest[i + 1])
    } by {
        assert(later[i] == ear[few + i]);
        assert(rest[i] == states[few + i] && rest[i + 1] == states[few + i + 1]);
    }
    assert(later[rest.len() - 1] == ear[states.len() - 1]);
    assert(rest.last() == states.last());
    law_a_reception_goes_by_what_is_heard(air, refusal, second, paused, rest, most, outcome);
    assert(ear.skip(few as int).skip(rest.len() as int) =~= ear.skip(heard.len() as int));
}

/// Bytes that are taken off the air go the way of a frame that is read and
/// handed to the node: what cannot be read, or is refused, changes nothing and
/// puts nothing out; else the node is where the frame takes it, what it has to
/// say is put out as it is written, and what it took whole is what comes back,
/// unless the radio refused.
pub proof fn law_bytes_taken_in_are_read_and_handled<R: Radio>(
    air: Air<R>,
    refusal: ZigbeeError,
    node: &mut ZigbeeTransport<R>,
    receiver: &mut Reassembly,
    bytes: &[u8],
    result: Result<Option<(Header, Vec<u8>)>, ZigbeeError>,
    read: Result<Frame, ZigbeeError>,
    twin: &mut Reassembly,
    answer: Result<Response, ZigbeeError>,
    said: Seq<Vec<u8>>,
)
    requires
        keeps(air, refusal, node@.timeout),
        call_ensures(ZigbeeTransport::<R>::take_in, (node, receiver, bytes), result),
        call_ensures(Frame::decode, (bytes,), read),
        twin@ == receiver@,
        read matches Ok(frame) ==> call_ensures(Reassembly::handle, (twin, &frame), answer),
        answer matches Ok(response) ==> said.len() == response.acks@.len() && forall|i: int|
            0 <= i < said.len() ==> call_ensures(
                Frame::encode,
                (&response.acks@[i],),
                #[trigger] said[i],
            ),
    ensures
        match (read, answer) {
            (Err(error), _) | (Ok(_), Err(error)) => {
                &&& result matches Err(why) && why == error
                &&& final(node)@ == old(node)@
                &&& final(receiver)@ == old(receiver)@
            },
            (Ok(_), Ok(response)) => {
                &&& final(receiver)@ == final(twin)@
                &&& (air.ear)(final(node)@.radio) == (air.ear)(old(node)@.radio)
                &&& if said.len() <= (air.room)(old(node)@.radio) {
                    &&& result matches Ok(whole)
                    &&& match response.complete {
                        Some((header, payload)) => whole matches Some((of, taken)) && of == header
                            && taken@ == payload@,
                        None => whole is None,
                    }
                    &&& (air.out)(final(node)@.radio) == (air.out)(old(node)@.radio)
                        + said.map_values(|bytes: Vec<u8>| bytes@)
                } else {
                    &&& result matches Err(why) && why == refusal
                    &&& (air.out)(final(node)@.radio) == (air.out)(old(node)@.radio)
                        + said.map_values(|bytes: Vec<u8>| bytes@).take(
                        (air.room)(old(node)@.radio) as int,
                    )
                }
            },
        },
        final(node)@.counter == old(node)@.counter,
        unchanged_but_for_radio_and_counter(old(node)@, final(node)@),
{
    if let Ok(frame) = read {
        if let Ok(response) = answer {
            let acks = encodings(response@.acks);
            let written = said.map_values(|bytes: Vec<u8>| bytes@);
            assert forall|i: int| 0 <= i < acks.len() implies acks[i] == written[i] by {
                assert(said[i]@ == encoded(response.acks@[i]@));
            }
            assert(acks =~= written);
            lemma_put_on_air(
                air,
                refusal,
                node@.timeout,
                node@.radio,
                acks,
                final(node)@.radio,
                match result {
                    Ok(_) => Ok(()),
                    Err(error) => Err(error),
                },
            );
        }
    }
}

} // verus!

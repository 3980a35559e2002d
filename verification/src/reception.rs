//! What holds of sending and receiving over any radio.
use std::time::Duration;

use vstd::prelude::*;

use crate::error::ZigbeeError;
use crate::exchange::{
    acknowledges, answered, answered_whole, carried, heard_many, heard_one, put_out, sent,
};
use crate::frame::{
    acknowledgement, encoded, framed, law_decode_undoes_encode,
    law_frames_are_numbered_blocks, law_frames_fit_the_mac, lemma_block_count, Header, MAX_STREAM,
    MAX_UNFRAGMENTED,
};
use crate::node::{
    arrival_of, arrived_whole, carried_on, listening_ended, next_count, received, unopened,
    ArrivedView, ListeningView, ReceptionView,
};
use crate::radio::{encodings, Radio};
use crate::reassembly::{
    fed, handled, law_a_stream_comes_back_whole, lemma_fed_prefix, made_whole, silence,
    TransmissionView,
};

verus! {

/// Hearing frames and then hearing more is hearing them all.
proof fn lemma_heard_on<R: Radio>(
    before: R,
    timeout: Duration,
    state: Option<TransmissionView>,
    first: nat,
    middle: R,
    between: Option<TransmissionView>,
    second: nat,
    after: R,
    next: Option<TransmissionView>,
)
    requires
        heard_many(before, timeout, state, first, middle, between),
        heard_many(middle, timeout, between, second, after, next),
    ensures
        heard_many(before, timeout, state, first + second, after, next),
    decreases second,
{
    if second > 0 {
        let less = (second - 1) as nat;
        let (radio, at) = choose|radio: R, at: Option<TransmissionView>|
            {
                &&& heard_many(middle, timeout, between, less, radio, at)
                &&& #[trigger] heard_one(radio, timeout, at, after, next)
            };
        lemma_heard_on(before, timeout, state, first, middle, between, less, radio, at);
        assert((first + second - 1) as nat == first + less);
    }
}

/// A reception that is broken off after so many frames and gone on with is
/// the same as one that was not broken off.
pub proof fn law_a_reception_can_be_gone_on_with<R: Radio>(
    before: R,
    timeout: Duration,
    listening: ListeningView,
    first: nat,
    middle: R,
    paused: ListeningView,
    second: nat,
    after: R,
    outcome: Result<ReceptionView, ZigbeeError>,
)
    requires
        received(before, timeout, listening, first, middle, Ok(ReceptionView::Underway(paused))),
        received(middle, timeout, paused, second, after, outcome),
    ensures
        received(before, timeout, listening, first + second, after, outcome),
{
    let state = paused.state;
    assert(heard_many(before, timeout, listening.state, first, middle, state)
        && paused == carried_on(listening, first, state)) by {
        let at = choose|at: Option<TransmissionView>|
            {
                &&& #[trigger] heard_many(before, timeout, listening.state, first, middle, at)
                &&& Ok::<ReceptionView, ZigbeeError>(ReceptionView::Underway(paused)) == Ok::<
                    ReceptionView,
                    ZigbeeError,
                >(ReceptionView::Underway(carried_on(listening, first, at)))
            };
        assert(paused == carried_on(listening, first, at));
    }
    if exists|next: Option<TransmissionView>|
        {
            &&& #[trigger] heard_many(middle, timeout, state, second, after, next)
            &&& outcome == Ok::<ReceptionView, ZigbeeError>(
                ReceptionView::Underway(carried_on(paused, second, next)),
            )
        } {
        let next = choose|next: Option<TransmissionView>|
            {
                &&& #[trigger] heard_many(middle, timeout, state, second, after, next)
                &&& outcome == Ok::<ReceptionView, ZigbeeError>(
                    ReceptionView::Underway(carried_on(paused, second, next)),
                )
            };
        lemma_heard_on(
            before,
            timeout,
            listening.state,
            first,
            middle,
            state,
            second,
            after,
            next,
        );
        assert(carried_on(paused, second, next) == carried_on(listening, first + second, next));
    } else {
        let (count, last, at, heard, between) = choose|
            count: nat,
            last: R,
            at: Option<TransmissionView>,
            heard: Result<Option<Seq<u8>>, ZigbeeError>,
            between: R,
        |
            {
                &&& count < second
                &&& #[trigger] heard_many(middle, timeout, state, count, last, at)
                &&& #[trigger] listening_ended(
                    last,
                    timeout,
                    carried_on(paused, count, at),
                    heard,
                    between,
                    after,
                    outcome,
                )
            };
        lemma_heard_on(
            before,
            timeout,
            listening.state,
            first,
            middle,
            state,
            count,
            last,
            at,
        );
        assert(carried_on(paused, count, at) == carried_on(listening, first + count, at));
        assert(heard_many(before, timeout, listening.state, first + count, last, at));
        assert(listening_ended(
            last,
            timeout,
            carried_on(listening, first + count, at),
            heard,
            between,
            after,
            outcome,
        ));
    }
}

/// A radio on which frames are on their way: listening gives the next of
/// them, and putting a frame out always goes well and holds none of them up.
pub open spec fn delivers<R: Radio>(on_the_way: spec_fn(R) -> Seq<Seq<u8>>, timeout: Duration) -> bool {
    &&& forall|before: R, after: R, heard: Result<Option<Seq<u8>>, ZigbeeError>|
        #[trigger] R::receives(before, timeout, after, heard) && on_the_way(before).len() > 0 ==> {
            &&& heard == Ok::<Option<Seq<u8>>, ZigbeeError>(Some(on_the_way(before)[0]))
            &&& on_the_way(after) == on_the_way(before).skip(1)
        }
    &&& forall|before: R, frame: Seq<u8>, after: R, result: Result<(), ZigbeeError>|
        #[trigger] R::transmits(before, frame, after, result) ==> {
            &&& result == Ok::<(), ZigbeeError>(())
            &&& on_the_way(after) == on_the_way(before)
        }
}

/// Frames put out hold up none that are on their way.
proof fn lemma_put_out_delivers<R: Radio>(
    on_the_way: spec_fn(R) -> Seq<Seq<u8>>,
    timeout: Duration,
    before: R,
    frames: Seq<Seq<u8>>,
    after: R,
)
    requires
        delivers(on_the_way, timeout),
        carried(before, frames, after),
    ensures
        on_the_way(after) == on_the_way(before),
    decreases frames.len(),
{
    if frames.len() > 0 {
        let middle = choose|middle: R|
            {
                &&& carried(before, frames.drop_last(), middle)
                &&& #[trigger] R::transmits(middle, frames.last(), after, Ok(()))
            };
        lemma_put_out_delivers(on_the_way, timeout, before, frames.drop_last(), middle);
    }
}

/// A node that the frames of a Stream are delivered to, and that has heard
/// `count` of them without taking anything whole, has not heard the last, and
/// is where a node is that was handed so many.
proof fn lemma_heard_part_of_a_stream<R: Radio>(
    on_the_way: spec_fn(R) -> Seq<Seq<u8>>,
    before: R,
    timeout: Duration,
    header: Header,
    bytes: Seq<u8>,
    count: nat,
    after: R,
    state: Option<TransmissionView>,
)
    requires
        bytes.len() <= MAX_STREAM,
        delivers(on_the_way, timeout),
        on_the_way(before) == encodings(framed(header, bytes)),
        heard_many(before, timeout, None, count, after, state),
    ensures
        count < framed(header, bytes).len(),
        on_the_way(after) == encodings(framed(header, bytes)).skip(count as int),
        fed(None, framed(header, bytes).take(count as int)) matches Ok((rest, _)) && rest == state,
    decreases count,
{
    let frames = framed(header, bytes);
    let out = encodings(frames);
    law_a_stream_comes_back_whole(header, bytes);
    let responses = fed(None, frames)->Ok_0.1;
    if count == 0 {
        if bytes.len() > MAX_UNFRAGMENTED {
            lemma_block_count(bytes.len());
        }
        assert(out.skip(0) =~= out);
        assert(frames.take(0) =~= Seq::empty());
    } else {
        let less = (count - 1) as nat;
        let (last, between) = choose|last: R, between: Option<TransmissionView>|
            {
                &&& heard_many(before, timeout, None, less, last, between)
                &&& #[trigger] heard_one(last, timeout, between, after, state)
            };
        lemma_heard_part_of_a_stream(
            on_the_way,
            before,
            timeout,
            header,
            bytes,
            less,
            last,
            between,
        );
        let (middle, heard) = choose|middle: R, heard: Seq<u8>|
            {
                &&& R::receives(last, timeout, middle, Ok(Some(heard)))
                &&& #[trigger] answered(middle, between, heard, after, Ok((state, None)))
            };
        let frame = frames[less as int];
        law_frames_are_numbered_blocks(header, bytes, less as int);
        law_decode_undoes_encode(frame);
        assert(heard == encoded(frame));
        assert(frames.take(count as int).drop_last() =~= frames.take(less as int));
        lemma_fed_prefix(None, frames, count as int);
        lemma_put_out_delivers(
            on_the_way,
            timeout,
            middle,
            encodings(handled(between, frame)->Ok_0.1.acks),
            after,
        );
        assert(out.skip(less as int).skip(1) =~= out.skip(count as int));
    }
}

/// A node takes a transmission over any radio: where the frames of a Stream
/// are delivered to it in order and it may hear as many, what arrives is the
/// Stream's bytes from the sender that the header names, and the last thing
/// it puts out is the acknowledgement of the last frame.
pub proof fn law_a_node_takes_a_stream_over_any_radio<R: Radio>(
    on_the_way: spec_fn(R) -> Seq<Seq<u8>>,
    before: R,
    timeout: Duration,
    header: Header,
    bytes: Seq<u8>,
    most: nat,
    after: R,
    outcome: Result<ReceptionView, ZigbeeError>,
)
    requires
        bytes.len() <= MAX_STREAM,
        most >= framed(header, bytes).len(),
        delivers(on_the_way, timeout),
        on_the_way(before) == encodings(framed(header, bytes)),
        received(before, timeout, unopened(), most, after, outcome),
    ensures
        outcome == Ok::<ReceptionView, ZigbeeError>(
            ReceptionView::Arrived(
                ArrivedView { origin_uri: arrival_of(after.called(), header), bytes },
            ),
        ),
        exists|last: R|
            #[trigger] carried(
                last,
                seq![encoded(acknowledgement(framed(header, bytes).last()))],
                after,
            ),
        on_the_way(after).len() == 0,
{
    let frames = framed(header, bytes);
    let out = encodings(frames);
    law_a_stream_comes_back_whole(header, bytes);
    if exists|state: Option<TransmissionView>|
        #[trigger] heard_many(before, timeout, None, most, after, state) {
        let state = choose|state: Option<TransmissionView>|
            #[trigger] heard_many(before, timeout, None, most, after, state);
        lemma_heard_part_of_a_stream(
            on_the_way,
            before,
            timeout,
            header,
            bytes,
            most,
            after,
            state,
        );
        assert(false);
    }
    let (count, last, state, heard, middle) = choose|
        count: nat,
        last: R,
        state: Option<TransmissionView>,
        heard: Result<Option<Seq<u8>>, ZigbeeError>,
        middle: R,
    |
        {
            &&& count < most
            &&& #[trigger] heard_many(before, timeout, unopened().state, count, last, state)
            &&& #[trigger] listening_ended(
                last,
                timeout,
                carried_on(unopened(), count, state),
                heard,
                middle,
                after,
                outcome,
            )
        };
    lemma_heard_part_of_a_stream(
        on_the_way,
        before,
        timeout,
        header,
        bytes,
        count,
        last,
        state,
    );
    let frame = frames[count as int];
    let through: int = count as int + 1;
    law_frames_are_numbered_blocks(header, bytes, count as int);
    law_decode_undoes_encode(frame);
    assert(heard == Ok::<Option<Seq<u8>>, ZigbeeError>(Some(encoded(frame))));
    assert(frames.take(through).drop_last() =~= frames.take(count as int));
    lemma_fed_prefix(None, frames, through);
    let (rest, response) = handled(state, frame)->Ok_0;
    let quiet = silence((frames.len() - 1) as nat);
    let answers = quiet.push(made_whole(frames.last(), header, bytes));
    assert(response == answers[count as int]) by {
        let upto = fed(None, frames.take(through))->Ok_0.1;
        assert(upto.last() == response);
        assert(upto == answers.take(through));
    }
    let acks = encodings(response.acks);
    if outcome is Err {
        let error = outcome->Err_0;
        let (at, radio) = choose|at: int, radio: R|
            {
                &&& 0 <= at < acks.len()
                &&& #[trigger] carried(middle, acks.take(at), radio)
                &&& R::transmits(radio, acks[at], after, Err(error))
            };
        assert(false);
    }
    let arrived = outcome->Ok_0->Arrived_0;
    assert(arrived_whole(middle, state, encoded(frame), after, arrived));
    let (remains, named) = choose|remains: Option<TransmissionView>, named: Header|
        {
            &&& #[trigger] answered_whole(
                middle,
                state,
                encoded(frame),
                after,
                remains,
                named,
                arrived.bytes,
            )
            &&& arrived.origin_uri == arrival_of(after.called(), named)
        };
    assert(response.complete == Some((named, arrived.bytes)));
    assert(count + 1 == frames.len());
    assert(acks =~= seq![encoded(acknowledgement(frames.last()))]);
    assert(carried(middle, acks, after));
    lemma_put_out_delivers(on_the_way, timeout, middle, acks, after);
    assert(out.skip(count as int).skip(1).len() == 0);
}

/// The sender accepts what a node puts out for the last frame of its
/// transmission, and refuses the acknowledgement of any other transmission.
pub proof fn law_the_sender_accepts_its_acknowledgement(
    header: Header,
    bytes: Seq<u8>,
    counter: u8,
)
    requires
        bytes.len() <= MAX_STREAM,
    ensures
        acknowledges(
            counter,
            Ok(Some(encoded(acknowledgement(framed(header, bytes).last())))),
        ) == if counter == header.counter {
            Ok::<(), ZigbeeError>(())
        } else {
            Err(ZigbeeError::AnotherAcknowledgement)
        },
{
    let frames = framed(header, bytes);
    if bytes.len() > MAX_UNFRAGMENTED {
        lemma_block_count(bytes.len());
    }
    let last = frames.last();
    law_frames_are_numbered_blocks(header, bytes, frames.len() - 1);
    law_frames_fit_the_mac(last.header, last.fragment, last.payload);
    law_decode_undoes_encode(acknowledgement(last));
}

/// A Stream is sent over any radio: where the radio takes every frame and the
/// next thing it delivers is the acknowledgement of the last, the frames went
/// out in order and the sending went well.
pub proof fn law_a_stream_is_sent_over_any_radio<R: Radio>(
    on_the_way: spec_fn(R) -> Seq<Seq<u8>>,
    before: R,
    timeout: Duration,
    header: Header,
    bytes: Seq<u8>,
    after: R,
    result: Result<(), ZigbeeError>,
)
    requires
        bytes.len() <= MAX_STREAM,
        delivers(on_the_way, timeout),
        on_the_way(before).len() > 0,
        on_the_way(before)[0] == encoded(acknowledgement(framed(header, bytes).last())),
        sent(before, header, bytes, timeout, after, result),
    ensures
        result == Ok::<(), ZigbeeError>(()),
        exists|middle: R|
            {
                &&& #[trigger] carried(before, encodings(framed(header, bytes)), middle)
                &&& exists|reply: Result<Option<Seq<u8>>, ZigbeeError>|
                    #[trigger] R::receives(middle, timeout, after, reply)
            },
        on_the_way(after) == on_the_way(before).skip(1),
{
    let out = encodings(framed(header, bytes));
    if result is Err && put_out(before, out, after, result) {
        let error = result->Err_0;
        let (at, radio) = choose|at: int, radio: R|
            {
                &&& 0 <= at < out.len()
                &&& #[trigger] carried(before, out.take(at), radio)
                &&& R::transmits(radio, out[at], after, Err(error))
            };
        assert(false);
    }
    let (middle, reply) = choose|middle: R, reply: Result<Option<Seq<u8>>, ZigbeeError>|
        {
            &&& carried(before, out, middle)
            &&& #[trigger] R::receives(middle, timeout, after, reply)
            &&& result == acknowledges(header.counter, reply)
        };
    lemma_put_out_delivers(on_the_way, timeout, before, out, middle);
    law_the_sender_accepts_its_acknowledgement(header, bytes, header.counter);
}

/// The counter behind so many transmissions.
pub open spec fn count_after(counter: u8, transmissions: nat) -> u8
    decreases transmissions,
{
    if transmissions == 0 {
        counter
    } else {
        next_count(count_after(counter, (transmissions - 1) as nat))
    }
}

/// A transmission is known by its counter: it comes round after 256, so no
/// two of fewer have the same.
pub proof fn law_counters_tell_transmissions_apart(counter: u8, apart: nat)
    ensures
        count_after(counter, apart) == (counter + apart) % 256,
        0 < apart < 256 ==> count_after(counter, apart) != counter,
    decreases apart,
{
    if apart > 0 {
        law_counters_tell_transmissions_apart(counter, (apart - 1) as nat);
    }
}

} // verus!

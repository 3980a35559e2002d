//! What goes over the air between a node and its radio: a run of frames put
//! out, a transmission sent and acknowledged, a transmission taken.
use std::time::Duration;

use vstd::prelude::*;

use crate::error::ZigbeeError;
use crate::frame::{decoded, framed, Header, MAX_STREAM};
use crate::radio::{encodings, Radio};
use crate::reassembly::{handled, TransmissionView};

verus! {

/// The radio took every one of `frames`, in order, on its way from `before`
/// to `after`.
pub open spec fn carried<R: Radio>(before: R, frames: Seq<Seq<u8>>, after: R) -> bool
    decreases frames.len(),
{
    if frames.len() == 0 {
        after == before
    } else {
        exists|middle: R|
            {
                &&& carried(before, frames.drop_last(), middle)
                &&& #[trigger] R::transmits(middle, frames.last(), after, Ok(()))
            }
    }
}

/// The radio was handed `frames` in order: it took all of them, or all before
/// one that it refused, and was handed none behind that.
pub open spec fn put_out<R: Radio>(
    before: R,
    frames: Seq<Seq<u8>>,
    after: R,
    result: Result<(), ZigbeeError>,
) -> bool {
    match result {
        Ok(_) => carried(before, frames, after),
        Err(error) => exists|count: int, middle: R|
            {
                &&& 0 <= count < frames.len()
                &&& #[trigger] carried(before, frames.take(count), middle)
                &&& R::transmits(middle, frames[count], after, Err(error))
            },
    }
}

/// Whether a reply acknowledges the transmission under `counter`.
pub open spec fn acknowledges(counter: u8, reply: Result<Option<Seq<u8>>, ZigbeeError>) -> Result<
    (),
    ZigbeeError,
> {
    match reply {
        Err(error) => Err(error),
        Ok(None) => Err(ZigbeeError::NoAcknowledgement),
        Ok(Some(bytes)) => match decoded(bytes) {
            Err(error) => Err(error),
            Ok(frame) => if frame.ack && frame.header.counter == counter {
                Ok(())
            } else {
                Err(ZigbeeError::AnotherAcknowledgement)
            },
        },
    }
}

/// `bytes` were sent under `header` as one transmission: nothing went out
/// where they are more than a transmission carries; else its frames went out
/// in order, and where the radio took them all it was listened to once for
/// the acknowledgement.
pub open spec fn sent<R: Radio>(
    before: R,
    header: Header,
    bytes: Seq<u8>,
    timeout: Duration,
    after: R,
    result: Result<(), ZigbeeError>,
) -> bool {
    if bytes.len() > MAX_STREAM {
        &&& after == before
        &&& result == Err::<(), ZigbeeError>(
            ZigbeeError::OverCeiling { length: bytes.len() as usize, ceiling: MAX_STREAM },
        )
    } else {
        let frames = encodings(framed(header, bytes));
        ||| (result is Err && put_out(before, frames, after, result))
        ||| exists|middle: R, reply: Result<Option<Seq<u8>>, ZigbeeError>|
            {
                &&& carried(before, frames, middle)
                &&& #[trigger] R::receives(middle, timeout, after, reply)
                &&& result == acknowledges(header.counter, reply)
            }
    }
}

/// A node with `state` under way took bytes off the air and put its
/// acknowledgements out: what it has under way then and what it took whole,
/// or why bytes or acknowledgement were refused.
pub open spec fn answered<R: Radio>(
    before: R,
    state: Option<TransmissionView>,
    bytes: Seq<u8>,
    after: R,
    result: Result<(Option<TransmissionView>, Option<(Header, Seq<u8>)>), ZigbeeError>,
) -> bool {
    match decoded(bytes) {
        Err(error) => after == before && result == Err::<
            (Option<TransmissionView>, Option<(Header, Seq<u8>)>),
            ZigbeeError,
        >(error),
        Ok(frame) => match handled(state, frame) {
            Err(error) => after == before && result == Err::<
                (Option<TransmissionView>, Option<(Header, Seq<u8>)>),
                ZigbeeError,
            >(error),
            Ok((rest, response)) => match result {
                Ok(outcome) => {
                    &&& put_out(before, encodings(response.acks), after, Ok(()))
                    &&& outcome == (rest, response.complete)
                },
                Err(error) => put_out(before, encodings(response.acks), after, Err(error)),
            },
        },
    }
}

/// A node with `state` under way took bytes off the air, put its
/// acknowledgements out, and so took `payload` whole under `header`.
pub open spec fn answered_whole<R: Radio>(
    before: R,
    state: Option<TransmissionView>,
    bytes: Seq<u8>,
    after: R,
    rest: Option<TransmissionView>,
    header: Header,
    payload: Seq<u8>,
) -> bool {
    answered(before, state, bytes, after, Ok((rest, Some((header, payload)))))
}

/// A node with `state` under way heard one frame more, answered it, and has
/// `next` under way without having taken anything whole.
pub open spec fn heard_one<R: Radio>(
    before: R,
    timeout: Duration,
    state: Option<TransmissionView>,
    after: R,
    next: Option<TransmissionView>,
) -> bool {
    exists|middle: R, bytes: Seq<u8>|
        {
            &&& R::receives(before, timeout, middle, Ok(Some(bytes)))
            &&& #[trigger] answered(middle, state, bytes, after, Ok((next, None)))
        }
}

/// As [`heard_one`], `count` times.
pub open spec fn heard_many<R: Radio>(
    before: R,
    timeout: Duration,
    state: Option<TransmissionView>,
    count: nat,
    after: R,
    next: Option<TransmissionView>,
) -> bool
    decreases count,
{
    if count == 0 {
        after == before && next == state
    } else {
        exists|middle: R, between: Option<TransmissionView>|
            {
                &&& heard_many(
                    before,
                    timeout,
                    state,
                    (count - 1) as nat,
                    middle,
                    between,
                )
                &&& #[trigger] heard_one(middle, timeout, between, after, next)
            }
    }
}

} // verus!

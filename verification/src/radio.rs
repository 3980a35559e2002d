//! The air as one node hears it, and the receiving node in-process that
//! stands in for it.
use std::collections::VecDeque;
use std::time::Duration;

use vstd::prelude::*;

use crate::error::ZigbeeError;
use crate::frame::{decoded, encoded, Frame, FrameView, Header};
use crate::reassembly::{handled, whole_view, Reassembly, TransmissionView};

verus! {

/// What was heard, its bytes as a sequence.
pub open spec fn heard_view(heard: Result<Option<Vec<u8>>, ZigbeeError>) -> Result<
    Option<Seq<u8>>,
    ZigbeeError,
> {
    match heard {
        Ok(Some(bytes)) => Ok(Some(bytes@)),
        Ok(None) => Ok(None),
        Err(error) => Err(error),
    }
}

/// Where frames go and come from: the air, as one node hears it.
///
/// A radio says for itself what it is called and what its two operations may
/// do, as relations between the radio before, what it is handed, the radio
/// after and what comes back. Nothing is asked of the relations: a radio that
/// states none may do anything.
pub trait Radio: Sized + Send + Sync {
    /// What the radio is called.
    open spec fn called(&self) -> Seq<char> {
        arbitrary()
    }

    /// Handed `frame`, the radio may go from `before` to `after` and give this
    /// result.
    open spec fn transmits(
        before: Self,
        frame: Seq<u8>,
        after: Self,
        result: Result<(), ZigbeeError>,
    ) -> bool {
        true
    }

    /// Listening for `timeout`, the radio may go from `before` to `after` and
    /// have heard this: a frame, nothing in time, or a failure.
    open spec fn receives(
        before: Self,
        timeout: Duration,
        after: Self,
        heard: Result<Option<Seq<u8>>, ZigbeeError>,
    ) -> bool {
        true
    }

    /// The radio's name, for the origin URI.
    fn name(&self) -> (name: &str)
        ensures
            name@ == self.called(),
    ;

    /// Put a frame on the air, or say why the radio refused it.
    fn transmit(&mut self, frame: &[u8]) -> (result: Result<(), ZigbeeError>)
        ensures
            Self::transmits(*old(self), frame@, *final(self), result),
    ;

    /// The next frame, or `None` when nothing arrived within `timeout`, or why
    /// the radio could not be read.
    fn receive(&mut self, timeout: Duration) -> (heard: Result<Option<Vec<u8>>, ZigbeeError>)
        ensures
            Self::receives(*old(self), timeout, *final(self), heard_view(heard)),
    ;
}

/// A run of frames as the radio carries them.
pub open spec fn encodings(frames: Seq<FrameView>) -> Seq<Seq<u8>> {
    Seq::new(frames.len(), |i: int| encoded(frames[i]))
}

/// The receiving node in-process: what the sender transmits, the node
/// reassembles and acknowledges, and the acknowledgement is what the sender
/// receives next.
pub struct LoopbackRadio {
    node: Reassembly,
    to_sender: VecDeque<Vec<u8>>,
    arrived: VecDeque<(Header, Vec<u8>)>,
}

/// A loopback radio: what its node has under way, what the sender receives
/// next, and what the node took whole.
#[verifier::ext_equal]
pub struct LoopbackView {
    pub node: Option<TransmissionView>,
    pub to_sender: Seq<Seq<u8>>,
    pub arrived: Seq<(Header, Seq<u8>)>,
}

/// Queued frames, their bytes as sequences.
spec fn queued(frames: Seq<Vec<u8>>) -> Seq<Seq<u8>> {
    Seq::new(frames.len(), |i: int| frames[i]@)
}

/// Transmissions taken whole, their bytes as sequences.
spec fn taken(transmissions: Seq<(Header, Vec<u8>)>) -> Seq<(Header, Seq<u8>)> {
    Seq::new(transmissions.len(), |i: int| (transmissions[i].0, transmissions[i].1@))
}

impl View for LoopbackRadio {
    type V = LoopbackView;

    closed spec fn view(&self) -> LoopbackView {
        LoopbackView {
            node: self.node@,
            to_sender: queued(self.to_sender@),
            arrived: taken(self.arrived@),
        }
    }
}

/// A loopback radio that nothing has been sent over.
pub open spec fn fresh() -> LoopbackView {
    LoopbackView { node: None, to_sender: Seq::empty(), arrived: Seq::empty() }
}

/// What the node inside a loopback radio does with bytes off the air: it
/// takes the frame they are, queues what it has to say back and keeps what it
/// took whole. Bytes that are no frame, or one out of place, are refused and
/// change nothing.
pub open spec fn taken_in(state: LoopbackView, bytes: Seq<u8>) -> (
    LoopbackView,
    Result<(), ZigbeeError>,
) {
    match decoded(bytes) {
        Err(error) => (state, Err(error)),
        Ok(frame) => match handled(state.node, frame) {
            Err(error) => (state, Err(error)),
            Ok((node, response)) => (
                LoopbackView {
                    node,
                    to_sender: state.to_sender + encodings(response.acks),
                    arrived: match response.complete {
                        Some(whole) => state.arrived.push(whole),
                        None => state.arrived,
                    },
                },
                Ok(()),
            ),
        },
    }
}

impl Default for LoopbackRadio {
    /// A radio that nothing has been sent over.
    fn default() -> (radio: Self)
        ensures
            radio@ == fresh(),
    {
        LoopbackRadio::new()
    }
}

impl LoopbackRadio {
    /// A radio that nothing has been sent over.
    #[must_use]
    pub fn new() -> (radio: Self)
        ensures
            radio@ == fresh(),
    {
        let radio = LoopbackRadio {
            node: Reassembly::new(),
            to_sender: VecDeque::new(),
            arrived: VecDeque::new(),
        };
        assert(radio@ =~= fresh());
        radio
    }

    /// The next transmission the node took whole.
    #[must_use]
    pub fn take(&mut self) -> (whole: Option<(Header, Vec<u8>)>)
        ensures
            if old(self)@.arrived.len() == 0 {
                whole is None && final(self)@ == old(self)@
            } else {
                &&& whole_view(whole) == Some(old(self)@.arrived[0])
                &&& final(self)@ == (LoopbackView {
                    arrived: old(self)@.arrived.skip(1),
                    ..old(self)@
                })
            },
    {
        let whole = self.arrived.pop_front();
        proof {
            assert(taken(old(self).arrived@).len() == old(self).arrived@.len());
            if whole is Some {
                assert(taken(self.arrived@) =~= taken(old(self).arrived@).skip(1));
            }
        }
        whole
    }
}

impl Radio for LoopbackRadio {
    open spec fn called(&self) -> Seq<char> {
        "loopback"@
    }

    open spec fn transmits(
        before: Self,
        frame: Seq<u8>,
        after: Self,
        result: Result<(), ZigbeeError>,
    ) -> bool {
        (after@, result) == taken_in(before@, frame)
    }

    open spec fn receives(
        before: Self,
        timeout: Duration,
        after: Self,
        heard: Result<Option<Seq<u8>>, ZigbeeError>,
    ) -> bool {
        if before@.to_sender.len() == 0 {
            heard == Ok::<Option<Seq<u8>>, ZigbeeError>(None) && after@ == before@
        } else {
            &&& heard == Ok::<Option<Seq<u8>>, ZigbeeError>(Some(before@.to_sender[0]))
            &&& after@ == (LoopbackView { to_sender: before@.to_sender.skip(1), ..before@ })
        }
    }

    fn name(&self) -> (name: &str) {
        "loopback"
    }

    fn transmit(&mut self, frame: &[u8]) -> (result: Result<(), ZigbeeError>) {
        let frame = match Frame::decode(frame) {
            Ok(frame) => frame,
            Err(error) => {
                return Err(error);
            },
        };
        let response = match self.node.handle(&frame) {
            Ok(response) => response,
            Err(error) => {
                return Err(error);
            },
        };
        let mut index: usize = 0;
        while index < response.acks.len()
            invariant
                index <= response.acks@.len(),
                self.node@ == handled(old(self)@.node, frame@)->Ok_0.0,
                self.arrived@ == old(self).arrived@,
                queued(self.to_sender@) =~= queued(old(self).to_sender@) + encodings(
                    response@.acks,
                ).take(index as int),
            decreases response.acks@.len() - index,
        {
            let bytes = response.acks[index].encode();
            let ghost before = self.to_sender@;
            self.to_sender.push_back(bytes);
            proof {
                let all = encodings(response@.acks);
                assert(bytes@ == all[index as int]);
                assert(queued(self.to_sender@) =~= queued(before).push(bytes@));
                assert(all.take(index + 1) =~= all.take(index as int).push(all[index as int]));
            }
            index = index + 1;
        }
        assert(encodings(response@.acks).take(index as int) =~= encodings(response@.acks));
        if let Some(complete) = response.complete {
            let ghost before = self.arrived@;
            self.arrived.push_back(complete);
            assert(taken(self.arrived@) =~= taken(before).push((complete.0, complete.1@)));
        }
        Ok(())
    }

    fn receive(&mut self, timeout: Duration) -> (heard: Result<Option<Vec<u8>>, ZigbeeError>) {
        let next = self.to_sender.pop_front();
        proof {
            assert(queued(old(self).to_sender@).len() == old(self).to_sender@.len());
            if next is Some {
                assert(queued(self.to_sender@) =~= queued(old(self).to_sender@).skip(1));
            }
        }
        Ok(next)
    }
}

} // verus!

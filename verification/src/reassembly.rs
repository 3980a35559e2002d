//! The receiving node's side of APS: it takes a data frame whole, puts the
//! blocks of a fragmented transmission back together under their counter,
//! and acknowledges what asked to be: every unfragmented frame, and the last
//! block of a transmission once every block is in. The same reassembly runs
//! inside the loopback radio and behind a real one.
use vstd::prelude::*;

use crate::error::ZigbeeError;
use crate::frame::{Fragment, Frame, Header};
use crate::frame::{
    acknowledgement, block_count, block_of, data_frame, frame_views, framed,
    law_frames_carry_the_stream, lemma_block_count, payloads, FrameView, MAX_STREAM,
    MAX_UNFRAGMENTED,
};

verus! {

/// What the node has to say back, and what it has taken whole.
#[derive(Debug, PartialEq, Eq)]
pub struct Response {
    /// Acknowledgements for the sender, in order.
    pub acks: Vec<Frame>,
    /// A transmission that just completed: its header and its bytes.
    pub complete: Option<(Header, Vec<u8>)>,
}

/// A response, its vectors as sequences.
#[verifier::ext_equal]
pub struct ResponseView {
    pub acks: Seq<FrameView>,
    pub complete: Option<(Header, Seq<u8>)>,
}

/// A transmission taken whole, its bytes as a sequence.
pub open spec fn whole_view(whole: Option<(Header, Vec<u8>)>) -> Option<(Header, Seq<u8>)> {
    match whole {
        Some((header, bytes)) => Some((header, bytes@)),
        None => None,
    }
}

impl View for Response {
    type V = ResponseView;

    open spec fn view(&self) -> ResponseView {
        ResponseView { acks: frame_views(self.acks@), complete: whole_view(self.complete) }
    }
}

/// Nothing to say and nothing taken whole.
pub open spec fn nothing() -> ResponseView {
    ResponseView { acks: Seq::empty(), complete: None }
}

impl Default for Response {
    /// Nothing to say and nothing taken whole.
    fn default() -> (response: Self)
        ensures
            response@ == nothing(),
    {
        let response = Response { acks: Vec::new(), complete: None };
        assert(frame_views(response.acks@) =~= Seq::empty());
        response
    }
}

/// A transmission being put together: the header of its first block, and
/// which of its blocks are in.
#[verifier::ext_equal]
pub struct TransmissionView {
    pub header: Header,
    pub blocks: Seq<Option<Seq<u8>>>,
}

/// Every block is in.
pub open spec fn all_in(blocks: Seq<Option<Seq<u8>>>) -> bool {
    forall|i: int| 0 <= i < blocks.len() ==> (#[trigger] blocks[i]) is Some
}

/// The blocks that are in, end to end by their index.
pub open spec fn joined(blocks: Seq<Option<Seq<u8>>>) -> Seq<u8>
    decreases blocks.len(),
{
    if blocks.len() == 0 {
        Seq::empty()
    } else {
        joined(blocks.drop_last()) + match blocks.last() {
            Some(block) => block,
            None => Seq::empty(),
        }
    }
}

/// The blocks of a transmission as its first one leaves them: there is at
/// least the first, whatever count it gives.
pub open spec fn started(count: u8, payload: Seq<u8>) -> Seq<Option<Seq<u8>>> {
    Seq::new(
        if count == 0 {
            1
        } else {
            count as nat
        },
        |i: int|
            if i == 0 {
                Some(payload)
            } else {
                None
            },
    )
}

/// The transmission under way once a data frame is put in its place, or why
/// it has none.
pub open spec fn placed(state: Option<TransmissionView>, frame: FrameView) -> Result<
    Option<TransmissionView>,
    ZigbeeError,
> {
    match frame.fragment {
        None => Ok(state),
        Some(Fragment::First { count }) => match state {
            Some(_) => Err(ZigbeeError::AnotherUnderWay),
            None => Ok(
                Some(
                    TransmissionView {
                        header: frame.header,
                        blocks: started(count, frame.payload),
                    },
                ),
            ),
        },
        Some(Fragment::Block { index }) => match state {
            None => Err(ZigbeeError::NotStarted),
            Some(transmission) => if transmission.header.counter != frame.header.counter {
                Err(ZigbeeError::AnotherCounter)
            } else if index >= transmission.blocks.len() {
                Err(ZigbeeError::BeyondCount)
            } else {
                Ok(
                    Some(
                        TransmissionView {
                            blocks: transmission.blocks.update(
                                index as int,
                                Some(frame.payload),
                            ),
                            ..transmission
                        },
                    ),
                )
            },
        },
    }
}

/// What is under way and what is taken whole once a data frame is in its
/// place: an unfragmented frame is whole by itself, a transmission once every
/// block is in.
pub open spec fn settled(next: Option<TransmissionView>, frame: FrameView) -> (
    Option<TransmissionView>,
    Option<(Header, Seq<u8>)>,
) {
    if frame.fragment is None {
        (next, Some((frame.header, frame.payload)))
    } else {
        match next {
            Some(transmission) => if all_in(transmission.blocks) {
                (None, Some((transmission.header, joined(transmission.blocks))))
            } else {
                (next, None)
            },
            None => (None, None),
        }
    }
}

/// What a node does with one frame: an acknowledgement is not data and is
/// passed over; data is put in its place, and acknowledged where it asks to
/// be and is whole by itself or leaves no transmission under way.
pub open spec fn handled(state: Option<TransmissionView>, frame: FrameView) -> Result<
    (Option<TransmissionView>, ResponseView),
    ZigbeeError,
> {
    if frame.ack {
        Ok((state, nothing()))
    } else {
        match placed(state, frame) {
            Err(error) => Err(error),
            Ok(next) => {
                let (rest, complete) = settled(next, frame);
                let acks = if frame.ack_request && (frame.fragment is None || rest is None) {
                    seq![acknowledgement(frame)]
                } else {
                    Seq::empty()
                };
                Ok((rest, ResponseView { acks, complete }))
            },
        }
    }
}

/// One block, its bytes as a sequence.
spec fn block_view(block: Option<Vec<u8>>) -> Option<Seq<u8>> {
    match block {
        Some(bytes) => Some(bytes@),
        None => None,
    }
}

/// The blocks, their bytes as sequences.
spec fn block_views(blocks: Seq<Option<Vec<u8>>>) -> Seq<Option<Seq<u8>>> {
    Seq::new(blocks.len(), |i: int| block_view(blocks[i]))
}

/// One transmission being put together.
#[derive(Debug)]
struct Transmission {
    header: Header,
    blocks: Vec<Option<Vec<u8>>>,
}

impl View for Transmission {
    type V = TransmissionView;

    closed spec fn view(&self) -> TransmissionView {
        TransmissionView { header: self.header, blocks: block_views(self.blocks@) }
    }
}

impl Transmission {
    fn complete(&self) -> (complete: bool)
        ensures
            complete == all_in(self@.blocks),
    {
        let mut index: usize = 0;
        while index < self.blocks.len()
            invariant
                index <= self.blocks@.len(),
                forall|i: int| 0 <= i < index ==> (#[trigger] self@.blocks[i]) is Some,
            decreases self.blocks@.len() - index,
        {
            assert(self@.blocks[index as int] == block_view(self.blocks@[index as int]));
            if self.blocks[index].is_none() {
                return false;
            }
            index = index + 1;
        }
        true
    }

    fn join(self) -> (whole: (Header, Vec<u8>))
        ensures
            whole.0 == self@.header,
            whole.1@ == joined(self@.blocks),
    {
        let mut bytes: Vec<u8> = Vec::new();
        let mut index: usize = 0;
        while index < self.blocks.len()
            invariant
                index <= self.blocks@.len(),
                bytes@ == joined(self@.blocks.take(index as int)),
            decreases self.blocks@.len() - index,
        {
            let ghost upto = self@.blocks.take(index + 1);
            assert(upto.drop_last() =~= self@.blocks.take(index as int));
            assert(upto.last() == block_view(self.blocks@[index as int]));
            let ghost before = bytes@;
            match &self.blocks[index] {
                Some(block) => {
                    bytes.extend_from_slice(block);
                    assert(bytes@ =~= before + block@);
                },
                None => {
                    assert(bytes@ =~= before + Seq::<u8>::empty());
                },
            }
            index = index + 1;
        }
        assert(self@.blocks.take(index as int) =~= self@.blocks);
        (self.header, bytes)
    }
}

/// One node's APS receive side.
#[derive(Debug)]
pub struct Reassembly {
    transmission: Option<Transmission>,
}

impl View for Reassembly {
    type V = Option<TransmissionView>;

    /// The transmission under way.
    closed spec fn view(&self) -> Option<TransmissionView> {
        match self.transmission {
            Some(transmission) => Some(transmission@),
            None => None,
        }
    }
}

/// A transmission that is under way waits for a block.
pub open spec fn waits(state: Option<TransmissionView>) -> bool {
    state matches Some(transmission) ==> !all_in(transmission.blocks)
}

impl Default for Reassembly {
    /// A node that has taken nothing yet.
    fn default() -> (node: Self)
        ensures
            node@ is None,
    {
        Reassembly::new()
    }
}

impl Reassembly {
    #[verifier::type_invariant]
    spec fn waits_for_a_block(&self) -> bool {
        waits(self@)
    }

    /// A node that has taken nothing yet.
    #[must_use]
    pub fn new() -> (node: Self)
        ensures
            node@ is None,
    {
        Reassembly { transmission: None }
    }

    /// One frame from the radio. Refused, with nothing changed, are a block of
    /// a transmission that did not start or is under another counter, a block
    /// beyond the count, and a first block while another transmission is
    /// under way.
    pub fn handle(&mut self, frame: &Frame) -> (result: Result<Response, ZigbeeError>)
        ensures
            match result {
                Ok(response) => handled(old(self)@, frame@) == Ok::<
                    (Option<TransmissionView>, ResponseView),
                    ZigbeeError,
                >((final(self)@, response@)),
                Err(error) => handled(old(self)@, frame@) == Err::<
                    (Option<TransmissionView>, ResponseView),
                    ZigbeeError,
                >(error) && final(self)@ == old(self)@,
            },
            waits(final(self)@),
    {
        proof {
            use_type_invariant(&*self);
        }
        let mut response = Response::default();
        if frame.ack {
            return Ok(response);
        }
        assert(frame_views(response.acks@).len() == 0);
        match frame.fragment {
            None => {
                response.complete = Some((frame.header, frame.payload.clone()));
            },
            Some(Fragment::First { count }) => {
                if self.transmission.is_some() {
                    return Err(ZigbeeError::AnotherUnderWay);
                }
                let blocks = first_of(count, &frame.payload);
                let transmission = Transmission { header: frame.header, blocks };
                response.complete = self.settle(transmission);
            },
            Some(Fragment::Block { index }) => {
                match &self.transmission {
                    None => {
                        return Err(ZigbeeError::NotStarted);
                    },
                    Some(transmission) => {
                        if transmission.header.counter != frame.header.counter {
                            return Err(ZigbeeError::AnotherCounter);
                        }
                        if index as usize >= transmission.blocks.len() {
                            return Err(ZigbeeError::BeyondCount);
                        }
                    },
                }
                let mut under_way: Option<Transmission> = None;
                std::mem::swap(&mut under_way, &mut self.transmission);
                if let Some(mut transmission) = under_way {
                    let ghost before = transmission@;
                    transmission.blocks[index as usize] = Some(frame.payload.clone());
                    assert(transmission@.blocks =~= before.blocks.update(
                        index as int,
                        Some(frame.payload@),
                    ));
                    response.complete = self.settle(transmission);
                }
            },
        }
        if frame.ack_request && (frame.fragment.is_none() || self.transmission.is_none()) {
            response.acks.push(frame.acknowledging());
            assert(frame_views(response.acks@) =~= seq![acknowledgement(frame@)]);
        }
        Ok(response)
    }

    /// Keeps a transmission under way, or hands it over once every block is in.
    fn settle(&mut self, transmission: Transmission) -> (complete: Option<(Header, Vec<u8>)>)
        ensures
            if all_in(transmission@.blocks) {
                &&& final(self)@ is None
                &&& whole_view(complete) == Some(
                    (transmission@.header, joined(transmission@.blocks)),
                )
            } else {
                &&& final(self)@ == Some(transmission@)
                &&& complete is None
            },
    {
        if transmission.complete() {
            self.transmission = None;
            Some(transmission.join())
        } else {
            self.transmission = Some(transmission);
            None
        }
    }
}

/// The blocks of a transmission as its first one leaves them.
fn first_of(count: u8, payload: &Vec<u8>) -> (blocks: Vec<Option<Vec<u8>>>)
    ensures
        block_views(blocks@) == started(count, payload@),
{
    let mut blocks: Vec<Option<Vec<u8>>> = Vec::new();
    blocks.push(Some(payload.clone()));
    let mut index: usize = 1;
    while index < count as usize
        invariant
            1 <= index,
            index <= count || index == 1,
            blocks@.len() == index,
            block_view(blocks@[0]) == Some(payload@),
            forall|i: int| 1 <= i < index ==> (#[trigger] blocks@[i]) is None,
        decreases count - index,
    {
        blocks.push(None);
        index = index + 1;
    }
    assert(block_views(blocks@) =~= started(count, payload@));
    blocks
}

/// What a node does with a run of frames, one after the other: what is under
/// way behind them and the response to each, or the first refusal.
pub open spec fn fed(state: Option<TransmissionView>, frames: Seq<FrameView>) -> Result<
    (Option<TransmissionView>, Seq<ResponseView>),
    ZigbeeError,
>
    decreases frames.len(),
{
    if frames.len() == 0 {
        Ok((state, Seq::empty()))
    } else {
        match fed(state, frames.drop_last()) {
            Err(error) => Err(error),
            Ok((middle, responses)) => match handled(middle, frames.last()) {
                Err(error) => Err(error),
                Ok((rest, response)) => Ok((rest, responses.push(response))),
            },
        }
    }
}

/// A run of frames that a node takes it takes as far as any of them, with the
/// same responses.
pub proof fn lemma_fed_prefix(state: Option<TransmissionView>, frames: Seq<FrameView>, count: int)
    requires
        0 <= count <= frames.len(),
        fed(state, frames) is Ok,
    ensures
        fed(state, frames)->Ok_0.1.len() == frames.len(),
        fed(state, frames.take(count)) matches Ok((_, responses)) && responses == fed(
            state,
            frames,
        )->Ok_0.1.take(count),
    decreases frames.len(),
{
    if count == frames.len() {
        assert(frames.take(count) =~= frames);
        if count > 0 {
            lemma_fed_prefix(state, frames.drop_last(), count - 1);
        }
        let responses = fed(state, frames)->Ok_0.1;
        assert(responses.take(count) =~= responses);
    } else {
        lemma_fed_prefix(state, frames.drop_last(), count);
        assert(frames.drop_last().take(count) =~= frames.take(count));
        let responses = fed(state, frames)->Ok_0.1;
        let earlier = fed(state, frames.drop_last())->Ok_0.1;
        assert(earlier.take(count) =~= responses.take(count));
    }
}

/// Whatever a node is handed, what it keeps under way waits for a block: a
/// transmission is handed over with the block that makes it whole.
pub proof fn law_a_node_waits_for_a_block(state: Option<TransmissionView>, frame: FrameView)
    requires
        waits(state),
    ensures
        handled(state, frame) matches Ok((rest, _)) ==> waits(rest),
{
}

/// An acknowledgement is not data: it changes nothing and is not answered.
pub proof fn law_an_acknowledgement_is_passed_over(
    state: Option<TransmissionView>,
    frame: FrameView,
)
    ensures
        handled(state, acknowledgement(frame)) == Ok::<
            (Option<TransmissionView>, ResponseView),
            ZigbeeError,
        >((state, nothing())),
{
}

/// An unfragmented data frame is whole at once and acknowledged, whatever
/// transmission is under way, and leaves that one as it was.
pub proof fn law_an_unfragmented_frame_is_whole(
    state: Option<TransmissionView>,
    header: Header,
    payload: Seq<u8>,
)
    ensures
        handled(state, data_frame(header, None, payload)) == Ok::<
            (Option<TransmissionView>, ResponseView),
            ZigbeeError,
        >(
            (
                state,
                ResponseView {
                    acks: seq![acknowledgement(data_frame(header, None, payload))],
                    complete: Some((header, payload)),
                },
            ),
        ),
{
}

/// An order in which the blocks of a Stream may come: the first block first,
/// then any of the others, in any order and more than once.
pub open spec fn block_order(bytes: Seq<u8>, order: Seq<int>) -> bool {
    &&& order.len() > 0
    &&& order[0] == 0
    &&& forall|k: int| 0 < k < order.len() ==> 0 < #[trigger] order[k] < block_count(bytes.len())
}

/// Every block of the Stream is among those named.
pub open spec fn covers(bytes: Seq<u8>, order: Seq<int>) -> bool {
    forall|i: int| 0 <= i < block_count(bytes.len()) ==> #[trigger] order.contains(i)
}

/// The frames of a fragmented transmission as they come in some order.
pub open spec fn arriving(header: Header, bytes: Seq<u8>, order: Seq<int>) -> Seq<FrameView> {
    Seq::new(order.len(), |k: int| framed(header, bytes)[order[k]])
}

/// The blocks that are in once those named have come.
pub open spec fn blocks_in(bytes: Seq<u8>, order: Seq<int>) -> Seq<Option<Seq<u8>>> {
    Seq::new(
        block_count(bytes.len()),
        |i: int|
            if order.contains(i) {
                Some(block_of(bytes, i))
            } else {
                None
            },
    )
}

/// The answer to the frame that makes a Stream whole: its acknowledgement,
/// and the Stream's bytes under the header.
pub open spec fn made_whole(frame: FrameView, header: Header, bytes: Seq<u8>) -> ResponseView {
    ResponseView { acks: seq![acknowledgement(frame)], complete: Some((header, bytes)) }
}

/// As many answers as frames that leave a transmission waiting.
pub open spec fn silence(count: nat) -> Seq<ResponseView> {
    Seq::new(count, |k: int| nothing())
}

/// What a node has under way, and says, once the blocks named have come and
/// none before the last made the transmission whole.
pub open spec fn after_blocks(header: Header, bytes: Seq<u8>, order: Seq<int>) -> (
    Option<TransmissionView>,
    Seq<ResponseView>,
) {
    if covers(bytes, order) {
        (
            None,
            silence((order.len() - 1) as nat).push(
                made_whole(framed(header, bytes)[order.last()], header, bytes),
            ),
        )
    } else {
        (
            Some(TransmissionView { header, blocks: blocks_in(bytes, order) }),
            silence(order.len()),
        )
    }
}

/// Blocks that are in join to the payloads of their frames.
proof fn lemma_joined_payloads(blocks: Seq<Option<Seq<u8>>>, frames: Seq<FrameView>)
    requires
        blocks.len() == frames.len(),
        forall|i: int| 0 <= i < blocks.len() ==> #[trigger] blocks[i] == Some(frames[i].payload),
    ensures
        joined(blocks) == payloads(frames),
    decreases blocks.len(),
{
    if blocks.len() > 0 {
        lemma_joined_payloads(blocks.drop_last(), frames.drop_last());
    }
}

/// Blocks come back together whatever their order: while one is missing the
/// node waits and says nothing, and with the block that makes the
/// transmission whole it hands over the Stream's bytes under the header and
/// acknowledges that block.
pub proof fn law_blocks_come_together_in_any_order(
    header: Header,
    bytes: Seq<u8>,
    order: Seq<int>,
)
    requires
        MAX_UNFRAGMENTED < bytes.len() <= MAX_STREAM,
        block_order(bytes, order),
        !covers(bytes, order.drop_last()),
    ensures
        fed(None, arriving(header, bytes, order)) == Ok::<
            (Option<TransmissionView>, Seq<ResponseView>),
            ZigbeeError,
        >(after_blocks(header, bytes, order)),
    decreases order.len(),
{
    let count = block_count(bytes.len());
    let frames = arriving(header, bytes, order);
    let earlier = order.drop_last();
    lemma_block_count(bytes.len());
    assert(frames.drop_last() =~= arriving(header, bytes, earlier));
    assert forall|i: int| order.contains(i) <==> earlier.contains(i) || i == order.last() by {
        if earlier.contains(i) {
            let k = choose|k: int| 0 <= k < earlier.len() && earlier[k] == i;
            assert(order[k] == i);
        }
        if order.contains(i) && i != order.last() {
            let k = choose|k: int| 0 <= k < order.len() && order[k] == i;
            assert(earlier[k] == i);
        }
        assert(order[order.len() - 1] == order.last());
    }
    let blocks = blocks_in(bytes, order);
    if order.len() == 1 {
        assert(fed(None, frames.drop_last()) == Ok::<
            (Option<TransmissionView>, Seq<ResponseView>),
            ZigbeeError,
        >((None, Seq::empty())));
        assert(silence(0) =~= Seq::empty());
        assert(started(count as u8, block_of(bytes, 0)) =~= blocks);
        assert(!order.contains(1));
        assert(blocks[1] is None);
    } else {
        let missing = choose|i: int|
            0 <= i < count && !(#[trigger] earlier.contains(i));
        assert(!earlier.drop_last().contains(missing)) by {
            if earlier.drop_last().contains(missing) {
                let k = choose|k: int|
                    0 <= k < earlier.drop_last().len() && earlier.drop_last()[k] == missing;
                assert(earlier[k] == missing);
            }
        }
        law_blocks_come_together_in_any_order(header, bytes, earlier);
        let before = blocks_in(bytes, earlier);
        assert(before.update(order.last(), Some(block_of(bytes, order.last()))) =~= blocks);
    }
    assert(all_in(blocks) <==> covers(bytes, order)) by {
        if all_in(blocks) {
            assert forall|i: int| 0 <= i < count implies #[trigger] order.contains(i) by {
                assert(blocks[i] is Some);
            }
        }
    }
    if covers(bytes, order) {
        let all = framed(header, bytes);
        assert forall|i: int| 0 <= i < blocks.len() implies #[trigger] blocks[i] == Some(
            all[i].payload,
        ) by {
            assert(order.contains(i));
        }
        lemma_joined_payloads(blocks, all);
        law_frames_carry_the_stream(header, bytes);
    }
    assert(silence(order.len()) =~= silence(earlier.len()).push(nothing()));
}

/// A Stream comes back whole: a node that is handed the frames of a
/// transmission in order says nothing before the last, and with the last it
/// hands over the Stream's bytes under the header, acknowledges that frame,
/// and has nothing under way.
pub proof fn law_a_stream_comes_back_whole(header: Header, bytes: Seq<u8>)
    requires
        bytes.len() <= MAX_STREAM,
    ensures
        ({
            let frames = framed(header, bytes);
            fed(None, frames) == Ok::<(Option<TransmissionView>, Seq<ResponseView>), ZigbeeError>(
                (
                    None,
                    silence((frames.len() - 1) as nat).push(
                        made_whole(frames.last(), header, bytes),
                    ),
                ),
            )
        }),
{
    let frames = framed(header, bytes);
    if bytes.len() <= MAX_UNFRAGMENTED {
        assert(fed(None, frames.drop_last()) == Ok::<
            (Option<TransmissionView>, Seq<ResponseView>),
            ZigbeeError,
        >((None, Seq::empty())));
        assert(silence(0) =~= Seq::empty());
        law_an_unfragmented_frame_is_whole(None, header, bytes);
    } else {
        let count = block_count(bytes.len());
        lemma_block_count(bytes.len());
        let order = Seq::new(count, |i: int| i);
        assert forall|i: int| 0 <= i < count implies #[trigger] order.contains(i) by {
            assert(order[i] == i);
        }
        assert(!order.drop_last().contains(count - 1));
        law_blocks_come_together_in_any_order(header, bytes, order);
        assert(arriving(header, bytes, order) =~= frames);
    }
}

} // verus!

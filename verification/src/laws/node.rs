//! The receiving node, frame by frame.
use vstd::prelude::*;

use crate::error::ZigbeeError;
use crate::frame::{acknowledgement, frame_views, Fragment, Frame, Header};
use crate::reassembly::{all_in, joined, Reassembly, Response};

verus! {

/// Blocks end to end: none are no bytes, and any block that is in stands
/// between those before it and those behind it.
pub proof fn law_blocks_stand_end_to_end(blocks: Seq<Option<Seq<u8>>>, index: int)
    requires
        0 <= index < blocks.len(),
    ensures
        joined(Seq::empty()) == Seq::<u8>::empty(),
        joined(blocks) == joined(blocks.take(index)) + (match blocks[index] {
            Some(block) => block,
            None => Seq::empty(),
        }) + joined(blocks.skip(index + 1)),
    decreases blocks.len(),
{
    let earlier = blocks.drop_last();
    if index + 1 == blocks.len() {
        assert(blocks.take(index) =~= earlier);
        assert(blocks.skip(index + 1) =~= Seq::empty());
        assert(joined(blocks.skip(index + 1)) =~= Seq::<u8>::empty());
        assert(joined(blocks) =~= joined(blocks.take(index)) + (match blocks[index] {
            Some(block) => block,
            None => Seq::empty(),
        }) + joined(blocks.skip(index + 1)));
    } else {
        law_blocks_stand_end_to_end(earlier, index);
        assert(earlier.take(index) =~= blocks.take(index));
        let behind = blocks.skip(index + 1);
        assert(behind.drop_last() =~= earlier.skip(index + 1));
        assert(joined(blocks) =~= joined(blocks.take(index)) + (match blocks[index] {
            Some(block) => block,
            None => Seq::empty(),
        }) + joined(behind));
    }
}

/// While a transmission is under way every first block is refused, whoever
/// sends it, under whatever counter and whatever count it gives, and the
/// transmission under way is as it was.
pub proof fn law_a_first_block_is_refused_while_another_is_under_way(
    node: &mut Reassembly,
    frame: Frame,
    count: u8,
    result: Result<Response, ZigbeeError>,
)
    requires
        call_ensures(Reassembly::handle, (node, &frame), result),
        old(node)@ is Some,
        !frame.ack,
        frame.fragment == Some(Fragment::First { count }),
    ensures
        result matches Err(error) && error == ZigbeeError::AnotherUnderWay,
        final(node)@ == old(node)@,
{
}

/// No frame under another counter than that of the transmission under way,
/// whatever it is, changes or removes that transmission.
pub proof fn law_another_counter_leaves_a_transmission_alone(
    node: &mut Reassembly,
    frame: Frame,
    result: Result<Response, ZigbeeError>,
)
    requires
        call_ensures(Reassembly::handle, (node, &frame), result),
        old(node)@ matches Some(under_way) && under_way.header.counter != frame.header.counter,
    ensures
        final(node)@ == old(node)@,
{
}

/// A frame is refused where it is data and a first block while another
/// transmission is under way, or a block of none, or a block under another
/// counter, or a block beyond the count, and nowhere else; and then the node
/// is as it was.
pub proof fn law_a_frame_is_refused_only_out_of_place(
    node: &mut Reassembly,
    frame: Frame,
    result: Result<Response, ZigbeeError>,
)
    requires
        call_ensures(Reassembly::handle, (node, &frame), result),
    ensures
        result is Err ==> !frame.ack && final(node)@ == old(node)@,
        !frame.ack ==> match (frame.fragment, old(node)@) {
            (None, _) => result is Ok,
            (Some(Fragment::First { count }), None) => result is Ok,
            (Some(Fragment::First { count }), Some(under_way)) => result
                matches Err(error) && error == ZigbeeError::AnotherUnderWay,
            (Some(Fragment::Block { index }), None) => result
                matches Err(error) && error == ZigbeeError::NotStarted,
            (Some(Fragment::Block { index }), Some(under_way)) => if under_way.header.counter
                != frame.header.counter {
                result matches Err(error) && error == ZigbeeError::AnotherCounter
            } else if index >= under_way.blocks.len() {
                result matches Err(error) && error == ZigbeeError::BeyondCount
            } else {
                result is Ok
            },
        },
{
}

/// A first block that is taken starts its transmission: under its own header,
/// with as many blocks as it counts, itself in and no other. One that counts
/// none or only itself is whole at once, and nothing is under way.
pub proof fn law_a_first_block_starts_a_transmission(
    node: &mut Reassembly,
    frame: Frame,
    count: u8,
    result: Result<Response, ZigbeeError>,
)
    requires
        call_ensures(Reassembly::handle, (node, &frame), result),
        old(node)@ is None,
        !frame.ack,
        frame.fragment == Some(Fragment::First { count }),
    ensures
        result is Ok,
        count > 1 ==> {
            &&& result->Ok_0.complete is None
            &&& final(node)@ matches Some(under_way) && {
                &&& under_way.header == frame.header
                &&& under_way.blocks.len() == count
                &&& under_way.blocks[0] == Some(frame.payload@)
                &&& forall|i: int|
                    0 < i < count ==> (#[trigger] under_way.blocks[i]) is None
            }
        },
        count <= 1 ==> {
            &&& final(node)@ is None
            &&& result->Ok_0.complete matches Some((header, bytes)) && header == frame.header
                && bytes@ == frame.payload@
        },
{
    if count > 1 {
        let blocks = crate::reassembly::started(count, frame.payload@);
        assert(blocks[1] is None);
        assert(!all_in(blocks));
    } else {
        let blocks = crate::reassembly::started(count, frame.payload@);
        assert(all_in(blocks));
        assert(blocks =~= seq![Some(frame.payload@)]);
        law_blocks_stand_end_to_end(blocks, 0);
        assert(blocks.take(0) =~= Seq::empty());
        assert(blocks.skip(1) =~= Seq::empty());
        assert(joined(blocks) =~= frame.payload@);
    }
}

/// A block that is taken goes to its own place and to no other, whatever its
/// header says besides the counter. While another block is missing the
/// transmission goes on, under the header of its first block; with the last
/// one missing it is whole: the bytes of all its blocks end to end, under the
/// header of its first block, and nothing is under way.
pub proof fn law_a_block_goes_to_its_place(
    node: &mut Reassembly,
    frame: Frame,
    index: u8,
    result: Result<Response, ZigbeeError>,
)
    requires
        call_ensures(Reassembly::handle, (node, &frame), result),
        old(node)@ is Some,
        !frame.ack,
        frame.fragment == Some(Fragment::Block { index }),
        result is Ok,
    ensures
        ({
            let before = old(node)@->Some_0;
            let others_in = forall|i: int|
                0 <= i < before.blocks.len() && i != index ==> (#[trigger] before.blocks[i])
                    is Some;
            &&& !others_in ==> {
                &&& result->Ok_0.complete is None
                &&& final(node)@ matches Some(after) && {
                    &&& after.header == before.header
                    &&& after.blocks.len() == before.blocks.len()
                    &&& after.blocks[index as int] == Some(frame.payload@)
                    &&& forall|i: int|
                        0 <= i < before.blocks.len() && i != index ==> #[trigger] after.blocks[i]
                            == before.blocks[i]
                }
            }
            &&& others_in ==> {
                &&& final(node)@ is None
                &&& result->Ok_0.complete matches Some((header, bytes)) && {
                    &&& header == before.header
                    &&& bytes@ == joined(before.blocks.take(index as int)) + frame.payload@
                        + joined(before.blocks.skip(index + 1))
                }
            }
        }),
{
    let before = old(node)@->Some_0;
    let next = before.blocks.update(index as int, Some(frame.payload@));
    let others_in = forall|i: int|
        0 <= i < before.blocks.len() && i != index ==> (#[trigger] before.blocks[i]) is Some;
    if others_in {
        assert forall|i: int| 0 <= i < next.len() implies (#[trigger] next[i]) is Some by {
            if i != index {
                assert(before.blocks[i] is Some);
            }
        }
        assert(all_in(next));
        law_blocks_stand_end_to_end(next, index as int);
        assert(next.take(index as int) =~= before.blocks.take(index as int));
        assert(next.skip(index + 1) =~= before.blocks.skip(index + 1));
    } else {
        let i = choose|i: int|
            0 <= i < before.blocks.len() && i != index && !((#[trigger] before.blocks[i]) is Some);
        assert(next[i] is None);
        assert(!all_in(next));
    }
}

/// An unfragmented data frame is taken whole, its own payload under its own
/// header, and leaves whatever is under way as it was.
pub proof fn law_an_unfragmented_frame_is_taken_whole(
    node: &mut Reassembly,
    frame: Frame,
    result: Result<Response, ZigbeeError>,
)
    requires
        call_ensures(Reassembly::handle, (node, &frame), result),
        !frame.ack,
        frame.fragment is None,
    ensures
        final(node)@ == old(node)@,
        result matches Ok(response) && response.complete matches Some((header, bytes)) && header
            == frame.header && bytes@ == frame.payload@,
{
}

/// An acknowledgement is no data, whatever else it says: nothing changes,
/// nothing is taken and nothing is answered.
pub proof fn law_an_acknowledgement_is_no_data(
    node: &mut Reassembly,
    frame: Frame,
    result: Result<Response, ZigbeeError>,
)
    requires
        call_ensures(Reassembly::handle, (node, &frame), result),
        frame.ack,
    ensures
        final(node)@ == old(node)@,
        result matches Ok(response) && response.acks@.len() == 0 && response.complete is None,
{
    assert(frame_views(result->Ok_0.acks@).len() == result->Ok_0.acks@.len());
}

/// A node answers exactly what makes something whole and asks to be answered:
/// with one acknowledgement, of that very frame.
pub proof fn law_what_is_whole_and_asks_is_acknowledged(
    node: &mut Reassembly,
    frame: Frame,
    result: Result<Response, ZigbeeError>,
)
    requires
        call_ensures(Reassembly::handle, (node, &frame), result),
        result is Ok,
    ensures
        ({
            let response = result->Ok_0;
            if frame.ack_request && response.complete is Some {
                &&& response.acks@.len() == 1
                &&& response.acks@[0].ack && !response.acks@[0].ack_request
                &&& response.acks@[0].fragment == frame.fragment
                &&& response.acks@[0].payload@.len() == 0
                &&& response.acks@[0].header == (Header {
                    destination: frame.header.source,
                    source: frame.header.destination,
                    endpoint: frame.header.endpoint,
                    cluster: frame.header.cluster,
                    profile: frame.header.profile,
                    counter: frame.header.counter,
                })
            } else {
                response.acks@.len() == 0
            }
        }),
{
    let response = result->Ok_0;
    let views = frame_views(response.acks@);
    assert(views.len() == response.acks@.len());
    if frame.ack_request && response.complete is Some {
        assert(views[0] == acknowledgement(frame@));
        assert(views[0] == response.acks@[0]@);
        assert(acknowledgement(frame@).payload.len() == 0);
    }
}

/// A new node has nothing under way, and a new response says nothing and holds
/// nothing.
pub proof fn law_what_is_new_holds_nothing(made: Reassembly, response: Response)
    requires
        call_ensures(Reassembly::new, (), made) || call_ensures(
            <Reassembly as Default>::default,
            (),
            made,
        ),
        call_ensures(<Response as Default>::default, (), response),
    ensures
        made@ is None,
        response.acks@.len() == 0,
        response.complete is None,
{
    assert(frame_views(response.acks@).len() == response.acks@.len());
}

} // verus!

//! How a node is set up, what it says of itself, and what is said of what is
//! refused.
use std::time::Duration;

use vstd::prelude::*;

use crate::error::{debug_text, not_a_node, ZigbeeError};
use crate::laws::naming::{address_text, endpoint_text, law_numbers_are_written_digit_by_digit};
use crate::node::{NodeView, ZigbeeTransport};
use crate::radio::{LoopbackRadio, Radio};
use crate::text::decimal;

verus! {

/// A new node has the radio and the address that it was given and is no
/// loopback; it is on endpoint 1, speaks temperature measurement (0x0402) in
/// Home Automation (0x0104), sends to the coordinator (0x0000), counts from 0
/// and waits for five seconds.
pub proof fn law_a_new_node_is_set_up<R: Radio>(
    radio: R,
    address: u16,
    span: Duration,
    made: ZigbeeTransport<R>,
)
    requires
        call_ensures(ZigbeeTransport::<R>::new, (radio, address), made),
        call_ensures(Duration::from_secs, (5,), span),
    ensures
        made@.radio == radio,
        made@.address == address,
        made@.endpoint == 1,
        made@.profile == 260,
        made@.cluster == 1026,
        made@.destination == 0,
        made@.counter == 0,
        made@.timeout == span,
        !made@.loopback,
{
}

/// Nothing of a node differs.
pub open spec fn same_node<R>(one: NodeView<R>, two: NodeView<R>) -> bool {
    &&& one.radio == two.radio
    &&& one.address == two.address
    &&& one.endpoint == two.endpoint
    &&& one.profile == two.profile
    &&& one.cluster == two.cluster
    &&& one.destination == two.destination
    &&& one.counter == two.counter
    &&& one.timeout == two.timeout
    &&& one.loopback == two.loopback
}

/// Each way of setting a node up sets what it says and nothing else: what was
/// there before, put back, gives the node that was.
pub proof fn law_a_node_is_set_up_one_thing_at_a_time<R: Radio>(
    node: ZigbeeTransport<R>,
    profile: u16,
    cluster: u16,
    timeout: Duration,
    counter: u8,
    speaking: (ZigbeeTransport<R>, ZigbeeTransport<R>),
    waiting: (ZigbeeTransport<R>, ZigbeeTransport<R>),
    counting: (ZigbeeTransport<R>, ZigbeeTransport<R>),
)
    requires
        call_ensures(ZigbeeTransport::<R>::speaking, (node, profile, cluster), speaking.0),
        call_ensures(
            ZigbeeTransport::<R>::speaking,
            (speaking.0, node@.profile, node@.cluster),
            speaking.1,
        ),
        call_ensures(ZigbeeTransport::<R>::timing_out_after, (node, timeout), waiting.0),
        call_ensures(
            ZigbeeTransport::<R>::timing_out_after,
            (waiting.0, node@.timeout),
            waiting.1,
        ),
        call_ensures(ZigbeeTransport::<R>::counting_from, (node, counter), counting.0),
        call_ensures(
            ZigbeeTransport::<R>::counting_from,
            (counting.0, node@.counter),
            counting.1,
        ),
    ensures
        speaking.0@.profile == profile && speaking.0@.cluster == cluster,
        waiting.0@.timeout == timeout,
        counting.0@.counter == counter,
        same_node(speaking.1@, node@),
        same_node(waiting.1@, node@),
        same_node(counting.1@, node@),
{
}

/// A loopback is a node at 0x1a2b on a new loopback radio, set up as a new node
/// is but for the time it waits.
pub proof fn law_a_loopback_is_set_up(timeout: Duration, made: ZigbeeTransport<LoopbackRadio>)
    requires
        call_ensures(ZigbeeTransport::<LoopbackRadio>::loopback, (timeout,), made),
    ensures
        made@.radio@.node is None,
        made@.radio@.to_sender.len() == 0,
        made@.radio@.arrived.len() == 0,
        made@.address == 6699,
        made@.endpoint == 1,
        made@.profile == 260,
        made@.cluster == 1026,
        made@.destination == 0,
        made@.counter == 0,
        made@.timeout == timeout,
        made@.loopback,
{
}

/// The far end of a loopback is where the node sends to, on its own endpoint;
/// any other radio has none.
pub proof fn law_the_far_end_is_where_a_loopback_sends<R: Radio>(
    node: ZigbeeTransport<R>,
    own: (u16, u8),
    result: Result<String, ZigbeeError>,
)
    requires
        call_ensures(ZigbeeTransport::<R>::far_end, (&node,), result),
        call_ensures(ZigbeeTransport::<R>::own_destination, (&node,), own),
    ensures
        match result {
            Ok(origin) => {
                &&& node@.loopback
                &&& origin@ == "zigbee://"@ + node@.radio.called() + "/"@ + address_text(own.0)
                    + "/"@ + endpoint_text(own.1)
            },
            Err(error) => !node@.loopback && error == ZigbeeError::NotLoopback,
        },
{
    law_numbers_are_written_digit_by_digit(node@.destination, node@.endpoint);
}

/// The ceiling is what 255 blocks of 98 bytes carry: one byte more is refused
/// for being over exactly that.
pub proof fn law_the_ceiling_is_what_is_refused_over<R: Radio>(
    node: ZigbeeTransport<R>,
    ceiling: Option<usize>,
)
    requires
        call_ensures(ZigbeeTransport::<R>::ceiling, (&node,), ceiling),
    ensures
        ceiling == Some(24990usize),
        24990 == 255 * 98,
{
    assert(crate::frame::MAX_STREAM == 24990) by (nonlinear_arith);
}

/// Trying again may help where something did not come in time, and where the
/// radio says so of itself, and nowhere else.
pub proof fn law_what_did_not_come_may_come_yet(error: ZigbeeError, retryable: bool)
    requires
        call_ensures(ZigbeeError::is_retryable, (&error,), retryable),
    ensures
        retryable <==> {
            ||| error is NoAcknowledgement
            ||| error is SenderQuiet
            ||| error is Radio && error->retryable
        },
{
}

/// What is refused says why, in words of its own; what the radio said is passed
/// on as it was said.
pub proof fn law_what_is_refused_says_why(error: ZigbeeError, message: String)
    requires
        call_ensures(ZigbeeError::message, (&error,), message),
    ensures
        error is FrameTooLarge ==> message@ == "more than one frame carries"@,
        error is OverMac ==> message@ == "more than the MAC carries"@,
        error is CutOff ==> message@ == "a frame cut off inside its headers"@,
        error is NotData ==> message@ == "a network frame that is not data"@,
        error matches ZigbeeError::FragmentationCode { code } ==> message@
            == "a fragmentation code Zigbee does not use: "@ + endpoint_text(code),
        error matches ZigbeeError::OverCeiling { length, ceiling } ==> message@ == decimal(
            length as nat,
        ) + " bytes, over the "@ + decimal(ceiling as nat) + " a fragmented transmission carries"@,
        error is AnotherUnderWay ==> message@ == "a first block while another is under way"@,
        error is NotStarted ==> message@ == "a block of a transmission that did not start"@,
        error is AnotherCounter ==> message@ == "a block under another counter"@,
        error is BeyondCount ==> message@ == "a block beyond the count"@,
        error is NoAcknowledgement ==> message@ == "no acknowledgement came"@,
        error is AnotherAcknowledgement ==> message@ == "an acknowledgement of something else"@,
        error is SenderQuiet ==> message@ == "the sender went quiet"@,
        error is NotLoopback ==> message@ == "a radio, not a loopback radio"@,
        error is NothingCompleted ==> message@ == "no transmission completed"@,
        error matches ZigbeeError::Radio { message: told, .. } ==> message@ == told@,
{
    if let ZigbeeError::FragmentationCode { code } = error {
        law_numbers_are_written_digit_by_digit(0, code);
    }
}

/// What is said of a path that names no node is the path as it is quoted, and
/// that it is none.
pub proof fn law_a_path_that_is_no_node_is_quoted(
    path: String,
    message: String,
    quoted: String,
    told: String,
)
    requires
        call_ensures(ZigbeeError::message, (&ZigbeeError::NotANode { path },), message),
        call_ensures(not_a_node, (quoted,), told),
        quoted@ == debug_text(path@),
    ensures
        message@ == told@,
        told@ == quoted@ + " is not a node and endpoint"@,
{
}

} // verus!

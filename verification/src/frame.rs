//! The Zigbee frame as the radio carries it: the network header (frame
//! control, destination and source short addresses, radius, sequence) and
//! the APS header (frame control, destination endpoint, cluster, profile,
//! source endpoint, APS counter), with the extended header a fragmented
//! transmission adds: a fragmentation code and a block number. The first
//! block's number field carries the count of blocks; every other block's
//! carries its index.
use vstd::prelude::*;

use crate::error::ZigbeeError;

verus! {

/// What the network layer may hand the MAC: a 127-byte PHY packet less the
/// eleven bytes of a MAC header with short addresses and its check sequence.
pub const MAX_NPDU: usize = 116;

/// The network header: two of frame control, two addresses, radius, sequence.
pub const NWK_HEADER: usize = 8;

/// The APS header of a data frame without the extended header.
pub const APS_HEADER: usize = 8;

/// What one unfragmented data frame carries.
pub const MAX_UNFRAGMENTED: usize = MAX_NPDU - NWK_HEADER - APS_HEADER;

/// What one block of a fragmented transmission carries: two bytes less, for
/// the extended header.
pub const MAX_BLOCK: usize = MAX_UNFRAGMENTED - 2;

/// The most blocks one transmission has: the count travels in one byte.
pub const MAX_BLOCKS: usize = 255;

/// The largest Stream a fragmented transmission carries whole.
pub const MAX_STREAM: usize = MAX_BLOCKS * MAX_BLOCK;

/// Network frame control: data frame, protocol version 2.
pub const NWK_DATA: [u8; 2] = [0x08, 0x00];

/// The hops a frame may still take when it is sent.
pub const RADIUS: u8 = 30;

/// APS frame control: the frame type in the low two bits.
pub const APS_TYPE: u8 = 0x03;

pub const APS_TYPE_DATA: u8 = 0x00;

pub const APS_TYPE_ACK: u8 = 0x02;

pub const APS_ACK_REQUEST: u8 = 0x40;

pub const APS_EXTENDED: u8 = 0x80;

/// Extended frame control: the fragmentation code in the low two bits.
pub const FRAGMENT_CODE: u8 = 0x03;

pub const FRAGMENT_FIRST: u8 = 0x01;

pub const FRAGMENT_OTHER: u8 = 0x02;

/// Where a frame goes, from where, and on what: the two headers' names.
#[derive(Clone, Copy, Debug, PartialEq, Eq)]
pub struct Header {
    pub destination: u16,
    pub source: u16,
    pub endpoint: u8,
    pub cluster: u16,
    pub profile: u16,
    pub counter: u8,
}

/// Which block of a fragmented transmission a frame is.
#[derive(Clone, Copy, Debug, PartialEq, Eq)]
pub enum Fragment {
    /// The first block, saying how many there are.
    First { count: u8 },
    /// Any later block, saying which it is.
    Block { index: u8 },
}

/// One frame.
#[derive(Clone, Debug, PartialEq, Eq)]
pub struct Frame {
    pub header: Header,
    /// An APS acknowledgement rather than data.
    pub ack: bool,
    /// Data that asks to be acknowledged.
    pub ack_request: bool,
    pub fragment: Option<Fragment>,
    pub payload: Vec<u8>,
}

/// What a frame says, its payload as a sequence.
#[verifier::ext_equal]
pub struct FrameView {
    pub header: Header,
    pub ack: bool,
    pub ack_request: bool,
    pub fragment: Option<Fragment>,
    pub payload: Seq<u8>,
}

impl View for Frame {
    type V = FrameView;

    open spec fn view(&self) -> FrameView {
        FrameView {
            header: self.header,
            ack: self.ack,
            ack_request: self.ack_request,
            fragment: self.fragment,
            payload: self.payload@,
        }
    }
}

/// The views of a run of frames.
pub open spec fn frame_views(frames: Seq<Frame>) -> Seq<FrameView> {
    Seq::new(frames.len(), |i: int| frames[i]@)
}

/// What one data frame carries, whole or as a block.
pub open spec fn carries(fragment: Option<Fragment>) -> nat {
    if fragment is Some {
        MAX_BLOCK as nat
    } else {
        MAX_UNFRAGMENTED as nat
    }
}

/// The data frame with this payload: it asks to be acknowledged.
pub open spec fn data_frame(
    header: Header,
    fragment: Option<Fragment>,
    payload: Seq<u8>,
) -> FrameView {
    FrameView { header, ack: false, ack_request: true, fragment, payload }
}

/// A header turned round: back the way it came.
pub open spec fn reversed(header: Header) -> Header {
    Header { destination: header.source, source: header.destination, ..header }
}

/// The acknowledgement of a frame.
pub open spec fn acknowledgement(frame: FrameView) -> FrameView {
    FrameView {
        header: reversed(frame.header),
        ack: true,
        ack_request: false,
        fragment: frame.fragment,
        payload: Seq::empty(),
    }
}

/// A 16-bit field as it travels: the low byte first.
pub open spec fn le_bytes(value: u16) -> Seq<u8> {
    seq![(value % 256) as u8, (value / 256) as u8]
}

/// The 16-bit field that two bytes carry.
pub open spec fn le_value(low: u8, high: u8) -> u16 {
    (low + 256 * high) as u16
}

/// The APS frame control byte.
pub open spec fn control(ack: bool, ack_request: bool, extended: bool) -> u8 {
    (if ack {
        APS_TYPE_ACK
    } else {
        APS_TYPE_DATA
    }) | (if ack_request {
        APS_ACK_REQUEST
    } else {
        0u8
    }) | (if extended {
        APS_EXTENDED
    } else {
        0u8
    })
}

/// The network header's eight bytes.
pub open spec fn network_header(header: Header) -> Seq<u8> {
    NWK_DATA@ + le_bytes(header.destination) + le_bytes(header.source) + seq![
        RADIUS,
        header.counter,
    ]
}

/// The APS header's eight bytes.
pub open spec fn aps_header(frame: FrameView) -> Seq<u8> {
    seq![control(frame.ack, frame.ack_request, frame.fragment is Some), frame.header.endpoint]
        + le_bytes(frame.header.cluster) + le_bytes(frame.header.profile) + seq![
        frame.header.endpoint,
        frame.header.counter,
    ]
}

/// The extended header: two bytes where the frame is a block, else none.
pub open spec fn extended_header(fragment: Option<Fragment>) -> Seq<u8> {
    match fragment {
        Some(Fragment::First { count }) => seq![FRAGMENT_FIRST, count],
        Some(Fragment::Block { index }) => seq![FRAGMENT_OTHER, index],
        None => Seq::empty(),
    }
}

/// The frame as the radio carries it.
pub open spec fn encoded(frame: FrameView) -> Seq<u8> {
    network_header(frame.header) + aps_header(frame) + extended_header(frame.fragment)
        + frame.payload
}

/// Which block the extended header names, or the fragmentation code that
/// Zigbee does not use.
pub open spec fn fragment_named(code: u8, number: u8) -> Result<Fragment, ZigbeeError> {
    if code & FRAGMENT_CODE == FRAGMENT_FIRST {
        Ok(Fragment::First { count: number })
    } else if code & FRAGMENT_CODE == FRAGMENT_OTHER {
        Ok(Fragment::Block { index: number })
    } else {
        Err(ZigbeeError::FragmentationCode { code: code & FRAGMENT_CODE })
    }
}

/// What bytes off the radio say, given which block they are and where their
/// payload starts.
pub open spec fn read_at(bytes: Seq<u8>, fragment: Option<Fragment>, start: int) -> FrameView {
    FrameView {
        header: Header {
            destination: le_value(bytes[2], bytes[3]),
            source: le_value(bytes[4], bytes[5]),
            endpoint: bytes[9],
            cluster: le_value(bytes[10], bytes[11]),
            profile: le_value(bytes[12], bytes[13]),
            counter: bytes[15],
        },
        ack: bytes[8] & APS_TYPE == APS_TYPE_ACK,
        ack_request: bytes[8] & APS_ACK_REQUEST != 0,
        fragment,
        payload: bytes.skip(start),
    }
}

/// The one frame that bytes off the radio are, or why they are none.
pub open spec fn decoded(bytes: Seq<u8>) -> Result<FrameView, ZigbeeError> {
    if bytes.len() > MAX_NPDU {
        Err(ZigbeeError::OverMac)
    } else if bytes.len() < NWK_HEADER {
        Err(ZigbeeError::CutOff)
    } else if bytes.take(2) != NWK_DATA@ {
        Err(ZigbeeError::NotData)
    } else if bytes.len() < NWK_HEADER + APS_HEADER {
        Err(ZigbeeError::CutOff)
    } else if bytes[8] & APS_EXTENDED == 0 {
        Ok(read_at(bytes, None, 16))
    } else if bytes.len() < NWK_HEADER + APS_HEADER + 2 {
        Err(ZigbeeError::CutOff)
    } else {
        match fragment_named(bytes[16], bytes[17]) {
            Ok(fragment) => Ok(read_at(bytes, Some(fragment), 18)),
            Err(error) => Err(error),
        }
    }
}

impl Frame {
    /// A data frame, refusing what the MAC will not carry: more than
    /// [`MAX_UNFRAGMENTED`] whole, or [`MAX_BLOCK`] in a block.
    pub fn data(header: Header, fragment: Option<Fragment>, payload: &[u8]) -> (result: Result<
        Self,
        ZigbeeError,
    >)
        ensures
            match result {
                Ok(frame) => payload@.len() <= carries(fragment) && frame@ == data_frame(
                    header,
                    fragment,
                    payload@,
                ),
                Err(error) => payload@.len() > carries(fragment) && error
                    == ZigbeeError::FrameTooLarge,
            },
    {
        let limit: usize = if fragment.is_some() {
            MAX_BLOCK
        } else {
            MAX_UNFRAGMENTED
        };
        if payload.len() > limit {
            return Err(ZigbeeError::FrameTooLarge);
        }
        Ok(
            Frame {
                header,
                ack: false,
                ack_request: true,
                fragment,
                payload: vstd::slice::slice_to_vec(payload),
            },
        )
    }

    /// The acknowledgement of a frame: back the way it came, under the same
    /// counter, naming the same block.
    #[must_use]
    pub fn acknowledging(&self) -> (ack: Self)
        ensures
            ack@ == acknowledgement(self@),
    {
        Frame {
            header: Header {
                destination: self.header.source,
                source: self.header.destination,
                ..self.header
            },
            ack: true,
            ack_request: false,
            fragment: self.fragment,
            payload: Vec::new(),
        }
    }

    /// The frame as the radio carries it.
    #[must_use]
    pub fn encode(&self) -> (out: Vec<u8>)
        ensures
            out@ == encoded(self@),
    {
        let mut out: Vec<u8> = Vec::new();
        out.push(NWK_DATA[0]);
        out.push(NWK_DATA[1]);
        push_le(&mut out, self.header.destination);
        push_le(&mut out, self.header.source);
        out.push(RADIUS);
        out.push(self.header.counter);
        assert(out@ =~= network_header(self.header));
        let mut bits: u8 = if self.ack {
            APS_TYPE_ACK
        } else {
            APS_TYPE_DATA
        };
        if self.ack_request {
            bits = bits | APS_ACK_REQUEST;
        }
        if self.fragment.is_some() {
            bits = bits | APS_EXTENDED;
        }
        proof {
            assert(0x00u8 | 0x00u8 == 0x00u8 && 0x02u8 | 0x00u8 == 0x02u8 && 0x40u8 | 0x00u8
                == 0x40u8 && 0x42u8 | 0x00u8 == 0x42u8) by (bit_vector);
            assert(0x00u8 | 0x40u8 == 0x40u8 && 0x02u8 | 0x40u8 == 0x42u8) by (bit_vector);
        }
        out.push(bits);
        out.push(self.header.endpoint);
        push_le(&mut out, self.header.cluster);
        push_le(&mut out, self.header.profile);
        out.push(self.header.endpoint);
        out.push(self.header.counter);
        assert(out@ =~= network_header(self.header) + aps_header(self@));
        match self.fragment {
            Some(Fragment::First { count }) => {
                out.push(FRAGMENT_FIRST);
                out.push(count);
            },
            Some(Fragment::Block { index }) => {
                out.push(FRAGMENT_OTHER);
                out.push(index);
            },
            None => {},
        }
        out.extend_from_slice(&self.payload);
        assert(out@ =~= encoded(self@));
        out
    }

    /// Exactly one frame. Refused are more than the MAC carries, a frame cut
    /// off inside its headers, a network frame that is not data, and a
    /// fragmentation code Zigbee does not use.
    pub fn decode(bytes: &[u8]) -> (result: Result<Self, ZigbeeError>)
        ensures
            match result {
                Ok(frame) => decoded(bytes@) == Ok::<FrameView, ZigbeeError>(frame@),
                Err(error) => decoded(bytes@) == Err::<FrameView, ZigbeeError>(error),
            },
    {
        if bytes.len() > MAX_NPDU {
            return Err(ZigbeeError::OverMac);
        }
        if bytes.len() < NWK_HEADER {
            return Err(ZigbeeError::CutOff);
        }
        proof {
            assert(bytes@.take(2) =~= seq![bytes@[0], bytes@[1]]);
            assert(NWK_DATA@ =~= seq![0x08u8, 0x00u8]);
            assert(seq![bytes@[0], bytes@[1]] == NWK_DATA@ <==> bytes@[0] == NWK_DATA@[0]
                && bytes@[1] == NWK_DATA@[1]) by {
                assert(seq![bytes@[0], bytes@[1]][0] == bytes@[0]);
                assert(seq![bytes@[0], bytes@[1]][1] == bytes@[1]);
            }
        }
        if bytes[0] != NWK_DATA[0] || bytes[1] != NWK_DATA[1] {
            return Err(ZigbeeError::NotData);
        }
        if bytes.len() < NWK_HEADER + APS_HEADER {
            return Err(ZigbeeError::CutOff);
        }
        let bits: u8 = bytes[8];
        let (fragment, start): (Option<Fragment>, usize) = if bits & APS_EXTENDED != 0 {
            if bytes.len() < NWK_HEADER + APS_HEADER + 2 {
                return Err(ZigbeeError::CutOff);
            }
            let code: u8 = bytes[16] & FRAGMENT_CODE;
            let number: u8 = bytes[17];
            if code == FRAGMENT_FIRST {
                (Some(Fragment::First { count: number }), 18)
            } else if code == FRAGMENT_OTHER {
                (Some(Fragment::Block { index: number }), 18)
            } else {
                return Err(ZigbeeError::FragmentationCode { code });
            }
        } else {
            (None, 16)
        };
        let (_, payload) = bytes.split_at(start);
        assert(payload@ =~= bytes@.skip(start as int));
        Ok(
            Frame {
                header: Header {
                    destination: from_le(bytes[2], bytes[3]),
                    source: from_le(bytes[4], bytes[5]),
                    endpoint: bytes[9],
                    cluster: from_le(bytes[10], bytes[11]),
                    profile: from_le(bytes[12], bytes[13]),
                    counter: bytes[15],
                },
                ack: bits & APS_TYPE == APS_TYPE_ACK,
                ack_request: bits & APS_ACK_REQUEST != 0,
                fragment,
                payload: vstd::slice::slice_to_vec(payload),
            },
        )
    }
}

/// The blocks a fragmented transmission of `length` bytes has.
pub open spec fn block_count(length: nat) -> nat {
    (length + MAX_BLOCK - 1) as nat / MAX_BLOCK as nat
}

/// Where block `index` of `length` bytes ends.
pub open spec fn block_end(length: nat, index: int) -> int {
    if (index + 1) * MAX_BLOCK <= length {
        (index + 1) * MAX_BLOCK
    } else {
        length as int
    }
}

/// The bytes of block `index`.
pub open spec fn block_of(bytes: Seq<u8>, index: int) -> Seq<u8> {
    bytes.subrange(index * MAX_BLOCK, block_end(bytes.len(), index))
}

/// What block `index` of `count` says it is: the first says how many there
/// are, every other which it is.
pub open spec fn block_named(count: nat, index: int) -> Fragment {
    if index == 0 {
        Fragment::First { count: count as u8 }
    } else {
        Fragment::Block { index: index as u8 }
    }
}

/// `bytes` as the frames of one transmission under `header`: one data frame
/// where it fits, else the blocks in order.
pub open spec fn framed(header: Header, bytes: Seq<u8>) -> Seq<FrameView> {
    if bytes.len() <= MAX_UNFRAGMENTED {
        seq![data_frame(header, None, bytes)]
    } else {
        Seq::new(
            block_count(bytes.len()),
            |i: int|
                data_frame(
                    header,
                    Some(block_named(block_count(bytes.len()), i)),
                    block_of(bytes, i),
                ),
        )
    }
}

/// A Stream within the ceiling has at least one block and no more than one
/// byte counts.
pub proof fn lemma_block_count(length: nat)
    requires
        0 < length <= MAX_STREAM,
    ensures
        block_count(length) == (length + 97) / 98,
        1 <= block_count(length) <= MAX_BLOCKS,
        length > MAX_UNFRAGMENTED ==> block_count(length) > 1,
{
    assert(MAX_BLOCK == 98 && MAX_STREAM == 24990) by (nonlinear_arith);
    assert(block_count(length) == (length + 97) / 98) by (nonlinear_arith)
        requires
            length > 0,
            MAX_BLOCK == 98,
    ;
}

/// The arithmetic of blocks: they cover the Stream in order, and only the
/// last may be short.
pub proof fn lemma_blocks(length: nat, index: int)
    requires
        0 < length <= MAX_STREAM,
        0 <= index < block_count(length),
    ensures
        index * MAX_BLOCK == index * 98,
        (index + 1) * MAX_BLOCK == index * MAX_BLOCK + MAX_BLOCK,
        index * MAX_BLOCK < length,
        block_end(length, index) - index * MAX_BLOCK <= MAX_BLOCK,
        index * MAX_BLOCK < block_end(length, index) <= length,
        index + 1 == block_count(length) <==> block_end(length, index) == length,
        index + 1 < block_count(length) ==> block_end(length, index) == (index + 1) * MAX_BLOCK,
{
    lemma_block_count(length);
    assert(index * MAX_BLOCK == index * 98) by (nonlinear_arith)
        requires
            MAX_BLOCK == 98,
    ;
    assert((index + 1) * MAX_BLOCK == (index + 1) * 98) by (nonlinear_arith)
        requires
            MAX_BLOCK == 98,
    ;
}

/// `bytes` as the frames of one transmission under `header`: one data frame
/// where it fits, else the blocks of a fragmented transmission. Refused is
/// more than [`MAX_STREAM`], which is more blocks than one byte counts.
pub fn frames(header: &Header, bytes: &[u8]) -> (result: Result<Vec<Frame>, ZigbeeError>)
    ensures
        match result {
            Ok(frames) => bytes@.len() <= MAX_STREAM && frame_views(frames@) == framed(
                *header,
                bytes@,
            ),
            Err(error) => bytes@.len() > MAX_STREAM && error == (ZigbeeError::OverCeiling {
                length: bytes@.len() as usize,
                ceiling: MAX_STREAM,
            }),
        },
{
    let length: usize = bytes.len();
    let mut out: Vec<Frame> = Vec::new();
    if length <= MAX_UNFRAGMENTED {
        out.push(Frame::data(*header, None, bytes)?);
        assert(frame_views(out@) =~= framed(*header, bytes@));
        return Ok(out);
    }
    if length > MAX_STREAM {
        return Err(ZigbeeError::OverCeiling { length, ceiling: MAX_STREAM });
    }
    let count: usize = (length + (MAX_BLOCK - 1)) / MAX_BLOCK;
    proof {
        lemma_block_count(length as nat);
    }
    let mut index: usize = 0;
    while index < count
        invariant
            MAX_UNFRAGMENTED < length <= MAX_STREAM,
            length == bytes@.len(),
            count == block_count(length as nat),
            count <= MAX_BLOCKS,
            index <= count,
            frame_views(out@) =~= framed(*header, bytes@).take(index as int),
        decreases count - index,
    {
        proof {
            lemma_blocks(length as nat, index as int);
        }
        let start: usize = index * MAX_BLOCK;
        let end: usize = if length - start < MAX_BLOCK {
            length
        } else {
            start + MAX_BLOCK
        };
        let fragment = if index == 0 {
            Fragment::First { count: count as u8 }
        } else {
            Fragment::Block { index: index as u8 }
        };
        let block = vstd::slice::slice_subrange(bytes, start, end);
        assert(block@ =~= block_of(bytes@, index as int));
        let frame = Frame::data(*header, Some(fragment), block)?;
        assert(frame@ == framed(*header, bytes@)[index as int]);
        let ghost before = out@;
        out.push(frame);
        proof {
            let all = framed(*header, bytes@);
            assert(frame_views(out@) =~= frame_views(before).push(frame@));
            assert(all.take(index + 1) =~= all.take(index as int).push(all[index as int]));
        }
        index = index + 1;
    }
    assert(framed(*header, bytes@).take(count as int) =~= framed(*header, bytes@));
    Ok(out)
}

/// The 16-bit field that two bytes carry, the low byte first.
fn from_le(low: u8, high: u8) -> (value: u16)
    ensures
        value == le_value(low, high),
{
    low as u16 + 256 * (high as u16)
}

/// A 16-bit field put behind what is there, the low byte first.
fn push_le(out: &mut Vec<u8>, value: u16)
    ensures
        final(out)@ == old(out)@ + le_bytes(value),
{
    out.push((value % 256) as u8);
    out.push((value / 256) as u8);
}

/// The control byte gives back each of the three things it says.
proof fn lemma_control_bits(ack: bool, ack_request: bool, extended: bool)
    ensures
        (control(ack, ack_request, extended) & APS_TYPE == APS_TYPE_ACK) == ack,
        (control(ack, ack_request, extended) & APS_ACK_REQUEST != 0) == ack_request,
        (control(ack, ack_request, extended) & APS_EXTENDED != 0) == extended,
{
    let bits = control(ack, ack_request, extended);
    assert(((bits & 0x03u8 == 0x02u8) == ack) && ((bits & 0x40u8 != 0) == ack_request) && ((bits
        & 0x80u8 != 0) == extended)) by (bit_vector)
        requires
            bits == (if ack {
                0x02u8
            } else {
                0x00u8
            }) | (if ack_request {
                0x40u8
            } else {
                0u8
            }) | (if extended {
                0x80u8
            } else {
                0u8
            }),
    ;
}

/// What is read of a frame that was written is the frame: every frame that
/// the MAC carries survives the air.
pub proof fn law_decode_undoes_encode(frame: FrameView)
    requires
        encoded(frame).len() <= MAX_NPDU,
    ensures
        decoded(encoded(frame)) == Ok::<FrameView, ZigbeeError>(frame),
{
    let bytes = encoded(frame);
    let header = frame.header;
    lemma_control_bits(frame.ack, frame.ack_request, frame.fragment is Some);
    assert(bytes.take(2) =~= NWK_DATA@);
    assert(0x01u8 & 0x03u8 == 0x01u8 && 0x02u8 & 0x03u8 == 0x02u8) by (bit_vector);
    assert(le_value(le_bytes(header.destination)[0], le_bytes(header.destination)[1])
        == header.destination);
    assert(le_value(le_bytes(header.source)[0], le_bytes(header.source)[1]) == header.source);
    assert(le_value(le_bytes(header.cluster)[0], le_bytes(header.cluster)[1]) == header.cluster);
    assert(le_value(le_bytes(header.profile)[0], le_bytes(header.profile)[1]) == header.profile);
    if frame.fragment is Some {
        assert(bytes.skip(18) =~= frame.payload);
    } else {
        assert(bytes.skip(16) =~= frame.payload);
    }
}

/// A data frame within its limit, and every acknowledgement, is within what
/// the MAC carries; a data frame over its limit is not.
pub proof fn law_frames_fit_the_mac(
    header: Header,
    fragment: Option<Fragment>,
    payload: Seq<u8>,
)
    ensures
        payload.len() <= carries(fragment) <==> encoded(
            data_frame(header, fragment, payload),
        ).len() <= MAX_NPDU,
        encoded(acknowledgement(data_frame(header, fragment, payload))).len() <= MAX_NPDU,
{
}

/// A frame that was read, written again, is as long as it came and reads the
/// same: nothing that reading keeps is lost by passing it on.
pub proof fn law_encode_keeps_what_decode_read(bytes: Seq<u8>)
    requires
        decoded(bytes) is Ok,
    ensures
        encoded(decoded(bytes)->Ok_0).len() == bytes.len(),
        decoded(encoded(decoded(bytes)->Ok_0)) == decoded(bytes),
{
    law_decode_undoes_encode(decoded(bytes)->Ok_0);
}

/// An acknowledgement goes back the way the frame came, under its counter
/// and naming its block; an acknowledgement of that would go the way of the
/// frame again.
pub proof fn law_acknowledgement_goes_back(frame: FrameView)
    ensures
        acknowledgement(frame).header.destination == frame.header.source,
        acknowledgement(frame).header.source == frame.header.destination,
        acknowledgement(frame).header.counter == frame.header.counter,
        acknowledgement(frame).fragment == frame.fragment,
        acknowledgement(acknowledgement(frame)).header == frame.header,
{
}

/// The payloads of a run of frames, end to end.
pub open spec fn payloads(frames: Seq<FrameView>) -> Seq<u8>
    decreases frames.len(),
{
    if frames.len() == 0 {
        Seq::empty()
    } else {
        payloads(frames.drop_last()) + frames.last().payload
    }
}

/// The first `count` blocks hold the Stream as far as they reach.
proof fn lemma_payloads_of_blocks(header: Header, bytes: Seq<u8>, count: nat)
    requires
        MAX_UNFRAGMENTED < bytes.len() <= MAX_STREAM,
        0 < count <= block_count(bytes.len()),
    ensures
        payloads(framed(header, bytes).take(count as int)) == bytes.take(
            block_end(bytes.len(), count - 1),
        ),
    decreases count,
{
    let all = framed(header, bytes);
    let upto = all.take(count as int);
    lemma_blocks(bytes.len(), count - 1);
    assert(upto.drop_last() =~= all.take(count - 1));
    if count == 1 {
        assert(payloads(upto.drop_last()) =~= Seq::empty());
        assert(payloads(upto) =~= bytes.take(block_end(bytes.len(), 0)));
    } else {
        lemma_blocks(bytes.len(), count - 2);
        lemma_payloads_of_blocks(header, bytes, (count - 1) as nat);
        assert(payloads(upto) =~= bytes.take(block_end(bytes.len(), count - 1)));
    }
}

/// The frames of a transmission carry the Stream whole and in order: their
/// payloads end to end are its bytes.
pub proof fn law_frames_carry_the_stream(header: Header, bytes: Seq<u8>)
    requires
        bytes.len() <= MAX_STREAM,
    ensures
        payloads(framed(header, bytes)) == bytes,
{
    let all = framed(header, bytes);
    if bytes.len() <= MAX_UNFRAGMENTED {
        assert(all.drop_last() =~= Seq::empty());
        assert(payloads(all.drop_last()) =~= Seq::empty());
        assert(payloads(all) =~= bytes);
    } else {
        let count = block_count(bytes.len());
        lemma_block_count(bytes.len());
        lemma_blocks(bytes.len(), count - 1);
        lemma_payloads_of_blocks(header, bytes, count);
        assert(all.take(count as int) =~= all);
        assert(bytes.take(bytes.len() as int) =~= bytes);
    }
}

/// Every frame of a transmission is data under its header, asks to be
/// acknowledged, is within what its kind of frame carries and so within what
/// the MAC carries; there is one where the Stream fits one, and otherwise
/// the first says how many blocks there are and every other which it is.
pub proof fn law_frames_are_numbered_blocks(header: Header, bytes: Seq<u8>, index: int)
    requires
        bytes.len() <= MAX_STREAM,
        0 <= index < framed(header, bytes).len(),
    ensures
        ({
            let frames = framed(header, bytes);
            let frame = frames[index];
            &&& frame.header == header
            &&& !frame.ack && frame.ack_request
            &&& frame.payload.len() <= carries(frame.fragment)
            &&& encoded(frame).len() <= MAX_NPDU
            &&& bytes.len() <= MAX_UNFRAGMENTED ==> frames.len() == 1 && frame.fragment is None
            &&& bytes.len() > MAX_UNFRAGMENTED ==> {
                &&& 1 < frames.len() <= MAX_BLOCKS
                &&& index == 0 ==> (frame.fragment matches Some(Fragment::First { count })
                    && count == frames.len())
                &&& index > 0 ==> (frame.fragment matches Some(Fragment::Block { index: number })
                    && number == index)
                &&& index + 1 < frames.len() ==> frame.payload.len() == MAX_BLOCK
            }
        }),
{
    if bytes.len() > MAX_UNFRAGMENTED {
        lemma_block_count(bytes.len());
        lemma_blocks(bytes.len(), index);
    }
    let frame = framed(header, bytes)[index];
    law_frames_fit_the_mac(header, frame.fragment, frame.payload);
}

} // verus!

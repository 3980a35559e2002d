//! Frames on the air, byte by byte.
use vstd::prelude::*;

use crate::error::ZigbeeError;
use crate::frame::{
    encoded, frame_views, framed, frames, lemma_block_count, lemma_blocks, Fragment, Frame,
    FrameView, Header,
};

verus! {

/// Sixteen bits out of two bytes of a frame, the low byte first.
pub open spec fn field(bytes: Seq<u8>, at: int) -> int {
    bytes[at] + 256 * bytes[at + 1]
}

/// The names that the two headers carry stand in these bytes.
pub open spec fn names_stand(bytes: Seq<u8>, header: Header) -> bool {
    &&& field(bytes, 2) == header.destination
    &&& field(bytes, 4) == header.source
    &&& bytes[9] == header.endpoint
    &&& field(bytes, 10) == header.cluster
    &&& field(bytes, 12) == header.profile
    &&& bytes[15] == header.counter
}

/// The bytes of a control byte's three parts.
pub proof fn lemma_control_parts(bits: u8)
    ensures
        (bits & 0x03 == 0x02) == (bits % 4 == 2),
        (bits & 0x40 != 0) == (bits / 64 % 2 == 1),
        (bits & 0x80 != 0) == (bits >= 128),
        bits & 0x03 == bits % 4,
{
    assert((bits & 0x03 == 0x02) == (bits % 4 == 2) && (bits & 0x40 != 0) == (bits / 64 % 2 == 1)
        && (bits & 0x80 != 0) == (bits >= 128) && bits & 0x03 == bits % 4) by (bit_vector);
}

/// What stands where in the bytes of a frame: it is a data frame of the network
/// layer, protocol version 2, its four 16-bit names the low byte first, thirty
/// hops to go, its counter as the network sequence too and its endpoint as the
/// source endpoint too; the control byte says by its bits whether it is an
/// acknowledgement, whether it asks for one and whether it is a block; a block
/// says behind the headers whether it is the first and its number; the payload
/// follows and nothing else.
pub open spec fn laid_out(
    out: Seq<u8>,
    header: Header,
    ack: bool,
    ack_request: bool,
    fragment: Option<Fragment>,
    payload: Seq<u8>,
) -> bool {
    &&& names_stand(out, header)
    &&& out[0] == 0x08 && out[1] == 0x00
    &&& out[6] == 30
    &&& out[7] == header.counter
    &&& out[8] == (if ack {
        2int
    } else {
        0
    }) + (if ack_request {
        64int
    } else {
        0
    }) + (if fragment is Some {
        128int
    } else {
        0
    })
    &&& out[14] == header.endpoint
    &&& match fragment {
        None => out.len() == 16 + payload.len() && out.skip(16) == payload,
        Some(Fragment::First { count }) => {
            &&& out[16] == 1 && out[17] == count
            &&& out.len() == 18 + payload.len() && out.skip(18) == payload
        },
        Some(Fragment::Block { index }) => {
            &&& out[16] == 2 && out[17] == index
            &&& out.len() == 18 + payload.len() && out.skip(18) == payload
        },
    }
}

/// A frame as the radio carries it is laid out so.
pub proof fn lemma_encoded_is_laid_out(frame: FrameView)
    ensures
        laid_out(
            encoded(frame),
            frame.header,
            frame.ack,
            frame.ack_request,
            frame.fragment,
            frame.payload,
        ),
{
    let out = encoded(frame);
    let a = frame.ack;
    let r = frame.ack_request;
    let x = frame.fragment is Some;
    let bits = (if a {
        0x02u8
    } else {
        0x00u8
    }) | (if r {
        0x40u8
    } else {
        0u8
    }) | (if x {
        0x80u8
    } else {
        0u8
    });
    assert(bits == (if a {
        2u8
    } else {
        0u8
    }) + (if r {
        64u8
    } else {
        0u8
    }) + (if x {
        128u8
    } else {
        0u8
    })) by (bit_vector)
        requires
            bits == (if a {
                0x02u8
            } else {
                0x00u8
            }) | (if r {
                0x40u8
            } else {
                0u8
            }) | (if x {
                0x80u8
            } else {
                0u8
            }),
    ;
    assert(out[8] == bits);
    if x {
        assert(out.skip(18) =~= frame.payload);
    } else {
        assert(out.skip(16) =~= frame.payload);
    }
}

/// A frame on the air is laid out byte by byte.
pub proof fn law_a_frame_is_laid_out_byte_by_byte(frame: Frame, out: Vec<u8>)
    requires
        call_ensures(Frame::encode, (&frame,), out),
    ensures
        laid_out(
            out@,
            frame.header,
            frame.ack,
            frame.ack_request,
            frame.fragment,
            frame.payload@,
        ),
{
    lemma_encoded_is_laid_out(frame@);
}

/// Bytes off the air are a frame where they are no more than 116, start as
/// network data does and hold both headers, and the extended header too where
/// the control byte has its top bit; the frame says what the bytes say, place
/// by place. Else they are refused for the first thing amiss.
pub proof fn law_bytes_are_read_byte_by_byte(bytes: &[u8], result: Result<Frame, ZigbeeError>)
    requires
        call_ensures(Frame::decode, (bytes,), result),
    ensures
        ({
            let b = bytes@;
            let data = b[0] == 0x08 && b[1] == 0x00;
            let extended = b[8] >= 128;
            let code = (b[16] % 4) as int;
            match result {
                Ok(frame) => {
                    &&& 16 <= b.len() <= 116 && data
                    &&& extended ==> b.len() >= 18 && (code == 1 || code == 2)
                    &&& names_stand(b, frame.header)
                    &&& frame.ack == (b[8] % 4 == 2)
                    &&& frame.ack_request == (b[8] / 64 % 2 == 1)
                    &&& !extended ==> frame.fragment is None && frame.payload@ == b.skip(16)
                    &&& extended && code == 1 ==> frame.fragment == Some(
                        Fragment::First { count: b[17] },
                    ) && frame.payload@ == b.skip(18)
                    &&& extended && code == 2 ==> frame.fragment == Some(
                        Fragment::Block { index: b[17] },
                    ) && frame.payload@ == b.skip(18)
                },
                Err(error) => {
                    ||| b.len() > 116 && error == ZigbeeError::OverMac
                    ||| b.len() < 8 && error == ZigbeeError::CutOff
                    ||| 8 <= b.len() <= 116 && !data && error == ZigbeeError::NotData
                    ||| 8 <= b.len() < 16 && data && error == ZigbeeError::CutOff
                    ||| 16 <= b.len() < 18 && data && extended && error == ZigbeeError::CutOff
                    ||| 18 <= b.len() <= 116 && data && extended && code != 1 && code != 2
                        && error == (ZigbeeError::FragmentationCode { code: code as u8 })
                },
            }
        }),
{
    let b = bytes@;
    if 8 <= b.len() {
        assert(b.take(2)[0] == b[0] && b.take(2)[1] == b[1]);
        if b[0] == 0x08 && b[1] == 0x00 {
            assert(b.take(2) =~= crate::frame::NWK_DATA@);
        }
    }
    lemma_control_parts(b[8]);
    lemma_control_parts(b[16]);
}

/// A data frame carries up to 100 bytes whole and 98 as a block; it is no
/// acknowledgement, asks for one, and says exactly what it was given.
pub proof fn law_a_data_frame_says_what_it_was_given(
    header: Header,
    fragment: Option<Fragment>,
    payload: &[u8],
    result: Result<Frame, ZigbeeError>,
)
    requires
        call_ensures(Frame::data, (header, fragment, payload), result),
    ensures
        result is Ok <==> payload@.len() <= (if fragment is Some {
            98int
        } else {
            100
        }),
        match result {
            Ok(frame) => {
                &&& frame.header == header && frame.fragment == fragment
                &&& !frame.ack && frame.ack_request
                &&& frame.payload@ == payload@
            },
            Err(error) => error == ZigbeeError::FrameTooLarge,
        },
{
}

/// The acknowledgement of any frame carries nothing, asks for nothing, goes
/// from where the frame went to where it came from, and has the frame's
/// endpoint, cluster, profile, counter and block.
pub proof fn law_an_acknowledgement_answers_its_frame(frame: Frame, ack: Frame)
    requires
        call_ensures(Frame::acknowledging, (&frame,), ack),
    ensures
        ack.ack && !ack.ack_request,
        ack.payload@.len() == 0,
        ack.fragment == frame.fragment,
        ack.header.destination == frame.header.source,
        ack.header.source == frame.header.destination,
        ack.header.endpoint == frame.header.endpoint,
        ack.header.cluster == frame.header.cluster,
        ack.header.profile == frame.header.profile,
        ack.header.counter == frame.header.counter,
{
    assert(ack@.payload.len() == 0);
}

/// What is read of the bytes that a frame was written as is the frame.
pub proof fn law_a_frame_reads_back(
    frame: Frame,
    out: Vec<u8>,
    bytes: &[u8],
    result: Result<Frame, ZigbeeError>,
)
    requires
        call_ensures(Frame::encode, (&frame,), out),
        bytes@ == out@,
        out@.len() <= 116,
        call_ensures(Frame::decode, (bytes,), result),
    ensures
        result matches Ok(read) && {
            &&& read.header == frame.header
            &&& read.ack == frame.ack && read.ack_request == frame.ack_request
            &&& read.fragment == frame.fragment
            &&& read.payload@ == frame.payload@
        },
{
    crate::frame::law_decode_undoes_encode(frame@);
    assert(result->Ok_0@ == frame@);
}

/// What a Stream's bytes are as frames: under one header, data that asks to be
/// acknowledged; one frame where they are up to 100, and else as many blocks
/// of 98 as it takes, the last with what is left, byte for byte where the
/// Stream has them; the first saying how many there are and every other which
/// it is.
pub open spec fn cut_into(header: Header, bytes: Seq<u8>, all: Seq<FrameView>) -> bool {
    &&& all.len() > 0
    &&& forall|i: int|
        0 <= i < all.len() ==> {
            &&& (#[trigger] all[i]).header == header
            &&& !all[i].ack && all[i].ack_request
        }
    &&& if bytes.len() <= 100 {
        &&& all.len() == 1
        &&& all[0].fragment is None
        &&& all[0].payload == bytes
    } else {
        &&& 98 * (all.len() - 1) < bytes.len() <= 98 * all.len()
        &&& forall|i: int|
            0 <= i < all.len() ==> {
                &&& (#[trigger] all[i]).fragment == Some(
                    if i == 0 {
                        Fragment::First { count: all.len() as u8 }
                    } else {
                        Fragment::Block { index: i as u8 }
                    },
                )
                &&& all[i].payload.len() == if i + 1 < all.len() {
                    98
                } else {
                    bytes.len() - 98 * i
                }
                &&& forall|j: int|
                    0 <= j < all[i].payload.len() ==> #[trigger] all[i].payload[j] == bytes[98 * i
                        + j]
            }
    }
}

/// The frames of a Stream within the ceiling are it cut into frames.
pub proof fn lemma_framed_is_cut(header: Header, bytes: Seq<u8>)
    requires
        bytes.len() <= 24990,
    ensures
        cut_into(header, bytes, framed(header, bytes)),
        framed(header, bytes).len() <= 255,
{
    let all = framed(header, bytes);
    if bytes.len() > 100 {
        lemma_block_count(bytes.len());
        assert forall|i: int| 0 <= i < all.len() implies ({
            &&& (#[trigger] all[i]).fragment == Some(
                if i == 0 {
                    Fragment::First { count: all.len() as u8 }
                } else {
                    Fragment::Block { index: i as u8 }
                },
            )
            &&& all[i].payload.len() == if i + 1 < all.len() {
                98
            } else {
                bytes.len() - 98 * i
            }
            &&& forall|j: int|
                0 <= j < all[i].payload.len() ==> #[trigger] all[i].payload[j] == bytes[98 * i + j]
        }) by {
            lemma_blocks(bytes.len(), i);
        }
    }
}

/// A Stream of up to 24990 bytes is cut into frames, at most 255; a longer
/// one is refused, with how long it is and how long it may be.
pub proof fn law_a_stream_is_cut_into_frames(
    header: Header,
    bytes: &[u8],
    result: Result<Vec<Frame>, ZigbeeError>,
)
    requires
        call_ensures(frames, (&header, bytes), result),
    ensures
        match result {
            Ok(all) => {
                &&& bytes@.len() <= 24990
                &&& all@.len() <= 255
                &&& cut_into(header, bytes@, frame_views(all@))
            },
            Err(error) => {
                &&& bytes@.len() > 24990
                &&& error matches ZigbeeError::OverCeiling { length, ceiling }
                &&& length == bytes@.len() && ceiling == 24990
            },
        },
{
    assert(crate::frame::MAX_STREAM == 24990) by (nonlinear_arith);
    if bytes@.len() <= 24990 {
        lemma_framed_is_cut(header, bytes@);
        assert(frame_views(result->Ok_0@).len() == result->Ok_0@.len());
    } else {
        assert(bytes.len() == bytes@.len());
    }
}

} // verus!

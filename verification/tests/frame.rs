use transport_zigbee::frame::{
    frames, Fragment, Frame, Header, FRAGMENT_FIRST, MAX_BLOCK, MAX_NPDU, MAX_STREAM,
    MAX_UNFRAGMENTED,
};
use transport_zigbee::ZigbeeError;

fn header() -> Header {
    Header {
        destination: 0x0000,
        source: 0x1a2b,
        endpoint: 1,
        cluster: 0x0402,
        profile: 0x0104,
        counter: 9,
    }
}

#[test]
fn a_data_frame_is_the_two_headers_and_the_payload() {
    let frame = Frame::data(header(), None, b"21.5").expect("frame");
    let bytes = frame.encode();
    assert_eq!(&bytes[..8], &[0x08, 0x00, 0x00, 0x00, 0x2b, 0x1a, 30, 9]);
    assert_eq!(&bytes[8..16], &[0x40, 1, 0x02, 0x04, 0x04, 0x01, 1, 9]);
    assert_eq!(&bytes[16..], b"21.5");
    assert_eq!(Frame::decode(&bytes).expect("decode"), frame);
    let ack = frame.acknowledging();
    assert!(ack.ack && !ack.ack_request && ack.payload.is_empty());
    assert_eq!((ack.header.destination, ack.header.source), (0x1a2b, 0));
    assert_eq!(Frame::decode(&ack.encode()).expect("decode"), ack);
}

#[test]
fn a_fragmented_transmission_counts_its_blocks_in_the_first() {
    let long: Vec<u8> = (0..250u32)
        .map(|n| u8::try_from(n % 256).unwrap_or(0))
        .collect();
    let blocks = frames(&header(), &long).expect("frames");
    assert_eq!(blocks.len(), 3);
    assert_eq!(blocks[0].fragment, Some(Fragment::First { count: 3 }));
    assert_eq!(blocks[1].fragment, Some(Fragment::Block { index: 1 }));
    assert_eq!(blocks[2].fragment, Some(Fragment::Block { index: 2 }));
    assert_eq!(blocks[2].payload.len(), 250 - 2 * MAX_BLOCK);
    let bytes = blocks[0].encode();
    assert_eq!(bytes.len(), MAX_NPDU);
    assert_eq!(&bytes[16..18], &[FRAGMENT_FIRST, 3]);
    assert_eq!(Frame::decode(&bytes).expect("decode"), blocks[0]);
    let whole = frames(&header(), &[0; MAX_UNFRAGMENTED]).expect("whole");
    assert_eq!(whole.len(), 1);
    assert!(whole[0].fragment.is_none());
    assert_eq!(frames(&header(), &[]).expect("empty")[0].payload, []);
}

#[test]
fn what_the_mac_will_not_carry_is_refused() {
    assert!(Frame::data(header(), None, &[0; MAX_UNFRAGMENTED + 1]).is_err());
    let first = Some(Fragment::First { count: 1 });
    assert!(Frame::data(header(), first, &[0; MAX_BLOCK + 1]).is_err());
    assert!(frames(&header(), &vec![0; MAX_STREAM]).is_ok());
    assert!(frames(&header(), &vec![0; MAX_STREAM + 1]).is_err());
    let bytes = Frame::data(header(), first, b"x").expect("frame").encode();
    assert!(Frame::decode(&bytes[..12]).is_err(), "cut off");
    assert!(Frame::decode(&[0; MAX_NPDU + 1]).is_err(), "too long");
    let mut bad = bytes.clone();
    bad[0] = 0x09;
    assert!(Frame::decode(&bad).is_err(), "a command frame");
    let mut bad = bytes;
    bad[16] = 0x03;
    assert!(Frame::decode(&bad).is_err(), "fragmentation code");
}

#[test]
fn each_refusal_is_told_apart() {
    assert_eq!(
        Frame::data(header(), None, &[0; 101]),
        Err(ZigbeeError::FrameTooLarge)
    );
    assert!(Frame::data(header(), None, &[0; 100]).is_ok());
    let block = Some(Fragment::Block { index: 7 });
    assert_eq!(
        Frame::data(header(), block, &[0; 99]),
        Err(ZigbeeError::FrameTooLarge)
    );
    assert!(Frame::data(header(), block, &[0; 98]).is_ok());
    assert_eq!(
        frames(&header(), &vec![0; 24_991]).expect_err("over"),
        ZigbeeError::OverCeiling { length: 24_991, ceiling: 24_990 }
    );
    let good = Frame::data(header(), block, b"x").expect("frame").encode();
    assert_eq!(Frame::decode(&[8; 117]), Err(ZigbeeError::OverMac));
    assert_eq!(Frame::decode(&[]), Err(ZigbeeError::CutOff));
    assert_eq!(Frame::decode(&good[..7]), Err(ZigbeeError::CutOff));
    assert_eq!(Frame::decode(&good[..15]), Err(ZigbeeError::CutOff));
    assert_eq!(Frame::decode(&good[..17]), Err(ZigbeeError::CutOff));
    let mut bad = good.clone();
    bad[1] = 0x02;
    assert_eq!(Frame::decode(&bad), Err(ZigbeeError::NotData));
    assert_eq!(Frame::decode(&bad[..8]), Err(ZigbeeError::NotData), "before the cut");
    for (code, told) in [(0x00, 0), (0x03, 3), (0xfc, 0), (0xff, 3)] {
        let mut bad = good.clone();
        bad[16] = code;
        assert_eq!(
            Frame::decode(&bad),
            Err(ZigbeeError::FragmentationCode { code: told })
        );
    }
}

#[test]
fn reading_passes_over_what_it_does_not_keep() {
    let frame = Frame::data(header(), Some(Fragment::Block { index: 2 }), b"ab").expect("frame");
    let mut bytes = frame.encode();
    bytes[6] = 1;
    bytes[7] = 200;
    bytes[8] |= 0x3c;
    bytes[14] = 77;
    bytes[16] |= 0xf0;
    let read = Frame::decode(&bytes).expect("decode");
    assert_eq!(read, frame);
    assert_eq!(Frame::decode(&read.encode()).expect("again"), read);
}

#[test]
fn every_frame_that_fits_survives_the_air() {
    let fragments = [
        None,
        Some(Fragment::First { count: 0 }),
        Some(Fragment::First { count: 255 }),
        Some(Fragment::Block { index: 0 }),
        Some(Fragment::Block { index: 254 }),
    ];
    for fragment in fragments {
        for ack in [false, true] {
            for ack_request in [false, true] {
                let frame = Frame {
                    header: Header {
                        destination: 0xfffd,
                        source: 0x00ff,
                        endpoint: 240,
                        cluster: 0xfc00,
                        profile: 0xc05e,
                        counter: 255,
                    },
                    ack,
                    ack_request,
                    fragment,
                    payload: vec![0xa5; 98],
                };
                assert_eq!(Frame::decode(&frame.encode()), Ok(frame));
            }
        }
    }
}

#[test]
fn an_acknowledgement_of_an_acknowledgement_goes_the_first_way_again() {
    let frame = Frame::data(header(), Some(Fragment::Block { index: 3 }), b"x").expect("frame");
    let ack = frame.acknowledging();
    assert_eq!(ack.header.counter, 9);
    assert_eq!(ack.fragment, Some(Fragment::Block { index: 3 }));
    assert_eq!(ack.acknowledging().header, frame.header);
}

#[test]
fn the_payloads_end_to_end_are_the_stream() {
    for length in [0, 1, 99, 100, 101, 195, 196, 197, 294, 1_000, MAX_STREAM] {
        let stream: Vec<u8> = (0..length).map(|n| (n % 251) as u8).collect();
        let all = frames(&header(), &stream).expect("frames");
        let joined: Vec<u8> = all.iter().flat_map(|frame| frame.payload.clone()).collect();
        assert_eq!(joined, stream, "{length}");
        for (index, frame) in all.iter().enumerate() {
            assert_eq!(frame.header, header());
            assert!(!frame.ack && frame.ack_request);
            assert!(frame.encode().len() <= MAX_NPDU);
            if all.len() == 1 {
                assert_eq!(frame.fragment, None);
            } else if index == 0 {
                assert_eq!(frame.fragment, Some(Fragment::First { count: all.len() as u8 }));
            } else {
                assert_eq!(frame.fragment, Some(Fragment::Block { index: index as u8 }));
            }
        }
    }
    assert_eq!(frames(&header(), &[0; 101]).expect("two").len(), 2);
    assert_eq!(frames(&header(), &vec![0; MAX_STREAM]).expect("brim").len(), 255);
}

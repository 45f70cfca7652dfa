use bytes::{Bytes, BytesMut};
use getinfo::frame::{encode_frame, FrameDecoder, FrameError, DEFAULT_MAX_FRAME_LEN, HEADER_LEN};
use tokio_util::codec::{Decoder, Encoder, LengthDelimitedCodec};

fn framed(payload: &[u8]) -> Vec<u8> {
    encode_frame(payload, DEFAULT_MAX_FRAME_LEN).unwrap()
}

#[test]
fn constants_match_the_wire_format() {
    assert_eq!(HEADER_LEN, 4);
    assert_eq!(DEFAULT_MAX_FRAME_LEN, 8 * 1024 * 1024);
}

#[test]
fn encode_writes_big_endian_length_then_payload() {
    assert_eq!(framed(b"gettime"), vec![0, 0, 0, 7, b'g', b'e', b't', b't', b'i', b'm', b'e']);
}

#[test]
fn encode_empty_payload_is_four_zero_bytes() {
    assert_eq!(framed(b""), vec![0, 0, 0, 0]);
}

#[test]
fn encode_uses_every_byte_of_the_prefix() {
    let payload = vec![0xabu8; 0x0001_0203];
    let bytes = framed(&payload);
    assert_eq!(&bytes[..4], &[0x00, 0x01, 0x02, 0x03]);
    assert_eq!(bytes.len(), 4 + 0x0001_0203);
    assert_eq!(&bytes[4..], &payload[..]);
    let long = vec![1u8; 0x0102_0304];
    let bytes = encode_frame(&long, usize::MAX).unwrap();
    assert_eq!(&bytes[..4], &[0x01, 0x02, 0x03, 0x04]);
}

#[test]
fn encode_at_the_limit_and_over_it() {
    assert_eq!(encode_frame(b"abc", 3), Ok(vec![0, 0, 0, 3, b'a', b'b', b'c']));
    assert_eq!(encode_frame(b"abcd", 3), Err(FrameError::TooLong));
    assert_eq!(encode_frame(b"", 0), Ok(vec![0, 0, 0, 0]));
    assert_eq!(encode_frame(b"a", 0), Err(FrameError::TooLong));
}

#[test]
fn round_trip_of_several_payloads() {
    let payloads: Vec<Vec<u8>> = vec![
        vec![],
        vec![0],
        b"gettime".to_vec(),
        vec![0xff; 300],
        (0..=255u8).collect(),
    ];
    for payload in payloads {
        let mut decoder = FrameDecoder::new(DEFAULT_MAX_FRAME_LEN);
        decoder.feed(&framed(&payload));
        assert_eq!(decoder.next_frame(), Ok(Some(payload)));
        assert_eq!(decoder.next_frame(), Ok(None));
        assert!(decoder.at_boundary());
        assert_eq!(decoder.end_of_stream(), Ok(()));
    }
}

#[test]
fn decoder_keeps_its_limit() {
    assert_eq!(FrameDecoder::new(17).max_frame_len(), 17);
    assert_eq!(FrameDecoder::new(0).max_frame_len(), 0);
}

#[test]
fn one_byte_at_a_time_gives_the_same_payloads() {
    let mut stream = framed(b"gettime");
    stream.extend_from_slice(&framed(b""));
    stream.extend_from_slice(&framed(&[9u8; 260]));

    let mut whole = FrameDecoder::new(DEFAULT_MAX_FRAME_LEN);
    whole.feed(&stream);
    let mut at_once = Vec::new();
    while let Some(p) = whole.next_frame().unwrap() {
        at_once.push(p);
    }

    let mut slow = FrameDecoder::new(DEFAULT_MAX_FRAME_LEN);
    let mut trickled = Vec::new();
    for byte in &stream {
        slow.feed(&[*byte]);
        while let Some(p) = slow.next_frame().unwrap() {
            trickled.push(p);
        }
    }

    assert_eq!(at_once, vec![b"gettime".to_vec(), vec![], vec![9u8; 260]]);
    assert_eq!(trickled, at_once);
    assert!(slow.at_boundary());
    assert!(whole.at_boundary());
}

#[test]
fn incomplete_prefix_and_incomplete_payload_ask_for_more() {
    let mut decoder = FrameDecoder::new(DEFAULT_MAX_FRAME_LEN);
    assert_eq!(decoder.next_frame(), Ok(None));
    decoder.feed(&[0, 0, 0]);
    assert_eq!(decoder.next_frame(), Ok(None));
    decoder.feed(&[2]);
    assert_eq!(decoder.next_frame(), Ok(None));
    decoder.feed(&[b'h']);
    assert_eq!(decoder.next_frame(), Ok(None));
    decoder.feed(&[b'i', 0, 0]);
    assert_eq!(decoder.next_frame(), Ok(Some(b"hi".to_vec())));
    assert_eq!(decoder.next_frame(), Ok(None));
    assert!(!decoder.at_boundary());
}

#[test]
fn two_frames_in_one_chunk_come_out_in_order() {
    let mut stream = framed(b"first");
    stream.extend_from_slice(&framed(b"second"));
    let mut decoder = FrameDecoder::new(DEFAULT_MAX_FRAME_LEN);
    decoder.feed(&stream);
    assert_eq!(decoder.next_frame(), Ok(Some(b"first".to_vec())));
    assert_eq!(decoder.next_frame(), Ok(Some(b"second".to_vec())));
    assert_eq!(decoder.next_frame(), Ok(None));
}

#[test]
fn zero_length_frame_is_a_valid_empty_frame() {
    let mut decoder = FrameDecoder::new(0);
    decoder.feed(&[0, 0, 0, 0]);
    assert_eq!(decoder.next_frame(), Ok(Some(vec![])));
    assert!(decoder.at_boundary());
}

#[test]
fn declared_length_over_the_limit_is_rejected_and_stays_rejected() {
    let mut decoder = FrameDecoder::new(16);
    decoder.feed(&[0, 0, 0, 17]);
    assert_eq!(decoder.next_frame(), Err(FrameError::TooLong));
    decoder.feed(&[0u8; 17]);
    assert_eq!(decoder.next_frame(), Err(FrameError::TooLong));

    let mut at_limit = FrameDecoder::new(16);
    at_limit.feed(&[0, 0, 0, 16]);
    assert_eq!(at_limit.next_frame(), Ok(None));
    at_limit.feed(&[7u8; 16]);
    assert_eq!(at_limit.next_frame(), Ok(Some(vec![7u8; 16])));

    let mut huge = FrameDecoder::new(DEFAULT_MAX_FRAME_LEN);
    huge.feed(&[0xff, 0xff, 0xff, 0xff]);
    assert_eq!(huge.next_frame(), Err(FrameError::TooLong));
}

#[test]
fn end_of_stream_is_clean_only_at_a_boundary() {
    let mut decoder = FrameDecoder::new(DEFAULT_MAX_FRAME_LEN);
    assert_eq!(decoder.end_of_stream(), Ok(()));
    decoder.feed(&[0, 0]);
    assert_eq!(decoder.end_of_stream(), Err(FrameError::Truncated));
    decoder.feed(&[0, 3, b'a']);
    assert_eq!(decoder.next_frame(), Ok(None));
    assert_eq!(decoder.end_of_stream(), Err(FrameError::Truncated));
    decoder.feed(&[b'b', b'c']);
    assert_eq!(decoder.next_frame(), Ok(Some(b"abc".to_vec())));
    assert_eq!(decoder.end_of_stream(), Ok(()));
}

#[test]
fn a_prefix_alone_is_a_truncated_stream() {
    let mut decoder = FrameDecoder::new(DEFAULT_MAX_FRAME_LEN);
    decoder.feed(&[0, 0, 0, 5]);
    assert_eq!(decoder.next_frame(), Ok(None));
    assert_eq!(decoder.end_of_stream(), Err(FrameError::Truncated));
}

#[test]
fn wire_bytes_agree_with_the_length_delimited_codec() {
    let payloads: Vec<Vec<u8>> = vec![vec![], b"gettime".to_vec(), vec![0x5a; 70_000]];
    for payload in payloads {
        let mut codec = LengthDelimitedCodec::new();
        let mut theirs = BytesMut::new();
        codec.encode(Bytes::from(payload.clone()), &mut theirs).unwrap();
        assert_eq!(framed(&payload), theirs.to_vec());

        let mut decoder = FrameDecoder::new(DEFAULT_MAX_FRAME_LEN);
        decoder.feed(&theirs);
        assert_eq!(decoder.next_frame(), Ok(Some(payload.clone())));

        let mut ours = BytesMut::from(&framed(&payload)[..]);
        let back = codec.decode(&mut ours).unwrap().unwrap();
        assert_eq!(back.to_vec(), payload);
        assert!(ours.is_empty());
    }
}

#[test]
fn limit_agrees_with_the_length_delimited_codec() {
    let mut codec = LengthDelimitedCodec::new();
    let mut at_limit = BytesMut::from(&[0x00u8, 0x80, 0x00, 0x00][..]);
    assert!(codec.decode(&mut at_limit).unwrap().is_none());
    let mut decoder = FrameDecoder::new(DEFAULT_MAX_FRAME_LEN);
    decoder.feed(&[0x00, 0x80, 0x00, 0x00]);
    assert_eq!(decoder.next_frame(), Ok(None));

    let mut codec = LengthDelimitedCodec::new();
    let mut over = BytesMut::from(&[0x00u8, 0x80, 0x00, 0x01][..]);
    assert!(codec.decode(&mut over).is_err());
    let mut decoder = FrameDecoder::new(DEFAULT_MAX_FRAME_LEN);
    decoder.feed(&[0x00, 0x80, 0x00, 0x01]);
    assert_eq!(decoder.next_frame(), Err(FrameError::TooLong));
}

#[test]
fn drain_takes_every_whole_frame_and_keeps_the_rest() {
    let mut stream = framed(b"one");
    stream.extend_from_slice(&framed(b""));
    stream.extend_from_slice(&framed(b"three"));
    stream.extend_from_slice(&[0, 0, 0, 9, b'x']);
    let mut decoder = FrameDecoder::new(DEFAULT_MAX_FRAME_LEN);
    decoder.feed(&stream);
    let (frames, verdict) = decoder.drain();
    assert_eq!(frames, vec![b"one".to_vec(), vec![], b"three".to_vec()]);
    assert_eq!(verdict, Ok(()));
    assert!(!decoder.at_boundary());
    assert_eq!(decoder.drain(), (vec![], Ok(())));
    decoder.feed(b"yzabcdef");
    assert_eq!(decoder.drain(), (vec![b"xyzabcdef".to_vec()], Ok(())));
    assert!(decoder.at_boundary());
}

#[test]
fn drain_stops_at_a_prefix_over_the_limit() {
    let mut stream = encode_frame(b"ok", 4).unwrap();
    stream.extend_from_slice(&[0, 0, 0, 5, 1, 2, 3, 4, 5]);
    let mut decoder = FrameDecoder::new(4);
    decoder.feed(&stream);
    assert_eq!(decoder.drain(), (vec![b"ok".to_vec()], Err(FrameError::TooLong)));
    assert_eq!(decoder.drain(), (vec![], Err(FrameError::TooLong)));
    assert_eq!(decoder.next_frame(), Err(FrameError::TooLong));
    assert!(!decoder.at_boundary());
}

#[test]
fn drain_after_each_byte_collects_what_drain_at_once_collects() {
    let mut stream = Vec::new();
    for payload in [&b"a"[..], &b""[..], &b"gettime"[..], &[0u8, 0, 0, 1][..]] {
        stream.extend_from_slice(&framed(payload));
    }
    stream.extend_from_slice(&[0, 0]);

    let mut whole = FrameDecoder::new(DEFAULT_MAX_FRAME_LEN);
    whole.feed(&stream);
    let (at_once, verdict) = whole.drain();
    assert_eq!(verdict, Ok(()));
    assert_eq!(at_once.len(), 4);

    let mut slow = FrameDecoder::new(DEFAULT_MAX_FRAME_LEN);
    let mut trickled = Vec::new();
    for byte in &stream {
        slow.feed(&[*byte]);
        let (mut frames, verdict) = slow.drain();
        assert_eq!(verdict, Ok(()));
        trickled.append(&mut frames);
    }
    assert_eq!(trickled, at_once);
    assert_eq!(slow.end_of_stream(), Err(FrameError::Truncated));
    assert_eq!(whole.end_of_stream(), Err(FrameError::Truncated));
}

/// A small generator of repeatable numbers.
fn next_number(state: &mut u64) -> u64 {
    *state = state.wrapping_mul(6364136223846793005).wrapping_add(1442695040888963407);
    *state >> 33
}

#[test]
fn chunked_decoding_agrees_with_the_length_delimited_codec() {
    let mut seed: u64 = 0x5eed;
    for _ in 0..50 {
        let mut payloads: Vec<Vec<u8>> = Vec::new();
        let mut stream: Vec<u8> = Vec::new();
        for _ in 0..(next_number(&mut seed) % 6) {
            let len = (next_number(&mut seed) % 33) as usize;
            let payload: Vec<u8> = (0..len).map(|_| next_number(&mut seed) as u8).collect();
            stream.extend_from_slice(&encode_frame(&payload, 32).unwrap());
            payloads.push(payload);
        }

        let mut ours = FrameDecoder::new(32);
        let mut codec = LengthDelimitedCodec::builder().max_frame_length(32).new_codec();
        let mut theirs_buf = BytesMut::new();
        let mut ours_frames: Vec<Vec<u8>> = Vec::new();
        let mut theirs_frames: Vec<Vec<u8>> = Vec::new();
        let mut at = 0;
        while at < stream.len() {
            let step = 1 + (next_number(&mut seed) % 9) as usize;
            let end = usize::min(stream.len(), at + step);
            ours.feed(&stream[at..end]);
            theirs_buf.extend_from_slice(&stream[at..end]);
            at = end;
            let (mut frames, verdict) = ours.drain();
            assert_eq!(verdict, Ok(()));
            ours_frames.append(&mut frames);
            while let Some(frame) = codec.decode(&mut theirs_buf).unwrap() {
                theirs_frames.push(frame.to_vec());
            }
        }
        assert_eq!(ours_frames, payloads);
        assert_eq!(ours_frames, theirs_frames);
        assert!(ours.at_boundary());
    }
}

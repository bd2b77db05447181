use bytes::Bytes;
use h3_frame::buf::BufList;
use h3_frame::error::{Code, InternalConnectionError};
use h3_frame::frame::{FrameDecoder, FrameProtocolError, FrameStreamError};
use h3_frame::proto::frame::{
    Frame, FrameError, FrameType, PayloadLen, PushPromise, SessionId,
};
use h3_frame::proto::push::{InvalidPushId, PushId};
use h3_frame::proto::settings::{SettingId, Settings, SettingsError};
use h3_frame::quic::InvalidStreamId;
use h3_frame::varint::VarInt;

/// A type that is kept free of any meaning.
const RESERVED: u64 = 0x1f * 1337 + 0x21;

fn number(x: u64) -> VarInt {
    VarInt::from_u64(x).unwrap()
}

fn largest() -> VarInt {
    number(VarInt::MAX)
}

fn list(buf: Vec<u8>) -> BufList {
    BufList::from(Bytes::from(buf))
}

fn limited(max: usize) -> FrameDecoder {
    FrameDecoder {
        max_non_data_frame_size: max,
        ..FrameDecoder::default()
    }
}

fn header(ty: u64, len: u64) -> Vec<u8> {
    let mut out = Vec::new();
    FrameType(ty).encode(&mut out);
    number(len).encode(&mut out);
    out
}

fn frame(ty: u64, payload: &[u8]) -> Vec<u8> {
    let mut out = header(ty, payload.len() as u64);
    out.extend_from_slice(payload);
    out
}

fn wire(frame: Frame<Bytes>) -> Vec<u8> {
    let mut out = Vec::new();
    frame.encode_with_payload(&mut out);
    out
}

#[test]
fn one_frame() {
    let mut buf = Vec::with_capacity(16);
    Frame::headers(Bytes::from(&b"salut"[..])).encode_with_payload(&mut buf);
    let mut buf = list(buf);

    let mut decoder = FrameDecoder::default();
    assert!(matches!(
        decoder.decode(&mut buf),
        Ok(Some(Frame::Headers(_)))
    ));
}

#[test]
fn incomplete_frame() {
    let frame = Frame::headers(Bytes::from(&b"salut"[..]));

    let mut buf = Vec::with_capacity(16);
    frame.encode(&mut buf);
    buf.truncate(buf.len() - 1);
    let mut buf = list(buf);

    let mut decoder = FrameDecoder::default();
    assert!(matches!(decoder.decode(&mut buf), Ok(None)));
}

#[test]
fn header_spread_multiple_buf() {
    let mut buf = Vec::with_capacity(16);
    Frame::headers(Bytes::from(&b"salut"[..])).encode_with_payload(&mut buf);
    let mut buf_list = BufList::new();
    // Cut buffer between type and length
    buf_list.push(Bytes::copy_from_slice(&buf[..1]));
    buf_list.push(Bytes::copy_from_slice(&buf[1..]));

    let mut decoder = FrameDecoder::default();
    assert!(matches!(
        decoder.decode(&mut buf_list),
        Ok(Some(Frame::Headers(_)))
    ));
}

#[test]
fn varint_spread_multiple_buf() {
    let mut buf = Vec::with_capacity(16);
    Frame::headers(Bytes::from("salut".repeat(1024))).encode_with_payload(&mut buf);

    let mut buf_list = BufList::new();
    // Cut buffer in the middle of length's varint
    buf_list.push(Bytes::copy_from_slice(&buf[..2]));
    buf_list.push(Bytes::copy_from_slice(&buf[2..]));

    let mut decoder = FrameDecoder::default();
    assert!(matches!(
        decoder.decode(&mut buf_list),
        Ok(Some(Frame::Headers(_)))
    ));
}

#[test]
fn two_frames_then_incomplete() {
    let mut buf = Vec::with_capacity(64);
    Frame::headers(Bytes::from(&b"header"[..])).encode_with_payload(&mut buf);
    Frame::Data(Bytes::from(&b"body"[..])).encode_with_payload(&mut buf);
    Frame::headers(Bytes::from(&b"trailer"[..])).encode_with_payload(&mut buf);

    buf.truncate(buf.len() - 1);
    let mut buf = list(buf);

    let mut decoder = FrameDecoder::default();
    assert!(matches!(
        decoder.decode(&mut buf),
        Ok(Some(Frame::Headers(_)))
    ));
    assert!(matches!(
        decoder.decode(&mut buf),
        Ok(Some(Frame::Data(PayloadLen(4))))
    ));
    assert!(matches!(decoder.decode(&mut buf), Ok(None)));
}

#[test]
fn non_data_frame_lengths_are_checked_before_payload_arrives() {
    for ty in [
        FrameType::HEADERS,
        FrameType::SETTINGS,
        FrameType::PUSH_PROMISE,
        FrameType::GOAWAY,
        FrameType::CANCEL_PUSH,
        FrameType::MAX_PUSH_ID,
        RESERVED,
    ] {
        let mut header = Vec::new();
        FrameType(ty).encode(&mut header);
        largest().encode(&mut header);
        let mut buf = list(header);
        let mut decoder = FrameDecoder::default();
        assert!(matches!(
            decoder.decode(&mut buf),
            Err(FrameStreamError::Proto(FrameProtocolError::TooLarge { .. }))
        ));
    }
}

#[test]
fn split_type_and_length_varints_are_bounded_as_soon_as_complete() {
    let mut header = Vec::new();
    FrameType(RESERVED).encode(&mut header);
    largest().encode(&mut header);
    let mut buf = BufList::new();
    let mut decoder = FrameDecoder::default();
    for byte in &header[..header.len() - 1] {
        buf.push(Bytes::copy_from_slice(&[*byte]));
        assert!(matches!(decoder.decode(&mut buf), Ok(None)));
    }
    buf.push(Bytes::copy_from_slice(&header[header.len() - 1..]));
    assert!(matches!(
        decoder.decode(&mut buf),
        Err(FrameStreamError::Proto(FrameProtocolError::TooLarge { .. }))
    ));
    assert_eq!(buf.remaining(), header.len());
}

#[test]
fn data_and_webtransport_prefixes_are_exempt_from_buffered_frame_limit() {
    let mut data = Vec::new();
    FrameType(FrameType::DATA).encode(&mut data);
    VarInt::from_u32(1024 * 1024).encode(&mut data);
    let mut decoder = FrameDecoder {
        max_non_data_frame_size: 0,
        ..FrameDecoder::default()
    };
    assert!(matches!(
        decoder.decode(&mut list(data)),
        Ok(Some(Frame::Data(PayloadLen(1_048_576))))
    ));

    let mut webtransport = Vec::new();
    FrameType(FrameType::WEBTRANSPORT_BI_STREAM).encode(&mut webtransport);
    VarInt::from_u32(1024 * 1024).encode(&mut webtransport);
    assert!(matches!(
        decoder.decode(&mut list(webtransport)),
        Ok(Some(Frame::WebTransportStream(_)))
    ));
}

#[test]
fn frame_size_failure_uses_excessive_load_connection_error() {
    let error = InternalConnectionError::got_frame_error(FrameProtocolError::TooLarge {
        length: 128 * 1024,
        max: 64 * 1024,
    });
    assert_eq!(error.code, Code::H3_EXCESSIVE_LOAD);
}

#[test]
fn default_decoder() {
    let decoder = FrameDecoder::default();
    assert_eq!(decoder.expected, None);
    assert_eq!(decoder.max_non_data_frame_size, 64 * 1024);
}

#[test]
fn every_frame_is_decoded_as_it_was_written() {
    let frames: Vec<(Frame<Bytes>, Frame<PayloadLen>)> = vec![
        (
            Frame::headers(Bytes::from("section")),
            Frame::Headers(Bytes::from("section")),
        ),
        (
            Frame::CancelPush(PushId(number(63))),
            Frame::CancelPush(PushId(number(63))),
        ),
        (
            Frame::Settings(Settings {
                entries: vec![
                    (number(SettingId::MAX_HEADER_LIST_SIZE), number(0xfad1)),
                    (number(SettingId::QPACK_MAX_TABLE_CAPACITY), number(0xfad2)),
                ],
            }),
            Frame::Settings(Settings {
                entries: vec![
                    (number(SettingId::MAX_HEADER_LIST_SIZE), number(0xfad1)),
                    (number(SettingId::QPACK_MAX_TABLE_CAPACITY), number(0xfad2)),
                ],
            }),
        ),
        (
            Frame::PushPromise(PushPromise {
                id: PushId(number(134)),
                encoded: Bytes::from("promised"),
            }),
            Frame::PushPromise(PushPromise {
                id: PushId(number(134)),
                encoded: Bytes::from("promised"),
            }),
        ),
        (Frame::Goaway(number(2)), Frame::Goaway(number(2))),
        (
            Frame::MaxPushId(PushId(largest())),
            Frame::MaxPushId(PushId(largest())),
        ),
        (
            Frame::WebTransportStream(SessionId(number(4))),
            Frame::WebTransportStream(SessionId(number(4))),
        ),
        (
            Frame::Data(Bytes::from("body")),
            Frame::Data(PayloadLen(4)),
        ),
    ];
    for (written, expected) in frames {
        let after = match &written {
            Frame::Data(body) => body.len(),
            _ => 0,
        };
        let mut bytes = wire(written);
        bytes.extend_from_slice(b"rest");
        let mut buf = list(bytes);
        let got = FrameDecoder::default().decode(&mut buf).unwrap().unwrap();
        assert_eq!(got, expected);
        assert_eq!(buf.remaining(), after + 4);
    }
}

#[test]
fn encoded_bytes() {
    assert_eq!(wire(Frame::headers(Bytes::from("ab"))), b"\x01\x02ab");
    assert_eq!(wire(Frame::Data(Bytes::from("abc"))), b"\x00\x03abc");
    assert_eq!(wire(Frame::Goaway(number(64))), b"\x07\x02\x40\x40");
    assert_eq!(
        wire(Frame::WebTransportStream(SessionId(number(1)))),
        b"\x40\x41\x01"
    );
    assert_eq!(
        wire(Frame::PushPromise(PushPromise {
            id: PushId(number(5)),
            encoded: Bytes::from("x"),
        })),
        b"\x05\x02\x05x"
    );
    let mut out = b"before".to_vec();
    Frame::headers(Bytes::from("ab")).encode(&mut out);
    assert_eq!(out, b"before\x01\x02");
}

#[test]
fn nothing_buffered() {
    let mut buf = BufList::new();
    let mut decoder = FrameDecoder::default();
    assert!(matches!(decoder.decode(&mut buf), Ok(None)));
    assert_eq!(decoder.expected, None);
}

#[test]
fn awaited_bytes() {
    let mut decoder = FrameDecoder::default();
    let mut buf = list(vec![0x01]);
    assert!(matches!(decoder.decode(&mut buf), Ok(None)));
    assert_eq!(decoder.expected, Some(2));
    buf.push(Bytes::from(vec![0x05]));
    assert!(matches!(decoder.decode(&mut buf), Ok(None)));
    assert_eq!(decoder.expected, Some(7));
    buf.push(Bytes::from("salu"));
    assert!(matches!(decoder.decode(&mut buf), Ok(None)));
    assert_eq!(decoder.expected, Some(7));
    assert_eq!(buf.remaining(), 6);
    buf.push(Bytes::from("t!"));
    assert_eq!(
        decoder.decode(&mut buf).unwrap(),
        Some(Frame::Headers(Bytes::from("salut")))
    );
    assert_eq!(decoder.expected, None);
    assert_eq!(buf.remaining(), 1);
}

#[test]
fn chunks_do_not_matter() {
    let mut bytes = frame(RESERVED, b"grease");
    bytes.extend(wire(Frame::headers(Bytes::from("section"))));
    bytes.extend_from_slice(b"rest");
    for cut in 0..bytes.len() {
        for later in cut..bytes.len() {
            let mut buf = BufList::new();
            let mut decoder = FrameDecoder::default();
            let mut got = None;
            for part in [&bytes[..cut], &bytes[cut..later], &bytes[later..]] {
                buf.push(Bytes::copy_from_slice(part));
                if got.is_none() {
                    got = decoder.decode(&mut buf).unwrap();
                }
            }
            assert_eq!(got, Some(Frame::Headers(Bytes::from("section"))));
            assert_eq!(buf.remaining(), 4);
        }
    }
}

#[test]
fn unknown_frames_are_passed_over() {
    for ty in [RESERVED, 0x21, 0xa, 0xb, 0xc, 0xe, 0x40] {
        let mut bytes = frame(ty, b"");
        bytes.extend(frame(ty, b"grease"));
        let mut alone = list(bytes.clone());
        let mut decoder = FrameDecoder::default();
        assert!(matches!(decoder.decode(&mut alone), Ok(None)));
        assert_eq!(alone.remaining(), 0);
        assert_eq!(decoder.expected, None);

        bytes.extend(wire(Frame::Goaway(number(7))));
        let mut buf = list(bytes);
        assert_eq!(
            FrameDecoder::default().decode(&mut buf).unwrap(),
            Some(Frame::Goaway(number(7)))
        );
        assert_eq!(buf.remaining(), 0);
    }
}

#[test]
fn unknown_frames_are_limited_too() {
    let mut buf = list(frame(RESERVED, b"grease"));
    assert!(matches!(
        limited(5).decode(&mut buf),
        Err(FrameStreamError::Proto(FrameProtocolError::TooLarge {
            length: 6,
            max: 5
        }))
    ));
    assert_eq!(buf.remaining(), 11);
    assert!(matches!(limited(6).decode(&mut buf), Ok(None)));
    assert_eq!(buf.remaining(), 0);
}

#[test]
fn http2_frames_are_refused() {
    for ty in [
        FrameType::H2_PRIORITY,
        FrameType::H2_PING,
        FrameType::H2_WINDOW_UPDATE,
        FrameType::H2_CONTINUATION,
    ] {
        let mut buf = list(frame(ty, b"x"));
        let mut decoder = FrameDecoder::default();
        for _ in 0..2 {
            match decoder.decode(&mut buf) {
                Err(FrameStreamError::Proto(FrameProtocolError::ForbiddenFrame(refused))) => {
                    assert_eq!(refused, ty)
                }
                other => panic!("{:?}", other),
            }
            assert_eq!(buf.remaining(), 3);
        }
    }
}

#[test]
fn payloads_of_one_number() {
    for ty in [
        FrameType::CANCEL_PUSH,
        FrameType::GOAWAY,
        FrameType::MAX_PUSH_ID,
    ] {
        for payload in [&b""[..], &b"\x40"[..], &b"\x05\x06"[..]] {
            let mut buf = list(frame(ty, payload));
            assert!(matches!(
                FrameDecoder::default().decode(&mut buf),
                Err(FrameStreamError::Proto(FrameProtocolError::Malformed))
            ));
        }
    }
    let mut buf = list(frame(FrameType::PUSH_PROMISE, b"\x80"));
    assert!(matches!(
        FrameDecoder::default().decode(&mut buf),
        Err(FrameStreamError::Proto(FrameProtocolError::Malformed))
    ));
}

#[test]
fn refused_settings() {
    let cases: Vec<(&[u8], SettingsError)> = vec![
        (b"\x06", SettingsError::Malformed),
        (b"\x06\x01\x06\x02", SettingsError::Repeated(SettingId(6))),
        (b"\x02\x00", SettingsError::InvalidSettingId(2)),
    ];
    for (payload, expected) in cases {
        let mut buf = list(frame(FrameType::SETTINGS, payload));
        match FrameDecoder::default().decode(&mut buf) {
            Err(FrameStreamError::Proto(FrameProtocolError::Settings(e))) => {
                assert_eq!(e, expected)
            }
            other => panic!("{:?}", other),
        }
    }
}

#[test]
fn a_frame_that_fits_the_limit_is_awaited() {
    let mut buf = list(header(FrameType::HEADERS, 5));
    assert!(matches!(limited(5).decode(&mut buf), Ok(None)));
    assert!(matches!(
        limited(4).decode(&mut buf),
        Err(FrameStreamError::Proto(FrameProtocolError::TooLarge {
            length: 5,
            max: 4
        }))
    ));
}

#[test]
fn errors_of_frames() {
    let cases = vec![
        (FrameError::Malformed, Some(FrameProtocolError::Malformed)),
        (
            FrameError::UnsupportedFrame(2),
            Some(FrameProtocolError::ForbiddenFrame(2)),
        ),
        (FrameError::UnknownFrame(0x21), None),
        (
            FrameError::InvalidFrameValue,
            Some(FrameProtocolError::InvalidFrameValue),
        ),
        (FrameError::Incomplete(3), None),
        (
            FrameError::TooLarge { length: 3, max: 2 },
            Some(FrameProtocolError::TooLarge { length: 3, max: 2 }),
        ),
        (
            FrameError::Settings(SettingsError::Malformed),
            Some(FrameProtocolError::Settings(SettingsError::Malformed)),
        ),
        (
            FrameError::InvalidStreamId(InvalidStreamId(9)),
            Some(FrameProtocolError::InvalidStreamId(InvalidStreamId(9))),
        ),
        (
            FrameError::InvalidPushId(InvalidPushId(8)),
            Some(FrameProtocolError::InvalidPushId(InvalidPushId(8))),
        ),
    ];
    for (error, expected) in cases {
        assert_eq!(FrameDecoder::refused(error), expected);
    }
}

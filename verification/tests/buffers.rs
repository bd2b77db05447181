use bytes::Bytes;
use h3_frame::buf::BufList;
use h3_frame::error::{Code, InternalConnectionError};
use h3_frame::frame::FrameProtocolError;
use h3_frame::proto::frame::{Frame, FrameError};
use h3_frame::proto::push::InvalidPushId;
use h3_frame::proto::settings::{SettingId, Settings, SettingsError};
use h3_frame::quic::InvalidStreamId;
use h3_frame::varint::{VarInt, VarIntBoundsExceeded};

fn number(x: u64) -> VarInt {
    VarInt::from_u64(x).unwrap()
}

fn encoded(x: u64) -> Vec<u8> {
    let mut out = Vec::new();
    number(x).encode(&mut out);
    out
}

fn three_chunks() -> BufList {
    let mut list = BufList::new();
    list.push(Bytes::from("ab"));
    list.push(Bytes::from("cde"));
    list.push(Bytes::from("f"));
    list
}

fn drain(list: &mut BufList) -> Vec<Bytes> {
    let mut out = Vec::new();
    while let Some(chunk) = list.take_chunk(usize::MAX) {
        out.push(chunk);
    }
    out
}

#[test]
fn integers_on_the_wire() {
    assert_eq!(encoded(0), [0]);
    assert_eq!(encoded(37), [0x25]);
    assert_eq!(encoded(63), [0x3f]);
    assert_eq!(encoded(64), [0x40, 0x40]);
    assert_eq!(encoded(15293), [0x7b, 0xbd]);
    assert_eq!(encoded(16383), [0x7f, 0xff]);
    assert_eq!(encoded(16384), [0x80, 0, 0x40, 0]);
    assert_eq!(encoded(494878333), [0x9d, 0x7f, 0x3e, 0x7d]);
    assert_eq!(encoded(0x3fff_ffff), [0xbf, 0xff, 0xff, 0xff]);
    assert_eq!(encoded(0x4000_0000), [0xc0, 0, 0, 0, 0x40, 0, 0, 0]);
    assert_eq!(
        encoded(151288809941952652),
        [0xc2, 0x19, 0x7c, 0x5e, 0xff, 0x14, 0xe8, 0x8c]
    );
    assert_eq!(encoded(VarInt::MAX), [0xff; 8]);
}

#[test]
fn integers_read_back() {
    for x in [
        0,
        63,
        64,
        15293,
        16383,
        16384,
        494878333,
        0x3fff_ffff,
        0x4000_0000,
        151288809941952652,
        VarInt::MAX,
    ] {
        let mut bytes = encoded(x);
        let len = bytes.len();
        for cut in 1..len {
            let list = BufList::from(Bytes::copy_from_slice(&bytes[..cut]));
            let mut cursor = list.cursor();
            assert_eq!(cursor.get_var(), None);
            assert_eq!(cursor.position(), 0);
        }
        bytes.push(7);
        let mut list = BufList::new();
        for byte in &bytes {
            list.push(Bytes::copy_from_slice(&[*byte]));
        }
        let mut cursor = list.cursor();
        assert_eq!(cursor.get_var().map(|v| v.into_inner()), Some(x));
        assert_eq!(cursor.position(), len);
        assert_eq!(cursor.remaining(), 1);
        assert_eq!(list.remaining(), len + 1);
    }
}

#[test]
fn longer_encodings_are_read_too() {
    let list = BufList::from(Bytes::from(vec![0x40, 0x25]));
    assert_eq!(list.cursor().get_var(), Some(number(37)));
}

#[test]
fn too_large_for_an_integer() {
    assert_eq!(VarInt::from_u64(VarInt::MAX + 1), Err(VarIntBoundsExceeded));
    assert_eq!(VarInt::from_u64(u64::MAX), Err(VarIntBoundsExceeded));
    assert_eq!(VarInt::from_u64(7), Ok(VarInt::from_u32(7)));
}

#[test]
fn empty_chunks_add_nothing() {
    let mut list = BufList::from(Bytes::new());
    assert!(!list.has_remaining());
    list.push(Bytes::new());
    list.push_bytes(&mut Bytes::new());
    assert!(!list.has_remaining());
    assert_eq!(list.remaining(), 0);
    assert_eq!(list.take_chunk(3), None);
}

#[test]
fn pushed_bytes_are_taken_over() {
    let mut list = BufList::new();
    let mut buf = Bytes::from("abc");
    list.push_bytes(&mut buf);
    assert!(buf.is_empty());
    assert_eq!(list.remaining(), 3);
    assert_eq!(list.take_chunk(9), Some(Bytes::from("abc")));
}

#[test]
fn taking_chunks() {
    let mut list = three_chunks();
    assert_eq!(list.take_chunk(1), Some(Bytes::from("a")));
    assert_eq!(list.remaining(), 5);
    assert_eq!(list.take_chunk(3), Some(Bytes::from("b")));
    assert_eq!(list.take_chunk(3), Some(Bytes::from("cde")));
    assert_eq!(list.take_chunk(0), Some(Bytes::new()));
    assert_eq!(list.take_chunk(3), Some(Bytes::from("f")));
    assert_eq!(list.take_chunk(3), None);
}

#[test]
fn dropping_bytes() {
    let cases: Vec<(usize, Vec<&str>)> = vec![
        (0, vec!["ab", "cde", "f"]),
        (1, vec!["b", "cde", "f"]),
        (2, vec!["cde", "f"]),
        (4, vec!["e", "f"]),
        (5, vec!["f"]),
        (6, vec![]),
    ];
    for (count, expected) in cases {
        let mut list = three_chunks();
        list.advance(count);
        assert_eq!(list.remaining(), 6 - count);
        assert_eq!(list.has_remaining(), count < 6);
        assert_eq!(drain(&mut list), expected);
    }
}

#[test]
fn cursors() {
    let list = three_chunks();
    let mut cursor = list.cursor();
    assert_eq!(cursor.get_u8(), b'a');
    assert_eq!(cursor.position(), 1);
    let mut part = cursor.take(3);
    assert_eq!(part.remaining(), 3);
    assert_eq!(part.copy_to_bytes(3), Bytes::from("bcd"));
    assert_eq!(part.remaining(), 0);
    assert_eq!(part.get_var(), None);
    assert_eq!(cursor.position(), 1);
    cursor.advance(1);
    assert_eq!(cursor.get_u8(), b'c');
    cursor.advance(2);
    assert_eq!(cursor.copy_to_bytes(1), Bytes::from("f"));
    assert_eq!(cursor.remaining(), 0);
    assert_eq!(cursor.position(), 6);
    assert_eq!(list.remaining(), 6);
}

#[test]
fn frames_at_a_cursor() {
    let list = BufList::from(Bytes::from(&b"\x21\x02xx\x07\x01\x03"[..]));
    let mut cursor = list.cursor();
    assert_eq!(
        Frame::decode_with_limit(&mut cursor, 9),
        Err(FrameError::UnknownFrame(0x21))
    );
    assert_eq!(cursor.position(), 4);
    assert_eq!(
        Frame::decode_with_limit(&mut cursor, 9),
        Ok(Frame::Goaway(number(3)))
    );
    assert_eq!(cursor.position(), 7);
    assert_eq!(
        Frame::decode_with_limit(&mut cursor, 9),
        Err(FrameError::Incomplete(1))
    );
}

#[test]
fn the_largest_length_that_is_awaited() {
    let mut bytes = vec![0x01];
    bytes.extend(encoded(VarInt::MAX));
    let list = BufList::from(Bytes::from(bytes));
    assert_eq!(
        Frame::decode_with_limit(&mut list.cursor(), usize::MAX),
        Err(FrameError::Incomplete(VarInt::MAX as usize + 2))
    );
}

#[test]
fn settings_on_the_wire() {
    let settings = Settings {
        entries: vec![
            (number(SettingId::MAX_HEADER_LIST_SIZE), number(0xfad1)),
            (number(SettingId::H3_DATAGRAM), number(1)),
        ],
    };
    let mut out = Vec::new();
    settings.encode(&mut out);
    assert_eq!(out, [0x06, 0x80, 0, 0xfa, 0xd1, 0x33, 0x01]);
    let list = BufList::from(Bytes::from(out));
    let decoded = Settings::decode(&mut list.cursor()).unwrap();
    assert_eq!(decoded, settings);
    assert_eq!(
        decoded.get(SettingId(SettingId::H3_DATAGRAM)),
        Some(number(1))
    );
    assert_eq!(
        decoded.get(SettingId(SettingId::ENABLE_CONNECT_PROTOCOL)),
        None
    );
}

#[test]
fn settings_that_are_passed_over_or_refused() {
    // An unknown setting, twice.
    let list = BufList::from(Bytes::from(&b"\x21\x01\x21\x02\x08\x01"[..]));
    assert_eq!(
        Settings::decode(&mut list.cursor()).unwrap().entries,
        vec![(number(SettingId::ENABLE_CONNECT_PROTOCOL), number(1))]
    );
    for id in [0, 2, 3, 4, 5] {
        assert!(SettingId(id).is_forbidden());
        let list = BufList::from(Bytes::from(vec![id as u8, 1]));
        assert_eq!(
            Settings::decode(&mut list.cursor()),
            Err(SettingsError::InvalidSettingId(id))
        );
    }
    for id in [1, 6, 7, 8, 0x33, 0x2b603742, 0x2b603743] {
        assert!(SettingId(id).is_supported());
        assert!(!SettingId(id).is_forbidden());
        let mut bytes = encoded(id);
        bytes.push(1);
        let again = bytes.clone();
        bytes.extend(again);
        let list = BufList::from(Bytes::from(bytes));
        assert_eq!(
            Settings::decode(&mut list.cursor()),
            Err(SettingsError::Repeated(SettingId(id)))
        );
    }
    assert!(!SettingId(0x21).is_supported());
}

#[test]
fn the_first_entry_of_a_setting_counts() {
    let settings = Settings {
        entries: vec![
            (number(1), number(4)),
            (number(7), number(5)),
            (number(7), number(6)),
        ],
    };
    assert_eq!(settings.get(SettingId(7)), Some(number(5)));
    assert_eq!(settings.get(SettingId(6)), None);
}

#[test]
fn codes_for_refused_frames() {
    let cases = vec![
        (
            FrameProtocolError::TooLarge { length: 2, max: 1 },
            Code::H3_EXCESSIVE_LOAD,
            0x107,
        ),
        (FrameProtocolError::Malformed, Code::H3_FRAME_ERROR, 0x106),
        (
            FrameProtocolError::InvalidFrameValue,
            Code::H3_FRAME_ERROR,
            0x106,
        ),
        (
            FrameProtocolError::ForbiddenFrame(2),
            Code::H3_FRAME_UNEXPECTED,
            0x105,
        ),
        (
            FrameProtocolError::Settings(SettingsError::Malformed),
            Code::H3_SETTINGS_ERROR,
            0x109,
        ),
        (
            FrameProtocolError::InvalidStreamId(InvalidStreamId(1)),
            Code::H3_ID_ERROR,
            0x108,
        ),
        (
            FrameProtocolError::InvalidPushId(InvalidPushId(1)),
            Code::H3_ID_ERROR,
            0x108,
        ),
    ];
    for (error, code, value) in cases {
        let closed = InternalConnectionError::got_frame_error(error);
        assert_eq!(closed.code, code);
        assert_eq!(closed.code.value(), value);
    }
}

//! Frames: a type, the length of the payload, the payload.
use crate::buf::Cursor;
use crate::chunk;
use crate::proto::push::{InvalidPushId, PushId};
use crate::proto::settings;
use crate::proto::settings::{Settings, SettingsError};
use crate::quic::InvalidStreamId;
use crate::varint;
use crate::varint::VarInt;
use bytes::Bytes;
use vstd::prelude::*;

verus! {

/// The type of a frame.
#[derive(Clone, Copy, Debug, PartialEq, Eq, Structural)]
pub struct FrameType(pub u64);

impl FrameType {
    pub const DATA: u64 = 0x0;

    pub const HEADERS: u64 = 0x1;

    pub const H2_PRIORITY: u64 = 0x2;

    pub const CANCEL_PUSH: u64 = 0x3;

    pub const SETTINGS: u64 = 0x4;

    pub const PUSH_PROMISE: u64 = 0x5;

    pub const H2_PING: u64 = 0x6;

    pub const GOAWAY: u64 = 0x7;

    pub const H2_WINDOW_UPDATE: u64 = 0x8;

    pub const H2_CONTINUATION: u64 = 0x9;

    pub const MAX_PUSH_ID: u64 = 0xd;

    pub const WEBTRANSPORT_BI_STREAM: u64 = 0x41;

    /// Is this the type of a payload that is handed on as it arrives?
    pub open spec fn streamed(self) -> bool {
        self.0 == Self::DATA || self.0 == Self::WEBTRANSPORT_BI_STREAM
    }

    /// Is this a type of HTTP/2 that must not be sent?
    pub open spec fn forbidden(self) -> bool {
        ||| self.0 == Self::H2_PRIORITY
        ||| self.0 == Self::H2_PING
        ||| self.0 == Self::H2_WINDOW_UPDATE
        ||| self.0 == Self::H2_CONTINUATION
    }

    /// Is this a type that has no meaning here?
    pub open spec fn unknown(self) -> bool {
        &&& !self.streamed()
        &&& !self.forbidden()
        &&& self.0 != Self::HEADERS
        &&& self.0 != Self::CANCEL_PUSH
        &&& self.0 != Self::SETTINGS
        &&& self.0 != Self::PUSH_PROMISE
        &&& self.0 != Self::GOAWAY
        &&& self.0 != Self::MAX_PUSH_ID
    }
}

/// The identifier of a WebTransport session.
#[derive(Clone, Copy, Debug, PartialEq, Eq, Structural)]
pub struct SessionId(pub VarInt);

/// The length of the payload of a DATA frame, which is not decoded with it.
#[derive(Clone, Copy, Debug, PartialEq, Eq, Structural)]
pub struct PayloadLen(pub usize);

/// The announcement of a push.
#[derive(Debug, PartialEq, Eq)]
pub struct PushPromise {
    pub id: PushId,
    /// The encoded field section of the promised request.
    pub encoded: Bytes,
}

/// A frame. `B` is what stands for the payload of a DATA frame.
#[derive(Debug, PartialEq, Eq)]
pub enum Frame<B> {
    Data(B),
    Headers(Bytes),
    CancelPush(PushId),
    Settings(Settings),
    PushPromise(PushPromise),
    Goaway(VarInt),
    MaxPushId(PushId),
    /// The start of a WebTransport stream, whose payload has no length and goes
    /// on to the end of the stream.
    WebTransportStream(SessionId),
}

/// Why a frame cannot be had from the bytes at hand.
#[derive(Clone, Copy, Debug, PartialEq, Eq, Structural)]
pub enum FrameError {
    /// The payload does not hold just the fields that its type asks for.
    Malformed,
    /// A frame of HTTP/2 that must not be sent.
    UnsupportedFrame(u64),
    /// A frame to be passed over.
    UnknownFrame(u64),
    InvalidFrameValue,
    /// At least so many bytes have to be there.
    Incomplete(usize),
    /// A payload that is longer than may be buffered.
    TooLarge { length: u64, max: usize },
    Settings(SettingsError),
    InvalidStreamId(InvalidStreamId),
    InvalidPushId(InvalidPushId),
}

/// What a frame says, as plain values.
pub enum FrameView {
    Data(usize),
    Headers(Seq<u8>),
    CancelPush(u64),
    Settings(Seq<(u64, u64)>),
    PushPromise(u64, Seq<u8>),
    Goaway(u64),
    MaxPushId(u64),
    WebTransportStream(u64),
}

/// The fields of a frame that go before its payload: its type, the number that
/// comes second, and the bytes that both take. The number is the length of the
/// payload, or the session of a WebTransport stream.
pub open spec fn frame_header(s: Seq<u8>) -> Option<(u64, u64, nat)> {
    varint::decoded_pair(s)
}

/// The number of bytes that the frame at the front of `s` takes of it. Of a
/// frame whose payload is handed on as it arrives that is the header.
pub open spec fn frame_len(s: Seq<u8>) -> nat {
    match frame_header(s) {
        None => 0,
        Some((ty, len, n)) => if FrameType(ty).streamed() {
            n
        } else {
            n + len as nat
        },
    }
}

/// A number of bytes that a frame with a payload of `len` bytes has at least.
pub open spec fn least_size(len: usize) -> usize {
    if len + 2 <= usize::MAX {
        (len + 2) as usize
    } else {
        usize::MAX
    }
}

/// The frame at the front of `s`, where a payload that has to be buffered may
/// have `max` bytes.
pub open spec fn frame_result(s: Seq<u8>, max: usize) -> Result<FrameView, FrameError> {
    match frame_header(s) {
        None => Err(FrameError::Incomplete((s.len() + 1) as usize)),
        Some((ty, len, n)) => if ty == FrameType::WEBTRANSPORT_BI_STREAM {
            Ok(FrameView::WebTransportStream(len))
        } else if ty == FrameType::DATA {
            Ok(FrameView::Data(len as usize))
        } else if len > max {
            Err(FrameError::TooLarge { length: len, max })
        } else if s.len() < n + len {
            Err(FrameError::Incomplete(least_size(len as usize)))
        } else {
            payload_result(ty, s.subrange(n as int, n + len))
        },
    }
}

/// What a whole payload says in a frame of type `ty`.
pub open spec fn payload_result(ty: u64, payload: Seq<u8>) -> Result<FrameView, FrameError> {
    if ty == FrameType::HEADERS {
        Ok(FrameView::Headers(payload))
    } else if ty == FrameType::SETTINGS {
        match settings::settings_from(Seq::empty(), payload) {
            Ok(entries) => Ok(FrameView::Settings(entries)),
            Err(e) => Err(FrameError::Settings(e)),
        }
    } else if ty == FrameType::CANCEL_PUSH {
        match only_number(payload) {
            Some(id) => Ok(FrameView::CancelPush(id)),
            None => Err(FrameError::Malformed),
        }
    } else if ty == FrameType::PUSH_PROMISE {
        match varint::decoded(payload) {
            Some((id, n)) => Ok(FrameView::PushPromise(id, payload.skip(n as int))),
            None => Err(FrameError::Malformed),
        }
    } else if ty == FrameType::GOAWAY {
        match only_number(payload) {
            Some(id) => Ok(FrameView::Goaway(id)),
            None => Err(FrameError::Malformed),
        }
    } else if ty == FrameType::MAX_PUSH_ID {
        match only_number(payload) {
            Some(id) => Ok(FrameView::MaxPushId(id)),
            None => Err(FrameError::Malformed),
        }
    } else if FrameType(ty).forbidden() {
        Err(FrameError::UnsupportedFrame(ty))
    } else {
        Err(FrameError::UnknownFrame(ty))
    }
}

/// The number that `s` holds, if it holds one and nothing after it.
pub open spec fn only_number(s: Seq<u8>) -> Option<u64> {
    match varint::decoded(s) {
        Some((x, n)) => if n == s.len() {
            Some(x)
        } else {
            None
        },
        None => None,
    }
}

impl FrameType {
    /// Appends the encoded type to `out`.
    pub fn encode(&self, out: &mut Vec<u8>)
        requires
            self.0 <= VarInt::MAX,
        ensures
            final(out)@ == old(out)@ + varint::encoded(self.0),
    {
        encode_number(self.0, out);
    }
}

impl Frame<PayloadLen> {
    pub open spec fn view(&self) -> FrameView {
        match self {
            Frame::Data(len) => FrameView::Data(len.0),
            Frame::Headers(section) => FrameView::Headers(chunk::content(*section)),
            Frame::CancelPush(id) => FrameView::CancelPush(id.0@),
            Frame::Settings(settings) => FrameView::Settings(settings.view()),
            Frame::PushPromise(promise) => FrameView::PushPromise(
                promise.id.0@,
                chunk::content(promise.encoded),
            ),
            Frame::Goaway(id) => FrameView::Goaway(id@),
            Frame::MaxPushId(id) => FrameView::MaxPushId(id.0@),
            Frame::WebTransportStream(id) => FrameView::WebTransportStream(id.0@),
        }
    }

    /// Decodes the frame at the cursor. A payload that has to be buffered is
    /// refused as soon as its length is known to be above `max`; the payload of
    /// a DATA frame or of a WebTransport stream is not read. The cursor goes
    /// past a frame that is returned or unknown.
    pub fn decode_with_limit(cur: &mut Cursor<'_>, max: usize) -> (frame: Result<Self, FrameError>)
        requires
            old(cur).wf(),
        ensures
            final(cur).wf(),
            match frame {
                Ok(frame) => frame_result(old(cur).rest(), max) == Ok::<_, FrameError>(
                    frame.view(),
                ),
                Err(e) => frame_result(old(cur).rest(), max) == Err::<FrameView, _>(e),
            },
            (frame is Ok || (frame matches Err(FrameError::UnknownFrame(_)))) ==> {
                &&& frame_len(old(cur).rest()) <= old(cur).rest().len()
                &&& final(cur).pos() == old(cur).pos() + frame_len(old(cur).rest())
            },
    {
        let ghost s = cur.rest();
        let available: usize = cur.remaining();
        let ty: u64 = match cur.get_var() {
            Some(ty) => ty.into_inner(),
            None => {
                return Err(FrameError::Incomplete(available + 1));
            },
        };
        let second: VarInt = match cur.get_var() {
            Some(second) => second,
            None => {
                return Err(FrameError::Incomplete(available + 1));
            },
        };
        let len: u64 = second.into_inner();
        let ghost n = (frame_header(s)->0).2;
        proof {
            assert(cur.rest() =~= s.skip(n as int));
        }
        if ty == FrameType::WEBTRANSPORT_BI_STREAM {
            return Ok(Frame::WebTransportStream(SessionId(second)));
        }
        if ty == FrameType::DATA {
            return Ok(Frame::Data(PayloadLen(len as usize)));
        }
        if len > max as u64 {
            return Err(FrameError::TooLarge { length: len, max });
        }
        let len: usize = len as usize;
        if cur.remaining() < len {
            return Err(FrameError::Incomplete(len.saturating_add(2)));
        }
        let mut payload = cur.take(len);
        proof {
            assert(payload.rest() =~= s.subrange(n as int, n + len));
        }
        cur.advance(len);
        Self::decode_payload(ty, &mut payload)
    }

    /// Decodes a payload, which goes up to where the cursor ends.
    fn decode_payload(ty: u64, payload: &mut Cursor<'_>) -> (frame: Result<Self, FrameError>)
        requires
            old(payload).wf(),
            !FrameType(ty).streamed(),
        ensures
            match frame {
                Ok(frame) => payload_result(ty, old(payload).rest()) == Ok::<_, FrameError>(
                    frame.view(),
                ),
                Err(e) => payload_result(ty, old(payload).rest()) == Err::<FrameView, _>(e),
            },
    {
        let len: usize = payload.remaining();
        if ty == FrameType::HEADERS {
            let section = payload.copy_to_bytes(len);
            proof {
                assert(chunk::content(section) =~= old(payload).rest());
            }
            Ok(Frame::Headers(section))
        } else if ty == FrameType::SETTINGS {
            match Settings::decode(payload) {
                Ok(settings) => Ok(Frame::Settings(settings)),
                Err(e) => Err(FrameError::Settings(e)),
            }
        } else if ty == FrameType::CANCEL_PUSH {
            match Self::decode_only_number(payload) {
                Some(id) => Ok(Frame::CancelPush(PushId(id))),
                None => Err(FrameError::Malformed),
            }
        } else if ty == FrameType::PUSH_PROMISE {
            match payload.get_var() {
                Some(id) => {
                    let left: usize = payload.remaining();
                    let encoded = payload.copy_to_bytes(left);
                    proof {
                        let (x, n) = varint::decoded(old(payload).rest())->0;
                        assert(chunk::content(encoded) =~= old(payload).rest().skip(n as int));
                    }
                    Ok(Frame::PushPromise(PushPromise { id: PushId(id), encoded }))
                },
                None => Err(FrameError::Malformed),
            }
        } else if ty == FrameType::GOAWAY {
            match Self::decode_only_number(payload) {
                Some(id) => Ok(Frame::Goaway(id)),
                None => Err(FrameError::Malformed),
            }
        } else if ty == FrameType::MAX_PUSH_ID {
            match Self::decode_only_number(payload) {
                Some(id) => Ok(Frame::MaxPushId(PushId(id))),
                None => Err(FrameError::Malformed),
            }
        } else if ty == FrameType::H2_PRIORITY || ty == FrameType::H2_PING || ty
            == FrameType::H2_WINDOW_UPDATE || ty == FrameType::H2_CONTINUATION {
            Err(FrameError::UnsupportedFrame(ty))
        } else {
            Err(FrameError::UnknownFrame(ty))
        }
    }

    /// Reads a payload that is one number.
    fn decode_only_number(payload: &mut Cursor<'_>) -> (id: Option<VarInt>)
        requires
            old(payload).wf(),
        ensures
            match only_number(old(payload).rest()) {
                Some(x) => id is Some && id->0@ == x,
                None => id is None,
            },
    {
        match payload.get_var() {
            Some(id) => if payload.remaining() == 0 {
                Some(id)
            } else {
                None
            },
            None => None,
        }
    }
}

/// A frame of type `ty` with the payload `payload`.
pub open spec fn wire_frame(ty: u64, payload: Seq<u8>) -> Seq<u8> {
    varint::encoded(ty) + varint::encoded(payload.len() as u64) + payload
}

/// The payload of a frame that is not handed on as it arrives.
pub open spec fn wire_payload(frame: FrameView) -> Seq<u8> {
    match frame {
        FrameView::Data(_) => Seq::empty(),
        FrameView::Headers(section) => section,
        FrameView::CancelPush(id) => varint::encoded(id),
        FrameView::Settings(entries) => settings::wire_settings(entries),
        FrameView::PushPromise(id, section) => varint::encoded(id) + section,
        FrameView::Goaway(id) => varint::encoded(id),
        FrameView::MaxPushId(id) => varint::encoded(id),
        FrameView::WebTransportStream(_) => Seq::empty(),
    }
}

/// The type of a frame.
pub open spec fn frame_type(frame: FrameView) -> u64 {
    match frame {
        FrameView::Data(_) => FrameType::DATA,
        FrameView::Headers(_) => FrameType::HEADERS,
        FrameView::CancelPush(_) => FrameType::CANCEL_PUSH,
        FrameView::Settings(_) => FrameType::SETTINGS,
        FrameView::PushPromise(_, _) => FrameType::PUSH_PROMISE,
        FrameView::Goaway(_) => FrameType::GOAWAY,
        FrameView::MaxPushId(_) => FrameType::MAX_PUSH_ID,
        FrameView::WebTransportStream(_) => FrameType::WEBTRANSPORT_BI_STREAM,
    }
}

/// The bytes that stand for a frame. Of a frame whose payload is handed on as it
/// arrives those are the bytes before the payload.
pub open spec fn wire(frame: FrameView) -> Seq<u8> {
    match frame {
        FrameView::Data(len) => varint::encoded(FrameType::DATA) + varint::encoded(len as u64),
        FrameView::WebTransportStream(id) => varint::encoded(FrameType::WEBTRANSPORT_BI_STREAM)
            + varint::encoded(id),
        _ => wire_frame(frame_type(frame), wire_payload(frame)),
    }
}

impl Frame<Bytes> {
    pub open spec fn view(&self) -> FrameView {
        match self {
            Frame::Data(data) => FrameView::Data(chunk::content(*data).len() as usize),
            Frame::Headers(section) => FrameView::Headers(chunk::content(*section)),
            Frame::CancelPush(id) => FrameView::CancelPush(id.0@),
            Frame::Settings(settings) => FrameView::Settings(settings.view()),
            Frame::PushPromise(promise) => FrameView::PushPromise(
                promise.id.0@,
                chunk::content(promise.encoded),
            ),
            Frame::Goaway(id) => FrameView::Goaway(id@),
            Frame::MaxPushId(id) => FrameView::MaxPushId(id.0@),
            Frame::WebTransportStream(id) => FrameView::WebTransportStream(id.0@),
        }
    }

    /// The payload of a DATA frame.
    pub open spec fn data(&self) -> Seq<u8> {
        match self {
            Frame::Data(data) => chunk::content(*data),
            _ => Seq::empty(),
        }
    }

    /// What `encode` leaves to be sent after it.
    pub open spec fn payload(&self) -> Seq<u8> {
        match self {
            Frame::Data(data) => chunk::content(*data),
            Frame::Headers(section) => chunk::content(*section),
            _ => Seq::empty(),
        }
    }

    /// Can the lengths that the frame has to give be encoded?
    pub open spec fn encodable(&self) -> bool {
        &&& self.data().len() <= VarInt::MAX
        &&& wire_payload(self.view()).len() <= VarInt::MAX
    }

    /// A HEADERS frame with an encoded field section.
    pub fn headers(field_section: Bytes) -> (frame: Self)
        ensures
            frame == Frame::<Bytes>::Headers(field_section),
            frame.view() == FrameView::Headers(chunk::content(field_section)),
            frame.data() == Seq::<u8>::empty(),
    {
        Frame::Headers(field_section)
    }

    /// Appends the frame to `out`, without the payload of a DATA or a HEADERS
    /// frame.
    pub fn encode(&self, out: &mut Vec<u8>)
        requires
            self.encodable(),
        ensures
            final(out)@ + self.payload() == old(out)@ + wire(self.view()) + self.data(),
            match self {
                Frame::Data(data) => final(out)@ == old(out)@ + varint::encoded(0x0)
                    + varint::encoded(chunk::content(*data).len() as u64),
                Frame::Headers(section) => final(out)@ == old(out)@ + varint::encoded(0x1)
                    + varint::encoded(chunk::content(*section).len() as u64),
                Frame::CancelPush(id) => final(out)@ == old(out)@ + varint::encoded(0x3)
                    + varint::encoded(varint::encoded(id.0@).len() as u64) + varint::encoded(
                    id.0@,
                ),
                Frame::Settings(settings) => final(out)@ == old(out)@ + varint::encoded(0x4)
                    + varint::encoded(settings::wire_settings(settings.view()).len() as u64)
                    + settings::wire_settings(settings.view()),
                Frame::PushPromise(promise) => final(out)@ == old(out)@ + varint::encoded(0x5)
                    + varint::encoded(
                    (varint::encoded(promise.id.0@).len() + chunk::content(
                        promise.encoded,
                    ).len()) as u64,
                ) + varint::encoded(promise.id.0@) + chunk::content(promise.encoded),
                Frame::Goaway(id) => final(out)@ == old(out)@ + varint::encoded(0x7)
                    + varint::encoded(varint::encoded(id@).len() as u64) + varint::encoded(id@),
                Frame::MaxPushId(id) => final(out)@ == old(out)@ + varint::encoded(0xd)
                    + varint::encoded(varint::encoded(id.0@).len() as u64) + varint::encoded(
                    id.0@,
                ),
                Frame::WebTransportStream(id) => final(out)@ == old(out)@ + varint::encoded(0x41)
                    + varint::encoded(id.0@),
            },
    {
        let mut payload: Vec<u8> = Vec::new();
        let ty: u64 = match self {
            Frame::Data(data) => {
                FrameType(FrameType::DATA).encode(out);
                encode_number(data.len() as u64, out);
                proof {
                    assert(out@ + self.payload() =~= old(out)@ + wire(self.view()) + self.data());
                }
                return ;
            },
            Frame::Headers(section) => {
                FrameType(FrameType::HEADERS).encode(out);
                encode_number(section.len() as u64, out);
                proof {
                    assert(out@ + self.payload() =~= old(out)@ + wire(self.view()) + self.data());
                }
                return ;
            },
            Frame::WebTransportStream(id) => {
                FrameType(FrameType::WEBTRANSPORT_BI_STREAM).encode(out);
                id.0.encode(out);
                proof {
                    assert(out@ + self.payload() =~= old(out)@ + wire(self.view()) + self.data());
                }
                return ;
            },
            Frame::CancelPush(id) => {
                id.0.encode(&mut payload);
                FrameType::CANCEL_PUSH
            },
            Frame::Settings(settings) => {
                settings.encode(&mut payload);
                FrameType::SETTINGS
            },
            Frame::PushPromise(promise) => {
                promise.id.0.encode(&mut payload);
                append(&mut payload, chunk::as_slice(&promise.encoded));
                FrameType::PUSH_PROMISE
            },
            Frame::Goaway(id) => {
                id.encode(&mut payload);
                FrameType::GOAWAY
            },
            Frame::MaxPushId(id) => {
                id.0.encode(&mut payload);
                FrameType::MAX_PUSH_ID
            },
        };
        proof {
            assert(payload@ =~= wire_payload(self.view()));
        }
        FrameType(ty).encode(out);
        encode_number(payload.len() as u64, out);
        append(out, payload.as_slice());
        proof {
            assert(out@ + self.payload() =~= old(out)@ + wire(self.view()) + self.data());
        }
    }

    /// Appends the frame to `out`, with its payload.
    pub fn encode_with_payload(&self, out: &mut Vec<u8>)
        requires
            self.encodable(),
        ensures
            final(out)@ == old(out)@ + wire(self.view()) + self.data(),
            match self {
                Frame::Data(data) => final(out)@ == old(out)@ + varint::encoded(0x0)
                    + varint::encoded(chunk::content(*data).len() as u64) + chunk::content(*data),
                Frame::Headers(section) => final(out)@ == old(out)@ + varint::encoded(0x1)
                    + varint::encoded(chunk::content(*section).len() as u64) + chunk::content(
                    *section,
                ),
                Frame::CancelPush(id) => final(out)@ == old(out)@ + varint::encoded(0x3)
                    + varint::encoded(varint::encoded(id.0@).len() as u64) + varint::encoded(
                    id.0@,
                ),
                Frame::Settings(settings) => final(out)@ == old(out)@ + varint::encoded(0x4)
                    + varint::encoded(settings::wire_settings(settings.view()).len() as u64)
                    + settings::wire_settings(settings.view()),
                Frame::PushPromise(promise) => final(out)@ == old(out)@ + varint::encoded(0x5)
                    + varint::encoded(
                    (varint::encoded(promise.id.0@).len() + chunk::content(
                        promise.encoded,
                    ).len()) as u64,
                ) + varint::encoded(promise.id.0@) + chunk::content(promise.encoded),
                Frame::Goaway(id) => final(out)@ == old(out)@ + varint::encoded(0x7)
                    + varint::encoded(varint::encoded(id@).len() as u64) + varint::encoded(id@),
                Frame::MaxPushId(id) => final(out)@ == old(out)@ + varint::encoded(0xd)
                    + varint::encoded(varint::encoded(id.0@).len() as u64) + varint::encoded(
                    id.0@,
                ),
                Frame::WebTransportStream(id) => final(out)@ == old(out)@ + varint::encoded(0x41)
                    + varint::encoded(id.0@),
            },
    {
        self.encode(out);
        match self {
            Frame::Data(data) => append(out, chunk::as_slice(data)),
            Frame::Headers(section) => append(out, chunk::as_slice(section)),
            _ => {
                proof {
                    assert(out@ + self.payload() =~= out@);
                }
            },
        }
    }
}

/// Appends the encoding of `x` to `out`.
fn encode_number(x: u64, out: &mut Vec<u8>)
    requires
        x <= VarInt::MAX,
    ensures
        final(out)@ == old(out)@ + varint::encoded(x),
{
    match VarInt::from_u64(x) {
        Ok(x) => x.encode(out),
        Err(_) => {},
    }
}

/// Appends `bytes` to `out`.
fn append(out: &mut Vec<u8>, bytes: &[u8])
    ensures
        final(out)@ == old(out)@ + bytes@,
{
    out.extend_from_slice(bytes);
    proof {
        assert(out@ =~= old(out)@ + bytes@);
    }
}

} // verus!

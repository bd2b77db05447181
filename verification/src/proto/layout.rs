//! What the bytes on the wire mean, said of the bytes themselves: `s` starts with
//! the integer `ty`, in `a` bytes, and the integer `len`, in `b` bytes.
use crate::chunk;
use crate::frame;
use crate::frame::{FrameDecoder, FrameProtocolError, FrameStreamError};
use crate::proto;
use crate::proto::frame::{Frame, FrameError, FrameType, FrameView, PayloadLen};
use crate::proto::settings;
use crate::proto::settings::{SettingId, Settings, SettingsError};
use crate::varint;
use bytes::Bytes;
use vstd::prelude::*;

verus! {

/// A HEADERS frame says just the bytes of its payload, in their order.
pub proof fn headers_bytes(decoder: FrameDecoder, s: Seq<u8>, ty: u64, a: nat, len: u64, b: nat)
    requires
        varint::decoded(s) == Some((ty, a)),
        varint::decoded(s.skip(a as int)) == Some((len, b)),
        decoder.expected matches Some(min) ==> min <= s.len(),
        ty == 0x1,
        len <= decoder.max_non_data_frame_size,
        a + b + len <= s.len(),
    ensures
        ({
            let section = s.subrange((a + b) as int, a + b + len);
            &&& proto::frame::frame_result(s, decoder.max_non_data_frame_size) == Ok::<
                _,
                FrameError,
            >(FrameView::Headers(section))
            &&& frame::decoded(decoder, s).result == Ok::<_, FrameStreamError>(
                Some(FrameView::Headers(section)),
            )
        }),
        proto::frame::frame_len(s) == a + b + len,
        frame::decoded(decoder, s).used == a + b + len,
        frame::decoded(decoder, s).expected is None,
{
    assert(s.skip(0) =~= s);
}

/// The start of a DATA frame says how long the payload is, under any limit and
/// with nothing of the payload there. The payload is left where it is.
pub proof fn data_bytes(decoder: FrameDecoder, s: Seq<u8>, ty: u64, a: nat, len: u64, b: nat)
    requires
        varint::decoded(s) == Some((ty, a)),
        varint::decoded(s.skip(a as int)) == Some((len, b)),
        decoder.expected matches Some(min) ==> min <= s.len(),
        ty == 0x0,
    ensures
        proto::frame::frame_result(s, decoder.max_non_data_frame_size) == Ok::<_, FrameError>(
            FrameView::Data(len as usize),
        ),
        proto::frame::frame_len(s) == a + b,
        frame::decoded(decoder, s).result == Ok::<_, FrameStreamError>(
            Some(FrameView::Data(len as usize)),
        ),
        frame::decoded(decoder, s).used == a + b,
        frame::decoded(decoder, s).expected is None,
{
    assert(s.skip(0) =~= s);
}

/// The start of a WebTransport stream says which session it belongs to, under any
/// limit. What follows is left where it is.
pub proof fn webtransport_bytes(
    decoder: FrameDecoder,
    s: Seq<u8>,
    ty: u64,
    a: nat,
    len: u64,
    b: nat,
)
    requires
        varint::decoded(s) == Some((ty, a)),
        varint::decoded(s.skip(a as int)) == Some((len, b)),
        decoder.expected matches Some(min) ==> min <= s.len(),
        ty == 0x41,
    ensures
        proto::frame::frame_result(s, decoder.max_non_data_frame_size) == Ok::<_, FrameError>(
            FrameView::WebTransportStream(len),
        ),
        proto::frame::frame_len(s) == a + b,
        frame::decoded(decoder, s).result == Ok::<_, FrameStreamError>(
            Some(FrameView::WebTransportStream(len)),
        ),
        frame::decoded(decoder, s).used == a + b,
        frame::decoded(decoder, s).expected is None,
{
    assert(s.skip(0) =~= s);
}

/// The payload of a CANCEL_PUSH, GOAWAY or MAX_PUSH_ID frame is one integer. With
/// none there, with one that is cut short, or with anything after it, the frame is
/// malformed.
pub proof fn number_bytes(decoder: FrameDecoder, s: Seq<u8>, ty: u64, a: nat, len: u64, b: nat)
    requires
        varint::decoded(s) == Some((ty, a)),
        varint::decoded(s.skip(a as int)) == Some((len, b)),
        decoder.expected matches Some(min) ==> min <= s.len(),
        ty == 0x3 || ty == 0x7 || ty == 0xd,
        len <= decoder.max_non_data_frame_size,
        a + b + len <= s.len(),
    ensures
        ({
            let payload = s.subrange((a + b) as int, a + b + len);
            let d = frame::decoded(decoder, s);
            let r = proto::frame::frame_result(s, decoder.max_non_data_frame_size);
            match varint::decoded(payload) {
                Some((id, n)) if n == len => {
                    &&& ty == 0x3 ==> d.result == Ok::<_, FrameStreamError>(
                        Some(FrameView::CancelPush(id)),
                    ) && r == Ok::<_, FrameError>(FrameView::CancelPush(id))
                    &&& ty == 0x7 ==> d.result == Ok::<_, FrameStreamError>(
                        Some(FrameView::Goaway(id)),
                    ) && r == Ok::<_, FrameError>(FrameView::Goaway(id))
                    &&& ty == 0xd ==> d.result == Ok::<_, FrameStreamError>(
                        Some(FrameView::MaxPushId(id)),
                    ) && r == Ok::<_, FrameError>(FrameView::MaxPushId(id))
                    &&& d.used == a + b + len
                    &&& d.expected is None
                },
                _ => {
                    &&& r == Err::<FrameView, _>(FrameError::Malformed)
                    &&& d.result == Err::<Option<FrameView>, _>(
                        FrameStreamError::Proto(FrameProtocolError::Malformed),
                    )
                    &&& d.used == 0
                    &&& d.expected == decoder.expected
                },
            }
        }),
        proto::frame::frame_len(s) == a + b + len,
{
    assert(s.skip(0) =~= s);
}

/// The payload of a PUSH_PROMISE frame is an integer and, after it, a field
/// section in its order. Without the integer the frame is malformed.
pub proof fn push_promise_bytes(
    decoder: FrameDecoder,
    s: Seq<u8>,
    ty: u64,
    a: nat,
    len: u64,
    b: nat,
)
    requires
        varint::decoded(s) == Some((ty, a)),
        varint::decoded(s.skip(a as int)) == Some((len, b)),
        decoder.expected matches Some(min) ==> min <= s.len(),
        ty == 0x5,
        len <= decoder.max_non_data_frame_size,
        a + b + len <= s.len(),
    ensures
        ({
            let payload = s.subrange((a + b) as int, a + b + len);
            let d = frame::decoded(decoder, s);
            let r = proto::frame::frame_result(s, decoder.max_non_data_frame_size);
            match varint::decoded(payload) {
                Some((id, n)) => {
                    let section = s.subrange((a + b + n) as int, a + b + len);
                    &&& d.result == Ok::<_, FrameStreamError>(
                        Some(FrameView::PushPromise(id, section)),
                    )
                    &&& r == Ok::<_, FrameError>(FrameView::PushPromise(id, section))
                    &&& d.used == a + b + len
                    &&& d.expected is None
                },
                None => {
                    &&& r == Err::<FrameView, _>(FrameError::Malformed)
                    &&& d.result == Err::<Option<FrameView>, _>(
                        FrameStreamError::Proto(FrameProtocolError::Malformed),
                    )
                    &&& d.used == 0
                    &&& d.expected == decoder.expected
                },
            }
        }),
        proto::frame::frame_len(s) == a + b + len,
{
    assert(s.skip(0) =~= s);
    let payload = s.subrange((a + b) as int, a + b + len);
    if let Some((id, n)) = varint::decoded(payload) {
        assert(payload.skip(n as int) =~= s.subrange((a + b + n) as int, a + b + len));
    }
}

/// The payload of a SETTINGS frame is read as settings, and refused with what is
/// wrong with them.
pub proof fn settings_bytes(decoder: FrameDecoder, s: Seq<u8>, ty: u64, a: nat, len: u64, b: nat)
    requires
        varint::decoded(s) == Some((ty, a)),
        varint::decoded(s.skip(a as int)) == Some((len, b)),
        decoder.expected matches Some(min) ==> min <= s.len(),
        ty == 0x4,
        len <= decoder.max_non_data_frame_size,
        a + b + len <= s.len(),
    ensures
        ({
            let payload = s.subrange((a + b) as int, a + b + len);
            let d = frame::decoded(decoder, s);
            let r = proto::frame::frame_result(s, decoder.max_non_data_frame_size);
            match settings::settings_from(Seq::empty(), payload) {
                Ok(entries) => {
                    &&& d.result == Ok::<_, FrameStreamError>(Some(FrameView::Settings(entries)))
                    &&& r == Ok::<_, FrameError>(FrameView::Settings(entries))
                    &&& d.used == a + b + len
                    &&& d.expected is None
                },
                Err(e) => {
                    &&& r == Err::<FrameView, _>(FrameError::Settings(e))
                    &&& d.result == Err::<Option<FrameView>, _>(
                        FrameStreamError::Proto(FrameProtocolError::Settings(e)),
                    )
                    &&& d.used == 0
                    &&& d.expected == decoder.expected
                },
            }
        }),
        proto::frame::frame_len(s) == a + b + len,
{
    assert(s.skip(0) =~= s);
}

/// A frame of HTTP/2 is refused whatever its payload, with its type, and stays
/// where it is.
pub proof fn forbidden_bytes(decoder: FrameDecoder, s: Seq<u8>, ty: u64, a: nat, len: u64, b: nat)
    requires
        varint::decoded(s) == Some((ty, a)),
        varint::decoded(s.skip(a as int)) == Some((len, b)),
        decoder.expected matches Some(min) ==> min <= s.len(),
        ty == 0x2 || ty == 0x6 || ty == 0x8 || ty == 0x9,
        len <= decoder.max_non_data_frame_size,
        a + b + len <= s.len(),
    ensures
        proto::frame::frame_result(s, decoder.max_non_data_frame_size) == Err::<FrameView, _>(
            FrameError::UnsupportedFrame(ty),
        ),
        frame::decoded(decoder, s).result == Err::<Option<FrameView>, _>(
            FrameStreamError::Proto(FrameProtocolError::ForbiddenFrame(ty)),
        ),
        frame::decoded(decoder, s).used == 0,
        frame::decoded(decoder, s).expected == decoder.expected,
{
    assert(s.skip(0) =~= s);
}

/// A whole frame of an unknown type is passed over: what follows it is decoded as
/// if it had not been there.
pub proof fn unknown_bytes(decoder: FrameDecoder, s: Seq<u8>, ty: u64, a: nat, len: u64, b: nat)
    requires
        varint::decoded(s) == Some((ty, a)),
        varint::decoded(s.skip(a as int)) == Some((len, b)),
        decoder.expected matches Some(min) ==> min <= s.len(),
        ty > 0x9,
        ty != 0xd,
        ty != 0x41,
        len <= decoder.max_non_data_frame_size,
        a + b + len <= s.len(),
    ensures
        proto::frame::frame_result(s, decoder.max_non_data_frame_size) == Err::<FrameView, _>(
            FrameError::UnknownFrame(ty),
        ),
        proto::frame::frame_len(s) == a + b + len,
        ({
            let d = frame::decoded(decoder, s);
            let later = frame::decoded(
                FrameDecoder { expected: None, ..decoder },
                s.skip(a + b + len),
            );
            &&& d.result == later.result
            &&& d.used == a + b + len + later.used
            &&& d.expected == later.expected
        }),
{
    assert(s.skip(0) =~= s);
    let max = decoder.max_non_data_frame_size;
    let n = a + b + len;
    let rest = s.skip(n);
    let u = frame::unknown_len(rest, max);
    frame::lemma_frame_len(s, max);
    frame::lemma_unknown_len(rest, max);
    assert(s.skip(n + u) =~= rest.skip(u as int));
    if rest.len() == 0 {
        assert(frame::unknown_len(s, max) == n);
    }
}

/// A length above the limit is refused as soon as it is there, whatever the type
/// that is not DATA or WebTransport, and whatever else is there.
pub proof fn oversized_bytes(decoder: FrameDecoder, s: Seq<u8>, ty: u64, a: nat, len: u64, b: nat)
    requires
        varint::decoded(s) == Some((ty, a)),
        varint::decoded(s.skip(a as int)) == Some((len, b)),
        decoder.expected matches Some(min) ==> min <= s.len(),
        ty != 0x0,
        ty != 0x41,
        len > decoder.max_non_data_frame_size,
    ensures
        proto::frame::frame_result(s, decoder.max_non_data_frame_size) == Err::<FrameView, _>(
            FrameError::TooLarge { length: len, max: decoder.max_non_data_frame_size },
        ),
        frame::decoded(decoder, s).result == Err::<Option<FrameView>, _>(
            FrameStreamError::Proto(
                FrameProtocolError::TooLarge {
                    length: len,
                    max: decoder.max_non_data_frame_size,
                },
            ),
        ),
        frame::decoded(decoder, s).used == 0,
        frame::decoded(decoder, s).expected == decoder.expected,
{
    assert(s.skip(0) =~= s);
}

/// A payload within the limit that is not all there is awaited, whatever the type
/// that is not DATA or WebTransport.
pub proof fn awaited_bytes(decoder: FrameDecoder, s: Seq<u8>, ty: u64, a: nat, len: u64, b: nat)
    requires
        varint::decoded(s) == Some((ty, a)),
        varint::decoded(s.skip(a as int)) == Some((len, b)),
        decoder.expected matches Some(min) ==> min <= s.len(),
        ty != 0x0,
        ty != 0x41,
        len <= decoder.max_non_data_frame_size,
        s.len() < a + b + len,
    ensures
        proto::frame::frame_result(s, decoder.max_non_data_frame_size) == Err::<FrameView, _>(
            FrameError::Incomplete(
                if len + 2 <= usize::MAX {
                    (len + 2) as usize
                } else {
                    usize::MAX
                },
            ),
        ),
        frame::decoded(decoder, s).result == Ok::<Option<FrameView>, FrameStreamError>(None),
        frame::decoded(decoder, s).used == 0,
        frame::decoded(decoder, s).expected == Some(
            if len + 2 <= usize::MAX {
                (len + 2) as usize
            } else {
                usize::MAX
            },
        ),
{
    assert(s.skip(0) =~= s);
}

/// As long as the type or the length is not all there, they are awaited.
pub proof fn header_is_awaited(decoder: FrameDecoder, s: Seq<u8>)
    requires
        s.len() > 0,
        decoder.expected matches Some(min) ==> min <= s.len(),
        match varint::decoded(s) {
            Some((_, a)) => varint::decoded(s.skip(a as int)) is None,
            None => true,
        },
    ensures
        proto::frame::frame_result(s, decoder.max_non_data_frame_size) == Err::<FrameView, _>(
            FrameError::Incomplete((s.len() + 1) as usize),
        ),
        frame::decoded(decoder, s).result == Ok::<Option<FrameView>, FrameStreamError>(None),
        frame::decoded(decoder, s).used == 0,
        frame::decoded(decoder, s).expected == Some((s.len() + 1) as usize),
{
    assert(s.skip(0) =~= s);
}

/// Where nothing is there, or fewer bytes than are awaited, nothing happens.
pub proof fn too_few_bytes(decoder: FrameDecoder, s: Seq<u8>)
    requires
        s.len() == 0 || (decoder.expected matches Some(min) && s.len() < min),
    ensures
        frame::decoded(decoder, s).result == Ok::<Option<FrameView>, FrameStreamError>(None),
        frame::decoded(decoder, s).used == 0,
        frame::decoded(decoder, s).expected == decoder.expected,
{
}

/// Bytes are used up without a frame being returned only if the frame at their
/// front is of an unknown type, within the limit, and all there.
pub proof fn only_unknown_is_passed_over(decoder: FrameDecoder, s: Seq<u8>)
    requires
        frame::decoded(decoder, s).used > 0,
        !(frame::decoded(decoder, s).result matches Ok(Some(_))),
    ensures
        varint::decoded(s) matches Some((ty, a)) && ty > 0x9 && ty != 0xd && ty != 0x41 && (
        varint::decoded(s.skip(a as int)) matches Some((len, b)) && len
            <= decoder.max_non_data_frame_size && a + b + len <= s.len()),
{
    frame::lemma_frame_len(s, decoder.max_non_data_frame_size);
}

/// One entry of a SETTINGS payload, which starts with the integers `id` and
/// `value`: a setting that is known is kept, once; one of HTTP/2 is refused; any
/// other is passed over.
pub proof fn setting_bytes(
    kept: Seq<(u64, u64)>,
    s: Seq<u8>,
    id: u64,
    a: nat,
    value: u64,
    b: nat,
)
    requires
        varint::decoded(s) == Some((id, a)),
        varint::decoded(s.skip(a as int)) == Some((value, b)),
    ensures
        ({
            let known = id == 0x1 || id == 0x6 || id == 0x7 || id == 0x8 || id == 0x33 || id
                == 0x2b60_3742 || id == 0x2b60_3743;
            let refused = id == 0x0 || 0x2 <= id <= 0x5;
            let there = exists|i: int| 0 <= i < kept.len() && (#[trigger] kept[i]).0 == id;
            let result = settings::settings_from(kept, s);
            let rest = s.skip((a + b) as int);
            &&& known && there ==> result == Err::<Seq<(u64, u64)>, _>(
                SettingsError::Repeated(SettingId(id)),
            )
            &&& known && !there ==> result == settings::settings_from(
                kept.push((id, value)),
                rest,
            )
            &&& refused ==> result == Err::<Seq<(u64, u64)>, _>(
                SettingsError::InvalidSettingId(id),
            )
            &&& !known && !refused ==> result == settings::settings_from(kept, rest)
        }),
{
}

/// Settings end with the payload, and are malformed where an entry is cut short.
pub proof fn settings_end(kept: Seq<(u64, u64)>, s: Seq<u8>)
    ensures
        s.len() == 0 ==> settings::settings_from(kept, s) == Ok::<_, SettingsError>(kept),
        s.len() > 0 && (match varint::decoded(s) {
            Some((_, a)) => varint::decoded(s.skip(a as int)) is None,
            None => true,
        }) ==> settings::settings_from(kept, s) == Err::<Seq<(u64, u64)>, _>(
            SettingsError::Malformed,
        ),
{
}

/// Settings are written one after the other, each as its identifier and its
/// value.
pub proof fn written_settings(entries: Seq<(u64, u64)>, i: int)
    requires
        0 <= i < entries.len(),
    ensures
        settings::wire_settings(Seq::empty()) == Seq::<u8>::empty(),
        settings::wire_settings(entries) == settings::wire_settings(entries.take(i))
            + varint::encoded(entries[i].0) + varint::encoded(entries[i].1)
            + settings::wire_settings(entries.skip(i + 1)),
    decreases i,
{
    let first = varint::encoded(entries[0].0) + varint::encoded(entries[0].1);
    let tail = entries.drop_first();
    if i == 0 {
        assert(entries.take(0) =~= Seq::<(u64, u64)>::empty());
        assert(entries.skip(1) =~= tail);
        assert(settings::wire_settings(entries) =~= settings::wire_settings(entries.take(0))
            + varint::encoded(entries[0].0) + varint::encoded(entries[0].1)
            + settings::wire_settings(entries.skip(1)));
    } else {
        written_settings(tail, i - 1);
        assert(entries.take(i).drop_first() =~= tail.take(i - 1));
        assert(entries.take(i)[0] == entries[0]);
        assert(tail.skip(i) =~= entries.skip(i + 1));
        assert(settings::wire_settings(entries) =~= settings::wire_settings(entries.take(i))
            + varint::encoded(entries[i].0) + varint::encoded(entries[i].1)
            + settings::wire_settings(entries.skip(i + 1)));
    }
}

/// The bytes of a frame: its type, the length of what follows, and what follows,
/// in its order. A DATA frame and a WebTransport stream are written without what
/// they carry.
pub proof fn written_frame(frame: FrameView)
    ensures
        match frame {
            FrameView::Data(n) => proto::frame::wire(frame) == varint::encoded(0x0)
                + varint::encoded(n as u64),
            FrameView::Headers(section) => proto::frame::wire(frame) == varint::encoded(0x1)
                + varint::encoded(section.len() as u64) + section,
            FrameView::CancelPush(id) => proto::frame::wire(frame) == varint::encoded(0x3)
                + varint::encoded(varint::encoded(id).len() as u64) + varint::encoded(id),
            FrameView::Settings(entries) => proto::frame::wire(frame) == varint::encoded(0x4)
                + varint::encoded(settings::wire_settings(entries).len() as u64)
                + settings::wire_settings(entries),
            FrameView::PushPromise(id, section) => proto::frame::wire(frame) == varint::encoded(0x5)
                + varint::encoded((varint::encoded(id).len() + section.len()) as u64)
                + varint::encoded(id) + section,
            FrameView::Goaway(id) => proto::frame::wire(frame) == varint::encoded(0x7)
                + varint::encoded(varint::encoded(id).len() as u64) + varint::encoded(id),
            FrameView::MaxPushId(id) => proto::frame::wire(frame) == varint::encoded(0xd)
                + varint::encoded(varint::encoded(id).len() as u64) + varint::encoded(id),
            FrameView::WebTransportStream(id) => proto::frame::wire(frame) == varint::encoded(0x41)
                + varint::encoded(id),
        },
{
    if let FrameView::PushPromise(id, section) = frame {
        let length = varint::encoded((varint::encoded(id).len() + section.len()) as u64);
        assert(varint::encoded(0x5) + length + (varint::encoded(id) + section)
            =~= varint::encoded(0x5) + length + varint::encoded(id) + section);
    }
}

/// What settings and frames say is what their fields hold.
pub proof fn said_of_frames(
    settings: Settings,
    received: Frame<PayloadLen>,
    written: Frame<Bytes>,
)
    ensures
        settings.view().len() == settings.entries@.len(),
        forall|i: int|
            0 <= i < settings.entries@.len() ==> #[trigger] settings.view()[i] == (
                settings.entries@[i].0@,
                settings.entries@[i].1@,
            ),
        match received {
            Frame::Data(n) => received.view() == FrameView::Data(n.0),
            Frame::Headers(section) => received.view() == FrameView::Headers(
                chunk::content(section),
            ),
            Frame::CancelPush(id) => received.view() == FrameView::CancelPush(id.0@),
            Frame::Settings(held) => received.view() == FrameView::Settings(held.view()),
            Frame::PushPromise(promise) => received.view() == FrameView::PushPromise(
                promise.id.0@,
                chunk::content(promise.encoded),
            ),
            Frame::Goaway(id) => received.view() == FrameView::Goaway(id@),
            Frame::MaxPushId(id) => received.view() == FrameView::MaxPushId(id.0@),
            Frame::WebTransportStream(id) => received.view() == FrameView::WebTransportStream(
                id.0@,
            ),
        },
        match written {
            Frame::Data(data) => written.view() == FrameView::Data(
                chunk::content(data).len() as usize,
            ) && written.data() == chunk::content(data) && written.payload() == chunk::content(
                data,
            ),
            Frame::Headers(section) => written.view() == FrameView::Headers(
                chunk::content(section),
            ) && written.payload() == chunk::content(section) && written.data().len() == 0,
            Frame::CancelPush(id) => written.view() == FrameView::CancelPush(id.0@),
            Frame::Settings(held) => written.view() == FrameView::Settings(held.view()),
            Frame::PushPromise(promise) => written.view() == FrameView::PushPromise(
                promise.id.0@,
                chunk::content(promise.encoded),
            ),
            Frame::Goaway(id) => written.view() == FrameView::Goaway(id@),
            Frame::MaxPushId(id) => written.view() == FrameView::MaxPushId(id.0@),
            Frame::WebTransportStream(id) => written.view() == FrameView::WebTransportStream(
                id.0@,
            ),
        },
        !(written is Data) && !(written is Headers) ==> written.data().len() == 0
            && written.payload().len() == 0,
{
}

/// The numbers of the frame types, and what kind each is of.
pub proof fn type_numbers(ty: u64)
    ensures
        FrameType::DATA == 0x0,
        FrameType::HEADERS == 0x1,
        FrameType::H2_PRIORITY == 0x2,
        FrameType::CANCEL_PUSH == 0x3,
        FrameType::SETTINGS == 0x4,
        FrameType::PUSH_PROMISE == 0x5,
        FrameType::H2_PING == 0x6,
        FrameType::GOAWAY == 0x7,
        FrameType::H2_WINDOW_UPDATE == 0x8,
        FrameType::H2_CONTINUATION == 0x9,
        FrameType::MAX_PUSH_ID == 0xd,
        FrameType::WEBTRANSPORT_BI_STREAM == 0x41,
        FrameType(ty).streamed() <==> ty == 0x0 || ty == 0x41,
        FrameType(ty).forbidden() <==> ty == 0x2 || ty == 0x6 || ty == 0x8 || ty == 0x9,
        FrameType(ty).unknown() <==> ty > 0x9 && ty != 0xd && ty != 0x41,
{
}

} // verus!

//! What holds of the wire format as a whole.
use crate::proto::frame;
use crate::proto::frame::{FrameError, FrameType, FrameView};
use crate::proto::settings;
use crate::proto::settings::SettingId;
use crate::varint;
use crate::varint::VarInt;
use vstd::prelude::*;

verus! {

/// Can `frame` be written, and be read where a payload that has to be buffered
/// may have `max` bytes?
pub open spec fn transmissible(frame: FrameView, max: usize) -> bool {
    let payload = frame::wire_payload(frame);
    &&& payload.len() <= max
    &&& payload.len() <= VarInt::MAX
    &&& match frame {
        FrameView::Data(len) => len <= VarInt::MAX,
        FrameView::Headers(_) => true,
        FrameView::CancelPush(id) => id <= VarInt::MAX,
        FrameView::Settings(entries) => settings_apart(entries),
        FrameView::PushPromise(id, _) => id <= VarInt::MAX,
        FrameView::Goaway(id) => id <= VarInt::MAX,
        FrameView::MaxPushId(id) => id <= VarInt::MAX,
        FrameView::WebTransportStream(id) => id <= VarInt::MAX,
    }
}

/// Are the settings ones that are kept, with no identifier twice?
pub open spec fn settings_apart(entries: Seq<(u64, u64)>) -> bool {
    &&& forall|i: int|
        0 <= i < entries.len() ==> SettingId((#[trigger] entries[i]).0).supported() && entries[i].1
            <= VarInt::MAX
    &&& forall|i: int, j: int|
        0 <= i < j < entries.len() ==> (#[trigger] entries[i]).0 != (#[trigger] entries[j]).0
}

/// Two integers read back are the two that were written, however the input goes
/// on.
pub proof fn decoded_pair_encoded(x: u64, y: u64, rest: Seq<u8>)
    requires
        x <= VarInt::MAX,
        y <= VarInt::MAX,
    ensures
        varint::decoded_pair(varint::encoded(x) + varint::encoded(y) + rest) == Some(
            (x, y, varint::encoded(x).len() + varint::encoded(y).len()),
        ),
        2 <= varint::encoded(x).len() + varint::encoded(y).len() <= 16,
{
    let a = varint::encoded(x);
    let b = varint::encoded(y);
    let s = a + b + rest;
    assert(s =~= a + (b + rest));
    varint::decoded_encoded(x, b + rest);
    assert(s.skip(a.len() as int) =~= b + rest);
    varint::decoded_encoded(y, rest);
}

/// Settings read back are the ones that were written.
pub proof fn settings_read_back(kept: Seq<(u64, u64)>, entries: Seq<(u64, u64)>)
    requires
        settings_apart(kept + entries),
    ensures
        settings::settings_from(kept, settings::wire_settings(entries)) == Ok::<
            _,
            settings::SettingsError,
        >(kept + entries),
    decreases entries.len(),
{
    let s = settings::wire_settings(entries);
    if entries.len() == 0 {
        assert(kept + entries =~= kept);
    } else {
        let (id, value) = entries[0];
        let tail = entries.drop_first();
        let all = kept + entries;
        assert(all[kept.len() as int] == entries[0]);
        decoded_pair_encoded(id, value, settings::wire_settings(tail));
        let n = varint::encoded(id).len() + varint::encoded(value).len();
        assert(s.skip(n as int) =~= settings::wire_settings(tail));
        assert(!settings::has_setting(kept, id)) by {
            if settings::has_setting(kept, id) {
                let i = choose|i: int| 0 <= i < kept.len() && (#[trigger] kept[i]).0 == id;
                assert(all[i] == kept[i]);
            }
        }
        assert(kept.push((id, value)) + tail =~= all);
        settings_read_back(kept.push((id, value)), tail);
    }
}

/// A frame read back is the one that was written, however the input goes on.
pub proof fn frame_read_back(frame: FrameView, rest: Seq<u8>, max: usize)
    requires
        transmissible(frame, max),
    ensures
        frame::frame_result(frame::wire(frame) + rest, max) == Ok::<_, FrameError>(frame),
        frame::frame_len(frame::wire(frame) + rest) == frame::wire(frame).len(),
{
    let ty = frame::frame_type(frame);
    let payload = frame::wire_payload(frame);
    let s = frame::wire(frame) + rest;
    match frame {
        FrameView::Data(len) => {
            decoded_pair_encoded(ty, len as u64, rest);
        },
        FrameView::WebTransportStream(id) => {
            decoded_pair_encoded(ty, id, rest);
        },
        _ => {
            let len = payload.len() as u64;
            assert(s =~= varint::encoded(ty) + varint::encoded(len) + (payload + rest));
            decoded_pair_encoded(ty, len, payload + rest);
            let n = varint::encoded(ty).len() + varint::encoded(len).len();
            assert(s.subrange(n as int, n + len) =~= payload);
            payload_read_back(frame);
        },
    }
}

proof fn payload_read_back(frame: FrameView)
    requires
        transmissible(frame, usize::MAX),
        !FrameType(frame::frame_type(frame)).streamed(),
    ensures
        frame::payload_result(frame::frame_type(frame), frame::wire_payload(frame)) == Ok::<
            _,
            FrameError,
        >(frame),
{
    let payload = frame::wire_payload(frame);
    assert(payload + Seq::<u8>::empty() =~= payload);
    match frame {
        FrameView::CancelPush(id) | FrameView::Goaway(id) | FrameView::MaxPushId(id) => {
            varint::decoded_encoded(id, Seq::empty());
        },
        FrameView::PushPromise(id, section) => {
            varint::decoded_encoded(id, section);
            assert(payload.skip(varint::encoded(id).len() as int) =~= section);
        },
        FrameView::Settings(entries) => {
            assert(Seq::<(u64, u64)>::empty() + entries =~= entries);
            settings_read_back(Seq::empty(), entries);
        },
        _ => {},
    }
}

/// The header of a frame is read the same way however the input goes on.
pub proof fn header_extended(s: Seq<u8>, more: Seq<u8>)
    ensures
        frame::frame_header(s) is Some ==> frame::frame_header(s + more) == frame::frame_header(s),
        frame::frame_header(s) matches Some((_, _, n)) ==> 2 <= n <= 16 && n <= s.len(),
        frame::frame_header(s) is None ==> s.len() < 16,
{
    varint::decoded_extended(s, more);
    if let Some((ty, a)) = varint::decoded(s) {
        let tail = s.skip(a as int);
        varint::decoded_extended(tail, more);
        assert((s + more).skip(a as int) =~= tail + more);
    }
}

/// What comes after a frame does not change what the frame says, nor how long it
/// is.
pub proof fn frame_extended(s: Seq<u8>, more: Seq<u8>, max: usize)
    ensures
        !(frame::frame_result(s, max) matches Err(FrameError::Incomplete(_))) ==> {
            &&& frame::frame_result(s + more, max) == frame::frame_result(s, max)
            &&& frame::frame_len(s + more) == frame::frame_len(s)
        },
{
    header_extended(s, more);
    if let Some((ty, len, n)) = frame::frame_header(s) {
        if n + len <= s.len() {
            assert((s + more).subrange(n as int, n + len) =~= s.subrange(n as int, n + len));
        }
    }
}

/// Where a frame is said to need `min` bytes, it is not complete with fewer.
pub proof fn incomplete_until(s: Seq<u8>, more: Seq<u8>, max: usize)
    ensures
        frame::frame_result(s, max) matches Err(FrameError::Incomplete(min)) ==> (s.len()
            + more.len() < min ==> (frame::frame_result(s + more, max) matches Err(
            FrameError::Incomplete(_),
        ))),
{
    header_extended(s, more);
    if frame::frame_header(s) is None {
        if s.len() + more.len() < s.len() + 1 {
            assert(s + more =~= s);
        }
    }
}

/// A frame is too large exactly if its header announces a payload above the
/// limit, and its payload has to be buffered. How much of the payload is there
/// makes no difference.
pub proof fn too_large_iff(s: Seq<u8>, max: usize)
    ensures
        match frame::frame_header(s) {
            Some((ty, len, _)) if !FrameType(ty).streamed() && len > max => frame::frame_result(
                s,
                max,
            ) == Err::<FrameView, _>(FrameError::TooLarge { length: len, max }),
            _ => !(frame::frame_result(s, max) matches Err(FrameError::TooLarge { .. })),
        },
{
}

/// A DATA frame or a WebTransport stream is read the same way under any limit,
/// and so is any frame whose payload is within both limits.
pub proof fn limit_exempt(s: Seq<u8>, max: usize, other: usize)
    ensures
        frame::frame_header(s) matches Some((ty, len, _)) ==> (FrameType(ty).streamed() || (len
            <= max && len <= other) ==> frame::frame_result(s, max) == frame::frame_result(
            s,
            other,
        )),
{
}

/// A frame that is not complete has less than 16 bytes more than the limit on
/// payloads.
pub proof fn incomplete_bounded(s: Seq<u8>, max: usize)
    ensures
        frame::frame_result(s, max) matches Err(FrameError::Incomplete(_)) ==> s.len() < 16 + max,
{
    header_extended(s, Seq::empty());
}

/// A frame of an unknown type, once it is complete, is nothing but that.
pub proof fn unknown_frame(ty: u64, payload: Seq<u8>, rest: Seq<u8>, max: usize)
    requires
        FrameType(ty).unknown(),
        ty <= VarInt::MAX,
        payload.len() <= max,
        payload.len() <= VarInt::MAX,
    ensures
        frame::frame_result(frame::wire_frame(ty, payload) + rest, max) == Err::<FrameView, _>(
            FrameError::UnknownFrame(ty),
        ),
        frame::frame_len(frame::wire_frame(ty, payload) + rest) == frame::wire_frame(
            ty,
            payload,
        ).len(),
{
    let len = payload.len() as u64;
    let s = frame::wire_frame(ty, payload) + rest;
    assert(s =~= varint::encoded(ty) + varint::encoded(len) + (payload + rest));
    decoded_pair_encoded(ty, len, payload + rest);
}

} // verus!

//! What holds of decoding and of frame streams as a whole.
use crate::buf;
use crate::chunk;
use crate::frame;
use crate::frame::{
    Decoded, FrameDecoder, FrameStreamError, FrameStreamState, Read, RemainingData,
};
use crate::proto;
use crate::proto::frame::{FrameError, FrameType, FrameView};
use crate::proto::laws;
use crate::quic::RecvStream;
use crate::varint::VarInt;
use std::task::Poll;
use vstd::prelude::*;

verus! {

/// A decoder with this limit that waits for nothing in particular.
pub open spec fn fresh(max: usize) -> FrameDecoder {
    FrameDecoder { expected: None, max_non_data_frame_size: max }
}

/// The decoder that `decoder` is after it has seen `s`.
pub open spec fn after(decoder: FrameDecoder, s: Seq<u8>) -> FrameDecoder {
    FrameDecoder { expected: frame::decoded(decoder, s).expected, ..decoder }
}

/// Where the decoder waits for some number of bytes, the next frame in `s` is
/// not complete as long as there are fewer, whatever they are.
pub open spec fn waits_well(decoder: FrameDecoder, s: Seq<u8>) -> bool {
    decoder.expected matches Some(min) ==> forall|more: Seq<u8>|
        s.len() + more.len() < min ==> (#[trigger] proto::frame::frame_result(
            s + more,
            decoder.max_non_data_frame_size,
        ) matches Err(FrameError::Incomplete(_)))
}

/// A decoder that does not look at fewer bytes than it waits for misses
/// nothing: it gives what one that always looks gives.
pub proof fn waiting_misses_nothing(decoder: FrameDecoder, s: Seq<u8>)
    requires
        waits_well(decoder, s),
    ensures
        frame::decoded(decoder, s).result == frame::decoded(
            fresh(decoder.max_non_data_frame_size),
            s,
        ).result,
        frame::decoded(decoder, s).used == frame::decoded(
            fresh(decoder.max_non_data_frame_size),
            s,
        ).used,
{
    if decoder.expected is Some && s.len() < decoder.expected->0 {
        assert(s + Seq::<u8>::empty() =~= s);
        assert(proto::frame::frame_result(
            s + Seq::<u8>::empty(),
            decoder.max_non_data_frame_size,
        ) matches Err(FrameError::Incomplete(_)));
        assert(s.skip(0) =~= s);
    }
}

/// A decoder that waits well still does after decoding, whatever arrives then.
#[verifier::spinoff_prover]
#[verifier::rlimit(40)]
pub proof fn waiting_kept(decoder: FrameDecoder, s: Seq<u8>, more: Seq<u8>)
    requires
        waits_well(decoder, s),
    ensures
        waits_well(
            after(decoder, s),
            s.skip(frame::decoded(decoder, s).used as int) + more,
        ),
{
    let max = decoder.max_non_data_frame_size;
    let d = frame::decoded(decoder, s);
    let left = s.skip(d.used as int);
    frame::lemma_unknown_len(s, max);
    if d.expected is Some {
        let min = d.expected->0;
        assert forall|extra: Seq<u8>|
            (left + more).len() + extra.len() < min implies #[trigger] proto::frame::frame_result(
            left + more + extra,
            max,
        ) matches Err(FrameError::Incomplete(_)) by {
            assert(left + more + extra =~= left + (more + extra));
            if d.used == 0 && d.expected == decoder.expected {
                assert(left =~= s);
                if frame::too_short(decoder.expected, s) || s.len() + (more + extra).len() < min {
                    assert(proto::frame::frame_result(s + (more + extra), max) matches Err(
                        FrameError::Incomplete(_),
                    ));
                }
            } else {
                laws::incomplete_until(left, more + extra, max);
            }
        }
    }
}

/// Of bytes that go on, decoding gives the same as of those at hand, unless
/// these hold no whole frame.
pub proof fn decoded_extended(max: usize, s: Seq<u8>, more: Seq<u8>)
    ensures
        frame::decoded(fresh(max), s).result != Ok::<Option<FrameView>, FrameStreamError>(None)
            ==> {
            &&& frame::decoded(fresh(max), s + more).result == frame::decoded(fresh(max), s).result
            &&& frame::decoded(fresh(max), s + more).used == frame::decoded(fresh(max), s).used
        },
{
    let d = frame::decoded(fresh(max), s);
    if d.result != Ok::<Option<FrameView>, FrameStreamError>(None) {
        unknown_extended(max, s, more);
        frame::lemma_unknown_len(s, max);
        let u = frame::unknown_len(s, max);
        let next = s.skip(u as int);
        laws::frame_extended(next, more, max);
        assert((s + more).skip(u as int) =~= next + more);
        unknown_stops(max, s, more);
    }
}

/// The unknown frames at the front are passed over one by one.
#[verifier::spinoff_prover]
#[verifier::rlimit(40)]
proof fn unknown_extended(max: usize, s: Seq<u8>, more: Seq<u8>)
    ensures
        frame::unknown_len(s + more, max) == frame::unknown_len(s, max) + frame::unknown_len(
            s.skip(frame::unknown_len(s, max) as int) + more,
            max,
        ),
    decreases s.len(),
{
    frame::lemma_frame_len(s, max);
    frame::lemma_unknown_len(s, max);
    laws::frame_extended(s, more, max);
    let n = proto::frame::frame_len(s);
    if proto::frame::frame_result(s, max) matches Err(FrameError::UnknownFrame(_)) {
        let rest = s.skip(n as int);
        unknown_extended(max, rest, more);
        let m = frame::unknown_len(rest, max);
        assert((s + more).skip(n as int) =~= rest + more);
        assert(rest.skip(m as int) =~= s.skip((n + m) as int));
    } else {
        assert(s.skip(0) =~= s);
    }
}

/// A frame that is whole and known ends the unknown ones.
proof fn unknown_stops(max: usize, s: Seq<u8>, more: Seq<u8>)
    requires
        frame::decoded(fresh(max), s).result != Ok::<Option<FrameView>, FrameStreamError>(None),
    ensures
        frame::unknown_len(s + more, max) == frame::unknown_len(s, max),
{
    unknown_extended(max, s, more);
    frame::lemma_unknown_len(s, max);
    let next = s.skip(frame::unknown_len(s, max) as int);
    laws::frame_extended(next, more, max);
}

/// Where the bytes at hand hold no whole frame, decoding them first and the
/// rest with what arrives gives what decoding all of it at once gives.
#[verifier::spinoff_prover]
#[verifier::rlimit(40)]
pub proof fn decoded_in_parts(max: usize, s: Seq<u8>, more: Seq<u8>)
    requires
        frame::decoded(fresh(max), s).result == Ok::<Option<FrameView>, FrameStreamError>(None),
    ensures
        ({
            let used = frame::decoded(fresh(max), s).used;
            let whole = frame::decoded(fresh(max), s + more);
            let rest = frame::decoded(fresh(max), s.skip(used as int) + more);
            &&& whole.result == rest.result
            &&& whole.used == used + rest.used
        }),
{
    let u = frame::unknown_len(s, max);
    frame::lemma_unknown_len(s, max);
    unknown_extended(max, s, more);
    let left = s.skip(u as int) + more;
    let v = frame::unknown_len(left, max);
    frame::lemma_unknown_len(left, max);
    assert((s + more).skip((u + v) as int) =~= left.skip(v as int));
    if s.len() == 0 {
        assert(s + more =~= left);
    }
}

/// A frame that was written is decoded as it was written, however the input
/// goes on, and just its bytes are used up.
pub proof fn written_is_decoded(frame: FrameView, rest: Seq<u8>, max: usize)
    requires
        laws::transmissible(frame, max),
    ensures
        frame::decoded(fresh(max), proto::frame::wire(frame) + rest).result == Ok::<
            _,
            FrameStreamError,
        >(Some(frame)),
        frame::decoded(fresh(max), proto::frame::wire(frame) + rest).used == proto::frame::wire(
            frame,
        ).len(),
{
    let s = proto::frame::wire(frame) + rest;
    laws::frame_read_back(frame, rest, max);
    frame::lemma_frame_len(s, max);
    assert(s.skip(0) =~= s);
}

/// A frame of an unknown type changes nothing but that its bytes are used up.
pub proof fn unknown_is_ignored(ty: u64, payload: Seq<u8>, rest: Seq<u8>, max: usize)
    requires
        FrameType(ty).unknown(),
        ty <= VarInt::MAX,
        payload.len() <= max,
        payload.len() <= VarInt::MAX,
    ensures
        ({
            let unknown = proto::frame::wire_frame(ty, payload);
            let whole = frame::decoded(fresh(max), unknown + rest);
            let without = frame::decoded(fresh(max), rest);
            &&& whole.result == without.result
            &&& whole.used == unknown.len() + without.used
        }),
{
    let unknown = proto::frame::wire_frame(ty, payload);
    let s = unknown + rest;
    laws::unknown_frame(ty, payload, rest, max);
    frame::lemma_frame_len(s, max);
    assert(s.skip(unknown.len() as int) =~= rest);
    let u = frame::unknown_len(rest, max);
    frame::lemma_unknown_len(rest, max);
    assert(s.skip((unknown.len() + u) as int) =~= rest.skip(u as int));
}

/// A payload above the limit is refused as soon as the header that announces it
/// is there, whether or not any of the payload is, and nothing of it is used
/// up.
pub proof fn oversized_is_refused(decoder: FrameDecoder, s: Seq<u8>)
    requires
        !frame::too_short(decoder.expected, s),
    ensures
        proto::frame::frame_header(s) matches Some((ty, len, _)) ==> (!FrameType(ty).streamed()
            && len > decoder.max_non_data_frame_size ==> {
            &&& frame::decoded(decoder, s).result == Err::<Option<FrameView>, _>(
                FrameStreamError::Proto(
                    frame::FrameProtocolError::TooLarge {
                        length: len,
                        max: decoder.max_non_data_frame_size,
                    },
                ),
            )
            &&& frame::decoded(decoder, s).used == 0
        }),
{
    laws::too_large_iff(s, decoder.max_non_data_frame_size);
    assert(s.skip(0) =~= s);
}

/// The start of a DATA frame or of a WebTransport stream is decoded as soon as
/// its header is there, under any limit.
pub proof fn streamed_is_exempt(max: usize, s: Seq<u8>)
    ensures
        proto::frame::frame_header(s) matches Some((ty, x, n)) ==> (FrameType(ty).streamed() ==> {
            &&& frame::decoded(fresh(max), s).result == Ok::<_, FrameStreamError>(
                Some(
                    if ty == FrameType::DATA {
                        FrameView::Data(x as usize)
                    } else {
                        FrameView::WebTransportStream(x)
                    },
                ),
            )
            &&& frame::decoded(fresh(max), s).used == n
        }),
{
    laws::header_extended(s, Seq::empty());
    assert(s.skip(0) =~= s);
}

/// What was refused is refused again, and stays where it is.
pub proof fn refused_again(decoder: FrameDecoder, s: Seq<u8>)
    requires
        frame::decoded(decoder, s).result is Err,
    ensures
        ({
            let d = frame::decoded(decoder, s);
            let again = frame::decoded(after(decoder, s), s.skip(d.used as int));
            &&& again.result == d.result
            &&& again.used == 0
        }),
{
    let max = decoder.max_non_data_frame_size;
    let d = frame::decoded(decoder, s);
    let left = s.skip(d.used as int);
    frame::lemma_unknown_len(s, max);
    assert(left.skip(0) =~= left);
}

/// What is left undecoded, where no frame could be had, is less than 16 bytes
/// more than the limit on payloads.
pub proof fn undecoded_is_bounded(decoder: FrameDecoder, s: Seq<u8>)
    requires
        waits_well(decoder, s),
        frame::decoded(decoder, s).result == Ok::<Option<FrameView>, FrameStreamError>(None),
    ensures
        s.len() - frame::decoded(decoder, s).used < 16 + decoder.max_non_data_frame_size,
{
    let max = decoder.max_non_data_frame_size;
    waiting_misses_nothing(decoder, s);
    frame::lemma_unknown_len(s, max);
    laws::incomplete_bounded(s.skip(frame::unknown_len(s, max) as int), max);
}

/// The decoder of the stream waits well, and waits for nothing while a payload
/// is handed on.
pub open spec fn in_order<S>(state: FrameStreamState<S>) -> bool {
    &&& waits_well(state.decoder, state.recv.bytes())
    &&& state.remaining.any() ==> state.decoder.expected is None
}

/// A stream whose decoder waits for nothing is in order: one that was just made,
/// or whose limit was just set.
pub proof fn in_order_at_first<S>(state: FrameStreamState<S>)
    requires
        state.decoder.expected is None,
    ensures
        in_order(state),
{
}

/// Whether a stream is in order does not depend on its transport.
pub proof fn in_order_on_any_transport<S, T>(state: FrameStreamState<S>, other: FrameStreamState<T>)
    requires
        in_order(state),
        other.recv.chunks == state.recv.chunks,
        other.decoder == state.decoder,
        other.remaining == state.remaining,
    ensures
        in_order(other),
{
}

/// The bytes that a poll of the transport brought.
pub open spec fn brought<S>(read: Read<S>) -> Seq<u8> {
    match read.answer {
        Poll::Ready(Ok(Some(data))) => chunk::content(data),
        _ => Seq::empty(),
    }
}

/// The bytes that polls of the transport brought.
pub open spec fn arrived<S>(reads: Seq<Read<S>>) -> Seq<u8>
    decreases reads.len(),
{
    if reads.len() == 0 {
        Seq::empty()
    } else {
        brought(reads[0]) + arrived(reads.skip(1))
    }
}

/// Decoding takes what it uses up off the front of what is buffered, and keeps
/// the stream in order.
proof fn lemma_after_decode<S: RecvStream>(state: FrameStreamState<S>)
    requires
        in_order(state),
        !state.remaining.any(),
    ensures
        state.after_decode().recv.bytes() == state.recv.bytes().skip(state.decoded().used as int),
        in_order(state.after_decode()),
        state.decoded().result == Ok::<Option<FrameView>, FrameStreamError>(None)
            ==> !state.after_decode().remaining.any(),
{
    let s = state.recv.bytes();
    frame::lemma_decoded_used(state.decoder, s);
    buf::lemma_chunks_skip(state.recv.chunks, state.decoded().used);
    waiting_kept(state.decoder, s, Seq::empty());
    let left = s.skip(state.decoded().used as int);
    assert(left + Seq::<u8>::empty() =~= left);
}

/// A read adds what it brought, and keeps the stream in order.
proof fn lemma_after_read<S: RecvStream>(state: FrameStreamState<S>, read: Read<S>)
    requires
        in_order(state),
    ensures
        state.after_read(read).recv.bytes() == state.recv.bytes() + brought(read),
        in_order(state.after_read(read)),
{
    let s = state.recv.bytes();
    if let Poll::Ready(Ok(Some(data))) = read.answer {
        state.recv.chunks.lemma_flatten_push(chunk::content(data));
    } else {
        assert(s + Seq::<u8>::empty() =~= s);
    }
    let added = brought(read);
    if state.decoder.expected is Some {
        assert forall|more: Seq<u8>|
            (s + added).len() + more.len()
                < state.decoder.expected->0 implies #[trigger] proto::frame::frame_result(
            s + added + more,
            state.decoder.max_non_data_frame_size,
        ) matches Err(FrameError::Incomplete(_)) by {
            assert(s + added + more =~= s + (added + more));
        }
    }
}

/// `result` is what is owed where decoding all that was received gives `d`, and
/// the stream is left as `end`, with `left` still buffered. Where there is no
/// whole frame, none is returned: the stream is over, was cut short, failed, or
/// has nothing yet. A payload is then to be handed on if the frame says so.
pub open spec fn owed<S>(
    d: Decoded,
    left: Seq<u8>,
    result: Poll<Result<Option<FrameView>, FrameStreamError>>,
    end: FrameStreamState<S>,
) -> bool {
    &&& end.recv.bytes() == left
    &&& end.remaining == match result {
        Poll::Ready(Ok(Some(FrameView::Data(len)))) => RemainingData::Sized(len),
        Poll::Ready(Ok(Some(FrameView::WebTransportStream(_)))) => RemainingData::UntilEnd,
        _ => RemainingData::Sized(0),
    }
    &&& match d.result {
        Ok(Some(frame)) => result == Poll::Ready(
            Ok::<Option<FrameView>, FrameStreamError>(Some(frame)),
        ),
        Err(e) => result == Poll::Ready(Err::<Option<FrameView>, _>(e)),
        Ok(None) => match result {
            Poll::Pending => true,
            Poll::Ready(Ok(frame)) => frame is None && left.len() == 0 && end.recv.eos,
            Poll::Ready(Err(FrameStreamError::UnexpectedEnd)) => left.len() > 0 && end.recv.eos,
            Poll::Ready(Err(FrameStreamError::Quic(_))) => true,
            Poll::Ready(Err(FrameStreamError::Proto(_))) => false,
        },
    }
}

/// `result` is what is owed for the first frame in `all`, and the stream is left
/// as `end`, in order, with just that frame, and the unknown ones before it, used
/// up.
pub open spec fn first_of_all<S>(
    max: usize,
    all: Seq<u8>,
    result: Poll<Result<Option<FrameView>, FrameStreamError>>,
    end: FrameStreamState<S>,
) -> bool {
    let d = frame::decoded(fresh(max), all);
    &&& in_order(end)
    &&& end.decoder.max_non_data_frame_size == max
    &&& owed(d, all.skip(d.used as int), result, end)
}

/// The bytes left of `left + more`, where `left` is what is left of `s`, are
/// those left of `s + more`.
proof fn lemma_left(s: Seq<u8>, more: Seq<u8>, used: nat, m: nat)
    requires
        used <= s.len(),
        m <= s.len() - used + more.len(),
    ensures
        (s + more).skip((used + m) as int) == (s.skip(used as int) + more).skip(m as int),
{
    assert((s + more).skip((used + m) as int) =~= (s.skip(used as int) + more).skip(m as int));
}

/// Where `s` holds no whole frame, the first frame of `s` and what comes after
/// it is the first one of what `s` leaves and what comes after it.
#[verifier::spinoff_prover]
#[verifier::rlimit(40)]
proof fn lemma_first_of_all_later<S>(
    max: usize,
    s: Seq<u8>,
    more: Seq<u8>,
    result: Poll<Result<Option<FrameView>, FrameStreamError>>,
    end: FrameStreamState<S>,
)
    requires
        frame::decoded(fresh(max), s).result == Ok::<Option<FrameView>, FrameStreamError>(None),
        first_of_all(
            max,
            s.skip(frame::decoded(fresh(max), s).used as int) + more,
            result,
            end,
        ),
    ensures
        first_of_all(max, s + more, result, end),
{
    let used = frame::decoded(fresh(max), s).used;
    let rest = s.skip(used as int) + more;
    decoded_in_parts(max, s, more);
    frame::lemma_decoded_used(fresh(max), s);
    frame::lemma_decoded_used(fresh(max), rest);
    lemma_left(s, more, used, frame::decoded(fresh(max), rest).used);
}

/// Looking for the next frame gives the first frame of all that is received,
/// however it was cut into chunks.
#[verifier::spinoff_prover]
#[verifier::rlimit(40)]
pub proof fn next_is_first_of_all<S: RecvStream>(
    state: FrameStreamState<S>,
    reads: Seq<Read<S>>,
)
    requires
        in_order(state),
        !state.remaining.any(),
        state.next_run(reads) is Some,
    ensures
        first_of_all(
            state.decoder.max_non_data_frame_size,
            state.recv.bytes() + arrived(reads),
            (state.next_run(reads)->0).0,
            (state.next_run(reads)->0).1,
        ),
    decreases reads.len(),
{
    let s = state.recv.bytes();
    let max = state.decoder.max_non_data_frame_size;
    let waiting = state.after_decode();
    let left = s.skip(state.decoded().used as int);
    let (result, end) = state.next_run(reads)->0;
    lemma_after_decode(state);
    waiting_misses_nothing(state.decoder, s);
    if reads.len() > 0 && (reads[0].answer matches Poll::Ready(Ok(Some(_)))) {
        let read = waiting.after_read(reads[0]);
        lemma_after_read(waiting, reads[0]);
        next_is_first_of_all(read, reads.skip(1));
        assert(left + arrived(reads) =~= read.recv.bytes() + arrived(reads.skip(1)));
        lemma_first_of_all_later(max, s, arrived(reads), result, end);
    } else {
        if reads.len() > 0 {
            lemma_after_read(waiting, reads[0]);
            assert(reads.skip(1) =~= Seq::<Read<S>>::empty());
            assert(end.recv.bytes() =~= left);
        }
        assert(arrived(reads) =~= Seq::<u8>::empty());
        assert(s + arrived(reads) =~= s);
    }
}

/// A frame that was written is received as it was written, in whatever chunks it
/// comes, and what follows it stays.
pub proof fn written_is_received<S: RecvStream>(
    state: FrameStreamState<S>,
    reads: Seq<Read<S>>,
    frame: FrameView,
    rest: Seq<u8>,
)
    requires
        in_order(state),
        !state.remaining.any(),
        state.next_run(reads) is Some,
        laws::transmissible(frame, state.decoder.max_non_data_frame_size),
        state.recv.bytes() + arrived(reads) == proto::frame::wire(frame) + rest,
    ensures
        (state.next_run(reads)->0).0 == Poll::Ready(
            Ok::<Option<FrameView>, FrameStreamError>(Some(frame)),
        ),
        (state.next_run(reads)->0).1.recv.bytes() == rest,
{
    let wire = proto::frame::wire(frame);
    written_is_decoded(frame, rest, state.decoder.max_non_data_frame_size);
    next_is_first_of_all(state, reads);
    assert((wire + rest).skip(wire.len() as int) =~= rest);
}

/// Where a frame had to be awaited, asking again gives the first frame of all
/// that was received by then: nothing gets lost in between.
pub proof fn awaiting_loses_nothing<S: RecvStream>(
    state: FrameStreamState<S>,
    reads: Seq<Read<S>>,
    later: Seq<Read<S>>,
)
    requires
        in_order(state),
        !state.remaining.any(),
        state.next_run(reads) is Some,
        (state.next_run(reads)->0).0 is Pending,
        (state.next_run(reads)->0).1.next_run(later) is Some,
    ensures
        ({
            let again = (state.next_run(reads)->0).1.next_run(later)->0;
            first_of_all(
                state.decoder.max_non_data_frame_size,
                state.recv.bytes() + arrived(reads) + arrived(later),
                again.0,
                again.1,
            )
        }),
{
    let awaiting = (state.next_run(reads)->0).1;
    let (result, end) = awaiting.next_run(later)->0;
    next_is_first_of_all(state, reads);
    next_is_first_of_all(awaiting, later);
    lemma_first_of_all_later(
        state.decoder.max_non_data_frame_size,
        state.recv.bytes() + arrived(reads),
        arrived(later),
        result,
        end,
    );
}

/// The transport is polled only while all that was received up to then holds no
/// whole frame.
#[verifier::spinoff_prover]
#[verifier::rlimit(40)]
pub proof fn read_only_when_needed<S: RecvStream>(
    state: FrameStreamState<S>,
    reads: Seq<Read<S>>,
    k: int,
)
    requires
        in_order(state),
        !state.remaining.any(),
        state.next_run(reads) is Some,
        0 <= k < reads.len(),
    ensures
        frame::decoded(
            fresh(state.decoder.max_non_data_frame_size),
            state.recv.bytes() + arrived(reads.take(k)),
        ).result == Ok::<Option<FrameView>, FrameStreamError>(None),
    decreases reads.len(),
{
    let s = state.recv.bytes();
    let max = state.decoder.max_non_data_frame_size;
    let waiting = state.after_decode();
    let used = state.decoded().used;
    lemma_after_decode(state);
    waiting_misses_nothing(state.decoder, s);
    if k == 0 {
        assert(reads.take(0) =~= Seq::<Read<S>>::empty());
        assert(s + arrived(reads.take(0)) =~= s);
    } else {
        let read = waiting.after_read(reads[0]);
        let left = s.skip(used as int);
        lemma_after_read(waiting, reads[0]);
        read_only_when_needed(read, reads.skip(1), k - 1);
        let part = reads.take(k);
        assert(part.skip(1) =~= reads.skip(1).take(k - 1));
        decoded_in_parts(max, s, arrived(part));
        assert(left + arrived(part) =~= read.recv.bytes() + arrived(part.skip(1)));
    }
}

/// While the next frame is awaited, less than 16 bytes more than the limit on
/// payloads are kept buffered.
pub proof fn awaiting_is_bounded<S: RecvStream>(state: FrameStreamState<S>, reads: Seq<Read<S>>)
    requires
        in_order(state),
        !state.remaining.any(),
        state.next_run(reads) is Some,
        (state.next_run(reads)->0).0 is Pending,
    ensures
        (state.next_run(reads)->0).1.recv.bytes().len() < 16
            + state.decoder.max_non_data_frame_size,
{
    let max = state.decoder.max_non_data_frame_size;
    let all = state.recv.bytes() + arrived(reads);
    next_is_first_of_all(state, reads);
    undecoded_is_bounded(fresh(max), all);
    frame::lemma_decoded_used(fresh(max), all);
}

/// A piece that is handed on is the front of what is buffered, is not empty, and
/// is no longer than what is left of the payload, which is so much less then.
pub proof fn piece_is_front<S: RecvStream>(state: FrameStreamState<S>, end: bool)
    requires
        buf::chunks_wf(state.recv.chunks),
        state.remaining.any(),
    ensures
        ({
            let (result, after) = state.data_step(end);
            &&& after.decoder == state.decoder
            &&& buf::chunks_wf(after.recv.chunks)
            &&& result matches Poll::Ready(Ok(Some(piece))) ==> {
                &&& piece.len() > 0
                &&& piece + after.recv.bytes() == state.recv.bytes()
                &&& piece.len() <= state.remaining.limit()
                &&& after.remaining == state.remaining.after(piece.len())
            }
        }),
{
    let chunks = state.recv.chunks;
    if chunks.len() > 0 {
        let piece = buf::front_chunk(chunks, state.remaining.limit() as nat);
        assert(chunks.flatten() == chunks[0] + chunks.drop_first().flatten());
        buf::lemma_chunks_skip(chunks, piece.len());
        assert(piece + chunks.flatten().skip(piece.len() as int) =~= chunks.flatten());
    }
}

/// A payload of a known length is cut short where the stream ends, one chunk is
/// buffered, and that is less than what is left of the payload. Nothing else is
/// taken for a payload that was cut short, and one that lasts until the end
/// never is.
pub proof fn cut_short_iff<S: RecvStream>(state: FrameStreamState<S>, end: bool)
    requires
        buf::chunks_wf(state.recv.chunks),
    ensures
        state.data_step(end).0 == Poll::Ready(
            Err::<Option<Seq<u8>>, _>(FrameStreamError::UnexpectedEnd),
        ) <==> {
            &&& end
            &&& state.recv.chunks.len() == 1
            &&& state.remaining matches RemainingData::Sized(n)
            &&& state.recv.bytes().len() < n
        },
{
    let chunks = state.recv.chunks;
    reveal_with_fuel(buf::chunks_skip, 2);
    if chunks.len() > 0 {
        let tail = chunks.drop_first();
        assert(chunks.flatten() == chunks[0] + tail.flatten());
        if chunks.len() == 1 {
            assert(tail =~= Seq::<Seq<u8>>::empty());
            assert(tail.flatten() =~= Seq::<u8>::empty());
        }
    }
}

/// What one request for a piece of the payload gives and leaves. The transport
/// is polled, with the outcome `read`, unless its end was reached.
pub open spec fn asked<S: RecvStream>(state: FrameStreamState<S>, read: Read<S>) -> (
    Poll<Result<Option<Seq<u8>>, FrameStreamError>>,
    FrameStreamState<S>,
) {
    if !state.remaining.any() {
        (Poll::Ready(Ok(None)), state)
    } else if state.recv.eos {
        state.data_step(true)
    } else {
        state.data_run(read)
    }
}

/// What requests for the payload, one after the other, hand on together, what
/// the transport delivers meanwhile, and how they leave the stream. `None` if
/// one of them fails.
pub open spec fn handed_on<S: RecvStream>(
    state: FrameStreamState<S>,
    reads: Seq<Read<S>>,
) -> Option<(Seq<u8>, Seq<u8>, FrameStreamState<S>)>
    decreases reads.len(),
{
    if reads.len() == 0 {
        Some((Seq::empty(), Seq::empty(), state))
    } else {
        let (result, after) = asked(state, reads[0]);
        let delivered = if state.remaining.any() && !state.recv.eos {
            brought(reads[0])
        } else {
            Seq::empty()
        };
        match (result, handed_on(after, reads.skip(1))) {
            (Poll::Ready(Err(_)), _) => None,
            (_, None) => None,
            (Poll::Ready(Ok(Some(piece))), Some((pieces, more, end))) => Some(
                (piece + pieces, delivered + more, end),
            ),
            (_, Some((pieces, more, end))) => Some((pieces, delivered + more, end)),
        }
    }
}

/// Chunks that are delivered are not empty, and all of them can be counted.
pub open spec fn deliverable<S: RecvStream>(
    state: FrameStreamState<S>,
    reads: Seq<Read<S>>,
) -> bool {
    &&& buf::chunks_wf(state.recv.chunks)
    &&& forall|i: int|
        0 <= i < reads.len() ==> ((#[trigger] reads[i]).answer matches Poll::Ready(Ok(Some(data)))
            ==> chunk::content(data).len() > 0)
    &&& state.recv.bytes().len() + arrived(reads).len() <= usize::MAX
}

/// One request for a piece neither loses a byte nor makes one up, and takes from
/// the payload what it hands on.
proof fn lemma_asked<S: RecvStream>(state: FrameStreamState<S>, read: Read<S>)
    requires
        buf::chunks_wf(state.recv.chunks),
        read.answer matches Poll::Ready(Ok(Some(data))) ==> chunk::content(data).len() > 0,
        state.recv.bytes().len() + brought(read).len() <= usize::MAX,
    ensures
        ({
            let (result, after) = asked(state, read);
            let delivered = if state.remaining.any() && !state.recv.eos {
                brought(read)
            } else {
                Seq::empty()
            };
            &&& buf::chunks_wf(after.recv.chunks)
            &&& after.decoder == state.decoder
            &&& match result {
                Poll::Ready(Err(_)) => true,
                Poll::Ready(Ok(Some(piece))) => {
                    &&& piece + after.recv.bytes() == state.recv.bytes() + delivered
                    &&& piece.len() <= state.remaining.limit()
                    &&& after.remaining == state.remaining.after(piece.len())
                },
                _ => {
                    &&& after.recv.bytes() == state.recv.bytes() + delivered
                    &&& after.remaining == state.remaining
                },
            }
        }),
{
    let s = state.recv.bytes();
    assert(s + Seq::<u8>::empty() =~= s);
    if state.remaining.any() {
        if state.recv.eos {
            piece_is_front(state, true);
        } else {
            let after = state.after_read(read);
            if let Poll::Ready(Ok(Some(data))) = read.answer {
                state.recv.chunks.lemma_flatten_push(chunk::content(data));
            }
            piece_is_front(after, read.answer matches Poll::Ready(Ok(None)));
        }
    }
}

/// The payload is handed on whole and in order: what the requests for it hand
/// on, followed by what they leave buffered, is what was buffered, followed by
/// what was delivered. Of a payload of a known length no more is handed on than
/// that, and what is then left of it is the difference.
pub proof fn payload_is_handed_on<S: RecvStream>(state: FrameStreamState<S>, reads: Seq<Read<S>>)
    requires
        deliverable(state, reads),
    ensures
        handed_on(state, reads) matches Some((pieces, delivered, end)) ==> {
            &&& pieces + end.recv.bytes() == state.recv.bytes() + delivered
            &&& end.decoder == state.decoder
            &&& match state.remaining {
                RemainingData::Sized(n) => pieces.len() <= n && end.remaining
                    == RemainingData::Sized((n - pieces.len()) as usize),
                RemainingData::UntilEnd => end.remaining == RemainingData::UntilEnd,
            }
        },
    decreases reads.len(),
{
    let s = state.recv.bytes();
    if reads.len() == 0 {
        assert(Seq::<u8>::empty() + s =~= s + Seq::<u8>::empty());
    } else {
        let rest = reads.skip(1);
        let (result, after) = asked(state, reads[0]);
        let delivered = if state.remaining.any() && !state.recv.eos {
            brought(reads[0])
        } else {
            Seq::empty()
        };
        lemma_asked(state, reads[0]);
        if handed_on(state, reads) is Some {
            assert forall|i: int| 0 <= i < rest.len() implies ((
            #[trigger] rest[i]).answer matches Poll::Ready(Ok(Some(data))) ==> chunk::content(
                data,
            ).len() > 0) by {
                assert(rest[i] == reads[i + 1]);
            }
            if let Poll::Ready(Ok(Some(piece))) = result {
                assert((piece + after.recv.bytes()).len() == (s + delivered).len());
            }
            payload_is_handed_on(after, rest);
            let (pieces, more, end) = handed_on(after, rest)->0;
            if let Poll::Ready(Ok(Some(piece))) = result {
                assert(piece + pieces + end.recv.bytes() =~= piece + (pieces
                    + end.recv.bytes()));
                assert(piece + (after.recv.bytes() + more) =~= (piece + after.recv.bytes()) + more);
                assert((s + delivered) + more =~= s + (delivered + more));
            } else {
                assert(after.recv.bytes() + more =~= s + (delivered + more));
            }
        }
    }
}

/// A payload of a known length that was handed on to its end is that many bytes
/// off the front of what was buffered and delivered, and what follows them is
/// where the next frame is looked for.
pub proof fn payload_is_whole<S: RecvStream>(state: FrameStreamState<S>, reads: Seq<Read<S>>)
    requires
        deliverable(state, reads),
        state.remaining is Sized,
        handed_on(state, reads) is Some,
        !(handed_on(state, reads)->0).2.remaining.any(),
    ensures
        ({
            let (pieces, delivered, end) = handed_on(state, reads)->0;
            let all = state.recv.bytes() + delivered;
            let n = state.remaining->Sized_0;
            &&& n <= all.len()
            &&& pieces == all.take(n as int)
            &&& end.recv.bytes() == all.skip(n as int)
            &&& in_order(state) && state.remaining.any() ==> in_order(end)
        }),
{
    let (pieces, delivered, end) = handed_on(state, reads)->0;
    let all = state.recv.bytes() + delivered;
    payload_is_handed_on(state, reads);
    assert(pieces + end.recv.bytes() == all);
    assert(pieces =~= all.take(pieces.len() as int));
    assert(end.recv.bytes() =~= all.skip(pieces.len() as int));
}

/// A payload that lasts until the end of the stream is never taken for cut short:
/// asking for it fails only where the transport does, and says that nothing is
/// left only at the end of the stream, with nothing buffered.
pub proof fn until_end_is_all<S: RecvStream>(state: FrameStreamState<S>, read: Read<S>)
    requires
        state.remaining == RemainingData::UntilEnd,
    ensures
        ({
            let (result, after) = asked(state, read);
            &&& after.remaining == RemainingData::UntilEnd
            &&& match result {
                Poll::Ready(Ok(None)) => after.recv.eos && after.recv.bytes().len() == 0,
                Poll::Ready(Err(e)) => {
                    &&& !state.recv.eos
                    &&& read.answer matches Poll::Ready(Err(cause))
                    &&& e == FrameStreamError::Quic(cause)
                },
                _ => true,
            }
        }),
{
    let after = if state.recv.eos {
        state
    } else {
        state.after_read(read)
    };
    if after.recv.chunks.len() == 0 {
        assert(after.recv.chunks =~= Seq::<Seq<u8>>::empty());
        assert(after.recv.bytes() =~= Seq::<u8>::empty());
    }
}

/// Two streams that are the same, and in order, but for the number of bytes that
/// their decoders wait for.
pub open spec fn alike<S>(one: FrameStreamState<S>, other: FrameStreamState<S>) -> bool {
    &&& in_order(one)
    &&& in_order(other)
    &&& one.recv == other.recv
    &&& one.remaining == other.remaining
    &&& one.decoder.max_non_data_frame_size == other.decoder.max_non_data_frame_size
}

/// What is buffered is decoded alike on streams that are alike.
proof fn lemma_alike_decode<S: RecvStream>(one: FrameStreamState<S>, other: FrameStreamState<S>)
    requires
        alike(one, other),
        !one.remaining.any(),
    ensures
        one.decoded().result == other.decoded().result,
        alike(one.after_decode(), other.after_decode()),
{
    waiting_misses_nothing(one.decoder, one.recv.bytes());
    waiting_misses_nothing(other.decoder, other.recv.bytes());
    lemma_after_decode(one);
    lemma_after_decode(other);
}

/// Streams that are alike give the same next frame, where the transport answers
/// the same, and are alike again after it.
pub proof fn alike_next<S: RecvStream>(
    one: FrameStreamState<S>,
    other: FrameStreamState<S>,
    reads: Seq<Read<S>>,
)
    requires
        alike(one, other),
        !one.remaining.any(),
    ensures
        match (one.next_run(reads), other.next_run(reads)) {
            (Some((result, end)), Some((other_result, other_end))) => {
                &&& result == other_result
                &&& alike(end, other_end)
            },
            (None, None) => true,
            _ => false,
        },
    decreases reads.len(),
{
    let waiting = one.after_decode();
    let other_waiting = other.after_decode();
    lemma_alike_decode(one, other);
    if reads.len() > 0 {
        lemma_after_read(waiting, reads[0]);
        lemma_after_read(other_waiting, reads[0]);
        let read = waiting.after_read(reads[0]);
        let other_read = other_waiting.after_read(reads[0]);
        assert(alike(read, other_read));
        if one.decoded().result == Ok::<Option<FrameView>, FrameStreamError>(None) {
            lemma_after_decode(one);
            alike_next(read, other_read, reads.skip(1));
        }
    }
}

/// Streams that are alike hand on the same piece of the payload, where the
/// transport answers the same, and are alike again after it.
pub proof fn alike_data<S: RecvStream>(
    one: FrameStreamState<S>,
    other: FrameStreamState<S>,
    read: Read<S>,
)
    requires
        alike(one, other),
    ensures
        asked(one, read).0 == asked(other, read).0,
        alike(asked(one, read).1, asked(other, read).1),
{
    if one.remaining.any() && !one.recv.eos {
        lemma_after_read(one, read);
        lemma_after_read(other, read);
    }
}

/// A stream that is taken apart between two frames and made anew, under the
/// limit it had, goes on as it would have. It is alike the one it was: it gives
/// the same next frame, is alike again after it, and so on with every frame
/// (`alike_next`) and every piece of a payload (`alike_data`).
pub proof fn made_anew_goes_on<S: RecvStream>(
    state: FrameStreamState<S>,
    anew: FrameStreamState<S>,
    reads: Seq<Read<S>>,
)
    requires
        in_order(state),
        !state.remaining.any(),
        state.decoder.max_non_data_frame_size == anew.decoder.max_non_data_frame_size,
        anew.recv == state.recv,
        anew.decoder.expected is None,
        anew.remaining == RemainingData::Sized(0),
    ensures
        alike(state, anew),
        match (state.next_run(reads), anew.next_run(reads)) {
            (Some((result, end)), Some((anew_result, anew_end))) => {
                &&& result == anew_result
                &&& alike(end, anew_end)
            },
            (None, None) => true,
            _ => false,
        },
{
    in_order_at_first(anew);
    alike_next(state, anew, reads);
}

/// Once the end of the stream was reached, the transport is never polled again:
/// neither looking for a frame nor asking for a piece of the payload reads
/// anything, and the end stays reached.
pub proof fn end_is_final<S: RecvStream>(
    state: FrameStreamState<S>,
    reads: Seq<Read<S>>,
    read: Read<S>,
)
    requires
        state.recv.eos,
    ensures
        state.next_run(reads) is Some <==> reads.len() == 0,
        state.next_run(reads) matches Some((_, end)) ==> end.recv.eos && end.recv.transport
            == state.recv.transport,
        asked(state, read).1.recv.eos,
        asked(state, read).1.recv.transport == state.recv.transport,
{
}

} // verus!

//! Frames out of a stream of chunks.
use crate::buf;
use crate::buf::BufList;
use crate::chunk;
use crate::config::DEFAULT_MAX_NON_DATA_FRAME_SIZE;
use crate::error::Code;
use crate::proto::frame;
use crate::proto::frame::{Frame, FrameError, FrameView, PayloadLen};
use crate::proto::push::InvalidPushId;
use crate::proto::settings::SettingsError;
use crate::quic::{
    BidiStream, InvalidStreamId, Is0rtt, ReadAnswer, RecvStream, SendStream, StreamErrorIncoming,
    StreamId, Unread, WriteAnswer,
};
use crate::stream;
use crate::stream::{BufRecvStream, RecvState, WriteBuf};
use bytes::Bytes;
use std::task::{Context, Poll};
use vstd::prelude::*;

verus! {

/// Errors that can occur while decoding frames
#[derive(Debug)]
pub enum FrameStreamError {
    Proto(FrameProtocolError),
    Quic(StreamErrorIncoming),
    UnexpectedEnd,
}

/// Protocol specific errors that can occur while decoding frames in a stream
#[derive(Clone, Copy, Debug, PartialEq, Eq, Structural)]
pub enum FrameProtocolError {
    TooLarge { length: u64, max: usize },
    Malformed,
    /// Known (http2) frames that should generate an error
    ForbiddenFrame(u64),
    InvalidFrameValue,
    Settings(SettingsError),
    InvalidStreamId(InvalidStreamId),
    InvalidPushId(InvalidPushId),
}

/// Cuts frames off the front of what is buffered.
#[derive(Clone, Copy, Debug, PartialEq, Eq, Structural)]
pub struct FrameDecoder {
    /// Fewer bytes than these cannot hold the next frame.
    pub expected: Option<usize>,
    pub max_non_data_frame_size: usize,
}

/// What decoding gives: what is returned, how many bytes are used up, and how
/// many are awaited.
pub struct Decoded {
    pub result: Result<Option<FrameView>, FrameStreamError>,
    pub used: nat,
    pub expected: Option<usize>,
}

/// The error that a frame is refused with. One that is incomplete is awaited and
/// one that is unknown passed over: neither is refused.
pub open spec fn refusal(e: FrameError) -> Option<FrameProtocolError> {
    match e {
        FrameError::UnknownFrame(_) => None,
        FrameError::Incomplete(_) => None,
        FrameError::TooLarge { length, max } => Some(FrameProtocolError::TooLarge { length, max }),
        FrameError::InvalidStreamId(e) => Some(FrameProtocolError::InvalidStreamId(e)),
        FrameError::InvalidPushId(e) => Some(FrameProtocolError::InvalidPushId(e)),
        FrameError::Settings(e) => Some(FrameProtocolError::Settings(e)),
        FrameError::UnsupportedFrame(ty) => Some(FrameProtocolError::ForbiddenFrame(ty)),
        FrameError::InvalidFrameValue => Some(FrameProtocolError::InvalidFrameValue),
        FrameError::Malformed => Some(FrameProtocolError::Malformed),
    }
}

/// The number of bytes of the whole unknown frames at the front of `s`.
pub open spec fn unknown_len(s: Seq<u8>, max: usize) -> nat
    decreases s.len(),
{
    let n = frame::frame_len(s);
    if frame::frame_result(s, max) matches Err(FrameError::UnknownFrame(_)) && 0 < n <= s.len() {
        n + unknown_len(s.skip(n as int), max)
    } else {
        0
    }
}

/// Is `s` too short to be looked at?
pub open spec fn too_short(expected: Option<usize>, s: Seq<u8>) -> bool {
    s.len() == 0 || (expected matches Some(min) && s.len() < min)
}

/// What decoding gives on the bytes `s`: unknown frames are used up, then the
/// next frame is returned and used up, or awaited, or refused.
pub open spec fn decoded(decoder: FrameDecoder, s: Seq<u8>) -> Decoded {
    let max = decoder.max_non_data_frame_size;
    let skipped = unknown_len(s, max);
    let next = s.skip(skipped as int);
    let expected = if skipped > 0 {
        None
    } else {
        decoder.expected
    };
    if too_short(decoder.expected, s) {
        Decoded { result: Ok(None), used: 0, expected: decoder.expected }
    } else if next.len() == 0 {
        Decoded { result: Ok(None), used: skipped, expected: None }
    } else {
        match frame::frame_result(next, max) {
            Ok(frame) => Decoded {
                result: Ok(Some(frame)),
                used: skipped + frame::frame_len(next),
                expected: None,
            },
            Err(FrameError::Incomplete(min)) => Decoded {
                result: Ok(None),
                used: skipped,
                expected: Some(min),
            },
            Err(e) => Decoded {
                result: Err(FrameStreamError::Proto(refusal(e)->0)),
                used: skipped,
                expected,
            },
        }
    }
}

/// A frame that is unknown or returned is all there, and takes at least a byte.
pub proof fn lemma_frame_len(s: Seq<u8>, max: usize)
    ensures
        match frame::frame_result(s, max) {
            Ok(_) | Err(FrameError::UnknownFrame(_)) => 0 < frame::frame_len(s) <= s.len(),
            _ => true,
        },
{
}

/// The unknown frames at the front of `s` are all there.
pub proof fn lemma_unknown_len(s: Seq<u8>, max: usize)
    ensures
        unknown_len(s, max) <= s.len(),
        !(frame::frame_result(s.skip(unknown_len(s, max) as int), max) matches Err(
            FrameError::UnknownFrame(_),
        )),
    decreases s.len(),
{
    lemma_frame_len(s, max);
    let n = frame::frame_len(s);
    if frame::frame_result(s, max) matches Err(FrameError::UnknownFrame(_)) {
        let rest = s.skip(n as int);
        lemma_unknown_len(rest, max);
        let m = unknown_len(rest, max);
        assert(rest.skip(m as int) =~= s.skip((n + m) as int));
    } else {
        assert(s.skip(0) =~= s);
    }
}

/// Decoding uses up no more than is there.
pub proof fn lemma_decoded_used(decoder: FrameDecoder, s: Seq<u8>)
    ensures
        decoded(decoder, s).used <= s.len(),
{
    let max = decoder.max_non_data_frame_size;
    lemma_unknown_len(s, max);
    lemma_frame_len(s.skip(unknown_len(s, max) as int), max);
}

impl FrameDecoder {
    /// The result that a decode has to have, and what it has to leave.
    pub open spec fn decodes(
        before: FrameDecoder,
        chunks_before: Seq<Seq<u8>>,
        result: Result<Option<Frame<PayloadLen>>, FrameStreamError>,
        after: FrameDecoder,
        chunks_after: Seq<Seq<u8>>,
    ) -> bool {
        let d = decoded(before, chunks_before.flatten());
        &&& match result {
            Ok(Some(frame)) => d.result == Ok::<_, FrameStreamError>(Some(frame.view())),
            Ok(None) => d.result == Ok::<Option<FrameView>, FrameStreamError>(None),
            Err(e) => d.result == Err::<Option<FrameView>, _>(e),
        }
        &&& after.expected == d.expected
        &&& after.max_non_data_frame_size == before.max_non_data_frame_size
        &&& chunks_after == buf::chunks_skip(chunks_before, d.used)
    }

    #[verifier::spinoff_prover]
    #[verifier::rlimit(60)]
    pub fn decode(&mut self, src: &mut BufList) -> (result: Result<
        Option<Frame<PayloadLen>>,
        FrameStreamError,
    >)
        requires
            old(src).wf(),
        ensures
            final(src).wf(),
            Self::decodes(*old(self), old(src)@, result, *final(self), final(src)@),
            final(src).bytes() == old(src).bytes().skip(
                decoded(*old(self), old(src).bytes()).used as int,
            ),
            final(src)@ == buf::chunks_skip(
                old(src)@,
                decoded(*old(self), old(src)@.flatten()).used,
            ),
            final(self).expected == decoded(*old(self), old(src)@.flatten()).expected,
            final(self).max_non_data_frame_size == old(self).max_non_data_frame_size,
            match decoded(*old(self), old(src)@.flatten()).result {
                Err(e) => result == Err::<Option<Frame<PayloadLen>>, _>(e),
                Ok(None) => result matches Ok(None),
                Ok(Some(FrameView::Data(len))) => result == Ok::<_, FrameStreamError>(
                    Some(Frame::Data(PayloadLen(len))),
                ),
                Ok(Some(FrameView::Headers(section))) => {
                    &&& result matches Ok(Some(Frame::Headers(held)))
                    &&& chunk::content(held) == section
                },
                Ok(Some(FrameView::CancelPush(id))) => {
                    &&& result matches Ok(Some(Frame::CancelPush(held)))
                    &&& held.0@ == id
                },
                Ok(Some(FrameView::Settings(entries))) => {
                    &&& result matches Ok(Some(Frame::Settings(held)))
                    &&& held.entries@.len() == entries.len()
                    &&& forall|i: int|
                        0 <= i < entries.len() ==> (#[trigger] held.entries@[i]).0@ == entries[i].0
                            && held.entries@[i].1@ == entries[i].1
                },
                Ok(Some(FrameView::PushPromise(id, section))) => {
                    &&& result matches Ok(Some(Frame::PushPromise(held)))
                    &&& held.id.0@ == id
                    &&& chunk::content(held.encoded) == section
                },
                Ok(Some(FrameView::Goaway(id))) => {
                    &&& result matches Ok(Some(Frame::Goaway(held)))
                    &&& held@ == id
                },
                Ok(Some(FrameView::MaxPushId(id))) => {
                    &&& result matches Ok(Some(Frame::MaxPushId(held)))
                    &&& held.0@ == id
                },
                Ok(Some(FrameView::WebTransportStream(id))) => {
                    &&& result matches Ok(Some(Frame::WebTransportStream(held)))
                    &&& held.0@ == id
                },
            },
    {
        let ghost s = src.bytes();
        let ghost max = self.max_non_data_frame_size;
        let ghost mut passed: nat = 0;
        proof {
            lemma_unknown_len(s, max);
            assert(s.skip(0) =~= s);
        }
        loop
            invariant
                self.max_non_data_frame_size == max == old(self).max_non_data_frame_size,
                s == old(src).bytes(),
                old(src).wf(),
                src.wf(),
                passed <= s.len(),
                src@ == buf::chunks_skip(old(src)@, passed),
                src.bytes() == s.skip(passed as int),
                unknown_len(s, max) == passed + unknown_len(src.bytes(), max),
                unknown_len(s, max) <= s.len(),
                if passed == 0 {
                    *self == *old(self)
                } else {
                    self.expected is None && !too_short(old(self).expected, s)
                },
            decreases s.len() - passed,
        {
            let ghost here = src.bytes();
            proof {
                lemma_unknown_len(here, max);
                lemma_frame_len(here, max);
            }
            if !src.has_remaining() {
                return Ok(None);
            }
            if let Some(min) = self.expected {
                if src.remaining() < min {
                    return Ok(None);
                }
            }
            let mut cur = src.cursor();
            let decoded = Frame::decode_with_limit(&mut cur, self.max_non_data_frame_size);
            let pos: usize = cur.position();
            match decoded {
                Ok(frame) => {
                    proof {
                        buf::lemma_chunks_skip_twice(old(src)@, passed, pos as nat);
                    }
                    src.advance(pos);
                    self.expected = None;
                    return Ok(Some(frame));
                },
                Err(FrameError::UnknownFrame(_ty)) => {
                    // Frames of unknown types may stand anywhere, and have no
                    // meaning.
                    proof {
                        buf::lemma_chunks_skip_twice(old(src)@, passed, pos as nat);
                        assert(here.skip(pos as int) =~= s.skip((passed + pos) as int));
                        passed = passed + pos as nat;
                    }
                    src.advance(pos);
                    self.expected = None;
                },
                Err(FrameError::Incomplete(min)) => {
                    self.expected = Some(min);
                    return Ok(None);
                },
                Err(e) => {
                    match Self::refused(e) {
                        Some(e) => {
                            return Err(FrameStreamError::Proto(e));
                        },
                        None => {},
                    }
                },
            }
        }
    }

    /// The error that a frame is refused with, if it is.
    pub fn refused(e: FrameError) -> (refused: Option<FrameProtocolError>)
        ensures
            refused == refusal(e),
            match e {
                FrameError::UnknownFrame(_) | FrameError::Incomplete(_) => refused is None,
                FrameError::TooLarge { length, max } => refused == Some(
                    FrameProtocolError::TooLarge { length, max },
                ),
                FrameError::InvalidStreamId(e) => refused == Some(
                    FrameProtocolError::InvalidStreamId(e),
                ),
                FrameError::InvalidPushId(e) => refused == Some(
                    FrameProtocolError::InvalidPushId(e),
                ),
                FrameError::Settings(e) => refused == Some(FrameProtocolError::Settings(e)),
                FrameError::UnsupportedFrame(ty) => refused == Some(
                    FrameProtocolError::ForbiddenFrame(ty),
                ),
                FrameError::InvalidFrameValue => refused == Some(
                    FrameProtocolError::InvalidFrameValue,
                ),
                FrameError::Malformed => refused == Some(FrameProtocolError::Malformed),
            },
    {
        match e {
            FrameError::UnknownFrame(_) => None,
            FrameError::Incomplete(_) => None,
            FrameError::TooLarge { length, max } => Some(
                FrameProtocolError::TooLarge { length, max },
            ),
            FrameError::InvalidStreamId(e) => Some(FrameProtocolError::InvalidStreamId(e)),
            FrameError::InvalidPushId(e) => Some(FrameProtocolError::InvalidPushId(e)),
            FrameError::Settings(e) => Some(FrameProtocolError::Settings(e)),
            FrameError::UnsupportedFrame(ty) => Some(FrameProtocolError::ForbiddenFrame(ty)),
            FrameError::InvalidFrameValue => Some(FrameProtocolError::InvalidFrameValue),
            FrameError::Malformed => Some(FrameProtocolError::Malformed),
        }
    }
}

impl Default for FrameDecoder {
    fn default() -> (decoder: Self)
        ensures
            decoder.expected is None,
            decoder.max_non_data_frame_size == DEFAULT_MAX_NON_DATA_FRAME_SIZE,
            decoder.max_non_data_frame_size == 64 * 1024,
    {
        FrameDecoder {
            expected: None,
            max_non_data_frame_size: DEFAULT_MAX_NON_DATA_FRAME_SIZE,
        }
    }
}

/// What is left of a payload that is handed on as it arrives.
#[derive(Clone, Copy, Debug, PartialEq, Eq, Structural)]
pub enum RemainingData {
    /// So many bytes.
    Sized(usize),
    /// All that comes before the end of the stream.
    UntilEnd,
}

impl RemainingData {
    /// Is anything left?
    pub open spec fn any(self) -> bool {
        self != RemainingData::Sized(0)
    }

    /// The number of bytes that may be handed on now.
    pub open spec fn limit(self) -> usize {
        match self {
            RemainingData::Sized(n) => n,
            RemainingData::UntilEnd => usize::MAX,
        }
    }

    /// What is left after `n` more bytes.
    pub open spec fn after(self, n: nat) -> RemainingData {
        match self {
            RemainingData::Sized(m) => RemainingData::Sized((m - n) as usize),
            RemainingData::UntilEnd => RemainingData::UntilEnd,
        }
    }
}

/// Decodes Frames from the underlying QUIC stream
#[derive(Debug)]
pub struct FrameStream<S, B> {
    pub stream: BufRecvStream<S, B>,
    decoder: FrameDecoder,
    remaining_data: RemainingData,
}

/// What a `FrameStream` is made of.
pub struct FrameStreamState<S> {
    pub recv: RecvState<S>,
    pub decoder: FrameDecoder,
    pub remaining: RemainingData,
}

/// A poll of the transport: what it answered, and how it was left.
pub struct Read<S> {
    pub answer: ReadAnswer,
    pub transport: S,
}

/// Are `reads` polls of the transport, one after the other, starting with it as
/// `from`?
pub open spec fn reads_valid<S: RecvStream>(from: S, reads: Seq<Read<S>>) -> bool {
    forall|i: int|
        0 <= i < reads.len() ==> S::delivers(
            transport_after(from, reads.take(i)),
            (#[trigger] reads[i]).answer,
            reads[i].transport,
        )
}

/// The transport after `reads`.
pub open spec fn transport_after<S>(from: S, reads: Seq<Read<S>>) -> S {
    if reads.len() == 0 {
        from
    } else {
        reads.last().transport
    }
}

/// What `poll_next` returns, as plain values.
pub open spec fn next_view(
    result: Poll<Result<Option<Frame<PayloadLen>>, FrameStreamError>>,
) -> Poll<Result<Option<FrameView>, FrameStreamError>> {
    match result {
        Poll::Pending => Poll::Pending,
        Poll::Ready(Ok(Some(frame))) => Poll::Ready(Ok(Some(frame.view()))),
        Poll::Ready(Ok(None)) => Poll::Ready(Ok(None)),
        Poll::Ready(Err(e)) => Poll::Ready(Err(e)),
    }
}

/// What `poll_data` returns, as plain values.
pub open spec fn data_view(result: Poll<Result<Option<Bytes>, FrameStreamError>>) -> Poll<
    Result<Option<Seq<u8>>, FrameStreamError>,
> {
    match result {
        Poll::Pending => Poll::Pending,
        Poll::Ready(Ok(Some(data))) => Poll::Ready(Ok(Some(chunk::content(data)))),
        Poll::Ready(Ok(None)) => Poll::Ready(Ok(None)),
        Poll::Ready(Err(e)) => Poll::Ready(Err(e)),
    }
}

/// What `try_recv` says of what the transport answered.
pub open spec fn recv_result(answer: ReadAnswer) -> Poll<Result<bool, FrameStreamError>> {
    match answer {
        Poll::Ready(Ok(Some(_))) => Poll::Ready(Ok(false)),
        Poll::Ready(Ok(None)) => Poll::Ready(Ok(true)),
        Poll::Ready(Err(e)) => Poll::Ready(Err(FrameStreamError::Quic(e))),
        Poll::Pending => Poll::Pending,
    }
}

impl<S> FrameStreamState<S> {
    /// What decoding gives on what is buffered.
    pub open spec fn decoded(self) -> Decoded {
        decoded(self.decoder, self.recv.bytes())
    }

    /// What decoding leaves.
    pub open spec fn after_decode(self) -> FrameStreamState<S> {
        let d = self.decoded();
        FrameStreamState {
            recv: RecvState { chunks: buf::chunks_skip(self.recv.chunks, d.used), ..self.recv },
            decoder: FrameDecoder { expected: d.expected, ..self.decoder },
            remaining: match d.result {
                Ok(Some(FrameView::Data(len))) => RemainingData::Sized(len),
                Ok(Some(FrameView::WebTransportStream(_))) => RemainingData::UntilEnd,
                _ => self.remaining,
            },
        }
    }

    /// What the end of the stream means: a frame was cut short, or there is
    /// none any more.
    pub open spec fn at_end(self) -> Result<Option<FrameView>, FrameStreamError> {
        if self.recv.bytes().len() > 0 {
            Err(FrameStreamError::UnexpectedEnd)
        } else {
            Ok(None)
        }
    }

    /// What handing on a piece of the payload gives and leaves, where `end` says
    /// that nothing more will come: the first chunk, as far as it belongs to the
    /// payload. It is an error if the stream ends with it and the payload does
    /// not.
    pub open spec fn data_step(self, end: bool) -> (
        Poll<Result<Option<Seq<u8>>, FrameStreamError>>,
        FrameStreamState<S>,
    ) {
        let chunks = self.recv.chunks;
        let piece = buf::front_chunk(chunks, self.remaining.limit() as nat);
        let left = buf::chunks_skip(chunks, piece.len());
        let taken = FrameStreamState { recv: RecvState { chunks: left, ..self.recv }, ..self };
        if chunks.len() == 0 {
            if end {
                (Poll::Ready(Ok(None)), self)
            } else {
                (Poll::Pending, self)
            }
        } else if end && left.len() == 0 && (self.remaining matches RemainingData::Sized(n)
            && piece.len() < n) {
            (Poll::Ready(Err(FrameStreamError::UnexpectedEnd)), taken)
        } else {
            (
                Poll::Ready(Ok(Some(piece))),
                FrameStreamState { remaining: self.remaining.after(piece.len()), ..taken },
            )
        }
    }
}

impl<S> FrameStreamState<S> {
    /// The same but for the transport.
    pub open spec fn with_transport(self, transport: S) -> FrameStreamState<S> {
        FrameStreamState { recv: RecvState { transport, ..self.recv }, ..self }
    }
}

impl<S: Unread> FrameStreamState<S> {
    pub open spec fn wf(self) -> bool {
        self.recv.wf()
    }
}

impl<S: RecvStream> FrameStreamState<S> {
    pub open spec fn after_read(self, read: Read<S>) -> FrameStreamState<S> {
        FrameStreamState { recv: self.recv.after_read(read.answer, read.transport), ..self }
    }

    /// What asking for a piece of the payload gives and leaves, where the
    /// transport is polled with that outcome.
    pub open spec fn data_run(self, read: Read<S>) -> (
        Poll<Result<Option<Seq<u8>>, FrameStreamError>>,
        FrameStreamState<S>,
    ) {
        let after = self.after_read(read);
        match read.answer {
            Poll::Ready(Err(e)) => (Poll::Ready(Err(FrameStreamError::Quic(e))), after),
            Poll::Ready(Ok(None)) => after.data_step(true),
            _ => after.data_step(false),
        }
    }

    /// What looking for the next frame gives and leaves, where the transport
    /// answers as in `reads`. The transport is polled only while what is
    /// buffered holds no whole frame. `None` if other reads than these would be
    /// made.
    pub open spec fn next_run(self, reads: Seq<Read<S>>) -> Option<
        (Poll<Result<Option<FrameView>, FrameStreamError>>, FrameStreamState<S>),
    >
        decreases reads.len(),
    {
        let waiting = self.after_decode();
        match self.decoded().result {
            Ok(Some(frame)) => if reads.len() == 0 {
                Some((Poll::Ready(Ok(Some(frame))), waiting))
            } else {
                None
            },
            Err(e) => if reads.len() == 0 {
                Some((Poll::Ready(Err(e)), waiting))
            } else {
                None
            },
            Ok(None) => if waiting.recv.eos {
                if reads.len() == 0 {
                    Some((Poll::Ready(waiting.at_end()), waiting))
                } else {
                    None
                }
            } else if reads.len() == 0 {
                None
            } else {
                let read = waiting.after_read(reads[0]);
                match reads[0].answer {
                    Poll::Ready(Ok(Some(_))) => read.next_run(reads.skip(1)),
                    Poll::Ready(Ok(None)) => if reads.len() == 1 {
                        Some((Poll::Ready(read.at_end()), read))
                    } else {
                        None
                    },
                    Poll::Ready(Err(e)) => if reads.len() == 1 {
                        Some((Poll::Ready(Err(FrameStreamError::Quic(e))), read))
                    } else {
                        None
                    },
                    Poll::Pending => if reads.len() == 1 {
                        Some((Poll::Pending, read))
                    } else {
                        None
                    },
                }
            },
        }
    }
}

/// One more read, made with the stream as `before`, where what was read so far
/// led from `start` to `before`.
#[verifier::spinoff_prover]
#[verifier::rlimit(40)]
proof fn lemma_next_run_read<S: RecvStream>(
    start: FrameStreamState<S>,
    reads: Seq<Read<S>>,
    before: FrameStreamState<S>,
    read: Read<S>,
)
    requires
        forall|more: Seq<Read<S>>| #[trigger] start.next_run(reads + more) == before.next_run(more),
        reads_valid(start.recv.transport, reads),
        before.recv.transport == transport_after(start.recv.transport, reads),
        before.decoded().result == Ok::<Option<FrameView>, FrameStreamError>(None),
        !before.recv.eos,
        S::delivers(before.recv.transport, read.answer, read.transport),
    ensures
        reads_valid(start.recv.transport, reads.push(read)),
        ({
            let after = before.after_decode().after_read(read);
            let all = reads.push(read);
            match read.answer {
                Poll::Ready(Ok(Some(_))) => forall|more: Seq<Read<S>>| #[trigger]
                    start.next_run(all + more) == after.next_run(more),
                Poll::Ready(Ok(None)) => start.next_run(all) == Some(
                    (Poll::Ready(after.at_end()), after),
                ),
                Poll::Ready(Err(e)) => start.next_run(all) == Some(
                    (
                        Poll::Ready(Err::<Option<FrameView>, _>(FrameStreamError::Quic(e))),
                        after,
                    ),
                ),
                Poll::Pending => start.next_run(all) == Some(
                    (Poll::<Result<Option<FrameView>, FrameStreamError>>::Pending, after),
                ),
            }
        }),
{
    let all = reads.push(read);
    assert forall|i: int| 0 <= i < all.len() implies S::delivers(
        transport_after(start.recv.transport, all.take(i)),
        (#[trigger] all[i]).answer,
        all[i].transport,
    ) by {
        if i < reads.len() {
            assert(all.take(i) =~= reads.take(i));
            assert(all[i] == reads[i]);
        } else {
            assert(all.take(i) =~= reads);
        }
    }
    let last = seq![read];
    assert(reads + last =~= all);
    assert(start.next_run(reads + last) == before.next_run(last));
    assert forall|more: Seq<Read<S>>|
        read.answer matches Poll::Ready(Ok(Some(_))) implies #[trigger] start.next_run(all + more)
        == before.after_decode().after_read(read).next_run(more) by {
        let next = last + more;
        assert(reads + next =~= all + more);
        assert(start.next_run(reads + next) == before.next_run(next));
        assert(next.skip(1) =~= more);
        assert(next[0] == read);
    }
}

impl<S, B> View for FrameStream<S, B> {
    type V = FrameStreamState<S>;

    closed spec fn view(&self) -> FrameStreamState<S> {
        FrameStreamState {
            recv: self.stream@,
            decoder: self.decoder,
            remaining: self.remaining_data,
        }
    }
}

impl<S, B> FrameStream<S, B> {
    pub fn new(stream: BufRecvStream<S, B>) -> (frames: Self)
        ensures
            frames@.recv == stream@,
            frames@.decoder.expected is None,
            frames@.decoder.max_non_data_frame_size == DEFAULT_MAX_NON_DATA_FRAME_SIZE,
            frames@.remaining == RemainingData::Sized(0),
    {
        FrameStream {
            stream,
            decoder: FrameDecoder::default(),
            remaining_data: RemainingData::Sized(0),
        }
    }

    /// Sets the maximum encoded payload size buffered for a non-DATA frame.
    /// DATA and WebTransport stream payloads are not subject to this limit.
    pub fn with_max_non_data_frame_size(self, max: usize) -> (frames: Self)
        ensures
            frames@ == (FrameStreamState {
                decoder: FrameDecoder { expected: None, max_non_data_frame_size: max },
                ..self@
            }),
    {
        let mut frames = self;
        frames.decoder.max_non_data_frame_size = max;
        frames.decoder.expected = None;
        frames
    }

    /// Unwraps the Framed streamer and returns the underlying stream **without**
    /// data loss for partially received/read frames.
    pub fn into_inner(self) -> (stream: BufRecvStream<S, B>)
        ensures
            stream@ == self@.recv,
    {
        self.stream
    }

    /// Is a payload still to be read?
    pub fn has_data(&self) -> (some: bool)
        ensures
            some == self@.remaining.any(),
            some == (self@.remaining != RemainingData::Sized(0)),
    {
        match self.remaining_data {
            RemainingData::Sized(n) => n != 0,
            RemainingData::UntilEnd => true,
        }
    }
}

impl<S: Is0rtt, B> FrameStream<S, B> {
    /// Checks if the stream was opened in 0-RTT mode
    pub fn is_0rtt(&self) -> (early: bool)
        ensures
            early == self@.recv.transport.spec_is_0rtt(),
    {
        self.stream.is_0rtt()
    }
}

impl<S: RecvStream, B> FrameStream<S, B> {
    /// Polls the stream for the next frame header
    ///
    /// When a frame header is received use `poll_data` to retrieve the frame's
    /// data.
    pub fn poll_next(&mut self, cx: &mut Context<'_>) -> (result: Poll<
        Result<Option<Frame<PayloadLen>>, FrameStreamError>,
    >)
        requires
            old(self)@.wf(),
            !old(self)@.remaining.any(),
        ensures
            final(self)@.wf(),
            exists|reads: Seq<Read<S>>| #[trigger]
                reads_valid(old(self)@.recv.transport, reads) && old(self)@.next_run(reads)
                    == Some((next_view(result), final(self)@)),
            match result {
                Poll::Pending => {
                    &&& !old(self)@.recv.eos
                    &&& exists|polled: S| #[trigger]
                        S::delivers(polled, Poll::Pending, final(self)@.recv.transport)
                },
                Poll::Ready(Err(FrameStreamError::Quic(e))) => {
                    &&& !old(self)@.recv.eos
                    &&& exists|polled: S| #[trigger]
                        S::delivers(polled, Poll::Ready(Err(e)), final(self)@.recv.transport)
                },
                Poll::Ready(Ok(None)) => {
                    &&& final(self)@.recv.eos
                    &&& final(self)@.recv.chunks.flatten().len() == 0
                },
                Poll::Ready(Err(FrameStreamError::UnexpectedEnd)) => {
                    &&& final(self)@.recv.eos
                    &&& final(self)@.recv.chunks.flatten().len() > 0
                },
                _ => true,
            },
            final(self)@.remaining == match result {
                Poll::Ready(Ok(Some(Frame::Data(len)))) => RemainingData::Sized(len.0),
                Poll::Ready(Ok(Some(Frame::WebTransportStream(_)))) => RemainingData::UntilEnd,
                _ => RemainingData::Sized(0),
            },
            old(self)@.recv.eos ==> {
                &&& final(self)@.recv.eos
                &&& final(self)@.recv.transport == old(self)@.recv.transport
            },
    {
        let ghost start = self@;
        let ghost mut reads: Seq<Read<S>> = Seq::empty();
        proof {
            assert forall|more: Seq<Read<S>>| #[trigger]
                start.next_run(reads + more) == start.next_run(more) by {
                assert(reads + more =~= more);
            }
        }
        loop
            invariant
                self@.wf(),
                start == old(self)@,
                self@.remaining == RemainingData::Sized(0),
                start.recv.eos ==> self@.recv.eos,
                reads_valid(start.recv.transport, reads),
                self@.recv.transport == transport_after(start.recv.transport, reads),
                forall|more: Seq<Read<S>>| #[trigger]
                    start.next_run(reads + more) == self@.next_run(more),
            decreases self@.recv.transport.unread(),
        {
            let ghost before = self@;
            let ghost none: Seq<Read<S>> = Seq::empty();
            proof {
                assert(reads + none =~= reads);
                assert(start.next_run(reads + none) == before.next_run(none));
            }
            match self.decode_buffered() {
                Err(e) => {
                    return Poll::Ready(Err(e));
                },
                Ok(Some(frame)) => {
                    return Poll::Ready(Ok(Some(frame)));
                },
                Ok(None) => {},
            }
            let ghost waiting = self@;
            let received = self.try_recv(cx);
            proof {
                if !waiting.recv.eos {
                    let answer = choose|answer: ReadAnswer| #[trigger]
                        S::delivers(waiting.recv.transport, answer, self@.recv.transport)
                            && received == recv_result(answer) && self@ == waiting.after_read(
                            Read { answer, transport: self@.recv.transport },
                        );
                    let read = Read { answer, transport: self@.recv.transport };
                    lemma_next_run_read(start, reads, before, read);
                    reads = reads.push(read);
                    assert(S::delivers(waiting.recv.transport, answer, self@.recv.transport));
                }
            }
            match received {
                Poll::Ready(Err(e)) => {
                    return Poll::Ready(Err(e));
                },
                // Received a chunk but the frame is incomplete, poll until we get `Pending`.
                Poll::Ready(Ok(false)) => {},
                Poll::Pending => {
                    return Poll::Pending;
                },
                Poll::Ready(Ok(true)) => {
                    if self.stream.buf().has_remaining() {
                        // Reached the end of receive stream, but there is still some data:
                        // The frame is incomplete.
                        return Poll::Ready(Err(FrameStreamError::UnexpectedEnd));
                    } else {
                        return Poll::Ready(Ok(None));
                    }
                },
            }
        }
    }

    /// Decodes the next frame out of what is buffered, and notes what payload
    /// comes with it.
    fn decode_buffered(&mut self) -> (result: Result<Option<Frame<PayloadLen>>, FrameStreamError>)
        requires
            old(self)@.wf(),
        ensures
            final(self)@.wf(),
            final(self)@ == old(self)@.after_decode(),
            match result {
                Ok(Some(frame)) => old(self)@.decoded().result == Ok::<_, FrameStreamError>(
                    Some(frame.view()),
                ),
                Ok(None) => old(self)@.decoded().result == Ok::<
                    Option<FrameView>,
                    FrameStreamError,
                >(None),
                Err(e) => old(self)@.decoded().result == Err::<Option<FrameView>, _>(e),
            },
    {
        proof {
            lemma_decoded_used(self.decoder, self@.recv.bytes());
        }
        let result = self.decoder.decode(self.stream.buf_mut());
        match result {
            Ok(Some(Frame::Data(PayloadLen(len)))) => {
                self.remaining_data = RemainingData::Sized(len);
                Ok(Some(Frame::Data(PayloadLen(len))))
            },
            Ok(Some(Frame::WebTransportStream(id))) => {
                self.remaining_data = RemainingData::UntilEnd;
                Ok(Some(Frame::WebTransportStream(id)))
            },
            result => result,
        }
    }

    /// Reads from the transport. `true` means that the end of the stream was
    /// reached; the transport is not polled again then.
    pub fn try_recv(&mut self, cx: &mut Context<'_>) -> (result: Poll<
        Result<bool, FrameStreamError>,
    >)
        requires
            old(self)@.wf(),
        ensures
            final(self)@.wf(),
            old(self)@.recv.eos ==> result == Poll::Ready(Ok::<bool, FrameStreamError>(true))
                && final(self)@ == old(self)@,
            !old(self)@.recv.eos ==> exists|answer: ReadAnswer| #[trigger]
                S::delivers(old(self)@.recv.transport, answer, final(self)@.recv.transport)
                    && result == recv_result(answer) && final(self)@ == old(self)@.after_read(
                    Read { answer, transport: final(self)@.recv.transport },
                ),
            !old(self)@.recv.eos ==> exists|answer: ReadAnswer| #[trigger]
                S::delivers(old(self)@.recv.transport, answer, final(self)@.recv.transport)
                    && match answer {
                    Poll::Ready(Ok(Some(data))) => {
                        &&& result == Poll::Ready(Ok::<bool, FrameStreamError>(false))
                        &&& final(self)@.recv.chunks == old(self)@.recv.chunks.push(
                            chunk::content(data),
                        )
                        &&& !final(self)@.recv.eos
                    },
                    Poll::Ready(Ok(None)) => {
                        &&& result == Poll::Ready(Ok::<bool, FrameStreamError>(true))
                        &&& final(self)@.recv.chunks == old(self)@.recv.chunks
                        &&& final(self)@.recv.eos
                    },
                    Poll::Ready(Err(e)) => {
                        &&& result == Poll::Ready(Err::<bool, _>(FrameStreamError::Quic(e)))
                        &&& final(self)@.recv.chunks == old(self)@.recv.chunks
                        &&& !final(self)@.recv.eos
                    },
                    Poll::Pending => {
                        &&& result is Pending
                        &&& final(self)@.recv.chunks == old(self)@.recv.chunks
                        &&& !final(self)@.recv.eos
                    },
                },
            final(self)@.decoder == old(self)@.decoder,
            final(self)@.remaining == old(self)@.remaining,
            result == Poll::Ready(Ok::<bool, FrameStreamError>(false)) ==>
                final(self)@.recv.transport.unread() < old(self)@.recv.transport.unread(),
    {
        if self.stream.is_eos() {
            return Poll::Ready(Ok(true));
        }
        let read = self.stream.poll_read(cx);
        proof {
            let answer = choose|answer: ReadAnswer| #[trigger]
                S::delivers(old(self)@.recv.transport, answer, self@.recv.transport) && read
                    == stream::read_result(answer) && self@.recv == old(self)@.recv.after_read(
                    answer,
                    self@.recv.transport,
                );
            assert(S::delivers(old(self)@.recv.transport, answer, self@.recv.transport));
            assert(self@ == old(self)@.after_read(
                Read { answer, transport: self@.recv.transport },
            ));
        }
        match read {
            Poll::Ready(Err(e)) => Poll::Ready(Err(FrameStreamError::Quic(e))),
            Poll::Pending => Poll::Pending,
            Poll::Ready(Ok(eos)) => Poll::Ready(Ok(eos)),
        }
    }

    /// Retrieves the next piece of data in an incoming data packet or
    /// webtransport stream
    ///
    /// WebTransport bidirectional payload has no finite length and is processed
    /// until the end of the stream.
    pub fn poll_data(&mut self, cx: &mut Context<'_>) -> (result: Poll<
        Result<Option<Bytes>, FrameStreamError>,
    >)
        requires
            old(self)@.wf(),
        ensures
            final(self)@.wf(),
            !old(self)@.remaining.any() ==> {
                &&& result == Poll::Ready(Ok::<Option<Bytes>, FrameStreamError>(None))
                &&& final(self)@ == old(self)@
            },
            old(self)@.remaining.any() && old(self)@.recv.eos ==> (
                data_view(result),
                final(self)@,
            ) == old(self)@.data_step(true),
            old(self)@.remaining.any() && !old(self)@.recv.eos ==> exists|answer: ReadAnswer|
                #[trigger]
                S::delivers(old(self)@.recv.transport, answer, final(self)@.recv.transport) && (
                data_view(result),
                final(self)@,
                ) == old(self)@.data_run(
                    Read { answer, transport: final(self)@.recv.transport },
                ),
            old(self)@.remaining == RemainingData::Sized(0) ==> {
                &&& result == Poll::Ready(Ok::<Option<Bytes>, FrameStreamError>(None))
                &&& final(self)@ == old(self)@
            },
            old(self)@.remaining != RemainingData::Sized(0) ==> match result {
                Poll::Pending => {
                    &&& !old(self)@.recv.eos
                    &&& S::delivers(
                        old(self)@.recv.transport,
                        Poll::Pending,
                        final(self)@.recv.transport,
                    )
                    &&& old(self)@.recv.chunks.flatten().len() == 0
                    &&& final(self)@.recv.chunks.flatten().len() == 0
                    &&& final(self)@.remaining == old(self)@.remaining
                },
                Poll::Ready(Ok(None)) => {
                    &&& final(self)@.recv.eos
                    &&& old(self)@.recv.chunks.flatten().len() == 0
                    &&& final(self)@.recv.chunks.flatten().len() == 0
                    &&& final(self)@.remaining == old(self)@.remaining
                },
                Poll::Ready(Ok(Some(piece))) => {
                    &&& chunk::content(piece).len() > 0
                    &&& {
                        ||| old(self)@.recv.chunks.flatten() == chunk::content(piece)
                            + final(self)@.recv.chunks.flatten() && (old(self)@.recv.eos
                            || S::delivers(
                            old(self)@.recv.transport,
                            Poll::Pending,
                            final(self)@.recv.transport,
                        ) || S::delivers(
                            old(self)@.recv.transport,
                            Poll::Ready(Ok(None)),
                            final(self)@.recv.transport,
                        ))
                        ||| !old(self)@.recv.eos && exists|data: Bytes| #[trigger]
                            S::delivers(
                                old(self)@.recv.transport,
                                Poll::Ready(Ok(Some(data))),
                                final(self)@.recv.transport,
                            ) && old(self)@.recv.chunks.flatten() + chunk::content(data)
                                == chunk::content(piece) + final(self)@.recv.chunks.flatten()
                    }
                    &&& match old(self)@.remaining {
                        RemainingData::Sized(n) => {
                            &&& chunk::content(piece).len() <= n
                            &&& final(self)@.remaining == RemainingData::Sized(
                                (n - chunk::content(piece).len()) as usize,
                            )
                        },
                        RemainingData::UntilEnd => final(self)@.remaining
                            == RemainingData::UntilEnd,
                    }
                },
                Poll::Ready(Err(FrameStreamError::UnexpectedEnd)) => {
                    &&& final(self)@.recv.eos
                    &&& old(self)@.remaining matches RemainingData::Sized(n)
                    &&& 0 < old(self)@.recv.chunks.flatten().len() < n
                },
                Poll::Ready(Err(FrameStreamError::Quic(e))) => {
                    &&& !old(self)@.recv.eos
                    &&& S::delivers(
                        old(self)@.recv.transport,
                        Poll::Ready(Err(e)),
                        final(self)@.recv.transport,
                    )
                    &&& final(self)@.recv.chunks == old(self)@.recv.chunks
                    &&& final(self)@.remaining == old(self)@.remaining
                },
                Poll::Ready(Err(FrameStreamError::Proto(_))) => false,
            },
            final(self)@.decoder == old(self)@.decoder,
            old(self)@.recv.eos ==> {
                &&& final(self)@.recv.eos
                &&& final(self)@.recv.transport == old(self)@.recv.transport
            },
    {
        if !self.has_data() {
            return Poll::Ready(Ok(None));
        }
        let received = self.try_recv(cx);
        let ghost read = self@;
        proof {
            if !old(self)@.recv.eos {
                let answer = choose|answer: ReadAnswer| #[trigger]
                    S::delivers(old(self)@.recv.transport, answer, self@.recv.transport)
                        && received == recv_result(answer) && self@ == old(self)@.after_read(
                        Read { answer, transport: self@.recv.transport },
                    );
                assert(S::delivers(old(self)@.recv.transport, answer, read.recv.transport));
                assert(read == old(self)@.after_read(
                    Read { answer, transport: read.recv.transport },
                ));
                if let Poll::Ready(Ok(Some(data))) = answer {
                    let chunks = old(self)@.recv.chunks;
                    chunks.lemma_flatten_push(chunk::content(data));
                    assert(read.recv.chunks[chunks.len() as int] == chunk::content(data));
                    assert(S::delivers(
                        old(self)@.recv.transport,
                        Poll::Ready(Ok(Some(data))),
                        read.recv.transport,
                    ));
                }
            }
        }
        let end: bool = match received {
            Poll::Ready(Ok(end)) => end,
            Poll::Ready(Err(e)) => {
                return Poll::Ready(Err(e));
            },
            Poll::Pending => false,
        };
        self.hand_on(end)
    }

    /// Hands on a piece of the payload out of what is buffered, where `end` says
    /// that nothing more will come.
    pub fn hand_on(&mut self, end: bool) -> (result: Poll<Result<Option<Bytes>, FrameStreamError>>)
        requires
            old(self)@.wf(),
        ensures
            final(self)@.wf(),
            (data_view(result), final(self)@) == old(self)@.data_step(end),
            old(self)@.remaining != RemainingData::Sized(0) ==> match result {
                Poll::Pending => !end && old(self)@.recv.chunks.flatten().len() == 0
                    && final(self)@ == old(self)@,
                Poll::Ready(Ok(None)) => end && old(self)@.recv.chunks.flatten().len() == 0
                    && final(self)@ == old(self)@,
                Poll::Ready(Ok(Some(piece))) => {
                    &&& chunk::content(piece).len() > 0
                    &&& chunk::content(piece) + final(self)@.recv.chunks.flatten()
                        == old(self)@.recv.chunks.flatten()
                    &&& match old(self)@.remaining {
                        RemainingData::Sized(n) => {
                            &&& chunk::content(piece).len() <= n
                            &&& final(self)@.remaining == RemainingData::Sized(
                                (n - chunk::content(piece).len()) as usize,
                            )
                        },
                        RemainingData::UntilEnd => final(self)@.remaining
                            == RemainingData::UntilEnd,
                    }
                },
                Poll::Ready(Err(FrameStreamError::UnexpectedEnd)) => {
                    &&& end
                    &&& old(self)@.remaining matches RemainingData::Sized(n)
                    &&& 0 < old(self)@.recv.chunks.flatten().len() < n
                    &&& final(self)@.recv.chunks.flatten().len() == 0
                    &&& final(self)@.remaining == old(self)@.remaining
                },
                Poll::Ready(Err(_)) => false,
            },
            final(self)@.recv.transport == old(self)@.recv.transport,
            final(self)@.recv.eos == old(self)@.recv.eos,
            final(self)@.decoder == old(self)@.decoder,
    {
        let limit: usize = match self.remaining_data {
            RemainingData::Sized(n) => n,
            RemainingData::UntilEnd => usize::MAX,
        };
        let ghost chunks = self@.recv.chunks;
        let data = self.stream.buf_mut().take_chunk(limit);
        match data {
            None => if end {
                Poll::Ready(Ok(None))
            } else {
                Poll::Pending
            },
            Some(data) => {
                let len: usize = data.len();
                let last: bool = !self.stream.buf().has_remaining();
                match self.remaining_data {
                    RemainingData::Sized(n) => {
                        if end && last && len < n {
                            return Poll::Ready(Err(FrameStreamError::UnexpectedEnd));
                        }
                        self.remaining_data = RemainingData::Sized(n - len);
                    },
                    RemainingData::UntilEnd => {},
                }
                Poll::Ready(Ok(Some(data)))
            },
        }
    }

    /// Stops the underlying stream with the provided error code
    pub fn stop_sending(&mut self, error_code: Code)
        ensures
            S::stops(
                old(self)@.recv.transport,
                error_code.number(),
                final(self)@.recv.transport,
            ),
            final(self)@ == old(self)@.with_transport(final(self)@.recv.transport),
            final(self)@.recv.chunks == old(self)@.recv.chunks,
            final(self)@.recv.eos == old(self)@.recv.eos,
            final(self)@.decoder == old(self)@.decoder,
            final(self)@.remaining == old(self)@.remaining,
            old(self)@.wf() ==> final(self)@.wf(),
    {
        self.stream.stop_sending(error_code.value());
    }

    /// Was the end of the stream reached, and is nothing buffered?
    pub fn is_eos(&self) -> (over: bool)
        requires
            self@.wf(),
        ensures
            over == (self@.recv.eos && self@.recv.bytes().len() == 0),
            over == (self@.recv.eos && self@.recv.chunks.flatten().len() == 0),
    {
        self.stream.is_eos() && !self.stream.buf().has_remaining()
    }

    pub fn id(&self) -> (id: StreamId)
        ensures
            id == self@.recv.transport.spec_recv_id(),
    {
        self.stream.recv_id()
    }
}

impl<S: Unread, B> Unread for FrameStream<S, B> {
    open spec fn unread(&self) -> usize {
        self@.recv.transport.unread()
    }
}

impl<T: SendStream<B>, B> SendStream<B> for FrameStream<T, B> {
    open spec fn readies(before: Self, answer: WriteAnswer, after: Self) -> bool {
        &&& T::readies(before@.recv.transport, answer, after@.recv.transport)
        &&& after@ == before@.with_transport(after@.recv.transport)
    }

    open spec fn sends(
        before: Self,
        data: WriteBuf<B>,
        result: Result<(), StreamErrorIncoming>,
        after: Self,
    ) -> bool {
        &&& T::sends(before@.recv.transport, data, result, after@.recv.transport)
        &&& after@ == before@.with_transport(after@.recv.transport)
    }

    open spec fn finishes(before: Self, answer: WriteAnswer, after: Self) -> bool {
        &&& T::finishes(before@.recv.transport, answer, after@.recv.transport)
        &&& after@ == before@.with_transport(after@.recv.transport)
    }

    open spec fn resets(before: Self, reset_code: u64, after: Self) -> bool {
        &&& T::resets(before@.recv.transport, reset_code, after@.recv.transport)
        &&& after@ == before@.with_transport(after@.recv.transport)
    }

    open spec fn spec_send_id(&self) -> StreamId {
        self@.recv.transport.spec_send_id()
    }

    fn poll_ready(&mut self, cx: &mut Context<'_>) -> (answer: WriteAnswer)
        ensures
            T::readies(old(self)@.recv.transport, answer, final(self)@.recv.transport),
            final(self)@.recv.chunks == old(self)@.recv.chunks,
            final(self)@.recv.eos == old(self)@.recv.eos,
            final(self)@.decoder == old(self)@.decoder,
            final(self)@.remaining == old(self)@.remaining,
            old(self)@.wf() ==> final(self)@.wf(),
    {
        self.stream.poll_ready(cx)
    }

    fn send_data(&mut self, data: WriteBuf<B>) -> (result: Result<(), StreamErrorIncoming>)
        ensures
            T::sends(old(self)@.recv.transport, data, result, final(self)@.recv.transport),
            final(self)@.recv.chunks == old(self)@.recv.chunks,
            final(self)@.recv.eos == old(self)@.recv.eos,
            final(self)@.decoder == old(self)@.decoder,
            final(self)@.remaining == old(self)@.remaining,
            old(self)@.wf() ==> final(self)@.wf(),
    {
        self.stream.send_data(data)
    }

    fn poll_finish(&mut self, cx: &mut Context<'_>) -> (answer: WriteAnswer)
        ensures
            T::finishes(old(self)@.recv.transport, answer, final(self)@.recv.transport),
            final(self)@.recv.chunks == old(self)@.recv.chunks,
            final(self)@.recv.eos == old(self)@.recv.eos,
            final(self)@.decoder == old(self)@.decoder,
            final(self)@.remaining == old(self)@.remaining,
            old(self)@.wf() ==> final(self)@.wf(),
    {
        self.stream.poll_finish(cx)
    }

    fn reset(&mut self, reset_code: u64)
        ensures
            T::resets(old(self)@.recv.transport, reset_code, final(self)@.recv.transport),
            final(self)@.recv.chunks == old(self)@.recv.chunks,
            final(self)@.recv.eos == old(self)@.recv.eos,
            final(self)@.decoder == old(self)@.decoder,
            final(self)@.remaining == old(self)@.remaining,
            old(self)@.wf() ==> final(self)@.wf(),
    {
        self.stream.reset(reset_code)
    }

    fn send_id(&self) -> (id: StreamId)
        ensures
            id == self@.recv.transport.spec_send_id(),
    {
        self.stream.send_id()
    }
}

impl<S: BidiStream<B>, B> FrameStream<S, B> {
    /// The two sides. What was received, and how it is decoded, stays with the
    /// receiving one.
    pub fn split(self) -> (halves: (
        FrameStream<S::SendStream, B>,
        FrameStream<S::RecvStream, B>,
    ))
        ensures
            S::splits(
                self@.recv.transport,
                halves.0@.recv.transport,
                halves.1@.recv.transport,
            ),
            halves.0@ == (FrameStreamState {
                recv: RecvState {
                    transport: halves.0@.recv.transport,
                    chunks: Seq::empty(),
                    eos: self@.recv.eos,
                },
                decoder: FrameDecoder {
                    expected: None,
                    max_non_data_frame_size: DEFAULT_MAX_NON_DATA_FRAME_SIZE,
                },
                remaining: RemainingData::Sized(0),
            }),
            halves.1@ == (FrameStreamState {
                recv: RecvState {
                    transport: halves.1@.recv.transport,
                    chunks: self@.recv.chunks,
                    eos: self@.recv.eos,
                },
                decoder: self@.decoder,
                remaining: self@.remaining,
            }),
            halves.0@.wf(),
            self@.wf() ==> halves.1@.wf(),
    {
        let (send, recv) = self.stream.split();
        (
            FrameStream {
                stream: send,
                decoder: FrameDecoder::default(),
                remaining_data: RemainingData::Sized(0),
            },
            FrameStream {
                stream: recv,
                decoder: self.decoder,
                remaining_data: self.remaining_data,
            },
        )
    }
}

} // verus!

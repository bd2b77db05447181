//! What a frame stream answers, said of what it was given: of the polls of its
//! transport, of the bytes that came, and of what is left of a payload.
use crate::buf;
use crate::chunk;
use crate::frame;
use crate::frame::{
    FrameDecoder, FrameStream, FrameStreamError, FrameStreamState, Read,
    RemainingData,
};
use crate::laws;
use crate::proto::frame::{Frame, FrameView, PayloadLen};
use crate::quic::{ReadAnswer, RecvStream, SendStream, StreamErrorIncoming, Unread, WriteAnswer};
use crate::stream;
use crate::stream::{BufRecvStream, RecvState, WriteBuf};
use bytes::Bytes;
use std::task::Poll;
use vstd::prelude::*;

verus! {

/// Looking for a frame waits exactly if the last poll of the transport, made for
/// it, had nothing, and fails with the transport exactly if that poll failed. All
/// polls before that one brought a chunk. A stream that is over answers without
/// any poll: that there is no more frame where nothing is buffered, that it ended
/// too soon where something is.
pub proof fn next_outcome<S: RecvStream>(state: FrameStreamState<S>, reads: Seq<Read<S>>)
    requires
        state.next_run(reads) is Some,
    ensures
        ({
            let (result, end) = state.next_run(reads)->0;
            &&& result is Pending <==> reads.len() > 0 && reads.last().answer is Pending
            &&& result matches Poll::Ready(Err(FrameStreamError::Quic(e))) ==> reads.len() > 0
                && reads.last().answer == Poll::Ready(Err::<Option<Bytes>, _>(e))
            &&& reads.len() > 0 ==> (reads.last().answer matches Poll::Ready(Err(e)) ==> result
                == Poll::Ready(Err::<Option<FrameView>, _>(FrameStreamError::Quic(e))))
            &&& result == Poll::Ready(Ok::<Option<FrameView>, FrameStreamError>(None))
                ==> end.recv.eos && end.recv.chunks.flatten().len() == 0
            &&& result == Poll::Ready(Err::<Option<FrameView>, _>(FrameStreamError::UnexpectedEnd))
                ==> end.recv.eos && end.recv.chunks.flatten().len() > 0
            &&& (result matches Poll::Ready(Ok(Some(_)))) || (result matches Poll::Ready(
                Err(FrameStreamError::Proto(_)),
            )) ==> reads.len() > 0 ==> (reads.last().answer matches Poll::Ready(Ok(Some(_))))
            &&& forall|i: int|
                0 <= i < reads.len() - 1 ==> ((#[trigger] reads[i]).answer matches Poll::Ready(
                    Ok(Some(_)),
                ))
            &&& end.recv.transport == if reads.len() == 0 {
                state.recv.transport
            } else {
                reads.last().transport
            }
            &&& end.recv.eos <==> state.recv.eos || (reads.len() > 0 && reads.last().answer
                == Poll::Ready(Ok::<Option<Bytes>, StreamErrorIncoming>(None)))
            &&& state.recv.eos ==> reads.len() == 0
            &&& end.decoder.max_non_data_frame_size == state.decoder.max_non_data_frame_size
        }),
    decreases reads.len(),
{
    let waiting = state.after_decode();
    if reads.len() > 0 {
        let read = waiting.after_read(reads[0]);
        let rest = reads.skip(1);
        if reads[0].answer matches Poll::Ready(Ok(Some(_))) {
            next_outcome(read, rest);
            if rest.len() > 0 {
                assert(rest.last() == reads.last());
            }
            assert forall|i: int| 0 <= i < reads.len() - 1 implies ((
            #[trigger] reads[i]).answer matches Poll::Ready(Ok(Some(_)))) by {
                if i > 0 {
                    assert(rest[i - 1] == reads[i]);
                }
            }
        }
    }
}

/// A frame that is at hand is returned, or refused, without any poll of the
/// transport. What decoding does not use up stays, in the chunks it came in, and
/// the payload that comes with the frame is due.
pub proof fn at_hand_is_returned<S: RecvStream>(state: FrameStreamState<S>, reads: Seq<Read<S>>)
    requires
        frame::decoded(state.decoder, state.recv.chunks.flatten()).result != Ok::<
            Option<FrameView>,
            FrameStreamError,
        >(None),
    ensures
        ({
            let d = frame::decoded(state.decoder, state.recv.chunks.flatten());
            &&& state.next_run(reads) is Some <==> reads.len() == 0
            &&& state.next_run(reads) matches Some((result, end)) ==> {
                &&& result == Poll::Ready(d.result)
                &&& end.recv.transport == state.recv.transport
                &&& end.recv.eos == state.recv.eos
                &&& end.recv.chunks == buf::chunks_skip(state.recv.chunks, d.used)
                &&& end.decoder.expected == d.expected
                &&& end.decoder.max_non_data_frame_size == state.decoder.max_non_data_frame_size
                &&& end.remaining == match d.result {
                    Ok(Some(FrameView::Data(n))) => RemainingData::Sized(n),
                    Ok(Some(FrameView::WebTransportStream(_))) => RemainingData::UntilEnd,
                    _ => state.remaining,
                }
            }
        }),
{
}

/// Where no frame is at hand and the stream is not over, the transport is polled.
/// After a chunk the search goes on with what is then buffered.
pub proof fn next_after_a_chunk<S: RecvStream>(state: FrameStreamState<S>, reads: Seq<Read<S>>)
    requires
        frame::decoded(state.decoder, state.recv.chunks.flatten()).result == Ok::<
            Option<FrameView>,
            FrameStreamError,
        >(None),
        !state.recv.eos,
    ensures
        reads.len() == 0 ==> state.next_run(reads) is None,
        reads.len() > 0 ==> (reads[0].answer matches Poll::Ready(Ok(Some(data)))
            ==> state.next_run(reads) == (FrameStreamState {
            recv: RecvState {
                transport: reads[0].transport,
                chunks: buf::chunks_skip(
                    state.recv.chunks,
                    frame::decoded(state.decoder, state.recv.chunks.flatten()).used,
                ).push(chunk::content(data)),
                eos: false,
            },
            decoder: FrameDecoder {
                expected: frame::decoded(
                    state.decoder,
                    state.recv.chunks.flatten(),
                ).expected,
                max_non_data_frame_size: state.decoder.max_non_data_frame_size,
            },
            remaining: state.remaining,
        }).next_run(reads.skip(1))),
{
}

/// On a stream that is over, where what is buffered holds no whole frame, the
/// answer is that the stream has ended, whatever the limit: with nothing left, or
/// too soon.
pub proof fn over_is_told<S: RecvStream>(state: FrameStreamState<S>)
    requires
        state.recv.eos,
        frame::decoded(state.decoder, state.recv.chunks.flatten()).result == Ok::<
            Option<FrameView>,
            FrameStreamError,
        >(None),
    ensures
        ({
            let d = frame::decoded(state.decoder, state.recv.chunks.flatten());
            let run = state.next_run(Seq::empty());
            &&& run is Some
            &&& d.used == state.recv.chunks.flatten().len() ==> (run->0).0 == Poll::Ready(
                Ok::<Option<FrameView>, FrameStreamError>(None),
            )
            &&& d.used < state.recv.chunks.flatten().len() ==> (run->0).0 == Poll::Ready(
                Err::<Option<FrameView>, _>(FrameStreamError::UnexpectedEnd),
            )
        }),
{
    frame::lemma_decoded_used(state.decoder, state.recv.bytes());
    buf::lemma_chunks_skip(state.recv.chunks, state.decoded().used);
}

/// What is returned for the next frame is what the bytes received say, as one
/// piece: the first frame in them or what it is refused for, and no frame exactly
/// where they hold no whole one. What follows that frame stays buffered. Then a
/// payload is due as the frame says.
pub proof fn next_of_received<S: RecvStream>(state: FrameStreamState<S>, reads: Seq<Read<S>>)
    requires
        laws::in_order(state),
        state.remaining == RemainingData::Sized(0),
        state.next_run(reads) is Some,
    ensures
        ({
            let (result, end) = state.next_run(reads)->0;
            let all = state.recv.chunks.flatten() + laws::arrived(reads);
            let d = frame::decoded(
                FrameDecoder {
                    expected: None,
                    max_non_data_frame_size: state.decoder.max_non_data_frame_size,
                },
                all,
            );
            &&& end.recv.chunks.flatten() == all.skip(d.used as int)
            &&& match d.result {
                Ok(Some(frame)) => result == Poll::Ready(
                    Ok::<Option<FrameView>, FrameStreamError>(Some(frame)),
                ),
                Err(e) => result == Poll::Ready(Err::<Option<FrameView>, _>(e)),
                Ok(None) => !(result matches Poll::Ready(Ok(Some(_)))) && !(
                result matches Poll::Ready(Err(FrameStreamError::Proto(_)))),
            }
            &&& match result {
                Poll::Ready(Ok(Some(FrameView::Data(n)))) => end.remaining
                    == RemainingData::Sized(n),
                Poll::Ready(Ok(Some(FrameView::WebTransportStream(_)))) => end.remaining
                    == RemainingData::UntilEnd,
                _ => end.remaining == RemainingData::Sized(0),
            }
        }),
{
    laws::next_is_first_of_all(state, reads);
}

/// What polls of the transport brought: all bytes of all chunks, in order.
pub proof fn arrived_in_order<S>(reads: Seq<Read<S>>, read: Read<S>)
    ensures
        laws::arrived(Seq::<Read<S>>::empty()) == Seq::<u8>::empty(),
        laws::arrived(reads.push(read)) == laws::arrived(reads) + match read.answer {
            Poll::Ready(Ok(Some(data))) => chunk::content(data),
            _ => Seq::empty(),
        },
    decreases reads.len(),
{
    let more = match read.answer {
        Poll::Ready(Ok(Some(data))) => chunk::content(data),
        _ => Seq::empty(),
    };
    let all = reads.push(read);
    if reads.len() == 0 {
        assert(all.skip(1) =~= reads);
        assert(laws::arrived(all) =~= laws::arrived(reads) + more);
    } else {
        arrived_in_order(reads.skip(1), read);
        assert(all.skip(1) =~= reads.skip(1).push(read));
        assert(all[0] == reads[0]);
        assert(laws::arrived(all) =~= laws::arrived(reads) + more);
    }
}

/// Polls of a transport follow one another: each was made on the transport as the
/// one before left it.
pub proof fn reads_follow<S: RecvStream>(from: S, reads: Seq<Read<S>>, i: int)
    requires
        frame::reads_valid(from, reads),
        0 <= i < reads.len(),
    ensures
        i == 0 ==> S::delivers(from, reads[0].answer, reads[0].transport),
        i > 0 ==> S::delivers(reads[i - 1].transport, reads[i].answer, reads[i].transport),
{
    assert(S::delivers(
        frame::transport_after(from, reads.take(i)),
        reads[i].answer,
        reads[i].transport,
    ));
}

/// A read adds the chunk that came, or minds the end, and does nothing else.
pub proof fn read_outcome<S: RecvStream>(state: FrameStreamState<S>, read: Read<S>)
    ensures
        ({
            let after = state.after_read(read);
            &&& after.recv.transport == read.transport
            &&& after.decoder == state.decoder
            &&& after.remaining == state.remaining
            &&& match read.answer {
                Poll::Ready(Ok(Some(data))) => after.recv.chunks == state.recv.chunks.push(
                    chunk::content(data),
                ) && after.recv.eos == state.recv.eos,
                Poll::Ready(Ok(None)) => after.recv.chunks == state.recv.chunks && after.recv.eos,
                _ => after.recv.chunks == state.recv.chunks && after.recv.eos == state.recv.eos,
            }
        }),
{
}

/// Of a payload that is due, the first chunk is handed on, or as much of it as
/// belongs to the payload. Without any chunk the payload is awaited, or the stream
/// is over. Where the stream ends with a chunk that does not end the payload, that
/// is an error, unless the payload lasts until the end.
pub proof fn piece_outcome<S: RecvStream>(state: FrameStreamState<S>, end: bool)
    requires
        buf::chunks_wf(state.recv.chunks),
        state.remaining != RemainingData::Sized(0),
    ensures
        ({
            let (result, after) = state.data_step(end);
            let chunks = state.recv.chunks;
            &&& after.recv.transport == state.recv.transport
            &&& after.recv.eos == state.recv.eos
            &&& after.decoder == state.decoder
            &&& chunks.len() == 0 && !end ==> result is Pending && after == state
            &&& chunks.len() == 0 && end ==> result == Poll::Ready(
                Ok::<Option<Seq<u8>>, FrameStreamError>(None),
            ) && after == state
            &&& chunks.len() > 0 ==> match state.remaining {
                RemainingData::UntilEnd => {
                    &&& result == Poll::Ready(Ok::<_, FrameStreamError>(Some(chunks[0])))
                    &&& after.recv.chunks == chunks.drop_first()
                    &&& after.remaining == RemainingData::UntilEnd
                },
                RemainingData::Sized(n) => if chunks[0].len() > n {
                    &&& result == Poll::Ready(
                        Ok::<_, FrameStreamError>(Some(chunks[0].take(n as int))),
                    )
                    &&& after.recv.chunks == seq![chunks[0].skip(n as int)] + chunks.drop_first()
                    &&& after.remaining == RemainingData::Sized(0)
                } else if end && chunks.len() == 1 && chunks[0].len() < n {
                    &&& result == Poll::Ready(
                        Err::<Option<Seq<u8>>, _>(FrameStreamError::UnexpectedEnd),
                    )
                    &&& after.recv.chunks.len() == 0
                    &&& after.remaining == state.remaining
                } else {
                    &&& result == Poll::Ready(Ok::<_, FrameStreamError>(Some(chunks[0])))
                    &&& after.recv.chunks == chunks.drop_first()
                    &&& after.remaining == RemainingData::Sized((n - chunks[0].len()) as usize)
                },
            }
        }),
{
    reveal_with_fuel(buf::chunks_skip, 2);
    let chunks = state.recv.chunks;
    if chunks.len() > 0 {
        assert(chunks.flatten() == chunks[0] + chunks.drop_first().flatten());
        assert(chunks[0].len() > 0);
    }
}

/// Asking for a piece of a payload that is due polls the transport once and fails
/// exactly if that does. Otherwise it goes by what is then buffered.
pub proof fn data_outcome<S: RecvStream>(state: FrameStreamState<S>, read: Read<S>)
    ensures
        match read.answer {
            Poll::Ready(Err(e)) => state.data_run(read) == (
                Poll::Ready(Err::<Option<Seq<u8>>, _>(FrameStreamError::Quic(e))),
                state.after_read(read),
            ),
            Poll::Ready(Ok(None)) => state.data_run(read) == state.after_read(read).data_step(true),
            Poll::Ready(Ok(Some(_))) | Poll::Pending => state.data_run(read) == state.after_read(
                read,
            ).data_step(false),
        },
        state.remaining == RemainingData::Sized(0) ==> laws::asked(state, read) == (
            Poll::Ready(Ok::<Option<Seq<u8>>, FrameStreamError>(None)),
            state,
        ),
        state.remaining != RemainingData::Sized(0) && state.recv.eos ==> laws::asked(state, read)
            == state.data_step(true),
        state.remaining != RemainingData::Sized(0) && !state.recv.eos ==> laws::asked(state, read)
            == state.data_run(read),
{
}

/// While something is left of a payload and something is buffered after the poll
/// of the transport, a piece is handed on, unless the payload was cut short or the
/// transport failed. That nothing is left is said only where that is so, or where
/// the stream is over and nothing is buffered.
pub proof fn payload_is_not_withheld<S: RecvStream>(state: FrameStreamState<S>, read: Read<S>)
    requires
        buf::chunks_wf(state.recv.chunks),
        read.answer matches Poll::Ready(Ok(Some(data))) ==> chunk::content(data).len() > 0
            && state.recv.chunks.flatten().len() + chunk::content(data).len() <= usize::MAX,
    ensures
        ({
            let (result, after) = laws::asked(state, read);
            let polled = state.remaining != RemainingData::Sized(0) && !state.recv.eos;
            let buffered = if polled {
                state.recv.chunks.flatten() + match read.answer {
                    Poll::Ready(Ok(Some(data))) => chunk::content(data),
                    _ => Seq::empty(),
                }
            } else {
                state.recv.chunks.flatten()
            };
            &&& result == Poll::Ready(Ok::<Option<Seq<u8>>, FrameStreamError>(None))
                ==> state.remaining == RemainingData::Sized(0) || (after.recv.eos && buffered.len()
                == 0)
            &&& result is Pending ==> state.remaining != RemainingData::Sized(0) && polled && (
            read.answer is Pending) && buffered.len() == 0
            &&& state.remaining != RemainingData::Sized(0) && buffered.len() > 0 ==> {
                ||| result matches Poll::Ready(Ok(Some(piece))) && 0 < piece.len() && piece
                    + after.recv.chunks.flatten() == buffered
                ||| result == Poll::Ready(
                    Err::<Option<Seq<u8>>, _>(FrameStreamError::UnexpectedEnd),
                ) && after.recv.eos && (state.remaining matches RemainingData::Sized(n) && n
                    > buffered.len())
                ||| result matches Poll::Ready(Err(FrameStreamError::Quic(e))) && polled
                    && read.answer == Poll::Ready(Err::<Option<Bytes>, _>(e))
            }
        }),
{
    let chunks = state.recv.chunks;
    let polled = state.remaining != RemainingData::Sized(0) && !state.recv.eos;
    let at = if polled {
        state.after_read(read)
    } else {
        state
    };
    let over = state.recv.eos || (read.answer matches Poll::Ready(Ok(None)));
    assert(chunks.flatten() + Seq::<u8>::empty() =~= chunks.flatten());
    if let Poll::Ready(Ok(Some(data))) = read.answer {
        chunks.lemma_flatten_push(chunk::content(data));
    }
    if state.remaining != RemainingData::Sized(0) {
        assert(buf::chunks_wf(at.recv.chunks));
        laws::piece_is_front(at, over);
        laws::cut_short_iff(at, over);
        piece_outcome(at, over);
        if at.recv.chunks.len() == 0 {
            assert(at.recv.chunks =~= Seq::<Seq<u8>>::empty());
        }
    }
}

/// What is taken off the front of a queue of chunks leaves the other chunks as
/// they are: whole ones go, then the front of one.
pub proof fn chunks_stay(chunks: Seq<Seq<u8>>, n: nat)
    requires
        buf::chunks_wf(chunks),
        n <= chunks.flatten().len(),
    ensures
        exists|k: int|
            {
                &&& 0 <= k <= chunks.len()
                &&& (#[trigger] chunks.take(k)).flatten().len() <= n
                &&& if chunks.take(k).flatten().len() == n {
                    buf::chunks_skip(chunks, n) == chunks.skip(k)
                } else {
                    &&& k < chunks.len()
                    &&& n < chunks.take(k).flatten().len() + chunks[k].len()
                    &&& buf::chunks_skip(chunks, n) == seq![
                        chunks[k].skip(n - chunks.take(k).flatten().len()),
                    ] + chunks.skip(k + 1)
                }
            },
    decreases chunks.len(),
{
    if n == 0 || chunks.len() == 0 {
        assert(chunks.take(0) =~= Seq::<Seq<u8>>::empty());
        assert(chunks.skip(0) =~= chunks);
    } else {
        let first = chunks[0];
        let tail = chunks.drop_first();
        assert(chunks.flatten() == first + tail.flatten());
        if n < first.len() {
            assert(chunks.take(0) =~= Seq::<Seq<u8>>::empty());
            assert(chunks.skip(1) =~= tail);
        } else {
            let m = (n - first.len()) as nat;
            assert forall|i: int| 0 <= i < tail.len() implies (#[trigger] tail[i]).len() > 0 by {
                assert(tail[i] == chunks[i + 1]);
            }
            chunks_stay(tail, m);
            let k = choose|k: int|
                {
                    &&& 0 <= k <= tail.len()
                    &&& (#[trigger] tail.take(k)).flatten().len() <= m
                    &&& if tail.take(k).flatten().len() == m {
                        buf::chunks_skip(tail, m) == tail.skip(k)
                    } else {
                        &&& k < tail.len()
                        &&& m < tail.take(k).flatten().len() + tail[k].len()
                        &&& buf::chunks_skip(tail, m) == seq![
                            tail[k].skip(m - tail.take(k).flatten().len()),
                        ] + tail.skip(k + 1)
                    }
                };
            let front = chunks.take(k + 1);
            assert(front.drop_first() =~= tail.take(k));
            assert(front.flatten() == first + tail.take(k).flatten());
            assert(chunks.skip(k + 1) =~= tail.skip(k));
            if k < tail.len() {
                assert(chunks.skip(k + 2) =~= tail.skip(k + 1));
            }
        }
    }
}

/// What is returned is what is spoken of: the same kind of answer, with the same
/// frame, piece or error.
pub proof fn said_of_answers(
    next: Poll<Result<Option<Frame<PayloadLen>>, FrameStreamError>>,
    data: Poll<Result<Option<Bytes>, FrameStreamError>>,
    answer: ReadAnswer,
)
    ensures
        match next {
            Poll::Pending => frame::next_view(next) is Pending,
            Poll::Ready(Ok(None)) => frame::next_view(next) == Poll::Ready(
                Ok::<Option<FrameView>, FrameStreamError>(None),
            ),
            Poll::Ready(Ok(Some(f))) => frame::next_view(next) == Poll::Ready(
                Ok::<Option<FrameView>, FrameStreamError>(Some(f.view())),
            ),
            Poll::Ready(Err(e)) => frame::next_view(next) == Poll::Ready(
                Err::<Option<FrameView>, _>(e),
            ),
        },
        match data {
            Poll::Pending => frame::data_view(data) is Pending,
            Poll::Ready(Ok(None)) => frame::data_view(data) == Poll::Ready(
                Ok::<Option<Seq<u8>>, FrameStreamError>(None),
            ),
            Poll::Ready(Ok(Some(b))) => frame::data_view(data) == Poll::Ready(
                Ok::<_, FrameStreamError>(Some(chunk::content(b))),
            ),
            Poll::Ready(Err(e)) => frame::data_view(data) == Poll::Ready(
                Err::<Option<Seq<u8>>, _>(e),
            ),
        },
        match answer {
            Poll::Ready(Ok(Some(_))) => frame::recv_result(answer) == Poll::Ready(
                Ok::<bool, FrameStreamError>(false),
            ) && stream::read_result(answer) == Poll::Ready(Ok::<bool, StreamErrorIncoming>(false)),
            Poll::Ready(Ok(None)) => frame::recv_result(answer) == Poll::Ready(
                Ok::<bool, FrameStreamError>(true),
            ) && stream::read_result(answer) == Poll::Ready(Ok::<bool, StreamErrorIncoming>(true)),
            Poll::Ready(Err(e)) => frame::recv_result(answer) == Poll::Ready(
                Err::<bool, _>(FrameStreamError::Quic(e)),
            ) && stream::read_result(answer) == Poll::Ready(Err::<bool, _>(e)),
            Poll::Pending => frame::recv_result(answer) is Pending && stream::read_result(
                answer,
            ) is Pending,
        },
{
}

/// To send on a frame stream is to send just that on its transport, with the same
/// result, whatever is sent. What was received is not touched.
pub proof fn sent_on_the_transport<T: SendStream<B>, B>(
    before: FrameStream<T, B>,
    data: WriteBuf<B>,
    result: Result<(), StreamErrorIncoming>,
    after: FrameStream<T, B>,
)
    requires
        FrameStream::<T, B>::sends(before, data, result, after),
    ensures
        T::sends(before@.recv.transport, data, result, after@.recv.transport),
        after@.recv.chunks == before@.recv.chunks,
        after@.recv.eos == before@.recv.eos,
        after@.decoder == before@.decoder,
        after@.remaining == before@.remaining,
{
}

/// A frame stream is ready to send exactly as its transport answers.
pub proof fn ready_with_the_transport<T: SendStream<B>, B>(
    before: FrameStream<T, B>,
    answer: WriteAnswer,
    after: FrameStream<T, B>,
)
    requires
        FrameStream::<T, B>::readies(before, answer, after),
    ensures
        T::readies(before@.recv.transport, answer, after@.recv.transport),
        after@.recv.chunks == before@.recv.chunks,
        after@.recv.eos == before@.recv.eos,
        after@.decoder == before@.decoder,
        after@.remaining == before@.remaining,
{
}

/// To finish a frame stream is to finish its transport, with the same answer.
pub proof fn finished_with_the_transport<T: SendStream<B>, B>(
    before: FrameStream<T, B>,
    answer: WriteAnswer,
    after: FrameStream<T, B>,
)
    requires
        FrameStream::<T, B>::finishes(before, answer, after),
    ensures
        T::finishes(before@.recv.transport, answer, after@.recv.transport),
        after@.recv.chunks == before@.recv.chunks,
        after@.recv.eos == before@.recv.eos,
        after@.decoder == before@.decoder,
        after@.remaining == before@.remaining,
{
}

/// To reset a frame stream is to reset its transport, with the same code.
pub proof fn reset_with_the_transport<T: SendStream<B>, B>(
    before: FrameStream<T, B>,
    reset_code: u64,
    after: FrameStream<T, B>,
)
    requires
        FrameStream::<T, B>::resets(before, reset_code, after),
    ensures
        T::resets(before@.recv.transport, reset_code, after@.recv.transport),
        after@.recv.chunks == before@.recv.chunks,
        after@.recv.eos == before@.recv.eos,
        after@.decoder == before@.decoder,
        after@.remaining == before@.remaining,
{
}

/// What is said of the transport is said of the one that the stream holds, and
/// changing it changes nothing else.
pub proof fn said_of_the_transport<T: SendStream<B>, B>(
    frames: FrameStream<T, B>,
    recv: BufRecvStream<T, B>,
    transport: T,
)
    ensures
        frames.unread() == frames@.recv.transport.unread(),
        recv.unread() == recv@.transport.unread(),
        frames.spec_send_id() == frames@.recv.transport.spec_send_id(),
        recv.spec_send_id() == recv@.transport.spec_send_id(),
        frames@.with_transport(transport) == (FrameStreamState {
            recv: RecvState { transport, chunks: frames@.recv.chunks, eos: frames@.recv.eos },
            decoder: frames@.decoder,
            remaining: frames@.remaining,
        }),
        frames@.remaining.any() <==> frames@.remaining != RemainingData::Sized(0),
{
}

} // verus!

//! A receive stream with what was received and not yet used.
use crate::buf;
use crate::buf::BufList;
use crate::chunk;
use crate::proto::frame::Frame;
use crate::quic::{
    BidiStream, Is0rtt, ReadAnswer, RecvStream, SendStream, StreamErrorIncoming, StreamId,
    Unread, WriteAnswer,
};
use std::marker::PhantomData;
use std::task::{Context, Poll};
use vstd::prelude::*;

verus! {

/// What is handed to a send stream in one go: encoded bytes, and a frame whose
/// payload follows them.
#[derive(Debug)]
pub struct WriteBuf<B> {
    pub header: Vec<u8>,
    pub frame: Option<Frame<B>>,
}

/// A transport stream and what was received on it and not yet used.
#[derive(Debug)]
pub struct BufRecvStream<S, B> {
    buf: BufList,
    /// The end of the stream was reached. Something may still be buffered.
    eos: bool,
    stream: S,
    _marker: PhantomData<B>,
}

/// What a `BufRecvStream` is made of.
pub struct RecvState<S> {
    pub transport: S,
    /// The chunks that are buffered.
    pub chunks: Seq<Seq<u8>>,
    pub eos: bool,
}

impl<S> RecvState<S> {
    /// All that is buffered.
    pub open spec fn bytes(self) -> Seq<u8> {
        self.chunks.flatten()
    }
}

impl<S: Unread> RecvState<S> {
    /// The buffered chunks are in order, and what may still come can be counted
    /// together with them.
    pub open spec fn wf(self) -> bool {
        &&& buf::chunks_wf(self.chunks)
        &&& self.bytes().len() + self.transport.unread() <= usize::MAX
    }
}

impl<S> RecvState<S> {
    /// What is left when the transport answered `answer` and was left as
    /// `transport`: a chunk is buffered, the end is kept in mind.
    pub open spec fn after_read(self, answer: ReadAnswer, transport: S) -> RecvState<S> {
        match answer {
            Poll::Ready(Ok(Some(data))) => RecvState {
                transport,
                chunks: self.chunks.push(chunk::content(data)),
                eos: self.eos,
            },
            Poll::Ready(Ok(None)) => RecvState { transport, chunks: self.chunks, eos: true },
            _ => RecvState { transport, chunks: self.chunks, eos: self.eos },
        }
    }
}

/// What a read says of what the transport answered: whether the stream is over.
pub open spec fn read_result(answer: ReadAnswer) -> Poll<Result<bool, StreamErrorIncoming>> {
    match answer {
        Poll::Ready(Ok(Some(_))) => Poll::Ready(Ok(false)),
        Poll::Ready(Ok(None)) => Poll::Ready(Ok(true)),
        Poll::Ready(Err(e)) => Poll::Ready(Err(e)),
        Poll::Pending => Poll::Pending,
    }
}

impl<S, B> View for BufRecvStream<S, B> {
    type V = RecvState<S>;

    closed spec fn view(&self) -> RecvState<S> {
        RecvState { transport: self.stream, chunks: self.buf@, eos: self.eos }
    }
}

impl<S, B> BufRecvStream<S, B> {
    /// A stream of which nothing was read yet.
    pub fn new(stream: S) -> (recv: Self)
        ensures
            recv@ == (RecvState { transport: stream, chunks: Seq::empty(), eos: false }),
            recv@.bytes() == Seq::<u8>::empty(),
    {
        BufRecvStream { buf: BufList::new(), eos: false, stream, _marker: PhantomData }
    }

    /// What is buffered.
    pub fn buf(&self) -> (list: &BufList)
        ensures
            list@ == self@.chunks,
    {
        &self.buf
    }

    /// What is buffered, to take from or to add to.
    pub fn buf_mut(&mut self) -> (list: &mut BufList)
        ensures
            list@ == old(self)@.chunks,
            final(self)@ == (RecvState { chunks: final(list)@, ..old(self)@ }),
    {
        &mut self.buf
    }

    /// Was the end of the stream reached?
    pub fn is_eos(&self) -> (eos: bool)
        ensures
            eos == self@.eos,
    {
        self.eos
    }
}

impl<S: RecvStream, B> BufRecvStream<S, B> {
    /// Keeps what the transport handed over. `true` means that the stream is
    /// over.
    pub fn absorb(&mut self, answer: ReadAnswer) -> (result: Poll<
        Result<bool, StreamErrorIncoming>,
    >)
        requires
            buf::chunks_wf(old(self)@.chunks),
            answer matches Poll::Ready(Ok(Some(data))) ==> {
                &&& chunk::content(data).len() > 0
                &&& old(self)@.bytes().len() + chunk::content(data).len() <= usize::MAX
            },
        ensures
            result == read_result(answer),
            final(self)@ == old(self)@.after_read(answer, old(self)@.transport),
            buf::chunks_wf(final(self)@.chunks),
            final(self)@.transport == old(self)@.transport,
            match answer {
                Poll::Ready(Ok(Some(data))) => {
                    &&& result == Poll::Ready(Ok::<bool, StreamErrorIncoming>(false))
                    &&& final(self)@.chunks == old(self)@.chunks.push(chunk::content(data))
                    &&& final(self)@.eos == old(self)@.eos
                },
                Poll::Ready(Ok(None)) => {
                    &&& result == Poll::Ready(Ok::<bool, StreamErrorIncoming>(true))
                    &&& final(self)@.chunks == old(self)@.chunks
                    &&& final(self)@.eos
                },
                Poll::Ready(Err(e)) => {
                    &&& result == Poll::Ready(Err::<bool, StreamErrorIncoming>(e))
                    &&& final(self)@.chunks == old(self)@.chunks
                    &&& final(self)@.eos == old(self)@.eos
                },
                Poll::Pending => {
                    &&& result is Pending
                    &&& final(self)@ == old(self)@
                },
            },
    {
        match answer {
            Poll::Ready(Ok(Some(data))) => {
                let mut data = data;
                self.buf.push_bytes(&mut data);
                Poll::Ready(Ok(false))
            },
            Poll::Ready(Ok(None)) => {
                self.eos = true;
                Poll::Ready(Ok(true))
            },
            Poll::Ready(Err(e)) => Poll::Ready(Err(e)),
            Poll::Pending => Poll::Pending,
        }
    }

    /// Reads a chunk into the buffer. `true` means that the stream is over.
    pub fn poll_read(&mut self, cx: &mut Context<'_>) -> (result: Poll<
        Result<bool, StreamErrorIncoming>,
    >)
        requires
            old(self)@.wf(),
        ensures
            final(self)@.wf(),
            exists|answer: ReadAnswer| #[trigger]
                S::delivers(old(self)@.transport, answer, final(self)@.transport) && result
                    == read_result(answer) && final(self)@ == old(self)@.after_read(
                    answer,
                    final(self)@.transport,
                ),
            exists|answer: ReadAnswer| #[trigger]
                S::delivers(old(self)@.transport, answer, final(self)@.transport) && match answer {
                    Poll::Ready(Ok(Some(data))) => {
                        &&& result == Poll::Ready(Ok::<bool, StreamErrorIncoming>(false))
                        &&& final(self)@.chunks == old(self)@.chunks.push(chunk::content(data))
                        &&& final(self)@.eos == old(self)@.eos
                    },
                    Poll::Ready(Ok(None)) => {
                        &&& result == Poll::Ready(Ok::<bool, StreamErrorIncoming>(true))
                        &&& final(self)@.chunks == old(self)@.chunks
                        &&& final(self)@.eos
                    },
                    Poll::Ready(Err(e)) => {
                        &&& result == Poll::Ready(Err::<bool, StreamErrorIncoming>(e))
                        &&& final(self)@.chunks == old(self)@.chunks
                        &&& final(self)@.eos == old(self)@.eos
                    },
                    Poll::Pending => {
                        &&& result is Pending
                        &&& final(self)@.chunks == old(self)@.chunks
                        &&& final(self)@.eos == old(self)@.eos
                    },
                },
            result == Poll::Ready(Ok::<bool, StreamErrorIncoming>(false)) ==>
                final(self)@.transport.unread() < old(self)@.transport.unread(),
    {
        let answer = self.stream.poll_data(cx);
        let ghost mid = self@;
        let ghost given = answer;
        let result = self.absorb(answer);
        proof {
            if let Poll::Ready(Ok(Some(data))) = given {
                mid.chunks.lemma_flatten_push(chunk::content(data));
            }
            assert(S::delivers(old(self)@.transport, given, self@.transport));
            assert(self@ == old(self)@.after_read(given, self@.transport));
        }
        result
    }

    /// Tells the peer to send no more.
    pub fn stop_sending(&mut self, error_code: u64)
        ensures
            S::stops(old(self)@.transport, error_code, final(self)@.transport),
            final(self)@ == (RecvState { transport: final(self)@.transport, ..old(self)@ }),
            old(self)@.wf() ==> final(self)@.wf(),
    {
        self.stream.stop_sending(error_code);
    }

    pub fn recv_id(&self) -> (id: StreamId)
        ensures
            id == self@.transport.spec_recv_id(),
    {
        self.stream.recv_id()
    }
}

impl<S: Is0rtt, B> Is0rtt for BufRecvStream<S, B> {
    open spec fn spec_is_0rtt(&self) -> bool {
        self@.transport.spec_is_0rtt()
    }

    fn is_0rtt(&self) -> (early: bool)
        ensures
            early == self@.transport.spec_is_0rtt(),
    {
        self.stream.is_0rtt()
    }
}

impl<S: Unread, B> Unread for BufRecvStream<S, B> {
    open spec fn unread(&self) -> usize {
        self@.transport.unread()
    }
}

impl<S: SendStream<B>, B> SendStream<B> for BufRecvStream<S, B> {
    open spec fn readies(before: Self, answer: WriteAnswer, after: Self) -> bool {
        &&& S::readies(before@.transport, answer, after@.transport)
        &&& after@ == (RecvState { transport: after@.transport, ..before@ })
    }

    open spec fn sends(
        before: Self,
        data: WriteBuf<B>,
        result: Result<(), StreamErrorIncoming>,
        after: Self,
    ) -> bool {
        &&& S::sends(before@.transport, data, result, after@.transport)
        &&& after@ == (RecvState { transport: after@.transport, ..before@ })
    }

    open spec fn finishes(before: Self, answer: WriteAnswer, after: Self) -> bool {
        &&& S::finishes(before@.transport, answer, after@.transport)
        &&& after@ == (RecvState { transport: after@.transport, ..before@ })
    }

    open spec fn resets(before: Self, reset_code: u64, after: Self) -> bool {
        &&& S::resets(before@.transport, reset_code, after@.transport)
        &&& after@ == (RecvState { transport: after@.transport, ..before@ })
    }

    open spec fn spec_send_id(&self) -> StreamId {
        self@.transport.spec_send_id()
    }

    fn poll_ready(&mut self, cx: &mut Context<'_>) -> (answer: WriteAnswer)
        ensures
            S::readies(old(self)@.transport, answer, final(self)@.transport),
            final(self)@.chunks == old(self)@.chunks,
            final(self)@.eos == old(self)@.eos,
            old(self)@.wf() ==> final(self)@.wf(),
    {
        self.stream.poll_ready(cx)
    }

    fn send_data(&mut self, data: WriteBuf<B>) -> (result: Result<(), StreamErrorIncoming>)
        ensures
            S::sends(old(self)@.transport, data, result, final(self)@.transport),
            final(self)@.chunks == old(self)@.chunks,
            final(self)@.eos == old(self)@.eos,
            old(self)@.wf() ==> final(self)@.wf(),
    {
        self.stream.send_data(data)
    }

    fn poll_finish(&mut self, cx: &mut Context<'_>) -> (answer: WriteAnswer)
        ensures
            S::finishes(old(self)@.transport, answer, final(self)@.transport),
            final(self)@.chunks == old(self)@.chunks,
            final(self)@.eos == old(self)@.eos,
            old(self)@.wf() ==> final(self)@.wf(),
    {
        self.stream.poll_finish(cx)
    }

    fn reset(&mut self, reset_code: u64)
        ensures
            S::resets(old(self)@.transport, reset_code, final(self)@.transport),
            final(self)@.chunks == old(self)@.chunks,
            final(self)@.eos == old(self)@.eos,
            old(self)@.wf() ==> final(self)@.wf(),
    {
        self.stream.reset(reset_code)
    }

    fn send_id(&self) -> (id: StreamId)
        ensures
            id == self@.transport.spec_send_id(),
    {
        self.stream.send_id()
    }
}

impl<S: BidiStream<B>, B> BufRecvStream<S, B> {
    /// The two sides. What is buffered stays with the receiving one.
    pub fn split(self) -> (halves: (
        BufRecvStream<S::SendStream, B>,
        BufRecvStream<S::RecvStream, B>,
    ))
        ensures
            S::splits(self@.transport, halves.0@.transport, halves.1@.transport),
            halves.0@ == (RecvState {
                transport: halves.0@.transport,
                chunks: Seq::empty(),
                eos: self@.eos,
            }),
            halves.1@ == (RecvState {
                transport: halves.1@.transport,
                chunks: self@.chunks,
                eos: self@.eos,
            }),
            halves.0@.wf(),
            self@.wf() ==> halves.1@.wf(),
    {
        let (send, recv) = self.stream.split();
        (
            BufRecvStream {
                buf: BufList::new(),
                eos: self.eos,
                stream: send,
                _marker: PhantomData,
            },
            BufRecvStream { buf: self.buf, eos: self.eos, stream: recv, _marker: PhantomData },
        )
    }
}

} // verus!

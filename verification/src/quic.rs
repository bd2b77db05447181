//! What the framing layer asks of a QUIC implementation.
use crate::chunk;
use crate::stream::WriteBuf;
use bytes::Bytes;
use std::task::{Context, Poll};
use vstd::prelude::*;

verus! {

/// The identifier of a stream.
#[derive(Clone, Copy, Debug, PartialEq, Eq, Structural)]
pub struct StreamId(pub u64);

/// A number that cannot be the identifier of a stream.
#[derive(Clone, Copy, Debug, PartialEq, Eq, Structural)]
pub struct InvalidStreamId(pub u64);

/// Why a connection is gone.
#[derive(Debug)]
pub enum ConnectionErrorIncoming {
    /// The peer closed it.
    ApplicationClose { error_code: u64 },
    /// Nothing was heard of the peer for too long.
    Timeout,
    /// Something else, in words.
    Undefined(String),
}

/// Why a stream cannot be read or written.
#[derive(Debug)]
pub enum StreamErrorIncoming {
    /// The connection is gone.
    ConnectionErrorIncoming { connection_error: ConnectionErrorIncoming },
    /// The peer ended the stream.
    StreamTerminated { error_code: u64 },
    /// Something else, in words.
    Unknown(String),
}

/// What a receive stream answers when it is polled for data: a chunk, `None` at
/// the end of the stream, an error, or that there is nothing yet.
pub type ReadAnswer = Poll<Result<Option<Bytes>, StreamErrorIncoming>>;

/// What a send stream answers when it is polled.
pub type WriteAnswer = Poll<Result<(), StreamErrorIncoming>>;

/// A stream, with a bound on what may still come on it.
pub trait Unread: Sized {
    /// A number of bytes above which no more are delivered. On a side that only
    /// sends none are.
    ///
    /// A QUIC stream carries less than `2^62` bytes, so where `usize` has 64
    /// bits such a number is always there. Where it has 32 bits, only streams
    /// are covered that carry less than `2^32` bytes in all.
    spec fn unread(&self) -> usize;
}

/// The receiving side of a stream.
///
/// What an implementation does is for itself to say, in `delivers` and
/// `stops`. Two things are asked of all: a chunk is never empty, and no more
/// bytes come than `unread` says.
pub trait RecvStream: Unread {
    /// May a poll for data on `before` answer `answer` and leave `after`?
    spec fn delivers(before: Self, answer: ReadAnswer, after: Self) -> bool;

    /// May stopping `before` with `error_code` leave `after`?
    spec fn stops(before: Self, error_code: u64, after: Self) -> bool;

    /// The identifier of the stream.
    spec fn spec_recv_id(&self) -> StreamId;

    fn poll_data(&mut self, cx: &mut Context<'_>) -> (answer: ReadAnswer)
        ensures
            Self::delivers(*old(self), answer, *final(self)),
            match answer {
                Poll::Ready(Ok(Some(data))) => {
                    &&& chunk::content(data).len() > 0
                    &&& final(self).unread() + chunk::content(data).len() <= old(self).unread()
                },
                _ => final(self).unread() <= old(self).unread(),
            },
    ;

    /// Tells the peer to send no more.
    fn stop_sending(&mut self, error_code: u64)
        ensures
            Self::stops(*old(self), error_code, *final(self)),
            final(self).unread() <= old(self).unread(),
    ;

    fn recv_id(&self) -> (id: StreamId)
        ensures
            id == self.spec_recv_id(),
    ;
}

/// The sending side of a stream.
///
/// What an implementation does is for itself to say, in `readies`, `sends`,
/// `finishes` and `resets`. One thing is asked of all: where bytes may still
/// come on the stream, sending does not make them more than `unread` says.
pub trait SendStream<B>: Unread {
    /// May a poll for readiness on `before` answer `answer` and leave `after`?
    spec fn readies(before: Self, answer: WriteAnswer, after: Self) -> bool;

    /// May `before` take `data` with that result and be left as `after`?
    spec fn sends(
        before: Self,
        data: WriteBuf<B>,
        result: Result<(), StreamErrorIncoming>,
        after: Self,
    ) -> bool;

    /// May a poll for the end on `before` answer `answer` and leave `after`?
    spec fn finishes(before: Self, answer: WriteAnswer, after: Self) -> bool;

    /// May resetting `before` with `reset_code` leave `after`?
    spec fn resets(before: Self, reset_code: u64, after: Self) -> bool;

    /// The identifier of the stream.
    spec fn spec_send_id(&self) -> StreamId;

    fn poll_ready(&mut self, cx: &mut Context<'_>) -> (answer: WriteAnswer)
        ensures
            Self::readies(*old(self), answer, *final(self)),
            final(self).unread() <= old(self).unread(),
    ;

    fn send_data(&mut self, data: WriteBuf<B>) -> (result: Result<(), StreamErrorIncoming>)
        ensures
            Self::sends(*old(self), data, result, *final(self)),
            final(self).unread() <= old(self).unread(),
    ;

    fn poll_finish(&mut self, cx: &mut Context<'_>) -> (answer: WriteAnswer)
        ensures
            Self::finishes(*old(self), answer, *final(self)),
            final(self).unread() <= old(self).unread(),
    ;

    fn reset(&mut self, reset_code: u64)
        ensures
            Self::resets(*old(self), reset_code, *final(self)),
            final(self).unread() <= old(self).unread(),
    ;

    fn send_id(&self) -> (id: StreamId)
        ensures
            id == self.spec_send_id(),
    ;
}

/// A stream with both sides.
pub trait BidiStream<B>: SendStream<B> + RecvStream {
    type SendStream: SendStream<B>;

    type RecvStream: RecvStream;

    /// May splitting `whole` give these two sides?
    spec fn splits(whole: Self, send: Self::SendStream, recv: Self::RecvStream) -> bool;

    fn split(self) -> (halves: (Self::SendStream, Self::RecvStream))
        ensures
            Self::splits(self, halves.0, halves.1),
            halves.1.unread() <= self.unread(),
    ;
}

/// A stream that may have been opened before the handshake was over.
pub trait Is0rtt {
    /// Was it?
    spec fn spec_is_0rtt(&self) -> bool;

    fn is_0rtt(&self) -> (early: bool)
        ensures
            early == self.spec_is_0rtt(),
    ;
}

} // verus!

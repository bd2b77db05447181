use bytes::{Buf, Bytes};
use h3_frame::error::Code;
use h3_frame::frame::{FrameProtocolError, FrameStream, FrameStreamError};
use h3_frame::proto::frame::{Frame, FrameType, PayloadLen, SessionId};
use h3_frame::quic::{
    BidiStream, Is0rtt, ReadAnswer, RecvStream, SendStream, StreamErrorIncoming, StreamId,
    Unread, WriteAnswer,
};
use h3_frame::stream::{BufRecvStream, WriteBuf};
use h3_frame::varint::VarInt;
use std::cell::{Cell, RefCell};
use std::collections::VecDeque;
use std::rc::Rc;
use std::sync::Arc;
use std::task::{Context, Poll, Wake, Waker};

struct Idle;

impl Wake for Idle {
    fn wake(self: Arc<Self>) {}
}

/// A transport that has all its chunks at hand and then ends.
#[derive(Default)]
struct FakeRecv {
    chunks: VecDeque<Bytes>,
    poll_count: Rc<Cell<usize>>,
}

impl FakeRecv {
    fn chunk(&mut self, buf: Bytes) -> &mut Self {
        self.chunks.push_back(buf);
        self
    }
}

impl Unread for FakeRecv {
    // Only says something in proofs, and is never run.
    fn unread(&self) -> usize {
        unreachable!()
    }
}

impl RecvStream for FakeRecv {
    // The next three only say something in proofs, and are never run.

    fn delivers(_: Self, _: ReadAnswer, _: Self) -> bool {
        unreachable!()
    }

    fn stops(_: Self, _: u64, _: Self) -> bool {
        unreachable!()
    }

    fn spec_recv_id(&self) -> StreamId {
        unreachable!()
    }

    fn poll_data(&mut self, _: &mut Context<'_>) -> ReadAnswer {
        self.poll_count.set(self.poll_count.get() + 1);
        Poll::Ready(Ok(self.chunks.pop_front()))
    }

    fn stop_sending(&mut self, _: u64) {
        unreachable!()
    }

    fn recv_id(&self) -> StreamId {
        unreachable!()
    }
}

/// A transport that answers as it is told.
struct Scripted {
    answers: VecDeque<ReadAnswer>,
}

impl Unread for Scripted {
    // Only says something in proofs, and is never run.
    fn unread(&self) -> usize {
        unreachable!()
    }
}

impl RecvStream for Scripted {
    // The next three only say something in proofs, and are never run.

    fn delivers(_: Self, _: ReadAnswer, _: Self) -> bool {
        unreachable!()
    }

    fn stops(_: Self, _: u64, _: Self) -> bool {
        unreachable!()
    }

    fn spec_recv_id(&self) -> StreamId {
        unreachable!()
    }

    fn poll_data(&mut self, _: &mut Context<'_>) -> ReadAnswer {
        self.answers.pop_front().unwrap_or(Poll::Pending)
    }

    fn stop_sending(&mut self, _: u64) {
        unreachable!()
    }

    fn recv_id(&self) -> StreamId {
        StreamId(12)
    }
}

fn chunk(data: &[u8]) -> ReadAnswer {
    Poll::Ready(Ok(Some(Bytes::copy_from_slice(data))))
}

fn scripted(answers: Vec<ReadAnswer>) -> FrameStream<Scripted, ()> {
    FrameStream::new(BufRecvStream::new(Scripted {
        answers: VecDeque::from(answers),
    }))
}

/// A transport that writes down what it is asked.
#[derive(Clone, Default)]
struct Noted {
    log: Rc<RefCell<Vec<String>>>,
}

impl Noted {
    fn note(&self, what: String) {
        self.log.borrow_mut().push(what);
    }
}

impl Unread for Noted {
    // Only says something in proofs, and is never run.
    fn unread(&self) -> usize {
        unreachable!()
    }
}

impl RecvStream for Noted {
    // The next three only say something in proofs, and are never run.

    fn delivers(_: Self, _: ReadAnswer, _: Self) -> bool {
        unreachable!()
    }

    fn stops(_: Self, _: u64, _: Self) -> bool {
        unreachable!()
    }

    fn spec_recv_id(&self) -> StreamId {
        unreachable!()
    }

    fn poll_data(&mut self, _: &mut Context<'_>) -> ReadAnswer {
        self.note("poll_data".to_string());
        Poll::Pending
    }

    fn stop_sending(&mut self, error_code: u64) {
        self.note(format!("stop_sending {:#x}", error_code));
    }

    fn recv_id(&self) -> StreamId {
        StreamId(4)
    }
}

impl SendStream<Bytes> for Noted {
    // The next five only say something in proofs, and are never run.

    fn readies(_: Self, _: WriteAnswer, _: Self) -> bool {
        unreachable!()
    }

    fn sends(
        _: Self,
        _: WriteBuf<Bytes>,
        _: Result<(), StreamErrorIncoming>,
        _: Self,
    ) -> bool {
        unreachable!()
    }

    fn finishes(_: Self, _: WriteAnswer, _: Self) -> bool {
        unreachable!()
    }

    fn resets(_: Self, _: u64, _: Self) -> bool {
        unreachable!()
    }

    fn spec_send_id(&self) -> StreamId {
        unreachable!()
    }

    fn poll_ready(&mut self, _: &mut Context<'_>) -> WriteAnswer {
        self.note("poll_ready".to_string());
        Poll::Ready(Ok(()))
    }

    fn send_data(&mut self, data: WriteBuf<Bytes>) -> Result<(), StreamErrorIncoming> {
        self.note(format!("send_data {:?}", data.header));
        Err(StreamErrorIncoming::StreamTerminated { error_code: 3 })
    }

    fn poll_finish(&mut self, _: &mut Context<'_>) -> WriteAnswer {
        self.note("poll_finish".to_string());
        Poll::Pending
    }

    fn reset(&mut self, reset_code: u64) {
        self.note(format!("reset {}", reset_code));
    }

    fn send_id(&self) -> StreamId {
        StreamId(8)
    }
}

impl BidiStream<Bytes> for Noted {
    type SendStream = Noted;
    type RecvStream = Noted;

    // Only says something in proofs, and is never run.
    fn splits(_: Noted, _: Noted, _: Noted) -> bool {
        unreachable!()
    }

    fn split(self) -> (Noted, Noted) {
        (self.clone(), self)
    }
}

impl Is0rtt for Noted {
    // Only says something in proofs, and is never run.
    fn spec_is_0rtt(&self) -> bool {
        unreachable!()
    }

    fn is_0rtt(&self) -> bool {
        true
    }
}

fn next<S: RecvStream, B>(
    stream: &mut FrameStream<S, B>,
) -> Poll<Result<Option<Frame<PayloadLen>>, FrameStreamError>> {
    let waker = Waker::from(Arc::new(Idle));
    assert!(!stream.has_data());
    stream.poll_next(&mut Context::from_waker(&waker))
}

fn data<S: RecvStream, B>(
    stream: &mut FrameStream<S, B>,
) -> Poll<Result<Option<Bytes>, FrameStreamError>> {
    let waker = Waker::from(Arc::new(Idle));
    stream.poll_data(&mut Context::from_waker(&waker))
}

fn ready<T>(poll: Poll<T>) -> T {
    match poll {
        Poll::Ready(value) => value,
        Poll::Pending => panic!("nothing was there"),
    }
}

fn encode(ty: u64, len: u64, out: &mut Vec<u8>) {
    FrameType(ty).encode(out);
    VarInt::from_u64(len).unwrap().encode(out);
}

#[test]
fn oversized_incomplete_headers_do_not_buffer_the_announced_payload() {
    let mut header = Vec::new();
    FrameType(FrameType::HEADERS).encode(&mut header);
    VarInt::from_u64(256 * 1024_u64)
        .unwrap()
        .encode(&mut header);
    let header_len = header.len();
    let mut recv = FakeRecv::default();
    recv.chunk(Bytes::from(header));
    for _ in 0..128 {
        recv.chunk(Bytes::from(vec![0_u8; 1024]));
    }
    let polls = recv.poll_count.clone();
    let mut stream: FrameStream<_, ()> = FrameStream::new(BufRecvStream::new(recv));

    let result = ready(next(&mut stream));
    let buffered = stream.stream.buf().remaining();
    assert!(
        matches!(result, Err(FrameStreamError::Proto(_))),
        "expected rejection from the frame header, got {:?}; retained {} bytes after {} transport polls",
        result,
        buffered,
        polls.get(),
    );
    assert_eq!(polls.get(), 1);
    assert_eq!(buffered, header_len);
}

#[test]
fn configured_limit_accepts_boundary_and_rejects_trailers_above_it() {
    let mut recv = FakeRecv::default();
    let mut headers = Vec::new();
    Frame::headers(Bytes::from(&b"12345"[..])).encode_with_payload(&mut headers);
    Frame::Data(Bytes::from(&b""[..])).encode_with_payload(&mut headers);
    FrameType(FrameType::HEADERS).encode(&mut headers);
    VarInt::from_u32(6).encode(&mut headers);
    recv.chunk(Bytes::from(headers));
    let mut stream: FrameStream<_, ()> =
        FrameStream::new(BufRecvStream::new(recv)).with_max_non_data_frame_size(5);
    assert!(matches!(
        ready(next(&mut stream)),
        Ok(Some(Frame::Headers(_)))
    ));
    assert!(matches!(
        ready(next(&mut stream)),
        Ok(Some(Frame::Data(PayloadLen(0))))
    ));
    assert!(matches!(
        ready(next(&mut stream)),
        Err(FrameStreamError::Proto(FrameProtocolError::TooLarge {
            length: 6,
            max: 5
        }))
    ));
}

#[test]
fn configurable_limit_can_accept_larger_encoded_headers() {
    let mut bytes = Vec::new();
    Frame::headers(Bytes::from(vec![0_u8; 128 * 1024])).encode_with_payload(&mut bytes);
    let mut recv = FakeRecv::default();
    recv.chunk(Bytes::from(bytes));
    let mut stream: FrameStream<_, ()> =
        FrameStream::new(BufRecvStream::new(recv)).with_max_non_data_frame_size(128 * 1024);
    assert!(matches!(
        ready(next(&mut stream)),
        Ok(Some(Frame::Headers(headers))) if headers.len() == 128 * 1024
    ));
}

#[test]
fn poll_full_request() {
    let mut recv = FakeRecv::default();
    let mut buf = Vec::with_capacity(64);

    Frame::headers(Bytes::from(&b"header"[..])).encode_with_payload(&mut buf);
    Frame::Data(Bytes::from(&b"body"[..])).encode_with_payload(&mut buf);
    Frame::headers(Bytes::from(&b"trailer"[..])).encode_with_payload(&mut buf);
    recv.chunk(Bytes::from(buf));

    let mut stream: FrameStream<_, ()> = FrameStream::new(BufRecvStream::new(recv));

    assert!(matches!(
        ready(next(&mut stream)),
        Ok(Some(Frame::Headers(_)))
    ));
    assert!(matches!(
        ready(next(&mut stream)),
        Ok(Some(Frame::Data(PayloadLen(4))))
    ));
    assert!(matches!(
        ready(data(&mut stream)),
        Ok(Some(b)) if b.remaining() == 4
    ));
    assert!(matches!(
        ready(next(&mut stream)),
        Ok(Some(Frame::Headers(_)))
    ));
}

#[test]
fn poll_next_applies_backpressure_before_reading_more_chunks() {
    const CHUNK_COUNT: usize = 64;
    const FRAMES_PER_CHUNK: usize = 16;
    const FRAME_PAYLOAD_SIZE: usize = 1024;

    let mut encoded_chunk = Vec::new();
    let payload = Bytes::from(vec![0_u8; FRAME_PAYLOAD_SIZE]);
    for _ in 0..FRAMES_PER_CHUNK {
        Frame::headers(payload.clone()).encode_with_payload(&mut encoded_chunk);
    }
    let encoded_chunk = Bytes::from(encoded_chunk);
    let max_buffered = encoded_chunk.len();

    let mut recv = FakeRecv::default();
    for _ in 0..CHUNK_COUNT {
        recv.chunk(encoded_chunk.clone());
    }
    let transport_polls = recv.poll_count.clone();

    let mut stream: FrameStream<_, ()> = FrameStream::new(BufRecvStream::new(recv));

    // Model a consumer that processes one frame per wake while the
    // transport can provide chunks containing many complete frames.
    for _ in 0..CHUNK_COUNT {
        assert!(matches!(
            ready(next(&mut stream)),
            Ok(Some(Frame::Headers(_)))
        ));
    }

    let buffered = stream.stream.buf().remaining();
    assert!(
        buffered <= max_buffered,
        "frame buffering grew past one transport chunk: {buffered} > {max_buffered}"
    );
    assert_eq!(
        transport_polls.get(),
        CHUNK_COUNT.div_ceil(FRAMES_PER_CHUNK),
        "transport was polled while complete frames were still buffered"
    );
}

#[test]
fn poll_next_incomplete_frame() {
    let mut recv = FakeRecv::default();
    let mut buf = Vec::with_capacity(64);

    Frame::headers(Bytes::from(&b"header"[..])).encode_with_payload(&mut buf);
    let mut buf = Bytes::from(buf);
    recv.chunk(buf.split_to(buf.len() - 1));
    let mut stream: FrameStream<_, ()> = FrameStream::new(BufRecvStream::new(recv));

    assert!(matches!(
        ready(next(&mut stream)),
        Err(FrameStreamError::UnexpectedEnd)
    ));
}

#[test]
fn poll_data_split() {
    let mut recv = FakeRecv::default();
    let mut buf = Vec::with_capacity(64);

    // Body is split into two bufs
    Frame::Data(Bytes::from("body")).encode_with_payload(&mut buf);

    let mut buf = Bytes::from(buf);
    recv.chunk(buf.split_to(buf.len() - 2));
    recv.chunk(buf);
    let mut stream: FrameStream<_, ()> = FrameStream::new(BufRecvStream::new(recv));

    // We get the total size of data about to be received
    assert!(matches!(
        ready(next(&mut stream)),
        Ok(Some(Frame::Data(PayloadLen(4))))
    ));

    // Then we get parts of body, chunked as they arrived
    assert!(matches!(
        ready(data(&mut stream)),
        Ok(Some(b)) if b.remaining() == 2
    ));
    assert!(matches!(
        ready(data(&mut stream)),
        Ok(Some(b)) if b.remaining() == 2
    ));
}

#[test]
fn poll_data_unexpected_end() {
    let mut recv = FakeRecv::default();
    let mut buf = Vec::with_capacity(64);

    // Truncated body
    FrameType(FrameType::DATA).encode(&mut buf);
    VarInt::from_u32(4).encode(&mut buf);
    buf.extend_from_slice(&b"b"[..]);
    recv.chunk(Bytes::from(buf));
    let mut stream: FrameStream<_, ()> = FrameStream::new(BufRecvStream::new(recv));

    assert!(matches!(
        ready(next(&mut stream)),
        Ok(Some(Frame::Data(PayloadLen(4))))
    ));
    assert!(matches!(
        ready(data(&mut stream)),
        Err(FrameStreamError::UnexpectedEnd)
    ));
}

#[test]
fn poll_data_ignores_unknown_frames() {
    let mut recv = FakeRecv::default();
    let mut buf = Vec::with_capacity(64);

    // grease a lil
    FrameType(0x1f * 7 + 0x21).encode(&mut buf);
    VarInt::from_u32(0).encode(&mut buf);

    // grease with some data
    FrameType(0x1f * 123_456_789 + 0x21).encode(&mut buf);
    VarInt::from_u32(6).encode(&mut buf);
    buf.extend_from_slice(b"grease");

    // Body
    Frame::Data(Bytes::from("body")).encode_with_payload(&mut buf);

    recv.chunk(Bytes::from(buf));
    let mut stream: FrameStream<_, ()> = FrameStream::new(BufRecvStream::new(recv));

    assert!(matches!(
        ready(next(&mut stream)),
        Ok(Some(Frame::Data(PayloadLen(4))))
    ));
    assert!(matches!(
        ready(data(&mut stream)),
        Ok(Some(b)) if &*b == b"body"
    ));
}

#[test]
fn poll_data_eos_but_buffered_data() {
    let mut recv = FakeRecv::default();
    let mut buf = Vec::with_capacity(64);

    FrameType(FrameType::DATA).encode(&mut buf);
    VarInt::from_u32(4).encode(&mut buf);
    buf.extend_from_slice(&b"bo"[..]);
    recv.chunk(Bytes::from(buf.clone()));

    let mut stream: FrameStream<_, ()> = FrameStream::new(BufRecvStream::new(recv));

    assert!(matches!(
        ready(next(&mut stream)),
        Ok(Some(Frame::Data(PayloadLen(4))))
    ));

    buf.truncate(0);
    buf.extend_from_slice(&b"dy"[..]);
    stream.stream.buf_mut().push_bytes(&mut Bytes::from(buf));

    assert!(matches!(
        ready(data(&mut stream)),
        Ok(Some(b)) if &*b == b"bo"
    ));

    assert!(matches!(
        ready(data(&mut stream)),
        Ok(Some(b)) if &*b == b"dy"
    ));
}

#[test]
fn awaiting_a_frame() {
    let mut stream = scripted(vec![
        chunk(b"\x01"),
        Poll::Pending,
        chunk(b"\x05sa"),
        chunk(b"lu"),
        Poll::Pending,
        chunk(b"t\x07\x01\x09"),
    ]);
    assert!(matches!(next(&mut stream), Poll::Pending));
    assert_eq!(stream.stream.buf().remaining(), 1);
    assert!(matches!(next(&mut stream), Poll::Pending));
    assert_eq!(stream.stream.buf().remaining(), 6);
    assert_eq!(
        ready(next(&mut stream)).unwrap(),
        Some(Frame::Headers(Bytes::from("salut")))
    );
    assert_eq!(stream.stream.buf().remaining(), 3);
    assert_eq!(
        ready(next(&mut stream)).unwrap(),
        Some(Frame::Goaway(VarInt::from_u32(9)))
    );
    assert!(matches!(next(&mut stream), Poll::Pending));
}

#[test]
fn end_of_the_stream() {
    let mut stream = scripted(vec![chunk(b"\x07\x01\x09"), Poll::Ready(Ok(None))]);
    assert!(matches!(
        ready(next(&mut stream)),
        Ok(Some(Frame::Goaway(_)))
    ));
    assert!(!stream.is_eos());
    assert!(matches!(ready(next(&mut stream)), Ok(None)));
    assert!(stream.is_eos());
    // The transport is not asked again.
    assert!(matches!(ready(next(&mut stream)), Ok(None)));
}

#[test]
fn end_in_the_middle_of_a_header() {
    let mut stream = scripted(vec![chunk(b"\x01"), Poll::Ready(Ok(None))]);
    for _ in 0..2 {
        assert!(matches!(
            ready(next(&mut stream)),
            Err(FrameStreamError::UnexpectedEnd)
        ));
    }
    assert!(!stream.is_eos());
}

#[test]
fn errors_of_the_transport() {
    let failure = || {
        Poll::Ready(Err(StreamErrorIncoming::StreamTerminated {
            error_code: 0x10c,
        }))
    };
    let mut stream = scripted(vec![chunk(b"\x00\x04bo"), failure()]);
    assert!(matches!(
        ready(next(&mut stream)),
        Ok(Some(Frame::Data(PayloadLen(4))))
    ));
    assert!(matches!(
        ready(data(&mut stream)),
        Err(FrameStreamError::Quic(
            StreamErrorIncoming::StreamTerminated { error_code: 0x10c }
        ))
    ));
    // What was received before can still be had.
    assert!(matches!(
        ready(data(&mut stream)),
        Ok(Some(b)) if &*b == b"bo"
    ));
    let mut stream = scripted(vec![failure()]);
    assert!(matches!(
        ready(next(&mut stream)),
        Err(FrameStreamError::Quic(
            StreamErrorIncoming::StreamTerminated { error_code: 0x10c }
        ))
    ));
}

#[test]
fn payload_in_pieces() {
    let mut stream = scripted(vec![
        chunk(b"\x00\x0aab"),
        chunk(b"cdef"),
        Poll::Pending,
        chunk(b"ghij\x07\x01\x01"),
        Poll::Pending,
        Poll::Ready(Ok(None)),
    ]);
    assert!(!stream.has_data());
    assert!(matches!(data(&mut stream), Poll::Ready(Ok(None))));
    assert!(matches!(
        ready(next(&mut stream)),
        Ok(Some(Frame::Data(PayloadLen(10))))
    ));
    assert!(stream.has_data());
    let mut body = Vec::new();
    while stream.has_data() {
        if let Poll::Ready(piece) = data(&mut stream) {
            body.extend_from_slice(&piece.unwrap().unwrap());
        }
    }
    assert_eq!(body, b"abcdefghij");
    assert!(matches!(data(&mut stream), Poll::Ready(Ok(None))));
    assert_eq!(
        ready(next(&mut stream)).unwrap(),
        Some(Frame::Goaway(VarInt::from_u32(1)))
    );
}

#[test]
fn payload_not_there_yet() {
    let mut stream = scripted(vec![chunk(b"\x00\x02"), Poll::Pending, chunk(b"ab")]);
    assert!(matches!(
        ready(next(&mut stream)),
        Ok(Some(Frame::Data(PayloadLen(2))))
    ));
    assert!(matches!(data(&mut stream), Poll::Pending));
    assert!(matches!(
        ready(data(&mut stream)),
        Ok(Some(b)) if &*b == b"ab"
    ));
    assert!(!stream.has_data());
}

#[test]
fn payload_that_never_comes() {
    let mut stream = scripted(vec![chunk(b"\x00\x02"), Poll::Ready(Ok(None))]);
    assert!(matches!(
        ready(next(&mut stream)),
        Ok(Some(Frame::Data(PayloadLen(2))))
    ));
    assert!(matches!(ready(data(&mut stream)), Ok(None)));
    assert!(stream.has_data());
}

#[test]
fn webtransport_lasts_until_the_end() {
    let mut stream = scripted(vec![
        chunk(b"\x40\x41\x04ab"),
        chunk(b"cd"),
        Poll::Ready(Ok(None)),
    ]);
    assert_eq!(
        ready(next(&mut stream)).unwrap(),
        Some(Frame::WebTransportStream(SessionId(VarInt::from_u32(4))))
    );
    let mut body = Vec::new();
    while let Some(piece) = ready(data(&mut stream)).unwrap() {
        assert!(stream.has_data());
        body.extend_from_slice(&piece);
    }
    assert_eq!(body, b"abcd");
    assert!(stream.is_eos());
}

#[test]
fn handing_on_what_is_buffered() {
    let mut stream = scripted(vec![chunk(b"\x00\x04body")]);
    assert!(matches!(
        ready(next(&mut stream)),
        Ok(Some(Frame::Data(PayloadLen(4))))
    ));
    assert!(matches!(
        ready(stream.hand_on(true)),
        Ok(Some(b)) if &*b == b"body"
    ));
    assert!(!stream.has_data());

    let mut stream = scripted(vec![chunk(b"\x00\x05body")]);
    assert!(matches!(
        ready(next(&mut stream)),
        Ok(Some(Frame::Data(PayloadLen(5))))
    ));
    assert!(matches!(
        ready(stream.hand_on(true)),
        Err(FrameStreamError::UnexpectedEnd)
    ));
    assert!(matches!(ready(stream.hand_on(true)), Ok(None)));
    assert!(matches!(stream.hand_on(false), Poll::Pending));
}

#[test]
fn limit_before_and_after() {
    let mut stream = scripted(vec![chunk(b"\x01\x05"), Poll::Pending]);
    assert!(matches!(next(&mut stream), Poll::Pending));
    // A lower limit is minded at once, although more bytes were awaited.
    let mut stream = stream.with_max_non_data_frame_size(4);
    assert!(matches!(
        ready(next(&mut stream)),
        Err(FrameStreamError::Proto(FrameProtocolError::TooLarge {
            length: 5,
            max: 4
        }))
    ));
    let mut stream = stream.with_max_non_data_frame_size(5);
    assert!(matches!(next(&mut stream), Poll::Pending));
    assert_eq!(stream.stream.buf().remaining(), 2);
}

#[test]
fn little_is_buffered_while_awaiting() {
    let mut answers = Vec::new();
    let mut header = Vec::new();
    encode(0x21, 100, &mut header);
    encode(FrameType::HEADERS, 1000, &mut header);
    answers.push(chunk(&header[..2]));
    answers.push(chunk(&header[2..3]));
    answers.push(chunk(&vec![0_u8; 100]));
    answers.push(chunk(&header[3..]));
    for _ in 0..9 {
        answers.push(chunk(&[0_u8; 111]));
    }
    answers.push(Poll::Pending);
    let mut stream = scripted(answers).with_max_non_data_frame_size(1000);
    assert!(matches!(next(&mut stream), Poll::Pending));
    assert_eq!(stream.stream.buf().remaining(), 3 + 999);
    assert!(stream.stream.buf().remaining() < 16 + 1000);
}

#[test]
fn taken_apart_without_loss() {
    let mut stream = scripted(vec![chunk(b"\x07\x01\x09\x01\x05sal"), Poll::Pending]);
    assert!(matches!(
        ready(next(&mut stream)),
        Ok(Some(Frame::Goaway(_)))
    ));
    assert!(matches!(next(&mut stream), Poll::Pending));
    assert_eq!(stream.id(), StreamId(12));
    let mut inner = stream.into_inner();
    assert_eq!(inner.buf().remaining(), 5);
    assert!(!inner.is_eos());
    inner.buf_mut().push(Bytes::from("ut"));
    let mut stream = FrameStream::new(inner);
    assert_eq!(
        ready(next(&mut stream)).unwrap(),
        Some(Frame::Headers(Bytes::from("salut")))
    );
}

#[test]
fn made_anew_a_stream_goes_on() {
    let answers = || {
        vec![
            chunk(b"\x01\x05sa"),
            Poll::Pending,
            chunk(b"lu"),
            chunk(b"t\x21\x01x\x00\x03ab"),
            chunk(b"c\x07\x01\x09"),
            Poll::Ready(Ok(None)),
        ]
    };
    let mut kept = scripted(answers());
    let mut anew = scripted(answers());
    assert!(matches!(next(&mut kept), Poll::Pending));
    assert!(matches!(next(&mut anew), Poll::Pending));
    for _ in 0..4 {
        anew = FrameStream::new(anew.into_inner());
        let frame = ready(next(&mut kept)).unwrap();
        assert_eq!(frame, ready(next(&mut anew)).unwrap());
        while kept.has_data() {
            assert!(anew.has_data());
            assert_eq!(
                ready(data(&mut kept)).unwrap(),
                ready(data(&mut anew)).unwrap()
            );
        }
        assert!(!anew.has_data());
        assert_eq!(
            kept.stream.buf().remaining(),
            anew.stream.buf().remaining()
        );
    }
    assert!(kept.is_eos());
    assert!(anew.is_eos());
}

#[test]
fn never_polled_after_the_end() {
    let mut recv = FakeRecv::default();
    recv.chunk(Bytes::from(&b"\x00\x04bo"[..]));
    let polls = recv.poll_count.clone();
    let mut stream: FrameStream<_, ()> = FrameStream::new(BufRecvStream::new(recv));
    let waker = Waker::from(Arc::new(Idle));
    let mut cx = Context::from_waker(&waker);
    assert!(matches!(stream.try_recv(&mut cx), Poll::Ready(Ok(false))));
    assert!(matches!(stream.try_recv(&mut cx), Poll::Ready(Ok(true))));
    assert_eq!(polls.get(), 2);
    assert!(matches!(stream.try_recv(&mut cx), Poll::Ready(Ok(true))));
    assert!(matches!(
        ready(next(&mut stream)),
        Ok(Some(Frame::Data(PayloadLen(4))))
    ));
    assert!(matches!(
        ready(data(&mut stream)),
        Err(FrameStreamError::UnexpectedEnd)
    ));
    assert!(matches!(ready(data(&mut stream)), Ok(None)));
    assert_eq!(polls.get(), 2);
}

#[test]
fn requests_to_the_transport() {
    let transport = Noted::default();
    let log = transport.log.clone();
    let mut stream: FrameStream<Noted, Bytes> = FrameStream::new(BufRecvStream::new(transport));
    let waker = Waker::from(Arc::new(Idle));
    let mut cx = Context::from_waker(&waker);

    assert!(stream.is_0rtt());
    assert_eq!(stream.id(), StreamId(4));
    assert_eq!(stream.send_id(), StreamId(8));
    assert!(matches!(next(&mut stream), Poll::Pending));
    stream.stop_sending(Code::H3_REQUEST_CANCELLED);
    assert!(matches!(stream.poll_ready(&mut cx), Poll::Ready(Ok(()))));
    let sent = stream.send_data(WriteBuf {
        header: vec![1, 2],
        frame: None,
    });
    assert!(matches!(
        sent,
        Err(StreamErrorIncoming::StreamTerminated { error_code: 3 })
    ));
    assert!(matches!(stream.poll_finish(&mut cx), Poll::Pending));
    stream.reset(7);
    assert_eq!(
        *log.borrow(),
        vec![
            "poll_data",
            "stop_sending 0x10c",
            "poll_ready",
            "send_data [1, 2]",
            "poll_finish",
            "reset 7",
        ]
    );
}

#[test]
fn the_receiving_side_keeps_what_was_received() {
    let mut stream: FrameStream<Noted, Bytes> =
        FrameStream::new(BufRecvStream::new(Noted::default())).with_max_non_data_frame_size(4);
    stream
        .stream
        .buf_mut()
        .push(Bytes::from(&b"\x00\x02ab\x01\x05"[..]));
    assert!(matches!(
        ready(next(&mut stream)),
        Ok(Some(Frame::Data(PayloadLen(2))))
    ));
    let (send, mut recv) = stream.split();
    assert!(!send.has_data());
    assert_eq!(send.stream.buf().remaining(), 0);
    assert!(recv.has_data());
    assert!(matches!(
        ready(data(&mut recv)),
        Ok(Some(b)) if &*b == b"ab"
    ));
    assert!(matches!(
        ready(next(&mut recv)),
        Err(FrameStreamError::Proto(FrameProtocolError::TooLarge {
            length: 5,
            max: 4
        }))
    ));
}

#[test]
fn reading_into_the_buffer() {
    let mut recv: BufRecvStream<Scripted, ()> = BufRecvStream::new(Scripted {
        answers: VecDeque::from(vec![chunk(b"abc"), Poll::Pending, Poll::Ready(Ok(None))]),
    });
    let waker = Waker::from(Arc::new(Idle));
    let mut cx = Context::from_waker(&waker);
    assert!(matches!(recv.poll_read(&mut cx), Poll::Ready(Ok(false))));
    assert_eq!(recv.buf().remaining(), 3);
    assert!(matches!(recv.poll_read(&mut cx), Poll::Pending));
    assert!(!recv.is_eos());
    assert!(matches!(recv.poll_read(&mut cx), Poll::Ready(Ok(true))));
    assert!(recv.is_eos());
    assert_eq!(recv.buf().remaining(), 3);
    assert!(matches!(recv.absorb(chunk(b"de")), Poll::Ready(Ok(false))));
    assert_eq!(recv.buf().remaining(), 5);
    assert!(matches!(
        recv.absorb(Poll::Ready(Err(StreamErrorIncoming::Unknown(
            "lost".to_string()
        )))),
        Poll::Ready(Err(StreamErrorIncoming::Unknown(words))) if words == "lost"
    ));
    assert_eq!(recv.recv_id(), StreamId(12));
}

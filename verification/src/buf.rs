//! A queue of received chunks, and a cursor that reads through it without
//! taking anything out.
use crate::chunk;
use crate::varint;
use crate::varint::VarInt;
use bytes::Bytes;
use std::collections::VecDeque;
use vstd::prelude::*;

verus! {

/// `chunks` without its first `n` bytes. Chunks that lose all their bytes go.
pub open spec fn chunks_skip(chunks: Seq<Seq<u8>>, n: nat) -> Seq<Seq<u8>>
    decreases chunks.len(),
{
    if n == 0 || chunks.len() == 0 {
        chunks
    } else if n < chunks[0].len() {
        seq![chunks[0].skip(n as int)] + chunks.drop_first()
    } else {
        chunks_skip(chunks.drop_first(), (n - chunks[0].len()) as nat)
    }
}

/// No chunk is empty, and the bytes of all of them can be counted.
pub open spec fn chunks_wf(chunks: Seq<Seq<u8>>) -> bool {
    &&& forall|i: int| 0 <= i < chunks.len() ==> (#[trigger] chunks[i]).len() > 0
    &&& chunks.flatten().len() <= usize::MAX
}

/// Taking bytes off the front of a queue of chunks takes the same bytes off
/// what the chunks hold together.
pub proof fn lemma_chunks_skip(chunks: Seq<Seq<u8>>, n: nat)
    requires
        n <= chunks.flatten().len(),
    ensures
        chunks_skip(chunks, n).flatten() == chunks.flatten().skip(n as int),
        chunks_wf(chunks) ==> chunks_wf(chunks_skip(chunks, n)),
    decreases chunks.len(),
{
    let whole = chunks.flatten();
    if n == 0 || chunks.len() == 0 {
        assert(whole.skip(n as int) =~= whole);
    } else {
        let first = chunks[0];
        let tail = chunks.drop_first();
        assert(whole == first + tail.flatten());
        if n < first.len() {
            let cut = seq![first.skip(n as int)] + tail;
            assert(cut.drop_first() =~= tail);
            assert(cut.flatten() == first.skip(n as int) + tail.flatten());
            assert(cut.flatten() =~= whole.skip(n as int));
            assert(chunks_wf(chunks) ==> chunks_wf(cut)) by {
                if chunks_wf(chunks) {
                    assert forall|i: int| 0 <= i < cut.len() implies (#[trigger] cut[i]).len()
                        > 0 by {
                        if i > 0 {
                            assert(cut[i] == chunks[i]);
                        }
                    }
                }
            }
        } else {
            let m = (n - first.len()) as nat;
            lemma_chunks_skip(tail, m);
            assert(tail.flatten().skip(m as int) =~= whole.skip(n as int));
            assert(chunks_wf(chunks) ==> chunks_wf(tail)) by {
                if chunks_wf(chunks) {
                    assert forall|i: int| 0 <= i < tail.len() implies (#[trigger] tail[i]).len()
                        > 0 by {
                        assert(tail[i] == chunks[i + 1]);
                    }
                }
            }
        }
    }
}

/// Taking `a` bytes and then `b` bytes off is taking `a + b` off.
pub proof fn lemma_chunks_skip_twice(chunks: Seq<Seq<u8>>, a: nat, b: nat)
    requires
        chunks_wf(chunks),
        a + b <= chunks.flatten().len(),
    ensures
        chunks_skip(chunks_skip(chunks, a), b) == chunks_skip(chunks, a + b),
    decreases chunks.len(),
{
    if a == 0 || chunks.len() == 0 {
    } else {
        let first = chunks[0];
        let tail = chunks.drop_first();
        assert(chunks.flatten() == first + tail.flatten());
        assert(chunks_wf(tail)) by {
            assert forall|i: int| 0 <= i < tail.len() implies (#[trigger] tail[i]).len() > 0 by {
                assert(tail[i] == chunks[i + 1]);
            }
        }
        if a < first.len() {
            let cut = seq![first.skip(a as int)] + tail;
            assert(cut[0] == first.skip(a as int));
            assert(cut.drop_first() =~= tail);
            if b == 0 {
            } else if a + b < first.len() {
                assert(first.skip(a as int).skip(b as int) =~= first.skip((a + b) as int));
            } else {
                assert((b - cut[0].len()) as nat == (a + b - first.len()) as nat);
            }
        } else {
            lemma_chunks_skip_twice(tail, (a - first.len()) as nat, b);
        }
    }
}

/// The byte at `j` of chunk `i` comes right after the chunks before it and the
/// `j` bytes of its own chunk.
proof fn lemma_byte_at(chunks: Seq<Seq<u8>>, i: int, j: int)
    requires
        0 <= i < chunks.len(),
        0 <= j < chunks[i].len(),
    ensures
        chunks.take(i).flatten().len() + j < chunks.flatten().len(),
        chunks.flatten()[chunks.take(i).flatten().len() + j] == chunks[i][j],
{
    lemma_split_at(chunks, i);
}

/// What the chunks hold is what those before `i`, chunk `i` and those after it
/// hold.
proof fn lemma_split_at(chunks: Seq<Seq<u8>>, i: int)
    requires
        0 <= i < chunks.len(),
    ensures
        chunks.flatten() == chunks.take(i).flatten() + chunks[i] + chunks.skip(i + 1).flatten(),
        chunks.take(i + 1).flatten() == chunks.take(i).flatten() + chunks[i],
{
    chunks.take(i).lemma_flatten_push(chunks[i]);
    assert(chunks.take(i).push(chunks[i]) =~= chunks.take(i + 1));
    vstd::seq_lib::lemma_flatten_concat(chunks.take(i + 1), chunks.skip(i + 1));
    assert(chunks.take(i + 1) + chunks.skip(i + 1) =~= chunks);
}

/// The first chunk, cut to at most `max` bytes.
pub open spec fn front_chunk(chunks: Seq<Seq<u8>>, max: nat) -> Seq<u8> {
    if chunks[0].len() <= max {
        chunks[0]
    } else {
        chunks[0].take(max as int)
    }
}

/// Received chunks in the order in which they came.
#[derive(Debug)]
pub struct BufList {
    bufs: VecDeque<Bytes>,
}

impl View for BufList {
    type V = Seq<Seq<u8>>;

    closed spec fn view(&self) -> Seq<Seq<u8>> {
        self.bufs@.map_values(|b: Bytes| chunk::content(b))
    }
}

impl BufList {
    /// All buffered bytes, whatever chunks they came in.
    pub open spec fn bytes(&self) -> Seq<u8> {
        self@.flatten()
    }

    pub open spec fn wf(&self) -> bool {
        chunks_wf(self@)
    }

    pub fn new() -> (list: BufList)
        ensures
            list.wf(),
            list@ == Seq::<Seq<u8>>::empty(),
    {
        let list = BufList { bufs: VecDeque::new() };
        proof {
            assert(list@ =~= Seq::<Seq<u8>>::empty());
        }
        list
    }

    /// A list of the one chunk `buf`, or of none where it is empty.
    pub fn from(buf: Bytes) -> (list: BufList)
        ensures
            list.wf(),
            list@ == (if chunk::content(buf).len() == 0 {
                Seq::<Seq<u8>>::empty()
            } else {
                seq![chunk::content(buf)]
            }),
            list.bytes() == chunk::content(buf),
    {
        let mut list = BufList::new();
        let len: usize = buf.len();
        proof {
            assert(list.bytes().len() + len <= usize::MAX);
        }
        list.push(buf);
        proof {
            assert(list.bytes() =~= chunk::content(buf));
        }
        list
    }

    /// Appends a received chunk. An empty one adds nothing.
    pub fn push(&mut self, buf: Bytes)
        requires
            old(self).wf(),
            old(self).bytes().len() + chunk::content(buf).len() <= usize::MAX,
        ensures
            final(self).wf(),
            final(self)@ == (if chunk::content(buf).len() == 0 {
                old(self)@
            } else {
                old(self)@.push(chunk::content(buf))
            }),
            final(self).bytes() == old(self).bytes() + chunk::content(buf),
    {
        if buf.len() > 0 {
            self.bufs.push_back(buf);
            proof {
                assert(self@ =~= old(self)@.push(chunk::content(buf)));
                old(self)@.lemma_flatten_push(chunk::content(buf));
            }
        } else {
            proof {
                assert(old(self).bytes() + chunk::content(buf) =~= old(self).bytes());
            }
        }
    }

    /// Appends all that `buf` holds, and leaves `buf` empty.
    pub fn push_bytes(&mut self, buf: &mut Bytes)
        requires
            old(self).wf(),
            old(self).bytes().len() + chunk::content(*old(buf)).len() <= usize::MAX,
        ensures
            final(self).wf(),
            final(self)@ == (if chunk::content(*old(buf)).len() == 0 {
                old(self)@
            } else {
                old(self)@.push(chunk::content(*old(buf)))
            }),
            final(self).bytes() == old(self).bytes() + chunk::content(*old(buf)),
            chunk::content(*final(buf)).len() == 0,
    {
        let len: usize = buf.len();
        let all = chunk::copy_to_bytes(buf, len);
        proof {
            assert(chunk::content(all) =~= chunk::content(*old(buf)));
        }
        self.push(all);
    }

    /// A cursor on all that is buffered.
    pub fn cursor(&self) -> (cursor: Cursor<'_>)
        requires
            self.wf(),
        ensures
            cursor.wf(),
            cursor.rest() == self.bytes(),
            cursor.pos() == 0,
    {
        let end: usize = self.remaining();
        let cursor = Cursor { buf: self, index: 0, pos_front: 0, pos_total: 0, end };
        proof {
            assert(self@.take(0) =~= Seq::<Seq<u8>>::empty());
            assert(cursor.rest() =~= self.bytes());
            if self@.len() > 0 {
                assert(self@[0].len() > 0);
            }
        }
        cursor
    }

    /// Is anything buffered?
    pub fn has_remaining(&self) -> (some: bool)
        requires
            self.wf(),
        ensures
            some == (self.bytes().len() > 0),
    {
        let count: usize = self.bufs.len();
        proof {
            if self.bufs@.len() > 0 {
                lemma_split_at(self@, 0);
                assert(self@[0].len() > 0);
            } else {
                assert(self@ =~= Seq::<Seq<u8>>::empty());
            }
        }
        count > 0
    }

    /// The number of bytes buffered.
    pub fn remaining(&self) -> (len: usize)
        requires
            self.wf(),
        ensures
            len == self.bytes().len(),
    {
        let mut total: usize = 0;
        let mut i: usize = 0;
        let count: usize = self.bufs.len();
        proof {
            assert(self@.take(0) =~= Seq::<Seq<u8>>::empty());
        }
        while i < count
            invariant
                count == self.bufs@.len(),
                i <= count,
                self.wf(),
                total == self@.take(i as int).flatten().len(),
            decreases count - i,
        {
            proof {
                lemma_split_at(self@, i as int);
            }
            total = total + self.bufs[i].len();
            i = i + 1;
        }
        proof {
            assert(self@.take(count as int) =~= self@);
        }
        total
    }

    /// Drops the first `count` bytes.
    pub fn advance(&mut self, count: usize)
        requires
            old(self).wf(),
            count <= old(self).bytes().len(),
        ensures
            final(self).wf(),
            final(self)@ == chunks_skip(old(self)@, count as nat),
            final(self).bytes() == old(self).bytes().skip(count as int),
    {
        let mut left: usize = count;
        proof {
            lemma_chunks_skip(self@, count as nat);
        }
        while left > 0
            invariant
                self.wf(),
                left <= self.bytes().len(),
                chunks_skip(self@, left as nat) == chunks_skip(old(self)@, count as nat),
            decreases left,
        {
            let ghost before = self@;
            let ghost held = self.bufs@;
            match self.bufs.pop_front() {
                Some(front) => {
                    let mut front = front;
                    let len: usize = front.len();
                    proof {
                        assert(before[0] == chunk::content(front));
                        assert(self@ =~= before.drop_first());
                        lemma_split_at(before, 0);
                        lemma_chunks_skip(before, left as nat);
                        assert(before[0].len() > 0);
                    }
                    if left < len {
                        chunk::advance(&mut front, left);
                        self.bufs.push_front(front);
                        proof {
                            assert(self@ =~= chunks_skip(before, left as nat));
                        }
                        left = 0;
                    } else {
                        proof {
                            reveal_with_fuel(chunks_skip, 2);
                            lemma_chunks_skip(before, len as nat);
                            assert(chunks_skip(before, len as nat) == before.drop_first());
                            assert(before.flatten().skip(len as int).len()
                                == before.flatten().len() - len);
                        }
                        left = left - len;
                    }
                },
                None => {
                    proof {
                        assert(before =~= Seq::<Seq<u8>>::empty());
                        assert(false);
                    }
                },
            }
        }
    }

    /// Takes the first chunk out, or its first `max_len` bytes where it is
    /// longer. `None` where nothing is buffered.
    pub fn take_chunk(&mut self, max_len: usize) -> (chunk: Option<Bytes>)
        requires
            old(self).wf(),
        ensures
            final(self).wf(),
            match chunk {
                Some(chunk) => {
                    &&& old(self)@.len() > 0
                    &&& chunk::content(chunk) == front_chunk(old(self)@, max_len as nat)
                    &&& final(self)@ == chunks_skip(old(self)@, chunk::content(chunk).len())
                    &&& old(self).bytes() == chunk::content(chunk) + final(self).bytes()
                    &&& chunk::content(chunk).len() == if old(self)@[0].len() <= max_len {
                        old(self)@[0].len()
                    } else {
                        max_len as nat
                    }
                    &&& if old(self)@[0].len() <= max_len {
                        final(self)@ == old(self)@.drop_first()
                    } else {
                        final(self)@ == seq![old(self)@[0].skip(max_len as int)]
                            + old(self)@.drop_first()
                    }
                },
                None => {
                    &&& old(self)@.len() == 0
                    &&& final(self)@ == old(self)@
                },
            },
    {
        let ghost before = self@;
        match self.bufs.pop_front() {
            Some(front) => {
                let mut front = front;
                let len: usize = front.len();
                let size: usize = if max_len < len {
                    max_len
                } else {
                    len
                };
                proof {
                    assert(before[0] == chunk::content(front));
                    assert(self@ =~= before.drop_first());
                    lemma_split_at(before, 0);
                    lemma_chunks_skip(before, size as nat);
                    assert(before[0].len() > 0);
                    assert(before[0].take(size as int) =~= before.flatten().take(size as int));
                    assert(before.flatten().take(size as int) + before.flatten().skip(size as int)
                        =~= before.flatten());
                }
                let chunk = chunk::copy_to_bytes(&mut front, size);
                if size < len {
                    self.bufs.push_front(front);
                    proof {
                        assert(self@ =~= seq![before[0].skip(size as int)] + before.drop_first());
                        if size == 0 {
                            assert(before[0].skip(0) =~= before[0]);
                            assert(self@ =~= before);
                        }
                        assert(self@ =~= chunks_skip(before, size as nat));
                    }
                } else {
                    proof {
                        reveal_with_fuel(chunks_skip, 2);
                        assert(self@ =~= chunks_skip(before, size as nat));
                    }
                }
                Some(chunk)
            },
            None => {
                proof {
                    assert(before =~= Seq::<Seq<u8>>::empty());
                    assert(self@ =~= before);
                }
                None
            },
        }
    }
}

/// Reads through a `BufList` up to some end, without taking anything out.
#[derive(Clone, Copy, Debug)]
pub struct Cursor<'a> {
    buf: &'a BufList,
    /// The chunk that holds the next byte.
    index: usize,
    /// The place of the next byte in that chunk.
    pos_front: usize,
    /// The place of the next byte amongst all bytes.
    pos_total: usize,
    /// Where reading stops, amongst all bytes.
    end: usize,
}

impl<'a> Cursor<'a> {
    pub closed spec fn wf(&self) -> bool {
        let chunks = self.buf@;
        &&& self.buf.wf()
        &&& self.pos_total <= self.end <= chunks.flatten().len()
        &&& self.index <= chunks.len()
        &&& self.pos_total == chunks.take(self.index as int).flatten().len() + self.pos_front
        &&& if self.index < chunks.len() {
            self.pos_front < chunks[self.index as int].len()
        } else {
            self.pos_front == 0
        }
    }

    /// The bytes that are still to be read.
    pub closed spec fn rest(&self) -> Seq<u8> {
        self.buf.bytes().subrange(self.pos_total as int, self.end as int)
    }

    /// The number of bytes before the next one.
    pub closed spec fn pos(&self) -> nat {
        self.pos_total as nat
    }

    pub fn position(&self) -> (pos: usize)
        ensures
            pos == self.pos(),
    {
        self.pos_total
    }

    pub fn remaining(&self) -> (len: usize)
        requires
            self.wf(),
        ensures
            len == self.rest().len(),
    {
        self.end - self.pos_total
    }

    /// A cursor on the next `len` bytes alone.
    pub fn take(&self, len: usize) -> (part: Cursor<'a>)
        requires
            self.wf(),
            len <= self.rest().len(),
        ensures
            part.wf(),
            part.rest() == self.rest().take(len as int),
            part.pos() == self.pos(),
    {
        let part = Cursor {
            buf: self.buf,
            index: self.index,
            pos_front: self.pos_front,
            pos_total: self.pos_total,
            end: self.pos_total + len,
        };
        proof {
            assert(part.rest() =~= self.rest().take(len as int));
        }
        part
    }

    /// Reads one byte.
    pub fn get_u8(&mut self) -> (byte: u8)
        requires
            old(self).wf(),
            old(self).rest().len() > 0,
        ensures
            final(self).wf(),
            byte == old(self).rest()[0],
            final(self).rest() == old(self).rest().skip(1),
            final(self).pos() == old(self).pos() + 1,
    {
        let ghost chunks = self.buf@;
        let ghost at = self.index as int;
        proof {
            if at == chunks.len() {
                assert(chunks.take(at) =~= chunks);
            }
            lemma_byte_at(chunks, at, self.pos_front as int);
            lemma_split_at(chunks, at);
            assert(self.index < self.buf.bufs.len());
        }
        let front: &Bytes = &self.buf.bufs[self.index];
        let slice = chunk::as_slice(front);
        let byte: u8 = slice[self.pos_front];
        self.pos_total = self.pos_total + 1;
        if self.pos_front + 1 < slice.len() {
            self.pos_front = self.pos_front + 1;
        } else {
            self.pos_front = 0;
            self.index = self.index + 1;
        }
        proof {
            assert(self.rest() =~= old(self).rest().skip(1));
        }
        byte
    }

    /// Passes over the next `count` bytes.
    pub fn advance(&mut self, count: usize)
        requires
            old(self).wf(),
            count <= old(self).rest().len(),
        ensures
            final(self).wf(),
            final(self).rest() == old(self).rest().skip(count as int),
            final(self).pos() == old(self).pos() + count,
    {
        let mut left: usize = count;
        proof {
            assert(self.rest() =~= self.rest().skip(0));
        }
        while left > 0
            invariant
                self.wf(),
                self.buf == old(self).buf,
                self.end == old(self).end,
                self.pos_total + left == old(self).pos_total + count,
                old(self).pos_total + count <= self.end,
            decreases left,
        {
            let ghost chunks = self.buf@;
            let ghost at = self.index as int;
            proof {
                if at == chunks.len() {
                    assert(chunks.take(at) =~= chunks);
                }
                lemma_split_at(chunks, at);
                assert(self.index < self.buf.bufs.len());
            }
            let here: usize = self.buf.bufs[self.index].len() - self.pos_front;
            if left < here {
                self.pos_total = self.pos_total + left;
                self.pos_front = self.pos_front + left;
                left = 0;
            } else {
                self.pos_total = self.pos_total + here;
                self.pos_front = 0;
                self.index = self.index + 1;
                left = left - here;
            }
        }
        proof {
            assert(self.rest() =~= old(self).rest().skip(count as int));
        }
    }

    /// Reads an integer, or stays where it is if the input ends before the
    /// integer does.
    pub fn get_var(&mut self) -> (value: Option<VarInt>)
        requires
            old(self).wf(),
        ensures
            final(self).wf(),
            match varint::decoded(old(self).rest()) {
                Some((x, n)) => {
                    &&& value is Some
                    &&& value->0@ == x
                    &&& x <= VarInt::MAX
                    &&& final(self).rest() == old(self).rest().skip(n as int)
                    &&& final(self).pos() == old(self).pos() + n
                },
                None => {
                    &&& value is None
                    &&& final(self).rest() == old(self).rest()
                    &&& final(self).pos() == old(self).pos()
                },
            },
    {
        let ghost s = self.rest();
        if self.remaining() == 0 {
            return None;
        }
        let mut ahead: Cursor<'a> = *self;
        let first: u8 = ahead.get_u8();
        let n: usize = if first < 0x40 {
            1
        } else if first < 0x80 {
            2
        } else if first < 0xc0 {
            4
        } else {
            8
        };
        if self.remaining() < n {
            return None;
        }
        let mut x: u64 = (first % 64) as u64;
        let mut i: usize = 1;
        let ghost low = s.take(n as int).update(0, (s[0] % 64) as u8);
        proof {
            reveal_with_fuel(varint::big_endian, 2);
            assert(low.take(1).drop_last() =~= Seq::<u8>::empty());
            assert(ahead.rest() =~= s.skip(1));
        }
        while i < n
            invariant
                1 <= i <= n <= 8,
                n <= s.len(),
                low == s.take(n as int).update(0, (s[0] % 64) as u8),
                ahead.wf(),
                ahead.rest() == s.skip(i as int),
                ahead.pos() == self.pos() + i,
                x == varint::big_endian(low.take(i as int)),
                x < varint::bound(i as nat),
            decreases n - i,
        {
            let byte: u8 = ahead.get_u8();
            proof {
                varint::lemma_bound(i as nat);
                varint::lemma_big_endian_push(low.take(i as int), byte);
                assert(low.take(i as int).push(byte) =~= low.take(i + 1));
                assert(ahead.rest() =~= s.skip(i + 1));
            }
            x = x * 256 + byte as u64;
            i = i + 1;
        }
        proof {
            assert(low.take(n as int) =~= low);
            varint::lemma_bound(n as nat);
        }
        *self = ahead;
        match VarInt::from_u64(x) {
            Ok(value) => Some(value),
            Err(_) => None,
        }
    }

    /// Reads the next `len` bytes into a chunk of their own.
    pub fn copy_to_bytes(&mut self, len: usize) -> (bytes: Bytes)
        requires
            old(self).wf(),
            len <= old(self).rest().len(),
        ensures
            final(self).wf(),
            chunk::content(bytes) == old(self).rest().take(len as int),
            final(self).rest() == old(self).rest().skip(len as int),
            final(self).pos() == old(self).pos() + len,
    {
        let mut out: Vec<u8> = Vec::with_capacity(len);
        let ghost s = self.rest();
        let mut i: usize = 0;
        proof {
            assert(self.rest() =~= s.skip(0));
            assert(out@ =~= s.take(0));
        }
        while i < len
            invariant
                i <= len <= s.len(),
                self.wf(),
                self.rest() == s.skip(i as int),
                self.pos() == old(self).pos() + i,
                out@ == s.take(i as int),
            decreases len - i,
        {
            let byte: u8 = self.get_u8();
            out.push(byte);
            proof {
                assert(self.rest() =~= s.skip(i + 1));
                assert(out@ =~= s.take(i + 1));
            }
            i = i + 1;
        }
        chunk::from_vec(out)
    }
}

} // verus!

//! Streaming playback buffer for spoken announcements.
//!
//! Announcement audio arrives as a WAV file cut into chunks. The stream
//! queues the incoming bytes in a ring buffer, drops the 44-byte WAV header
//! once, and hands out the PCM bytes that follow in arrival order.

use vstd::prelude::*;

verus! {

/// Capacity of the ring buffer, in bytes.
pub const STREAM_CAPACITY: usize = 4096;

/// Length of the canonical WAV header that precedes the PCM data.
pub const WAV_HEADER_LEN: usize = 44;

/// The abstract state of an [`AnnouncementStream`]: the bytes queued in
/// arrival order, and how many header bytes have been consumed so far.
pub struct StreamView {
    pub queued: Seq<u8>,
    pub header_len: nat,
}

/// The state of a stream that has seen no byte yet.
pub open spec fn fresh_stream() -> StreamView {
    StreamView { queued: Seq::empty(), header_len: 0 }
}

/// What `push_chunk` does: append as much of `chunk` as still fits.
pub open spec fn after_push(v: StreamView, chunk: Seq<u8>) -> StreamView {
    let room = STREAM_CAPACITY as int - v.queued.len();
    let n = if chunk.len() <= room { chunk.len() as int } else { room };
    StreamView { queued: v.queued + chunk.take(n), header_len: v.header_len }
}

/// The state once `take_bytes` has consumed header bytes, before it copies out PCM.
pub open spec fn after_header(v: StreamView) -> StreamView {
    if v.queued.len() == 0 || v.header_len >= WAV_HEADER_LEN {
        v
    } else {
        let need = WAV_HEADER_LEN as int - v.header_len;
        let h = if need <= v.queued.len() { need } else { v.queued.len() as int };
        StreamView { queued: v.queued.skip(h), header_len: (v.header_len + h) as nat }
    }
}

/// How many PCM bytes `take_bytes` copies out into a buffer of `dst_len` bytes.
pub open spec fn take_count(v: StreamView, dst_len: nat) -> nat {
    let a = after_header(v);
    if v.queued.len() == 0 || a.header_len < WAV_HEADER_LEN {
        0
    } else if a.queued.len() <= dst_len {
        a.queued.len()
    } else {
        dst_len
    }
}

/// The PCM bytes that `take_bytes` copies out into a buffer of `dst_len` bytes.
pub open spec fn taken(v: StreamView, dst_len: nat) -> Seq<u8> {
    after_header(v).queued.take(take_count(v, dst_len) as int)
}

/// The state after `take_bytes` with a buffer of `dst_len` bytes.
pub open spec fn after_take(v: StreamView, dst_len: nat) -> StreamView {
    if v.queued.len() == 0 {
        v
    } else {
        let a = after_header(v);
        StreamView { queued: a.queued.skip(take_count(v, dst_len) as int), header_len: a.header_len }
    }
}

/// A ring buffer of announcement bytes that strips the WAV header.
pub struct AnnouncementStream {
    buffer: [u8; 4096],
    head: usize,
    len: usize,
    header_bytes: [u8; 44],
    header_len: usize,
    header_parsed: bool,
}

impl View for AnnouncementStream {
    type V = StreamView;

    closed spec fn view(&self) -> StreamView {
        StreamView {
            queued: Seq::new(self.len as nat, |i: int| self.buffer@[(self.head + i) % 4096]),
            header_len: self.header_len as nat,
        }
    }
}

impl AnnouncementStream {
    /// The stream's internal consistency: ring indices in range and the
    /// header flag in step with the header count.
    pub closed spec fn wf(&self) -> bool {
        &&& self.head < 4096
        &&& self.len <= 4096
        &&& self.header_len <= 44
        &&& self.header_parsed == (self.header_len == 44)
    }

    pub broadcast proof fn lemma_view_bounds(&self)
        requires
            self.wf(),
        ensures
            #[trigger] self@.queued.len() <= STREAM_CAPACITY,
            self@.header_len <= WAV_HEADER_LEN,
    {
    }

    /// An empty stream that has not seen the header yet.
    pub fn new() -> (s: Self)
        ensures
            s.wf(),
            s@ == fresh_stream(),
    {
        let s = AnnouncementStream {
            buffer: [0u8; 4096],
            head: 0,
            len: 0,
            header_bytes: [0u8; 44],
            header_len: 0,
            header_parsed: false,
        };
        assert(s@.queued =~= Seq::<u8>::empty());
        s
    }

    /// Queue the bytes of `chunk`; bytes that do not fit are dropped.
    pub fn push_chunk(&mut self, chunk: &[u8])
        requires
            old(self).wf(),
        ensures
            final(self).wf(),
            final(self)@ == after_push(old(self)@, chunk@),
    {
        let ghost start = self@;
        let ghost start_len: int = self.len as int;
        let ghost room: int = 4096 - start_len;
        let mut k: usize = 0;
        while k < chunk.len()
            invariant
                self.wf(),
                start_len == start.queued.len(),
                room == 4096 - start_len,
                k <= chunk@.len(),
                k <= room,
                self.len == start_len + k,
                self.head == old(self).head,
                self.header_len == old(self).header_len,
                self.header_parsed == old(self).header_parsed,
                self@ == (StreamView { queued: start.queued + chunk@.take(k as int), header_len: start.header_len }),
            ensures
                k == chunk@.len() || k == room,
                self@ == (StreamView { queued: start.queued + chunk@.take(k as int), header_len: start.header_len }),
                self.wf(),
            decreases chunk@.len() - k,
        {
            if self.len >= 4096 {
                break;
            }
            let ghost before = self@;
            let pos = (self.head + self.len) % 4096;
            self.buffer[pos] = chunk[k];
            self.len = self.len + 1;
            k = k + 1;
            proof {
                assert forall|i: int| 0 <= i < before.queued.len() implies
                    #[trigger] self@.queued[i] == before.queued[i] by {
                    assert((self.head + i) % 4096 != pos as int);
                }
                assert(self@.queued =~= before.queued.push(chunk@[k - 1]));
                assert(chunk@.take(k as int) =~= chunk@.take(k - 1).push(chunk@[k - 1]));
                assert(start.queued + chunk@.take(k as int) =~= (start.queued + chunk@.take(k - 1)).push(chunk@[k - 1]));
            }
        }
        proof {
            let n = if chunk@.len() <= room { chunk@.len() as int } else { room };
            assert(k == n);
        }
    }

    /// Remove and return the oldest queued byte.
    fn take_one(&mut self) -> (byte: u8)
        requires
            old(self).wf(),
            old(self)@.queued.len() > 0,
        ensures
            final(self).wf(),
            byte == old(self)@.queued[0],
            final(self)@.queued == old(self)@.queued.drop_first(),
            final(self)@.header_len == old(self)@.header_len,
            final(self).header_parsed == old(self).header_parsed,
            final(self).header_bytes == old(self).header_bytes,
    {
        let ghost before = self@;
        let byte = self.buffer[self.head];
        self.head = (self.head + 1) % 4096;
        self.len = self.len - 1;
        proof {
            assert(before.queued[0] == self.buffer@[(old(self).head + 0) % 4096]);
            assert forall|i: int| 0 <= i < self.len implies
                #[trigger] self@.queued[i] == before.queued[i + 1] by {
                assert((self.head + i) % 4096 == (old(self).head + (i + 1)) % 4096);
            }
            assert(self@.queued =~= before.queued.drop_first());
        }
        byte
    }

    /// Copy queued PCM bytes into `dst`, consuming the WAV header first.
    ///
    /// Returns how many bytes were written to the front of `dst`; zero while
    /// the stream is empty or the header is still incomplete.
    pub fn take_bytes(&mut self, dst: &mut [u8]) -> (count: usize)
        requires
            old(self).wf(),
        ensures
            final(self).wf(),
            count == take_count(old(self)@, old(dst)@.len()),
            final(self)@ == after_take(old(self)@, old(dst)@.len()),
            final(dst)@.len() == old(dst)@.len(),
            final(dst)@.take(count as int) == taken(old(self)@, old(dst)@.len()),
            final(dst)@.skip(count as int) == old(dst)@.skip(count as int),
    {
        if self.len == 0 {
            assert(old(dst)@.take(0) =~= taken(old(self)@, old(dst)@.len()));
            assert(dst@.skip(0) =~= dst@);
            return 0;
        }
        let ghost start = self@;
        if !self.header_parsed {
            while self.header_len < 44 && self.len > 0
                invariant
                    self.wf(),
                    start.header_len <= self.header_len <= 44,
                    self.header_len - start.header_len <= start.queued.len(),
                    self.len == start.queued.len() - (self.header_len - start.header_len),
                    self@.queued == start.queued.skip(self.header_len - start.header_len),
                    start.queued.len() > 0,
                    start.header_len < 44,
                decreases 44 - self.header_len,
            {
                let b = self.take_one();
                self.header_bytes[self.header_len] = b;
                self.header_len = self.header_len + 1;
                if self.header_len == 44 {
                    self.header_parsed = true;
                }
                assert(self@.queued =~= start.queued.skip(self.header_len - start.header_len));
            }
            assert(self@ == after_header(start));
            if !self.header_parsed {
                assert(after_header(start).queued.skip(0) =~= after_header(start).queued);
                assert(old(dst)@.take(0) =~= taken(old(self)@, old(dst)@.len()));
                assert(dst@.skip(0) =~= dst@);
                return 0;
            }
        } else {
            assert(self@ == after_header(start));
        }
        let ghost mid = self@;
        let count = if self.len < dst.len() { self.len } else { dst.len() };
        let mut i: usize = 0;
        while i < count
            invariant
                self.wf(),
                self.header_parsed,
                count <= mid.queued.len(),
                count <= dst@.len(),
                dst@.len() == old(dst)@.len(),
                i <= count,
                self@.header_len == mid.header_len,
                self@.queued == mid.queued.skip(i as int),
                dst@.take(i as int) == mid.queued.take(i as int),
                dst@.skip(i as int) == old(dst)@.skip(i as int),
            decreases count - i,
        {
            let b = self.take_one();
            let ghost prev_dst = dst@;
            dst[i] = b;
            assert(dst@ == prev_dst.update(i as int, b));
            i = i + 1;
            assert forall|j: int| 0 <= j < dst@.len() - i implies
                #[trigger] dst@.skip(i as int)[j] == old(dst)@.skip(i as int)[j] by {
                assert(prev_dst.skip(i - 1)[j + 1] == old(dst)@.skip(i - 1)[j + 1]);
            }
            assert(self@.queued =~= mid.queued.skip(i as int));
            assert(dst@.take(i as int) =~= mid.queued.take(i as int));
            assert(dst@.skip(i as int) =~= old(dst)@.skip(i as int));
        }
        count
    }
}

/// Whatever is pushed into a fresh stream comes back out without its first
/// 44 bytes, the WAV header, in the order it was pushed.
pub proof fn lemma_fresh_stream_strips_header(data: Seq<u8>, dst_len: nat)
    requires
        WAV_HEADER_LEN <= data.len() <= STREAM_CAPACITY,
        dst_len >= data.len() - WAV_HEADER_LEN,
    ensures
        take_count(after_push(fresh_stream(), data), dst_len) == data.len() - WAV_HEADER_LEN,
        taken(after_push(fresh_stream(), data), dst_len) == data.skip(WAV_HEADER_LEN as int),
        after_take(after_push(fresh_stream(), data), dst_len).queued.len() == 0,
{
    let v = after_push(fresh_stream(), data);
    assert(v.queued =~= data);
    assert(after_header(v).queued =~= data.skip(44));
    assert(data.skip(44).take(data.len() - 44) =~= data.skip(44));
}

/// Header bytes never reach the output: while fewer than 44 bytes have
/// arrived in total, nothing is handed out.
pub proof fn lemma_short_stream_yields_nothing(data: Seq<u8>, dst_len: nat)
    requires
        data.len() < WAV_HEADER_LEN,
    ensures
        take_count(after_push(fresh_stream(), data), dst_len) == 0,
        after_take(after_push(fresh_stream(), data), dst_len).queued.len() == 0,
        after_take(after_push(fresh_stream(), data), dst_len).header_len == data.len(),
{
    let v = after_push(fresh_stream(), data);
    assert(v.queued =~= data);
}

/// One call on a stream: `push_chunk` of some bytes, or `take_bytes` into a
/// buffer of some length.
pub enum StreamOp {
    Push(Seq<u8>),
    Take(nat),
}

/// The bytes of `chunk` that `push_chunk` keeps on a stream in state `v`.
pub open spec fn accepted(v: StreamView, chunk: Seq<u8>) -> Seq<u8> {
    after_push(v, chunk).queued.skip(v.queued.len() as int)
}

/// A fresh stream after the calls `ops`, in order: its state, the bytes
/// the pushes kept, and the bytes the takes handed out, each concatenated.
pub open spec fn replay(ops: Seq<StreamOp>) -> (StreamView, Seq<u8>, Seq<u8>)
    decreases ops.len(),
{
    if ops.len() == 0 {
        (fresh_stream(), Seq::empty(), Seq::empty())
    } else {
        let (v, kept, out) = replay(ops.drop_last());
        match ops.last() {
            StreamOp::Push(c) => (after_push(v, c), kept + accepted(v, c), out),
            StreamOp::Take(n) => (after_take(v, n), kept, out + taken(v, n)),
        }
    }
}

/// Over any interleaving of pushes and takes on a fresh stream, the first
/// 44 kept bytes (the WAV header) are never handed out, and the rest come
/// out once each, in order: what was handed out followed by what is still
/// queued is exactly the kept bytes after the header, once the header is
/// complete; before that nothing has been handed out.
pub proof fn lemma_stream_order(ops: Seq<StreamOp>)
    ensures
        ({
            let (v, kept, out) = replay(ops);
            &&& v.header_len <= WAV_HEADER_LEN
            &&& v.header_len <= kept.len()
            &&& v.queued.len() <= STREAM_CAPACITY
            &&& v.header_len < WAV_HEADER_LEN ==> out.len() == 0 && kept == kept.take(v.header_len as int) + v.queued
            &&& v.header_len == WAV_HEADER_LEN ==> kept.len() >= WAV_HEADER_LEN && kept.skip(
                WAV_HEADER_LEN as int,
            ) == out + v.queued
        }),
    decreases ops.len(),
{
    if ops.len() > 0 {
        lemma_stream_order(ops.drop_last());
        let (v, kept, out) = replay(ops.drop_last());
        match ops.last() {
            StreamOp::Push(c) => {
                let a = accepted(v, c);
                let v2 = after_push(v, c);
                assert(v2.queued =~= v.queued + a);
                if v.header_len < WAV_HEADER_LEN {
                    assert((kept + a).take(v.header_len as int) =~= kept.take(v.header_len as int));
                    assert(kept + a =~= (kept + a).take(v.header_len as int) + v2.queued);
                } else {
                    assert((kept + a).skip(44) =~= kept.skip(44) + a);
                    assert(out + v2.queued =~= (out + v.queued) + a);
                }
            },
            StreamOp::Take(n) => {
                let h = after_header(v);
                let t = taken(v, n);
                let v2 = after_take(v, n);
                if v.queued.len() == 0 {
                    assert(t =~= Seq::<u8>::empty());
                    assert(out + t =~= out);
                } else if v.header_len < WAV_HEADER_LEN {
                    let need = WAV_HEADER_LEN as int - v.header_len;
                    if need <= v.queued.len() {
                        assert(kept.take(44) =~= kept.take(v.header_len as int) + v.queued.take(need));
                        assert(kept.skip(44) =~= v.queued.skip(need));
                        assert(h.queued =~= v.queued.skip(need));
                        assert(h.queued =~= t + v2.queued);
                        assert(out + t =~= t);
                    } else {
                        assert(t =~= Seq::<u8>::empty());
                        assert(out + t =~= out);
                        assert(v2.queued =~= Seq::<u8>::empty());
                        assert(kept.take(v2.header_len as int) =~= kept);
                        assert(kept =~= kept.take(v2.header_len as int) + v2.queued);
                    }
                } else {
                    assert(h == v);
                    assert(v.queued =~= t + v2.queued);
                    assert(out + v.queued =~= (out + t) + v2.queued);
                }
            },
        }
    }
}

/// A take into a non-empty buffer that hands out nothing leaves nothing
/// queued: after the last push, such a take means every byte past the
/// header has been handed out.
pub proof fn lemma_empty_take_drains(v: StreamView, n: nat)
    requires
        n > 0,
        v.header_len <= WAV_HEADER_LEN,
        take_count(v, n) == 0,
    ensures
        after_take(v, n).queued.len() == 0,
{
}

/// Size of the chunks a decoded announcement is played in.
pub const ANNOUNCEMENT_CHUNK: usize = 256;

/// `chunks` is `bytes` cut, in order, into pieces of `ANNOUNCEMENT_CHUNK`
/// bytes, the last one holding the rest.
pub open spec fn chunked(chunks: Seq<Seq<u8>>, bytes: Seq<u8>) -> bool {
    &&& chunks.len() == (bytes.len() + 255) / 256
    &&& forall|i: int| 0 <= i < chunks.len() ==> #[trigger] chunks[i] == bytes.subrange(
        256 * i,
        if 256 * i + 256 <= bytes.len() { 256 * i + 256 } else { bytes.len() as int },
    )
}

/// The views of a list of byte vectors.
pub open spec fn chunk_views(chunks: Seq<Vec<u8>>) -> Seq<Seq<u8>> {
    chunks.map_values(|c: Vec<u8>| c@)
}

/// Cut decoded announcement bytes into the chunks they are played in.
pub fn announcement_chunks(bytes: &[u8]) -> (chunks: Vec<Vec<u8>>)
    ensures
        chunked(chunk_views(chunks@), bytes@),
{
    let len = bytes.len();
    let mut chunks: Vec<Vec<u8>> = Vec::new();
    let mut offset: usize = 0;
    while offset < len
        invariant
            len == bytes@.len(),
            offset <= len,
            offset == (if 256 * chunks@.len() <= len { (256 * chunks@.len()) as int } else { len as int }),
            256 * chunks@.len() < len + 256,
            forall|i: int| 0 <= i < chunks@.len() ==> #[trigger] chunks@[i]@ == bytes@.subrange(
                256 * i,
                if 256 * i + 256 <= bytes@.len() { 256 * i + 256 } else { bytes@.len() as int },
            ),
        decreases len - offset,
    {
        let end = if len - offset >= ANNOUNCEMENT_CHUNK { offset + ANNOUNCEMENT_CHUNK } else { len };
        let piece = vstd::slice::slice_to_vec(vstd::slice::slice_subrange(bytes, offset, end));
        chunks.push(piece);
        offset = end;
    }
    proof {
        assert(chunks@.len() == (len + 255) / 256);
        assert(chunk_views(chunks@).len() == chunks@.len());
        assert forall|i: int| 0 <= i < chunks@.len() implies #[trigger] chunk_views(chunks@)[i] == chunks@[i]@ by {}
    }
    chunks
}

} // verus!

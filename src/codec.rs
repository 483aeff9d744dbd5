//! Framing of Wayland messages, and the stream decoder that splits a byte
//! stream into frames and hands each frame the descriptors received so far.
use vstd::prelude::*;
use std::collections::VecDeque;
use bytes::{Bytes, BytesMut};
use crate::buffers::{bytes_contents, bytes_mut_contents, bytes_mut_slice, bytes_slice};
use crate::wire::{get_u32, put_u32, u32_at, u32_bytes, Endian, lemma_u32_roundtrip};

verus! {

/// Size of the message header: object id, then length and opcode.
pub const HEADER_LEN: usize = 8;

/// Largest frame that the 16-bit length field can describe.
pub const MAX_FRAME_LEN: usize = 0xffff;

/// The second header word: total length in the upper half, opcode in the lower.
pub open spec fn header_word(len: u16, opcode: u16) -> u32 {
    ((len as u32) << 16u32) | (opcode as u32)
}

/// Length field of the header at the front of `b`.
pub open spec fn frame_len_at(e: Endian, b: Seq<u8>) -> u32 {
    u32_at(e, b, 4) >> 16u32
}

/// Opcode field of the header at the front of `b`.
pub open spec fn opcode_at(e: Endian, b: Seq<u8>) -> u16 {
    (u32_at(e, b, 4) & 0xffff) as u16
}

/// A length field that no well-formed frame carries.
pub open spec fn bad_len(len: u32) -> bool {
    len < 8 || len % 4 != 0
}

/// A frame as a value: target object, opcode and payload.
pub struct FrameV {
    pub obj_id: u32,
    pub opcode: u16,
    pub payload: Seq<u8>,
}

/// A frame that the wire format can carry.
pub open spec fn frame_ok(f: FrameV) -> bool {
    f.payload.len() % 4 == 0 && f.payload.len() + 8 <= 0xffff
}

/// The bytes of one frame.
pub open spec fn frame_bytes(e: Endian, f: FrameV) -> Seq<u8> {
    u32_bytes(e, f.obj_id) + u32_bytes(e, header_word((f.payload.len() + 8) as u16, f.opcode))
        + f.payload
}

/// The bytes of consecutive frames.
pub open spec fn frames_bytes(e: Endian, fs: Seq<FrameV>) -> Seq<u8>
    decreases fs.len(),
{
    if fs.len() == 0 {
        Seq::empty()
    } else {
        frame_bytes(e, fs[0]) + frames_bytes(e, fs.drop_first())
    }
}

/// Whether the front of `b` holds a whole, well-formed frame.
pub open spec fn has_frame(e: Endian, b: Seq<u8>) -> bool {
    b.len() >= 8 && !bad_len(frame_len_at(e, b)) && frame_len_at(e, b) <= b.len()
}

/// The frame at the front of `b`, when `has_frame(e, b)`.
pub open spec fn first_frame(e: Endian, b: Seq<u8>) -> FrameV {
    FrameV {
        obj_id: u32_at(e, b, 0),
        opcode: opcode_at(e, b),
        payload: b.subrange(8, frame_len_at(e, b) as int),
    }
}

/// What is left of `b` after its first frame.
pub open spec fn after_first_frame(e: Endian, b: Seq<u8>) -> Seq<u8> {
    b.subrange(frame_len_at(e, b) as int, b.len() as int)
}

/// The frames that can be taken from the front of `b` one after the other,
/// and the bytes left after them.
pub open spec fn split_frames(e: Endian, b: Seq<u8>) -> (Seq<FrameV>, Seq<u8>)
    decreases b.len(),
{
    if has_frame(e, b) {
        let rest = split_frames(e, after_first_frame(e, b));
        (seq![first_frame(e, b)] + rest.0, rest.1)
    } else {
        (Seq::empty(), b)
    }
}

/// A raw Wayland message: header fields, the whole frame, and the
/// descriptors that arrived with it.
pub struct WlRawMsg<F> {
    pub obj_id: u32,
    /// Length of the frame in bytes, header included.
    pub len: u16,
    pub opcode: u16,
    /// The whole frame, header included.
    pub msg_buf: Bytes,
    /// All descriptors received up to this frame. The stream does not tell
    /// which belong to which message: a consumer hands back what it did not
    /// use with [`WlDecoder::return_unused_fds`].
    pub fds: Vec<F>,
}

impl<F> WlRawMsg<F> {
    /// The bytes of the whole frame, header included.
    pub open spec fn bytes(&self) -> Seq<u8> {
        bytes_contents(self.msg_buf)
    }

    /// The frame as a value.
    pub open spec fn frame(&self) -> FrameV {
        FrameV {
            obj_id: self.obj_id,
            opcode: self.opcode,
            payload: self.bytes().subrange(8, self.bytes().len() as int),
        }
    }

    /// The header fields agree with the bytes, which form a frame of order `e`.
    pub open spec fn wf(&self, e: Endian) -> bool {
        &&& self.bytes().len() == self.len as nat
        &&& self.len >= 8
        &&& self.len % 4 == 0
        &&& self.bytes() == frame_bytes(e, self.frame())
    }

    /// Takes the first frame off `buf` when it is complete. A frame that is
    /// taken also takes every descriptor queued in `fds`.
    pub fn try_decode(e: Endian, buf: &mut BytesMut, fds: &mut VecDeque<F>) -> (r:
        DecoderOutcome<F>)
        ensures
            ({
                let b = bytes_mut_contents(*old(buf));
                match r {
                    DecoderOutcome::Decoded(m) => {
                        &&& has_frame(e, b)
                        &&& m.frame() == first_frame(e, b)
                        &&& m.wf(e)
                        &&& m.fds@ == old(fds)@
                        &&& final(fds)@ == Seq::<F>::empty()
                        &&& bytes_mut_contents(*final(buf)) == after_first_frame(e, b)
                    },
                    DecoderOutcome::Malformed => {
                        &&& b.len() >= 8
                        &&& bad_len(frame_len_at(e, b))
                        &&& *final(buf) == *old(buf)
                        &&& final(fds)@ == old(fds)@
                    },
                    DecoderOutcome::Incomplete => {
                        &&& (b.len() < 8 || (!bad_len(frame_len_at(e, b)) && b.len()
                            < frame_len_at(e, b)))
                        &&& *final(buf) == *old(buf)
                        &&& final(fds)@ == old(fds)@
                    },
                    DecoderOutcome::Eof => false,
                    DecoderOutcome::UnexpectedEof => false,
                }
            }),
    {
        let buf_len = buf.len();
        if buf_len < HEADER_LEN {
            return DecoderOutcome::Incomplete;
        }
        let (obj_id, word) = {
            let s = bytes_mut_slice(buf);
            (get_u32(e, s, 0), get_u32(e, s, 4))
        };
        let msg_len = word >> 16u32;
        assert(word >> 16u32 <= 0xffff) by (bit_vector);
        if msg_len < 8 || msg_len % 4 != 0 {
            return DecoderOutcome::Malformed;
        }
        if buf_len < msg_len as usize {
            return DecoderOutcome::Incomplete;
        }
        let opcode = (word & 0xffff) as u16;
        let ghost b = bytes_mut_contents(*buf);
        let msg_buf = buf.split_to(msg_len as usize);
        let mut new_fds: Vec<F> = Vec::new();
        let ghost all_fds = fds@;
        while fds.len() > 0
            invariant
                new_fds@ + fds@ == all_fds,
            decreases fds@.len(),
        {
            match fds.pop_front() {
                Some(fd) => {
                    new_fds.push(fd);
                    assert(new_fds@ + fds@ =~= all_fds);
                },
                None => {},
            }
        }
        assert(new_fds@ =~= all_fds);
        let m = WlRawMsg { obj_id, len: msg_len as u16, opcode, msg_buf: msg_buf.freeze(), fds: new_fds };
        proof {
            let len = msg_len as u16;
            let mb = m.bytes();
            assert(mb =~= b.subrange(0, msg_len as int));
            assert(word >> 16u32 == msg_len && msg_len < 0x10000 ==> ((msg_len as u16) as u32)
                << 16u32 | ((word & 0xffff) as u16 as u32) == word) by (bit_vector);
            crate::wire::lemma_bytes_roundtrip(e, mb, 0);
            crate::wire::lemma_bytes_roundtrip(e, mb, 4);
            assert(mb.subrange(0, 4) == b.subrange(0, 4));
            assert(mb.subrange(4, 8) == b.subrange(4, 8));
            assert(u32_at(e, mb, 4) == word);
            assert(mb.subrange(8, mb.len() as int) =~= b.subrange(8, msg_len as int));
            assert(m.frame() == first_frame(e, b));
            assert(mb =~= mb.subrange(0, 4) + mb.subrange(4, 8) + mb.subrange(8, mb.len() as int));
        }
        DecoderOutcome::Decoded(m)
    }

    /// The payload: the frame without its header.
    pub fn payload(&self) -> (r: &[u8])
        requires
            self.bytes().len() >= 8,
        ensures
            r@ == self.frame().payload,
    {
        let s = bytes_slice(&self.msg_buf);
        &s[8..s.len()]
    }

    /// The frame's bytes and its descriptors.
    pub fn into_parts(self) -> (r: (Bytes, Vec<F>))
        ensures
            bytes_contents(r.0) == self.bytes(),
            r.1 == self.fds,
    {
        (self.msg_buf, self.fds)
    }

    /// A frame for `obj_id` and `opcode` with the given payload, carrying `fds`.
    pub fn build(e: Endian, obj_id: u32, opcode: u16, payload: &[u8], fds: Vec<F>) -> (r:
        WlRawMsg<F>)
        requires
            payload@.len() % 4 == 0,
            payload@.len() + 8 <= MAX_FRAME_LEN,
        ensures
            r.wf(e),
            r.frame() == (FrameV { obj_id, opcode, payload: payload@ }),
            r.fds == fds,
    {
        let len = (payload.len() + HEADER_LEN) as u16;
        let mut head: Vec<u8> = Vec::new();
        put_u32(e, obj_id, &mut head);
        put_u32(e, ((len as u32) << 16u32) | (opcode as u32), &mut head);
        let mut buf = BytesMut::new();
        buf.extend_from_slice(head.as_slice());
        buf.extend_from_slice(payload);
        let m = WlRawMsg { obj_id, len, opcode, msg_buf: buf.freeze(), fds };
        proof {
            let mb = m.bytes();
            assert(mb.subrange(8, mb.len() as int) =~= payload@);
        }
        m
    }
}

/// What the decoder produced.
pub enum DecoderOutcome<F> {
    /// A whole frame.
    Decoded(WlRawMsg<F>),
    /// Not enough bytes for a frame yet.
    Incomplete,
    /// The header in front announces a length that no frame can have.
    Malformed,
    /// The peer closed the stream with nothing left over.
    Eof,
    /// The peer closed the stream in the middle of a frame, or with
    /// descriptors that no frame took.
    UnexpectedEof,
}

/// Splits a stream of bytes and descriptors into frames.
pub struct WlDecoder<F> {
    endian: Endian,
    buf: BytesMut,
    fds: VecDeque<F>,
}

impl<F> WlDecoder<F> {
    /// Byte order of the stream.
    pub closed spec fn endian(&self) -> Endian {
        self.endian
    }

    /// Bytes received and not yet framed.
    pub closed spec fn pending(&self) -> Seq<u8> {
        bytes_mut_contents(self.buf)
    }

    /// Descriptors received and not yet handed to a frame.
    pub closed spec fn queued_fds(&self) -> Seq<F> {
        self.fds@
    }

    /// An empty decoder for a stream of order `e`.
    pub fn new(e: Endian) -> (r: WlDecoder<F>)
        ensures
            r.endian() == e,
            r.pending() == Seq::<u8>::empty(),
            r.queued_fds() == Seq::<F>::empty(),
    {
        WlDecoder { endian: e, buf: BytesMut::new(), fds: VecDeque::new() }
    }

    /// Puts the descriptors of `msg` past the first `num_consumed` back at the
    /// front of the queue, in their order.
    pub fn return_unused_fds(&mut self, msg: &mut WlRawMsg<F>, num_consumed: usize)
        ensures
            ({
                let k = if num_consumed < old(msg).fds@.len() {
                    num_consumed as int
                } else {
                    old(msg).fds@.len() as int
                };
                &&& final(msg).fds@ == old(msg).fds@.subrange(0, k)
                &&& final(self).queued_fds() == old(msg).fds@.subrange(k, old(msg).fds@.len() as int)
                    + old(self).queued_fds()
            }),
            final(msg).obj_id == old(msg).obj_id,
            final(msg).len == old(msg).len,
            final(msg).opcode == old(msg).opcode,
            final(msg).bytes() == old(msg).bytes(),
            final(self).pending() == old(self).pending(),
            final(self).endian() == old(self).endian(),
    {
        let k = if num_consumed < msg.fds.len() {
            num_consumed
        } else {
            msg.fds.len()
        };
        let mut unused = msg.fds.split_off(k);
        let ghost tail = unused@;
        let ghost q0 = self.fds@;
        while unused.len() > 0
            invariant
                self.fds@ == tail.subrange(unused@.len() as int, tail.len() as int) + q0,
                unused@.len() <= tail.len(),
                unused@ == tail.subrange(0, unused@.len() as int),
                self.buf == old(self).buf,
                self.endian == old(self).endian,
            decreases unused@.len(),
        {
            let fd = unused.pop().unwrap();
            self.fds.push_front(fd);
            assert(self.fds@ =~= tail.subrange(unused@.len() as int, tail.len() as int) + q0);
            assert(unused@ =~= tail.subrange(0, unused@.len() as int));
        }
        assert(self.fds@ =~= tail + q0);
    }

    /// Takes the next frame out of what is already buffered; `None` when
    /// nothing is buffered.
    pub fn decode_buf(&mut self) -> (r: Option<DecoderOutcome<F>>)
        ensures
            final(self).endian() == old(self).endian(),
            old(self).pending().len() == 0 ==> r is None && *final(self) == *old(self),
            old(self).pending().len() > 0 ==> (r matches Some(o) && decoded(
                old(self).endian(),
                old(self).pending(),
                old(self).queued_fds(),
                o,
                final(self).pending(),
                final(self).queued_fds(),
            )),
    {
        if self.buf.len() == 0 {
            return None;
        }
        Some(WlRawMsg::try_decode(self.endian, &mut self.buf, &mut self.fds))
    }

    /// Adds bytes and descriptors just read, then takes the next frame. An
    /// empty read that leaves no frame is the end of the stream: a clean one
    /// when nothing is left over, an unexpected one otherwise.
    pub fn decode_after_read(&mut self, buf: &[u8], fds: Vec<F>) -> (r: DecoderOutcome<F>)
        ensures
            final(self).endian() == old(self).endian(),
            ({
                let b = old(self).pending() + buf@;
                let q = old(self).queued_fds() + fds@;
                if buf@.len() == 0 && !has_frame(old(self).endian(), b) && !(b.len() >= 8
                    && bad_len(frame_len_at(old(self).endian(), b))) {
                    &&& if b.len() == 0 && q.len() == 0 {
                        r is Eof
                    } else {
                        r is UnexpectedEof
                    }
                    &&& final(self).pending() == b
                    &&& final(self).queued_fds() == q
                } else {
                    decoded(
                        old(self).endian(),
                        b,
                        q,
                        r,
                        final(self).pending(),
                        final(self).queued_fds(),
                    )
                }
            }),
    {
        self.buf.extend_from_slice(buf);
        let mut fds = fds;
        let ghost q0 = self.fds@;
        let ghost f0 = fds@;
        while fds.len() > 0
            invariant
                self.fds@ + fds@ == q0 + f0,
                self.endian == old(self).endian,
                bytes_mut_contents(self.buf) == bytes_mut_contents(old(self).buf) + buf@,
            decreases fds@.len(),
        {
            let fd = fds.remove(0);
            self.fds.push_back(fd);
            assert(self.fds@ + fds@ =~= q0 + f0);
        }
        assert(self.fds@ =~= q0 + f0);
        match WlRawMsg::try_decode(self.endian, &mut self.buf, &mut self.fds) {
            DecoderOutcome::Incomplete => {
                if buf.len() == 0 {
                    if self.buf.len() == 0 && self.fds.len() == 0 {
                        DecoderOutcome::Eof
                    } else {
                        DecoderOutcome::UnexpectedEof
                    }
                } else {
                    DecoderOutcome::Incomplete
                }
            },
            other => other,
        }
    }
}

/// `o` is what taking a frame from bytes `b` and descriptors `q` gives, with
/// `b2` and `q2` left.
pub open spec fn decoded<F>(
    e: Endian,
    b: Seq<u8>,
    q: Seq<F>,
    o: DecoderOutcome<F>,
    b2: Seq<u8>,
    q2: Seq<F>,
) -> bool {
    if has_frame(e, b) {
        &&& o matches DecoderOutcome::Decoded(m)
        &&& m.frame() == first_frame(e, b)
        &&& m.wf(e)
        &&& m.fds@ == q
        &&& b2 == after_first_frame(e, b)
        &&& q2 == Seq::<F>::empty()
    } else if b.len() >= 8 && bad_len(frame_len_at(e, b)) {
        &&& o is Malformed
        &&& b2 == b
        &&& q2 == q
    } else {
        &&& o is Incomplete
        &&& b2 == b
        &&& q2 == q
    }
}

/// The header word gives back the length and the opcode it was made of.
proof fn lemma_header_word(len: u16, opcode: u16)
    ensures
        header_word(len, opcode) >> 16u32 == len as u32,
        (header_word(len, opcode) & 0xffff) as u16 == opcode,
{
    assert((((len as u32) << 16u32) | (opcode as u32)) >> 16u32 == len as u32) by (bit_vector);
    assert(((((len as u32) << 16u32) | (opcode as u32)) & 0xffff) as u16 == opcode)
        by (bit_vector);
}

/// Whatever follows a well-formed frame, the decoder takes exactly that frame
/// off the front and leaves what follows.
pub proof fn lemma_frame_then(e: Endian, f: FrameV, tail: Seq<u8>)
    requires
        frame_ok(f),
    ensures
        has_frame(e, frame_bytes(e, f) + tail),
        first_frame(e, frame_bytes(e, f) + tail) == f,
        after_first_frame(e, frame_bytes(e, f) + tail) == tail,
{
    let len = (f.payload.len() + 8) as u16;
    let w = header_word(len, f.opcode);
    let b = frame_bytes(e, f) + tail;
    lemma_u32_roundtrip(e, f.obj_id);
    lemma_u32_roundtrip(e, w);
    lemma_header_word(len, f.opcode);
    let ob = u32_bytes(e, f.obj_id);
    let wb = u32_bytes(e, w);
    assert(b[0] == ob[0] && b[1] == ob[1] && b[2] == ob[2] && b[3] == ob[3]);
    assert(b[4] == wb[0] && b[5] == wb[1] && b[6] == wb[2] && b[7] == wb[3]);
    assert(u32_at(e, b, 4) == u32_at(e, wb, 0));
    assert(u32_at(e, b, 0) == u32_at(e, ob, 0));
    assert(b.subrange(8, len as int) =~= f.payload);
    assert(after_first_frame(e, b) =~= tail);
}

/// Bytes from which no frame can be taken.
pub open spec fn no_frame(e: Endian, b: Seq<u8>) -> bool {
    !has_frame(e, b)
}

/// Encoding well-formed frames one after the other and splitting the bytes
/// again gives back the same frames, in order, and the trailing bytes.
pub proof fn lemma_frames_roundtrip(e: Endian, fs: Seq<FrameV>, tail: Seq<u8>)
    requires
        forall|i: int| 0 <= i < fs.len() ==> frame_ok(#[trigger] fs[i]),
        no_frame(e, tail),
    ensures
        split_frames(e, frames_bytes(e, fs) + tail) == (fs, tail),
    decreases fs.len(),
{
    if fs.len() == 0 {
        assert(frames_bytes(e, fs) + tail =~= tail);
    } else {
        let rest = fs.drop_first();
        lemma_frames_roundtrip(e, rest, tail);
        let b = frames_bytes(e, fs) + tail;
        assert(b =~= frame_bytes(e, fs[0]) + (frames_bytes(e, rest) + tail));
        lemma_frame_then(e, fs[0], frames_bytes(e, rest) + tail);
        assert(seq![fs[0]] + rest =~= fs);
    }
}

/// Bytes appended behind a whole frame do not change that frame.
proof fn lemma_frame_extend(e: Endian, a: Seq<u8>, c: Seq<u8>)
    requires
        has_frame(e, a),
    ensures
        has_frame(e, a + c),
        first_frame(e, a + c) == first_frame(e, a),
        after_first_frame(e, a + c) == after_first_frame(e, a) + c,
{
    let b = a + c;
    assert(b[0] == a[0] && b[1] == a[1] && b[2] == a[2] && b[3] == a[3]);
    assert(b[4] == a[4] && b[5] == a[5] && b[6] == a[6] && b[7] == a[7]);
    assert(u32_at(e, b, 4) == u32_at(e, a, 4));
    assert(u32_at(e, b, 0) == u32_at(e, a, 0));
    assert(b.subrange(8, frame_len_at(e, a) as int) =~= a.subrange(8, frame_len_at(e, a) as int));
    assert(after_first_frame(e, b) =~= after_first_frame(e, a) + c);
}

/// Splitting `a + c` splits `a` first, then what is left of `a` with `c`.
pub proof fn lemma_split_append(e: Endian, a: Seq<u8>, c: Seq<u8>)
    ensures
        split_frames(e, a + c) == (split_frames(e, a).0 + split_frames(
            e,
            split_frames(e, a).1 + c,
        ).0, split_frames(e, split_frames(e, a).1 + c).1),
    decreases a.len(),
{
    if has_frame(e, a) {
        lemma_frame_extend(e, a, c);
        let a2 = after_first_frame(e, a);
        lemma_split_append(e, a2, c);
        assert(split_frames(e, a + c).0 =~= seq![first_frame(e, a)] + (split_frames(e, a2).0
            + split_frames(e, split_frames(e, a2).1 + c).0));
    } else {
        assert(split_frames(e, a).0 + split_frames(e, a + c).0 =~= split_frames(e, a + c).0);
    }
}

/// The bytes of `chunks`, one after the other.
pub open spec fn chunks_bytes(chunks: Seq<Seq<u8>>) -> Seq<u8>
    decreases chunks.len(),
{
    if chunks.len() == 0 {
        Seq::empty()
    } else {
        chunks_bytes(chunks.drop_last()) + chunks.last()
    }
}

/// What a decoder that receives `chunks` one at a time, and takes every whole
/// frame after each, has emitted and still holds.
pub open spec fn feed(e: Endian, chunks: Seq<Seq<u8>>) -> (Seq<FrameV>, Seq<u8>)
    decreases chunks.len(),
{
    if chunks.len() == 0 {
        (Seq::empty(), Seq::empty())
    } else {
        let prev = feed(e, chunks.drop_last());
        let s = split_frames(e, prev.1 + chunks.last());
        (prev.0 + s.0, s.1)
    }
}

/// How a stream is cut into chunks does not change which frames come out,
/// nor their order: the result is that of splitting the whole stream at once.
pub proof fn lemma_feed_any_chunks(e: Endian, chunks: Seq<Seq<u8>>)
    ensures
        feed(e, chunks) == split_frames(e, chunks_bytes(chunks)),
    decreases chunks.len(),
{
    if chunks.len() == 0 {
        assert(split_frames(e, Seq::<u8>::empty()) == (Seq::<FrameV>::empty(), Seq::<u8>::empty()));
    } else {
        lemma_feed_any_chunks(e, chunks.drop_last());
        lemma_split_append(e, chunks_bytes(chunks.drop_last()), chunks.last());
    }
}

/// A stream made of well-formed frames, cut into chunks of any sizes, gives
/// back exactly those frames, in order, and leaves nothing behind.
pub proof fn lemma_chunked_stream(e: Endian, fs: Seq<FrameV>, chunks: Seq<Seq<u8>>)
    requires
        forall|i: int| 0 <= i < fs.len() ==> frame_ok(#[trigger] fs[i]),
        chunks_bytes(chunks) == frames_bytes(e, fs),
    ensures
        feed(e, chunks) == (fs, Seq::<u8>::empty()),
{
    lemma_feed_any_chunks(e, chunks);
    lemma_frames_roundtrip(e, fs, Seq::empty());
    assert(frames_bytes(e, fs) + Seq::<u8>::empty() =~= frames_bytes(e, fs));
}

} // verus!

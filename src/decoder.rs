use vstd::prelude::*;

use crate::chunks::{
    chunk_error, chunk_type_of, color_of_code, grammar_fits, header_mode, length_error, length_fits,
    Chunk, ChunkType, ColorType,
};
use crate::error::DecodeError;
use crate::png::Png;
use crate::stream::be_u32;

verus! {

//  The stream as a sequence of frames: a four-byte length L, a four-byte tag,
//  L bytes of payload and a four-byte checksum.

pub open spec fn frame_length(buf: Seq<u8>, pos: int) -> int {
    be_u32(buf, pos)
}

pub open spec fn frame_tag(buf: Seq<u8>, pos: int) -> u32 {
    be_u32(buf, pos + 4) as u32
}

pub open spec fn frame_payload(buf: Seq<u8>, pos: int) -> Seq<u8> {
    buf.subrange(pos + 8, pos + 8 + frame_length(buf, pos))
}

pub open spec fn frame_crc(buf: Seq<u8>, pos: int) -> Seq<u8> {
    buf.subrange(pos + 8 + frame_length(buf, pos), frame_end(buf, pos))
}

/// Where the frame that starts at `pos` ends and the next one starts.
pub open spec fn frame_end(buf: Seq<u8>, pos: int) -> int {
    pos + 12 + frame_length(buf, pos)
}

/// Where the `i`-th frame after `start` begins.
pub open spec fn frame_pos(buf: Seq<u8>, start: int, i: nat) -> int
    decreases i,
{
    if i == 0 {
        start
    } else {
        frame_end(buf, frame_pos(buf, start, (i - 1) as nat))
    }
}

/// The header color type in force after a chunk of type `kind` with payload
/// `p` decoded under `mode`: the first header chunk sets it for good.
pub open spec fn next_mode(kind: ChunkType, p: Seq<u8>, mode: Option<ColorType>) -> Option<ColorType> {
    if mode is None && kind == ChunkType::IDHR {
        color_of_code(p[9])
    } else {
        mode
    }
}

/// The decode loop from `pos` on, under header color type `mode`: how many
/// chunks it appends, and whether it reaches the end chunk or the first error.
pub open spec fn walk(buf: Seq<u8>, pos: int, mode: Option<ColorType>) -> (nat, Result<(), DecodeError>)
    decreases buf.len() - pos,
{
    if pos + 8 > buf.len() {
        (0, Err(DecodeError::OutOfBounds))
    } else {
        match chunk_type_of(frame_tag(buf, pos)) {
            None => (0, Err(DecodeError::UnknownChunkType)),
            Some(kind) => if length_error(kind, frame_length(buf, pos), mode) is Some {
                (0, Err(length_error(kind, frame_length(buf, pos), mode)->Some_0))
            } else if frame_end(buf, pos) > buf.len() {
                (0, Err(DecodeError::OutOfBounds))
            } else {
                match chunk_error(kind, frame_payload(buf, pos), mode) {
                    Some(e) => (0, Err(e)),
                    None => if kind == ChunkType::IEND {
                        (1, Ok(()))
                    } else {
                        let rest = walk(
                            buf,
                            frame_end(buf, pos),
                            next_mode(kind, frame_payload(buf, pos), mode),
                        );
                        (rest.0 + 1, rest.1)
                    },
                }
            },
        }
    }
}

/// The chunk `c` is the decoding of the whole frame at `pos`, under `mode`.
#[verifier::opaque]
pub open spec fn frame_decodes_to(buf: Seq<u8>, pos: int, mode: Option<ColorType>, c: Chunk) -> bool {
    &&& 0 <= pos
    &&& frame_end(buf, pos) <= buf.len()
    &&& chunk_type_of(frame_tag(buf, pos)) == Some(c.kind())
    &&& chunk_error(c.kind(), frame_payload(buf, pos), mode) is None
    &&& c.decoded_from(frame_payload(buf, pos), frame_crc(buf, pos), mode)
}

/// Decoded records follow the order of their frames in the buffer: the frame
/// of the `i`-th record ends at or before the start of the frame of the `j`-th,
/// for `i < j`. `get_all_chunks` decodes its `i`-th record from the frame at
/// `frame_pos(buf, start, i)`.
pub proof fn lemma_frames_in_stream_order(buf: Seq<u8>, start: int, i: nat, j: nat)
    requires
        i < j,
    ensures
        frame_pos(buf, start, i) < frame_end(buf, frame_pos(buf, start, i)) <= frame_pos(buf, start, j),
    decreases j,
{
    if j > i + 1 {
        lemma_frames_in_stream_order(buf, start, i, (j - 1) as nat);
        let q = frame_pos(buf, start, (j - 1) as nat);
        assert(q < frame_end(buf, q));
    }
}

/// The frame at `pos` decodes under `mode` and is not the end chunk, so the
/// decode loop goes on past it.
pub open spec fn frame_passes(buf: Seq<u8>, pos: int, mode: Option<ColorType>) -> bool {
    &&& pos + 8 <= buf.len()
    &&& chunk_type_of(frame_tag(buf, pos)) matches Some(kind) && {
        &&& length_error(kind, frame_length(buf, pos), mode) is None
        &&& frame_end(buf, pos) <= buf.len()
        &&& chunk_error(kind, frame_payload(buf, pos), mode) is None
        &&& kind != ChunkType::IEND
    }
}

/// Where the loop stands, position and header color type, after `j` frames
/// from `pos` under `mode`.
pub open spec fn after_frames(buf: Seq<u8>, pos: int, mode: Option<ColorType>, j: nat) -> (int, Option<ColorType>)
    decreases j,
{
    if j == 0 {
        (pos, mode)
    } else {
        let kind = chunk_type_of(frame_tag(buf, pos))->Some_0;
        after_frames(buf, frame_end(buf, pos), next_mode(kind, frame_payload(buf, pos), mode), (j - 1) as nat)
    }
}

/// The first `j` frames from `pos` all decode and none is the end chunk.
pub open spec fn frames_pass(buf: Seq<u8>, pos: int, mode: Option<ColorType>, j: nat) -> bool
    decreases j,
{
    if j == 0 {
        true
    } else {
        let kind = chunk_type_of(frame_tag(buf, pos))->Some_0;
        frame_passes(buf, pos, mode) && frames_pass(
            buf,
            frame_end(buf, pos),
            next_mode(kind, frame_payload(buf, pos), mode),
            (j - 1) as nat,
        )
    }
}

/// Past `j` frames that decode, the loop has appended `j` chunks and goes on
/// from where they end.
pub proof fn lemma_walk_after_frames(buf: Seq<u8>, pos: int, mode: Option<ColorType>, j: nat)
    requires
        frames_pass(buf, pos, mode, j),
    ensures
        ({
            let (q, m) = after_frames(buf, pos, mode, j);
            walk(buf, pos, mode) == (j + walk(buf, q, m).0, walk(buf, q, m).1)
        }),
    decreases j,
{
    if j > 0 {
        let kind = chunk_type_of(frame_tag(buf, pos))->Some_0;
        lemma_walk_after_frames(
            buf,
            frame_end(buf, pos),
            next_mode(kind, frame_payload(buf, pos), mode),
            (j - 1) as nat,
        );
    }
}

/// A chunk whose declared length does not fit the layout of its type fails
/// with a length error, and decoding stops there, after the `j` chunks before
/// it. Where the length alone rules the chunk out, this holds even if the
/// buffer ends inside the chunk.
pub proof fn lemma_length_mismatch_fails(buf: Seq<u8>, pos: int, mode: Option<ColorType>, j: nat)
    requires
        frames_pass(buf, pos, mode, j),
        ({
            let (q, m) = after_frames(buf, pos, mode, j);
            &&& q + 8 <= buf.len()
            &&& chunk_type_of(frame_tag(buf, q)) matches Some(kind) && !(kind == ChunkType::bKGD
                && m is None) && (!length_fits(kind, frame_length(buf, q), m) || (frame_end(buf, q)
                <= buf.len() && !grammar_fits(kind, frame_payload(buf, q), m)))
        }),
    ensures
        walk(buf, pos, mode) == (j, Err::<(), DecodeError>(DecodeError::MalformedLength)),
{
    lemma_walk_after_frames(buf, pos, mode, j);
}

/// A buffer that ends inside a frame, before its length and tag or before the
/// end of the payload and checksum that its length declares, fails there with
/// an out-of-bounds error after the `j` chunks before it, unless the tag and
/// length alone already fail.
pub proof fn lemma_truncated_frame_fails(buf: Seq<u8>, pos: int, mode: Option<ColorType>, j: nat)
    requires
        frames_pass(buf, pos, mode, j),
        ({
            let (q, m) = after_frames(buf, pos, mode, j);
            q + 8 > buf.len() || (chunk_type_of(frame_tag(buf, q)) matches Some(kind)
                && length_error(kind, frame_length(buf, q), m) is None && frame_end(buf, q)
                > buf.len())
        }),
    ensures
        walk(buf, pos, mode) == (j, Err::<(), DecodeError>(DecodeError::OutOfBounds)),
{
    lemma_walk_after_frames(buf, pos, mode, j);
}

/// Drives a session's decode loop.
#[derive(Debug)]
pub struct PngDecoder {
    pub png_file: Png,
}

impl PngDecoder {
    pub fn new(png_file: Png) -> (r: PngDecoder)
        ensures
            r.png_file == png_file,
    {
        PngDecoder { png_file }
    }

    /// Reads one chunk at the read position and appends it; reports whether it
    /// was the end chunk.
    fn next_chunk(&mut self) -> (r: Result<bool, DecodeError>)
        requires
            old(self).png_file.wf(),
        ensures
            ({
                let pre = old(self).png_file;
                let post = final(self).png_file;
                let buf = pre.buffer();
                let pos = pre.offset();
                let w = walk(buf, pos, header_mode(pre.chunks()));
                &&& post.wf()
                &&& post.buffer() == buf
                &&& post.verified() == pre.verified()
                &&& match r {
                    Err(e) => {
                        &&& w == (0nat, Err::<(), DecodeError>(e))
                        &&& post.chunks() == pre.chunks()
                        &&& e == DecodeError::UnknownChunkType ==> post.offset() == pos + 8
                    },
                    Ok(done) => {
                        &&& post.chunks().len() == pre.chunks().len() + 1
                        &&& post.chunks().drop_last() == pre.chunks()
                        &&& frame_decodes_to(buf, pos, header_mode(pre.chunks()), post.chunks().last())
                        &&& post.offset() == frame_end(buf, pos)
                        &&& if done {
                            w == (1nat, Ok::<(), DecodeError>(()))
                        } else {
                            let rest = walk(buf, post.offset(), header_mode(post.chunks()));
                            w == (rest.0 + 1, rest.1)
                        }
                    },
                }
            }),
    {
        let ghost buf = self.png_file.buffer();
        let ghost pos = self.png_file.offset();
        let ghost before = self.png_file.chunks();
        let ghost mode = header_mode(before);
        let ghost w = walk(buf, pos, mode);
        let length = match self.png_file.big_endian_u32() {
            Ok(v) => v,
            Err(e) => {
                proof {
                    assert(w == (0nat, Err::<(), DecodeError>(e)));
                }
                return Err(e);
            },
        };
        let tag = match self.png_file.big_endian_u32() {
            Ok(v) => v,
            Err(e) => {
                proof {
                    assert(w == (0nat, Err::<(), DecodeError>(e)));
                }
                return Err(e);
            },
        };
        proof {
            assert(length as int == frame_length(buf, pos));
            assert(tag == frame_tag(buf, pos));
        }
        let kind = match ChunkType::from_tag(tag) {
            Ok(v) => v,
            Err(e) => {
                proof {
                    assert(w == (0nat, Err::<(), DecodeError>(e)));
                }
                return Err(e);
            },
        };
        let chunk = match Chunk::decode(kind, length, &mut self.png_file) {
            Ok(v) => v,
            Err(e) => {
                proof {
                    assert(w == (0nat, Err::<(), DecodeError>(e)));
                }
                return Err(e);
            },
        };
        let ghost p = frame_payload(buf, pos);
        proof {
            reveal(frame_decodes_to);
            assert(before.push(chunk).drop_last() =~= before);
            assert(header_mode(before.push(chunk)) == next_mode(kind, p, mode));
        }
        self.png_file.add_chunk(chunk)?;
        Ok(kind == ChunkType::IEND)
    }

    /// Reads chunks from the read position until the end chunk, appending each
    /// to the chunk list in stream order. The first failure ends the loop; the
    /// chunks appended before it stay in the list.
    pub fn get_all_chunks(&mut self) -> (r: Result<(), DecodeError>)
        requires
            old(self).png_file.wf(),
        ensures
            ({
                let pre = old(self).png_file;
                let post = final(self).png_file;
                let n = pre.chunks().len();
                let w = walk(pre.buffer(), pre.offset(), header_mode(pre.chunks()));
                &&& post.wf()
                &&& post.buffer() == pre.buffer()
                &&& post.verified() == pre.verified()
                &&& r == w.1
                &&& post.chunks().len() == n + w.0
                &&& post.chunks().take(n as int) == pre.chunks()
                &&& r is Ok ==> post.offset() == frame_pos(pre.buffer(), pre.offset(), w.0)
                &&& r == Err::<(), DecodeError>(DecodeError::UnknownChunkType) ==> post.offset()
                    == frame_pos(pre.buffer(), pre.offset(), w.0) + 8
                &&& forall|i: nat|
                    i < w.0 ==> frame_decodes_to(
                        pre.buffer(),
                        frame_pos(pre.buffer(), pre.offset(), i),
                        header_mode(post.chunks().take(n + i as int)),
                        #[trigger] post.chunks()[n + i as int],
                    )
            }),
    {
        let ghost buf = self.png_file.buffer();
        let ghost start = self.png_file.offset();
        let ghost prior = self.png_file.chunks();
        let ghost n = prior.len();
        let ghost w = walk(buf, start, header_mode(prior));
        let ghost mut k: nat = 0;
        proof {
            assert(self.png_file.chunks().take(n as int) =~= prior);
        }
        loop
            invariant
                buf == old(self).png_file.buffer(),
                start == old(self).png_file.offset(),
                prior == old(self).png_file.chunks(),
                n == prior.len(),
                w == walk(buf, start, header_mode(prior)),
                self.png_file.wf(),
                self.png_file.buffer() == buf,
                self.png_file.verified() == old(self).png_file.verified(),
                0 <= start,
                self.png_file.chunks().len() == n + k,
                self.png_file.chunks().take(n as int) == prior,
                self.png_file.offset() == frame_pos(buf, start, k),
                w.0 == k + walk(buf, self.png_file.offset(), header_mode(self.png_file.chunks())).0,
                w.1 == walk(buf, self.png_file.offset(), header_mode(self.png_file.chunks())).1,
                forall|i: nat|
                    i < k ==> frame_decodes_to(
                        buf,
                        frame_pos(buf, start, i),
                        header_mode(self.png_file.chunks().take(n + i as int)),
                        #[trigger] self.png_file.chunks()[n + i as int],
                    ),
            decreases buf.len() - self.png_file.offset(),
        {
            let ghost before = self.png_file.chunks();
            let ghost pos = self.png_file.offset();
            let done = match self.next_chunk() {
                Ok(d) => d,
                Err(e) => {
                    return Err(e);
                },
            };
            proof {
                assert(frame_pos(buf, start, k + 1) == frame_end(buf, pos));
                let after = self.png_file.chunks();
                assert(after.take(n as int) =~= prior) by {
                    assert(after.take(n as int) =~= after.drop_last().take(n as int));
                }
                assert(after.take(n + k as int) =~= before);
                assert forall|i: nat| i < k + 1 implies frame_decodes_to(
                    buf,
                    frame_pos(buf, start, i),
                    header_mode(after.take(n + i as int)),
                    #[trigger] after[n + i as int],
                ) by {
                    if i < k {
                        assert(after.take(n + i as int) =~= before.take(n + i as int));
                        assert(after[n + i as int] == before[n + i as int]);
                    }
                }
                k = k + 1;
            }
            if done {
                return Ok(());
            }
        }
    }
}

} // verus!

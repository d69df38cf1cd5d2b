use vstd::prelude::*;
use vstd::utf8::{decode_utf8, valid_utf8};

use crate::chunks::{chunk_error, header_mode, length_error, Chunk, ChunkType, ColorType};
use crate::error::DecodeError;
use crate::stream::{be_u16, be_u32, first_nul, lemma_first_nul, Stream};

verus! {

/// The eight bytes that open every stream of this format.
pub open spec fn png_signature() -> Seq<u8> {
    seq![137u8, 80, 78, 71, 13, 10, 26, 10]
}

/// A decode session: the whole input buffer, the read position into it, the
/// chunks decoded so far, and whether the buffer opened with the signature.
#[derive(Debug)]
pub struct Png {
    data: Vec<u8>,
    data_stream: Stream,
    chunk_list: Vec<Chunk>,
    signature_verified: bool,
}

/// `post` is `pre` with the read position moved `n` bytes on and nothing else changed.
pub open spec fn advanced(pre: Png, post: Png, n: int) -> bool {
    &&& post.buffer() == pre.buffer()
    &&& post.offset() == pre.offset() + n
    &&& post.chunks() == pre.chunks()
    &&& post.verified() == pre.verified()
}

/// What a chunk decoder leaves behind: the whole session untouched where it
/// fails before reading; else the buffer, the chunk list and the flag
/// untouched, and, where the body was there to read, the position just past it.
pub open spec fn body_consumed(pre: Png, post: Png, kind: ChunkType, length: int) -> bool {
    if length_error(kind, length, header_mode(pre.chunks())) is Some {
        post == pre
    } else {
        &&& post.wf()
        &&& post.buffer() == pre.buffer()
        &&& post.chunks() == pre.chunks()
        &&& post.verified() == pre.verified()
        &&& if pre.body_fits(length) {
            post.offset() == pre.offset() + length + 4
        } else {
            post == pre
        }
    }
}

impl Png {
    /// The input buffer.
    pub closed spec fn buffer(&self) -> Seq<u8> {
        self.data@
    }

    /// The read position into the buffer.
    pub closed spec fn offset(&self) -> int {
        self.data_stream.sequential_counter as int
    }

    /// The chunks decoded so far, in stream order.
    pub closed spec fn chunks(&self) -> Seq<Chunk> {
        self.chunk_list@
    }

    /// Whether the buffer opened with the signature.
    pub closed spec fn verified(&self) -> bool {
        self.signature_verified
    }

    /// The read position never passes the end of the buffer.
    pub open spec fn wf(&self) -> bool {
        0 <= self.offset() <= self.buffer().len()
    }

    /// A chunk body of `length` payload bytes and a four-byte checksum lies
    /// within the buffer at the read position.
    pub open spec fn body_fits(&self, length: int) -> bool {
        self.offset() + length + 4 <= self.buffer().len()
    }

    pub open spec fn body_payload(&self, length: int) -> Seq<u8> {
        self.buffer().subrange(self.offset(), self.offset() + length)
    }

    pub open spec fn body_crc(&self, length: int) -> Seq<u8> {
        self.buffer().subrange(self.offset() + length, self.offset() + length + 4)
    }

    /// Why decoding a chunk of type `kind` whose body starts at the read
    /// position fails, if it does: first what needs no byte of the body, then
    /// a body that runs past the buffer, then what the payload holds.
    pub open spec fn decode_failure(&self, kind: ChunkType, length: int) -> Option<DecodeError> {
        if length_error(kind, length, header_mode(self.chunks())) is Some {
            length_error(kind, length, header_mode(self.chunks()))
        } else if !self.body_fits(length) {
            Some(DecodeError::OutOfBounds)
        } else {
            chunk_error(kind, self.body_payload(length), header_mode(self.chunks()))
        }
    }

    /// Starts a session on a whole buffer: consumes the eight signature bytes
    /// and records whether they are the expected ones. A mismatch does not stop
    /// the session; callers that want it to be fatal test `signature_verified`.
    pub fn new(data: Vec<u8>) -> (r: Result<Png, DecodeError>)
        ensures
            data@.len() < 8 ==> r == Err::<Png, DecodeError>(DecodeError::OutOfBounds),
            data@.len() >= 8 ==> (r matches Ok(p) && {
                &&& p.wf()
                &&& p.buffer() == data@
                &&& p.offset() == 8
                &&& p.chunks().len() == 0
                &&& p.verified() == (data@.subrange(0, 8) == png_signature())
            }),
    {
        let mut stream = Stream::new();
        let signature = stream.read_bytes_sequential(&data, 8)?;
        let verified = signature[0] == 137 && signature[1] == 80 && signature[2] == 78
            && signature[3] == 71 && signature[4] == 13 && signature[5] == 10 && signature[6] == 26
            && signature[7] == 10;
        proof {
            if verified {
                assert(signature@ =~= png_signature());
            } else {
                assert(signature@ != png_signature()) by {
                    if signature@ == png_signature() {
                        assert(signature@[0] == png_signature()[0]);
                        assert(signature@[1] == png_signature()[1]);
                        assert(signature@[2] == png_signature()[2]);
                        assert(signature@[3] == png_signature()[3]);
                        assert(signature@[4] == png_signature()[4]);
                        assert(signature@[5] == png_signature()[5]);
                        assert(signature@[6] == png_signature()[6]);
                        assert(signature@[7] == png_signature()[7]);
                    }
                }
            }
        }
        Ok(Png { data, data_stream: stream, chunk_list: Vec::new(), signature_verified: verified })
    }

    pub fn signature_verified(&self) -> (r: bool)
        ensures
            r == self.verified(),
    {
        self.signature_verified
    }

    /// The read position, in bytes from the start of the buffer.
    pub fn position(&self) -> (r: usize)
        ensures
            r == self.offset(),
    {
        self.data_stream.sequential_counter
    }

    /// The chunks decoded so far, in stream order.
    pub fn chunk_list(&self) -> (r: &Vec<Chunk>)
        ensures
            r@ == self.chunks(),
    {
        &self.chunk_list
    }

    pub fn add_chunk(&mut self, chunk: Chunk) -> (r: Result<(), DecodeError>)
        ensures
            r is Ok,
            final(self).chunks() == old(self).chunks().push(chunk),
            final(self).buffer() == old(self).buffer(),
            final(self).offset() == old(self).offset(),
            final(self).verified() == old(self).verified(),
    {
        self.chunk_list.push(chunk);
        Ok(())
    }

    /// Reads a chunk body at the read position: `length` payload bytes and the
    /// four checksum bytes. Fails without moving unless all of it is there.
    pub fn read_body(&mut self, length: u32) -> (r: Result<(Vec<u8>, Vec<u8>), DecodeError>)
        requires
            old(self).wf(),
        ensures
            final(self).wf(),
            old(self).body_fits(length as int) ==> {
                &&& r matches Ok((p, c)) && p@ == old(self).body_payload(length as int) && c@
                    == old(self).body_crc(length as int)
                &&& advanced(*old(self), *final(self), length + 4)
            },
            !old(self).body_fits(length as int) ==> {
                &&& r == Err::<(Vec<u8>, Vec<u8>), DecodeError>(DecodeError::OutOfBounds)
                &&& *final(self) == *old(self)
            },
    {
        let left = self.data.len() - self.data_stream.sequential_counter;
        if left < 4 || length as usize > left - 4 {
            return Err(DecodeError::OutOfBounds);
        }
        let payload = self.read_bytes(length as usize)?;
        let crc = self.get_u32()?;
        Ok((payload, crc))
    }

    /// Reads the next `range` bytes; fails without moving when fewer are left.
    pub fn read_bytes(&mut self, range: usize) -> (r: Result<Vec<u8>, DecodeError>)
        requires
            old(self).wf(),
        ensures
            final(self).wf(),
            old(self).offset() + range <= old(self).buffer().len() ==> {
                &&& r matches Ok(v) && v@ == old(self).buffer().subrange(old(self).offset(), old(self).offset() + range)
                &&& advanced(*old(self), *final(self), range as int)
            },
            old(self).offset() + range > old(self).buffer().len() ==> {
                &&& r == Err::<Vec<u8>, DecodeError>(DecodeError::OutOfBounds)
                &&& advanced(*old(self), *final(self), 0)
            },
    {
        self.data_stream.read_bytes_sequential(&self.data, range)
    }

    pub fn get_u8(&mut self) -> (r: Result<u8, DecodeError>)
        requires
            old(self).wf(),
        ensures
            final(self).wf(),
            old(self).offset() + 1 <= old(self).buffer().len() ==> {
                &&& r == Ok::<u8, DecodeError>(old(self).buffer()[old(self).offset()])
                &&& advanced(*old(self), *final(self), 1)
            },
            old(self).offset() + 1 > old(self).buffer().len() ==> {
                &&& r == Err::<u8, DecodeError>(DecodeError::OutOfBounds)
                &&& advanced(*old(self), *final(self), 0)
            },
    {
        self.data_stream.read_u8(&self.data)
    }

    pub fn big_endian_u16(&mut self) -> (r: Result<u16, DecodeError>)
        requires
            old(self).wf(),
        ensures
            final(self).wf(),
            old(self).offset() + 2 <= old(self).buffer().len() ==> {
                &&& r matches Ok(v) && v as int == be_u16(old(self).buffer(), old(self).offset())
                &&& advanced(*old(self), *final(self), 2)
            },
            old(self).offset() + 2 > old(self).buffer().len() ==> {
                &&& r == Err::<u16, DecodeError>(DecodeError::OutOfBounds)
                &&& advanced(*old(self), *final(self), 0)
            },
    {
        self.data_stream.read_u16_be(&self.data)
    }

    pub fn big_endian_u32(&mut self) -> (r: Result<u32, DecodeError>)
        requires
            old(self).wf(),
        ensures
            final(self).wf(),
            old(self).offset() + 4 <= old(self).buffer().len() ==> {
                &&& r matches Ok(v) && v as int == be_u32(old(self).buffer(), old(self).offset())
                &&& advanced(*old(self), *final(self), 4)
            },
            old(self).offset() + 4 > old(self).buffer().len() ==> {
                &&& r == Err::<u32, DecodeError>(DecodeError::OutOfBounds)
                &&& advanced(*old(self), *final(self), 0)
            },
    {
        self.data_stream.read_u32_be(&self.data)
    }

    /// The next four bytes as they stand, as a checksum field is kept.
    pub fn get_u32(&mut self) -> (r: Result<Vec<u8>, DecodeError>)
        requires
            old(self).wf(),
        ensures
            final(self).wf(),
            old(self).offset() + 4 <= old(self).buffer().len() ==> {
                &&& r matches Ok(v) && v@ == old(self).buffer().subrange(old(self).offset(), old(self).offset() + 4)
                &&& advanced(*old(self), *final(self), 4)
            },
            old(self).offset() + 4 > old(self).buffer().len() ==> {
                &&& r == Err::<Vec<u8>, DecodeError>(DecodeError::OutOfBounds)
                &&& advanced(*old(self), *final(self), 0)
            },
    {
        self.read_bytes(4)
    }

    /// The next two bytes as they stand.
    pub fn get_u16(&mut self) -> (r: Result<Vec<u8>, DecodeError>)
        requires
            old(self).wf(),
        ensures
            final(self).wf(),
            old(self).offset() + 2 <= old(self).buffer().len() ==> {
                &&& r matches Ok(v) && v@ == old(self).buffer().subrange(old(self).offset(), old(self).offset() + 2)
                &&& advanced(*old(self), *final(self), 2)
            },
            old(self).offset() + 2 > old(self).buffer().len() ==> {
                &&& r == Err::<Vec<u8>, DecodeError>(DecodeError::OutOfBounds)
                &&& advanced(*old(self), *final(self), 0)
            },
    {
        self.read_bytes(2)
    }

    /// Reads `length` bytes as UTF-8 text.
    pub fn get_string(&mut self, length: usize) -> (r: Result<String, DecodeError>)
        requires
            old(self).wf(),
        ensures
            final(self).wf(),
            ({
                let start = old(self).offset();
                let field = old(self).buffer().subrange(start, start + length);
                if start + length <= old(self).buffer().len() {
                    &&& advanced(*old(self), *final(self), length as int)
                    &&& if valid_utf8(field) {
                        r matches Ok(t) && t@ == decode_utf8(field)
                    } else {
                        r == Err::<String, DecodeError>(DecodeError::TextDecodingError)
                    }
                } else {
                    &&& r == Err::<String, DecodeError>(DecodeError::OutOfBounds)
                    &&& advanced(*old(self), *final(self), 0)
                }
            }),
    {
        self.data_stream.read_string(&self.data, length)
    }

    /// Reads a zero-terminated UTF-8 string and the count of its bytes, the
    /// terminator left out of the count but consumed.
    pub fn read_null_terminated_string(&mut self) -> (r: Result<(String, u32), DecodeError>)
        requires
            old(self).wf(),
        ensures
            final(self).wf(),
            ({
                let start = old(self).offset();
                let k = first_nul(old(self).buffer(), start);
                let field = old(self).buffer().subrange(start, k);
                if k < old(self).buffer().len() {
                    &&& advanced(*old(self), *final(self), k + 1 - start)
                    &&& if valid_utf8(field) {
                        r matches Ok((t, n)) && t@ == decode_utf8(field) && n == #[verifier::truncate] ((k - start) as u32)
                    } else {
                        r == Err::<(String, u32), DecodeError>(DecodeError::TextDecodingError)
                    }
                } else {
                    &&& r == Err::<(String, u32), DecodeError>(DecodeError::OutOfBounds)
                    &&& advanced(*old(self), *final(self), 0)
                }
            }),
    {
        proof {
            lemma_first_nul(self.data@, self.data_stream.sequential_counter as int);
        }
        self.data_stream.read_null_terminated_string(&self.data)
    }

    /// The color type of the first header chunk decoded so far, if any.
    pub fn header_color_type(&self) -> (r: Option<ColorType>)
        ensures
            r == header_mode(self.chunks()),
    {
        let mut i: usize = 0;
        while i < self.chunk_list.len()
            invariant
                i <= self.chunk_list@.len(),
                header_mode(self.chunk_list@.take(i as int)) is None,
            decreases self.chunk_list@.len() - i,
        {
            proof {
                assert(self.chunk_list@.take(i as int + 1).drop_last() =~= self.chunk_list@.take(i as int));
            }
            match &self.chunk_list[i] {
                Chunk::IDHR(h) => {
                    proof {
                        crate::chunks::lemma_header_mode_prefix(self.chunk_list@, i as int + 1);
                    }
                    return Some(h.color_type);
                },
                _ => {},
            }
            i += 1;
        }
        proof {
            assert(self.chunk_list@.take(i as int) =~= self.chunk_list@);
        }
        None
    }
}

} // verus!

use vstd::prelude::*;

use vstd::utf8::{decode_utf8, valid_utf8};

use crate::error::DecodeError;

verus! {

/// The big-endian unsigned value of the two bytes of `s` at `i`.
pub open spec fn be_u16(s: Seq<u8>, i: int) -> int {
    s[i] as int * 256 + s[i + 1] as int
}

/// The big-endian unsigned value of the four bytes of `s` at `i`.
pub open spec fn be_u32(s: Seq<u8>, i: int) -> int {
    s[i] as int * 16777216 + s[i + 1] as int * 65536 + s[i + 2] as int * 256 + s[i + 3] as int
}

/// The index of the first zero byte of `s` at or after `from`, or `s.len()` when there is none.
pub open spec fn first_nul(s: Seq<u8>, from: int) -> int
    decreases s.len() - from,
{
    if from >= s.len() {
        s.len() as int
    } else if s[from] == 0 {
        from
    } else {
        first_nul(s, from + 1)
    }
}

pub proof fn lemma_first_nul(s: Seq<u8>, from: int)
    requires
        0 <= from <= s.len(),
    ensures
        from <= first_nul(s, from) <= s.len(),
        first_nul(s, from) < s.len() ==> s[first_nul(s, from)] == 0,
        forall|j: int| from <= j < first_nul(s, from) ==> s[j] != 0,
    decreases s.len() - from,
{
    if from < s.len() && s[from] != 0 {
        lemma_first_nul(s, from + 1);
    }
}

/// Combines four bytes, most significant first, into one integer.
pub fn sum_big_endian(bytes: &[u8]) -> (r: Result<u32, DecodeError>)
    ensures
        bytes@.len() == 4 ==> (r matches Ok(v) && v as int == be_u32(bytes@, 0)),
        bytes@.len() != 4 ==> r == Err::<u32, DecodeError>(DecodeError::OutOfBounds),
{
    if bytes.len() != 4 {
        return Err(DecodeError::OutOfBounds);
    }
    Ok((bytes[0] as u32) * 16777216 + (bytes[1] as u32) * 65536 + (bytes[2] as u32) * 256
        + bytes[3] as u32)
}

/// The characters that the bytes `b` stand for when each byte is one character
/// (ISO 8859-1).
pub open spec fn latin1(b: Seq<u8>) -> Seq<char> {
    b.map(|_i: int, c: u8| c as char)
}

/// Relies on `String::push`: it appends the one character at the end.
#[verifier::external_body]
fn push_char(t: &mut String, c: char)
    ensures
        final(t)@ == old(t)@.push(c),
{
    t.push(c)
}

/// Decodes bytes as ISO 8859-1 text, one character per byte; this never fails.
pub fn latin1_text(bytes: &Vec<u8>) -> (r: String)
    ensures
        r@ == latin1(bytes@),
{
    let mut t = String::new();
    let mut i: usize = 0;
    while i < bytes.len()
        invariant
            i <= bytes@.len(),
            t@ == latin1(bytes@.subrange(0, i as int)),
        decreases bytes@.len() - i,
    {
        push_char(&mut t, bytes[i] as char);
        proof {
            assert(latin1(bytes@.subrange(0, i as int + 1)) =~= latin1(bytes@.subrange(0, i as int)).push(bytes@[i as int] as char));
        }
        i += 1;
    }
    proof {
        assert(bytes@.subrange(0, i as int) =~= bytes@);
    }
    t
}

/// Relies on `String::from_utf8`: it succeeds exactly on valid UTF-8, and the
/// string then holds the characters that the bytes encode.
#[verifier::external_body]
pub(crate) fn text_from_utf8(bytes: Vec<u8>) -> (r: Option<String>)
    ensures
        r is Some <==> valid_utf8(bytes@),
        r matches Some(t) ==> t@ == decode_utf8(bytes@),
{
    String::from_utf8(bytes).ok()
}

/// A forward-only read position into a byte buffer that the caller holds.
#[derive(Debug)]
pub struct Stream {
    pub sequential_counter: usize,
}

impl Default for Stream {
    fn default() -> (r: Stream)
        ensures
            r.sequential_counter == 0,
    {
        Stream { sequential_counter: 0 }
    }
}

impl Stream {
    pub fn new() -> (r: Stream)
        ensures
            r.sequential_counter == 0,
    {
        Stream { sequential_counter: 0 }
    }

    /// Reads the next `range` bytes and advances past them; fails without moving
    /// when fewer than `range` bytes are left.
    pub fn read_bytes_sequential(&mut self, byte_list: &Vec<u8>, range: usize) -> (r: Result<Vec<u8>, DecodeError>)
        ensures
            ({
                let start = old(self).sequential_counter as int;
                if start + range <= byte_list@.len() {
                    &&& r matches Ok(v) && v@ == byte_list@.subrange(start, start + range)
                    &&& final(self).sequential_counter == start + range
                } else {
                    &&& r == Err::<Vec<u8>, DecodeError>(DecodeError::OutOfBounds)
                    &&& final(self).sequential_counter == start
                }
            }),
    {
        let start = self.sequential_counter;
        if start > byte_list.len() || range > byte_list.len() - start {
            return Err(DecodeError::OutOfBounds);
        }
        let mut out: Vec<u8> = Vec::new();
        let end: usize = start + range;
        let mut i: usize = start;
        while i < end
            invariant
                start <= i <= end,
                end == start + range <= byte_list@.len(),
                out@ == byte_list@.subrange(start as int, i as int),
            decreases end - i,
        {
            out.push(byte_list[i]);
            i += 1;
        }
        self.sequential_counter = end;
        Ok(out)
    }

    pub fn read_u8(&mut self, byte_list: &Vec<u8>) -> (r: Result<u8, DecodeError>)
        ensures
            ({
                let start = old(self).sequential_counter as int;
                if start + 1 <= byte_list@.len() {
                    &&& r == Ok::<u8, DecodeError>(byte_list@[start])
                    &&& final(self).sequential_counter == start + 1
                } else {
                    &&& r == Err::<u8, DecodeError>(DecodeError::OutOfBounds)
                    &&& final(self).sequential_counter == start
                }
            }),
    {
        let bytes = self.read_bytes_sequential(byte_list, 1)?;
        Ok(bytes[0])
    }

    pub fn read_u16_be(&mut self, byte_list: &Vec<u8>) -> (r: Result<u16, DecodeError>)
        ensures
            ({
                let start = old(self).sequential_counter as int;
                if start + 2 <= byte_list@.len() {
                    &&& r matches Ok(v) && v as int == be_u16(byte_list@, start)
                    &&& final(self).sequential_counter == start + 2
                } else {
                    &&& r == Err::<u16, DecodeError>(DecodeError::OutOfBounds)
                    &&& final(self).sequential_counter == start
                }
            }),
    {
        let bytes = self.read_bytes_sequential(byte_list, 2)?;
        Ok((bytes[0] as u16) * 256 + bytes[1] as u16)
    }

    pub fn read_u32_be(&mut self, byte_list: &Vec<u8>) -> (r: Result<u32, DecodeError>)
        ensures
            ({
                let start = old(self).sequential_counter as int;
                if start + 4 <= byte_list@.len() {
                    &&& r matches Ok(v) && v as int == be_u32(byte_list@, start)
                    &&& final(self).sequential_counter == start + 4
                } else {
                    &&& r == Err::<u32, DecodeError>(DecodeError::OutOfBounds)
                    &&& final(self).sequential_counter == start
                }
            }),
    {
        let bytes = self.read_bytes_sequential(byte_list, 4)?;
        sum_big_endian(bytes.as_slice())
    }

    /// Reads the bytes up to the next zero byte and consumes that zero byte too;
    /// fails without moving when no zero byte is left.
    pub fn read_until_nul(&mut self, byte_list: &Vec<u8>) -> (r: Result<Vec<u8>, DecodeError>)
        ensures
            ({
                let start = old(self).sequential_counter as int;
                let k = first_nul(byte_list@, start);
                if k < byte_list@.len() {
                    &&& r matches Ok(v) && v@ == byte_list@.subrange(start, k)
                    &&& final(self).sequential_counter == k + 1
                } else {
                    &&& r == Err::<Vec<u8>, DecodeError>(DecodeError::OutOfBounds)
                    &&& final(self).sequential_counter == start
                }
            }),
    {
        let start = self.sequential_counter;
        if start >= byte_list.len() {
            return Err(DecodeError::OutOfBounds);
        }
        let mut i: usize = start;
        while i < byte_list.len() && byte_list[i] != 0
            invariant
                start <= i <= byte_list@.len(),
                first_nul(byte_list@, start as int) == first_nul(byte_list@, i as int),
            decreases byte_list@.len() - i,
        {
            i += 1;
        }
        if i == byte_list.len() {
            return Err(DecodeError::OutOfBounds);
        }
        let bytes = self.read_bytes_sequential(byte_list, i - start)?;
        self.sequential_counter = i + 1;
        Ok(bytes)
    }

    /// Reads a zero-terminated UTF-8 string; the count returned leaves out the
    /// terminator, which is consumed all the same.
    pub fn read_null_terminated_string(&mut self, byte_list: &Vec<u8>) -> (r: Result<(String, u32), DecodeError>)
        ensures
            ({
                let start = old(self).sequential_counter as int;
                let k = first_nul(byte_list@, start);
                let field = byte_list@.subrange(start, k);
                if k < byte_list@.len() {
                    &&& final(self).sequential_counter == k + 1
                    &&& if valid_utf8(field) {
                        r matches Ok((t, n)) && t@ == decode_utf8(field) && n == #[verifier::truncate] ((k - start) as u32)
                    } else {
                        r == Err::<(String, u32), DecodeError>(DecodeError::TextDecodingError)
                    }
                } else {
                    &&& r == Err::<(String, u32), DecodeError>(DecodeError::OutOfBounds)
                    &&& final(self).sequential_counter == start
                }
            }),
    {
        proof {
            if old(self).sequential_counter <= byte_list@.len() {
                lemma_first_nul(byte_list@, old(self).sequential_counter as int);
            }
        }
        let bytes = self.read_until_nul(byte_list)?;
        let n = #[verifier::truncate] (bytes.len() as u32);
        match text_from_utf8(bytes) {
            Some(t) => Ok((t, n)),
            None => Err(DecodeError::TextDecodingError),
        }
    }

    /// Reads the next `length` bytes as UTF-8 text.
    pub fn read_string(&mut self, byte_list: &Vec<u8>, length: usize) -> (r: Result<String, DecodeError>)
        ensures
            ({
                let start = old(self).sequential_counter as int;
                let field = byte_list@.subrange(start, start + length);
                if start + length <= byte_list@.len() {
                    &&& final(self).sequential_counter == start + length
                    &&& if valid_utf8(field) {
                        r matches Ok(t) && t@ == decode_utf8(field)
                    } else {
                        r == Err::<String, DecodeError>(DecodeError::TextDecodingError)
                    }
                } else {
                    &&& r == Err::<String, DecodeError>(DecodeError::OutOfBounds)
                    &&& final(self).sequential_counter == start
                }
            }),
    {
        let bytes = self.read_bytes_sequential(byte_list, length)?;
        match text_from_utf8(bytes) {
            Some(t) => Ok(t),
            None => Err(DecodeError::TextDecodingError),
        }
    }
}

} // verus!

use vstd::prelude::*;
use vstd::utf8::{decode_utf8, valid_utf8};

use crate::error::DecodeError;
use crate::png::{body_consumed, Png};
use crate::stream::{
    be_u16, be_u32, first_nul, latin1, latin1_text, lemma_first_nul, text_from_utf8, Stream,
};

verus! {

//  Every decoder reads the whole chunk body first: the payload of the declared
//  length and the four checksum bytes. The read position thus always lands on
//  the next chunk. The payload is then decoded on a cursor of its own, and a
//  payload that ends before its layout does is a length error.

/// The pixel layout that a header declares.
#[derive(Clone, Copy, Debug, PartialEq, Eq, Structural)]
pub enum ColorType {
    Grayscale,
    RGB,
    Indexed,
    GrayscaleAlpha,
    RGBA,
}

#[derive(Clone, Copy, Debug, PartialEq, Eq, Structural)]
pub enum InterlaceMethod {
    NonInterlaced,
    Adam7,
}

#[derive(Clone, Copy, Debug, PartialEq, Eq, Structural)]
pub enum RenderingIntent {
    Perceptual,
    RelativeColorimetric,
    Saturation,
    AbsoluteColorimetric,
}

/// The color type that a header's one-byte code stands for.
pub open spec fn color_of_code(code: u8) -> Option<ColorType> {
    if code == 0 {
        Some(ColorType::Grayscale)
    } else if code == 2 {
        Some(ColorType::RGB)
    } else if code == 3 {
        Some(ColorType::Indexed)
    } else if code == 4 {
        Some(ColorType::GrayscaleAlpha)
    } else if code == 6 {
        Some(ColorType::RGBA)
    } else {
        None
    }
}

pub open spec fn interlace_of_code(code: u8) -> Option<InterlaceMethod> {
    if code == 0 {
        Some(InterlaceMethod::NonInterlaced)
    } else if code == 1 {
        Some(InterlaceMethod::Adam7)
    } else {
        None
    }
}

pub open spec fn intent_of_code(code: u8) -> Option<RenderingIntent> {
    if code == 0 {
        Some(RenderingIntent::Perceptual)
    } else if code == 1 {
        Some(RenderingIntent::RelativeColorimetric)
    } else if code == 2 {
        Some(RenderingIntent::Saturation)
    } else if code == 3 {
        Some(RenderingIntent::AbsoluteColorimetric)
    } else {
        None
    }
}

/// The symbolic type of a chunk, one for each tag the registry knows; `IDHR`
/// is the header, whose tag reads "IHDR".
#[allow(non_camel_case_types)]
#[derive(Clone, Copy, Debug, PartialEq, Eq, Structural)]
pub enum ChunkType {
    IDHR,
    PLTE,
    IDAT,
    IEND,
    tIME,
    bKGD,
    gAMA,
    cHRM,
    dSIG,
    eXIf,
    hIST,
    iCCP,
    iTXt,
    pHYs,
    sBIT,
    sPLT,
    sRGB,
    sTER,
    tEXt,
    tRNS,
    zTXt,
}

/// The chunk type whose four tag bytes, read as a big-endian integer, are `tag`.
pub open spec fn chunk_type_of(tag: u32) -> Option<ChunkType> {
    if tag == 0x49484452 {
        Some(ChunkType::IDHR)
    } else if tag == 0x504c5445 {
        Some(ChunkType::PLTE)
    } else if tag == 0x49444154 {
        Some(ChunkType::IDAT)
    } else if tag == 0x49454e44 {
        Some(ChunkType::IEND)
    } else if tag == 0x74494d45 {
        Some(ChunkType::tIME)
    } else if tag == 0x624b4744 {
        Some(ChunkType::bKGD)
    } else if tag == 0x67414d41 {
        Some(ChunkType::gAMA)
    } else if tag == 0x6348524d {
        Some(ChunkType::cHRM)
    } else if tag == 0x64534947 {
        Some(ChunkType::dSIG)
    } else if tag == 0x65584966 {
        Some(ChunkType::eXIf)
    } else if tag == 0x68495354 {
        Some(ChunkType::hIST)
    } else if tag == 0x69434350 {
        Some(ChunkType::iCCP)
    } else if tag == 0x69545874 {
        Some(ChunkType::iTXt)
    } else if tag == 0x70485973 {
        Some(ChunkType::pHYs)
    } else if tag == 0x73424954 {
        Some(ChunkType::sBIT)
    } else if tag == 0x73504c54 {
        Some(ChunkType::sPLT)
    } else if tag == 0x73524742 {
        Some(ChunkType::sRGB)
    } else if tag == 0x73544552 {
        Some(ChunkType::sTER)
    } else if tag == 0x74455874 {
        Some(ChunkType::tEXt)
    } else if tag == 0x74524e53 {
        Some(ChunkType::tRNS)
    } else if tag == 0x7a545874 {
        Some(ChunkType::zTXt)
    } else {
        None
    }
}

impl ChunkType {
    /// Looks a tag up in the registry; an unknown tag is an error, not skipped.
    pub fn from_tag(tag: u32) -> (r: Result<ChunkType, DecodeError>)
        ensures
            r == match chunk_type_of(tag) {
                Some(k) => Ok::<ChunkType, DecodeError>(k),
                None => Err(DecodeError::UnknownChunkType),
            },
    {
        match tag {
            0x49484452 => Ok(ChunkType::IDHR),
            0x504c5445 => Ok(ChunkType::PLTE),
            0x49444154 => Ok(ChunkType::IDAT),
            0x49454e44 => Ok(ChunkType::IEND),
            0x74494d45 => Ok(ChunkType::tIME),
            0x624b4744 => Ok(ChunkType::bKGD),
            0x67414d41 => Ok(ChunkType::gAMA),
            0x6348524d => Ok(ChunkType::cHRM),
            0x64534947 => Ok(ChunkType::dSIG),
            0x65584966 => Ok(ChunkType::eXIf),
            0x68495354 => Ok(ChunkType::hIST),
            0x69434350 => Ok(ChunkType::iCCP),
            0x69545874 => Ok(ChunkType::iTXt),
            0x70485973 => Ok(ChunkType::pHYs),
            0x73424954 => Ok(ChunkType::sBIT),
            0x73504c54 => Ok(ChunkType::sPLT),
            0x73524742 => Ok(ChunkType::sRGB),
            0x73544552 => Ok(ChunkType::sTER),
            0x74455874 => Ok(ChunkType::tEXt),
            0x74524e53 => Ok(ChunkType::tRNS),
            0x7a545874 => Ok(ChunkType::zTXt),
            _ => Err(DecodeError::UnknownChunkType),
        }
    }
}

/// Bytes per suggested-palette entry: four one-byte channels at sample depth
/// 8, four two-byte channels otherwise, and a two-byte frequency.
pub open spec fn splt_entry_size(sample_depth: u8) -> int {
    if sample_depth == 8 {
        6
    } else {
        10
    }
}

/// The bytes of the zero-terminated field of `p` that starts at `at`.
pub open spec fn nul_field(p: Seq<u8>, at: int) -> Seq<u8> {
    p.subrange(at, first_nul(p, at))
}

/// Where the field after the zero-terminated field at `at` starts.
pub open spec fn after_nul_field(p: Seq<u8>, at: int) -> int {
    first_nul(p, at) + 1
}

/// A zero-terminated field starts at `at` and ends within `p`.
pub open spec fn has_nul_field(p: Seq<u8>, at: int) -> bool {
    first_nul(p, at) < p.len()
}

/// A declared length `n` is one that the chunk type's layout allows, where
/// that can be told without reading the payload (under `mode`, the color type
/// of the stream's header, for a background chunk).
pub open spec fn length_fits(kind: ChunkType, n: int, mode: Option<ColorType>) -> bool {
    match kind {
        ChunkType::IDHR => n == 13,
        ChunkType::PLTE => n % 3 == 0,
        ChunkType::IEND => n == 0,
        ChunkType::tIME => n == 7,
        ChunkType::bKGD => match mode {
            None => true,
            Some(ColorType::Grayscale) | Some(ColorType::GrayscaleAlpha) => n == 2,
            Some(ColorType::RGB) | Some(ColorType::RGBA) => n == 6,
            Some(ColorType::Indexed) => n == 1,
        },
        ChunkType::gAMA => n == 4,
        ChunkType::cHRM => n == 32,
        ChunkType::hIST => n % 2 == 0,
        ChunkType::pHYs => n == 9,
        ChunkType::sRGB | ChunkType::sTER => n == 1,
        _ => true,
    }
}

/// Why a chunk of type `kind` with declared length `length` fails before any
/// of its body is read, if it does: a background chunk with no header before
/// it, or a length that the layout rules out.
pub open spec fn length_error(kind: ChunkType, length: int, mode: Option<ColorType>) -> Option<DecodeError> {
    if kind == ChunkType::bKGD && mode is None {
        Some(DecodeError::MissingDependency)
    } else if !length_fits(kind, length, mode) {
        Some(DecodeError::MalformedLength)
    } else {
        None
    }
}

/// The payload length is the one that the chunk type's field layout asks for
/// (under `mode`, the color type of the stream's header, where that matters).
pub open spec fn grammar_fits(kind: ChunkType, p: Seq<u8>, mode: Option<ColorType>) -> bool {
    let n = p.len();
    &&& length_fits(kind, n as int, mode)
    &&& match kind {
        ChunkType::iCCP | ChunkType::zTXt => has_nul_field(p, 0) && after_nul_field(p, 0) + 1 <= n,
        ChunkType::iTXt => {
            let a = after_nul_field(p, 0);
            &&& has_nul_field(p, 0)
            &&& a + 2 <= n
            &&& has_nul_field(p, a + 2)
            &&& has_nul_field(p, after_nul_field(p, a + 2))
        },
        ChunkType::sPLT => {
            let a = after_nul_field(p, 0);
            &&& has_nul_field(p, 0)
            &&& a + 1 <= n
            &&& (n - a - 1) % splt_entry_size(p[a]) == 0
        },
        ChunkType::tEXt => has_nul_field(p, 0),
        _ => true,
    }
}

/// Why a payload whose length fits its layout still fails to decode, if it does.
pub open spec fn content_error(kind: ChunkType, p: Seq<u8>, mode: Option<ColorType>) -> Option<DecodeError> {
    match kind {
        ChunkType::IDHR => if color_of_code(p[9]) is None || interlace_of_code(p[12]) is None {
            Some(DecodeError::InvalidEnumeratedValue)
        } else {
            None
        },
        ChunkType::sRGB => if intent_of_code(p[0]) is None {
            Some(DecodeError::InvalidEnumeratedValue)
        } else {
            None
        },
        ChunkType::bKGD => if mode is None {
            Some(DecodeError::MissingDependency)
        } else {
            None
        },
        ChunkType::iCCP | ChunkType::sPLT => if !valid_utf8(nul_field(p, 0)) {
            Some(DecodeError::TextDecodingError)
        } else {
            None
        },
        ChunkType::tEXt => if !valid_utf8(nul_field(p, 0)) || !valid_utf8(
            p.subrange(after_nul_field(p, 0), p.len() as int),
        ) {
            Some(DecodeError::TextDecodingError)
        } else {
            None
        },
        ChunkType::iTXt => {
            let a = after_nul_field(p, 0) + 2;
            let b = after_nul_field(p, a);
            let c = after_nul_field(p, b);
            if !valid_utf8(nul_field(p, 0)) || !valid_utf8(nul_field(p, a)) || !valid_utf8(
                nul_field(p, b),
            ) || !valid_utf8(p.subrange(c, p.len() as int)) {
                Some(DecodeError::TextDecodingError)
            } else {
                None
            }
        },
        _ => None,
    }
}

/// Why the payload `p` of a chunk of type `kind` fails to decode, if it does:
/// a length that does not fit the layout comes before anything else.
pub open spec fn chunk_error(kind: ChunkType, p: Seq<u8>, mode: Option<ColorType>) -> Option<DecodeError> {
    if !grammar_fits(kind, p, mode) {
        Some(DecodeError::MalformedLength)
    } else {
        content_error(kind, p, mode)
    }
}

/// Maps any failure of a read inside a payload to a length error: the payload
/// ended before its layout did.
fn within_payload<T>(r: Result<T, DecodeError>) -> (o: Result<T, DecodeError>)
    ensures
        r is Ok ==> o == r,
        r is Err ==> o == Err::<T, DecodeError>(DecodeError::MalformedLength),
{
    match r {
        Ok(v) => Ok(v),
        Err(_) => Err(DecodeError::MalformedLength),
    }
}

/// Decodes a text field's bytes as UTF-8.
fn text_field(bytes: Vec<u8>) -> (r: Result<String, DecodeError>)
    ensures
        valid_utf8(bytes@) ==> (r matches Ok(t) && t@ == decode_utf8(bytes@)),
        !valid_utf8(bytes@) ==> r == Err::<String, DecodeError>(DecodeError::TextDecodingError),
{
    match text_from_utf8(bytes) {
        Some(t) => Ok(t),
        None => Err(DecodeError::TextDecodingError),
    }
}

//  Header chunk.

#[derive(Debug)]
pub struct IDHRChunk {
    pub length: u32,
    pub width: u32,
    pub height: u32,
    pub bit_depth: u8,
    pub color_type: ColorType,
    pub compression_method: u8,
    pub filter_method: u8,
    pub interlace_method: InterlaceMethod,
    pub crc: Vec<u8>,
}

impl IDHRChunk {
    pub open spec fn decoded_from(&self, p: Seq<u8>, crc: Seq<u8>) -> bool {
        &&& self.length == p.len()
        &&& self.crc@ == crc
        &&& self.width as int == be_u32(p, 0)
        &&& self.height as int == be_u32(p, 4)
        &&& self.bit_depth == p[8]
        &&& color_of_code(p[9]) == Some(self.color_type)
        &&& self.compression_method == p[10]
        &&& self.filter_method == p[11]
        &&& interlace_of_code(p[12]) == Some(self.interlace_method)
    }

    pub fn new(length: u32, png_file: &mut Png) -> (r: Result<Self, DecodeError>)
        requires
            old(png_file).wf(),
        ensures
            body_consumed(*old(png_file), *final(png_file), ChunkType::IDHR, length as int),
            r is Ok <==> old(png_file).decode_failure(ChunkType::IDHR, length as int) is None,
            r matches Err(e) ==> old(png_file).decode_failure(ChunkType::IDHR, length as int) == Some(e),
            r matches Ok(c) ==> c.decoded_from(
                old(png_file).body_payload(length as int),
                old(png_file).body_crc(length as int),
            ),
    {
        if length != 13 {
            return Err(DecodeError::MalformedLength);
        }
        let (payload, crc) = png_file.read_body(length)?;
        let mut s = Stream::new();
        let width = s.read_u32_be(&payload)?;
        let height = s.read_u32_be(&payload)?;
        let bit_depth = s.read_u8(&payload)?;
        let color_type = match s.read_u8(&payload)? {
            0 => ColorType::Grayscale,
            2 => ColorType::RGB,
            3 => ColorType::Indexed,
            4 => ColorType::GrayscaleAlpha,
            6 => ColorType::RGBA,
            _ => return Err(DecodeError::InvalidEnumeratedValue),
        };
        let compression_method = s.read_u8(&payload)?;
        let filter_method = s.read_u8(&payload)?;
        let interlace_method = match s.read_u8(&payload)? {
            0 => InterlaceMethod::NonInterlaced,
            1 => InterlaceMethod::Adam7,
            _ => return Err(DecodeError::InvalidEnumeratedValue),
        };
        Ok(
            IDHRChunk {
                length,
                width,
                height,
                bit_depth,
                color_type,
                compression_method,
                filter_method,
                interlace_method,
                crc,
            },
        )
    }
}

//  Image data: compressed scanlines, kept as they stand.

#[allow(non_camel_case_types)]
#[derive(Debug)]
pub struct IDATChunk {
    pub length: u32,
    pub data: Vec<u8>,
    pub crc: Vec<u8>,
}

impl IDATChunk {
    pub open spec fn decoded_from(&self, p: Seq<u8>, crc: Seq<u8>) -> bool {
        &&& self.length == p.len()
        &&& self.crc@ == crc
        &&& self.data@ == p
    }

    pub fn new(length: u32, png_file: &mut Png) -> (r: Result<Self, DecodeError>)
        requires
            old(png_file).wf(),
        ensures
            body_consumed(*old(png_file), *final(png_file), ChunkType::IDAT, length as int),
            r is Ok <==> old(png_file).decode_failure(ChunkType::IDAT, length as int) is None,
            r matches Err(e) ==> old(png_file).decode_failure(ChunkType::IDAT, length as int) == Some(e),
            r matches Ok(c) ==> c.decoded_from(
                old(png_file).body_payload(length as int),
                old(png_file).body_crc(length as int),
            ),
    {
        let (payload, crc) = png_file.read_body(length)?;
        Ok(IDATChunk { length, data: payload, crc })
    }
}

//  End of the stream.

#[derive(Debug)]
pub struct IENDChunk {
    pub length: u32,
    pub crc: Vec<u8>,
}

impl IENDChunk {
    pub open spec fn decoded_from(&self, p: Seq<u8>, crc: Seq<u8>) -> bool {
        &&& self.length == p.len()
        &&& self.crc@ == crc
    }

    pub fn new(length: u32, png_file: &mut Png) -> (r: Result<Self, DecodeError>)
        requires
            old(png_file).wf(),
        ensures
            body_consumed(*old(png_file), *final(png_file), ChunkType::IEND, length as int),
            r is Ok <==> old(png_file).decode_failure(ChunkType::IEND, length as int) is None,
            r matches Err(e) ==> old(png_file).decode_failure(ChunkType::IEND, length as int) == Some(e),
            r matches Ok(c) ==> c.decoded_from(
                old(png_file).body_payload(length as int),
                old(png_file).body_crc(length as int),
            ),
    {
        if length != 0 {
            return Err(DecodeError::MalformedLength);
        }
        let (payload, crc) = png_file.read_body(length)?;
        Ok(IENDChunk { length, crc })
    }
}

//  Last modification time.

#[allow(non_camel_case_types)]
#[derive(Debug)]
pub struct tIMEChunk {
    pub length: u32,
    pub year: u16,
    pub month: u8,
    pub day: u8,
    pub hour: u8,
    pub minute: u8,
    pub second: u8,
    pub crc: Vec<u8>,
}

impl tIMEChunk {
    pub open spec fn decoded_from(&self, p: Seq<u8>, crc: Seq<u8>) -> bool {
        &&& self.length == p.len()
        &&& self.crc@ == crc
        &&& self.year as int == be_u16(p, 0)
        &&& self.month == p[2]
        &&& self.day == p[3]
        &&& self.hour == p[4]
        &&& self.minute == p[5]
        &&& self.second == p[6]
    }

    pub fn new(length: u32, png_file: &mut Png) -> (r: Result<Self, DecodeError>)
        requires
            old(png_file).wf(),
        ensures
            body_consumed(*old(png_file), *final(png_file), ChunkType::tIME, length as int),
            r is Ok <==> old(png_file).decode_failure(ChunkType::tIME, length as int) is None,
            r matches Err(e) ==> old(png_file).decode_failure(ChunkType::tIME, length as int) == Some(e),
            r matches Ok(c) ==> c.decoded_from(
                old(png_file).body_payload(length as int),
                old(png_file).body_crc(length as int),
            ),
    {
        if length != 7 {
            return Err(DecodeError::MalformedLength);
        }
        let (payload, crc) = png_file.read_body(length)?;
        let mut s = Stream::new();
        let year = s.read_u16_be(&payload)?;
        let month = s.read_u8(&payload)?;
        let day = s.read_u8(&payload)?;
        let hour = s.read_u8(&payload)?;
        let minute = s.read_u8(&payload)?;
        let second = s.read_u8(&payload)?;
        Ok(tIMEChunk { length, year, month, day, hour, minute, second, crc })
    }
}

//  Image gamma, times 100000.

#[allow(non_camel_case_types)]
#[derive(Debug)]
pub struct gAMAChunk {
    pub length: u32,
    pub gamma: u32,
    pub crc: Vec<u8>,
}

impl gAMAChunk {
    pub open spec fn decoded_from(&self, p: Seq<u8>, crc: Seq<u8>) -> bool {
        &&& self.length == p.len()
        &&& self.crc@ == crc
        &&& self.gamma as int == be_u32(p, 0)
    }

    pub fn new(length: u32, png_file: &mut Png) -> (r: Result<Self, DecodeError>)
        requires
            old(png_file).wf(),
        ensures
            body_consumed(*old(png_file), *final(png_file), ChunkType::gAMA, length as int),
            r is Ok <==> old(png_file).decode_failure(ChunkType::gAMA, length as int) is None,
            r matches Err(e) ==> old(png_file).decode_failure(ChunkType::gAMA, length as int) == Some(e),
            r matches Ok(c) ==> c.decoded_from(
                old(png_file).body_payload(length as int),
                old(png_file).body_crc(length as int),
            ),
    {
        if length != 4 {
            return Err(DecodeError::MalformedLength);
        }
        let (payload, crc) = png_file.read_body(length)?;
        let mut s = Stream::new();
        let gamma = s.read_u32_be(&payload)?;
        Ok(gAMAChunk { length, gamma, crc })
    }
}

//  Primary chromaticities, each times 100000.

#[allow(non_camel_case_types)]
#[derive(Debug)]
pub struct cHRMChunk {
    pub length: u32,
    pub white_point_x: u32,
    pub white_point_y: u32,
    pub red_x: u32,
    pub red_y: u32,
    pub green_x: u32,
    pub green_y: u32,
    pub blue_x: u32,
    pub blue_y: u32,
    pub crc: Vec<u8>,
}

impl cHRMChunk {
    pub open spec fn decoded_from(&self, p: Seq<u8>, crc: Seq<u8>) -> bool {
        &&& self.length == p.len()
        &&& self.crc@ == crc
        &&& self.white_point_x as int == be_u32(p, 0)
        &&& self.white_point_y as int == be_u32(p, 4)
        &&& self.red_x as int == be_u32(p, 8)
        &&& self.red_y as int == be_u32(p, 12)
        &&& self.green_x as int == be_u32(p, 16)
        &&& self.green_y as int == be_u32(p, 20)
        &&& self.blue_x as int == be_u32(p, 24)
        &&& self.blue_y as int == be_u32(p, 28)
    }

    pub fn new(length: u32, png_file: &mut Png) -> (r: Result<Self, DecodeError>)
        requires
            old(png_file).wf(),
        ensures
            body_consumed(*old(png_file), *final(png_file), ChunkType::cHRM, length as int),
            r is Ok <==> old(png_file).decode_failure(ChunkType::cHRM, length as int) is None,
            r matches Err(e) ==> old(png_file).decode_failure(ChunkType::cHRM, length as int) == Some(e),
            r matches Ok(c) ==> c.decoded_from(
                old(png_file).body_payload(length as int),
                old(png_file).body_crc(length as int),
            ),
    {
        if length != 32 {
            return Err(DecodeError::MalformedLength);
        }
        let (payload, crc) = png_file.read_body(length)?;
        let mut s = Stream::new();
        let white_point_x = s.read_u32_be(&payload)?;
        let white_point_y = s.read_u32_be(&payload)?;
        let red_x = s.read_u32_be(&payload)?;
        let red_y = s.read_u32_be(&payload)?;
        let green_x = s.read_u32_be(&payload)?;
        let green_y = s.read_u32_be(&payload)?;
        let blue_x = s.read_u32_be(&payload)?;
        let blue_y = s.read_u32_be(&payload)?;
        Ok(cHRMChunk { length, white_point_x, white_point_y, red_x, red_y, green_x, green_y, blue_x, blue_y, crc })
    }
}

//  Digital signature, kept as it stands.

#[allow(non_camel_case_types)]
#[derive(Debug)]
pub struct dSIGChunk {
    pub length: u32,
    pub data: Vec<u8>,
    pub crc: Vec<u8>,
}

impl dSIGChunk {
    pub open spec fn decoded_from(&self, p: Seq<u8>, crc: Seq<u8>) -> bool {
        &&& self.length == p.len()
        &&& self.crc@ == crc
        &&& self.data@ == p
    }

    pub fn new(length: u32, png_file: &mut Png) -> (r: Result<Self, DecodeError>)
        requires
            old(png_file).wf(),
        ensures
            body_consumed(*old(png_file), *final(png_file), ChunkType::dSIG, length as int),
            r is Ok <==> old(png_file).decode_failure(ChunkType::dSIG, length as int) is None,
            r matches Err(e) ==> old(png_file).decode_failure(ChunkType::dSIG, length as int) == Some(e),
            r matches Ok(c) ==> c.decoded_from(
                old(png_file).body_payload(length as int),
                old(png_file).body_crc(length as int),
            ),
    {
        let (payload, crc) = png_file.read_body(length)?;
        Ok(dSIGChunk { length, data: payload, crc })
    }
}

//  Exif profile, kept as it stands.

#[allow(non_camel_case_types)]
#[derive(Debug)]
pub struct eXIfChunk {
    pub length: u32,
    pub data: Vec<u8>,
    pub crc: Vec<u8>,
}

impl eXIfChunk {
    pub open spec fn decoded_from(&self, p: Seq<u8>, crc: Seq<u8>) -> bool {
        &&& self.length == p.len()
        &&& self.crc@ == crc
        &&& self.data@ == p
    }

    pub fn new(length: u32, png_file: &mut Png) -> (r: Result<Self, DecodeError>)
        requires
            old(png_file).wf(),
        ensures
            body_consumed(*old(png_file), *final(png_file), ChunkType::eXIf, length as int),
            r is Ok <==> old(png_file).decode_failure(ChunkType::eXIf, length as int) is None,
            r matches Err(e) ==> old(png_file).decode_failure(ChunkType::eXIf, length as int) == Some(e),
            r matches Ok(c) ==> c.decoded_from(
                old(png_file).body_payload(length as int),
                old(png_file).body_crc(length as int),
            ),
    {
        let (payload, crc) = png_file.read_body(length)?;
        Ok(eXIfChunk { length, data: payload, crc })
    }
}

//  Physical pixel dimensions.

#[allow(non_camel_case_types)]
#[derive(Debug)]
pub struct pHYsChunk {
    pub length: u32,
    pub pixels_per_unit_x_axis: u32,
    pub pixels_per_unit_y_axis: u32,
    pub unit_specifier: u8,
    pub crc: Vec<u8>,
}

impl pHYsChunk {
    pub open spec fn decoded_from(&self, p: Seq<u8>, crc: Seq<u8>) -> bool {
        &&& self.length == p.len()
        &&& self.crc@ == crc
        &&& self.pixels_per_unit_x_axis as int == be_u32(p, 0)
        &&& self.pixels_per_unit_y_axis as int == be_u32(p, 4)
        &&& self.unit_specifier == p[8]
    }

    pub fn new(length: u32, png_file: &mut Png) -> (r: Result<Self, DecodeError>)
        requires
            old(png_file).wf(),
        ensures
            body_consumed(*old(png_file), *final(png_file), ChunkType::pHYs, length as int),
            r is Ok <==> old(png_file).decode_failure(ChunkType::pHYs, length as int) is None,
            r matches Err(e) ==> old(png_file).decode_failure(ChunkType::pHYs, length as int) == Some(e),
            r matches Ok(c) ==> c.decoded_from(
                old(png_file).body_payload(length as int),
                old(png_file).body_crc(length as int),
            ),
    {
        if length != 9 {
            return Err(DecodeError::MalformedLength);
        }
        let (payload, crc) = png_file.read_body(length)?;
        let mut s = Stream::new();
        let pixels_per_unit_x_axis = s.read_u32_be(&payload)?;
        let pixels_per_unit_y_axis = s.read_u32_be(&payload)?;
        let unit_specifier = s.read_u8(&payload)?;
        Ok(pHYsChunk { length, pixels_per_unit_x_axis, pixels_per_unit_y_axis, unit_specifier, crc })
    }
}

//  Significant bits, kept as they stand.

#[allow(non_camel_case_types)]
#[derive(Debug)]
pub struct sBITChunk {
    pub length: u32,
    pub data: Vec<u8>,
    pub crc: Vec<u8>,
}

impl sBITChunk {
    pub open spec fn decoded_from(&self, p: Seq<u8>, crc: Seq<u8>) -> bool {
        &&& self.length == p.len()
        &&& self.crc@ == crc
        &&& self.data@ == p
    }

    pub fn new(length: u32, png_file: &mut Png) -> (r: Result<Self, DecodeError>)
        requires
            old(png_file).wf(),
        ensures
            body_consumed(*old(png_file), *final(png_file), ChunkType::sBIT, length as int),
            r is Ok <==> old(png_file).decode_failure(ChunkType::sBIT, length as int) is None,
            r matches Err(e) ==> old(png_file).decode_failure(ChunkType::sBIT, length as int) == Some(e),
            r matches Ok(c) ==> c.decoded_from(
                old(png_file).body_payload(length as int),
                old(png_file).body_crc(length as int),
            ),
    {
        let (payload, crc) = png_file.read_body(length)?;
        Ok(sBITChunk { length, data: payload, crc })
    }
}

//  Stereo image indicator.

#[allow(non_camel_case_types)]
#[derive(Debug)]
pub struct sTERChunk {
    pub length: u32,
    pub stereo_mode: u8,
    pub crc: Vec<u8>,
}

impl sTERChunk {
    pub open spec fn decoded_from(&self, p: Seq<u8>, crc: Seq<u8>) -> bool {
        &&& self.length == p.len()
        &&& self.crc@ == crc
        &&& self.stereo_mode == p[0]
    }

    pub fn new(length: u32, png_file: &mut Png) -> (r: Result<Self, DecodeError>)
        requires
            old(png_file).wf(),
        ensures
            body_consumed(*old(png_file), *final(png_file), ChunkType::sTER, length as int),
            r is Ok <==> old(png_file).decode_failure(ChunkType::sTER, length as int) is None,
            r matches Err(e) ==> old(png_file).decode_failure(ChunkType::sTER, length as int) == Some(e),
            r matches Ok(c) ==> c.decoded_from(
                old(png_file).body_payload(length as int),
                old(png_file).body_crc(length as int),
            ),
    {
        if length != 1 {
            return Err(DecodeError::MalformedLength);
        }
        let (payload, crc) = png_file.read_body(length)?;
        let mut s = Stream::new();
        let stereo_mode = s.read_u8(&payload)?;
        Ok(sTERChunk { length, stereo_mode, crc })
    }
}

//  Transparency, kept as it stands.

#[allow(non_camel_case_types)]
#[derive(Debug)]
pub struct tRNSChunk {
    pub length: u32,
    pub transparency_data: Vec<u8>,
    pub crc: Vec<u8>,
}

impl tRNSChunk {
    pub open spec fn decoded_from(&self, p: Seq<u8>, crc: Seq<u8>) -> bool {
        &&& self.length == p.len()
        &&& self.crc@ == crc
        &&& self.transparency_data@ == p
    }

    pub fn new(length: u32, png_file: &mut Png) -> (r: Result<Self, DecodeError>)
        requires
            old(png_file).wf(),
        ensures
            body_consumed(*old(png_file), *final(png_file), ChunkType::tRNS, length as int),
            r is Ok <==> old(png_file).decode_failure(ChunkType::tRNS, length as int) is None,
            r matches Err(e) ==> old(png_file).decode_failure(ChunkType::tRNS, length as int) == Some(e),
            r matches Ok(c) ==> c.decoded_from(
                old(png_file).body_payload(length as int),
                old(png_file).body_crc(length as int),
            ),
    {
        let (payload, crc) = png_file.read_body(length)?;
        Ok(tRNSChunk { length, transparency_data: payload, crc })
    }
}

//  Palette: one three-byte entry per index.

#[derive(Clone, Copy, Debug, PartialEq, Eq, Structural)]
pub struct PaletteEntry {
    pub red: u8,
    pub green: u8,
    pub blue: u8,
}

#[derive(Debug)]
pub struct PLTEChunk {
    pub length: u32,
    pub entries: Vec<PaletteEntry>,
    pub crc: Vec<u8>,
}

impl PLTEChunk {
    pub open spec fn decoded_from(&self, p: Seq<u8>, crc: Seq<u8>) -> bool {
        &&& self.length == p.len()
        &&& self.crc@ == crc
        &&& self.entries@.len() == p.len() / 3
        &&& forall|i: int|
            0 <= i < self.entries@.len() ==> #[trigger] self.entries@[i] == (PaletteEntry {
                red: p[3 * i],
                green: p[3 * i + 1],
                blue: p[3 * i + 2],
            })
    }

    pub fn new(length: u32, png_file: &mut Png) -> (r: Result<Self, DecodeError>)
        requires
            old(png_file).wf(),
        ensures
            body_consumed(*old(png_file), *final(png_file), ChunkType::PLTE, length as int),
            r is Ok <==> old(png_file).decode_failure(ChunkType::PLTE, length as int) is None,
            r matches Err(e) ==> old(png_file).decode_failure(ChunkType::PLTE, length as int) == Some(e),
            r matches Ok(c) ==> c.decoded_from(
                old(png_file).body_payload(length as int),
                old(png_file).body_crc(length as int),
            ),
    {
        if length % 3 != 0 {
            return Err(DecodeError::MalformedLength);
        }
        let (payload, crc) = png_file.read_body(length)?;
        let mut s = Stream::new();
        let mut entries: Vec<PaletteEntry> = Vec::new();
        let count = length / 3;
        let mut i: u32 = 0;
        while i < count
            invariant
                payload@.len() == length,
                length % 3 == 0,
                count == length / 3,
                i <= count,
                s.sequential_counter == 3 * i,
                entries@.len() == i,
                forall|j: int|
                    0 <= j < i ==> #[trigger] entries@[j] == (PaletteEntry {
                        red: payload@[3 * j],
                        green: payload@[3 * j + 1],
                        blue: payload@[3 * j + 2],
                    }),
            decreases count - i,
        {
            let red = s.read_u8(&payload)?;
            let green = s.read_u8(&payload)?;
            let blue = s.read_u8(&payload)?;
            entries.push(PaletteEntry { red, green, blue });
            i += 1;
        }
        Ok(PLTEChunk { length, entries, crc })
    }
}

//  Background color, whose layout follows the header's color type.

#[derive(Clone, Copy, Debug, PartialEq, Eq, Structural)]
pub enum BackgroundColor {
    PaletteIndex(u8),
    Grayscale(u16),
    RGB(u16, u16, u16),
}

#[allow(non_camel_case_types)]
#[derive(Debug)]
pub struct bKGDChunk {
    pub length: u32,
    pub color: BackgroundColor,
    pub crc: Vec<u8>,
}

impl bKGDChunk {
    pub open spec fn decoded_from(&self, p: Seq<u8>, crc: Seq<u8>, mode: Option<ColorType>) -> bool {
        &&& self.length == p.len()
        &&& self.crc@ == crc
        &&& match self.color {
            BackgroundColor::Grayscale(g) => (mode == Some(ColorType::Grayscale) || mode == Some(
                ColorType::GrayscaleAlpha,
            )) && g as int == be_u16(p, 0),
            BackgroundColor::RGB(r, g, b) => (mode == Some(ColorType::RGB) || mode == Some(
                ColorType::RGBA,
            )) && r as int == be_u16(p, 0) && g as int == be_u16(p, 2) && b as int == be_u16(p, 4),
            BackgroundColor::PaletteIndex(i) => mode == Some(ColorType::Indexed) && i == p[0],
        }
    }

    /// Decodes a background color in the layout that the first header chunk
    /// already in the session's chunk list calls for. The header is looked up,
    /// and the length checked against its color type, before any byte is read.
    pub fn new(length: u32, png_file: &mut Png) -> (r: Result<Self, DecodeError>)
        requires
            old(png_file).wf(),
        ensures
            body_consumed(*old(png_file), *final(png_file), ChunkType::bKGD, length as int),
            r is Ok <==> old(png_file).decode_failure(ChunkType::bKGD, length as int) is None,
            r matches Err(e) ==> old(png_file).decode_failure(ChunkType::bKGD, length as int) == Some(e),
            r matches Ok(c) ==> c.decoded_from(
                old(png_file).body_payload(length as int),
                old(png_file).body_crc(length as int),
                header_mode(old(png_file).chunks()),
            ),
    {
        let color_type = match png_file.header_color_type() {
            Some(c) => c,
            None => return Err(DecodeError::MissingDependency),
        };
        let size: u32 = match color_type {
            ColorType::Grayscale | ColorType::GrayscaleAlpha => 2,
            ColorType::RGB | ColorType::RGBA => 6,
            ColorType::Indexed => 1,
        };
        if length != size {
            return Err(DecodeError::MalformedLength);
        }
        let (payload, crc) = png_file.read_body(length)?;
        let mut s = Stream::new();
        let color = match color_type {
            ColorType::Grayscale | ColorType::GrayscaleAlpha => {
                BackgroundColor::Grayscale(s.read_u16_be(&payload)?)
            },
            ColorType::RGB | ColorType::RGBA => {
                let red = s.read_u16_be(&payload)?;
                let green = s.read_u16_be(&payload)?;
                let blue = s.read_u16_be(&payload)?;
                BackgroundColor::RGB(red, green, blue)
            },
            ColorType::Indexed => BackgroundColor::PaletteIndex(s.read_u8(&payload)?),
        };
        Ok(bKGDChunk { length, color, crc })
    }
}

//  Histogram: one two-byte count per palette entry.

#[allow(non_camel_case_types)]
#[derive(Debug)]
pub struct hISTChunk {
    pub length: u32,
    pub data: Vec<u16>,
    pub crc: Vec<u8>,
}

impl hISTChunk {
    pub open spec fn decoded_from(&self, p: Seq<u8>, crc: Seq<u8>) -> bool {
        &&& self.length == p.len()
        &&& self.crc@ == crc
        &&& self.data@.len() == p.len() / 2
        &&& forall|i: int| 0 <= i < self.data@.len() ==> #[trigger] self.data@[i] as int == be_u16(p, 2 * i)
    }

    pub fn new(length: u32, png_file: &mut Png) -> (r: Result<Self, DecodeError>)
        requires
            old(png_file).wf(),
        ensures
            body_consumed(*old(png_file), *final(png_file), ChunkType::hIST, length as int),
            r is Ok <==> old(png_file).decode_failure(ChunkType::hIST, length as int) is None,
            r matches Err(e) ==> old(png_file).decode_failure(ChunkType::hIST, length as int) == Some(e),
            r matches Ok(c) ==> c.decoded_from(
                old(png_file).body_payload(length as int),
                old(png_file).body_crc(length as int),
            ),
    {
        if length % 2 != 0 {
            return Err(DecodeError::MalformedLength);
        }
        let (payload, crc) = png_file.read_body(length)?;
        let mut s = Stream::new();
        let mut data: Vec<u16> = Vec::new();
        let count = length / 2;
        let mut i: u32 = 0;
        while i < count
            invariant
                payload@.len() == length,
                length % 2 == 0,
                count == length / 2,
                i <= count,
                s.sequential_counter == 2 * i,
                data@.len() == i,
                forall|j: int| 0 <= j < i ==> #[trigger] data@[j] as int == be_u16(payload@, 2 * j),
            decreases count - i,
        {
            let v = s.read_u16_be(&payload)?;
            data.push(v);
            i += 1;
        }
        Ok(hISTChunk { length, data, crc })
    }
}

//  Rendering intent for the standard RGB color space.

#[allow(non_camel_case_types)]
#[derive(Debug)]
pub struct sRGBChunk {
    pub length: u32,
    pub rendering_intent: RenderingIntent,
    pub crc: Vec<u8>,
}

impl sRGBChunk {
    pub open spec fn decoded_from(&self, p: Seq<u8>, crc: Seq<u8>) -> bool {
        &&& self.length == p.len()
        &&& self.crc@ == crc
        &&& intent_of_code(p[0]) == Some(self.rendering_intent)
    }

    pub fn new(length: u32, png_file: &mut Png) -> (r: Result<Self, DecodeError>)
        requires
            old(png_file).wf(),
        ensures
            body_consumed(*old(png_file), *final(png_file), ChunkType::sRGB, length as int),
            r is Ok <==> old(png_file).decode_failure(ChunkType::sRGB, length as int) is None,
            r matches Err(e) ==> old(png_file).decode_failure(ChunkType::sRGB, length as int) == Some(e),
            r matches Ok(c) ==> c.decoded_from(
                old(png_file).body_payload(length as int),
                old(png_file).body_crc(length as int),
            ),
    {
        if length != 1 {
            return Err(DecodeError::MalformedLength);
        }
        let (payload, crc) = png_file.read_body(length)?;
        let mut s = Stream::new();
        let rendering_intent = match s.read_u8(&payload)? {
            0 => RenderingIntent::Perceptual,
            1 => RenderingIntent::RelativeColorimetric,
            2 => RenderingIntent::Saturation,
            3 => RenderingIntent::AbsoluteColorimetric,
            _ => return Err(DecodeError::InvalidEnumeratedValue),
        };
        Ok(sRGBChunk { length, rendering_intent, crc })
    }
}

//  Embedded ICC profile: a zero-terminated name, a compression method, and
//  the compressed profile, which fills the rest of the payload.

#[allow(non_camel_case_types)]
#[derive(Debug)]
pub struct iCCPChunk {
    pub length: u32,
    pub profile_name: String,
    pub compression_method: u8,
    pub compression_profile: Vec<u8>,
    pub crc: Vec<u8>,
}

impl iCCPChunk {
    pub open spec fn decoded_from(&self, p: Seq<u8>, crc: Seq<u8>) -> bool {
        let a = after_nul_field(p, 0);
        &&& self.length == p.len()
        &&& self.crc@ == crc
        &&& self.profile_name@ == decode_utf8(nul_field(p, 0))
        &&& self.compression_method == p[a]
        &&& self.compression_profile@ == p.subrange(a + 1, p.len() as int)
    }

    pub fn new(length: u32, png_file: &mut Png) -> (r: Result<Self, DecodeError>)
        requires
            old(png_file).wf(),
        ensures
            body_consumed(*old(png_file), *final(png_file), ChunkType::iCCP, length as int),
            r is Ok <==> old(png_file).decode_failure(ChunkType::iCCP, length as int) is None,
            r matches Err(e) ==> old(png_file).decode_failure(ChunkType::iCCP, length as int) == Some(e),
            r matches Ok(c) ==> c.decoded_from(
                old(png_file).body_payload(length as int),
                old(png_file).body_crc(length as int),
            ),
    {
        let (payload, crc) = png_file.read_body(length)?;
        proof {
            lemma_first_nul(payload@, 0);
        }
        let mut s = Stream::new();
        let name = within_payload(s.read_until_nul(&payload))?;
        let compression_method = within_payload(s.read_u8(&payload))?;
        let compression_profile = s.read_bytes_sequential(&payload, payload.len() - s.sequential_counter)?;
        let profile_name = text_field(name)?;
        Ok(iCCPChunk { length, profile_name, compression_method, compression_profile, crc })
    }
}

//  International text: a keyword, a compression flag and method, a language
//  tag and a translated keyword, then the text in the rest of the payload.

#[allow(non_camel_case_types)]
#[derive(Debug)]
pub struct iTXtChunk {
    pub length: u32,
    pub keyword: String,
    pub compression_flag: u8,
    pub compression_method: u8,
    pub language_tag: String,
    pub translated_keyword: String,
    pub text: String,
    pub crc: Vec<u8>,
}

impl iTXtChunk {
    pub open spec fn decoded_from(&self, p: Seq<u8>, crc: Seq<u8>) -> bool {
        let a = after_nul_field(p, 0);
        let b = after_nul_field(p, a + 2);
        let c = after_nul_field(p, b);
        &&& self.length == p.len()
        &&& self.crc@ == crc
        &&& self.keyword@ == decode_utf8(nul_field(p, 0))
        &&& self.compression_flag == p[a]
        &&& self.compression_method == p[a + 1]
        &&& self.language_tag@ == decode_utf8(nul_field(p, a + 2))
        &&& self.translated_keyword@ == decode_utf8(nul_field(p, b))
        &&& self.text@ == decode_utf8(p.subrange(c, p.len() as int))
    }

    pub fn new(length: u32, png_file: &mut Png) -> (r: Result<Self, DecodeError>)
        requires
            old(png_file).wf(),
        ensures
            body_consumed(*old(png_file), *final(png_file), ChunkType::iTXt, length as int),
            r is Ok <==> old(png_file).decode_failure(ChunkType::iTXt, length as int) is None,
            r matches Err(e) ==> old(png_file).decode_failure(ChunkType::iTXt, length as int) == Some(e),
            r matches Ok(c) ==> c.decoded_from(
                old(png_file).body_payload(length as int),
                old(png_file).body_crc(length as int),
            ),
    {
        let (payload, crc) = png_file.read_body(length)?;
        let mut s = Stream::new();
        proof {
            lemma_first_nul(payload@, 0);
        }
        let keyword = within_payload(s.read_until_nul(&payload))?;
        let compression_flag = within_payload(s.read_u8(&payload))?;
        let compression_method = within_payload(s.read_u8(&payload))?;
        proof {
            lemma_first_nul(payload@, s.sequential_counter as int);
        }
        let language_tag = within_payload(s.read_until_nul(&payload))?;
        proof {
            lemma_first_nul(payload@, s.sequential_counter as int);
        }
        let translated_keyword = within_payload(s.read_until_nul(&payload))?;
        let text = s.read_bytes_sequential(&payload, payload.len() - s.sequential_counter)?;
        let keyword = text_field(keyword)?;
        let language_tag = text_field(language_tag)?;
        let translated_keyword = text_field(translated_keyword)?;
        let text = text_field(text)?;
        Ok(
            iTXtChunk {
                length,
                keyword,
                compression_flag,
                compression_method,
                language_tag,
                translated_keyword,
                text,
                crc,
            },
        )
    }
}

//  Suggested palette: a zero-terminated name, a sample depth, then entries
//  of four channels and a frequency each.

#[allow(non_camel_case_types)]
#[derive(Clone, Copy, Debug, PartialEq, Eq, Structural)]
pub struct sPLTEntry {
    pub red: u16,
    pub green: u16,
    pub blue: u16,
    pub alpha: u16,
    pub frequency: u16,
}

/// The suggested-palette entry `e` is the one encoded in `p` at `at`.
pub open spec fn splt_entry_at(e: sPLTEntry, p: Seq<u8>, at: int, sample_depth: u8) -> bool {
    if sample_depth == 8 {
        &&& e.red == p[at] as u16
        &&& e.green == p[at + 1] as u16
        &&& e.blue == p[at + 2] as u16
        &&& e.alpha == p[at + 3] as u16
        &&& e.frequency as int == be_u16(p, at + 4)
    } else {
        &&& e.red as int == be_u16(p, at)
        &&& e.green as int == be_u16(p, at + 2)
        &&& e.blue as int == be_u16(p, at + 4)
        &&& e.alpha as int == be_u16(p, at + 6)
        &&& e.frequency as int == be_u16(p, at + 8)
    }
}

#[allow(non_camel_case_types)]
#[derive(Debug)]
pub struct sPLTChunk {
    pub length: u32,
    pub palette_name: String,
    pub sample_depth: u8,
    pub entries: Vec<sPLTEntry>,
    pub crc: Vec<u8>,
}

impl sPLTChunk {
    pub open spec fn decoded_from(&self, p: Seq<u8>, crc: Seq<u8>) -> bool {
        let a = after_nul_field(p, 0);
        let size = splt_entry_size(p[a]);
        &&& self.length == p.len()
        &&& self.crc@ == crc
        &&& self.palette_name@ == decode_utf8(nul_field(p, 0))
        &&& self.sample_depth == p[a]
        &&& self.entries@.len() == (p.len() - a - 1) / size
        &&& forall|i: int|
            0 <= i < self.entries@.len() ==> splt_entry_at(
                #[trigger] self.entries@[i],
                p,
                a + 1 + i * size,
                p[a],
            )
    }

    fn read_entry(s: &mut Stream, payload: &Vec<u8>, sample_depth: u8) -> (r: Result<sPLTEntry, DecodeError>)
        requires
            old(s).sequential_counter + splt_entry_size(sample_depth) <= payload@.len(),
        ensures
            final(s).sequential_counter == old(s).sequential_counter + splt_entry_size(sample_depth),
            r matches Ok(e) && splt_entry_at(e, payload@, old(s).sequential_counter as int, sample_depth),
    {
        if sample_depth == 8 {
            let red = s.read_u8(payload)? as u16;
            let green = s.read_u8(payload)? as u16;
            let blue = s.read_u8(payload)? as u16;
            let alpha = s.read_u8(payload)? as u16;
            let frequency = s.read_u16_be(payload)?;
            Ok(sPLTEntry { red, green, blue, alpha, frequency })
        } else {
            let red = s.read_u16_be(payload)?;
            let green = s.read_u16_be(payload)?;
            let blue = s.read_u16_be(payload)?;
            let alpha = s.read_u16_be(payload)?;
            let frequency = s.read_u16_be(payload)?;
            Ok(sPLTEntry { red, green, blue, alpha, frequency })
        }
    }

    pub fn new(length: u32, png_file: &mut Png) -> (r: Result<Self, DecodeError>)
        requires
            old(png_file).wf(),
        ensures
            body_consumed(*old(png_file), *final(png_file), ChunkType::sPLT, length as int),
            r is Ok <==> old(png_file).decode_failure(ChunkType::sPLT, length as int) is None,
            r matches Err(e) ==> old(png_file).decode_failure(ChunkType::sPLT, length as int) == Some(e),
            r matches Ok(c) ==> c.decoded_from(
                old(png_file).body_payload(length as int),
                old(png_file).body_crc(length as int),
            ),
    {
        let (payload, crc) = png_file.read_body(length)?;
        proof {
            lemma_first_nul(payload@, 0);
        }
        let mut s = Stream::new();
        let name = within_payload(s.read_until_nul(&payload))?;
        let sample_depth = within_payload(s.read_u8(&payload))?;
        let start = s.sequential_counter;
        let entry_length: usize = if sample_depth == 8 { 6 } else { 10 };
        let rest = payload.len() - start;
        if rest % entry_length != 0 {
            return Err(DecodeError::MalformedLength);
        }
        let num_entries = rest / entry_length;
        let mut entries: Vec<sPLTEntry> = Vec::new();
        let mut i: usize = 0;
        while i < num_entries
            invariant
                entry_length == splt_entry_size(sample_depth),
                start + rest == payload@.len(),
                rest % entry_length == 0,
                num_entries == rest / entry_length,
                i <= num_entries,
                s.sequential_counter == start + i * entry_length,
                entries@.len() == i,
                forall|j: int|
                    0 <= j < i ==> splt_entry_at(
                        #[trigger] entries@[j],
                        payload@,
                        start + j * entry_length,
                        sample_depth,
                    ),
            decreases num_entries - i,
        {
            proof {
                assert((i + 1) * entry_length <= rest) by (nonlinear_arith)
                    requires
                        i < num_entries,
                        num_entries == rest / entry_length,
                        rest % entry_length == 0,
                        entry_length > 0,
                ;
                assert((i + 1) * entry_length == i * entry_length + entry_length) by (nonlinear_arith);
            }
            let e = Self::read_entry(&mut s, &payload, sample_depth)?;
            entries.push(e);
            i += 1;
        }
        let palette_name = text_field(name)?;
        Ok(sPLTChunk { length, palette_name, sample_depth, entries, crc })
    }
}

//  Text: a zero-terminated keyword and the text in the rest of the payload.

#[allow(non_camel_case_types)]
#[derive(Debug)]
pub struct tEXtChunk {
    pub length: u32,
    pub keyword: String,
    pub text: String,
    pub crc: Vec<u8>,
}

impl tEXtChunk {
    pub open spec fn decoded_from(&self, p: Seq<u8>, crc: Seq<u8>) -> bool {
        &&& self.length == p.len()
        &&& self.crc@ == crc
        &&& self.keyword@ == decode_utf8(nul_field(p, 0))
        &&& self.text@ == decode_utf8(p.subrange(after_nul_field(p, 0), p.len() as int))
    }

    pub fn new(length: u32, png_file: &mut Png) -> (r: Result<Self, DecodeError>)
        requires
            old(png_file).wf(),
        ensures
            body_consumed(*old(png_file), *final(png_file), ChunkType::tEXt, length as int),
            r is Ok <==> old(png_file).decode_failure(ChunkType::tEXt, length as int) is None,
            r matches Err(e) ==> old(png_file).decode_failure(ChunkType::tEXt, length as int) == Some(e),
            r matches Ok(c) ==> c.decoded_from(
                old(png_file).body_payload(length as int),
                old(png_file).body_crc(length as int),
            ),
    {
        let (payload, crc) = png_file.read_body(length)?;
        proof {
            lemma_first_nul(payload@, 0);
        }
        let mut s = Stream::new();
        let keyword = within_payload(s.read_until_nul(&payload))?;
        let text = s.read_bytes_sequential(&payload, payload.len() - s.sequential_counter)?;
        let keyword = text_field(keyword)?;
        let text = text_field(text)?;
        Ok(tEXtChunk { length, keyword, text, crc })
    }
}

//  Compressed text: a zero-terminated keyword, one character per byte, a
//  compression method, and the compressed text in the rest of the payload.

#[allow(non_camel_case_types)]
#[derive(Debug)]
pub struct zTXtChunk {
    pub length: u32,
    pub keyword: String,
    pub compression_method: u8,
    pub compressed_text: Vec<u8>,
    pub crc: Vec<u8>,
}

impl zTXtChunk {
    pub open spec fn decoded_from(&self, p: Seq<u8>, crc: Seq<u8>) -> bool {
        let a = after_nul_field(p, 0);
        &&& self.length == p.len()
        &&& self.crc@ == crc
        &&& self.keyword@ == latin1(nul_field(p, 0))
        &&& self.compression_method == p[a]
        &&& self.compressed_text@ == p.subrange(a + 1, p.len() as int)
    }

    pub fn new(length: u32, png_file: &mut Png) -> (r: Result<Self, DecodeError>)
        requires
            old(png_file).wf(),
        ensures
            body_consumed(*old(png_file), *final(png_file), ChunkType::zTXt, length as int),
            r is Ok <==> old(png_file).decode_failure(ChunkType::zTXt, length as int) is None,
            r matches Err(e) ==> old(png_file).decode_failure(ChunkType::zTXt, length as int) == Some(e),
            r matches Ok(c) ==> c.decoded_from(
                old(png_file).body_payload(length as int),
                old(png_file).body_crc(length as int),
            ),
    {
        let (payload, crc) = png_file.read_body(length)?;
        proof {
            lemma_first_nul(payload@, 0);
        }
        let mut s = Stream::new();
        let keyword = within_payload(s.read_until_nul(&payload))?;
        let compression_method = within_payload(s.read_u8(&payload))?;
        let compressed_text = s.read_bytes_sequential(&payload, payload.len() - s.sequential_counter)?;
        let keyword = latin1_text(&keyword);
        Ok(zTXtChunk { length, keyword, compression_method, compressed_text, crc })
    }
}

/// A list with no header chunk gives no color type.
pub proof fn lemma_no_header_no_mode(s: Seq<Chunk>)
    requires
        forall|i: int| 0 <= i < s.len() ==> !(#[trigger] s[i] is IDHR),
    ensures
        header_mode(s) is None,
    decreases s.len(),
{
    if s.len() > 0 {
        assert forall|i: int| 0 <= i < s.drop_last().len() implies !(#[trigger] s.drop_last()[i] is IDHR) by {
            assert(s.drop_last()[i] == s[i]);
        }
        lemma_no_header_no_mode(s.drop_last());
        assert(!(s[s.len() - 1] is IDHR));
    }
}

/// A background chunk decoded while the chunk list holds no header fails
/// with a missing-dependency error before any of its body is read, whatever
/// its length and payload.
pub proof fn lemma_background_needs_header(s: Seq<Chunk>, length: int, p: Seq<u8>)
    requires
        forall|i: int| 0 <= i < s.len() ==> !(#[trigger] s[i] is IDHR),
    ensures
        length_error(ChunkType::bKGD, length, header_mode(s)) == Some(DecodeError::MissingDependency),
        chunk_error(ChunkType::bKGD, p, header_mode(s)) == Some(DecodeError::MissingDependency),
{
    lemma_no_header_no_mode(s);
}

/// Under an RGB header a six-byte background payload decodes, and only to
/// the three 16-bit channels it holds, in order.
pub proof fn lemma_background_rgb(p: Seq<u8>, crc: Seq<u8>, c: Chunk)
    requires
        p.len() == 6,
    ensures
        chunk_error(ChunkType::bKGD, p, Some(ColorType::RGB)) is None,
        c.kind() == ChunkType::bKGD && c.decoded_from(p, crc, Some(ColorType::RGB)) ==> (
        c matches Chunk::bKGD(b) && b.color == BackgroundColor::RGB(
            be_u16(p, 0) as u16,
            be_u16(p, 2) as u16,
            be_u16(p, 4) as u16,
        )),
{
}

/// The bytes of one suggested-palette entry at `sample_depth`: channels of one
/// byte at depth 8 and of two bytes otherwise, then a two-byte frequency, all
/// big-endian.
pub open spec fn encode_splt_entry(e: sPLTEntry, sample_depth: u8) -> Seq<u8> {
    if sample_depth == 8 {
        seq![
            e.red as u8,
            e.green as u8,
            e.blue as u8,
            e.alpha as u8,
            (e.frequency / 256) as u8,
            (e.frequency % 256) as u8,
        ]
    } else {
        seq![
            (e.red / 256) as u8,
            (e.red % 256) as u8,
            (e.green / 256) as u8,
            (e.green % 256) as u8,
            (e.blue / 256) as u8,
            (e.blue % 256) as u8,
            (e.alpha / 256) as u8,
            (e.alpha % 256) as u8,
            (e.frequency / 256) as u8,
            (e.frequency % 256) as u8,
        ]
    }
}

pub open spec fn encode_splt_entries(es: Seq<sPLTEntry>, sample_depth: u8) -> Seq<u8>
    decreases es.len(),
{
    if es.len() == 0 {
        Seq::empty()
    } else {
        encode_splt_entries(es.drop_last(), sample_depth) + encode_splt_entry(es.last(), sample_depth)
    }
}

/// The payload of a suggested-palette chunk with palette name `name`.
pub open spec fn encode_splt_payload(name: Seq<u8>, sample_depth: u8, es: Seq<sPLTEntry>) -> Seq<u8> {
    name + seq![0u8, sample_depth] + encode_splt_entries(es, sample_depth)
}

proof fn lemma_first_nul_at(s: Seq<u8>, from: int, k: int)
    requires
        0 <= from <= k < s.len(),
        s[k] == 0,
        forall|j: int| from <= j < k ==> s[j] != 0,
    ensures
        first_nul(s, from) == k,
    decreases k - from,
{
    if from < k {
        lemma_first_nul_at(s, from + 1, k);
    }
}

proof fn lemma_encode_splt_entries(es: Seq<sPLTEntry>, d: u8, i: int, k: int)
    requires
        0 <= i < es.len(),
        0 <= k < splt_entry_size(d),
    ensures
        encode_splt_entries(es, d).len() == es.len() * splt_entry_size(d),
        encode_splt_entries(es, d)[i * splt_entry_size(d) + k] == encode_splt_entry(es[i], d)[k],
    decreases es.len(),
{
    let size = splt_entry_size(d);
    let init = es.drop_last();
    let n = es.len();
    if i < n - 1 {
        lemma_encode_splt_entries(init, d, i, k);
        assert((i + 1) * size <= (n - 1) * size) by (nonlinear_arith)
            requires
                i + 1 <= n - 1,
                size > 0,
        ;
        assert((i + 1) * size == i * size + size) by (nonlinear_arith);
    } else {
        if n > 1 {
            lemma_encode_splt_entries(init, d, 0, 0);
        }
        assert(encode_splt_entries(init, d).len() == (n - 1) * size);
        assert(es[i] == es.last());
    }
    assert(n * size == (n - 1) * size + size) by (nonlinear_arith);
}

proof fn lemma_encode_splt_entries_len(es: Seq<sPLTEntry>, d: u8)
    ensures
        encode_splt_entries(es, d).len() == es.len() * splt_entry_size(d),
{
    if es.len() > 0 {
        lemma_encode_splt_entries(es, d, 0, 0);
    }
}

proof fn lemma_splt_entry_decodes(e: sPLTEntry, x: sPLTEntry, p: Seq<u8>, at: int, d: u8)
    requires
        0 <= at,
        at + splt_entry_size(d) <= p.len(),
        forall|k: int| 0 <= k < splt_entry_size(d) ==> p[at + k] == encode_splt_entry(x, d)[k],
        splt_entry_at(e, p, at, d),
        d == 8 ==> x.red <= 255 && x.green <= 255 && x.blue <= 255 && x.alpha <= 255,
    ensures
        e == x,
{
    let enc = encode_splt_entry(x, d);
    assert(p[at] == enc[0] && p[at + 1] == enc[1] && p[at + 2] == enc[2]);
    assert(p[at + 3] == enc[3] && p[at + 4] == enc[4] && p[at + 5] == enc[5]);
    if d != 8 {
        assert(p[at + 6] == enc[6] && p[at + 7] == enc[7] && p[at + 8] == enc[8]);
        assert(p[at + 9] == enc[9]);
    }
}

/// Encoding suggested-palette entries at sample depth 8 or 16 and decoding the
/// payload gives back exactly those entries, as many as went in; at depth 8
/// every channel of every entry is at most 255.
pub proof fn lemma_splt_round_trip(
    name: Seq<u8>,
    sample_depth: u8,
    es: Seq<sPLTEntry>,
    crc: Seq<u8>,
    mode: Option<ColorType>,
    c: sPLTChunk,
)
    requires
        forall|j: int| 0 <= j < name.len() ==> name[j] != 0,
        valid_utf8(name),
        sample_depth == 8 || sample_depth == 16,
        sample_depth == 8 ==> forall|i: int|
            0 <= i < es.len() ==> #[trigger] es[i].red <= 255 && es[i].green <= 255 && es[i].blue
                <= 255 && es[i].alpha <= 255,
    ensures
        chunk_error(ChunkType::sPLT, encode_splt_payload(name, sample_depth, es), mode) is None,
        c.decoded_from(encode_splt_payload(name, sample_depth, es), crc) ==> {
            &&& c.entries@.len() == es.len()
            &&& c.entries@ == es
            &&& sample_depth == 8 ==> forall|i: int|
                0 <= i < c.entries@.len() ==> #[trigger] c.entries@[i].red <= 255
                    && c.entries@[i].green <= 255 && c.entries@[i].blue <= 255
                    && c.entries@[i].alpha <= 255
        },
{
    let p = encode_splt_payload(name, sample_depth, es);
    let d = sample_depth;
    let size = splt_entry_size(d);
    let body = encode_splt_entries(es, d);
    let m = name.len() as int;
    let a = m + 1;
    lemma_encode_splt_entries_len(es, d);
    assert(p.len() == a + 1 + es.len() * size);
    assert(p[m] == 0);
    lemma_first_nul_at(p, 0, m);
    assert(after_nul_field(p, 0) == a);
    assert(p[a] == d);
    assert(nul_field(p, 0) =~= name);
    assert((es.len() * size) % size == 0 && (es.len() * size) / size == es.len()) by (nonlinear_arith)
        requires
            size > 0,
    ;
    assert forall|i: int, k: int| 0 <= i < es.len() && 0 <= k < size implies p[a + 1 + i * size + k]
        == encode_splt_entry(es[i], d)[k] by {
        lemma_encode_splt_entries(es, d, i, k);
        assert(0 <= i * size + k < es.len() * size) by (nonlinear_arith)
            requires
                0 <= i < es.len(),
                0 <= k < size,
        ;
        assert(p[a + 1 + (i * size + k)] == body[i * size + k]);
    }
    if c.decoded_from(p, crc) {
        assert forall|i: int| 0 <= i < es.len() implies c.entries@[i] == es[i] by {
            let at = a + 1 + i * size;
            assert forall|k: int| 0 <= k < size implies p[at + k] == encode_splt_entry(es[i], d)[k] by {
                assert(p[a + 1 + i * size + k] == encode_splt_entry(es[i], d)[k]);
            }
            lemma_splt_entry_decodes(c.entries@[i], es[i], p, at, d);
        }
        assert(c.entries@ =~= es);
    }
}

//  The chunk list.

/// A decoded chunk, one variant per chunk type.
#[allow(non_camel_case_types)]
#[derive(Debug)]
pub enum Chunk {
    IDHR(IDHRChunk),
    PLTE(PLTEChunk),
    IDAT(IDATChunk),
    IEND(IENDChunk),
    tIME(tIMEChunk),
    bKGD(bKGDChunk),
    gAMA(gAMAChunk),
    cHRM(cHRMChunk),
    dSIG(dSIGChunk),
    eXIf(eXIfChunk),
    hIST(hISTChunk),
    iCCP(iCCPChunk),
    iTXt(iTXtChunk),
    pHYs(pHYsChunk),
    sBIT(sBITChunk),
    sPLT(sPLTChunk),
    sRGB(sRGBChunk),
    sTER(sTERChunk),
    tEXt(tEXtChunk),
    tRNS(tRNSChunk),
    zTXt(zTXtChunk),
}

impl Chunk {
    pub open spec fn kind(&self) -> ChunkType {
        match self {
            Chunk::IDHR(_) => ChunkType::IDHR,
            Chunk::PLTE(_) => ChunkType::PLTE,
            Chunk::IDAT(_) => ChunkType::IDAT,
            Chunk::IEND(_) => ChunkType::IEND,
            Chunk::tIME(_) => ChunkType::tIME,
            Chunk::bKGD(_) => ChunkType::bKGD,
            Chunk::gAMA(_) => ChunkType::gAMA,
            Chunk::cHRM(_) => ChunkType::cHRM,
            Chunk::dSIG(_) => ChunkType::dSIG,
            Chunk::eXIf(_) => ChunkType::eXIf,
            Chunk::hIST(_) => ChunkType::hIST,
            Chunk::iCCP(_) => ChunkType::iCCP,
            Chunk::iTXt(_) => ChunkType::iTXt,
            Chunk::pHYs(_) => ChunkType::pHYs,
            Chunk::sBIT(_) => ChunkType::sBIT,
            Chunk::sPLT(_) => ChunkType::sPLT,
            Chunk::sRGB(_) => ChunkType::sRGB,
            Chunk::sTER(_) => ChunkType::sTER,
            Chunk::tEXt(_) => ChunkType::tEXt,
            Chunk::tRNS(_) => ChunkType::tRNS,
            Chunk::zTXt(_) => ChunkType::zTXt,
        }
    }

    /// This chunk is the decoding of payload `p` and checksum `crc`, under the
    /// header color type `mode` of the stream so far.
    pub open spec fn decoded_from(&self, p: Seq<u8>, crc: Seq<u8>, mode: Option<ColorType>) -> bool {
        match self {
            Chunk::IDHR(c) => c.decoded_from(p, crc),
            Chunk::PLTE(c) => c.decoded_from(p, crc),
            Chunk::IDAT(c) => c.decoded_from(p, crc),
            Chunk::IEND(c) => c.decoded_from(p, crc),
            Chunk::tIME(c) => c.decoded_from(p, crc),
            Chunk::bKGD(c) => c.decoded_from(p, crc, mode),
            Chunk::gAMA(c) => c.decoded_from(p, crc),
            Chunk::cHRM(c) => c.decoded_from(p, crc),
            Chunk::dSIG(c) => c.decoded_from(p, crc),
            Chunk::eXIf(c) => c.decoded_from(p, crc),
            Chunk::hIST(c) => c.decoded_from(p, crc),
            Chunk::iCCP(c) => c.decoded_from(p, crc),
            Chunk::iTXt(c) => c.decoded_from(p, crc),
            Chunk::pHYs(c) => c.decoded_from(p, crc),
            Chunk::sBIT(c) => c.decoded_from(p, crc),
            Chunk::sPLT(c) => c.decoded_from(p, crc),
            Chunk::sRGB(c) => c.decoded_from(p, crc),
            Chunk::sTER(c) => c.decoded_from(p, crc),
            Chunk::tEXt(c) => c.decoded_from(p, crc),
            Chunk::tRNS(c) => c.decoded_from(p, crc),
            Chunk::zTXt(c) => c.decoded_from(p, crc),
        }
    }

    /// Decodes the body of a chunk of type `kind` at the session's read position.
    pub fn decode(kind: ChunkType, length: u32, png_file: &mut Png) -> (r: Result<Chunk, DecodeError>)
        requires
            old(png_file).wf(),
        ensures
            body_consumed(*old(png_file), *final(png_file), kind, length as int),
            r is Ok <==> old(png_file).decode_failure(kind, length as int) is None,
            r matches Err(e) ==> old(png_file).decode_failure(kind, length as int) == Some(e),
            r matches Ok(c) ==> c.kind() == kind && c.decoded_from(
                old(png_file).body_payload(length as int),
                old(png_file).body_crc(length as int),
                header_mode(old(png_file).chunks()),
            ),
    {
        let chunk = match kind {
            ChunkType::IDHR => Chunk::IDHR(IDHRChunk::new(length, png_file)?),
            ChunkType::PLTE => Chunk::PLTE(PLTEChunk::new(length, png_file)?),
            ChunkType::IDAT => Chunk::IDAT(IDATChunk::new(length, png_file)?),
            ChunkType::IEND => Chunk::IEND(IENDChunk::new(length, png_file)?),
            ChunkType::tIME => Chunk::tIME(tIMEChunk::new(length, png_file)?),
            ChunkType::bKGD => Chunk::bKGD(bKGDChunk::new(length, png_file)?),
            ChunkType::gAMA => Chunk::gAMA(gAMAChunk::new(length, png_file)?),
            ChunkType::cHRM => Chunk::cHRM(cHRMChunk::new(length, png_file)?),
            ChunkType::dSIG => Chunk::dSIG(dSIGChunk::new(length, png_file)?),
            ChunkType::eXIf => Chunk::eXIf(eXIfChunk::new(length, png_file)?),
            ChunkType::hIST => Chunk::hIST(hISTChunk::new(length, png_file)?),
            ChunkType::iCCP => Chunk::iCCP(iCCPChunk::new(length, png_file)?),
            ChunkType::iTXt => Chunk::iTXt(iTXtChunk::new(length, png_file)?),
            ChunkType::pHYs => Chunk::pHYs(pHYsChunk::new(length, png_file)?),
            ChunkType::sBIT => Chunk::sBIT(sBITChunk::new(length, png_file)?),
            ChunkType::sPLT => Chunk::sPLT(sPLTChunk::new(length, png_file)?),
            ChunkType::sRGB => Chunk::sRGB(sRGBChunk::new(length, png_file)?),
            ChunkType::sTER => Chunk::sTER(sTERChunk::new(length, png_file)?),
            ChunkType::tEXt => Chunk::tEXt(tEXtChunk::new(length, png_file)?),
            ChunkType::tRNS => Chunk::tRNS(tRNSChunk::new(length, png_file)?),
            ChunkType::zTXt => Chunk::zTXt(zTXtChunk::new(length, png_file)?),
        };
        Ok(chunk)
    }
}

/// The color type of the first header chunk in `s`, if there is one.
pub open spec fn header_mode(s: Seq<Chunk>) -> Option<ColorType>
    decreases s.len(),
{
    if s.len() == 0 {
        None
    } else {
        let m = header_mode(s.drop_last());
        if m is Some {
            m
        } else {
            match s.last() {
                Chunk::IDHR(h) => Some(h.color_type),
                _ => None,
            }
        }
    }
}

/// Once a prefix of the list holds a header, later chunks do not change the mode.
pub proof fn lemma_header_mode_prefix(s: Seq<Chunk>, k: int)
    requires
        0 <= k <= s.len(),
        header_mode(s.take(k)) is Some,
    ensures
        header_mode(s) == header_mode(s.take(k)),
    decreases s.len(),
{
    if k == s.len() {
        assert(s.take(k) =~= s);
    } else {
        assert(s.drop_last().take(k) =~= s.take(k));
        lemma_header_mode_prefix(s.drop_last(), k);
    }
}

} // verus!

use png_decoder::{
    bKGDChunk, BackgroundColor, Chunk, IDHRChunk, PLTEChunk, ChunkType, ColorType, DecodeError, InterlaceMethod, Png, PngDecoder,
    RenderingIntent,
};

const SIGNATURE: [u8; 8] = [137, 80, 78, 71, 13, 10, 26, 10];

fn frame(tag: &[u8; 4], payload: &[u8]) -> Vec<u8> {
    let mut out = Vec::new();
    out.extend_from_slice(&(payload.len() as u32).to_be_bytes());
    out.extend_from_slice(tag);
    out.extend_from_slice(payload);
    out.extend_from_slice(&[0xde, 0xad, 0xbe, 0xef]);
    out
}

fn header(color_code: u8) -> Vec<u8> {
    let mut p = Vec::new();
    p.extend_from_slice(&640u32.to_be_bytes());
    p.extend_from_slice(&480u32.to_be_bytes());
    p.extend_from_slice(&[8, color_code, 0, 0, 0]);
    frame(b"IHDR", &p)
}

fn stream(frames: &[Vec<u8>]) -> Vec<u8> {
    let mut out = SIGNATURE.to_vec();
    for f in frames {
        out.extend_from_slice(f);
    }
    out
}

fn decode(bytes: Vec<u8>) -> (PngDecoder, Result<(), DecodeError>) {
    let png = Png::new(bytes).expect("buffer holds a signature");
    let mut decoder = PngDecoder::new(png);
    let r = decoder.get_all_chunks();
    (decoder, r)
}

fn end() -> Vec<u8> {
    frame(b"IEND", &[])
}

#[test]
fn minimal_stream_yields_header_then_end() {
    let (d, r) = decode(stream(&[header(2), end()]));
    assert_eq!(r, Ok(()));
    assert!(d.png_file.signature_verified());
    let list = d.png_file.chunk_list();
    assert_eq!(list.len(), 2);
    match &list[0] {
        Chunk::IDHR(h) => {
            assert_eq!(h.length, 13);
            assert_eq!(h.width, 640);
            assert_eq!(h.height, 480);
            assert_eq!(h.bit_depth, 8);
            assert_eq!(h.color_type, ColorType::RGB);
            assert_eq!(h.compression_method, 0);
            assert_eq!(h.filter_method, 0);
            assert_eq!(h.interlace_method, InterlaceMethod::NonInterlaced);
            assert_eq!(h.crc, vec![0xde, 0xad, 0xbe, 0xef]);
        }
        other => panic!("expected a header, got {:?}", other),
    }
    assert!(matches!(&list[1], Chunk::IEND(e) if e.length == 0));
    assert_eq!(d.png_file.position(), 8 + 25 + 12);
}

#[test]
fn altered_signature_is_flagged_but_decoding_goes_on() {
    let mut bytes = stream(&[header(0), end()]);
    bytes[2] = 0;
    let (d, r) = decode(bytes);
    assert!(!d.png_file.signature_verified());
    assert_eq!(r, Ok(()));
    assert_eq!(d.png_file.chunk_list().len(), 2);
}

#[test]
fn buffer_shorter_than_signature_is_refused() {
    assert!(matches!(Png::new(vec![137, 80, 78]), Err(DecodeError::OutOfBounds)));
}

#[test]
fn background_before_header_is_missing_dependency() {
    let (d, r) = decode(stream(&[frame(b"bKGD", &[0, 1, 0, 2, 0, 3]), end()]));
    assert_eq!(r, Err(DecodeError::MissingDependency));
    assert_eq!(d.png_file.chunk_list().len(), 0);
}

#[test]
fn background_after_rgb_header_has_three_channels() {
    let (d, r) = decode(stream(&[header(2), frame(b"bKGD", &[0x12, 0x34, 0xab, 0xcd, 0xff, 0xff]), end()]));
    assert_eq!(r, Ok(()));
    match &d.png_file.chunk_list()[1] {
        Chunk::bKGD(b) => assert_eq!(b.color, BackgroundColor::RGB(0x1234, 0xabcd, 0xffff)),
        other => panic!("expected a background, got {:?}", other),
    }
}

#[test]
fn background_after_gray_and_indexed_headers() {
    let (d, r) = decode(stream(&[header(4), frame(b"bKGD", &[0x01, 0x02]), end()]));
    assert_eq!(r, Ok(()));
    assert!(matches!(&d.png_file.chunk_list()[1], Chunk::bKGD(b) if b.color == BackgroundColor::Grayscale(0x0102)));
    let (d, r) = decode(stream(&[header(3), frame(b"bKGD", &[7]), end()]));
    assert_eq!(r, Ok(()));
    assert!(matches!(&d.png_file.chunk_list()[1], Chunk::bKGD(b) if b.color == BackgroundColor::PaletteIndex(7)));
}

#[test]
fn background_of_wrong_size_for_header_is_length_error() {
    let (_, r) = decode(stream(&[header(2), frame(b"bKGD", &[0, 1]), end()]));
    assert_eq!(r, Err(DecodeError::MalformedLength));
}

#[test]
fn records_keep_stream_order() {
    let (d, r) = decode(stream(&[
        header(3),
        frame(b"PLTE", &[1, 2, 3, 4, 5, 6]),
        frame(b"gAMA", &[0, 0, 0xb1, 0x8f]),
        frame(b"IDAT", &[9, 8, 7]),
        frame(b"IDAT", &[6]),
        end(),
    ]));
    assert_eq!(r, Ok(()));
    let kinds: Vec<&str> = d
        .png_file
        .chunk_list()
        .iter()
        .map(|c| match c {
            Chunk::IDHR(_) => "IDHR",
            Chunk::PLTE(_) => "PLTE",
            Chunk::gAMA(_) => "gAMA",
            Chunk::IDAT(_) => "IDAT",
            Chunk::IEND(_) => "IEND",
            _ => "other",
        })
        .collect();
    assert_eq!(kinds, vec!["IDHR", "PLTE", "gAMA", "IDAT", "IDAT", "IEND"]);
    match (&d.png_file.chunk_list()[3], &d.png_file.chunk_list()[4]) {
        (Chunk::IDAT(a), Chunk::IDAT(b)) => {
            assert_eq!(a.data, vec![9, 8, 7]);
            assert_eq!(b.data, vec![6]);
        }
        _ => panic!("expected two image data chunks"),
    }
}

#[test]
fn palette_entries_in_index_order() {
    let (d, r) = decode(stream(&[header(3), frame(b"PLTE", &[1, 2, 3, 4, 5, 6]), end()]));
    assert_eq!(r, Ok(()));
    match &d.png_file.chunk_list()[1] {
        Chunk::PLTE(p) => {
            assert_eq!(p.entries.len(), 2);
            assert_eq!((p.entries[0].red, p.entries[0].green, p.entries[0].blue), (1, 2, 3));
            assert_eq!((p.entries[1].red, p.entries[1].green, p.entries[1].blue), (4, 5, 6));
        }
        other => panic!("expected a palette, got {:?}", other),
    }
}

#[test]
fn palette_length_not_multiple_of_three_is_length_error() {
    let (d, r) = decode(stream(&[header(3), frame(b"PLTE", &[1, 2, 3, 4]), end()]));
    assert_eq!(r, Err(DecodeError::MalformedLength));
    assert_eq!(d.png_file.chunk_list().len(), 1);
}

#[test]
fn international_text_too_short_for_prefixes_is_length_error() {
    let (_, r) = decode(stream(&[frame(b"iTXt", b"key\0\0\0en"), end()]));
    assert_eq!(r, Err(DecodeError::MalformedLength));
    let (_, r) = decode(stream(&[frame(b"iTXt", b"key\0"), end()]));
    assert_eq!(r, Err(DecodeError::MalformedLength));
}

#[test]
fn international_text_fields() {
    let (d, r) = decode(stream(&[frame(b"iTXt", b"Title\0\x00\x00en\0Titel\0Hallo Welt"), end()]));
    assert_eq!(r, Ok(()));
    match &d.png_file.chunk_list()[0] {
        Chunk::iTXt(t) => {
            assert_eq!(t.keyword, "Title");
            assert_eq!(t.compression_flag, 0);
            assert_eq!(t.compression_method, 0);
            assert_eq!(t.language_tag, "en");
            assert_eq!(t.translated_keyword, "Titel");
            assert_eq!(t.text, "Hallo Welt");
        }
        other => panic!("expected international text, got {:?}", other),
    }
    assert!(matches!(&d.png_file.chunk_list()[1], Chunk::IEND(_)));
}

#[test]
fn text_and_compressed_text_and_profile() {
    let (d, r) = decode(stream(&[
        frame(b"tEXt", b"Author\0Jane Doe"),
        frame(b"zTXt", b"Comment\0\x00\x78\x9c\x01"),
        frame(b"iCCP", b"sRGB\0\x00\x01\x02\x03"),
        end(),
    ]));
    assert_eq!(r, Ok(()));
    let list = d.png_file.chunk_list();
    match &list[0] {
        Chunk::tEXt(t) => {
            assert_eq!(t.keyword, "Author");
            assert_eq!(t.text, "Jane Doe");
        }
        other => panic!("expected text, got {:?}", other),
    }
    match &list[1] {
        Chunk::zTXt(z) => {
            assert_eq!(z.keyword, "Comment");
            assert_eq!(z.compression_method, 0);
            assert_eq!(z.compressed_text, vec![0x78, 0x9c, 0x01]);
        }
        other => panic!("expected compressed text, got {:?}", other),
    }
    match &list[2] {
        Chunk::iCCP(i) => {
            assert_eq!(i.profile_name, "sRGB");
            assert_eq!(i.compression_method, 0);
            assert_eq!(i.compression_profile, vec![1, 2, 3]);
        }
        other => panic!("expected a profile, got {:?}", other),
    }
    assert_eq!(list.len(), 4);
}

#[test]
fn text_that_is_not_utf8_is_text_error() {
    let (_, r) = decode(stream(&[frame(b"tEXt", b"Author\0\xff\xfe"), end()]));
    assert_eq!(r, Err(DecodeError::TextDecodingError));
}

#[test]
fn suggested_palette_round_trip_at_depth_8() {
    let entries: [(u8, u8, u8, u8, u16); 3] = [(0, 10, 20, 255, 1), (255, 255, 255, 255, 65535), (1, 2, 3, 4, 300)];
    let mut p = b"pal\0".to_vec();
    p.push(8);
    for (r, g, b, a, f) in entries {
        p.extend_from_slice(&[r, g, b, a]);
        p.extend_from_slice(&f.to_be_bytes());
    }
    let (d, r) = decode(stream(&[frame(b"sPLT", &p), end()]));
    assert_eq!(r, Ok(()));
    match &d.png_file.chunk_list()[0] {
        Chunk::sPLT(s) => {
            assert_eq!(s.palette_name, "pal");
            assert_eq!(s.sample_depth, 8);
            assert_eq!(s.entries.len(), 3);
            for (e, (r, g, b, a, f)) in s.entries.iter().zip(entries) {
                assert_eq!((e.red, e.green, e.blue, e.alpha, e.frequency), (r as u16, g as u16, b as u16, a as u16, f));
                assert!(e.red <= 255 && e.green <= 255 && e.blue <= 255 && e.alpha <= 255);
            }
        }
        other => panic!("expected a suggested palette, got {:?}", other),
    }
}

#[test]
fn suggested_palette_round_trip_at_depth_16() {
    let entries: [(u16, u16, u16, u16, u16); 2] = [(0, 65535, 256, 4660, 7), (65535, 1, 2, 3, 0)];
    let mut p = b"wide\0".to_vec();
    p.push(16);
    for (r, g, b, a, f) in entries {
        for v in [r, g, b, a, f] {
            p.extend_from_slice(&v.to_be_bytes());
        }
    }
    let (d, r) = decode(stream(&[frame(b"sPLT", &p), end()]));
    assert_eq!(r, Ok(()));
    match &d.png_file.chunk_list()[0] {
        Chunk::sPLT(s) => {
            assert_eq!(s.entries.len(), 2);
            for (e, (r, g, b, a, f)) in s.entries.iter().zip(entries) {
                assert_eq!((e.red, e.green, e.blue, e.alpha, e.frequency), (r, g, b, a, f));
            }
        }
        other => panic!("expected a suggested palette, got {:?}", other),
    }
}

#[test]
fn suggested_palette_with_partial_entry_is_length_error() {
    let (_, r) = decode(stream(&[frame(b"sPLT", b"pal\0\x08\x01\x02\x03\x04\x05"), end()]));
    assert_eq!(r, Err(DecodeError::MalformedLength));
}

#[test]
fn truncated_buffer_fails_out_of_bounds_at_the_short_chunk() {
    let mut bytes = stream(&[header(0)]);
    bytes.extend_from_slice(&100u32.to_be_bytes());
    bytes.extend_from_slice(b"IDAT");
    bytes.extend_from_slice(&[1, 2, 3, 4, 5, 6, 7, 8, 9, 10]);
    let (d, r) = decode(bytes);
    assert_eq!(r, Err(DecodeError::OutOfBounds));
    assert_eq!(d.png_file.chunk_list().len(), 1);
    assert_eq!(d.png_file.position(), 8 + 25 + 8);
}

#[test]
fn buffer_ending_without_end_chunk_fails_out_of_bounds() {
    let (d, r) = decode(stream(&[header(0)]));
    assert_eq!(r, Err(DecodeError::OutOfBounds));
    assert_eq!(d.png_file.chunk_list().len(), 1);
}

#[test]
fn unknown_tag_is_refused() {
    let (d, r) = decode(stream(&[header(0), frame(b"vpAg", &[1, 2, 3]), end()]));
    assert_eq!(r, Err(DecodeError::UnknownChunkType));
    assert_eq!(d.png_file.chunk_list().len(), 1);
}

#[test]
fn invalid_codes_are_enumeration_errors() {
    let (_, r) = decode(stream(&[header(5), end()]));
    assert_eq!(r, Err(DecodeError::InvalidEnumeratedValue));
    let mut p = vec![0, 0, 0, 1, 0, 0, 0, 1, 8, 0, 0, 0, 2];
    let (_, r) = decode(stream(&[frame(b"IHDR", &p), end()]));
    assert_eq!(r, Err(DecodeError::InvalidEnumeratedValue));
    p[12] = 1;
    let (d, r) = decode(stream(&[frame(b"IHDR", &p), end()]));
    assert_eq!(r, Ok(()));
    assert!(matches!(&d.png_file.chunk_list()[0], Chunk::IDHR(h) if h.interlace_method == InterlaceMethod::Adam7));
    let (_, r) = decode(stream(&[frame(b"sRGB", &[4]), end()]));
    assert_eq!(r, Err(DecodeError::InvalidEnumeratedValue));
}

#[test]
fn fixed_layouts_check_their_length() {
    let (_, r) = decode(stream(&[frame(b"IHDR", &[0; 12]), end()]));
    assert_eq!(r, Err(DecodeError::MalformedLength));
    let (_, r) = decode(stream(&[frame(b"gAMA", &[0; 5]), end()]));
    assert_eq!(r, Err(DecodeError::MalformedLength));
    let (_, r) = decode(stream(&[frame(b"IEND", &[0])]));
    assert_eq!(r, Err(DecodeError::MalformedLength));
    let (_, r) = decode(stream(&[frame(b"hIST", &[0; 3]), end()]));
    assert_eq!(r, Err(DecodeError::MalformedLength));
}

#[test]
fn fixed_layout_chunks_decode_their_fields() {
    let mut chrm = Vec::new();
    for v in [31270u32, 32900, 64000, 33000, 30000, 60000, 15000, 6000] {
        chrm.extend_from_slice(&v.to_be_bytes());
    }
    let (d, r) = decode(stream(&[
        frame(b"gAMA", &45455u32.to_be_bytes()),
        frame(b"cHRM", &chrm),
        frame(b"pHYs", &[0, 0, 0x0b, 0x13, 0, 0, 0x0b, 0x12, 1]),
        frame(b"tIME", &[0x07, 0xe8, 2, 29, 23, 59, 60]),
        frame(b"sRGB", &[3]),
        frame(b"sTER", &[1]),
        frame(b"hIST", &[0, 1, 1, 0]),
        frame(b"tRNS", &[0, 128]),
        frame(b"sBIT", &[5, 6, 5]),
        frame(b"eXIf", &[0x4d, 0x4d]),
        frame(b"dSIG", &[1]),
        end(),
    ]));
    assert_eq!(r, Ok(()));
    let l = d.png_file.chunk_list();
    assert!(matches!(&l[0], Chunk::gAMA(g) if g.gamma == 45455));
    match &l[1] {
        Chunk::cHRM(c) => {
            assert_eq!((c.white_point_x, c.white_point_y), (31270, 32900));
            assert_eq!((c.red_x, c.red_y, c.green_x, c.green_y), (64000, 33000, 30000, 60000));
            assert_eq!((c.blue_x, c.blue_y), (15000, 6000));
        }
        other => panic!("expected chromaticities, got {:?}", other),
    }
    assert!(matches!(&l[2], Chunk::pHYs(p) if p.pixels_per_unit_x_axis == 2835 && p.pixels_per_unit_y_axis == 2834 && p.unit_specifier == 1));
    assert!(matches!(&l[3], Chunk::tIME(t) if (t.year, t.month, t.day, t.hour, t.minute, t.second) == (2024, 2, 29, 23, 59, 60)));
    assert!(matches!(&l[4], Chunk::sRGB(s) if s.rendering_intent == RenderingIntent::AbsoluteColorimetric));
    assert!(matches!(&l[5], Chunk::sTER(s) if s.stereo_mode == 1));
    assert!(matches!(&l[6], Chunk::hIST(h) if h.data == vec![1, 256]));
    assert!(matches!(&l[7], Chunk::tRNS(t) if t.transparency_data == vec![0, 128]));
    assert!(matches!(&l[8], Chunk::sBIT(s) if s.data == vec![5, 6, 5]));
    assert!(matches!(&l[9], Chunk::eXIf(e) if e.data == vec![0x4d, 0x4d]));
    assert!(matches!(&l[10], Chunk::dSIG(s) if s.data == vec![1]));
    assert_eq!(l.len(), 12);
}

#[test]
fn registry_maps_tags_to_types() {
    assert_eq!(ChunkType::from_tag(u32::from_be_bytes(*b"IHDR")), Ok(ChunkType::IDHR));
    assert_eq!(ChunkType::from_tag(u32::from_be_bytes(*b"zTXt")), Ok(ChunkType::zTXt));
    assert_eq!(ChunkType::from_tag(u32::from_be_bytes(*b"IEND")), Ok(ChunkType::IEND));
    assert_eq!(ChunkType::from_tag(u32::from_be_bytes(*b"IDHR")), Err(DecodeError::UnknownChunkType));
}

#[test]
fn palette_length_error_comes_before_any_read() {
    let mut bytes = SIGNATURE.to_vec();
    bytes.extend_from_slice(&[1, 2, 3, 4, 5]);
    let mut png = Png::new(bytes).unwrap();
    assert!(matches!(PLTEChunk::new(4, &mut png), Err(DecodeError::MalformedLength)));
    assert_eq!(png.position(), 8);
    assert!(matches!(PLTEChunk::new(3, &mut png), Err(DecodeError::OutOfBounds)));
    assert_eq!(png.position(), 8);
}

#[test]
fn header_of_wrong_length_on_short_buffer_is_length_error() {
    let mut png = Png::new(SIGNATURE.to_vec()).unwrap();
    assert!(matches!(IDHRChunk::new(12, &mut png), Err(DecodeError::MalformedLength)));
    assert_eq!(png.position(), 8);
}

#[test]
fn background_without_header_fails_before_reading() {
    let mut png = Png::new(SIGNATURE.to_vec()).unwrap();
    assert!(matches!(bKGDChunk::new(6, &mut png), Err(DecodeError::MissingDependency)));
    assert_eq!(png.position(), 8);
    assert_eq!(png.chunk_list().len(), 0);
}

#[test]
fn compressed_text_keyword_is_one_character_per_byte() {
    let (d, r) = decode(stream(&[frame(b"zTXt", b"Caf\xe9\xff\0\x00\x01\x02"), end()]));
    assert_eq!(r, Ok(()));
    match &d.png_file.chunk_list()[0] {
        Chunk::zTXt(z) => {
            assert_eq!(z.keyword, "Caf\u{e9}\u{ff}");
            assert_eq!(z.compression_method, 0);
            assert_eq!(z.compressed_text, vec![1, 2]);
        }
        other => panic!("expected compressed text, got {:?}", other),
    }
}

#[test]
fn unknown_tag_leaves_position_just_past_the_tag() {
    let (d, r) = decode(stream(&[header(0), frame(b"vpAg", &[1, 2, 3]), end()]));
    assert_eq!(r, Err(DecodeError::UnknownChunkType));
    assert_eq!(d.png_file.position(), 8 + 25 + 8);
}

#[test]
fn bytes_after_end_chunk_are_not_read() {
    let mut bytes = stream(&[header(0), end()]);
    bytes.extend_from_slice(&[0xff, 0xff, 0xff, 0xff, 1, 2]);
    let (d, r) = decode(bytes);
    assert_eq!(r, Ok(()));
    assert_eq!(d.png_file.position(), 45);
    assert_eq!(d.png_file.chunk_list().len(), 2);
}

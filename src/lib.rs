pub mod chunks;
pub mod decoder;
pub mod error;
pub mod png;
pub mod stream;

pub use chunks::{
    bKGDChunk, cHRMChunk, dSIGChunk, eXIfChunk, gAMAChunk, hISTChunk, iCCPChunk, iTXtChunk,
    pHYsChunk, sBITChunk, sPLTChunk, sPLTEntry, sRGBChunk, sTERChunk, tEXtChunk, tIMEChunk,
    tRNSChunk, zTXtChunk, BackgroundColor, Chunk, ChunkType, ColorType, IDATChunk, IDHRChunk,
    IENDChunk, InterlaceMethod, PLTEChunk, PaletteEntry, RenderingIntent,
};
pub use decoder::PngDecoder;
pub use error::DecodeError;
pub use png::Png;
pub use stream::{latin1_text, sum_big_endian, Stream};

//! Chunk codecs, one for each supported compression method.
//!
//! Each algorithm comes from an outside crate, except for `lzBitmap`, for
//! which no codec is available here: its chunks are stored unchanged. What an
//! encoder or a decoder returns is named by an uninterpreted function of its
//! input; a decoder's name is `None` on a malformed stream.

use crate::status::MTLIOCompressionMethod;
use vstd::prelude::*;
use vstd::slice::slice_to_vec;

verus! {

pub uninterp spec fn lz4_block_compressed(raw: Seq<u8>) -> Seq<u8>;

/// The decoding of an LZ4 block; `None` where the block is malformed.
pub uninterp spec fn lz4_block_decompressed(block: Seq<u8>) -> Option<Seq<u8>>;

pub uninterp spec fn zlib_compressed(raw: Seq<u8>) -> Seq<u8>;

/// The decoding of a zlib stream; `None` where the stream is malformed.
pub uninterp spec fn zlib_decompressed(stream: Seq<u8>) -> Option<Seq<u8>>;

pub uninterp spec fn lzma_compressed(raw: Seq<u8>) -> Seq<u8>;

/// The decoding of an LZMA stream; `None` where the stream is malformed.
pub uninterp spec fn lzma_decompressed(stream: Seq<u8>) -> Option<Seq<u8>>;

pub uninterp spec fn lzfse_compressed(raw: Seq<u8>) -> Seq<u8>;

/// The decoding of an LZFSE stream; `None` where the stream is malformed.
pub uninterp spec fn lzfse_decompressed(stream: Seq<u8>) -> Option<Seq<u8>>;

/// Relies on lz4_flex::block::compress: the block encoding of all of `raw`,
/// which depends on `raw` alone.
#[verifier::external_body]
fn lz4_compress(raw: &[u8]) -> (r: Vec<u8>)
    ensures
        r@ == lz4_block_compressed(raw@),
{
    lz4_flex::block::compress(raw)
}

/// Relies on lz4_flex::block::decompress_into: it writes the decoding of
/// `block` at the front of a buffer of `capacity` bytes and returns its
/// length, and reports an error where the block is malformed or its
/// decoding does not fit.
#[verifier::external_body]
fn lz4_decompress(block: &[u8], capacity: usize) -> (r: Option<Vec<u8>>)
    ensures
        r is Some <==> (lz4_block_decompressed(block@) matches Some(v) && v.len() <= capacity),
        r matches Some(v) ==> lz4_block_decompressed(block@) == Some(v@),
{
    let mut out = vec![0u8; capacity];
    match lz4_flex::block::decompress_into(block, &mut out) {
        Ok(n) => {
            out.truncate(n);
            Some(out)
        },
        Err(_) => None,
    }
}

/// Relies on miniz_oxide::deflate::compress_to_vec_zlib at level 6: a zlib
/// stream of all of `raw`, which depends on `raw` alone.
#[verifier::external_body]
fn zlib_compress(raw: &[u8]) -> (r: Vec<u8>)
    ensures
        r@ == zlib_compressed(raw@),
{
    miniz_oxide::deflate::compress_to_vec_zlib(raw, 6)
}

/// Relies on miniz_oxide::inflate::decompress_to_vec_zlib_with_limit: the
/// decoded stream where it is well formed and fits in `limit` bytes, else an
/// error.
#[verifier::external_body]
fn zlib_decompress(stream: &[u8], limit: usize) -> (r: Option<Vec<u8>>)
    ensures
        r is Some <==> (zlib_decompressed(stream@) matches Some(v) && v.len() <= limit),
        r matches Some(v) ==> zlib_decompressed(stream@) == Some(v@),
{
    miniz_oxide::inflate::decompress_to_vec_zlib_with_limit(stream, limit).ok()
}

/// Relies on lzma_rs::lzma_compress, reading from a slice and writing to a
/// vector, neither of which fails: the LZMA stream of all of `raw`.
#[verifier::external_body]
fn lzma_compress(raw: &[u8]) -> (r: Option<Vec<u8>>)
    ensures
        r is Some,
        r matches Some(v) ==> v@ == lzma_compressed(raw@),
{
    let mut src: &[u8] = raw;
    let mut out: Vec<u8> = Vec::new();
    match lzma_rs::lzma_compress(&mut src, &mut out) {
        Ok(()) => Some(out),
        Err(_) => None,
    }
}

/// Relies on lzma_rs::lzma_decompress, reading from a slice and writing to a
/// vector: the decoded stream where it is well formed, else an error.
#[verifier::external_body]
fn lzma_decompress(stream: &[u8]) -> (r: Option<Vec<u8>>)
    ensures
        r is Some <==> lzma_decompressed(stream@) is Some,
        r matches Some(v) ==> lzma_decompressed(stream@) == Some(v@),
{
    let mut src: &[u8] = stream;
    let mut out: Vec<u8> = Vec::new();
    match lzma_rs::lzma_decompress(&mut src, &mut out) {
        Ok(()) => Some(out),
        Err(_) => None,
    }
}

/// Relies on lzfse_rust::encode_bytes, appending to an empty vector: on
/// success the LZFSE stream of all of `raw`; it reports an error where a
/// buffer would overflow.
#[verifier::external_body]
fn lzfse_compress(raw: &[u8]) -> (r: Option<Vec<u8>>)
    ensures
        r matches Some(v) ==> v@ == lzfse_compressed(raw@),
{
    let mut out: Vec<u8> = Vec::new();
    match lzfse_rust::encode_bytes(raw, &mut out) {
        Ok(_) => Some(out),
        Err(_) => None,
    }
}

/// Relies on lzfse_rust::decode_bytes, appending to an empty vector: the
/// decoded stream where it is well formed, else an error.
#[verifier::external_body]
fn lzfse_decompress(stream: &[u8]) -> (r: Option<Vec<u8>>)
    ensures
        r is Some <==> lzfse_decompressed(stream@) is Some,
        r matches Some(v) ==> lzfse_decompressed(stream@) == Some(v@),
{
    let mut out: Vec<u8> = Vec::new();
    match lzfse_rust::decode_bytes(stream, &mut out) {
        Ok(_) => Some(out),
        Err(_) => None,
    }
}

/// The encoded form of one chunk under `method`.
///
/// No codec for `lzBitmap` is available here: under that method chunks are
/// stored as they are.
pub open spec fn chunk_encoding(method: MTLIOCompressionMethod, raw: Seq<u8>) -> Seq<u8> {
    match method {
        MTLIOCompressionMethod::zlib => zlib_compressed(raw),
        MTLIOCompressionMethod::lzfse => lzfse_compressed(raw),
        MTLIOCompressionMethod::lz4 => lz4_block_compressed(raw),
        MTLIOCompressionMethod::lzma => lzma_compressed(raw),
        MTLIOCompressionMethod::lzBitmap => raw,
    }
}

/// The decoded form of one encoded chunk under `method`; `None` where it is
/// malformed.
pub open spec fn chunk_decoding(method: MTLIOCompressionMethod, encoded: Seq<u8>) -> Option<
    Seq<u8>,
> {
    match method {
        MTLIOCompressionMethod::zlib => zlib_decompressed(encoded),
        MTLIOCompressionMethod::lzfse => lzfse_decompressed(encoded),
        MTLIOCompressionMethod::lz4 => lz4_block_decompressed(encoded),
        MTLIOCompressionMethod::lzma => lzma_decompressed(encoded),
        MTLIOCompressionMethod::lzBitmap => Some(encoded),
    }
}

/// Whether one encoded chunk decodes to exactly `raw_len` bytes.
pub open spec fn decodes_to_len(method: MTLIOCompressionMethod, encoded: Seq<u8>, raw_len: int) -> bool {
    chunk_decoding(method, encoded) matches Some(v) && v.len() == raw_len
}

/// Whether the codec of `method` gives back every chunk it encodes.
pub open spec fn codec_inverts(method: MTLIOCompressionMethod) -> bool {
    forall|raw: Seq<u8>| #[trigger]
        chunk_decoding(method, chunk_encoding(method, raw)) == Some(raw)
}

/// Chunks stored as they are come back as they were.
pub proof fn lemma_stored_chunks_invert()
    ensures
        codec_inverts(MTLIOCompressionMethod::lzBitmap),
{
}

/// Encodes one chunk. Only the lzfse encoder can fail, which it reports by
/// `None`.
pub fn encode_chunk(method: MTLIOCompressionMethod, raw: &[u8]) -> (r: Option<Vec<u8>>)
    ensures
        r matches Some(v) ==> v@ == chunk_encoding(method, raw@),
        method != MTLIOCompressionMethod::lzfse ==> r is Some,
{
    match method {
        MTLIOCompressionMethod::zlib => Some(zlib_compress(raw)),
        MTLIOCompressionMethod::lzfse => lzfse_compress(raw),
        MTLIOCompressionMethod::lz4 => Some(lz4_compress(raw)),
        MTLIOCompressionMethod::lzma => lzma_compress(raw),
        MTLIOCompressionMethod::lzBitmap => Some(slice_to_vec(raw)),
    }
}

/// What a decoder handed back, kept only where it has exactly `raw_len`
/// bytes.
pub fn accept_decoded(decoded: Option<Vec<u8>>, raw_len: usize) -> (r: Option<Vec<u8>>)
    ensures
        r == (if decoded matches Some(v) && v@.len() == raw_len {
            decoded
        } else {
            None
        }),
{
    match decoded {
        Some(v) => {
            if v.len() == raw_len {
                Some(v)
            } else {
                None
            }
        },
        None => None,
    }
}

/// Decodes one chunk that must expand to exactly `raw_len` bytes: `Some`
/// exactly when it does.
pub fn decode_chunk(method: MTLIOCompressionMethod, encoded: &[u8], raw_len: usize) -> (r: Option<
    Vec<u8>,
>)
    ensures
        r is Some <==> decodes_to_len(method, encoded@, raw_len as int),
        r matches Some(v) ==> chunk_decoding(method, encoded@) == Some(v@),
{
    let decoded = match method {
        MTLIOCompressionMethod::zlib => zlib_decompress(encoded, raw_len),
        MTLIOCompressionMethod::lzfse => lzfse_decompress(encoded),
        MTLIOCompressionMethod::lz4 => lz4_decompress(encoded, raw_len),
        MTLIOCompressionMethod::lzma => lzma_decompress(encoded),
        MTLIOCompressionMethod::lzBitmap => Some(slice_to_vec(encoded)),
    };
    accept_decoded(decoded, raw_len)
}

} // verus!

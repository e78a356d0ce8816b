use crate::error::DecodeError;
use vstd::prelude::*;
use vstd::slice::slice_to_vec;

verus! {

/// The error of `lzma::decompress`. Nothing is read from it.
#[verifier::external_type_specification]
#[verifier::external_body]
pub struct ExLzmaError(lzma::LzmaError);

/// The error of `lz4::block::decompress`. Nothing is read from it.
#[verifier::external_type_specification]
#[verifier::external_body]
pub struct ExIoError(std::io::Error);

/// What `lzma::decompress` makes of a compressed stream: the decompressed
/// bytes, or nothing where it reports an error.
pub uninterp spec fn lzma_decoded(src: Seq<u8>) -> Option<Seq<u8>>;

/// What `lz4::block::decompress` makes of a compressed block and the size
/// announced for its content: the decompressed bytes, or nothing where it
/// reports an error.
pub uninterp spec fn lz4_decoded(src: Seq<u8>, size: i32) -> Option<Seq<u8>>;

/// `lzma::decompress` runs liblzma's decoder over the whole input with no
/// memory limit. Its result depends on the input alone and is named
/// `lzma_decoded`; nothing else is claimed of it.
#[verifier::external_body]
fn lzma_decompress(src: &[u8]) -> (r: Result<Vec<u8>, lzma::LzmaError>)
    ensures
        match r {
            Ok(v) => lzma_decoded(src@) == Some(v@),
            Err(_) => lzma_decoded(src@) is None,
        },
{
    lzma::decompress(src)
}

/// `lz4::block::decompress` with an explicit size: the block decoder of
/// liblz4 writing into a buffer of that size. Its result depends on the two
/// arguments alone and is named `lz4_decoded`; nothing else is claimed of it.
#[verifier::external_body]
fn lz4_decompress(src: &[u8], size: i32) -> (r: Result<Vec<u8>, std::io::Error>)
    ensures
        match r {
            Ok(v) => lz4_decoded(src@, size) == Some(v@),
            Err(_) => lz4_decoded(src@, size) is None,
        },
{
    lz4::block::decompress(src, Some(size))
}

/// The codec that a flags word selects: its low six bits.
pub open spec fn codec_of(flags: u32) -> u32 {
    flags & 0x3f
}

/// What a codec's output is accepted as: the output itself where it has
/// exactly the declared size, a decompression failure otherwise or where the
/// codec gave none.
pub open spec fn sized(out: Option<Seq<u8>>, dst_size: i32) -> Result<Seq<u8>, DecodeError> {
    match out {
        Some(d) => if d.len() == dst_size {
            Ok(d)
        } else {
            Err(DecodeError::Decompression)
        },
        None => Err(DecodeError::Decompression),
    }
}

/// The decompressed content of a chunk: codec 0 stores the bytes as they
/// are, codec 1 is LZMA, codecs 2 and 3 are LZ4 blocks; every other codec is
/// unsupported. Whatever the codec, the content has the declared size.
pub open spec fn chunk_decoded(src: Seq<u8>, dst_size: i32, flags: u32) -> Result<
    Seq<u8>,
    DecodeError,
> {
    let codec = codec_of(flags);
    if codec == 0 {
        sized(Some(src), dst_size)
    } else if codec == 1 {
        sized(lzma_decoded(src), dst_size)
    } else if codec == 2 || codec == 3 {
        sized(lz4_decoded(src, dst_size), dst_size)
    } else {
        Err(DecodeError::UnsupportedCodec)
    }
}

/// Accepts a codec's output where it has exactly the declared size.
pub fn check_size(out: Option<Vec<u8>>, dst_size: i32) -> (r: Result<Vec<u8>, DecodeError>)
    ensures
        match sized(
            match out {
                Some(v) => Some(v@),
                None => None,
            },
            dst_size,
        ) {
            Ok(d) => r is Ok && r->Ok_0@ == d,
            Err(e) => r == Err::<Vec<u8>, DecodeError>(e),
        },
        r matches Ok(v) ==> out == Some(v),
{
    match out {
        Some(v) => {
            if dst_size >= 0 && v.len() == dst_size as usize {
                Ok(v)
            } else {
                Err(DecodeError::Decompression)
            }
        },
        None => Err(DecodeError::Decompression),
    }
}

/// Decompresses one chunk with the codec that `flags` selects.
pub fn decompress_chunk(src: &[u8], dst_size: i32, flags: u32) -> (r: Result<Vec<u8>, DecodeError>)
    ensures
        match chunk_decoded(src@, dst_size, flags) {
            Ok(d) => r is Ok && r->Ok_0@ == d,
            Err(e) => r == Err::<Vec<u8>, DecodeError>(e),
        },
{
    let codec = flags & 0x3f;
    if codec == 0 {
        check_size(Some(slice_to_vec(src)), dst_size)
    } else if codec == 1 {
        match lzma_decompress(src) {
            Ok(v) => check_size(Some(v), dst_size),
            Err(_) => check_size(None, dst_size),
        }
    } else if codec == 2 || codec == 3 {
        match lz4_decompress(src, dst_size) {
            Ok(v) => check_size(Some(v), dst_size),
            Err(_) => check_size(None, dst_size),
        }
    } else {
        Err(DecodeError::UnsupportedCodec)
    }
}

} // verus!

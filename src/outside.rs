//! The calls into the block compressor, the content hash and std's UTF-8
//! check, each behind a contract.
use vstd::prelude::*;
use vstd::utf8::{decode_utf8, valid_utf8};

verus! {

#[verifier::external_type_specification]
#[verifier::external_body]
pub struct ExIoError(std::io::Error);

/// What zstd's decoder yields for a byte string: the decoded bytes, or
/// nothing where the string is not a well-formed sequence of frames.
pub uninterp spec fn zstd_decoded(frames: Seq<u8>) -> Option<Seq<u8>>;

/// The 64-bit SeaHash of a byte string, under the crate's default seeds.
pub uninterp spec fn seahash_of(data: Seq<u8>) -> u64;

/// The zstd frame that the streaming encoder produces for `data` at `level`,
/// with content checksums on and `threads` workers, when `data` is copied into
/// it through a `BufReader` of capacity `block`.
pub uninterp spec fn zstd_encoded(data: Seq<u8>, level: i32, threads: u32, block: usize) -> Seq<u8>;

/// Relies on zstd's streaming `Encoder` writing into a `Vec` (`new`,
/// `include_checksum`, `multithread`, `finish`), fed through `std::io::copy`
/// from a `BufReader` of capacity `block`. zstd clamps the level and the
/// worker count, and writing into a `Vec` cannot fail, so it succeeds. The
/// compressor is lossless, and a frame holds at least its magic number.
#[verifier::external_body]
pub(crate) fn zstd_compress(data: &[u8], level: i32, threads: u32, block: usize) -> (r: Result<
    Vec<u8>,
    std::io::Error,
>)
    ensures
        r is Ok,
        r->Ok_0@ == zstd_encoded(data@, level, threads, block),
        zstd_decoded(r->Ok_0@) == Some(data@),
        r->Ok_0@.len() > 0,
{
    let mut encoder = zstd::stream::Encoder::new(Vec::new(), level)?;
    encoder.include_checksum(true)?;
    encoder.multithread(threads)?;
    let mut source = std::io::BufReader::with_capacity(block, data);
    std::io::copy(&mut source, &mut encoder)?;
    encoder.finish()
}

/// Relies on zstd::stream::decode_all: it decodes the frames held in the
/// slice, and fails exactly where they are not well formed.
#[verifier::external_body]
pub(crate) fn zstd_decompress(frames: &[u8]) -> (r: Result<Vec<u8>, std::io::Error>)
    ensures
        r is Ok <==> zstd_decoded(frames@) is Some,
        r is Ok ==> zstd_decoded(frames@) == Some(r->Ok_0@),
{
    zstd::stream::decode_all(frames)
}

/// Relies on seahash::hash: the hash of the bytes under the default seeds,
/// the same value that a fresh `SeaHasher` gives for them.
#[verifier::external_body]
pub(crate) fn content_hash(data: &[u8]) -> (r: u64)
    ensures
        r == seahash_of(data@),
{
    seahash::hash(data)
}

/// Relies on std::str::from_utf8: it accepts exactly the valid UTF-8 byte
/// strings, and the text it gives back has those bytes.
#[verifier::external_body]
pub(crate) fn utf8_to_string(bytes: &[u8]) -> (r: Option<String>)
    ensures
        r is Some <==> valid_utf8(bytes@),
        r is Some ==> r->0@ == decode_utf8(bytes@),
{
    match std::str::from_utf8(bytes) {
        Ok(s) => Some(s.to_owned()),
        Err(_) => None,
    }
}

} // verus!

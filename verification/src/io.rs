//! The compressed stream: a bare zstd stream, without the extras of a
//! standalone frame.

use vstd::prelude::*;

verus! {

/// `std::io::Error`: what the compressor and the decompressor report. The
/// library hands it on and reads nothing in it.
#[verifier::external_type_specification]
#[verifier::external_body]
pub struct ExIoError(std::io::Error);

/// How the stream is framed. The format of a container fixes every field;
/// `FrameOptions::bare()` is that choice.
#[derive(Debug, Clone, Copy)]
pub struct FrameOptions {
    /// A checksum of the content at the end of the frame.
    pub checksum: bool,
    /// The size of the content in the frame's header.
    pub content_size: bool,
    /// The id of the dictionary in the frame's header.
    pub dict_id: bool,
    /// The four magic bytes at the start of the frame.
    pub magic_bytes: bool,
    /// Long-distance matching.
    pub long_distance_matching: bool,
    /// Target size of a compressed block; `None` for no constraint.
    pub target_cblock_size: Option<u32>,
}

impl FrameOptions {
    /// The framing of a container's payload: nothing but the compressed
    /// stream, matched over long distances.
    pub open spec fn spec_bare() -> FrameOptions {
        FrameOptions {
            checksum: false,
            content_size: false,
            dict_id: false,
            magic_bytes: false,
            long_distance_matching: true,
            target_cblock_size: None,
        }
    }

    pub fn bare() -> (r: FrameOptions)
        ensures
            r == FrameOptions::spec_bare(),
    {
        FrameOptions {
            checksum: false,
            content_size: false,
            dict_id: false,
            magic_bytes: false,
            long_distance_matching: true,
            target_cblock_size: None,
        }
    }
}

/// What a `zstd::Encoder` over an empty `Vec<u8>` holds after `finish`,
/// when it was made with `level`, set up with the framing and the pledged
/// size, and fed `data` in one `write_all`; `None` where one of the calls
/// reports an error.
pub uninterp spec fn zstd_stream(
    data: Seq<u8>,
    level: i32,
    pledged_size: u64,
    checksum: bool,
    content_size: bool,
    dict_id: bool,
    magic_bytes: bool,
    long_distance_matching: bool,
    target_cblock_size: Option<u32>,
) -> Option<Seq<u8>>;

/// What can be read from a `zstd::Decoder` over `data`, set up for streams
/// with or without magic bytes, until `limit` bytes are read or the stream
/// ends; `None` where making, setting up or reading the decoder reports an
/// error.
pub uninterp spec fn zstd_prefix(data: Seq<u8>, magic_bytes: bool, limit: u64) -> Option<Seq<u8>>;

/// `zstd::Encoder::new` over an empty vector, the setters of the six
/// framing options and of the pledged size, one `write_all` and `finish`.
/// The contract only names the stream: it depends on the arguments alone.
/// An error of any of the calls is handed on.
#[verifier::external_body]
fn zstd_encode(data: &[u8], level: i32, pledged_size: u64, frame: FrameOptions) -> (r: Result<
    Vec<u8>,
    std::io::Error,
>)
    ensures
        match r {
            Ok(stream) => zstd_stream(
                data@,
                level,
                pledged_size,
                frame.checksum,
                frame.content_size,
                frame.dict_id,
                frame.magic_bytes,
                frame.long_distance_matching,
                frame.target_cblock_size,
            ) == Some(stream@),
            Err(_) => zstd_stream(
                data@,
                level,
                pledged_size,
                frame.checksum,
                frame.content_size,
                frame.dict_id,
                frame.magic_bytes,
                frame.long_distance_matching,
                frame.target_cblock_size,
            ) is None,
        },
{
    let mut encoder = zstd::Encoder::new(Vec::new(), level)?;
    encoder.include_checksum(frame.checksum)?;
    encoder.include_contentsize(frame.content_size)?;
    encoder.include_dictid(frame.dict_id)?;
    encoder.include_magicbytes(frame.magic_bytes)?;
    encoder.long_distance_matching(frame.long_distance_matching)?;
    encoder.set_target_cblock_size(frame.target_cblock_size)?;
    encoder.set_pledged_src_size(Some(pledged_size))?;
    std::io::Write::write_all(&mut encoder, data)?;
    encoder.finish()
}

/// `zstd::Decoder::new` over the bytes, `include_magicbytes`, and
/// `read_to_end` through `Read::take(limit)`. The contract only names what
/// was read: it depends on the arguments alone. An error of any of the
/// calls is handed on.
#[verifier::external_body]
fn zstd_decode(data: &[u8], magic_bytes: bool, limit: u64) -> (r: Result<Vec<u8>, std::io::Error>)
    ensures
        match r {
            Ok(read) => zstd_prefix(data@, magic_bytes, limit) == Some(read@),
            Err(_) => zstd_prefix(data@, magic_bytes, limit) is None,
        },
{
    let mut decoder = zstd::Decoder::new(data)?;
    decoder.include_magicbytes(magic_bytes)?;
    let mut read = Vec::new();
    std::io::Read::read_to_end(&mut std::io::Read::take(decoder, limit), &mut read)?;
    Ok(read)
}

/// `zstd::compression_level_range`, its upper end: the highest level the
/// linked zstd accepts. Nothing is claimed of the number.
#[verifier::external_body]
pub(crate) fn zstd_max_level() -> i32 {
    *zstd::compression_level_range().end()
}

/// `std::io::Error::from` on `ErrorKind::UnexpectedEof`: the error a
/// reader gives when its input ends too early.
#[verifier::external_body]
pub(crate) fn unexpected_eof() -> std::io::Error {
    std::io::Error::from(std::io::ErrorKind::UnexpectedEof)
}

/// The stream of a container's payload: `data` compressed at `level`, bare.
pub open spec fn payload_stream(data: Seq<u8>, level: i32) -> Option<Seq<u8>> {
    zstd_stream(data, level, data.len() as u64, false, false, false, false, true, None)
}

/// The first `len` bytes of what a payload stream holds; `None` where the
/// stream is broken before them, or ends before them.
pub open spec fn payload_prefix(stream: Seq<u8>, len: int) -> Option<Seq<u8>> {
    if len > u64::MAX {
        None
    } else {
        match zstd_prefix(stream, false, len as u64) {
            Some(read) => if read.len() == len {
                Some(read)
            } else {
                None
            },
            None => None,
        }
    }
}

/// Compresses a payload. The stream is bare: the reader must know from the
/// descriptor how many bytes to expect.
pub fn compress_payload(data: &[u8], level: i32) -> (r: Result<Vec<u8>, std::io::Error>)
    ensures
        match r {
            Ok(stream) => payload_stream(data@, level) == Some(stream@),
            Err(_) => payload_stream(data@, level) is None,
        },
{
    zstd_encode(data, level, data.len() as u64, FrameOptions::bare())
}

/// What became of the bytes read from a stream of which `len` were
/// expected: they are the payload if they are that many, and the stream
/// ended too early if not.
pub fn exact_read(read: Vec<u8>, len: u64) -> (r: Result<Vec<u8>, std::io::Error>)
    ensures
        match r {
            Ok(data) => data@ == read@ && read@.len() == len,
            Err(_) => read@.len() != len,
        },
{
    if read.len() as u64 == len {
        Ok(read)
    } else {
        Err(unexpected_eof())
    }
}

/// Decompresses the first `len` bytes of a payload stream. A stream that
/// ends before them is an error, as is a broken one.
pub fn decompress_payload(stream: &[u8], len: u64) -> (r: Result<Vec<u8>, std::io::Error>)
    ensures
        match r {
            Ok(data) => payload_prefix(stream@, len as int) == Some(data@),
            Err(_) => payload_prefix(stream@, len as int) is None,
        },
{
    match zstd_decode(stream, false, len) {
        Ok(read) => exact_read(read, len),
        Err(e) => Err(e),
    }
}

} // verus!

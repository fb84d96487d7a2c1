//! The two checksums of a container: one over the compressed payload, one
//! that binds the header's fields to the descriptor.

use vstd::prelude::*;
use crate::bytes::{le16_bytes, le64_bytes, push_le16, push_le64};
use crate::header::IyesMeshHeader;

verus! {

/// What `rapidhash::rapidhash_inline` returns for `data` under the seed
/// `rapidhash::RAPID_SEED`.
pub uninterp spec fn rapidhash_of(data: Seq<u8>) -> u64;

/// `rapidhash::rapidhash_inline` with the seed `rapidhash::RAPID_SEED`. The
/// contract only names the hash: it depends on the bytes alone.
#[verifier::external_body]
fn rapidhash_bytes(data: &[u8]) -> (r: u64)
    ensures
        r == rapidhash_of(data@),
{
    rapidhash::rapidhash_inline(data, rapidhash::RAPID_SEED)
}

/// The bytes that the checksum of the metadata is taken over: the bytes of
/// the descriptor, then the header's descriptor length, then the header's
/// data checksum, each number little-endian. The header's checksum of the
/// metadata takes no part.
pub open spec fn metadata_bytes(
    descriptor_len: u16,
    data_checksum: u64,
    encoded_descriptor: Seq<u8>,
) -> Seq<u8> {
    encoded_descriptor + le16_bytes(descriptor_len) + le64_bytes(data_checksum)
}

/// The checksum that a header with these two fields must carry over a
/// descriptor with these bytes.
pub open spec fn metadata_checksum_of(
    descriptor_len: u16,
    data_checksum: u64,
    encoded_descriptor: Seq<u8>,
) -> u64 {
    rapidhash_of(metadata_bytes(descriptor_len, data_checksum, encoded_descriptor))
}

/// The checksum of a sequence of bytes. It is the checksum of a compressed
/// payload, and the one hash of this library: whatever is hashed is hashed
/// as one sequence, so that only the bytes count and not the pieces they
/// came in.
pub fn checksum_data(data: &[u8]) -> (r: u64)
    ensures
        r == rapidhash_of(data@),
{
    rapidhash_bytes(data)
}

/// The checksum that binds a header to its descriptor: the checksum of the
/// bytes of the descriptor, the header's descriptor length and the header's
/// data checksum, laid end to end.
pub fn checksum_metadata(header: IyesMeshHeader, encoded_descriptor: &[u8]) -> (r: u64)
    ensures
        r == metadata_checksum_of(header.descriptor_len, header.data_checksum, encoded_descriptor@),
{
    let mut bytes: Vec<u8> = Vec::new();
    bytes.extend_from_slice(encoded_descriptor);
    push_le16(&mut bytes, header.descriptor_len);
    push_le64(&mut bytes, header.data_checksum);
    assert(bytes@ =~= metadata_bytes(
        header.descriptor_len,
        header.data_checksum,
        encoded_descriptor@,
    ));
    checksum_data(bytes.as_slice())
}

} // verus!

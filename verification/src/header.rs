//! The fixed record at the start of a container: 24 bytes, every number
//! little-endian, no padding.

use vstd::prelude::*;
use crate::bytes::{
    le16_at, le16_bytes, le64_at, le64_bytes, push_le16, push_le64, read_le16, read_le64,
};

verus! {

/// The record at the start of a container.
#[derive(Debug, Clone, Copy, PartialEq, Eq, Hash)]
pub struct IyesMeshHeader {
    pub magic: [u8; 4],
    pub version: u16,
    pub descriptor_len: u16,
    pub metadata_checksum: u64,
    pub data_checksum: u64,
}

/// Why bytes are no header.
#[derive(Debug)]
pub enum IyesMeshHeaderParseError {
    Bytemuck(bytemuck::PodCastError),
}

/// `bytemuck::PodCastError`: why a cast was refused. The library hands it
/// on and reads nothing in it.
#[verifier::external_type_specification]
#[verifier::external_body]
pub struct ExPodCastError(bytemuck::PodCastError);

/// `bytemuck::try_from_bytes` to an array of 24 bytes. An array of bytes
/// has alignment one, so the cast succeeds exactly on slices of 24 bytes,
/// and the array then holds the bytes of the slice.
#[verifier::external_body]
fn cast_header_bytes(buf: &[u8]) -> (r: Result<[u8; 24], bytemuck::PodCastError>)
    ensures
        r is Ok <==> buf@.len() == 24,
        r matches Ok(raw) ==> raw@ == buf@,
{
    bytemuck::try_from_bytes::<[u8; 24]>(buf).copied()
}

impl IyesMeshHeader {
    /// The 24 bytes that stand for the header: the tag, the version, the
    /// length of the descriptor, the checksum of the metadata and the
    /// checksum of the data.
    pub open spec fn encoding(self) -> Seq<u8> {
        self.magic@ + le16_bytes(self.version) + le16_bytes(self.descriptor_len) + le64_bytes(
            self.metadata_checksum,
        ) + le64_bytes(self.data_checksum)
    }

    /// Whether the header is what the 24 bytes stand for.
    pub open spec fn decodes(self, bytes: Seq<u8>) -> bool {
        &&& bytes.len() == 24
        &&& self.magic@ == bytes.subrange(0, 4)
        &&& self.version == le16_at(bytes, 4)
        &&& self.descriptor_len == le16_at(bytes, 6)
        &&& self.metadata_checksum == le64_at(bytes, 8)
        &&& self.data_checksum == le64_at(bytes, 16)
    }

    /// Whether the header is that of a container of this format version
    /// with these three fields.
    pub open spec fn is_sealed(
        self,
        descriptor_len: u16,
        metadata_checksum: u64,
        data_checksum: u64,
    ) -> bool {
        &&& self.magic@ == crate::magic_bytes()
        &&& self.version == crate::FORMAT_VERSION
        &&& self.descriptor_len == descriptor_len
        &&& self.metadata_checksum == metadata_checksum
        &&& self.data_checksum == data_checksum
    }

    /// The 24 bytes of the header of a container of this format version
    /// with these three fields.
    pub open spec fn sealed_encoding(
        descriptor_len: u16,
        metadata_checksum: u64,
        data_checksum: u64,
    ) -> Seq<u8> {
        crate::magic_bytes() + le16_bytes(crate::FORMAT_VERSION) + le16_bytes(descriptor_len)
            + le64_bytes(metadata_checksum) + le64_bytes(data_checksum)
    }

    /// The header of a container of this format version.
    pub fn sealed(descriptor_len: u16, metadata_checksum: u64, data_checksum: u64) -> (r:
        IyesMeshHeader)
        ensures
            r.is_sealed(descriptor_len, metadata_checksum, data_checksum),
            r.encoding() == IyesMeshHeader::sealed_encoding(
                descriptor_len,
                metadata_checksum,
                data_checksum,
            ),
    {
        IyesMeshHeader {
            magic: crate::magic(),
            version: crate::FORMAT_VERSION,
            descriptor_len,
            metadata_checksum,
            data_checksum,
        }
    }

    /// Whether a payload with the checksum `actual` is the one the header
    /// was written for. A stored checksum of zero stands for none, and
    /// accepts every payload.
    pub fn accepts_data_checksum(&self, actual: u64) -> (r: bool)
        ensures
            r == (self.data_checksum == 0 || self.data_checksum == actual),
    {
        self.data_checksum == 0 || self.data_checksum == actual
    }

    /// Whether metadata with the checksum `actual` is what the header was
    /// written for.
    pub fn accepts_metadata_checksum(&self, actual: u64) -> (r: bool)
        ensures
            r == (self.metadata_checksum == actual),
    {
        self.metadata_checksum == actual
    }

    /// The number of bytes of an encoded header.
    pub fn encoded_len() -> (r: usize)
        ensures
            r == 24,
    {
        24
    }

    /// Reads a header from exactly 24 bytes. Tag and version are read, not
    /// judged.
    pub fn from_bytes(buf: &[u8]) -> (r: Result<IyesMeshHeader, IyesMeshHeaderParseError>)
        ensures
            match r {
                Ok(header) => header.decodes(buf@),
                Err(_) => buf@.len() != 24,
            },
    {
        let raw = match cast_header_bytes(buf) {
            Ok(raw) => raw,
            Err(e) => {
                return Err(IyesMeshHeaderParseError::Bytemuck(e));
            },
        };
        let magic: [u8; 4] = [raw[0], raw[1], raw[2], raw[3]];
        assert(magic@ =~= buf@.subrange(0, 4));
        let bytes = raw.as_slice();
        Ok(
            IyesMeshHeader {
                magic,
                version: read_le16(bytes, 4),
                descriptor_len: read_le16(bytes, 6),
                metadata_checksum: read_le64(bytes, 8),
                data_checksum: read_le64(bytes, 16),
            },
        )
    }

    /// The 24 bytes that stand for the header.
    pub fn as_bytes(&self) -> (r: Vec<u8>)
        ensures
            r@ == self.encoding(),
            r@.len() == 24,
    {
        let mut out: Vec<u8> = Vec::new();
        out.push(self.magic[0]);
        out.push(self.magic[1]);
        out.push(self.magic[2]);
        out.push(self.magic[3]);
        assert(out@ =~= self.magic@);
        push_le16(&mut out, self.version);
        push_le16(&mut out, self.descriptor_len);
        push_le64(&mut out, self.metadata_checksum);
        push_le64(&mut out, self.data_checksum);
        out
    }
}

} // verus!

//! A codec for a compact binary container of 3D mesh geometry: index and
//! vertex buffers in several numeric layouts, an opaque user-data blob, and
//! the metadata needed to take the packed buffers apart into meshes again.

use vstd::prelude::*;

pub mod attributes;
pub mod bytes;
pub mod checksum;
pub mod descriptor;
pub mod edit;
pub mod header;
pub mod io;
pub mod laws;
pub mod mesh;
pub mod read;
pub mod write;

verus! {

/// The single format version this library reads and writes.
pub const FORMAT_VERSION: u16 = 1;

/// The tag every container file starts with.
pub const MAGIC: [u8; 4] = [0x49, 0x79, 0x4d, 0x41];

/// The bytes of the tag.
pub open spec fn magic_bytes() -> Seq<u8> {
    seq![0x49u8, 0x79u8, 0x4du8, 0x41u8]
}

/// Whether four bytes are the tag of a container.
pub fn is_magic(tag: &[u8; 4]) -> (r: bool)
    ensures
        r == (tag@ == magic_bytes()),
{
    let r = tag[0] == MAGIC[0] && tag[1] == MAGIC[1] && tag[2] == MAGIC[2] && tag[3] == MAGIC[3];
    proof {
        if r {
            assert(tag@ =~= magic_bytes());
        }
    }
    r
}

/// The tag has the bytes of the tag.
pub fn magic() -> (r: [u8; 4])
    ensures
        r@ == magic_bytes(),
{
    let r = MAGIC;
    assert(r@ =~= magic_bytes());
    r
}

} // verus!

//! The schema that describes buffer shapes and per-mesh sub-ranges.

use vstd::prelude::*;
use crate::attributes::{canonical, finds, AttributeMap};
use crate::bytes::sum;

verus! {

/// Where one mesh lies in the shared buffers.
#[derive(Debug, Clone, Copy, PartialEq, Eq)]
pub struct MeshInfo {
    /// First index (if indices present) or vertex (if no indices present)
    pub first: u32,
    /// Number of indices (if present) or vertices (if no indices present)
    pub count: u32,
    /// If indices present, offset to add when indexing
    pub base_vertex: i32,
}

/// Shape of the shared index buffer.
#[derive(Debug, Clone, Copy, PartialEq, Eq)]
pub struct IndicesInfo {
    pub n_indices: u32,
    pub format: IndexFormat,
}

/// What a container holds: how many vertices every attribute buffer has,
/// how long the user data is, where each mesh lies, and the shape of the
/// index buffer and of each attribute buffer.
#[derive(Debug)]
pub struct IyesMeshDescriptor {
    pub n_vertices: u32,
    pub user_data_len: u32,
    pub meshes: Vec<MeshInfo>,
    pub indices: Option<IndicesInfo>,
    pub attributes: AttributeMap<VertexFormat>,
}

/// Why bytes are no descriptor.
#[derive(Debug)]
pub enum IyesMeshDescriptorParseError {
    /// The bytes are not an encoded record.
    Bitcode(bitcode::Error),
    /// The record names a format or a usage that does not exist, or lists
    /// its attributes out of canonical order.
    InvalidValue,
}

/// The role a vertex attribute plays.
#[derive(Debug, Clone, Copy, PartialEq, Eq, Hash, Structural)]
pub enum VertexUsage {
    Custom(u32),
    Position,
    Normal,
    Tangent,
    Uv0,
    Uv1,
    JointIndex,
    JointWeight,
    Color,
}

/// Width of one element of the index buffer.
#[derive(Debug, Clone, Copy, PartialEq, Eq, Hash, Structural)]
pub enum IndexFormat {
    U16,
    U32,
}

/// Layout of one element of a vertex attribute buffer.
#[derive(Debug, Clone, Copy, PartialEq, Eq, Hash, Structural)]
pub enum VertexFormat {
    Float16,
    Float32,
    Float64,
    Float16x2,
    Float16x4,
    Float32x2,
    Float32x3,
    Float32x4,
    Float64x2,
    Float64x3,
    Float64x4,
    Sint8,
    Sint8x2,
    Sint8x4,
    Sint16,
    Sint32,
    Sint16x2,
    Sint16x4,
    Sint32x2,
    Sint32x3,
    Sint32x4,
    Snorm8,
    Snorm8x2,
    Snorm8x4,
    Snorm16,
    Snorm16x2,
    Snorm16x4,
    Uint8,
    Uint8x2,
    Uint8x4,
    Uint16,
    Uint32,
    Uint16x2,
    Uint16x4,
    Uint32x2,
    Uint32x3,
    Uint32x4,
    Unorm8,
    Unorm8x2,
    Unorm8x4,
    Unorm8x4Bgra,
    Unorm16,
    Unorm10_10_10_2,
    Unorm16x2,
    Unorm16x4,
}

impl VertexUsage {
    /// Position of a usage in the canonical order of attribute buffers:
    /// the application-defined slots first, by their number, then the
    /// named roles in the order of their declaration.
    pub open spec fn rank(self) -> int {
        match self {
            VertexUsage::Custom(n) => n as int,
            VertexUsage::Position => 0x1_0000_0000,
            VertexUsage::Normal => 0x1_0000_0001,
            VertexUsage::Tangent => 0x1_0000_0002,
            VertexUsage::Uv0 => 0x1_0000_0003,
            VertexUsage::Uv1 => 0x1_0000_0004,
            VertexUsage::JointIndex => 0x1_0000_0005,
            VertexUsage::JointWeight => 0x1_0000_0006,
            VertexUsage::Color => 0x1_0000_0007,
        }
    }

    /// The usage with a given rank, if there is one.
    pub open spec fn of_rank(rank: int) -> Option<VertexUsage> {
        if 0 <= rank < 0x1_0000_0000 {
            Some(VertexUsage::Custom(rank as u32))
        } else if rank == 0x1_0000_0000 {
            Some(VertexUsage::Position)
        } else if rank == 0x1_0000_0001 {
            Some(VertexUsage::Normal)
        } else if rank == 0x1_0000_0002 {
            Some(VertexUsage::Tangent)
        } else if rank == 0x1_0000_0003 {
            Some(VertexUsage::Uv0)
        } else if rank == 0x1_0000_0004 {
            Some(VertexUsage::Uv1)
        } else if rank == 0x1_0000_0005 {
            Some(VertexUsage::JointIndex)
        } else if rank == 0x1_0000_0006 {
            Some(VertexUsage::JointWeight)
        } else if rank == 0x1_0000_0007 {
            Some(VertexUsage::Color)
        } else {
            None
        }
    }

    /// The rank as a machine integer: the key attributes are ordered by.
    pub fn order_key(self) -> (r: u64)
        ensures
            r == self.rank(),
    {
        match self {
            VertexUsage::Custom(n) => n as u64,
            VertexUsage::Position => 0x1_0000_0000,
            VertexUsage::Normal => 0x1_0000_0001,
            VertexUsage::Tangent => 0x1_0000_0002,
            VertexUsage::Uv0 => 0x1_0000_0003,
            VertexUsage::Uv1 => 0x1_0000_0004,
            VertexUsage::JointIndex => 0x1_0000_0005,
            VertexUsage::JointWeight => 0x1_0000_0006,
            VertexUsage::Color => 0x1_0000_0007,
        }
    }

    /// The usage that `order_key` maps to `key`; `None` where no usage does.
    pub fn from_order_key(key: u64) -> (r: Option<VertexUsage>)
        ensures
            r == VertexUsage::of_rank(key as int),
    {
        if key < 0x1_0000_0000 {
            Some(VertexUsage::Custom(key as u32))
        } else if key == 0x1_0000_0000 {
            Some(VertexUsage::Position)
        } else if key == 0x1_0000_0001 {
            Some(VertexUsage::Normal)
        } else if key == 0x1_0000_0002 {
            Some(VertexUsage::Tangent)
        } else if key == 0x1_0000_0003 {
            Some(VertexUsage::Uv0)
        } else if key == 0x1_0000_0004 {
            Some(VertexUsage::Uv1)
        } else if key == 0x1_0000_0005 {
            Some(VertexUsage::JointIndex)
        } else if key == 0x1_0000_0006 {
            Some(VertexUsage::JointWeight)
        } else if key == 0x1_0000_0007 {
            Some(VertexUsage::Color)
        } else {
            None
        }
    }

    /// A rank that some usage has is the rank of the usage it leads to.
    pub proof fn lemma_of_rank(rank: int)
        ensures
            VertexUsage::of_rank(rank) matches Some(usage) ==> usage.rank() == rank,
    {
    }

    /// Two usages with the same rank are the same usage, and the rank of a
    /// usage leads back to it.
    pub proof fn lemma_rank_injective(a: VertexUsage, b: VertexUsage)
        ensures
            a.rank() == b.rank() ==> a == b,
            VertexUsage::of_rank(a.rank()) == Some(a),
            0 <= a.rank() <= 0x1_0000_0007,
    {
    }
}

impl IndexFormat {
    /// Byte size of one index.
    pub open spec fn spec_size(self) -> nat {
        match self {
            IndexFormat::U16 => 2,
            IndexFormat::U32 => 4,
        }
    }

    /// Returns the byte size of the format.
    pub fn size(self) -> (r: usize)
        ensures
            r == self.spec_size(),
    {
        match self {
            IndexFormat::U16 => 2,
            IndexFormat::U32 => 4,
        }
    }

    /// The number that stands for the format in an encoded descriptor.
    pub open spec fn spec_code(self) -> u8 {
        match self {
            IndexFormat::U16 => 0,
            IndexFormat::U32 => 1,
        }
    }

    /// The format a code stands for, if any.
    pub open spec fn spec_from_code(code: u8) -> Option<IndexFormat> {
        if code == 0 {
            Some(IndexFormat::U16)
        } else if code == 1 {
            Some(IndexFormat::U32)
        } else {
            None
        }
    }

    pub fn code(self) -> (r: u8)
        ensures
            r == self.spec_code(),
            IndexFormat::spec_from_code(r) == Some(self),
    {
        match self {
            IndexFormat::U16 => 0,
            IndexFormat::U32 => 1,
        }
    }

    pub fn from_code(code: u8) -> (r: Option<IndexFormat>)
        ensures
            r == IndexFormat::spec_from_code(code),
    {
        if code == 0 {
            Some(IndexFormat::U16)
        } else if code == 1 {
            Some(IndexFormat::U32)
        } else {
            None
        }
    }
}

impl VertexFormat {
    /// Byte size of one element.
    pub open spec fn spec_size(self) -> nat {
        match self {
            VertexFormat::Float16 => 2,
            VertexFormat::Float32 => 4,
            VertexFormat::Float64 => 8,
            VertexFormat::Float16x2 => 4,
            VertexFormat::Float16x4 => 8,
            VertexFormat::Float32x2 => 8,
            VertexFormat::Float32x3 => 12,
            VertexFormat::Float32x4 => 16,
            VertexFormat::Float64x2 => 16,
            VertexFormat::Float64x3 => 24,
            VertexFormat::Float64x4 => 32,
            VertexFormat::Sint8 => 1,
            VertexFormat::Sint8x2 => 2,
            VertexFormat::Sint8x4 => 4,
            VertexFormat::Sint16 => 2,
            VertexFormat::Sint32 => 4,
            VertexFormat::Sint16x2 => 4,
            VertexFormat::Sint16x4 => 8,
            VertexFormat::Sint32x2 => 8,
            VertexFormat::Sint32x3 => 12,
            VertexFormat::Sint32x4 => 16,
            VertexFormat::Snorm8 => 1,
            VertexFormat::Snorm8x2 => 2,
            VertexFormat::Snorm8x4 => 4,
            VertexFormat::Snorm16 => 2,
            VertexFormat::Snorm16x2 => 4,
            VertexFormat::Snorm16x4 => 8,
            VertexFormat::Uint8 => 1,
            VertexFormat::Uint8x2 => 2,
            VertexFormat::Uint8x4 => 4,
            VertexFormat::Uint16 => 2,
            VertexFormat::Uint32 => 4,
            VertexFormat::Uint16x2 => 4,
            VertexFormat::Uint16x4 => 8,
            VertexFormat::Uint32x2 => 8,
            VertexFormat::Uint32x3 => 12,
            VertexFormat::Uint32x4 => 16,
            VertexFormat::Unorm8 => 1,
            VertexFormat::Unorm8x2 => 2,
            VertexFormat::Unorm8x4 => 4,
            VertexFormat::Unorm8x4Bgra => 4,
            VertexFormat::Unorm16 => 2,
            VertexFormat::Unorm10_10_10_2 => 4,
            VertexFormat::Unorm16x2 => 4,
            VertexFormat::Unorm16x4 => 8,
        }
    }

    /// Returns the byte size of the format.
    pub fn size(self) -> (r: usize)
        ensures
            r == self.spec_size(),
            1 <= r <= 32,
    {
        match self {
            VertexFormat::Sint8
            | VertexFormat::Snorm8
            | VertexFormat::Uint8
            | VertexFormat::Unorm8 => 1,
            VertexFormat::Float16
            | VertexFormat::Sint8x2
            | VertexFormat::Sint16
            | VertexFormat::Snorm8x2
            | VertexFormat::Snorm16
            | VertexFormat::Uint8x2
            | VertexFormat::Uint16
            | VertexFormat::Unorm8x2
            | VertexFormat::Unorm16 => 2,
            VertexFormat::Float32
            | VertexFormat::Float16x2
            | VertexFormat::Sint8x4
            | VertexFormat::Sint32
            | VertexFormat::Sint16x2
            | VertexFormat::Snorm8x4
            | VertexFormat::Snorm16x2
            | VertexFormat::Uint8x4
            | VertexFormat::Uint32
            | VertexFormat::Uint16x2
            | VertexFormat::Unorm8x4
            | VertexFormat::Unorm8x4Bgra
            | VertexFormat::Unorm10_10_10_2
            | VertexFormat::Unorm16x2 => 4,
            VertexFormat::Float64
            | VertexFormat::Float16x4
            | VertexFormat::Float32x2
            | VertexFormat::Sint16x4
            | VertexFormat::Sint32x2
            | VertexFormat::Snorm16x4
            | VertexFormat::Uint16x4
            | VertexFormat::Uint32x2
            | VertexFormat::Unorm16x4 => 8,
            VertexFormat::Float32x3
            | VertexFormat::Sint32x3
            | VertexFormat::Uint32x3 => 12,
            VertexFormat::Float32x4
            | VertexFormat::Float64x2
            | VertexFormat::Sint32x4
            | VertexFormat::Uint32x4 => 16,
            VertexFormat::Float64x3 => 24,
            VertexFormat::Float64x4 => 32,
        }
    }

    /// The number that stands for the format in an encoded descriptor: its
    /// place in the declaration, from zero.
    pub open spec fn spec_code(self) -> u8 {
        match self {
            VertexFormat::Float16 => 0,
            VertexFormat::Float32 => 1,
            VertexFormat::Float64 => 2,
            VertexFormat::Float16x2 => 3,
            VertexFormat::Float16x4 => 4,
            VertexFormat::Float32x2 => 5,
            VertexFormat::Float32x3 => 6,
            VertexFormat::Float32x4 => 7,
            VertexFormat::Float64x2 => 8,
            VertexFormat::Float64x3 => 9,
            VertexFormat::Float64x4 => 10,
            VertexFormat::Sint8 => 11,
            VertexFormat::Sint8x2 => 12,
            VertexFormat::Sint8x4 => 13,
            VertexFormat::Sint16 => 14,
            VertexFormat::Sint32 => 15,
            VertexFormat::Sint16x2 => 16,
            VertexFormat::Sint16x4 => 17,
            VertexFormat::Sint32x2 => 18,
            VertexFormat::Sint32x3 => 19,
            VertexFormat::Sint32x4 => 20,
            VertexFormat::Snorm8 => 21,
            VertexFormat::Snorm8x2 => 22,
            VertexFormat::Snorm8x4 => 23,
            VertexFormat::Snorm16 => 24,
            VertexFormat::Snorm16x2 => 25,
            VertexFormat::Snorm16x4 => 26,
            VertexFormat::Uint8 => 27,
            VertexFormat::Uint8x2 => 28,
            VertexFormat::Uint8x4 => 29,
            VertexFormat::Uint16 => 30,
            VertexFormat::Uint32 => 31,
            VertexFormat::Uint16x2 => 32,
            VertexFormat::Uint16x4 => 33,
            VertexFormat::Uint32x2 => 34,
            VertexFormat::Uint32x3 => 35,
            VertexFormat::Uint32x4 => 36,
            VertexFormat::Unorm8 => 37,
            VertexFormat::Unorm8x2 => 38,
            VertexFormat::Unorm8x4 => 39,
            VertexFormat::Unorm8x4Bgra => 40,
            VertexFormat::Unorm16 => 41,
            VertexFormat::Unorm10_10_10_2 => 42,
            VertexFormat::Unorm16x2 => 43,
            VertexFormat::Unorm16x4 => 44,
        }
    }

    /// The format a code stands for, if any.
    pub open spec fn spec_from_code(code: u8) -> Option<VertexFormat> {
        match code {
            0 => Some(VertexFormat::Float16),
            1 => Some(VertexFormat::Float32),
            2 => Some(VertexFormat::Float64),
            3 => Some(VertexFormat::Float16x2),
            4 => Some(VertexFormat::Float16x4),
            5 => Some(VertexFormat::Float32x2),
            6 => Some(VertexFormat::Float32x3),
            7 => Some(VertexFormat::Float32x4),
            8 => Some(VertexFormat::Float64x2),
            9 => Some(VertexFormat::Float64x3),
            10 => Some(VertexFormat::Float64x4),
            11 => Some(VertexFormat::Sint8),
            12 => Some(VertexFormat::Sint8x2),
            13 => Some(VertexFormat::Sint8x4),
            14 => Some(VertexFormat::Sint16),
            15 => Some(VertexFormat::Sint32),
            16 => Some(VertexFormat::Sint16x2),
            17 => Some(VertexFormat::Sint16x4),
            18 => Some(VertexFormat::Sint32x2),
            19 => Some(VertexFormat::Sint32x3),
            20 => Some(VertexFormat::Sint32x4),
            21 => Some(VertexFormat::Snorm8),
            22 => Some(VertexFormat::Snorm8x2),
            23 => Some(VertexFormat::Snorm8x4),
            24 => Some(VertexFormat::Snorm16),
            25 => Some(VertexFormat::Snorm16x2),
            26 => Some(VertexFormat::Snorm16x4),
            27 => Some(VertexFormat::Uint8),
            28 => Some(VertexFormat::Uint8x2),
            29 => Some(VertexFormat::Uint8x4),
            30 => Some(VertexFormat::Uint16),
            31 => Some(VertexFormat::Uint32),
            32 => Some(VertexFormat::Uint16x2),
            33 => Some(VertexFormat::Uint16x4),
            34 => Some(VertexFormat::Uint32x2),
            35 => Some(VertexFormat::Uint32x3),
            36 => Some(VertexFormat::Uint32x4),
            37 => Some(VertexFormat::Unorm8),
            38 => Some(VertexFormat::Unorm8x2),
            39 => Some(VertexFormat::Unorm8x4),
            40 => Some(VertexFormat::Unorm8x4Bgra),
            41 => Some(VertexFormat::Unorm16),
            42 => Some(VertexFormat::Unorm10_10_10_2),
            43 => Some(VertexFormat::Unorm16x2),
            44 => Some(VertexFormat::Unorm16x4),
            _ => None,
        }
    }

    pub fn code(self) -> (r: u8)
        ensures
            r == self.spec_code(),
            VertexFormat::spec_from_code(r) == Some(self),
    {
        match self {
            VertexFormat::Float16 => 0,
            VertexFormat::Float32 => 1,
            VertexFormat::Float64 => 2,
            VertexFormat::Float16x2 => 3,
            VertexFormat::Float16x4 => 4,
            VertexFormat::Float32x2 => 5,
            VertexFormat::Float32x3 => 6,
            VertexFormat::Float32x4 => 7,
            VertexFormat::Float64x2 => 8,
            VertexFormat::Float64x3 => 9,
            VertexFormat::Float64x4 => 10,
            VertexFormat::Sint8 => 11,
            VertexFormat::Sint8x2 => 12,
            VertexFormat::Sint8x4 => 13,
            VertexFormat::Sint16 => 14,
            VertexFormat::Sint32 => 15,
            VertexFormat::Sint16x2 => 16,
            VertexFormat::Sint16x4 => 17,
            VertexFormat::Sint32x2 => 18,
            VertexFormat::Sint32x3 => 19,
            VertexFormat::Sint32x4 => 20,
            VertexFormat::Snorm8 => 21,
            VertexFormat::Snorm8x2 => 22,
            VertexFormat::Snorm8x4 => 23,
            VertexFormat::Snorm16 => 24,
            VertexFormat::Snorm16x2 => 25,
            VertexFormat::Snorm16x4 => 26,
            VertexFormat::Uint8 => 27,
            VertexFormat::Uint8x2 => 28,
            VertexFormat::Uint8x4 => 29,
            VertexFormat::Uint16 => 30,
            VertexFormat::Uint32 => 31,
            VertexFormat::Uint16x2 => 32,
            VertexFormat::Uint16x4 => 33,
            VertexFormat::Uint32x2 => 34,
            VertexFormat::Uint32x3 => 35,
            VertexFormat::Uint32x4 => 36,
            VertexFormat::Unorm8 => 37,
            VertexFormat::Unorm8x2 => 38,
            VertexFormat::Unorm8x4 => 39,
            VertexFormat::Unorm8x4Bgra => 40,
            VertexFormat::Unorm16 => 41,
            VertexFormat::Unorm10_10_10_2 => 42,
            VertexFormat::Unorm16x2 => 43,
            VertexFormat::Unorm16x4 => 44,
        }
    }

    pub fn from_code(code: u8) -> (r: Option<VertexFormat>)
        ensures
            r == VertexFormat::spec_from_code(code),
            r matches Some(f) ==> f.spec_code() == code,
    {
        match code {
            0 => Some(VertexFormat::Float16),
            1 => Some(VertexFormat::Float32),
            2 => Some(VertexFormat::Float64),
            3 => Some(VertexFormat::Float16x2),
            4 => Some(VertexFormat::Float16x4),
            5 => Some(VertexFormat::Float32x2),
            6 => Some(VertexFormat::Float32x3),
            7 => Some(VertexFormat::Float32x4),
            8 => Some(VertexFormat::Float64x2),
            9 => Some(VertexFormat::Float64x3),
            10 => Some(VertexFormat::Float64x4),
            11 => Some(VertexFormat::Sint8),
            12 => Some(VertexFormat::Sint8x2),
            13 => Some(VertexFormat::Sint8x4),
            14 => Some(VertexFormat::Sint16),
            15 => Some(VertexFormat::Sint32),
            16 => Some(VertexFormat::Sint16x2),
            17 => Some(VertexFormat::Sint16x4),
            18 => Some(VertexFormat::Sint32x2),
            19 => Some(VertexFormat::Sint32x3),
            20 => Some(VertexFormat::Sint32x4),
            21 => Some(VertexFormat::Snorm8),
            22 => Some(VertexFormat::Snorm8x2),
            23 => Some(VertexFormat::Snorm8x4),
            24 => Some(VertexFormat::Snorm16),
            25 => Some(VertexFormat::Snorm16x2),
            26 => Some(VertexFormat::Snorm16x4),
            27 => Some(VertexFormat::Uint8),
            28 => Some(VertexFormat::Uint8x2),
            29 => Some(VertexFormat::Uint8x4),
            30 => Some(VertexFormat::Uint16),
            31 => Some(VertexFormat::Uint32),
            32 => Some(VertexFormat::Uint16x2),
            33 => Some(VertexFormat::Uint16x4),
            34 => Some(VertexFormat::Uint32x2),
            35 => Some(VertexFormat::Uint32x3),
            36 => Some(VertexFormat::Uint32x4),
            37 => Some(VertexFormat::Unorm8),
            38 => Some(VertexFormat::Unorm8x2),
            39 => Some(VertexFormat::Unorm8x4),
            40 => Some(VertexFormat::Unorm8x4Bgra),
            41 => Some(VertexFormat::Unorm16),
            42 => Some(VertexFormat::Unorm10_10_10_2),
            43 => Some(VertexFormat::Unorm16x2),
            44 => Some(VertexFormat::Unorm16x4),
            _ => None,
        }
    }

    /// The code of a format leads back to it.
    pub proof fn lemma_code_round_trip(self)
        ensures
            VertexFormat::spec_from_code(self.spec_code()) == Some(self),
    {
    }

    /// Every format has between one and thirty-two bytes.
    pub proof fn lemma_size_bounds(self)
        ensures
            1 <= self.spec_size() <= 32,
    {
    }
}

/// A descriptor as the plain record that is encoded: the two counts, the
/// meshes as `(first, count, base_vertex)`, the index buffer as
/// `(n_indices, format code)`, and the attributes as `(usage rank, format
/// code)` in canonical order.
pub type DescriptorRecord = (u32, u32, Vec<(u32, u32, i32)>, Option<(u32, u8)>, Vec<(u64, u8)>);

/// The mathematical value of a `DescriptorRecord`.
pub type RecordValue = (u32, u32, Seq<(u32, u32, i32)>, Option<(u32, u8)>, Seq<(u64, u8)>);

/// The value of a record.
pub open spec fn record_value(record: DescriptorRecord) -> RecordValue {
    (record.0, record.1, record.2@, record.3, record.4@)
}

/// The bytes `bitcode::encode` gives for a record.
pub uninterp spec fn bitcode_encoded(
    n_vertices: u32,
    user_data_len: u32,
    meshes: Seq<(u32, u32, i32)>,
    indices: Option<(u32, u8)>,
    attributes: Seq<(u64, u8)>,
) -> Seq<u8>;

/// The record `bitcode::decode` reads from bytes; `None` where it reports
/// an error.
pub uninterp spec fn bitcode_decoded(bytes: Seq<u8>) -> Option<RecordValue>;

/// `bitcode::Error`: why bytes were not decoded. The library hands it on
/// and reads nothing in it.
#[verifier::external_type_specification]
#[verifier::external_body]
pub struct ExBitcodeError(bitcode::Error);

/// `bitcode::encode` on a record. The contract only names the bytes: they
/// depend on the record alone.
#[verifier::external_body]
fn bitcode_encode(record: &DescriptorRecord) -> (r: Vec<u8>)
    ensures
        r@ == bitcode_encoded(record.0, record.1, record.2@, record.3, record.4@),
{
    bitcode::encode(record)
}

/// `bitcode::decode` to a record. The contract only names the outcome: it
/// depends on the bytes alone, and an error stands for no record.
#[verifier::external_body]
fn bitcode_decode(bytes: &[u8]) -> (r: Result<DescriptorRecord, bitcode::Error>)
    ensures
        match r {
            Ok(record) => bitcode_decoded(bytes@) == Some(record_value(record)),
            Err(_) => bitcode_decoded(bytes@) is None,
        },
{
    bitcode::decode(bytes)
}

/// Whether a record stands for a descriptor: its format codes and usage
/// ranks exist, and its attributes are in canonical order.
pub open spec fn record_valid(record: RecordValue) -> bool {
    &&& record.3 matches Some(indices) ==> IndexFormat::spec_from_code(indices.1) is Some
    &&& forall|a: int|
        0 <= a < record.4.len() ==> {
            &&& VertexUsage::of_rank((#[trigger] record.4[a]).0 as int) is Some
            &&& VertexFormat::spec_from_code(record.4[a].1) is Some
        }
    &&& forall|a: int, b: int| 0 <= a < b < record.4.len() ==> record.4[a].0 < record.4[b].0
}

impl MeshInfo {
    /// The mesh as it stands in a record.
    pub open spec fn triple(self) -> (u32, u32, i32) {
        (self.first, self.count, self.base_vertex)
    }
}

impl Default for MeshInfo {
    fn default() -> (r: Self)
        ensures
            r.first == 0,
            r.count == 0,
            r.base_vertex == 0,
    {
        MeshInfo { first: 0, count: 0, base_vertex: 0 }
    }
}

impl IyesMeshDescriptor {
    /// Byte size of the buffer of the attribute at place `a` of the
    /// canonical order: the size of its format times the vertex count.
    pub open spec fn vertex_buf_size(self, a: int) -> int {
        self.attributes@[a].1.spec_size() * self.n_vertices
    }

    /// Byte sizes of the attribute buffers, in canonical order.
    pub open spec fn vertex_buf_sizes(self) -> Seq<int> {
        Seq::new(self.attributes@.len(), |a: int| self.vertex_buf_size(a))
    }

    /// Byte size of the index buffer, and zero where there is none.
    pub open spec fn index_buf_size(self) -> int {
        match self.indices {
            Some(info) => info.format.spec_size() * info.n_indices,
            None => 0,
        }
    }

    /// Byte size of all attribute buffers together.
    pub open spec fn all_vertex_buf_sizes(self) -> int {
        sum(self.vertex_buf_sizes())
    }

    /// Byte size of the index buffer and all attribute buffers together.
    pub open spec fn all_buf_sizes(self) -> int {
        self.index_buf_size() + self.all_vertex_buf_sizes()
    }

    /// Byte size of the whole uncompressed payload.
    pub open spec fn total_raw_data_size(self) -> int {
        self.all_buf_sizes() + self.user_data_len
    }

    /// The descriptor as the record that is encoded.
    pub open spec fn record(self) -> RecordValue {
        (
            self.n_vertices,
            self.user_data_len,
            Seq::new(self.meshes@.len(), |i: int| self.meshes@[i].triple()),
            match self.indices {
                Some(info) => Some((info.n_indices, info.format.spec_code())),
                None => None,
            },
            Seq::new(
                self.attributes@.len(),
                |a: int| (self.attributes@[a].0.rank() as u64, self.attributes@[a].1.spec_code()),
            ),
        )
    }

    /// Sizes of attribute buffers are not negative, and the size of all of
    /// them up to some place is no more than the size of all.
    pub proof fn lemma_sizes(self, a: int)
        requires
            0 <= a <= self.attributes@.len(),
        ensures
            0 <= self.index_buf_size(),
            0 <= sum(self.vertex_buf_sizes().take(a)) <= self.all_vertex_buf_sizes(),
            forall|k: int|
                0 <= k < self.attributes@.len() ==> 0 <= #[trigger] self.vertex_buf_size(k) <= 32
                    * self.n_vertices,
    {
        assert forall|k: int| 0 <= k < self.attributes@.len() implies 0
            <= #[trigger] self.vertex_buf_size(k) <= 32 * self.n_vertices by {
            let size = self.attributes@[k].1.spec_size();
            self.attributes@[k].1.lemma_size_bounds();
            assert(0 <= size * self.n_vertices <= 32 * self.n_vertices) by (nonlinear_arith)
                requires
                    1 <= size <= 32,
                    0 <= self.n_vertices,
            ;
        }
        let sizes = self.vertex_buf_sizes();
        assert forall|k: int| 0 <= k < sizes.len() implies sizes[k] >= 0 by {
            assert(sizes[k] == self.vertex_buf_size(k));
        }
        crate::bytes::lemma_sum_take_monotonic(sizes, a, sizes.len() as int);
        crate::bytes::lemma_sum_take_all(sizes);
        match self.indices {
            Some(info) => {
                assert(0 <= info.format.spec_size() * info.n_indices) by (nonlinear_arith)
                    requires
                        0 <= info.format.spec_size(),
                        0 <= info.n_indices,
                ;
            },
            None => {},
        }
    }

    /// Byte size of the buffer of `buf`; `None` where the descriptor has no
    /// such attribute.
    pub fn compute_vertex_buf_size(&self, buf: VertexUsage) -> (r: Option<u64>)
        ensures
            match finds(self.attributes@, buf) {
                Some(format) => r == Some((format.spec_size() * self.n_vertices) as u64),
                None => r is None,
            },
            r matches Some(size) ==> size <= 32 * self.n_vertices,
    {
        match self.attributes.get(buf) {
            Some(format) => {
                let size = format.size() as u64;
                assert(size * self.n_vertices <= 32 * self.n_vertices) by (nonlinear_arith)
                    requires
                        size <= 32,
                        0 <= self.n_vertices,
                ;
                Some(size * (self.n_vertices as u64))
            },
            None => None,
        }
    }

    /// Byte size of the index buffer; `None` where there is none.
    pub fn compute_index_buf_size(&self) -> (r: Option<u64>)
        ensures
            match self.indices {
                Some(info) => r == Some((info.format.spec_size() * info.n_indices) as u64),
                None => r is None,
            },
            r matches Some(size) ==> size == self.index_buf_size() && size <= 4 * u32::MAX,
    {
        match self.indices {
            Some(info) => {
                let size = info.format.size() as u64;
                assert(size * info.n_indices <= 4 * info.n_indices) by (nonlinear_arith)
                    requires
                        size <= 4,
                        0 <= info.n_indices,
                ;
                Some(size * (info.n_indices as u64))
            },
            None => None,
        }
    }

    /// Byte size of all attribute buffers together; `None` where it does
    /// not fit in 64 bits.
    pub fn checked_all_vertex_buf_sizes(&self) -> (r: Option<u64>)
        ensures
            match r {
                Some(size) => size == self.all_vertex_buf_sizes(),
                None => self.all_vertex_buf_sizes() > u64::MAX,
            },
    {
        let entries = self.attributes.as_slice();
        let ghost sizes = self.vertex_buf_sizes();
        let mut total: u64 = 0;
        let mut a: usize = 0;
        proof {
            crate::bytes::lemma_sum_take_all(sizes);
        }
        while a < entries.len()
            invariant
                0 <= a <= entries@.len(),
                entries@ == self.attributes@,
                sizes == self.vertex_buf_sizes(),
                total == sum(sizes.take(a as int)),
            decreases entries@.len() - a,
        {
            let size = entries[a].1.size() as u64;
            proof {
                self.lemma_sizes(a as int + 1);
                self.lemma_sizes(a as int);
                crate::bytes::lemma_sum_take_next(sizes, a as int);
                assert(sizes[a as int] == self.vertex_buf_size(a as int));
            }
            let bytes = size * (self.n_vertices as u64);
            match total.checked_add(bytes) {
                Some(next) => {
                    total = next;
                },
                None => {
                    return None;
                },
            }
            a += 1;
        }
        Some(total)
    }

    /// Byte size of the whole uncompressed payload; `None` where it does
    /// not fit in 64 bits.
    pub fn checked_total_raw_data_size(&self) -> (r: Option<u64>)
        ensures
            match r {
                Some(size) => size == self.total_raw_data_size(),
                None => self.total_raw_data_size() > u64::MAX,
            },
    {
        proof {
            self.lemma_sizes(0);
        }
        let index_size = match self.compute_index_buf_size() {
            Some(size) => size,
            None => 0,
        };
        match self.checked_all_vertex_buf_sizes() {
            Some(vertex_size) => match vertex_size.checked_add(index_size) {
                Some(buffers) => buffers.checked_add(self.user_data_len as u64),
                None => None,
            },
            None => None,
        }
    }

    /// Byte size of all attribute buffers together.
    pub fn compute_all_vertex_buf_sizes(&self) -> (r: u64)
        requires
            self.all_vertex_buf_sizes() <= u64::MAX,
        ensures
            r == self.all_vertex_buf_sizes(),
    {
        match self.checked_all_vertex_buf_sizes() {
            Some(size) => size,
            None => 0,
        }
    }

    /// Byte size of the index buffer and all attribute buffers together.
    pub fn compute_all_buf_sizes(&self) -> (r: u64)
        requires
            self.all_buf_sizes() <= u64::MAX,
        ensures
            r == self.all_buf_sizes(),
    {
        proof {
            self.lemma_sizes(0);
        }
        let index_size = match self.compute_index_buf_size() {
            Some(size) => size,
            None => 0,
        };
        index_size + self.compute_all_vertex_buf_sizes()
    }

    /// Byte size of the whole uncompressed payload.
    pub fn compute_total_raw_data_size(&self) -> (r: u64)
        requires
            self.total_raw_data_size() <= u64::MAX,
        ensures
            r == self.total_raw_data_size(),
    {
        proof {
            self.lemma_sizes(0);
        }
        self.compute_all_buf_sizes() + self.user_data_len as u64
    }

    /// The descriptor as the record that is encoded.
    pub fn to_record(&self) -> (r: DescriptorRecord)
        ensures
            record_value(r) == self.record(),
            record_valid(self.record()),
    {
        let mut meshes: Vec<(u32, u32, i32)> = Vec::new();
        let mut i: usize = 0;
        while i < self.meshes.len()
            invariant
                0 <= i <= self.meshes@.len(),
                meshes@ == self.record().2.take(i as int),
            decreases self.meshes@.len() - i,
        {
            let m = &self.meshes[i];
            meshes.push((m.first, m.count, m.base_vertex));
            assert(meshes@ =~= self.record().2.take(i + 1));
            i += 1;
        }
        assert(meshes@ =~= self.record().2);
        let indices = match self.indices {
            Some(info) => Some((info.n_indices, info.format.code())),
            None => None,
        };
        let entries = self.attributes.as_slice();
        let mut attributes: Vec<(u64, u8)> = Vec::new();
        let mut a: usize = 0;
        while a < entries.len()
            invariant
                0 <= a <= entries@.len(),
                entries@ == self.attributes@,
                attributes@ == self.record().4.take(a as int),
            decreases entries@.len() - a,
        {
            let e = &entries[a];
            attributes.push((e.0.order_key(), e.1.code()));
            assert(attributes@ =~= self.record().4.take(a + 1));
            a += 1;
        }
        assert(attributes@ =~= self.record().4);
        proof {
            let rec = self.record();
            assert forall|a: int| 0 <= a < rec.4.len() implies {
                &&& VertexUsage::of_rank((#[trigger] rec.4[a]).0 as int) is Some
                &&& VertexFormat::spec_from_code(rec.4[a].1) is Some
            } by {
                VertexUsage::lemma_rank_injective(self.attributes@[a].0, self.attributes@[a].0);
                self.attributes@[a].1.lemma_code_round_trip();
            }
            assert forall|a: int, b: int| 0 <= a < b < rec.4.len() implies rec.4[a].0
                < rec.4[b].0 by {
                VertexUsage::lemma_rank_injective(self.attributes@[a].0, self.attributes@[b].0);
                assert(self.attributes@[a].0.rank() < self.attributes@[b].0.rank());
            }
        }
        (self.n_vertices, self.user_data_len, meshes, indices, attributes)
    }

    /// The descriptor a record stands for.
    pub fn from_record(record: DescriptorRecord) -> (r: Result<
        IyesMeshDescriptor,
        IyesMeshDescriptorParseError,
    >)
        ensures
            match r {
                Ok(d) => record_valid(record_value(record)) && d.record() == record_value(record),
                Err(e) => !record_valid(record_value(record))
                    && e is InvalidValue,
            },
    {
        let n_vertices = record.0;
        let user_data_len = record.1;
        let listed_meshes = &record.2;
        let listed_indices = record.3;
        let listed_attributes = &record.4;
        let ghost value = record_value(record);
        let indices = match listed_indices {
            Some((n_indices, code)) => match IndexFormat::from_code(code) {
                Some(format) => Some(IndicesInfo { n_indices, format }),
                None => {
                    return Err(IyesMeshDescriptorParseError::InvalidValue);
                },
            },
            None => None,
        };
        let mut meshes: Vec<MeshInfo> = Vec::new();
        let mut i: usize = 0;
        while i < listed_meshes.len()
            invariant
                0 <= i <= listed_meshes@.len(),
                meshes@.len() == i,
                forall|k: int| 0 <= k < i ==> (#[trigger] meshes@[k]).triple() == listed_meshes@[k],
            decreases listed_meshes@.len() - i,
        {
            let m = &listed_meshes[i];
            meshes.push(MeshInfo { first: m.0, count: m.1, base_vertex: m.2 });
            i += 1;
        }
        let mut attributes: AttributeMap<VertexFormat> = AttributeMap::new();
        let mut a: usize = 0;
        while a < listed_attributes.len()
            invariant
                0 <= a <= listed_attributes@.len(),
                listed_attributes@ == record_value(record).4,
                canonical(attributes@),
                attributes@.len() == a,
                forall|k: int|
                    0 <= k < a ==> {
                        &&& (#[trigger] attributes@[k]).0.rank() == listed_attributes@[k].0
                        &&& attributes@[k].1.spec_code() == listed_attributes@[k].1
                    },
                forall|k: int|
                    0 <= k < a ==> {
                        &&& VertexUsage::of_rank((#[trigger] listed_attributes@[k]).0 as int) is Some
                        &&& VertexFormat::spec_from_code(listed_attributes@[k].1) is Some
                    },
                forall|j: int, k: int|
                    0 <= j < k < a ==> listed_attributes@[j].0 < listed_attributes@[k].0,
            decreases listed_attributes@.len() - a,
        {
            let listed = &listed_attributes[a];
            let usage = match VertexUsage::from_order_key(listed.0) {
                Some(usage) => usage,
                None => {
                    return Err(IyesMeshDescriptorParseError::InvalidValue);
                },
            };
            let format = match VertexFormat::from_code(listed.1) {
                Some(format) => format,
                None => {
                    return Err(IyesMeshDescriptorParseError::InvalidValue);
                },
            };
            proof {
                VertexUsage::lemma_of_rank(listed.0 as int);
            }
            if a > 0 && listed_attributes[a - 1].0 >= listed.0 {
                return Err(IyesMeshDescriptorParseError::InvalidValue);
            }
            proof {
                let s = attributes@;
                assert forall|j: int| 0 <= j < s.len() implies (#[trigger] s[j]).0.rank()
                    < usage.rank() by {
                    if j < a - 1 {
                        assert(listed_attributes@[j].0 < listed_attributes@[a - 1].0);
                    }
                }
            }
            attributes.append(usage, format);
            a += 1;
        }
        let d = IyesMeshDescriptor { n_vertices, user_data_len, meshes, indices, attributes };
        proof {
            assert(d.record().2 =~= value.2);
            assert(d.record().4 =~= value.4);
            assert(d.record() == value);
        }
        Ok(d)
    }

    /// Encodes the descriptor.
    pub fn to_bytes(&self) -> (r: Vec<u8>)
        ensures
            r@ == self.encoding(),
    {
        let record = self.to_record();
        bitcode_encode(&record)
    }

    /// The bytes of the encoded descriptor.
    pub open spec fn encoding(self) -> Seq<u8> {
        let record = self.record();
        bitcode_encoded(record.0, record.1, record.2, record.3, record.4)
    }

    /// Decodes a descriptor. The bytes must be an encoded record, and the
    /// record must stand for a descriptor.
    pub fn from_bytes(buf: &[u8]) -> (r: Result<IyesMeshDescriptor, IyesMeshDescriptorParseError>)
        ensures
            match r {
                Ok(d) => bitcode_decoded(buf@) == Some(d.record()) && record_valid(d.record()),
                Err(IyesMeshDescriptorParseError::Bitcode(_)) => bitcode_decoded(buf@) is None,
                Err(IyesMeshDescriptorParseError::InvalidValue) => bitcode_decoded(buf@) matches Some(
                    record,
                ) && !record_valid(record),
            },
    {
        match bitcode_decode(buf) {
            Ok(record) => IyesMeshDescriptor::from_record(record),
            Err(e) => Err(IyesMeshDescriptorParseError::Bitcode(e)),
        }
    }
}

impl Clone for IyesMeshDescriptor {
    fn clone(&self) -> (r: Self)
        ensures
            r.n_vertices == self.n_vertices,
            r.user_data_len == self.user_data_len,
            r.meshes@ == self.meshes@,
            r.indices == self.indices,
            r.attributes@ == self.attributes@,
    {
        let mut meshes: Vec<MeshInfo> = Vec::new();
        let mut i: usize = 0;
        while i < self.meshes.len()
            invariant
                0 <= i <= self.meshes@.len(),
                meshes@ == self.meshes@.take(i as int),
            decreases self.meshes@.len() - i,
        {
            meshes.push(self.meshes[i]);
            assert(meshes@ =~= self.meshes@.take(i + 1));
            i += 1;
        }
        assert(meshes@ =~= self.meshes@);
        IyesMeshDescriptor {
            n_vertices: self.n_vertices,
            user_data_len: self.user_data_len,
            meshes,
            indices: self.indices,
            attributes: self.attributes.clone(),
        }
    }
}

} // verus!

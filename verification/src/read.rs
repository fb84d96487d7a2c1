//! The reader: from the bytes of a container to its descriptor, to its
//! decompressed payload, to one slice per buffer, to one view per mesh.

use vstd::prelude::*;
use vstd::slice::slice_subrange;
use crate::attributes::{canonical, AttributeMap};
use crate::bytes::{
    le16_at, le32_at, le64_at, lemma_sum_take_all, lemma_sum_take_next, read_le16, read_le32, sum,
};
use crate::descriptor::{
    IndexFormat, IyesMeshDescriptor, IyesMeshDescriptorParseError, MeshInfo, VertexFormat,
    VertexUsage,
};
use crate::checksum::{checksum_data, checksum_metadata, metadata_checksum_of, rapidhash_of};
use crate::descriptor::{bitcode_decoded, record_valid};
use crate::header::{IyesMeshHeader, IyesMeshHeaderParseError};
use crate::io::{decompress_payload, payload_prefix, unexpected_eof};
use crate::mesh::MeshDataRef;

verus! {

/// Why a container could not be read.
#[derive(Debug)]
pub enum ReadError {
    /// The bytes do not start with the tag of a container.
    BadMagic,
    /// The container is of another format version.
    BadVersion(u16),
    /// The input ended too early, or the compressed stream is broken.
    Io(std::io::Error),
    /// A checksum does not match, of the metadata or of the data.
    InvalidChecksums,
    /// The header cannot be decoded.
    Header(IyesMeshHeaderParseError),
    /// The descriptor cannot be decoded.
    Descriptor(IyesMeshDescriptorParseError),
    /// The data ends too early.
    NotEnoughData,
    /// There is more data than the descriptor accounts for.
    TooMuchData,
}

/// One slice per buffer of a container, over its decompressed payload.
#[derive(Debug)]
pub struct DecodedBuffers<'s> {
    pub user_data: Option<&'s [u8]>,
    pub buf_index: Option<(IndexFormat, &'s [u8])>,
    pub buf_attrs: AttributeMap<(VertexFormat, &'s [u8])>,
}

/// One view per mesh of a container, in the order of its descriptor.
#[derive(Debug)]
pub struct DecodedMeshes<'s> {
    pub meshes: Vec<MeshDataRef<'s>>,
}

impl<'s> Default for DecodedBuffers<'s> {
    /// No buffers at all.
    fn default() -> (r: Self)
        ensures
            r.user_data is None,
            r.buf_index is None,
            r.buf_attrs@.len() == 0,
    {
        DecodedBuffers { user_data: None, buf_index: None, buf_attrs: AttributeMap::new() }
    }
}

impl<'s> Clone for DecodedBuffers<'s> {
    fn clone(&self) -> (r: Self)
        ensures
            r.user_data == self.user_data,
            r.buf_index == self.buf_index,
            r.buf_attrs@ == self.buf_attrs@,
    {
        DecodedBuffers {
            user_data: self.user_data,
            buf_index: self.buf_index,
            buf_attrs: self.buf_attrs.clone(),
        }
    }
}

impl<'s> Default for DecodedMeshes<'s> {
    /// No meshes.
    fn default() -> (r: Self)
        ensures
            r.meshes@.len() == 0,
    {
        DecodedMeshes { meshes: Vec::new() }
    }
}

/// A descriptor together with the decompressed payload it describes.
pub struct IyesMeshReaderWithData {
    descriptor: IyesMeshDescriptor,
    buf: Vec<u8>,
}

/// The numbers stored in an index buffer, in order.
pub open spec fn index_values(format: IndexFormat, bytes: Seq<u8>) -> Seq<int> {
    match format {
        IndexFormat::U16 => Seq::new(bytes.len() / 2, |i: int| le16_at(bytes, 2 * i)),
        IndexFormat::U32 => Seq::new(bytes.len() / 4, |i: int| le32_at(bytes, 4 * i)),
    }
}

/// The least of the numbers. Only meant for sequences that are not empty.
pub open spec fn lowest(s: Seq<int>) -> int
    decreases s.len(),
{
    if s.len() <= 1 {
        s[0]
    } else if s.last() < lowest(s.drop_last()) {
        s.last()
    } else {
        lowest(s.drop_last())
    }
}

/// The greatest of the numbers. Only meant for sequences that are not
/// empty.
pub open spec fn highest(s: Seq<int>) -> int
    decreases s.len(),
{
    if s.len() <= 1 {
        s[0]
    } else if s.last() > highest(s.drop_last()) {
        s.last()
    } else {
        highest(s.drop_last())
    }
}

/// `lowest` and `highest` are among the numbers, and all numbers lie
/// between them.
pub proof fn lemma_extent(s: Seq<int>)
    requires
        s.len() > 0,
    ensures
        exists|i: int| 0 <= i < s.len() && s[i] == lowest(s),
        exists|i: int| 0 <= i < s.len() && s[i] == highest(s),
        forall|i: int| 0 <= i < s.len() ==> lowest(s) <= #[trigger] s[i] && s[i] <= highest(s),
    decreases s.len(),
{
    if s.len() == 1 {
        assert(s[0] == lowest(s));
        assert(s[0] == highest(s));
    } else {
        let t = s.drop_last();
        lemma_extent(t);
        let i = choose|i: int| 0 <= i < t.len() && t[i] == lowest(t);
        let j = choose|j: int| 0 <= j < t.len() && t[j] == highest(t);
        assert(s[i] == t[i]);
        assert(s[j] == t[j]);
        assert(s[s.len() - 1] == s.last());
        assert forall|k: int| 0 <= k < s.len() implies lowest(s) <= #[trigger] s[k] && s[k] <= highest(
            s,
        ) by {
            if k < t.len() {
                assert(s[k] == t[k]);
            }
        }
    }
}

/// Bounds that are among the numbers and hold all of them are `lowest`
/// and `highest`.
pub proof fn lemma_extent_unique(s: Seq<int>, lo: int, hi: int)
    requires
        exists|i: int| 0 <= i < s.len() && s[i] == lo,
        exists|i: int| 0 <= i < s.len() && s[i] == hi,
        forall|i: int| 0 <= i < s.len() ==> lo <= #[trigger] s[i] && s[i] <= hi,
    ensures
        lowest(s) == lo,
        highest(s) == hi,
{
    lemma_extent(s);
}

impl IyesMeshDescriptor {
    /// Where the index buffer starts in the payload: after the user data.
    pub open spec fn index_offset(self) -> int {
        self.user_data_len as int
    }

    /// Where the buffer of the attribute at place `a` starts in the
    /// payload: after the user data, the index buffer and the attribute
    /// buffers before it. At `a` equal to the number of attributes, this
    /// is the end of the payload.
    pub open spec fn vertex_offset(self, a: int) -> int {
        self.user_data_len + self.index_buf_size() + sum(self.vertex_buf_sizes().take(a))
    }

    /// The user data in a payload; `None` where the descriptor has none.
    pub open spec fn user_data_in(self, data: Seq<u8>) -> Option<Seq<u8>> {
        if self.user_data_len > 0 {
            Some(data.subrange(0, self.user_data_len as int))
        } else {
            None
        }
    }

    /// The index buffer in a payload.
    pub open spec fn index_buf_in(self, data: Seq<u8>) -> Seq<u8> {
        data.subrange(self.index_offset(), self.index_offset() + self.index_buf_size())
    }

    /// The buffer of the attribute at place `a` in a payload.
    pub open spec fn vertex_buf_in(self, data: Seq<u8>, a: int) -> Seq<u8> {
        data.subrange(self.vertex_offset(a), self.vertex_offset(a + 1))
    }
}

impl<'s> DecodedBuffers<'s> {
    /// Whether these are the buffers that the descriptor finds in the
    /// payload: the payload is exactly as long as the descriptor says, the
    /// user data comes first, then the index buffer, then each attribute
    /// buffer in canonical order, each of its computed size.
    pub open spec fn splits(self, descriptor: IyesMeshDescriptor, data: Seq<u8>) -> bool {
        &&& data.len() == descriptor.total_raw_data_size()
        &&& match self.user_data {
            Some(bytes) => descriptor.user_data_in(data) == Some(bytes@),
            None => descriptor.user_data_in(data) is None,
        }
        &&& match self.buf_index {
            Some(b) => descriptor.indices matches Some(info) && b.0 == info.format && b.1@
                == descriptor.index_buf_in(data),
            None => descriptor.indices is None,
        }
        &&& self.buf_attrs@.len() == descriptor.attributes@.len()
        &&& forall|a: int|
            0 <= a < descriptor.attributes@.len() ==> {
                &&& (#[trigger] self.buf_attrs@[a]).0 == descriptor.attributes@[a].0
                &&& self.buf_attrs@[a].1.0 == descriptor.attributes@[a].1
                &&& self.buf_attrs@[a].1.1@ == descriptor.vertex_buf_in(data, a)
            }
    }

    /// The index buffer with its format, as values.
    pub open spec fn index_buffer(self) -> Option<(IndexFormat, Seq<u8>)> {
        match self.buf_index {
            Some(b) => Some((b.0, b.1@)),
            None => None,
        }
    }

    /// Format and bytes of each attribute buffer, in canonical order.
    pub open spec fn attribute_buffers(self) -> Seq<(VertexUsage, VertexFormat, Seq<u8>)> {
        Seq::new(
            self.buf_attrs@.len(),
            |a: int| (self.buf_attrs@[a].0, self.buf_attrs@[a].1.0, self.buf_attrs@[a].1.1@),
        )
    }
}

/// The bytes of the shared index buffer that belong to a mesh: its `count`
/// indices from index `first` on. `None` where the buffer ends before them.
pub open spec fn mesh_index_bytes(m: MeshInfo, format: IndexFormat, buffer: Seq<u8>) -> Option<
    Seq<u8>,
> {
    let start = m.first * format.spec_size();
    let end = (m.first + m.count) * format.spec_size();
    if end <= buffer.len() {
        Some(buffer.subrange(start, end))
    } else {
        None
    }
}

/// The vertices of a mesh, as the range from the first of them to one past
/// the last.
///
/// Without an index buffer the mesh names its vertices itself. With one,
/// they are the vertices its indices reach: from the lowest to the highest
/// index value, each moved by `base_vertex`. `None` where the index buffer
/// ends before the indices of the mesh, where the mesh has no index (it
/// then has no lowest one), or where the lowest vertex would lie before the
/// first of the buffer.
pub open spec fn mesh_vertex_range(m: MeshInfo, index_buffer: Option<(IndexFormat, Seq<u8>)>)
    -> Option<(int, int)> {
    match index_buffer {
        None => Some((m.first as int, m.first + m.count)),
        Some(b) => match mesh_index_bytes(m, b.0, b.1) {
            None => None,
            Some(bytes) => {
                let values = index_values(b.0, bytes);
                if values.len() == 0 || lowest(values) + m.base_vertex < 0 {
                    None
                } else {
                    Some((lowest(values) + m.base_vertex, highest(values) + m.base_vertex + 1))
                }
            },
        },
    }
}

/// The bytes of an attribute buffer that hold the vertices of `range`.
/// `None` where the buffer ends before them.
pub open spec fn mesh_vertex_bytes(range: (int, int), format: VertexFormat, buffer: Seq<u8>)
    -> Option<Seq<u8>> {
    if range.1 * format.spec_size() <= buffer.len() {
        Some(buffer.subrange(range.0 * format.spec_size(), range.1 * format.spec_size()))
    } else {
        None
    }
}

/// Whether the buffers hold all that the mesh entry names.
pub open spec fn mesh_fits(
    m: MeshInfo,
    index_buffer: Option<(IndexFormat, Seq<u8>)>,
    attribute_buffers: Seq<(VertexUsage, VertexFormat, Seq<u8>)>,
) -> bool {
    match mesh_vertex_range(m, index_buffer) {
        None => false,
        Some(range) => forall|a: int|
            0 <= a < attribute_buffers.len() ==> mesh_vertex_bytes(
                range,
                (#[trigger] attribute_buffers[a]).1,
                attribute_buffers[a].2,
            ) is Some,
    }
}

/// Whether `mesh` is the view that the mesh entry `m` cuts from the
/// buffers: its index bytes are those of the entry, in the format of the
/// buffer, and each of its attributes holds the entry's vertices of the
/// buffer of the same usage, in the same format.
pub open spec fn is_mesh_of(
    mesh: MeshDataRef,
    m: MeshInfo,
    index_buffer: Option<(IndexFormat, Seq<u8>)>,
    attribute_buffers: Seq<(VertexUsage, VertexFormat, Seq<u8>)>,
) -> bool {
    &&& match index_buffer {
        Some(b) => mesh.indices matches Some(own) && own.0 == b.0 && Some(own.1@)
            == mesh_index_bytes(m, b.0, b.1),
        None => mesh.indices is None,
    }
    &&& mesh.attributes@.len() == attribute_buffers.len()
    &&& mesh_vertex_range(m, index_buffer) matches Some(range) && forall|a: int|
        0 <= a < attribute_buffers.len() ==> {
            &&& (#[trigger] mesh.attributes@[a]).0 == attribute_buffers[a].0
            &&& mesh.attributes@[a].1.0 == attribute_buffers[a].1
            &&& Some(mesh.attributes@[a].1.1@) == mesh_vertex_bytes(
                range,
                attribute_buffers[a].1,
                attribute_buffers[a].2,
            )
        }
}

impl IyesMeshReaderWithData {
    /// A descriptor with the payload it is to be read against.
    pub fn new(descriptor: IyesMeshDescriptor, buf: Vec<u8>) -> (r: Self)
        ensures
            r.spec_descriptor() == descriptor,
            r.data() == buf@,
    {
        IyesMeshReaderWithData { descriptor, buf }
    }

    pub closed spec fn spec_descriptor(&self) -> IyesMeshDescriptor {
        self.descriptor
    }

    /// The decompressed payload.
    pub closed spec fn data(&self) -> Seq<u8> {
        self.buf@
    }

    pub fn descriptor(&self) -> (r: &IyesMeshDescriptor)
        ensures
            *r == self.spec_descriptor(),
    {
        &self.descriptor
    }

    /// The decompressed payload.
    pub fn payload(&self) -> (r: &[u8])
        ensures
            r@ == self.data(),
    {
        self.buf.as_slice()
    }

    /// Cuts the payload into its buffers: the user data, the index buffer,
    /// and each attribute buffer in canonical order, each of the size the
    /// descriptor computes. The payload must be used up exactly.
    pub fn into_flat_buffers(&self) -> (r: Result<DecodedBuffers<'_>, ReadError>)
        ensures
            match r {
                Ok(buffers) => buffers.splits(self.spec_descriptor(), self.data()),
                Err(ReadError::NotEnoughData) => self.data().len()
                    < self.spec_descriptor().total_raw_data_size(),
                Err(ReadError::TooMuchData) => self.data().len()
                    > self.spec_descriptor().total_raw_data_size(),
                Err(_) => false,
            },
    {
        let d = &self.descriptor;
        let data = self.buf.as_slice();
        let ghost sizes = d.vertex_buf_sizes();
        proof {
            d.lemma_sizes(0);
            lemma_sum_take_all(sizes);
        }
        let mut at: usize = 0;
        let mut user_data: Option<&[u8]> = None;
        if d.user_data_len > 0 {
            let size = d.user_data_len as u64;
            if ((data.len() - at) as u64) < size {
                return Err(ReadError::NotEnoughData);
            }
            user_data = Some(slice_subrange(data, at, at + size as usize));
            at = at + size as usize;
        }
        let mut buf_index: Option<(IndexFormat, &[u8])> = None;
        match d.indices {
            Some(info) => {
                let size = match d.compute_index_buf_size() {
                    Some(size) => size,
                    None => 0,
                };
                if ((data.len() - at) as u64) < size {
                    return Err(ReadError::NotEnoughData);
                }
                buf_index = Some((info.format, slice_subrange(data, at, at + size as usize)));
                at = at + size as usize;
            },
            None => {},
        }
        let entries = d.attributes.as_slice();
        let mut buf_attrs: AttributeMap<(VertexFormat, &[u8])> = AttributeMap::new();
        let mut a: usize = 0;
        while a < entries.len()
            invariant
                0 <= a <= entries@.len(),
                entries@ == d.attributes@,
                canonical(entries@),
                sizes == d.vertex_buf_sizes(),
                *d == self.spec_descriptor(),
                data@ == self.data(),
                at == d.vertex_offset(a as int),
                at <= data@.len(),
                canonical(buf_attrs@),
                buf_attrs@.len() == a,
                forall|k: int|
                    0 <= k < a ==> {
                        &&& (#[trigger] buf_attrs@[k]).0 == d.attributes@[k].0
                        &&& buf_attrs@[k].1.0 == d.attributes@[k].1
                        &&& buf_attrs@[k].1.1@ == d.vertex_buf_in(data@, k)
                    },
            decreases entries@.len() - a,
        {
            let usage = entries[a].0;
            let format = entries[a].1;
            proof {
                d.lemma_sizes(a as int + 1);
                lemma_sum_take_next(sizes, a as int);
                assert(sizes[a as int] == d.vertex_buf_size(a as int));
            }
            let size = format.size() as u64 * (d.n_vertices as u64);
            if ((data.len() - at) as u64) < size {
                return Err(ReadError::NotEnoughData);
            }
            let bytes = slice_subrange(data, at, at + size as usize);
            proof {
                let s = buf_attrs@;
                assert forall|j: int| 0 <= j < s.len() implies (#[trigger] s[j]).0.rank()
                    < usage.rank() by {
                    assert(entries@[j].0.rank() < entries@[a as int].0.rank());
                }
            }
            buf_attrs.append(usage, (format, bytes));
            at = at + size as usize;
            a += 1;
        }
        if at < data.len() {
            return Err(ReadError::TooMuchData);
        }
        Ok(DecodedBuffers { user_data, buf_index, buf_attrs })
    }
}


/// The lowest and the highest index value in an index buffer; `None` for a
/// buffer without an index.
pub fn index_extent(format: IndexFormat, bytes: &[u8]) -> (r: Option<(u32, u32)>)
    ensures
        match r {
            Some((lo, hi)) => index_values(format, bytes@).len() > 0 && lo == lowest(
                index_values(format, bytes@),
            ) && hi == highest(index_values(format, bytes@)),
            None => index_values(format, bytes@).len() == 0,
        },
{
    let size = format.size();
    let n = bytes.len() / size;
    if n == 0 {
        return None;
    }
    let ghost values = index_values(format, bytes@);
    let first = match format {
        IndexFormat::U16 => read_le16(bytes, 0) as u32,
        IndexFormat::U32 => read_le32(bytes, 0),
    };
    let mut lo = first;
    let mut hi = first;
    let mut i: usize = 1;
    assert(values.take(1) =~= seq![values[0]]);
    while i < n
        invariant
            1 <= i <= n,
            bytes@.len() <= usize::MAX,
            size == format.spec_size(),
            n == bytes@.len() / size as nat,
            values == index_values(format, bytes@),
            values.len() == n,
            lo == lowest(values.take(i as int)),
            hi == highest(values.take(i as int)),
        decreases n - i,
    {
        let value = match format {
            IndexFormat::U16 => {
                assert(2 * i + 2 <= bytes@.len());
                read_le16(bytes, 2 * i) as u32
            },
            IndexFormat::U32 => {
                assert(4 * i + 4 <= bytes@.len());
                read_le32(bytes, 4 * i)
            },
        };
        assert(value == values[i as int]);
        assert(values.take(i + 1).drop_last() =~= values.take(i as int));
        assert(values.take(i + 1).last() == values[i as int]);
        if value < lo {
            lo = value;
        }
        if value > hi {
            hi = value;
        }
        i += 1;
    }
    assert(values.take(n as int) =~= values);
    Some((lo, hi))
}

/// `count` elements of `size` bytes, in bytes.
fn scaled(count: u64, size: u64) -> (r: u64)
    requires
        count <= 0x2_0000_0000,
        size <= 32,
    ensures
        r == count * size,
{
    assert(count * size <= 0x2_0000_0000 * 32) by (nonlinear_arith)
        requires
            count <= 0x2_0000_0000,
            size <= 32,
    ;
    count * size
}

/// Cuts the view of one mesh out of the buffers of a container.
///
/// With an index buffer, the mesh has its `count` indices from `first` on,
/// and of every attribute buffer the vertices its indices reach: from the
/// lowest to the highest index value, each moved by `base_vertex`. Without
/// one, it has of every attribute buffer its `count` vertices from `first`
/// on. Whatever a buffer does not hold is `NotEnoughData`.
pub fn cut_mesh<'a>(m: &MeshInfo, buffers: &DecodedBuffers<'a>) -> (r: Result<
    MeshDataRef<'a>,
    ReadError,
>)
    ensures
        match r {
            Ok(mesh) => mesh_fits(*m, buffers.index_buffer(), buffers.attribute_buffers())
                && is_mesh_of(mesh, *m, buffers.index_buffer(), buffers.attribute_buffers()),
            Err(ReadError::NotEnoughData) => !mesh_fits(
                *m,
                buffers.index_buffer(),
                buffers.attribute_buffers(),
            ),
            Err(_) => false,
        },
{
    let ghost index_buffer = buffers.index_buffer();
    let ghost attribute_buffers = buffers.attribute_buffers();
    let mut indices: Option<(IndexFormat, &'a [u8])> = None;
    let first_vertex: u64;
    let end_vertex: u64;
    match buffers.buf_index {
        Some(b) => {
            let format = b.0;
            let all = b.1;
            let size = format.size() as u64;
            let start = scaled(m.first as u64, size);
            let end = scaled(m.first as u64 + m.count as u64, size);
            assert(start <= end) by (nonlinear_arith)
                requires
                    start == m.first * size,
                    end == (m.first + m.count) * size,
            ;
            if end > all.len() as u64 {
                return Err(ReadError::NotEnoughData);
            }
            let own = slice_subrange(all, start as usize, end as usize);
            indices = Some((format, own));
            match index_extent(format, own) {
                None => {
                    return Err(ReadError::NotEnoughData);
                },
                Some((lo, hi)) => {
                    let lowest_vertex = lo as i64 + m.base_vertex as i64;
                    if lowest_vertex < 0 {
                        return Err(ReadError::NotEnoughData);
                    }
                    first_vertex = lowest_vertex as u64;
                    proof {
                        lemma_extent(index_values(format, own@));
                    }
                    end_vertex = (hi as i64 + m.base_vertex as i64 + 1) as u64;
                },
            }
        },
        None => {
            first_vertex = m.first as u64;
            end_vertex = m.first as u64 + m.count as u64;
        },
    }
    let ghost range = (first_vertex as int, end_vertex as int);
    assert(mesh_vertex_range(*m, index_buffer) == Some(range));
    assert(first_vertex <= end_vertex <= 0x2_0000_0000);
    let entries = buffers.buf_attrs.as_slice();
    let mut attributes: AttributeMap<(VertexFormat, &'a [u8])> = AttributeMap::new();
    let mut a: usize = 0;
    while a < entries.len()
        invariant
            0 <= a <= entries@.len(),
            entries@ == buffers.buf_attrs@,
            canonical(entries@),
            attribute_buffers == buffers.attribute_buffers(),
            range == (first_vertex as int, end_vertex as int),
            mesh_vertex_range(*m, buffers.index_buffer()) == Some(range),
            match buffers.index_buffer() {
                Some(b) => indices matches Some(own) && own.0 == b.0 && Some(own.1@)
                    == mesh_index_bytes(*m, b.0, b.1),
                None => indices is None,
            },
            first_vertex <= end_vertex <= 0x2_0000_0000,
            canonical(attributes@),
            attributes@.len() == a,
            forall|k: int|
                0 <= k < a ==> mesh_vertex_bytes(
                    range,
                    (#[trigger] attribute_buffers[k]).1,
                    attribute_buffers[k].2,
                ) is Some,
            forall|k: int|
                0 <= k < a ==> {
                    &&& (#[trigger] attributes@[k]).0 == attribute_buffers[k].0
                    &&& attributes@[k].1.0 == attribute_buffers[k].1
                    &&& Some(attributes@[k].1.1@) == mesh_vertex_bytes(
                        range,
                        attribute_buffers[k].1,
                        attribute_buffers[k].2,
                    )
                },
        decreases entries@.len() - a,
    {
        let usage = entries[a].0;
        let format = entries[a].1.0;
        let all = entries[a].1.1;
        let size = format.size() as u64;
        assert(attribute_buffers[a as int] == (usage, format, all@));
        let start = scaled(first_vertex, size);
        let end = scaled(end_vertex, size);
        assert(start <= end) by (nonlinear_arith)
            requires
                start == first_vertex * size,
                end == end_vertex * size,
                first_vertex <= end_vertex,
        ;
        if end > all.len() as u64 {
            assert(mesh_vertex_bytes(range, attribute_buffers[a as int].1, attribute_buffers[a as int].2)
                is None);
            return Err(ReadError::NotEnoughData);
        }
        let own = slice_subrange(all, start as usize, end as usize);
        proof {
            let s = attributes@;
            assert forall|j: int| 0 <= j < s.len() implies (#[trigger] s[j]).0.rank()
                < usage.rank() by {
                assert(attribute_buffers[j].0 == entries@[j].0);
                assert(entries@[j].0.rank() < entries@[a as int].0.rank());
            }
        }
        attributes.append(usage, (format, own));
        a += 1;
    }
    Ok(MeshDataRef { indices, attributes })
}

impl IyesMeshReaderWithData {
    /// Cuts the buffers into one view per mesh of the descriptor, in the
    /// order of the descriptor.
    pub fn into_split_meshes<'a>(&self, buffers: &DecodedBuffers<'a>) -> (r: Result<
        DecodedMeshes<'a>,
        ReadError,
    >)
        ensures
            match r {
                Ok(decoded) => {
                    &&& decoded.meshes@.len() == self.spec_descriptor().meshes@.len()
                    &&& forall|i: int|
                        0 <= i < decoded.meshes@.len() ==> {
                            &&& mesh_fits(
                                self.spec_descriptor().meshes@[i],
                                buffers.index_buffer(),
                                buffers.attribute_buffers(),
                            )
                            &&& is_mesh_of(
                                #[trigger] decoded.meshes@[i],
                                self.spec_descriptor().meshes@[i],
                                buffers.index_buffer(),
                                buffers.attribute_buffers(),
                            )
                        }
                },
                Err(ReadError::NotEnoughData) => exists|i: int|
                    0 <= i < self.spec_descriptor().meshes@.len() && !mesh_fits(
                        #[trigger] self.spec_descriptor().meshes@[i],
                        buffers.index_buffer(),
                        buffers.attribute_buffers(),
                    ),
                Err(_) => false,
            },
    {
        let listed = &self.descriptor.meshes;
        let mut meshes: Vec<MeshDataRef<'a>> = Vec::new();
        let mut i: usize = 0;
        while i < listed.len()
            invariant
                0 <= i <= listed@.len(),
                listed@ == self.spec_descriptor().meshes@,
                meshes@.len() == i,
                forall|k: int|
                    0 <= k < i ==> mesh_fits(
                        #[trigger] listed@[k],
                        buffers.index_buffer(),
                        buffers.attribute_buffers(),
                    ),
                forall|k: int|
                    0 <= k < i ==> is_mesh_of(
                        #[trigger] meshes@[k],
                        listed@[k],
                        buffers.index_buffer(),
                        buffers.attribute_buffers(),
                    ),
            decreases listed@.len() - i,
        {
            match cut_mesh(&listed[i], buffers) {
                Ok(mesh) => {
                    let ghost before = meshes@;
                    meshes.push(mesh);
                    assert forall|k: int| 0 <= k < i + 1 implies is_mesh_of(
                        #[trigger] meshes@[k],
                        listed@[k],
                        buffers.index_buffer(),
                        buffers.attribute_buffers(),
                    ) by {
                        if k < i {
                            assert(meshes@[k] == before[k]);
                        }
                    }
                },
                Err(e) => {
                    return Err(e);
                },
            }
            i += 1;
        }
        Ok(DecodedMeshes { meshes })
    }
}


/// What a reader verifies.
#[derive(Debug, Clone, Copy, PartialEq, Eq, Hash)]
pub struct IyesMeshReaderSettings {
    pub verify_metadata_checksum: bool,
    pub verify_data_checksum: bool,
}

impl IyesMeshReaderSettings {
    /// The settings of a reader that verifies both checksums, or neither.
    pub fn from_flags(ignore_checksums: bool) -> (r: Self)
        ensures
            r.verify_metadata_checksum == !ignore_checksums,
            r.verify_data_checksum == !ignore_checksums,
    {
        IyesMeshReaderSettings {
            verify_metadata_checksum: !ignore_checksums,
            verify_data_checksum: !ignore_checksums,
        }
    }
}

impl Default for IyesMeshReaderSettings {
    /// Both checksums are verified.
    fn default() -> (r: Self)
        ensures
            r.verify_metadata_checksum,
            r.verify_data_checksum,
    {
        IyesMeshReaderSettings { verify_metadata_checksum: true, verify_data_checksum: true }
    }
}

/// A container whose header and descriptor were read, and whose payload
/// is still compressed.
pub struct IyesMeshReader<'s> {
    header: IyesMeshHeader,
    descriptor: IyesMeshDescriptor,
    stream: &'s [u8],
    settings: IyesMeshReaderSettings,
}

/// The tag at the start of a container's bytes.
pub open spec fn stored_magic(data: Seq<u8>) -> Seq<u8> {
    data.subrange(0, 4)
}

/// The format version in a container's bytes.
pub open spec fn stored_version(data: Seq<u8>) -> int {
    le16_at(data, 4)
}

/// The length of the descriptor in a container's bytes.
pub open spec fn stored_descriptor_len(data: Seq<u8>) -> int {
    le16_at(data, 6)
}

/// The checksum of the metadata in a container's bytes.
pub open spec fn stored_metadata_checksum(data: Seq<u8>) -> int {
    le64_at(data, 8)
}

/// The checksum of the data in a container's bytes.
pub open spec fn stored_data_checksum(data: Seq<u8>) -> int {
    le64_at(data, 16)
}

/// The encoded descriptor in a container's bytes.
pub open spec fn stored_descriptor(data: Seq<u8>) -> Seq<u8> {
    data.subrange(24, 24 + stored_descriptor_len(data))
}

/// The payload stream in a container's bytes: all that follows the
/// descriptor.
pub open spec fn stored_stream(data: Seq<u8>) -> Seq<u8> {
    data.subrange(24 + stored_descriptor_len(data), data.len() as int)
}

/// Whether the bytes start with the header of a container of this format
/// version.
pub open spec fn has_header(data: Seq<u8>) -> bool {
    &&& data.len() >= 24
    &&& stored_magic(data) == crate::magic_bytes()
    &&& stored_version(data) == crate::FORMAT_VERSION
}

/// Whether the bytes hold a header and all of the descriptor it announces.
pub open spec fn has_metadata(data: Seq<u8>) -> bool {
    has_header(data) && data.len() >= 24 + stored_descriptor_len(data)
}

/// Whether the metadata of a container passes: its checksum is not asked
/// for, or it is the checksum of the descriptor and the header's fields.
pub open spec fn metadata_passes(data: Seq<u8>, verify: bool) -> bool {
    !verify || stored_metadata_checksum(data) == metadata_checksum_of(
        stored_descriptor_len(data) as u16,
        stored_data_checksum(data) as u64,
        stored_descriptor(data),
    )
}

/// Whether a payload stream passes under a stored checksum: the checksum
/// is not asked for, or it is zero, which stands for none, or it is the
/// checksum of the stream.
pub open spec fn data_passes(stored: u64, stream: Seq<u8>, verify: bool) -> bool {
    !verify || stored == 0 || stored == rapidhash_of(stream)
}

/// Whether the bytes start with the tag of a container. Bytes that are too
/// few to hold a tag are an error.
pub fn is_iyes_mesh_file(data: &[u8]) -> (r: Result<bool, ReadError>)
    ensures
        match r {
            Ok(found) => data@.len() >= 4 && found == (stored_magic(data@) == crate::magic_bytes()),
            Err(ReadError::Io(_)) => data@.len() < 4,
            Err(_) => false,
        },
{
    if data.len() < 4 {
        return Err(ReadError::Io(unexpected_eof()));
    }
    let tag: [u8; 4] = [data[0], data[1], data[2], data[3]];
    assert(tag@ =~= stored_magic(data@));
    Ok(crate::is_magic(&tag))
}

impl<'s> IyesMeshReader<'s> {
    pub closed spec fn spec_header(self) -> IyesMeshHeader {
        self.header
    }

    pub closed spec fn spec_descriptor(self) -> IyesMeshDescriptor {
        self.descriptor
    }

    /// The payload stream, still compressed.
    pub closed spec fn stream(self) -> Seq<u8> {
        self.stream@
    }

    pub closed spec fn settings(self) -> IyesMeshReaderSettings {
        self.settings
    }

    /// Whether the reader is what `init_with_settings` makes of the bytes:
    /// its header and its stream are those of the bytes, and its descriptor
    /// is the one the bytes encode.
    pub open spec fn reads(self, data: Seq<u8>, settings: IyesMeshReaderSettings) -> bool {
        &&& self.spec_header().decodes(data.subrange(0, 24))
        &&& bitcode_decoded(stored_descriptor(data)) == Some(self.spec_descriptor().record())
        &&& record_valid(self.spec_descriptor().record())
        &&& self.stream() == stored_stream(data)
        &&& self.settings() == settings
    }

    /// Whether `r` is what comes of opening the bytes under the settings.
    ///
    /// Bytes too few for a header are an I/O error. A header with another
    /// tag is `BadMagic`, and one of another format version `BadVersion`.
    /// Bytes that end before the descriptor that the header announces are
    /// an I/O error. Metadata that does not pass is `InvalidChecksums`. A
    /// descriptor that cannot be decoded is `Descriptor`. Everything else
    /// is a reader of the bytes.
    pub open spec fn opens(
        r: Result<Self, ReadError>,
        data: Seq<u8>,
        settings: IyesMeshReaderSettings,
    ) -> bool {
        match r {
            Ok(reader) => has_metadata(data) && metadata_passes(
                data,
                settings.verify_metadata_checksum,
            ) && reader.reads(data, settings),
            Err(ReadError::Io(_)) => data.len() < 24 || (has_header(data) && !has_metadata(data)),
            Err(ReadError::BadMagic) => data.len() >= 24 && stored_magic(data)
                != crate::magic_bytes(),
            Err(ReadError::BadVersion(version)) => data.len() >= 24 && stored_magic(data)
                == crate::magic_bytes() && version == stored_version(data) && version
                != crate::FORMAT_VERSION,
            Err(ReadError::InvalidChecksums) => has_metadata(data) && !metadata_passes(
                data,
                settings.verify_metadata_checksum,
            ),
            Err(ReadError::Descriptor(e)) => has_metadata(data) && metadata_passes(
                data,
                settings.verify_metadata_checksum,
            ) && match e {
                IyesMeshDescriptorParseError::Bitcode(_) => bitcode_decoded(stored_descriptor(data))
                    is None,
                IyesMeshDescriptorParseError::InvalidValue => match bitcode_decoded(
                    stored_descriptor(data),
                ) {
                    Some(record) => !record_valid(record),
                    None => false,
                },
            },
            Err(_) => false,
        }
    }

    /// Opens a container and verifies both checksums when the time comes.
    pub fn init(data: &'s [u8]) -> (r: Result<Self, ReadError>)
        ensures
            IyesMeshReader::opens(
                r,
                data@,
                IyesMeshReaderSettings {
                    verify_metadata_checksum: true,
                    verify_data_checksum: true,
                },
            ),
    {
        IyesMeshReader::init_with_settings(IyesMeshReaderSettings::default(), data)
    }

    /// Opens a container: reads the header, refuses another tag or another
    /// format version, takes as many bytes as the header announces for the
    /// descriptor, verifies the checksum of the metadata if the settings
    /// ask for it, and decodes the descriptor.
    pub fn init_with_settings(settings: IyesMeshReaderSettings, data: &'s [u8]) -> (r: Result<
        Self,
        ReadError,
    >)
        ensures
            IyesMeshReader::opens(r, data@, settings),
    {
        let header_len = IyesMeshHeader::encoded_len();
        if data.len() < header_len {
            return Err(ReadError::Io(unexpected_eof()));
        }
        let header_bytes = slice_subrange(data, 0, header_len);
        let header = match IyesMeshHeader::from_bytes(header_bytes) {
            Ok(header) => header,
            Err(e) => {
                return Err(ReadError::Header(e));
            },
        };
        proof {
            let head = data@.subrange(0, 24);
            assert(head.subrange(0, 4) =~= stored_magic(data@));
            assert(le16_at(head, 4) == stored_version(data@));
            assert(le16_at(head, 6) == stored_descriptor_len(data@));
            assert(le64_at(head, 8) == stored_metadata_checksum(data@));
            assert(le64_at(head, 16) == stored_data_checksum(data@));
        }
        if !crate::is_magic(&header.magic) {
            return Err(ReadError::BadMagic);
        }
        if header.version != crate::FORMAT_VERSION {
            return Err(ReadError::BadVersion(header.version));
        }
        let descriptor_len = header.descriptor_len as usize;
        if data.len() - header_len < descriptor_len {
            return Err(ReadError::Io(unexpected_eof()));
        }
        let descriptor_bytes = slice_subrange(data, header_len, header_len + descriptor_len);
        if settings.verify_metadata_checksum {
            let actual = checksum_metadata(header, descriptor_bytes);
            if !header.accepts_metadata_checksum(actual) {
                return Err(ReadError::InvalidChecksums);
            }
        }
        let descriptor = match IyesMeshDescriptor::from_bytes(descriptor_bytes) {
            Ok(descriptor) => descriptor,
            Err(e) => {
                return Err(ReadError::Descriptor(e));
            },
        };
        let stream = slice_subrange(data, header_len + descriptor_len, data.len());
        Ok(IyesMeshReader { header, descriptor, stream, settings })
    }

    pub fn header(&self) -> (r: &IyesMeshHeader)
        ensures
            *r == self.spec_header(),
    {
        &self.header
    }

    pub fn descriptor(&self) -> (r: &IyesMeshDescriptor)
        ensures
            *r == self.spec_descriptor(),
    {
        &self.descriptor
    }

    /// Verifies the checksum of the payload stream, whatever the settings
    /// say. A stored checksum of zero stands for none: nothing is verified
    /// then.
    pub fn verify_data_checksum(self) -> (r: Result<(), ReadError>)
        ensures
            match r {
                Ok(()) => data_passes(self.spec_header().data_checksum, self.stream(), true),
                Err(ReadError::InvalidChecksums) => !data_passes(
                    self.spec_header().data_checksum,
                    self.stream(),
                    true,
                ),
                Err(_) => false,
            },
    {
        if self.header.data_checksum == 0 {
            return Ok(());
        }
        let actual = checksum_data(self.stream);
        if !self.header.accepts_data_checksum(actual) {
            return Err(ReadError::InvalidChecksums);
        }
        Ok(())
    }

    /// Verifies the payload stream as the settings ask for it.
    fn check_data(&self) -> (r: Result<(), ReadError>)
        ensures
            match r {
                Ok(()) => data_passes(
                    self.spec_header().data_checksum,
                    self.stream(),
                    self.settings().verify_data_checksum,
                ),
                Err(ReadError::InvalidChecksums) => !data_passes(
                    self.spec_header().data_checksum,
                    self.stream(),
                    self.settings().verify_data_checksum,
                ),
                Err(_) => false,
            },
    {
        if self.settings.verify_data_checksum && self.header.data_checksum != 0 {
            let actual = checksum_data(self.stream);
            if !self.header.accepts_data_checksum(actual) {
                return Err(ReadError::InvalidChecksums);
            }
        }
        Ok(())
    }

    /// Decompresses the payload: as many bytes as the descriptor computes
    /// for it, after the payload stream was verified as the settings ask
    /// for it. A stream that is broken or ends before those bytes is an I/O
    /// error.
    pub fn read_all_data(self) -> (r: Result<IyesMeshReaderWithData, ReadError>)
        ensures
            match r {
                Ok(with_data) => data_passes(
                    self.spec_header().data_checksum,
                    self.stream(),
                    self.settings().verify_data_checksum,
                ) && payload_prefix(self.stream(), self.spec_descriptor().total_raw_data_size())
                    == Some(with_data.data()) && with_data.spec_descriptor()
                    == self.spec_descriptor(),
                Err(ReadError::InvalidChecksums) => !data_passes(
                    self.spec_header().data_checksum,
                    self.stream(),
                    self.settings().verify_data_checksum,
                ),
                Err(ReadError::Io(_)) => data_passes(
                    self.spec_header().data_checksum,
                    self.stream(),
                    self.settings().verify_data_checksum,
                ) && payload_prefix(self.stream(), self.spec_descriptor().total_raw_data_size())
                    is None,
                Err(_) => false,
            },
    {
        match self.check_data() {
            Ok(()) => {},
            Err(e) => {
                return Err(e);
            },
        }
        let len = match self.descriptor.checked_total_raw_data_size() {
            Some(len) => len,
            None => {
                return Err(ReadError::Io(unexpected_eof()));
            },
        };
        match decompress_payload(self.stream, len) {
            Ok(buf) => Ok(IyesMeshReaderWithData::new(self.descriptor, buf)),
            Err(e) => Err(ReadError::Io(e)),
        }
    }

    /// Decompresses the user data only: the first bytes of the payload, as
    /// many as the descriptor says, after the payload stream was verified
    /// as the settings ask for it.
    pub fn read_user_data(self) -> (r: Result<Vec<u8>, ReadError>)
        ensures
            match r {
                Ok(user_data) => data_passes(
                    self.spec_header().data_checksum,
                    self.stream(),
                    self.settings().verify_data_checksum,
                ) && payload_prefix(self.stream(), self.spec_descriptor().user_data_len as int)
                    == Some(user_data@),
                Err(ReadError::InvalidChecksums) => !data_passes(
                    self.spec_header().data_checksum,
                    self.stream(),
                    self.settings().verify_data_checksum,
                ),
                Err(ReadError::Io(_)) => data_passes(
                    self.spec_header().data_checksum,
                    self.stream(),
                    self.settings().verify_data_checksum,
                ) && payload_prefix(self.stream(), self.spec_descriptor().user_data_len as int)
                    is None,
                Err(_) => false,
            },
    {
        match self.check_data() {
            Ok(()) => {},
            Err(e) => {
                return Err(e);
            },
        }
        match decompress_payload(self.stream, self.descriptor.user_data_len as u64) {
            Ok(buf) => Ok(buf),
            Err(e) => Err(ReadError::Io(e)),
        }
    }
}


} // verus!

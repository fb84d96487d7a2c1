//! What holds of the writer and the reader together.

use vstd::prelude::*;
use crate::bytes::{
    concat, le16_at, le16_bytes, le64_at, le64_bytes, lemma_concat_len, lemma_concat_piece,
    lemma_le16_round_trip, lemma_le64_round_trip, lemma_sum_added, lemma_sum_scaled,
    lemma_sum_take_all, lemma_sum_take_next, lengths, offset_of, sum,
};
use crate::checksum::metadata_checksum_of;
use crate::descriptor::{IndexFormat, IyesMeshDescriptor, MeshInfo, VertexFormat, VertexUsage};
use crate::header::IyesMeshHeader;
use crate::mesh::MeshDataRef;
use crate::attributes::{canonical, finds, lemma_canonical_unique};
use crate::read::{
    data_passes, has_metadata, highest, index_values, is_mesh_of, lemma_extent_unique, lowest,
    mesh_fits, mesh_index_bytes, mesh_vertex_bytes, mesh_vertex_range, metadata_passes,
    stored_data_checksum, stored_descriptor, stored_descriptor_len, stored_magic, stored_stream,
    DecodedBuffers,
};
use crate::write::{
    all_valid, attribute_pieces, attribute_runs, buffers_size, compatible, container_bytes,
    index_counts, uncompressed_size,
    index_formats_agree, index_pieces, lemma_counts_not_negative, lemma_upconverting, mesh_entry,
    raw_payload, stored_index_bytes, unified_index_format, vertex_counts, widened, within_limits,
    written_data_checksum, written_record,
};

verus! {

/// A header is what its own 24 bytes stand for, and no other header is.
pub proof fn law_header_round_trip(header: IyesMeshHeader, other: IyesMeshHeader)
    ensures
        header.encoding().len() == 24,
        header.decodes(header.encoding()),
        other.decodes(header.encoding()) ==> other == header,
{
    let bytes = header.encoding();
    lemma_le16_round_trip(header.version);
    lemma_le16_round_trip(header.descriptor_len);
    lemma_le64_round_trip(header.metadata_checksum);
    lemma_le64_round_trip(header.data_checksum);
    assert(bytes.subrange(0, 4) =~= header.magic@);
    assert(bytes.subrange(4, 6) =~= le16_bytes(header.version));
    assert(bytes.subrange(6, 8) =~= le16_bytes(header.descriptor_len));
    assert(bytes.subrange(8, 16) =~= le64_bytes(header.metadata_checksum));
    assert(bytes.subrange(16, 24) =~= le64_bytes(header.data_checksum));
    assert(le16_at(bytes, 4) == le16_at(bytes.subrange(4, 6), 0));
    assert(le16_at(bytes, 6) == le16_at(bytes.subrange(6, 8), 0));
    assert(le64_at(bytes, 8) == le64_at(bytes.subrange(8, 16), 0));
    assert(le64_at(bytes, 16) == le64_at(bytes.subrange(16, 24), 0));
    if other.decodes(bytes) {
        assert(other.magic@ =~= header.magic@);
        assert(other.magic == header.magic);
    }
}

/// A container that the writer seals is one that the reader accepts: it
/// has the tag and the format version, the reader finds in it the
/// descriptor and the payload stream that went in, and both checksums
/// pass. Where no data checksum is written, the stored checksum is zero,
/// and a reader that verifies data checksums accepts every payload stream.
pub proof fn law_sealed_container_passes(
    descriptor: Seq<u8>,
    stream: Seq<u8>,
    write_data_checksum: bool,
)
    requires
        descriptor.len() <= u16::MAX,
    ensures
        ({
            let data = container_bytes(descriptor, stream, write_data_checksum);
            &&& has_metadata(data)
            &&& stored_descriptor(data) == descriptor
            &&& stored_stream(data) == stream
            &&& metadata_passes(data, true)
            &&& stored_data_checksum(data) == written_data_checksum(stream, write_data_checksum)
            &&& data_passes(stored_data_checksum(data) as u64, stream, true)
            &&& !write_data_checksum ==> stored_data_checksum(data) == 0 && forall|other: Seq<u8>|
                #[trigger] data_passes(stored_data_checksum(data) as u64, other, true)
        }),
{
    let data_checksum = written_data_checksum(stream, write_data_checksum);
    let descriptor_len = descriptor.len() as u16;
    let metadata_checksum = metadata_checksum_of(descriptor_len, data_checksum, descriptor);
    let head = IyesMeshHeader::sealed_encoding(descriptor_len, metadata_checksum, data_checksum);
    let data = container_bytes(descriptor, stream, write_data_checksum);
    lemma_le16_round_trip(crate::FORMAT_VERSION);
    lemma_le16_round_trip(descriptor_len);
    lemma_le64_round_trip(metadata_checksum);
    lemma_le64_round_trip(data_checksum);
    assert(head.len() == 24);
    assert(data.subrange(0, 24) =~= head);
    assert(head.subrange(0, 4) =~= crate::magic_bytes());
    assert(head.subrange(4, 6) =~= le16_bytes(crate::FORMAT_VERSION));
    assert(head.subrange(6, 8) =~= le16_bytes(descriptor_len));
    assert(head.subrange(8, 16) =~= le64_bytes(metadata_checksum));
    assert(head.subrange(16, 24) =~= le64_bytes(data_checksum));
    assert(stored_magic(data) =~= head.subrange(0, 4));
    assert(le16_at(data, 4) == le16_at(head.subrange(4, 6), 0));
    assert(le16_at(data, 6) == le16_at(head.subrange(6, 8), 0));
    assert(le64_at(data, 8) == le64_at(head.subrange(8, 16), 0));
    assert(le64_at(data, 16) == le64_at(head.subrange(16, 24), 0));
    assert(stored_descriptor(data) =~= descriptor);
    assert(stored_stream(data) =~= stream);
}

/// The metadata of a container does not depend on its payload stream:
/// bytes that agree with a container up to the end of its descriptor hold
/// the same metadata, which passes or fails as it does in the container.
/// A change in the payload stream is not found before the data is verified.
pub proof fn law_metadata_stage(data: Seq<u8>, other: Seq<u8>, verify: bool)
    requires
        has_metadata(data),
        other.len() >= 24 + stored_descriptor_len(data),
        other.subrange(0, 24 + stored_descriptor_len(data)) == data.subrange(
            0,
            24 + stored_descriptor_len(data),
        ),
    ensures
        has_metadata(other),
        stored_descriptor(other) == stored_descriptor(data),
        stored_data_checksum(other) == stored_data_checksum(data),
        metadata_passes(other, verify) == metadata_passes(data, verify),
{
    let end = 24 + stored_descriptor_len(data);
    let head = data.subrange(0, end);
    assert forall|i: int| 0 <= i < end implies other[i] == data[i] by {
        assert(other.subrange(0, end)[i] == other[i]);
        assert(head[i] == data[i]);
    }
    assert(stored_magic(other) =~= stored_magic(data));
    assert(stored_descriptor(other) =~= stored_descriptor(data));
}

/// The data of a container does not depend on its descriptor: bytes that
/// agree with a container in the header and in the payload stream, and
/// differ in the descriptor only, hold the same stored checksum and the
/// same stream, which passes or fails as it does in the container. A change
/// in the descriptor is found when the metadata is verified, and there
/// only.
pub proof fn law_data_stage(data: Seq<u8>, other: Seq<u8>, verify: bool)
    requires
        has_metadata(data),
        other.len() == data.len(),
        other.subrange(0, 24) == data.subrange(0, 24),
        stored_stream(other) == stored_stream(data),
    ensures
        has_metadata(other),
        stored_data_checksum(other) == stored_data_checksum(data),
        data_passes(stored_data_checksum(other) as u64, stored_stream(other), verify)
            == data_passes(stored_data_checksum(data) as u64, stored_stream(data), verify),
{
    assert forall|i: int| 0 <= i < 24 implies other[i] == data[i] by {
        assert(other.subrange(0, 24)[i] == other[i]);
        assert(data.subrange(0, 24)[i] == data[i]);
    }
    assert(stored_magic(other) =~= stored_magic(data));
}

/// Two views have the same attributes in the same formats exactly if they
/// have the same format, or none, for every usage: the order in which a
/// view lists its attributes is fixed by the usages.
pub proof fn law_same_attributes(a: MeshDataRef, b: MeshDataRef)
    requires
        canonical(a.attributes@),
        canonical(b.attributes@),
    ensures
        a.formats() == b.formats() <==> forall|usage: VertexUsage|
            finds(a.formats(), usage) == finds(b.formats(), usage),
{
    assert(canonical(a.formats())) by {
        assert forall|i: int, j: int| 0 <= i < j < a.formats().len() implies a.formats()[i].0.rank()
            < a.formats()[j].0.rank() by {
            assert(a.attributes@[i].0.rank() < a.attributes@[j].0.rank());
        }
    }
    assert(canonical(b.formats())) by {
        assert forall|i: int, j: int| 0 <= i < j < b.formats().len() implies b.formats()[i].0.rank()
            < b.formats()[j].0.rank() by {
            assert(b.attributes@[i].0.rank() < b.attributes@[j].0.rank());
        }
    }
    if forall|usage: VertexUsage| finds(a.formats(), usage) == finds(b.formats(), usage) {
        lemma_canonical_unique(a.formats(), b.formats());
    }
}

/// The buffers that a descriptor finds in a payload account for every
/// byte of it: laid end to end in the order of the payload, the user data,
/// the index buffer and the attribute buffers are the payload.
pub proof fn law_exact_accounting(
    descriptor: IyesMeshDescriptor,
    buffers: DecodedBuffers,
    data: Seq<u8>,
)
    requires
        buffers.splits(descriptor, data),
    ensures
        data.len() == descriptor.user_data_len + descriptor.index_buf_size()
            + descriptor.all_vertex_buf_sizes(),
        data == (match buffers.user_data {
            Some(bytes) => bytes@,
            None => Seq::empty(),
        }) + (match buffers.buf_index {
            Some(b) => b.1@,
            None => Seq::empty(),
        }) + concat(Seq::new(buffers.buf_attrs@.len(), |a: int| buffers.buf_attrs@[a].1.1@)),
        forall|a: int|
            0 <= a < buffers.buf_attrs@.len() ==> (#[trigger] buffers.buf_attrs@[a]).1.1@.len()
                == descriptor.vertex_buf_size(a),
{
    let user = match buffers.user_data {
        Some(bytes) => bytes@,
        None => Seq::empty(),
    };
    let index = match buffers.buf_index {
        Some(b) => b.1@,
        None => Seq::empty(),
    };
    let pieces = Seq::new(buffers.buf_attrs@.len(), |a: int| buffers.buf_attrs@[a].1.1@);
    let sizes = descriptor.vertex_buf_sizes();
    let start = descriptor.vertex_offset(0);
    descriptor.lemma_sizes(0);
    lemma_sum_take_all(sizes);
    assert forall|a: int| 0 <= a <= pieces.len() implies descriptor.vertex_offset(a) <= data.len()
        && descriptor.vertex_offset(a) >= start by {
        descriptor.lemma_sizes(a);
    }
    assert forall|a: int| 0 <= a < pieces.len() implies (#[trigger] pieces[a]).len() == sizes[a] by {
        descriptor.lemma_sizes(a);
        descriptor.lemma_sizes(a + 1);
        lemma_sum_take_next(sizes, a);
        assert(buffers.buf_attrs@[a].1.1@ == descriptor.vertex_buf_in(data, a));
    }
    assert(lengths(pieces) =~= sizes);
    // the attribute buffers, laid end to end, are the rest of the payload
    let rest = data.subrange(start, data.len() as int);
    assert forall|a: int| 0 <= a <= pieces.len() implies #[trigger] concat(pieces.take(a))
        == data.subrange(start, descriptor.vertex_offset(a)) by {
        lemma_attribute_buffers_prefix(descriptor, data, pieces, a);
    }
    crate::bytes::lemma_concat_take_all(pieces);
    assert(concat(pieces.take(pieces.len() as int)) == rest);
    assert(data =~= user + index + rest);
}

/// The attribute buffers up to some place, laid end to end, are the bytes
/// of the payload from the first attribute buffer up to that place.
proof fn lemma_attribute_buffers_prefix(
    descriptor: IyesMeshDescriptor,
    data: Seq<u8>,
    pieces: Seq<Seq<u8>>,
    a: int,
)
    requires
        0 <= a <= pieces.len(),
        pieces.len() == descriptor.attributes@.len(),
        data.len() == descriptor.total_raw_data_size(),
        forall|k: int| 0 <= k < pieces.len() ==> pieces[k] == descriptor.vertex_buf_in(data, k),
    ensures
        concat(pieces.take(a)) == data.subrange(
            descriptor.vertex_offset(0),
            descriptor.vertex_offset(a),
        ),
    decreases a,
{
    let sizes = descriptor.vertex_buf_sizes();
    descriptor.lemma_sizes(a);
    descriptor.lemma_sizes(0);
    lemma_sum_take_all(sizes);
    if a == 0 {
        assert(concat(pieces.take(0)) =~= Seq::<u8>::empty());
        assert(data.subrange(descriptor.vertex_offset(0), descriptor.vertex_offset(0))
            =~= Seq::<u8>::empty());
    } else {
        lemma_attribute_buffers_prefix(descriptor, data, pieces, a - 1);
        descriptor.lemma_sizes(a - 1);
        lemma_sum_take_next(sizes, a - 1);
        crate::bytes::lemma_concat_take_next(pieces, a - 1);
        assert(pieces[a - 1] == descriptor.vertex_buf_in(data, a - 1));
        assert(concat(pieces.take(a)) =~= data.subrange(
            descriptor.vertex_offset(0),
            descriptor.vertex_offset(a),
        ));
    }
}

/// Views that can be packed together agree two by two, and two views that
/// do not agree cannot be packed with any others: one has an index buffer
/// and the other none, or their indices differ in width while widths may
/// not be mixed, or they differ in an attribute or in its format.
pub proof fn law_incompatibility(meshes: Seq<MeshDataRef>, upconvert: bool, i: int, j: int)
    requires
        0 <= i < meshes.len(),
        0 <= j < meshes.len(),
    ensures
        compatible(meshes, upconvert) ==> meshes[i].formats() == meshes[j].formats()
            && index_formats_agree(meshes[i].index_format(), meshes[j].index_format(), upconvert),
        !index_formats_agree(Some(IndexFormat::U16), Some(IndexFormat::U32), false),
        index_formats_agree(Some(IndexFormat::U16), Some(IndexFormat::U32), true),
        compatible(meshes, upconvert) && meshes[i].index_format() == Some(IndexFormat::U32)
            ==> unified_index_format(meshes) == Some(IndexFormat::U32),
{
    if compatible(meshes, upconvert) {
        assert(index_formats_agree(meshes[0].index_format(), meshes[i].index_format(), upconvert));
        assert(index_formats_agree(meshes[0].index_format(), meshes[j].index_format(), upconvert));
    }
}

/// Indices that are made wide keep their values: the wide buffer has
/// twice the bytes and holds the same numbers in the same order.
pub proof fn law_widened_values(bytes: Seq<u8>)
    requires
        bytes.len() % 2 == 0,
    ensures
        widened(bytes).len() == 2 * bytes.len(),
        index_values(IndexFormat::U32, widened(bytes)) == index_values(IndexFormat::U16, bytes),
{
    let wide = widened(bytes);
    let narrow_values = index_values(IndexFormat::U16, bytes);
    let wide_values = index_values(IndexFormat::U32, wide);
    assert(wide_values.len() == narrow_values.len());
    assert forall|k: int| 0 <= k < wide_values.len() implies wide_values[k] == narrow_values[k] by {
        assert(wide[4 * k] == bytes[2 * k]);
        assert(wide[4 * k + 1] == bytes[2 * k + 1]);
        assert(wide[4 * k + 2] == 0);
        assert(wide[4 * k + 3] == 0);
    }
    assert(wide_values =~= narrow_values);
}

/// A mesh entry with `base_vertex` equal to `base`, whose index values
/// reach from `lo` to `hi`, has of every attribute buffer exactly the
/// vertices from `lo + base` to `hi + base`.
pub proof fn law_index_rebasing(
    m: MeshInfo,
    index_format: IndexFormat,
    index_buffer: Seq<u8>,
    lo: int,
    hi: int,
    format: VertexFormat,
    attribute_buffer: Seq<u8>,
)
    requires
        mesh_index_bytes(m, index_format, index_buffer) is Some,
        ({
            let values = index_values(
                index_format,
                mesh_index_bytes(m, index_format, index_buffer)->0,
            );
            &&& exists|i: int| 0 <= i < values.len() && values[i] == lo
            &&& exists|i: int| 0 <= i < values.len() && values[i] == hi
            &&& forall|i: int| 0 <= i < values.len() ==> lo <= #[trigger] values[i] && values[i] <= hi
        }),
        0 <= lo + m.base_vertex,
        (hi + m.base_vertex + 1) * format.spec_size() <= attribute_buffer.len(),
    ensures
        mesh_vertex_range(m, Some((index_format, index_buffer))) == Some(
            (lo + m.base_vertex, hi + m.base_vertex + 1),
        ),
        mesh_vertex_bytes(
            (lo + m.base_vertex, hi + m.base_vertex + 1),
            format,
            attribute_buffer,
        ) == Some(
            attribute_buffer.subrange(
                (lo + m.base_vertex) * format.spec_size(),
                (hi + m.base_vertex + 1) * format.spec_size(),
            ),
        ),
{
    let values = index_values(index_format, mesh_index_bytes(m, index_format, index_buffer)->0);
    lemma_extent_unique(values, lo, hi);
}

/// The descriptor whose record is the one written for the views has the
/// counts, the mesh table, the index format and the attributes of the
/// views.
pub proof fn lemma_written_descriptor(
    meshes: Seq<MeshDataRef>,
    user_data_len: nat,
    upconvert: bool,
    descriptor: IyesMeshDescriptor,
)
    requires
        meshes.len() > 0,
        all_valid(meshes),
        compatible(meshes, upconvert),
        within_limits(meshes, user_data_len, unified_index_format(meshes)),
        descriptor.record() == written_record(
            meshes,
            user_data_len,
            unified_index_format(meshes),
        ),
    ensures
        descriptor.n_vertices == sum(vertex_counts(meshes)),
        descriptor.user_data_len == user_data_len,
        descriptor.meshes@.len() == meshes.len(),
        forall|i: int|
            0 <= i < meshes.len() ==> {
                let entry = mesh_entry(meshes, unified_index_format(meshes) is Some, i);
                &&& (#[trigger] descriptor.meshes@[i]).first == entry.0
                &&& descriptor.meshes@[i].count == entry.1
                &&& descriptor.meshes@[i].base_vertex == entry.2
            },
        match unified_index_format(meshes) {
            Some(format) => descriptor.indices matches Some(info) && info.format == format
                && info.n_indices == sum(index_counts(meshes)),
            None => descriptor.indices is None,
        },
        descriptor.attributes@ == meshes[0].formats(),
{
    let unified = unified_index_format(meshes);
    let indexed = unified is Some;
    let written = written_record(meshes, user_data_len, unified);
    let vs = vertex_counts(meshes);
    let is = index_counts(meshes);
    lemma_counts_not_negative(meshes, false);
    lemma_sum_take_all(vs);
    lemma_sum_take_all(is);
    crate::bytes::lemma_sum_take_monotonic(vs, 0, vs.len() as int);
    crate::bytes::lemma_sum_take_monotonic(is, 0, is.len() as int);
    assert(descriptor.record().2.len() == written.2.len());
    assert forall|i: int| 0 <= i < meshes.len() implies {
        let entry = mesh_entry(meshes, indexed, i);
        &&& (#[trigger] descriptor.meshes@[i]).first == entry.0
        &&& descriptor.meshes@[i].count == entry.1
        &&& descriptor.meshes@[i].base_vertex == entry.2
    } by {
        let entry = mesh_entry(meshes, indexed, i);
        assert(descriptor.record().2[i] == written.2[i]);
        assert(descriptor.record().2[i] == descriptor.meshes@[i].triple());
        crate::bytes::lemma_sum_take_monotonic(vs, i, i + 1);
        crate::bytes::lemma_sum_take_monotonic(vs, i + 1, vs.len() as int);
        crate::bytes::lemma_sum_take_monotonic(is, i, i + 1);
        crate::bytes::lemma_sum_take_monotonic(is, i + 1, is.len() as int);
        lemma_sum_take_next(vs, i);
        lemma_sum_take_next(is, i);
        if indexed {
            assert(sum(vs.take(i)) <= i32::MAX);
        }
    }
    match unified {
        Some(format) => {
            assert(descriptor.record().3 == written.3);
            let info = descriptor.indices->0;
            assert(IndexFormat::spec_from_code(info.format.spec_code()) == Some(info.format));
            assert(IndexFormat::spec_from_code(format.spec_code()) == Some(format));
        },
        None => {},
    }
    let formats = meshes[0].formats();
    assert(descriptor.record().4.len() == written.4.len());
    assert forall|a: int| 0 <= a < formats.len() implies descriptor.attributes@[a] == formats[a] by {
        assert(descriptor.record().4[a] == written.4[a]);
        VertexUsage::lemma_rank_injective(descriptor.attributes@[a].0, meshes[0].attributes@[a].0);
        descriptor.attributes@[a].1.lemma_code_round_trip();
        meshes[0].attribute_format(a).lemma_code_round_trip();
    }
    assert(descriptor.attributes@ =~= formats);
}


/// Where every piece is `k` bytes per element, a piece starts `k` bytes
/// per element of the pieces before it into the concatenation.
pub proof fn lemma_scaled_offsets(pieces: Seq<Seq<u8>>, counts: Seq<int>, k: int, i: int)
    requires
        pieces.len() == counts.len(),
        forall|j: int| 0 <= j < pieces.len() ==> (#[trigger] pieces[j]).len() == k * counts[j],
        0 <= i <= pieces.len(),
    ensures
        offset_of(pieces, i) == k * sum(counts.take(i)),
        concat(pieces).len() == k * sum(counts),
{
    let lens = lengths(pieces);
    assert forall|j: int| 0 <= j < i implies lens.take(i)[j] == k * counts.take(i)[j] by {
        assert(lens[j] == pieces[j].len());
    }
    lemma_sum_scaled(lens.take(i), counts.take(i), k);
    assert forall|j: int| 0 <= j < lens.len() implies lens[j] == k * counts[j] by {
        assert(lens[j] == pieces[j].len());
    }
    lemma_sum_scaled(lens, counts, k);
    lemma_concat_len(pieces);
}

/// In the shared buffers, the piece of a view is as long as its element
/// count times the size of an element of the buffer.
pub proof fn lemma_piece_lengths(meshes: Seq<MeshDataRef>, upconvert: bool)
    requires
        meshes.len() > 0,
        all_valid(meshes),
        compatible(meshes, upconvert),
    ensures
        unified_index_format(meshes) matches Some(format) ==> forall|i: int|
            0 <= i < meshes.len() ==> (#[trigger] index_pieces(meshes, Some(format))[i]).len()
                == format.spec_size() * index_counts(meshes)[i],
        forall|a: int, i: int|
            0 <= a < meshes[0].attributes@.len() && 0 <= i < meshes.len() ==> (
            #[trigger] attribute_pieces(meshes, a)[i]).len() == meshes[0].attribute_format(
                a,
            ).spec_size() * vertex_counts(meshes)[i],
        forall|a: int, i: int|
            0 <= a < meshes[0].attributes@.len() && 0 <= i < meshes.len() ==> (
            #[trigger] meshes[i].attribute_format(a)) == meshes[0].attribute_format(a)
                && meshes[i].attributes@.len() == meshes[0].attributes@.len(),
{
    lemma_upconverting(meshes, upconvert);
    assert forall|a: int, i: int|
        0 <= a < meshes[0].attributes@.len() && 0 <= i < meshes.len() implies (
    #[trigger] meshes[i].attribute_format(a)) == meshes[0].attribute_format(a)
        && meshes[i].attributes@.len() == meshes[0].attributes@.len() by {
        assert(meshes[i].formats() == meshes[0].formats());
        assert(meshes[i].formats().len() == meshes[i].attributes@.len());
        assert(meshes[i].formats()[a] == meshes[0].formats()[a]);
    }
    assert forall|a: int, i: int|
        0 <= a < meshes[0].attributes@.len() && 0 <= i < meshes.len() implies (
    #[trigger] attribute_pieces(meshes, a)[i]).len() == meshes[0].attribute_format(a).spec_size()
        * vertex_counts(meshes)[i] by {
        assert(meshes[i].valid());
        meshes[i].lemma_valid_lengths();
        assert(meshes[i].attribute_format(a) == meshes[0].attribute_format(a));
        assert(attribute_pieces(meshes, a)[i] == meshes[i].attribute_bytes(a));
    }
    if let Some(format) = unified_index_format(meshes) {
        assert forall|i: int| 0 <= i < meshes.len() implies (#[trigger] index_pieces(
            meshes,
            Some(format),
        )[i]).len() == format.spec_size() * index_counts(meshes)[i] by {
            assert(meshes[i].valid());
            meshes[i].lemma_valid_lengths();
            assert(meshes[i].index_format() is Some);
            let own = meshes[i].indices->0;
            if own.0 == IndexFormat::U16 && format == IndexFormat::U32 {
                law_widened_values(own.1@);
            }
        }
    }
}

/// The indices of the view reach from its first vertex to its last: the
/// lowest index value is zero and the highest is the number of vertices
/// less one. A view without an index buffer names all its vertices anyway.
pub open spec fn spans_vertices(mesh: MeshDataRef) -> bool {
    match mesh.indices {
        None => true,
        Some(b) => {
            let values = index_values(b.0, b.1@);
            values.len() > 0 && lowest(values) == 0 && highest(values) == mesh.spec_n_vertices() - 1
        },
    }
}

/// The payload that is laid out for the views is as long as the written
/// descriptor computes, and the descriptor finds in it the user data, the
/// index bytes of all views laid end to end, and for each attribute the
/// bytes of all views laid end to end.
pub proof fn lemma_payload_buffers(
    meshes: Seq<MeshDataRef>,
    user_data: Seq<u8>,
    upconvert: bool,
    descriptor: IyesMeshDescriptor,
)
    requires
        meshes.len() > 0,
        all_valid(meshes),
        compatible(meshes, upconvert),
        within_limits(meshes, user_data.len(), unified_index_format(meshes)),
        descriptor.record() == written_record(
            meshes,
            user_data.len(),
            unified_index_format(meshes),
        ),
    ensures
        ({
            let unified = unified_index_format(meshes);
            let data = raw_payload(meshes, user_data, unified);
            &&& data.len() == descriptor.total_raw_data_size()
            &&& descriptor.user_data_in(data) == if user_data.len() > 0 {
                Some(user_data)
            } else {
                None
            }
            &&& descriptor.index_buf_in(data) == concat(index_pieces(meshes, unified))
            &&& forall|a: int|
                0 <= a < meshes[0].attributes@.len() ==> #[trigger] descriptor.vertex_buf_in(data, a)
                    == concat(attribute_pieces(meshes, a))
        }),
{
    let unified = unified_index_format(meshes);
    let data = raw_payload(meshes, user_data, unified);
    let vs = vertex_counts(meshes);
    let is = index_counts(meshes);
    let index_run = index_pieces(meshes, unified);
    let runs = attribute_runs(meshes);
    let sizes = descriptor.vertex_buf_sizes();
    let n_attributes = meshes[0].attributes@.len() as int;
    lemma_written_descriptor(meshes, user_data.len(), upconvert, descriptor);
    lemma_piece_lengths(meshes, upconvert);
    let index_len = concat(index_run).len() as int;
    match unified {
        Some(format) => {
            lemma_scaled_offsets(index_run, is, format.spec_size() as int, 0);
        },
        None => {
            assert(concat(index_run) =~= Seq::<u8>::empty());
        },
    }
    assert(index_len == descriptor.index_buf_size());
    assert(runs.len() == sizes.len());
    assert forall|b: int| 0 <= b < n_attributes implies (#[trigger] runs[b]).len() == sizes[b] by {
        let size = meshes[0].attribute_format(b).spec_size() as int;
        let pieces = attribute_pieces(meshes, b);
        assert forall|j: int| 0 <= j < pieces.len() implies (#[trigger] pieces[j]).len() == size
            * vs[j] by {
            assert(attribute_pieces(meshes, b)[j].len() == size * vertex_counts(meshes)[j]);
        }
        lemma_scaled_offsets(pieces, vs, size, 0);
        assert(descriptor.attributes@[b] == meshes[0].formats()[b]);
        assert(sizes[b] == descriptor.vertex_buf_size(b));
    }
    assert(lengths(runs) =~= sizes);
    lemma_concat_len(runs);
    let head = user_data + concat(index_run);
    assert(data == head + concat(runs));
    assert(descriptor.index_buf_in(data) =~= concat(index_run));
    if user_data.len() > 0 {
        assert(data.subrange(0, user_data.len() as int) =~= user_data);
    }
    assert forall|a: int| 0 <= a < n_attributes implies #[trigger] descriptor.vertex_buf_in(data, a)
        == concat(attribute_pieces(meshes, a)) by {
        lemma_concat_piece(runs, a);
        lemma_sum_take_next(sizes, a);
        assert(descriptor.vertex_buf_in(data, a) =~= concat(runs).subrange(
            offset_of(runs, a),
            offset_of(runs, a + 1),
        ));
        assert(runs[a] == concat(attribute_pieces(meshes, a)));
    }
}

/// In the buffer of an attribute, the bytes of a view stand after those of
/// the views before it: from as many vertices in as those views have, and
/// for as many vertices as the view has.
pub proof fn lemma_view_in_attribute_buffer(
    meshes: Seq<MeshDataRef>,
    upconvert: bool,
    i: int,
    a: int,
)
    requires
        meshes.len() > 0,
        all_valid(meshes),
        compatible(meshes, upconvert),
        0 <= i < meshes.len(),
        0 <= a < meshes[0].attributes@.len(),
    ensures
        mesh_vertex_bytes(
            (
                sum(vertex_counts(meshes).take(i)),
                sum(vertex_counts(meshes).take(i)) + vertex_counts(meshes)[i],
            ),
            meshes[i].attribute_format(a),
            concat(attribute_pieces(meshes, a)),
        ) == Some(meshes[i].attribute_bytes(a)),
{
    let vs = vertex_counts(meshes);
    lemma_piece_lengths(meshes, upconvert);
    let size = meshes[0].attribute_format(a).spec_size() as int;
    let pieces = attribute_pieces(meshes, a);
    assert forall|j: int| 0 <= j < pieces.len() implies (#[trigger] pieces[j]).len() == size
        * vs[j] by {
        assert(attribute_pieces(meshes, a)[j].len() == size * vertex_counts(meshes)[j]);
    }
    lemma_scaled_offsets(pieces, vs, size, i);
    lemma_scaled_offsets(pieces, vs, size, i + 1);
    lemma_sum_take_next(vs, i);
    lemma_concat_piece(pieces, i);
    assert(pieces[i] == meshes[i].attribute_bytes(a));
    assert(meshes[i].attribute_format(a) == meshes[0].attribute_format(a));
    let base = sum(vs.take(i));
    assert(base * size == size * base && (base + vs[i]) * size == size * (base + vs[i]))
        by (nonlinear_arith);
}

/// In the shared index buffer, the index bytes of a view stand after
/// those of the views before it: from as many indices in as those views
/// have, and for as many indices as the view has. They hold the index
/// values of the view.
pub proof fn lemma_view_in_index_buffer(
    meshes: Seq<MeshDataRef>,
    upconvert: bool,
    m: MeshInfo,
    i: int,
)
    requires
        meshes.len() > 0,
        all_valid(meshes),
        compatible(meshes, upconvert),
        0 <= i < meshes.len(),
        unified_index_format(meshes) is Some,
        m.first == sum(index_counts(meshes).take(i)),
        m.count == index_counts(meshes)[i],
    ensures
        ({
            let format = unified_index_format(meshes)->0;
            let own = meshes[i].indices->0;
            &&& meshes[i].indices is Some
            &&& mesh_index_bytes(m, format, concat(index_pieces(meshes, Some(format)))) == Some(
                stored_index_bytes(meshes[i], format),
            )
            &&& index_values(format, stored_index_bytes(meshes[i], format)) == index_values(
                own.0,
                own.1@,
            )
        }),
{
    let format = unified_index_format(meshes)->0;
    let is = index_counts(meshes);
    let index_run = index_pieces(meshes, Some(format));
    lemma_piece_lengths(meshes, upconvert);
    lemma_upconverting(meshes, upconvert);
    let k = format.spec_size() as int;
    lemma_scaled_offsets(index_run, is, k, i);
    lemma_scaled_offsets(index_run, is, k, i + 1);
    lemma_sum_take_next(is, i);
    lemma_concat_piece(index_run, i);
    let first = sum(is.take(i));
    assert(m.first * k == k * first && (m.first + m.count) * k == k * (first + is[i]))
        by (nonlinear_arith)
        requires
            m.first == first,
            m.count == is[i],
    ;
    assert(index_run[i] == stored_index_bytes(meshes[i], format));
    assert(meshes[i].index_format() is Some);
    let own = meshes[i].indices->0;
    assert(meshes[i].valid());
    if own.0 == IndexFormat::U16 && format == IndexFormat::U32 {
        law_widened_values(own.1@);
    }
}

/// What the writer lays out, the reader takes apart again.
///
/// Take views that are valid and compatible, whose counts fit the fields
/// of the format, and whose indices reach from the first to the last of
/// their vertices. Take the payload that is laid out for them and the
/// descriptor that is written for them. Then the payload is as long as
/// the descriptor computes; the user data is found again; the mesh entry
/// of view `i` cuts from the index buffer the index bytes of the view,
/// made wide where the shared buffer is wider; and it cuts from the buffer
/// of each attribute `a` the bytes that the view has for it.
pub proof fn law_round_trip(
    meshes: Seq<MeshDataRef>,
    user_data: Seq<u8>,
    upconvert: bool,
    descriptor: IyesMeshDescriptor,
    i: int,
    a: int,
)
    requires
        meshes.len() > 0,
        all_valid(meshes),
        compatible(meshes, upconvert),
        within_limits(meshes, user_data.len(), unified_index_format(meshes)),
        descriptor.record() == written_record(
            meshes,
            user_data.len(),
            unified_index_format(meshes),
        ),
        forall|k: int| 0 <= k < meshes.len() ==> spans_vertices(#[trigger] meshes[k]),
        0 <= i < meshes.len(),
        0 <= a < meshes[0].attributes@.len(),
    ensures
        ({
            let unified = unified_index_format(meshes);
            let data = raw_payload(meshes, user_data, unified);
            let index_buffer = match unified {
                Some(format) => Some((format, descriptor.index_buf_in(data))),
                None => None,
            };
            &&& data.len() == descriptor.total_raw_data_size()
            &&& descriptor.user_data_in(data) == if user_data.len() > 0 {
                Some(user_data)
            } else {
                None
            }
            &&& descriptor.attributes@ == meshes[0].formats()
            &&& match unified {
                Some(format) => descriptor.indices matches Some(info) && info.format == format
                    && mesh_index_bytes(descriptor.meshes@[i], format, descriptor.index_buf_in(data))
                    == Some(stored_index_bytes(meshes[i], format)),
                None => descriptor.indices is None,
            }
            &&& match mesh_vertex_range(descriptor.meshes@[i], index_buffer) {
                Some(range) => mesh_vertex_bytes(
                    range,
                    meshes[i].attribute_format(a),
                    descriptor.vertex_buf_in(data, a),
                ) == Some(meshes[i].attribute_bytes(a)),
                None => false,
            }
        }),
{
    let unified = unified_index_format(meshes);
    let data = raw_payload(meshes, user_data, unified);
    let vs = vertex_counts(meshes);
    lemma_written_descriptor(meshes, user_data.len(), upconvert, descriptor);
    lemma_payload_buffers(meshes, user_data, upconvert, descriptor);
    lemma_view_in_attribute_buffer(meshes, upconvert, i, a);
    lemma_counts_not_negative(meshes, false);
    let m = descriptor.meshes@[i];
    let base = sum(vs.take(i));
    let range = (base, base + vs[i]);
    assert(descriptor.vertex_buf_in(data, a) == concat(attribute_pieces(meshes, a)));
    match unified {
        Some(format) => {
            let entry = mesh_entry(meshes, true, i);
            assert(m.first == entry.0 && m.count == entry.1 && m.base_vertex == entry.2);
            lemma_view_in_index_buffer(meshes, upconvert, m, i);
            assert(spans_vertices(meshes[i]));
            let own = meshes[i].indices->0;
            let stored = stored_index_bytes(meshes[i], format);
            let values = index_values(format, stored);
            assert(values == index_values(own.0, own.1@));
            assert(descriptor.index_buf_in(data) == concat(index_pieces(meshes, Some(format))));
            assert(mesh_index_bytes(m, format, descriptor.index_buf_in(data)) == Some(stored));
            assert(values.len() > 0 && lowest(values) == 0 && highest(values) == vs[i] - 1);
            assert(m.base_vertex == base);
            crate::bytes::lemma_sum_take_monotonic(vs, 0, i);
            let index_buffer = Some((format, descriptor.index_buf_in(data)));
            assert(mesh_vertex_range(m, index_buffer) == Some(range));
        },
        None => {
            assert(mesh_vertex_range(m, None) == Some(range));
        },
    }
}

/// What the writer lays out, the reader hands out again.
///
/// Take views as in `law_round_trip`, and the buffers that the written
/// descriptor finds in the payload laid out for them. Then the buffers
/// hold all that the mesh entry of view `i` names, so that cutting the
/// meshes out succeeds; and the view that the entry cuts from them has the
/// attributes of view `i`, with the same formats and the same bytes, and
/// the index bytes of view `i`, made wide where the shared buffer is wider.
pub proof fn law_round_trip_views(
    meshes: Seq<MeshDataRef>,
    user_data: Seq<u8>,
    upconvert: bool,
    descriptor: IyesMeshDescriptor,
    buffers: DecodedBuffers,
    mesh: MeshDataRef,
    i: int,
)
    requires
        meshes.len() > 0,
        all_valid(meshes),
        compatible(meshes, upconvert),
        within_limits(meshes, user_data.len(), unified_index_format(meshes)),
        descriptor.record() == written_record(
            meshes,
            user_data.len(),
            unified_index_format(meshes),
        ),
        forall|k: int| 0 <= k < meshes.len() ==> spans_vertices(#[trigger] meshes[k]),
        0 <= i < meshes.len(),
        buffers.splits(
            descriptor,
            raw_payload(meshes, user_data, unified_index_format(meshes)),
        ),
    ensures
        mesh_fits(descriptor.meshes@[i], buffers.index_buffer(), buffers.attribute_buffers()),
        is_mesh_of(mesh, descriptor.meshes@[i], buffers.index_buffer(), buffers.attribute_buffers())
            ==> {
            &&& mesh.attributes@.len() == meshes[i].attributes@.len()
            &&& forall|a: int|
                0 <= a < mesh.attributes@.len() ==> {
                    &&& (#[trigger] mesh.attributes@[a]).0 == meshes[i].attributes@[a].0
                    &&& mesh.attribute_format(a) == meshes[i].attribute_format(a)
                    &&& mesh.attribute_bytes(a) == meshes[i].attribute_bytes(a)
                }
            &&& mesh.index_format() == unified_index_format(meshes)
            &&& unified_index_format(meshes) matches Some(format) ==> mesh.index_bytes()
                == stored_index_bytes(meshes[i], format)
        },
{
    let unified = unified_index_format(meshes);
    let data = raw_payload(meshes, user_data, unified);
    let m = descriptor.meshes@[i];
    let index_buffer = buffers.index_buffer();
    let attribute_buffers = buffers.attribute_buffers();
    lemma_written_descriptor(meshes, user_data.len(), upconvert, descriptor);
    lemma_piece_lengths(meshes, upconvert);
    let n = meshes[0].attributes@.len() as int;
    assert(meshes[0].valid());
    assert(attribute_buffers.len() == n);
    assert(index_buffer == match unified {
        Some(format) => Some((format, descriptor.index_buf_in(data))),
        None => None,
    });
    law_round_trip(meshes, user_data, upconvert, descriptor, i, 0);
    let range = mesh_vertex_range(m, index_buffer)->0;
    assert forall|a: int| 0 <= a < n implies mesh_vertex_bytes(
        range,
        (#[trigger] attribute_buffers[a]).1,
        attribute_buffers[a].2,
    ) == Some(meshes[i].attribute_bytes(a)) && attribute_buffers[a].0 == meshes[i].attributes@[a].0
        && attribute_buffers[a].1 == meshes[i].attribute_format(a) by {
        law_round_trip(meshes, user_data, upconvert, descriptor, i, a);
        assert(buffers.buf_attrs@[a].0 == descriptor.attributes@[a].0);
        assert(descriptor.attributes@[a] == meshes[0].formats()[a]);
        assert(meshes[i].formats()[a] == meshes[0].formats()[a]);
        assert(meshes[i].attribute_format(a) == meshes[0].attribute_format(a));
    }
    if is_mesh_of(mesh, m, index_buffer, attribute_buffers) {
        assert forall|a: int| 0 <= a < mesh.attributes@.len() implies {
            &&& (#[trigger] mesh.attributes@[a]).0 == meshes[i].attributes@[a].0
            &&& mesh.attribute_format(a) == meshes[i].attribute_format(a)
            &&& mesh.attribute_bytes(a) == meshes[i].attribute_bytes(a)
        } by {
            assert(Some(mesh.attributes@[a].1.1@) == mesh_vertex_bytes(
                range,
                attribute_buffers[a].1,
                attribute_buffers[a].2,
            ));
        }
    }
}


/// The payload that is laid out for the views is as long as the size that
/// is computed for their buffers, and the user data: every index byte
/// counts once, or twice where it is made wide, and every attribute byte
/// once.
pub proof fn law_written_size(meshes: Seq<MeshDataRef>, user_data: Seq<u8>, upconvert: bool)
    requires
        meshes.len() > 0,
        all_valid(meshes),
        compatible(meshes, upconvert),
    ensures
        raw_payload(meshes, user_data, unified_index_format(meshes)).len() == user_data.len()
            + uncompressed_size(
            meshes,
            unified_index_format(meshes) == Some(IndexFormat::U32),
        ),
{
    let unified = unified_index_format(meshes);
    let upconverting = unified == Some(IndexFormat::U32);
    let vs = vertex_counts(meshes);
    let is = index_counts(meshes);
    let index_run = index_pieces(meshes, unified);
    let runs = attribute_runs(meshes);
    let n_attributes = meshes[0].attributes@.len() as int;
    let element_sizes = Seq::new(
        n_attributes as nat,
        |a: int| meshes[0].attribute_format(a).spec_size() as int,
    );
    let vertex_size = sum(element_sizes);
    lemma_piece_lengths(meshes, upconvert);
    lemma_upconverting(meshes, upconvert);
    // the index bytes of each view, as they are stored
    let stored = Seq::new(
        meshes.len(),
        |i: int|
            match unified {
                Some(format) => stored_index_bytes(meshes[i], format).len() as int,
                None => 0,
            },
    );
    let attribute_bytes = Seq::new(meshes.len(), |i: int| vertex_size * vs[i]);
    let sizes = Seq::new(meshes.len(), |i: int| buffers_size(meshes[i], upconverting));
    assert forall|i: int| 0 <= i < meshes.len() implies sizes[i] == stored[i]
        + attribute_bytes[i] by {
        let mesh = meshes[i];
        let lens = Seq::new(mesh.attributes@.len(), |a: int| mesh.attribute_bytes(a).len() as int);
        assert forall|a: int| 0 <= a < lens.len() implies lens[a] == vs[i] * element_sizes[a] by {
            assert(attribute_pieces(meshes, a)[i].len() == meshes[0].attribute_format(
                a,
            ).spec_size() * vertex_counts(meshes)[i]);
            assert(meshes[0].attribute_format(a).spec_size() * vs[i] == vs[i] * element_sizes[a])
                by (nonlinear_arith)
                requires
                    element_sizes[a] == meshes[0].attribute_format(a).spec_size(),
            ;
        }
        assert(mesh.attributes@.len() == n_attributes) by {
            assert(meshes[i].attribute_format(0) == meshes[0].attribute_format(0)
                && meshes[i].attributes@.len() == meshes[0].attributes@.len());
        }
        lemma_sum_scaled(lens, element_sizes, vs[i]);
        assert(vs[i] * vertex_size == vertex_size * vs[i]) by (nonlinear_arith);
        assert(mesh.valid());
        mesh.lemma_valid_lengths();
        match unified {
            Some(format) => {
                assert(mesh.index_format() is Some);
                let own = mesh.indices->0;
                if own.0 == IndexFormat::U16 && format == IndexFormat::U32 {
                    law_widened_values(own.1@);
                }
            },
            None => {
                assert(mesh.index_format() is None);
            },
        }
    }
    lemma_sum_added(stored, attribute_bytes, sizes);
    // the index bytes of all views
    assert(concat(index_run).len() == sum(stored)) by {
        match unified {
            Some(format) => {
                lemma_concat_len(index_run);
                assert(lengths(index_run) =~= stored);
            },
            None => {
                assert(concat(index_run) =~= Seq::<u8>::empty());
                lemma_sum_scaled(stored, stored, 0);
            },
        }
    }
    // the attribute bytes of all views
    lemma_sum_scaled(attribute_bytes, vs, vertex_size);
    let run_lens = Seq::new(n_attributes as nat, |a: int| sum(vs) * element_sizes[a]);
    assert forall|a: int| 0 <= a < n_attributes implies (#[trigger] runs[a]).len() == run_lens[a] by {
        let size = element_sizes[a];
        let pieces = attribute_pieces(meshes, a);
        assert forall|j: int| 0 <= j < pieces.len() implies (#[trigger] pieces[j]).len() == size
            * vs[j] by {
            assert(attribute_pieces(meshes, a)[j].len() == meshes[0].attribute_format(
                a,
            ).spec_size() * vertex_counts(meshes)[j]);
        }
        lemma_scaled_offsets(pieces, vs, size, 0);
        assert(size * sum(vs) == sum(vs) * size) by (nonlinear_arith);
    }
    assert(lengths(runs) =~= run_lens);
    lemma_concat_len(runs);
    lemma_sum_scaled(run_lens, element_sizes, sum(vs));
    assert(sum(vs) * vertex_size == vertex_size * sum(vs)) by (nonlinear_arith);
}


} // verus!

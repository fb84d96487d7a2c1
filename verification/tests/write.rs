use iyes_mesh::attributes::AttributeMap;
use iyes_mesh::descriptor::{
    IndexFormat, IndicesInfo, IyesMeshDescriptor, MeshInfo, VertexFormat, VertexUsage,
};
use iyes_mesh::header::IyesMeshHeader;
use iyes_mesh::mesh::MeshDataRef;
use iyes_mesh::write::{
    frame_container, mesh_buffers_size, seal_container, widen_into, IyesMeshWriter,
    IyesMeshWriterSettings, WriteError,
};

fn settings(upconvert_indices: bool, write_data_checksum: bool) -> IyesMeshWriterSettings {
    IyesMeshWriterSettings { upconvert_indices, write_data_checksum, compression_level: 3 }
}

fn view<'s>(
    indices: Option<(IndexFormat, &'s [u8])>,
    attributes: &[(VertexUsage, VertexFormat, &'s [u8])],
) -> MeshDataRef<'s> {
    let mut map = AttributeMap::new();
    for (usage, format, bytes) in attributes {
        map.insert(*usage, (*format, *bytes));
    }
    MeshDataRef { indices, attributes: map }
}

const A_INDICES: [u8; 6] = [0, 0, 1, 0, 2, 0];
const A_POSITIONS: [u8; 6] = [10, 11, 12, 13, 14, 15];
const A_COLORS: [u8; 3] = [1, 2, 3];
const B_INDICES: [u8; 4] = [1, 0, 0, 0];
const B_INDICES_WIDE: [u8; 8] = [1, 0, 0, 0, 0, 0, 0, 0];
const B_POSITIONS: [u8; 4] = [20, 21, 22, 23];
const B_COLORS: [u8; 2] = [4, 5];

fn mesh_a() -> MeshDataRef<'static> {
    view(
        Some((IndexFormat::U16, &A_INDICES)),
        &[
            (VertexUsage::Color, VertexFormat::Uint8, &A_COLORS),
            (VertexUsage::Position, VertexFormat::Uint8x2, &A_POSITIONS),
        ],
    )
}

fn mesh_b() -> MeshDataRef<'static> {
    view(
        Some((IndexFormat::U16, &B_INDICES)),
        &[
            (VertexUsage::Position, VertexFormat::Uint8x2, &B_POSITIONS),
            (VertexUsage::Color, VertexFormat::Uint8, &B_COLORS),
        ],
    )
}

fn mesh_b_wide() -> MeshDataRef<'static> {
    view(
        Some((IndexFormat::U32, &B_INDICES_WIDE)),
        &[
            (VertexUsage::Position, VertexFormat::Uint8x2, &B_POSITIONS),
            (VertexUsage::Color, VertexFormat::Uint8, &B_COLORS),
        ],
    )
}

fn unindexed(positions: &'static [u8], colors: &'static [u8]) -> MeshDataRef<'static> {
    view(
        None,
        &[
            (VertexUsage::Position, VertexFormat::Uint8x2, positions),
            (VertexUsage::Color, VertexFormat::Uint8, colors),
        ],
    )
}

fn assert_descriptor(
    d: &IyesMeshDescriptor,
    n_vertices: u32,
    user_data_len: u32,
    meshes: &[MeshInfo],
    indices: Option<IndicesInfo>,
) {
    assert_eq!(d.n_vertices, n_vertices);
    assert_eq!(d.user_data_len, user_data_len);
    assert_eq!(d.meshes.as_slice(), meshes);
    assert_eq!(d.indices, indices);
    assert_eq!(
        d.attributes.as_slice(),
        &[
            (VertexUsage::Position, VertexFormat::Uint8x2),
            (VertexUsage::Color, VertexFormat::Uint8),
        ]
    );
}

#[test]
fn default_settings() {
    let s = IyesMeshWriterSettings::default();
    assert!(!s.upconvert_indices);
    assert!(s.write_data_checksum);
    assert_eq!(s.compression_level, *zstd::compression_level_range().end());
}

#[test]
fn settings_from_flags() {
    let s = IyesMeshWriterSettings::from_flags(true, true, Some(7));
    assert_eq!(
        s,
        IyesMeshWriterSettings {
            upconvert_indices: true,
            write_data_checksum: false,
            compression_level: 7
        }
    );
    let s = IyesMeshWriterSettings::from_flags(false, false, None);
    assert_eq!(s, IyesMeshWriterSettings::default());
}

#[test]
fn writer_without_meshes_writes_nothing() {
    let mut out = vec![9];
    let r = IyesMeshWriter::new().write_to(&mut out);
    assert!(matches!(r, Err(WriteError::NoMeshes)));
    assert_eq!(out, vec![9]);
    let r = IyesMeshWriter::new().with_user_data(b"abc").write_to(&mut out);
    assert!(matches!(r, Err(WriteError::NoMeshes)));
    assert!(matches!(IyesMeshWriter::new().layout(), Err(WriteError::NoMeshes)));
    assert!(matches!(IyesMeshWriter::new().scan_needed_buffers(), Err(WriteError::NoMeshes)));
}

#[test]
fn view_that_is_not_valid_is_refused() {
    let mut w = IyesMeshWriter::new();
    assert!(matches!(w.add_mesh(MeshDataRef::default()), Err(WriteError::InvalidMesh)));
    let bad = view(None, &[(VertexUsage::Position, VertexFormat::Uint8x2, &A_COLORS)]);
    assert!(matches!(w.add_mesh(bad), Err(WriteError::InvalidMesh)));
    let bad = view(None, &[(VertexUsage::Position, VertexFormat::Uint8x2, &A_COLORS)]);
    assert!(matches!(IyesMeshWriter::new().with_mesh(bad), Err(WriteError::InvalidMesh)));
    // the writer stays as it was
    assert!(matches!(w.layout(), Err(WriteError::NoMeshes)));
    w.add_mesh(mesh_a()).unwrap();
    let bad = view(None, &[]);
    assert!(matches!(w.add_mesh(bad), Err(WriteError::InvalidMesh)));
    let (d, _) = w.layout().unwrap();
    assert_eq!(d.meshes.len(), 1);
}

#[test]
fn layout_of_two_indexed_views() {
    let w = IyesMeshWriter::new_with_settings(settings(false, true))
        .with_mesh(mesh_a())
        .unwrap()
        .with_mesh(mesh_b())
        .unwrap()
        .with_user_data(&[0xaa, 0xbb]);
    let have = w.scan_needed_buffers().unwrap();
    assert_eq!(have.indices, Some(IndexFormat::U16));
    assert_eq!(
        have.attrs.as_slice(),
        &[
            (VertexUsage::Position, VertexFormat::Uint8x2),
            (VertexUsage::Color, VertexFormat::Uint8),
        ]
    );
    assert_eq!(w.compute_uncompressed_sizes(false), Some(25));
    assert_eq!(w.compute_uncompressed_sizes(true), Some(35));
    assert_eq!(w.count_elements(), Some((5, 5)));
    assert_eq!(
        w.gen_meshinfo(true).unwrap(),
        vec![
            MeshInfo { first: 0, count: 3, base_vertex: 0 },
            MeshInfo { first: 3, count: 2, base_vertex: 3 },
        ]
    );
    let (d, payload) = w.layout().unwrap();
    assert_descriptor(
        &d,
        5,
        2,
        &[
            MeshInfo { first: 0, count: 3, base_vertex: 0 },
            MeshInfo { first: 3, count: 2, base_vertex: 3 },
        ],
        Some(IndicesInfo { n_indices: 5, format: IndexFormat::U16 }),
    );
    assert_eq!(
        payload,
        vec![
            0xaa, 0xbb, // user data
            0, 0, 1, 0, 2, 0, 1, 0, 0, 0, // indices
            10, 11, 12, 13, 14, 15, 20, 21, 22, 23, // positions
            1, 2, 3, 4, 5, // colors
        ]
    );
    assert_eq!(payload.len() as u64, d.compute_total_raw_data_size());
    assert_eq!(payload.len() as u64, 2 + w.compute_uncompressed_sizes(false).unwrap());
}

#[test]
fn layout_of_views_without_indices() {
    let w = IyesMeshWriter::new_with_settings(settings(false, true))
        .with_mesh(unindexed(&A_POSITIONS, &A_COLORS))
        .unwrap()
        .with_mesh(unindexed(&B_POSITIONS, &B_COLORS))
        .unwrap()
        .with_mesh(unindexed(&[], &[]))
        .unwrap();
    assert_eq!(
        w.gen_meshinfo(false).unwrap(),
        vec![
            MeshInfo { first: 0, count: 3, base_vertex: 0 },
            MeshInfo { first: 3, count: 2, base_vertex: 0 },
            MeshInfo { first: 5, count: 0, base_vertex: 0 },
        ]
    );
    assert_eq!(w.count_elements(), Some((5, 0)));
    let (d, payload) = w.layout().unwrap();
    assert_descriptor(
        &d,
        5,
        0,
        &[
            MeshInfo { first: 0, count: 3, base_vertex: 0 },
            MeshInfo { first: 3, count: 2, base_vertex: 0 },
            MeshInfo { first: 5, count: 0, base_vertex: 0 },
        ],
        None,
    );
    assert_eq!(payload, vec![10, 11, 12, 13, 14, 15, 20, 21, 22, 23, 1, 2, 3, 4, 5]);
}

#[test]
fn user_data_can_be_set_and_cleared() {
    let mut w = IyesMeshWriter::new().with_mesh(unindexed(&B_POSITIONS, &B_COLORS)).unwrap();
    w.set_user_data(&[7, 8, 9]);
    let (d, payload) = w.layout().unwrap();
    assert_eq!(d.user_data_len, 3);
    assert_eq!(&payload[..3], &[7, 8, 9]);
    w.set_user_data(&[6]);
    let (d, payload) = w.layout().unwrap();
    assert_eq!(d.user_data_len, 1);
    assert_eq!(payload[0], 6);
    w.clear_user_data();
    let (d, payload) = w.layout().unwrap();
    assert_eq!(d.user_data_len, 0);
    assert_eq!(payload, vec![20, 21, 22, 23, 4, 5]);
    let w = w.with_user_data(&[1, 2]).without_user_data();
    assert_eq!(w.layout().unwrap().0.user_data_len, 0);
}

#[test]
fn attributes_are_laid_out_in_canonical_order() {
    let custom_low = [1u8, 2];
    let custom_high = [3u8, 4];
    let tangents = [5u8, 6];
    let colors = [7u8, 8];
    let m = view(
        None,
        &[
            (VertexUsage::Color, VertexFormat::Uint8, &colors),
            (VertexUsage::Custom(40), VertexFormat::Sint8, &custom_high),
            (VertexUsage::Tangent, VertexFormat::Unorm8, &tangents),
            (VertexUsage::Custom(4), VertexFormat::Snorm8, &custom_low),
        ],
    );
    let w = IyesMeshWriter::new().with_mesh(m).unwrap();
    let (d, payload) = w.layout().unwrap();
    assert_eq!(
        d.attributes.as_slice(),
        &[
            (VertexUsage::Custom(4), VertexFormat::Snorm8),
            (VertexUsage::Custom(40), VertexFormat::Sint8),
            (VertexUsage::Tangent, VertexFormat::Unorm8),
            (VertexUsage::Color, VertexFormat::Uint8),
        ]
    );
    assert_eq!(payload, vec![1, 2, 3, 4, 5, 6, 7, 8]);
}

#[test]
fn views_with_different_attributes_are_incompatible() {
    let only_positions = view(
        Some((IndexFormat::U16, &B_INDICES)),
        &[(VertexUsage::Position, VertexFormat::Uint8x2, &B_POSITIONS)],
    );
    let w = IyesMeshWriter::new().with_mesh(mesh_a()).unwrap().with_mesh(only_positions).unwrap();
    assert!(matches!(w.scan_needed_buffers(), Err(WriteError::IncompatibleMeshes)));
    assert!(matches!(w.layout(), Err(WriteError::IncompatibleMeshes)));
    let mut out = Vec::new();
    assert!(matches!(w.write_to(&mut out), Err(WriteError::IncompatibleMeshes)));
    assert!(out.is_empty());
    // the other way round: the second view has an attribute more
    let only_positions = view(
        Some((IndexFormat::U16, &B_INDICES)),
        &[(VertexUsage::Position, VertexFormat::Uint8x2, &B_POSITIONS)],
    );
    let w = IyesMeshWriter::new().with_mesh(only_positions).unwrap().with_mesh(mesh_a()).unwrap();
    assert!(matches!(w.layout(), Err(WriteError::IncompatibleMeshes)));
    // as many attributes, of other usages
    let normals = view(
        Some((IndexFormat::U16, &B_INDICES)),
        &[
            (VertexUsage::Position, VertexFormat::Uint8x2, &B_POSITIONS),
            (VertexUsage::Normal, VertexFormat::Uint8, &B_COLORS),
        ],
    );
    let w = IyesMeshWriter::new().with_mesh(mesh_a()).unwrap().with_mesh(normals).unwrap();
    assert!(matches!(w.layout(), Err(WriteError::IncompatibleMeshes)));
}

#[test]
fn views_with_different_formats_are_incompatible() {
    let other_format = view(
        Some((IndexFormat::U16, &B_INDICES)),
        &[
            (VertexUsage::Position, VertexFormat::Sint8x2, &B_POSITIONS),
            (VertexUsage::Color, VertexFormat::Uint8, &B_COLORS),
        ],
    );
    let w = IyesMeshWriter::new_with_settings(settings(true, true))
        .with_mesh(mesh_a())
        .unwrap()
        .with_mesh(other_format)
        .unwrap();
    assert!(matches!(w.layout(), Err(WriteError::IncompatibleMeshes)));
    let mut out = Vec::new();
    assert!(matches!(w.write_to(&mut out), Err(WriteError::IncompatibleMeshes)));
}

#[test]
fn indexed_and_unindexed_views_are_incompatible() {
    for upconvert in [false, true] {
        let w = IyesMeshWriter::new_with_settings(settings(upconvert, true))
            .with_mesh(mesh_a())
            .unwrap()
            .with_mesh(unindexed(&B_POSITIONS, &B_COLORS))
            .unwrap();
        assert!(matches!(w.layout(), Err(WriteError::IncompatibleMeshes)));
        let w = IyesMeshWriter::new_with_settings(settings(upconvert, true))
            .with_mesh(unindexed(&B_POSITIONS, &B_COLORS))
            .unwrap()
            .with_mesh(mesh_a())
            .unwrap();
        assert!(matches!(w.layout(), Err(WriteError::IncompatibleMeshes)));
    }
}

#[test]
fn narrow_and_wide_indices_are_incompatible_unless_made_wide() {
    let w = IyesMeshWriter::new_with_settings(settings(false, true))
        .with_mesh(mesh_a())
        .unwrap()
        .with_mesh(mesh_b_wide())
        .unwrap();
    assert!(matches!(w.scan_needed_buffers(), Err(WriteError::IncompatibleMeshes)));
    let mut out = Vec::new();
    assert!(matches!(w.write_to(&mut out), Err(WriteError::IncompatibleMeshes)));
    let w = IyesMeshWriter::new_with_settings(settings(false, true))
        .with_mesh(mesh_b_wide())
        .unwrap()
        .with_mesh(mesh_a())
        .unwrap();
    assert!(matches!(w.layout(), Err(WriteError::IncompatibleMeshes)));
    // a narrow view after a narrow and a wide one
    let w = IyesMeshWriter::new_with_settings(settings(false, true))
        .with_mesh(mesh_b_wide())
        .unwrap()
        .with_mesh(mesh_b_wide())
        .unwrap()
        .with_mesh(mesh_a())
        .unwrap();
    assert!(matches!(w.layout(), Err(WriteError::IncompatibleMeshes)));
}

#[test]
fn narrow_indices_are_made_wide() {
    for wide_first in [false, true] {
        let mut w = IyesMeshWriter::new_with_settings(settings(true, true));
        if wide_first {
            w.add_mesh(mesh_b_wide()).unwrap();
            w.add_mesh(mesh_a()).unwrap();
        } else {
            w.add_mesh(mesh_a()).unwrap();
            w.add_mesh(mesh_b_wide()).unwrap();
        }
        let have = w.scan_needed_buffers().unwrap();
        assert_eq!(have.indices, Some(IndexFormat::U32));
        let (d, payload) = w.layout().unwrap();
        assert_eq!(d.indices, Some(IndicesInfo { n_indices: 5, format: IndexFormat::U32 }));
        let a_wide = [0, 0, 0, 0, 1, 0, 0, 0, 2, 0, 0, 0];
        let mut expected = Vec::new();
        if wide_first {
            expected.extend_from_slice(&B_INDICES_WIDE);
            expected.extend_from_slice(&a_wide);
            expected.extend_from_slice(&B_POSITIONS);
            expected.extend_from_slice(&A_POSITIONS);
            expected.extend_from_slice(&B_COLORS);
            expected.extend_from_slice(&A_COLORS);
        } else {
            expected.extend_from_slice(&a_wide);
            expected.extend_from_slice(&B_INDICES_WIDE);
            expected.extend_from_slice(&A_POSITIONS);
            expected.extend_from_slice(&B_POSITIONS);
            expected.extend_from_slice(&A_COLORS);
            expected.extend_from_slice(&B_COLORS);
        }
        assert_eq!(payload, expected);
        assert_eq!(payload.len() as u64, d.compute_total_raw_data_size());
        assert_eq!(w.compute_uncompressed_sizes(true), Some(35));
        assert_eq!(payload.len(), 35);
    }
}

#[test]
fn narrow_indices_stay_narrow_among_themselves() {
    let w = IyesMeshWriter::new_with_settings(settings(true, true))
        .with_mesh(mesh_a())
        .unwrap()
        .with_mesh(mesh_b())
        .unwrap();
    assert_eq!(w.scan_needed_buffers().unwrap().indices, Some(IndexFormat::U16));
    let (d, payload) = w.layout().unwrap();
    assert_eq!(d.indices, Some(IndicesInfo { n_indices: 5, format: IndexFormat::U16 }));
    assert_eq!(&payload[..10], &[0, 0, 1, 0, 2, 0, 1, 0, 0, 0]);
}

#[test]
fn widening_keeps_the_values() {
    let mut out = vec![0xee];
    widen_into(&[0x34, 0x12, 0xff, 0xff, 0x00, 0x00], &mut out);
    assert_eq!(out, vec![0xee, 0x34, 0x12, 0, 0, 0xff, 0xff, 0, 0, 0, 0, 0, 0]);
    let narrow: Vec<u16> = vec![0, 1, 65535, 256, 4660];
    let mut bytes = Vec::new();
    for v in &narrow {
        bytes.extend_from_slice(&v.to_le_bytes());
    }
    let mut wide = Vec::new();
    widen_into(&bytes, &mut wide);
    assert_eq!(wide.len(), 2 * bytes.len());
    for (i, v) in narrow.iter().enumerate() {
        let w = u32::from_le_bytes([wide[4 * i], wide[4 * i + 1], wide[4 * i + 2], wide[4 * i + 3]]);
        assert_eq!(w, *v as u32);
    }
    let mut odd = Vec::new();
    widen_into(&[1, 2, 3], &mut odd);
    assert_eq!(odd, vec![1, 2, 0, 0]);
    let mut none = Vec::new();
    widen_into(&[], &mut none);
    assert!(none.is_empty());
}

#[test]
fn size_of_the_buffers_of_a_view() {
    assert_eq!(mesh_buffers_size(&mesh_a(), false), Some(15));
    assert_eq!(mesh_buffers_size(&mesh_a(), true), Some(21));
    assert_eq!(mesh_buffers_size(&mesh_b_wide(), false), Some(14));
    assert_eq!(mesh_buffers_size(&mesh_b_wide(), true), Some(14));
    assert_eq!(mesh_buffers_size(&unindexed(&B_POSITIONS, &B_COLORS), true), Some(6));
}

#[test]
fn frame_is_header_descriptor_stream() {
    let header = IyesMeshHeader::sealed(3, 0x0102, 0x0304);
    let mut out = vec![0x77];
    frame_container(&mut out, &header, &[1, 2, 3], &[4, 5]);
    let mut expected = vec![0x77];
    expected.extend_from_slice(&header.as_bytes());
    expected.extend_from_slice(&[1, 2, 3, 4, 5]);
    assert_eq!(out, expected);
    assert_eq!(out.len(), 1 + 24 + 3 + 2);
}

#[test]
fn sealed_container_carries_both_checksums() {
    let descriptor = [9u8, 8, 7];
    let stream = [1u8, 2, 3, 4];
    let mut out = Vec::new();
    seal_container(&mut out, &descriptor, &stream, true).unwrap();
    let header = IyesMeshHeader::from_bytes(&out[..24]).unwrap();
    assert_eq!(header.magic, iyes_mesh::MAGIC);
    assert_eq!(header.version, iyes_mesh::FORMAT_VERSION);
    assert_eq!(header.descriptor_len, 3);
    assert_eq!(header.data_checksum, iyes_mesh::checksum::checksum_data(&stream));
    assert_eq!(
        header.metadata_checksum,
        iyes_mesh::checksum::checksum_metadata(header, &descriptor)
    );
    assert_eq!(&out[24..27], &descriptor);
    assert_eq!(&out[27..], &stream);
}

#[test]
fn sealed_container_without_data_checksum_stores_zero() {
    let descriptor = [9u8, 8, 7];
    let stream = [1u8, 2, 3, 4];
    let mut out = Vec::new();
    seal_container(&mut out, &descriptor, &stream, false).unwrap();
    let header = IyesMeshHeader::from_bytes(&out[..24]).unwrap();
    assert_eq!(header.data_checksum, 0);
    assert_eq!(&out[16..24], &[0; 8]);
    assert_eq!(
        header.metadata_checksum,
        iyes_mesh::checksum::checksum_metadata(header, &descriptor)
    );
}

#[test]
fn descriptor_longer_than_sixteen_bits_cannot_be_sealed() {
    let mut out = vec![1, 2];
    let descriptor = vec![0u8; 65536];
    let r = seal_container(&mut out, &descriptor, &[], true);
    assert!(matches!(r, Err(WriteError::TooLarge)));
    assert_eq!(out, vec![1, 2]);
    let descriptor = vec![0u8; 65535];
    seal_container(&mut out, &descriptor, &[], true).unwrap();
    assert_eq!(out.len(), 2 + 24 + 65535);
    assert_eq!(&out[8..10], &[0xff, 0xff]);
}

#[test]
fn too_many_views_for_one_descriptor() {
    let bytes = [0u8; 1];
    let mut w = IyesMeshWriter::new_with_settings(settings(false, true));
    for _ in 0..70000 {
        w.add_mesh(view(None, &[(VertexUsage::Position, VertexFormat::Uint8, &bytes)])).unwrap();
    }
    let (d, payload) = w.layout().unwrap();
    assert_eq!(d.n_vertices, 70000);
    assert_eq!(payload.len(), 70000);
    assert!(d.to_bytes().len() > 65535);
    let mut out = vec![5];
    assert!(matches!(w.write_to(&mut out), Err(WriteError::TooLarge)));
    assert_eq!(out, vec![5]);
}

#[test]
fn written_container_starts_with_the_sealed_header() {
    for write_data_checksum in [true, false] {
        let w = IyesMeshWriter::new_with_settings(settings(false, write_data_checksum))
            .with_mesh(mesh_a())
            .unwrap()
            .with_mesh(mesh_b())
            .unwrap()
            .with_user_data(&[0xaa, 0xbb]);
        let (d, payload) = w.layout().unwrap();
        let mut out = vec![0x55];
        w.write_to(&mut out).unwrap();
        assert_eq!(out[0], 0x55);
        let file = &out[1..];
        let descriptor = d.to_bytes();
        let stream = iyes_mesh::io::compress_payload(&payload, 3).unwrap();
        let mut expected = Vec::new();
        seal_container(&mut expected, &descriptor, &stream, write_data_checksum).unwrap();
        assert_eq!(file, expected.as_slice());
        let header = IyesMeshHeader::from_bytes(&file[..24]).unwrap();
        assert_eq!(header.descriptor_len as usize, descriptor.len());
        if write_data_checksum {
            assert_eq!(header.data_checksum, iyes_mesh::checksum::checksum_data(&stream));
            assert_ne!(header.data_checksum, 0);
        } else {
            assert_eq!(header.data_checksum, 0);
        }
    }
}

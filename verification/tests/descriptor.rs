use iyes_mesh::attributes::AttributeMap;
use iyes_mesh::descriptor::{
    IndexFormat, IndicesInfo, IyesMeshDescriptor, IyesMeshDescriptorParseError, MeshInfo,
    VertexFormat, VertexUsage,
};

fn all_formats() -> Vec<(VertexFormat, usize)> {
    vec![
        (VertexFormat::Float16, 2),
        (VertexFormat::Float32, 4),
        (VertexFormat::Float64, 8),
        (VertexFormat::Float16x2, 4),
        (VertexFormat::Float16x4, 8),
        (VertexFormat::Float32x2, 8),
        (VertexFormat::Float32x3, 12),
        (VertexFormat::Float32x4, 16),
        (VertexFormat::Float64x2, 16),
        (VertexFormat::Float64x3, 24),
        (VertexFormat::Float64x4, 32),
        (VertexFormat::Sint8, 1),
        (VertexFormat::Sint8x2, 2),
        (VertexFormat::Sint8x4, 4),
        (VertexFormat::Sint16, 2),
        (VertexFormat::Sint32, 4),
        (VertexFormat::Sint16x2, 4),
        (VertexFormat::Sint16x4, 8),
        (VertexFormat::Sint32x2, 8),
        (VertexFormat::Sint32x3, 12),
        (VertexFormat::Sint32x4, 16),
        (VertexFormat::Snorm8, 1),
        (VertexFormat::Snorm8x2, 2),
        (VertexFormat::Snorm8x4, 4),
        (VertexFormat::Snorm16, 2),
        (VertexFormat::Snorm16x2, 4),
        (VertexFormat::Snorm16x4, 8),
        (VertexFormat::Uint8, 1),
        (VertexFormat::Uint8x2, 2),
        (VertexFormat::Uint8x4, 4),
        (VertexFormat::Uint16, 2),
        (VertexFormat::Uint32, 4),
        (VertexFormat::Uint16x2, 4),
        (VertexFormat::Uint16x4, 8),
        (VertexFormat::Uint32x2, 8),
        (VertexFormat::Uint32x3, 12),
        (VertexFormat::Uint32x4, 16),
        (VertexFormat::Unorm8, 1),
        (VertexFormat::Unorm8x2, 2),
        (VertexFormat::Unorm8x4, 4),
        (VertexFormat::Unorm8x4Bgra, 4),
        (VertexFormat::Unorm16, 2),
        (VertexFormat::Unorm10_10_10_2, 4),
        (VertexFormat::Unorm16x2, 4),
        (VertexFormat::Unorm16x4, 8),
    ]
}

fn sample() -> IyesMeshDescriptor {
    let mut attributes = AttributeMap::new();
    attributes.insert(VertexUsage::Color, VertexFormat::Unorm8x4);
    attributes.insert(VertexUsage::Position, VertexFormat::Float32x3);
    attributes.insert(VertexUsage::Custom(7), VertexFormat::Float64x4);
    IyesMeshDescriptor {
        n_vertices: 10,
        user_data_len: 5,
        meshes: vec![
            MeshInfo { first: 0, count: 6, base_vertex: 0 },
            MeshInfo { first: 6, count: 3, base_vertex: 4 },
        ],
        indices: Some(IndicesInfo { n_indices: 9, format: IndexFormat::U16 }),
        attributes,
    }
}

#[test]
fn index_format_sizes() {
    assert_eq!(IndexFormat::U16.size(), 2);
    assert_eq!(IndexFormat::U32.size(), 4);
}

#[test]
fn vertex_format_sizes() {
    let formats = all_formats();
    assert_eq!(formats.len(), 45);
    for (format, size) in formats {
        assert_eq!(format.size(), size, "{:?}", format);
    }
}

#[test]
fn vertex_format_codes_follow_the_declaration() {
    for (place, (format, _)) in all_formats().into_iter().enumerate() {
        assert_eq!(format.code() as usize, place);
        assert_eq!(VertexFormat::from_code(place as u8), Some(format));
    }
    assert_eq!(VertexFormat::from_code(45), None);
    assert_eq!(VertexFormat::from_code(255), None);
}

#[test]
fn index_format_codes() {
    assert_eq!(IndexFormat::U16.code(), 0);
    assert_eq!(IndexFormat::U32.code(), 1);
    assert_eq!(IndexFormat::from_code(0), Some(IndexFormat::U16));
    assert_eq!(IndexFormat::from_code(1), Some(IndexFormat::U32));
    assert_eq!(IndexFormat::from_code(2), None);
}

#[test]
fn usage_order_keys() {
    assert_eq!(VertexUsage::Custom(0).order_key(), 0);
    assert_eq!(VertexUsage::Custom(u32::MAX).order_key(), 0xffff_ffff);
    assert_eq!(VertexUsage::Position.order_key(), 0x1_0000_0000);
    assert_eq!(VertexUsage::Normal.order_key(), 0x1_0000_0001);
    assert_eq!(VertexUsage::Tangent.order_key(), 0x1_0000_0002);
    assert_eq!(VertexUsage::Uv0.order_key(), 0x1_0000_0003);
    assert_eq!(VertexUsage::Uv1.order_key(), 0x1_0000_0004);
    assert_eq!(VertexUsage::JointIndex.order_key(), 0x1_0000_0005);
    assert_eq!(VertexUsage::JointWeight.order_key(), 0x1_0000_0006);
    assert_eq!(VertexUsage::Color.order_key(), 0x1_0000_0007);
    let usages = [
        VertexUsage::Custom(0),
        VertexUsage::Custom(9),
        VertexUsage::Position,
        VertexUsage::Normal,
        VertexUsage::Tangent,
        VertexUsage::Uv0,
        VertexUsage::Uv1,
        VertexUsage::JointIndex,
        VertexUsage::JointWeight,
        VertexUsage::Color,
    ];
    for usage in usages {
        assert_eq!(VertexUsage::from_order_key(usage.order_key()), Some(usage));
    }
    assert_eq!(VertexUsage::from_order_key(0x1_0000_0008), None);
    assert_eq!(VertexUsage::from_order_key(u64::MAX), None);
}

#[test]
fn buffer_sizes() {
    let d = sample();
    assert_eq!(d.compute_vertex_buf_size(VertexUsage::Position), Some(120));
    assert_eq!(d.compute_vertex_buf_size(VertexUsage::Color), Some(40));
    assert_eq!(d.compute_vertex_buf_size(VertexUsage::Custom(7)), Some(320));
    assert_eq!(d.compute_vertex_buf_size(VertexUsage::Custom(8)), None);
    assert_eq!(d.compute_vertex_buf_size(VertexUsage::Normal), None);
    assert_eq!(d.compute_index_buf_size(), Some(18));
    assert_eq!(d.checked_all_vertex_buf_sizes(), Some(480));
    assert_eq!(d.compute_all_vertex_buf_sizes(), 480);
    assert_eq!(d.compute_all_buf_sizes(), 498);
    assert_eq!(d.compute_total_raw_data_size(), 503);
    assert_eq!(d.checked_total_raw_data_size(), Some(503));
}

#[test]
fn buffer_sizes_without_indices() {
    let mut d = sample();
    d.indices = None;
    assert_eq!(d.compute_index_buf_size(), None);
    assert_eq!(d.compute_all_buf_sizes(), 480);
    assert_eq!(d.compute_total_raw_data_size(), 485);
}

#[test]
fn buffer_sizes_do_not_wrap_at_32_bits() {
    let mut attributes = AttributeMap::new();
    attributes.insert(VertexUsage::Position, VertexFormat::Float64x4);
    let d = IyesMeshDescriptor {
        n_vertices: u32::MAX,
        user_data_len: u32::MAX,
        meshes: vec![],
        indices: Some(IndicesInfo { n_indices: u32::MAX, format: IndexFormat::U32 }),
        attributes,
    };
    assert_eq!(d.compute_vertex_buf_size(VertexUsage::Position), Some(32 * 0xffff_ffff));
    assert_eq!(d.compute_index_buf_size(), Some(4 * 0xffff_ffff));
    assert_eq!(d.checked_total_raw_data_size(), Some(37 * 0xffff_ffff));
}

#[test]
fn record_round_trip() {
    let d = sample();
    let record = d.to_record();
    assert_eq!(record.0, 10);
    assert_eq!(record.1, 5);
    assert_eq!(record.2, vec![(0, 6, 0), (6, 3, 4)]);
    assert_eq!(record.3, Some((9, 0)));
    assert_eq!(record.4, vec![(7, 10), (0x1_0000_0000, 6), (0x1_0000_0007, 39)]);
    let back = IyesMeshDescriptor::from_record(record).unwrap();
    assert_eq!(back.n_vertices, 10);
    assert_eq!(back.user_data_len, 5);
    assert_eq!(back.meshes, d.meshes);
    assert_eq!(back.indices, d.indices);
    assert_eq!(back.attributes.as_slice(), d.attributes.as_slice());
}

#[test]
fn record_with_unknown_index_format_is_refused() {
    let r = IyesMeshDescriptor::from_record((1, 0, vec![], Some((3, 2)), vec![]));
    assert!(matches!(r, Err(IyesMeshDescriptorParseError::InvalidValue)));
}

#[test]
fn record_with_unknown_vertex_format_is_refused() {
    let r = IyesMeshDescriptor::from_record((1, 0, vec![], None, vec![(0x1_0000_0000, 45)]));
    assert!(matches!(r, Err(IyesMeshDescriptorParseError::InvalidValue)));
}

#[test]
fn record_with_unknown_usage_is_refused() {
    let r = IyesMeshDescriptor::from_record((1, 0, vec![], None, vec![(0x1_0000_0008, 0)]));
    assert!(matches!(r, Err(IyesMeshDescriptorParseError::InvalidValue)));
}

#[test]
fn record_out_of_canonical_order_is_refused() {
    let r = IyesMeshDescriptor::from_record((
        1,
        0,
        vec![],
        None,
        vec![(0x1_0000_0001, 0), (0x1_0000_0000, 0)],
    ));
    assert!(matches!(r, Err(IyesMeshDescriptorParseError::InvalidValue)));
    let r = IyesMeshDescriptor::from_record((1, 0, vec![], None, vec![(5, 0), (5, 1)]));
    assert!(matches!(r, Err(IyesMeshDescriptorParseError::InvalidValue)));
}

#[test]
fn bytes_round_trip() {
    let d = sample();
    let bytes = d.to_bytes();
    assert!(!bytes.is_empty());
    assert_eq!(bytes, bitcode::encode(&d.to_record()));
    let back = IyesMeshDescriptor::from_bytes(&bytes).unwrap();
    assert_eq!(back.n_vertices, d.n_vertices);
    assert_eq!(back.user_data_len, d.user_data_len);
    assert_eq!(back.meshes, d.meshes);
    assert_eq!(back.indices, d.indices);
    assert_eq!(back.attributes.as_slice(), d.attributes.as_slice());
}

#[test]
fn bytes_that_are_no_record_are_refused() {
    let r = IyesMeshDescriptor::from_bytes(&[]);
    assert!(matches!(r, Err(IyesMeshDescriptorParseError::Bitcode(_))));
    let mut bytes = sample().to_bytes();
    bytes.push(0);
    let r = IyesMeshDescriptor::from_bytes(&bytes);
    assert!(matches!(r, Err(IyesMeshDescriptorParseError::Bitcode(_))));
}

#[test]
fn bytes_of_an_invalid_record_are_refused() {
    let record: (u32, u32, Vec<(u32, u32, i32)>, Option<(u32, u8)>, Vec<(u64, u8)>) =
        (1, 0, vec![], Some((3, 9)), vec![]);
    let bytes = bitcode::encode(&record);
    let r = IyesMeshDescriptor::from_bytes(&bytes);
    assert!(matches!(r, Err(IyesMeshDescriptorParseError::InvalidValue)));
}

#[test]
fn default_mesh_info_is_zero() {
    assert_eq!(MeshInfo::default(), MeshInfo { first: 0, count: 0, base_vertex: 0 });
}

#[test]
fn clone_keeps_the_descriptor() {
    let d = sample();
    let c = d.clone();
    assert_eq!(c.n_vertices, d.n_vertices);
    assert_eq!(c.user_data_len, d.user_data_len);
    assert_eq!(c.meshes, d.meshes);
    assert_eq!(c.indices, d.indices);
    assert_eq!(c.attributes.as_slice(), d.attributes.as_slice());
}

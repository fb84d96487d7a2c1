use iyes_mesh::attributes::AttributeMap;
use iyes_mesh::descriptor::{IndexFormat, VertexFormat, VertexUsage};
use iyes_mesh::mesh::MeshDataRef;
use iyes_mesh::read::{IyesMeshReader, IyesMeshReaderSettings};
use iyes_mesh::write::{IyesMeshWriter, IyesMeshWriterSettings};

fn le_f32(values: &[f32]) -> Vec<u8> {
    let mut out = Vec::new();
    for v in values {
        out.extend_from_slice(&v.to_le_bytes());
    }
    out
}

fn le_u16(values: &[u16]) -> Vec<u8> {
    let mut out = Vec::new();
    for v in values {
        out.extend_from_slice(&v.to_le_bytes());
    }
    out
}

fn le_u32(values: &[u32]) -> Vec<u8> {
    let mut out = Vec::new();
    for v in values {
        out.extend_from_slice(&v.to_le_bytes());
    }
    out
}

fn view<'s>(
    indices: Option<(IndexFormat, &'s [u8])>,
    attributes: &[(VertexUsage, VertexFormat, &'s [u8])],
) -> MeshDataRef<'s> {
    let mut map = AttributeMap::new();
    for (usage, format, bytes) in attributes {
        map.insert(*usage, (*format, *bytes));
    }
    MeshDataRef { indices, attributes: map }
}

fn assert_same_view(back: &MeshDataRef, sent: &MeshDataRef) {
    assert_eq!(back.indices, sent.indices);
    assert_eq!(back.attributes.as_slice(), sent.attributes.as_slice());
}

fn round_trip(views: &[MeshDataRef], user_data: Option<&[u8]>, settings: IyesMeshWriterSettings) {
    let mut writer = IyesMeshWriter::new_with_settings(settings);
    if let Some(user_data) = user_data {
        writer.set_user_data(user_data);
    }
    for v in views {
        writer.add_mesh(v.clone()).unwrap();
    }
    let mut file = Vec::new();
    writer.write_to(&mut file).unwrap();
    let reader = IyesMeshReader::init(&file).unwrap();
    let with_data = reader.read_all_data().unwrap();
    let flat = with_data.into_flat_buffers().unwrap();
    match user_data {
        Some(bytes) if !bytes.is_empty() => assert_eq!(flat.user_data, Some(bytes)),
        _ => assert_eq!(flat.user_data, None),
    }
    let split = with_data.into_split_meshes(&flat).unwrap();
    assert_eq!(split.meshes.len(), views.len());
    for (back, sent) in split.meshes.iter().zip(views) {
        assert_same_view(back, sent);
    }
    let user = IyesMeshReader::init(&file).unwrap().read_user_data().unwrap();
    assert_eq!(user.as_slice(), user_data.unwrap_or(&[]));
}

#[test]
fn cube_with_user_data() {
    let positions = le_f32(&[
        -1.0, -1.0, 1.0, 1.0, -1.0, 1.0, 1.0, 1.0, 1.0, -1.0, 1.0, 1.0, -1.0, -1.0, -1.0, 1.0,
        -1.0, -1.0, 1.0, 1.0, -1.0, -1.0, 1.0, -1.0,
    ]);
    let normals = le_f32(&[
        0.0, 0.0, 1.0, 0.0, 0.0, 1.0, 0.0, 0.0, 1.0, 0.0, 0.0, 1.0, 0.0, 0.0, -1.0, 0.0, 0.0,
        -1.0, 0.0, 0.0, -1.0, 0.0, 0.0, -1.0,
    ]);
    let uvs = le_f32(&[
        0.0, 0.0, 0.0, 1.0, 1.0, 0.0, 1.0, 1.0, 1.0, 1.0, 1.0, 0.0, 0.0, 1.0, 0.0, 0.0,
    ]);
    let colors = le_f32(&[
        0.0, 0.0, 0.0, 1.0, 1.0, 0.0, 0.0, 1.0, 0.0, 1.0, 0.0, 1.0, 0.0, 0.0, 1.0, 1.0, 1.0, 1.0,
        1.0, 1.0, 0.0, 1.0, 1.0, 1.0, 1.0, 0.0, 1.0, 1.0, 1.0, 1.0, 0.0, 1.0,
    ]);
    let indices = le_u16(&[
        0, 1, 2, 2, 3, 0, 4, 5, 6, 6, 7, 4, 4, 0, 3, 3, 7, 4, 1, 5, 6, 6, 2, 1, 3, 2, 6, 6, 7, 3,
        4, 5, 1, 1, 0, 4,
    ]);
    let user_data = b"Hello World!";
    assert_eq!(user_data.len(), 12);
    let cube = view(
        Some((IndexFormat::U16, &indices)),
        &[
            (VertexUsage::Position, VertexFormat::Float32x3, &positions),
            (VertexUsage::Normal, VertexFormat::Float32x3, &normals),
            (VertexUsage::Uv0, VertexFormat::Float32x2, &uvs),
            (VertexUsage::Color, VertexFormat::Float32x4, &colors),
        ],
    );
    assert!(cube.validate());
    assert_eq!(cube.n_vertices(), 8);
    assert_eq!(cube.n_indices(), Some(36));
    let mut file = Vec::new();
    IyesMeshWriter::new()
        .with_mesh(cube.clone())
        .unwrap()
        .with_user_data(user_data)
        .write_to(&mut file)
        .unwrap();

    // the container opens and passes both checksums
    let settings =
        IyesMeshReaderSettings { verify_metadata_checksum: true, verify_data_checksum: true };
    let reader = IyesMeshReader::init_with_settings(settings, &file).unwrap();
    assert_ne!(reader.header().data_checksum, 0);
    reader.verify_data_checksum().unwrap();

    let reader = IyesMeshReader::init_with_settings(settings, &file).unwrap();
    let d = reader.descriptor();
    assert_eq!(d.n_vertices, 8);
    assert_eq!(d.user_data_len, 12);
    let info = d.indices.unwrap();
    assert_eq!(info.n_indices, 36);
    assert_eq!(info.format, IndexFormat::U16);
    assert_eq!(d.meshes.len(), 1);
    assert_eq!(d.meshes[0].first, 0);
    assert_eq!(d.meshes[0].count, 36);
    assert_eq!(d.meshes[0].base_vertex, 0);
    assert_eq!(
        d.attributes.as_slice(),
        &[
            (VertexUsage::Position, VertexFormat::Float32x3),
            (VertexUsage::Normal, VertexFormat::Float32x3),
            (VertexUsage::Uv0, VertexFormat::Float32x2),
            (VertexUsage::Color, VertexFormat::Float32x4),
        ]
    );
    assert_eq!(d.compute_total_raw_data_size(), 12 + 72 + 96 + 96 + 64 + 128);
    assert_eq!(reader.read_user_data().unwrap(), user_data.to_vec());

    let reader = IyesMeshReader::init_with_settings(settings, &file).unwrap();
    let with_data = reader.read_all_data().unwrap();
    let flat = with_data.into_flat_buffers().unwrap();
    assert_eq!(flat.user_data, Some(&user_data[..]));
    let split = with_data.into_split_meshes(&flat).unwrap();
    assert_eq!(split.meshes.len(), 1);
    assert_same_view(&split.meshes[0], &cube);
}

#[test]
fn several_views_come_back_in_their_order() {
    let p0 = le_f32(&[0.0, 1.0, 2.0, 3.0, 4.0, 5.0, 6.0, 7.0, 8.0]);
    let c0 = [1u8, 2, 3, 4, 5, 6, 7, 8, 9, 10, 11, 12];
    let i0 = le_u16(&[2, 1, 0, 0, 1, 2]);
    let p1 = le_f32(&[9.0, 10.0, 11.0, 12.0, 13.0, 14.0]);
    let c1 = [13u8, 14, 15, 16, 17, 18, 19, 20];
    let i1 = le_u16(&[0, 1]);
    let p2 = le_f32(&[15.0, 16.0, 17.0]);
    let c2 = [21u8, 22, 23, 24];
    let i2 = le_u16(&[0, 0, 0]);
    let views = [
        view(
            Some((IndexFormat::U16, &i0)),
            &[
                (VertexUsage::Position, VertexFormat::Float32x3, &p0),
                (VertexUsage::Color, VertexFormat::Unorm8x4, &c0),
            ],
        ),
        view(
            Some((IndexFormat::U16, &i1)),
            &[
                (VertexUsage::Position, VertexFormat::Float32x3, &p1),
                (VertexUsage::Color, VertexFormat::Unorm8x4, &c1),
            ],
        ),
        view(
            Some((IndexFormat::U16, &i2)),
            &[
                (VertexUsage::Position, VertexFormat::Float32x3, &p2),
                (VertexUsage::Color, VertexFormat::Unorm8x4, &c2),
            ],
        ),
    ];
    for write_data_checksum in [true, false] {
        for level in [1, 19] {
            let settings = IyesMeshWriterSettings {
                upconvert_indices: false,
                write_data_checksum,
                compression_level: level,
            };
            round_trip(&views, Some(b"user data"), settings);
            round_trip(&views, None, settings);
            round_trip(&views, Some(b""), settings);
            round_trip(&views[1..], Some(&[0]), settings);
        }
    }
}

#[test]
fn views_without_indices_come_back() {
    let p0 = le_f32(&[0.0, 1.0, 2.0, 3.0, 4.0, 5.0]);
    let t0 = [1u8, 2];
    let p1 = le_f32(&[6.0, 7.0, 8.0]);
    let t1 = [3u8];
    let views = [
        view(
            None,
            &[
                (VertexUsage::Custom(1), VertexFormat::Uint8, &t0),
                (VertexUsage::Position, VertexFormat::Float32x3, &p0),
            ],
        ),
        view(
            None,
            &[
                (VertexUsage::Custom(1), VertexFormat::Uint8, &t1),
                (VertexUsage::Position, VertexFormat::Float32x3, &p1),
            ],
        ),
        view(
            None,
            &[
                (VertexUsage::Custom(1), VertexFormat::Uint8, &[]),
                (VertexUsage::Position, VertexFormat::Float32x3, &[]),
            ],
        ),
    ];
    round_trip(&views, Some(b"x"), IyesMeshWriterSettings::default());
}

#[test]
fn narrow_indices_come_back_wide_with_the_same_values() {
    let p0 = [1u8, 2, 3];
    let narrow: Vec<u16> = vec![2, 0, 1, 1, 0];
    let i0 = le_u16(&narrow);
    let p1 = [4u8, 5];
    let i1 = le_u32(&[1, 0, 1]);
    let views = [
        view(Some((IndexFormat::U16, &i0)), &[(VertexUsage::Position, VertexFormat::Uint8, &p0)]),
        view(Some((IndexFormat::U32, &i1)), &[(VertexUsage::Position, VertexFormat::Uint8, &p1)]),
    ];
    let mut writer = IyesMeshWriter::new_with_settings(IyesMeshWriterSettings {
        upconvert_indices: true,
        write_data_checksum: true,
        compression_level: 3,
    });
    for v in &views {
        writer.add_mesh(v.clone()).unwrap();
    }
    let mut file = Vec::new();
    writer.write_to(&mut file).unwrap();
    let reader = IyesMeshReader::init(&file).unwrap();
    let info = reader.descriptor().indices.unwrap();
    assert_eq!(info.format, IndexFormat::U32);
    assert_eq!(info.n_indices, 8);
    let with_data = reader.read_all_data().unwrap();
    let flat = with_data.into_flat_buffers().unwrap();
    let split = with_data.into_split_meshes(&flat).unwrap();
    let (format, bytes) = split.meshes[0].indices.unwrap();
    assert_eq!(format, IndexFormat::U32);
    let wide: Vec<u32> = narrow.iter().map(|v| *v as u32).collect();
    assert_eq!(bytes, le_u32(&wide).as_slice());
    assert_eq!(split.meshes[0].attributes.as_slice(), views[0].attributes.as_slice());
    assert_same_view(&split.meshes[1], &views[1]);
}

#[test]
fn a_view_comes_back_with_the_vertices_its_indices_reach() {
    // the indices leave the first and the last vertex out
    let positions = [10u8, 11, 12, 13, 14];
    let indices = le_u16(&[2, 1, 3]);
    let v = view(
        Some((IndexFormat::U16, &indices)),
        &[(VertexUsage::Position, VertexFormat::Uint8, &positions)],
    );
    let mut file = Vec::new();
    IyesMeshWriter::new().with_mesh(v).unwrap().write_to(&mut file).unwrap();
    let with_data = IyesMeshReader::init(&file).unwrap().read_all_data().unwrap();
    let flat = with_data.into_flat_buffers().unwrap();
    assert_eq!(flat.buf_attrs.get(VertexUsage::Position).unwrap().1, &positions[..]);
    let split = with_data.into_split_meshes(&flat).unwrap();
    assert_eq!(split.meshes[0].indices.unwrap().1, indices.as_slice());
    assert_eq!(split.meshes[0].attributes.get(VertexUsage::Position).unwrap().1, &positions[1..4]);
}

#[test]
fn a_container_written_without_data_checksum_is_accepted() {
    let positions = [1u8, 2, 3];
    let v = view(None, &[(VertexUsage::Position, VertexFormat::Uint8, &positions)]);
    let mut file = Vec::new();
    IyesMeshWriter::new_with_settings(IyesMeshWriterSettings {
        upconvert_indices: false,
        write_data_checksum: false,
        compression_level: 3,
    })
    .with_mesh(v)
    .unwrap()
    .with_user_data(b"abc")
    .write_to(&mut file)
    .unwrap();
    let settings =
        IyesMeshReaderSettings { verify_metadata_checksum: true, verify_data_checksum: true };
    let reader = IyesMeshReader::init_with_settings(settings, &file).unwrap();
    assert_eq!(reader.header().data_checksum, 0);
    let with_data = reader.read_all_data().unwrap();
    assert_eq!(with_data.payload(), &[b'a', b'b', b'c', 1, 2, 3]);
    let reader = IyesMeshReader::init_with_settings(settings, &file).unwrap();
    assert_eq!(reader.read_user_data().unwrap(), b"abc".to_vec());
}

#[test]
fn a_container_is_appended_to_what_is_there() {
    let positions = [1u8, 2, 3];
    let v = view(None, &[(VertexUsage::Position, VertexFormat::Uint8, &positions)]);
    let mut alone = Vec::new();
    IyesMeshWriter::new().with_mesh(v.clone()).unwrap().write_to(&mut alone).unwrap();
    let mut after = vec![1, 2, 3];
    IyesMeshWriter::new().with_mesh(v).unwrap().write_to(&mut after).unwrap();
    assert_eq!(&after[..3], &[1, 2, 3]);
    assert_eq!(&after[3..], alone.as_slice());
}

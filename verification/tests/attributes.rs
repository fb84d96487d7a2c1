use iyes_mesh::attributes::AttributeMap;
use iyes_mesh::descriptor::VertexUsage;

#[test]
fn new_map_is_empty() {
    let m: AttributeMap<u8> = AttributeMap::new();
    assert_eq!(m.len(), 0);
    assert!(m.is_empty());
    assert!(m.as_slice().is_empty());
    assert_eq!(m.get(VertexUsage::Position), None);
    let d: AttributeMap<u8> = AttributeMap::default();
    assert!(d.is_empty());
}

#[test]
fn entries_are_kept_in_canonical_order() {
    let mut m = AttributeMap::new();
    assert_eq!(m.insert(VertexUsage::Color, 1), None);
    assert_eq!(m.insert(VertexUsage::Position, 2), None);
    assert_eq!(m.insert(VertexUsage::Custom(9), 3), None);
    assert_eq!(m.insert(VertexUsage::Uv1, 4), None);
    assert_eq!(m.insert(VertexUsage::Custom(2), 5), None);
    assert_eq!(m.insert(VertexUsage::Normal, 6), None);
    assert_eq!(m.insert(VertexUsage::JointWeight, 7), None);
    assert_eq!(m.insert(VertexUsage::Uv0, 8), None);
    assert_eq!(m.insert(VertexUsage::Tangent, 9), None);
    assert_eq!(m.insert(VertexUsage::JointIndex, 10), None);
    assert_eq!(
        m.as_slice(),
        &[
            (VertexUsage::Custom(2), 5),
            (VertexUsage::Custom(9), 3),
            (VertexUsage::Position, 2),
            (VertexUsage::Normal, 6),
            (VertexUsage::Tangent, 9),
            (VertexUsage::Uv0, 8),
            (VertexUsage::Uv1, 4),
            (VertexUsage::JointIndex, 10),
            (VertexUsage::JointWeight, 7),
            (VertexUsage::Color, 1),
        ]
    );
    assert_eq!(m.len(), 10);
    assert!(!m.is_empty());
}

#[test]
fn insert_replaces_and_returns_the_old_value() {
    let mut m = AttributeMap::new();
    assert_eq!(m.insert(VertexUsage::Normal, 1), None);
    assert_eq!(m.insert(VertexUsage::Position, 2), None);
    assert_eq!(m.insert(VertexUsage::Normal, 3), Some(1));
    assert_eq!(m.len(), 2);
    assert_eq!(m.as_slice(), &[(VertexUsage::Position, 2), (VertexUsage::Normal, 3)]);
    assert_eq!(m.insert(VertexUsage::Position, 4), Some(2));
    assert_eq!(m.as_slice(), &[(VertexUsage::Position, 4), (VertexUsage::Normal, 3)]);
}

#[test]
fn get_and_contains_key() {
    let mut m = AttributeMap::new();
    m.insert(VertexUsage::Custom(1), 'a');
    m.insert(VertexUsage::Color, 'b');
    assert_eq!(m.get(VertexUsage::Custom(1)), Some(&'a'));
    assert_eq!(m.get(VertexUsage::Color), Some(&'b'));
    assert_eq!(m.get(VertexUsage::Custom(0)), None);
    assert_eq!(m.get(VertexUsage::Custom(2)), None);
    assert_eq!(m.get(VertexUsage::Position), None);
    assert!(m.contains_key(VertexUsage::Color));
    assert!(!m.contains_key(VertexUsage::Uv0));
}

#[test]
fn clone_keeps_the_entries() {
    let mut m = AttributeMap::new();
    m.insert(VertexUsage::Uv0, 1u16);
    m.insert(VertexUsage::Position, 2u16);
    let c = m.clone();
    assert_eq!(c.as_slice(), m.as_slice());
    m.insert(VertexUsage::Color, 3u16);
    assert_eq!(c.len(), 2);
    assert_eq!(m.len(), 3);
}

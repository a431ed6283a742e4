use ldraw::buffers::{EdgeBuffer, MeshBuffer, OptionalEdgeBuffer};
use ldraw::color::{Color, ColorReference, Material, Rgba};

fn red() -> ColorReference {
    ColorReference::Color(Color {
        code: 4,
        name: "Red".to_string(),
        color: Rgba::new(0xc9, 0x1a, 0x09, 0xff),
        edge: Rgba::new(0x33, 0x33, 0x33, 0xff),
        luminance: 0,
        material: Material::Plastic,
    })
}

#[test]
fn mesh_corners_pair_vertices_with_normals() {
    let mut m = MeshBuffer::default();
    assert!(m.is_empty());
    m.add(3, 4);
    m.add_indices(vec![5, 6], vec![7, 8]);
    assert_eq!(m.len(), 3);
    assert_eq!(m.vertex_indices, vec![3, 5, 6]);
    assert_eq!(m.normal_indices, vec![4, 7, 8]);
    assert!(m.is_valid());
    m.add_indices(vec![1], vec![]);
    assert!(!m.is_valid());
}

#[test]
fn edge_colour_codes() {
    let mut e = EdgeBuffer::default();
    e.add(0, &red(), &ColorReference::Current);
    e.add(1, &ColorReference::Current, &red());
    e.add(2, &ColorReference::Current, &ColorReference::Current);
    e.add(3, &ColorReference::Complement, &red());
    e.add(4, &ColorReference::Complement, &ColorReference::Unknown(7));
    e.add(5, &ColorReference::Unknown(7), &red());
    assert_eq!(e.colors, vec![4, 4, 0x8000_0000, 4, 0x4000_0000, 0]);
    assert_eq!(e.vertex_indices, vec![0, 1, 2, 3, 4, 5]);
    assert_eq!(e.len(), 6);
    assert!(e.is_valid());
    assert!(!e.is_empty());
}

#[test]
fn optional_edges_share_their_controls() {
    let mut o = OptionalEdgeBuffer::default();
    o.add(1, 2, 3, 4, 5, &ColorReference::Current, &ColorReference::Current);
    assert_eq!(o.vertex_indices, vec![1, 2]);
    assert_eq!(o.control_1_indices, vec![3, 3]);
    assert_eq!(o.control_2_indices, vec![4, 4]);
    assert_eq!(o.direction_indices, vec![5, 5]);
    assert_eq!(o.colors, vec![0x8000_0000, 0x8000_0000]);
    assert_eq!(o.len(), 2);
    assert!(o.is_valid());
    o.colors.pop();
    assert!(!o.is_valid());
}

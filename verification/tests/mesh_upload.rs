use std::collections::{HashMap, HashSet};

use ldraw::buffers::MeshBuffer;
use ldraw::color::{Color, ColorReference, Material, Rgba};
use ldraw::mesh::{mesh_target, MeshGroupKey, MeshTarget};
use ldraw::mesh_upload::{colored_range_of, expand, MeshRange};
use ldraw::selection::ids_in_window;

fn mesh(vertices: Vec<u32>, normals: Vec<u32>) -> MeshBuffer {
    MeshBuffer { vertex_indices: vertices, normal_indices: normals }
}

fn color(code: u32, alpha: u8) -> ColorReference {
    ColorReference::Color(Color {
        code,
        name: "Some".to_string(),
        color: Rgba::new(1, 2, 3, alpha),
        edge: Rgba::new(0, 0, 0, 0xff),
        luminance: 0,
        material: Material::Plastic,
    })
}

#[test]
fn corners_seen_again_keep_their_index() {
    let mut table: HashMap<u128, u32> = HashMap::new();
    let mut index: Vec<u32> = Vec::new();
    let first = expand(&mut table, &mut index, 9, &vec![(16, mesh(vec![0, 1, 0], vec![0, 0, 0]))]);
    assert_eq!(first, Some((0, 3)));
    assert_eq!(index, vec![0, 1, 0]);
    assert_eq!(table.len(), 2);
    let second = expand(&mut table, &mut index, 9, &vec![(4, mesh(vec![1], vec![2])), (16, mesh(vec![1], vec![0]))]);
    assert_eq!(second, Some((3, 5)));
    assert_eq!(index, vec![0, 1, 0, 2, 1]);
    assert_eq!(table.len(), 3);
}

#[test]
fn broken_meshes_stop_the_expansion() {
    let mut table: HashMap<u128, u32> = HashMap::new();
    let mut index: Vec<u32> = Vec::new();
    assert_eq!(expand(&mut table, &mut index, 9, &vec![]), None);
    assert_eq!(expand(&mut table, &mut index, 9, &vec![(16, mesh(vec![0, 1], vec![0]))]), None);
    assert!(index.is_empty());
    let outside = expand(&mut table, &mut index, 9, &vec![(16, mesh(vec![0, 3, 1], vec![0, 0, 0]))]);
    assert_eq!(outside, None);
    assert_eq!(index, vec![0]);
    assert_eq!(table.len(), 1);
}

#[test]
fn colored_meshes_go_to_their_range() {
    let opaque = MeshGroupKey { color_ref: color(4, 255), bfc: true };
    let clear = MeshGroupKey { color_ref: color(36, 128), bfc: false };
    assert_eq!(colored_range_of(&opaque), Some(MeshRange::ColoredOpaque));
    assert_eq!(colored_range_of(&MeshGroupKey { bfc: false, ..opaque }), Some(MeshRange::ColoredOpaqueWithoutBfc));
    assert_eq!(colored_range_of(&clear), Some(MeshRange::ColoredTranslucentWithoutBfc));
    assert_eq!(colored_range_of(&MeshGroupKey { bfc: true, ..clear }), Some(MeshRange::ColoredTranslucent));
    assert_eq!(colored_range_of(&MeshGroupKey { color_ref: ColorReference::Current, bfc: true }), None);
}

#[test]
fn selection_reads_ids_in_the_window() {
    // Two rows of three pixels each.
    let mut pixels = vec![0u8; 24];
    pixels[4..8].copy_from_slice(&7u32.to_le_bytes());
    pixels[12..16].copy_from_slice(&0x0102_0304u32.to_le_bytes());
    pixels[20..24].copy_from_slice(&9u32.to_le_bytes());
    assert_eq!(ids_in_window(&pixels, 12, 1, 0, 1, 1), HashSet::from([7]));
    assert_eq!(ids_in_window(&pixels, 12, 0, 0, 0, 0), HashSet::new());
    assert_eq!(ids_in_window(&pixels, 12, 0, 0, 3, 2), HashSet::from([7, 0x0102_0304, 9]));
    assert_eq!(ids_in_window(&pixels, 12, 0, 1, 2, 5), HashSet::from([0x0102_0304]));
    assert_eq!(ids_in_window(&pixels, 12, 2, 5, 4, 4), HashSet::new());
}

#[test]
fn colored_groups_go_to_the_colored_meshes() {
    assert_eq!(mesh_target(&MeshGroupKey { color_ref: color(4, 255), bfc: false }), MeshTarget::Colored);
    assert_eq!(mesh_target(&MeshGroupKey { color_ref: color(36, 128), bfc: true }), MeshTarget::Colored);
}

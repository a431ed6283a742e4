use std::collections::HashMap;

use ldraw::color::{Color, ColorCatalog, Material, Rgba};
use ldraw::display_list::DisplayListOps;
use ldraw::document::MultipartDocument;
use ldraw::instancing::{model_insertions, selection_instances, SelectionDisplayList};
use ldraw::model::{uuid_xor, Model, ObjectInstance};
use ldraw::parser::parse_multipart_document;

fn colour(code: u32, r: u8) -> Color {
    Color {
        code,
        name: format!("Colour{}", code),
        color: Rgba::new(r, 0, 0, 255),
        edge: Rgba::new(0, 0, 0, 255),
        luminance: 0,
        material: Material::Plastic,
    }
}

fn catalog() -> ColorCatalog {
    let mut c = HashMap::new();
    c.insert(0, colour(0, 1));
    c.insert(1, colour(1, 2));
    c.insert(4, colour(4, 3));
    c
}

fn document(text: &str, colors: &ColorCatalog) -> MultipartDocument {
    let lines: Vec<String> = text.lines().map(String::from).collect();
    parse_multipart_document(colors, &lines).unwrap()
}

const MODEL: &str = "0 FILE car.ldr
0 Car
0 Name: car.ldr
1 4 0 0 0 1 0 0 0 1 0 0 0 1 wheel.ldr
0 STEP
1 1 10 0 0 1 0 0 0 1 0 0 0 1 3001.dat

0 FILE wheel.ldr
0 Wheel
0 Name: wheel.ldr
1 16 5 0 0 1 0 0 0 1 0 0 0 1 3641.dat
0 STEP";

#[test]
fn uuid_xor_reverses_the_first_fields() {
    let a = 0x0011_2233_4455_6677_8899_aabb_ccdd_eeffu128;
    assert_eq!(uuid_xor(a, 0), 0x3322_1100_5544_7766_8899_aabb_ccdd_eeff);
    assert_eq!(uuid_xor(0, a), 0x3322_1100_5544_7766_8899_aabb_ccdd_eeff);
    assert_eq!(uuid_xor(a, a), 0);
}

#[test]
fn the_walk_reaches_parts_through_groups() {
    let colors = catalog();
    let doc = document(MODEL, &colors);
    let model = Model::from_ldraw_multipart_document_sync(&doc);
    assert!(model.groups_bounded_within(&model.objects, model.object_groups.len()));
    let group_object_id = model.objects[0].id;
    let part_object_id = model.objects[2].id;
    let (group_id, group) = model.object_groups.iter().next().unwrap();
    let wheel_part_id = group.objects[0].id;

    let ops = model_insertions(&model, None, &colors);
    assert_eq!(ops.len(), 2);
    match &ops[0] {
        DisplayListOps::Insert { group, key, matrix, color, alpha } => {
            assert_eq!(group.normalized, "3641.dat");
            assert_eq!(*key, uuid_xor(uuid_xor(0, group_object_id), wheel_part_id));
            assert_eq!(matrix.len(), 2);
            assert_eq!(matrix[1].x.text, "5");
            assert_eq!(color.code, 4);
            assert!(alpha.is_none());
        }
        _ => panic!("expected an insertion"),
    }
    match &ops[1] {
        DisplayListOps::Insert { group, key, matrix, color, .. } => {
            assert_eq!(group.normalized, "3001.dat");
            assert_eq!(*key, uuid_xor(0, part_object_id));
            assert_eq!(matrix.len(), 1);
            assert_eq!(matrix[0].x.text, "10");
            assert_eq!(color.code, 1);
        }
        _ => panic!("expected an insertion"),
    }

    let inner = model_insertions(&model, Some(*group_id), &colors);
    assert_eq!(inner.len(), 1);
    match &inner[0] {
        DisplayListOps::Insert { key, color, matrix, .. } => {
            assert_eq!(*key, uuid_xor(0, wheel_part_id));
            assert_eq!(color.code, 0);
            assert_eq!(matrix.len(), 1);
        }
        _ => panic!("expected an insertion"),
    }
    assert!(model_insertions(&model, Some(group_id.wrapping_add(1)), &colors).is_empty());
    assert!(matches!(model.objects[1].data, ObjectInstance::Step));
}

#[test]
fn the_selection_walk_numbers_instances_and_reports_objects() {
    let colors = catalog();
    let doc = document(MODEL, &colors);
    let model = Model::from_ldraw_multipart_document_sync(&doc);
    let group_object_id = model.objects[0].id;
    let part_object_id = model.objects[2].id;
    let (_, group) = model.object_groups.iter().next().unwrap();
    let wheel_part_id = group.objects[0].id;
    assert_eq!(model.count_reached(&model.objects, model.object_groups.len(), 10), Some(2));
    assert_eq!(model.count_reached(&model.objects, model.object_groups.len(), 1), None);

    let (data, lookup) = selection_instances(&model, None, 100, false);
    assert_eq!(data.len(), 2);
    assert_eq!(data[0].0.normalized, "3641.dat");
    assert_eq!(data[0].1.len(), 1);
    assert_eq!(data[0].1[0].1, 100);
    assert_eq!(data[0].1[0].0.len(), 2);
    assert_eq!(data[1].0.normalized, "3001.dat");
    assert_eq!(data[1].1[0].1, 101);
    assert_eq!(lookup.len(), 2);
    assert_eq!(lookup[&100], uuid_xor(group_object_id, wheel_part_id));
    assert_eq!(lookup[&101], part_object_id);

    let (_, flat) = selection_instances(&model, None, 0, true);
    assert_eq!(flat[&0], group_object_id);
    assert_eq!(flat[&1], part_object_id);

    let list = SelectionDisplayList::new(vec![(data[0].0.clone(), 7u8)], lookup);
    assert_eq!(list.iter().len(), 1);
    assert_eq!(*list.iter()[0].1, 7);
    assert_eq!(list.get_matches(vec![101, 5, 100]), vec![part_object_id, uuid_xor(group_object_id, wheel_part_id)]);
}

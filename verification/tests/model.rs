use ldraw::color::{ColorCatalog, ColorReference};
use ldraw::document::MultipartDocument;
use ldraw::elements::Command;
use ldraw::model::{extract_document_primitives, Model, ObjectInstance};
use ldraw::parser::{parse_color_definition, parse_multipart_document};

fn document(text: &str) -> MultipartDocument {
    let lines: Vec<String> = text.lines().map(String::from).collect();
    parse_multipart_document(&ColorCatalog::new(), &lines).unwrap()
}

const MODEL: &str = "0 FILE car.ldr
0 Car
0 Name: car.ldr
1 4 0 0 0 1 0 0 0 1 0 0 0 1 wheel.ldr
0 STEP
1 1 10 0 0 1 0 0 0 1 0 0 0 1 3001.dat
3 16 0 0 0 1 0 0 0 1 0

0 FILE wheel.ldr
0 Wheel
0 Name: wheel.ldr
1 16 0 0 0 1 0 0 0 1 0 0 0 1 3641.dat
0 STEP";

#[test]
fn a_model_file_becomes_groups_and_objects() {
    let doc = document(MODEL);
    let model = Model::from_ldraw_multipart_document_sync(&doc);
    assert_eq!(model.object_groups.len(), 1);
    let (id, wheel) = model.object_groups.iter().next().unwrap();
    assert_eq!(wheel.id, *id);
    assert_eq!(wheel.name, "wheel.ldr");
    assert_eq!(wheel.objects.len(), 2);
    assert!(matches!(&wheel.objects[0].data, ObjectInstance::Part(p) if p.part.normalized == "3641.dat"));
    assert!(matches!(wheel.objects[1].data, ObjectInstance::Step));

    assert_eq!(model.objects.len(), 4);
    match &model.objects[0].data {
        ObjectInstance::PartGroup(g) => {
            assert_eq!(g.group_id, *id);
            assert_eq!(g.color.code(), 4);
        }
        other => panic!("expected a group, got {:?}", other),
    }
    assert!(matches!(model.objects[1].data, ObjectInstance::Step));
    match &model.objects[2].data {
        ObjectInstance::Part(p) => {
            assert_eq!(p.part.normalized, "3001.dat");
            assert_eq!(p.matrix.x.text, "10");
        }
        other => panic!("expected a part, got {:?}", other),
    }
    match &model.objects[3].data {
        ObjectInstance::Part(p) => {
            assert_eq!(p.part.original, "car.ldr");
            assert!(p.color.is_current());
            assert_eq!(p.matrix.a.text, "1");
            assert_eq!(p.matrix.b.text, "0");
        }
        other => panic!("expected the model's own primitives, got {:?}", other),
    }
    let mut deps: Vec<String> = model.list_dependencies().into_iter().map(|a| a.normalized).collect();
    deps.sort();
    assert_eq!(deps, vec!["3001.dat".to_string(), "3641.dat".to_string(), "car.ldr".to_string()]);
}

#[test]
fn a_single_document_has_no_groups() {
    let doc = document("0 Brick\n0 Name: brick.dat\n1 16 0 0 0 1 0 0 0 1 0 0 0 1 stud.dat");
    let model = Model::from_ldraw_document(&doc.body);
    assert!(model.object_groups.is_empty());
    assert_eq!(model.objects.len(), 1);
    assert!(extract_document_primitives(&doc.body).is_none());
}

#[test]
fn primitives_are_the_edges_and_faces_alone() {
    let doc = document(MODEL);
    let prims = extract_document_primitives(&doc.body).unwrap();
    assert_eq!(prims.name, "car.ldr");
    assert_eq!(prims.commands.len(), 1);
    assert!(matches!(prims.commands[0], Command::Triangle(_)));
}

#[test]
fn model_colours_are_resolved() {
    let lines: Vec<String> = "0 !COLOUR Blue CODE 1 VALUE #1E5AA8 EDGE #333333\n0 !COLOUR Red CODE 4 VALUE #B40000 EDGE #333333"
        .lines()
        .map(String::from)
        .collect();
    let colors = parse_color_definition(&lines).unwrap();
    let doc = document(MODEL);
    let mut model = Model::from_ldraw_multipart_document_sync(&doc);
    if let ObjectInstance::Part(p) = &mut model.objects[2].data {
        p.color = ColorReference::Unresolved(1);
    }
    model.resolve_colors(&colors);
    match &model.objects[2].data {
        ObjectInstance::Part(p) => assert_eq!(p.color.get_color().unwrap().name, "Blue"),
        other => panic!("expected a part, got {:?}", other),
    }
}

#[test]
fn object_identifiers_are_random_version_4_uuids() {
    let doc = document(MODEL);
    let a = Model::from_ldraw_multipart_document_sync(&doc);
    let b = Model::from_ldraw_multipart_document_sync(&doc);
    for o in a.objects.iter().chain(b.objects.iter()) {
        assert_eq!(o.id & 0x0000_0000_0000_F000_C000_0000_0000_0000, 0x0000_0000_0000_4000_8000_0000_0000_0000);
    }
    assert_ne!(a.objects[0].id, b.objects[0].id);
}

#[test]
fn a_default_model_is_empty() {
    let m = Model::default();
    assert!(m.object_groups.is_empty());
    assert!(m.objects.is_empty());
}

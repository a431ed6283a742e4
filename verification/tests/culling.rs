use ldraw::color::{ColorCatalog, ColorReference};
use ldraw::culling::{
    effective_color, enter_color, feature_enabled, initial_colors, leave_color, walk, walk_model, CullingState, Walk,
};
use ldraw::mesh::{face_corners, mesh_target, MeshGroupKey, MeshTarget};
use ldraw::PartAlias;
use ldraw::document::{BfcCertification, Document};
use ldraw::elements::{BfcStatement, Command};
use ldraw::parser::parse_single_document;
use ldraw::Winding;

fn document(text: &str) -> Document {
    let lines: Vec<String> = text.lines().map(String::from).collect();
    parse_single_document(&ColorCatalog::new(), &lines).unwrap()
}

const CERTIFIED: &str = "0 Certified
0 Name: certified.dat
0 BFC CERTIFY CCW
3 16 0 0 0 1 0 0 0 1 0
0 BFC INVERTNEXT
1 16 0 0 0 1 0 0 0 1 0 0 0 1 a.dat
1 16 0 0 0 1 0 0 0 1 0 0 0 1 b.dat
0 BFC CW
4 16 0 0 0 1 0 0 1 1 0 0 1 0
0 BFC NOCLIP
3 16 0 0 0 1 0 0 0 1 0
2 24 0 0 0 1 0 0
0 BFC CLIP CCW
3 16 0 0 0 1 0 0 0 1 0";

#[test]
fn walking_a_certified_document() {
    let d = document(CERTIFIED);
    let mirrored = vec![false; d.commands.len()];
    let steps = walk(&d, true, false, &mirrored);
    assert_eq!(
        steps,
        vec![
            Walk::Face { reversed: false, culled: true },
            Walk::Skip,
            Walk::Reference { cull: true, invert: true },
            Walk::Reference { cull: true, invert: false },
            Walk::Skip,
            Walk::Face { reversed: true, culled: true },
            Walk::Skip,
            Walk::Face { reversed: true, culled: false },
            Walk::Edge,
            Walk::Skip,
            Walk::Face { reversed: false, culled: true },
        ]
    );
}

#[test]
fn walking_mirrored_reverses_the_winding() {
    let d = document(CERTIFIED);
    let mirrored = vec![false; d.commands.len()];
    let steps = walk(&d, true, true, &mirrored);
    assert_eq!(steps[0], Walk::Face { reversed: true, culled: true });
    assert_eq!(steps[2], Walk::Reference { cull: true, invert: false });
    assert_eq!(steps[3], Walk::Reference { cull: true, invert: true });
    assert_eq!(steps[5], Walk::Face { reversed: false, culled: true });
}

#[test]
fn a_mirrored_matrix_and_invertnext_cancel_out() {
    let d = document(CERTIFIED);
    let mut mirrored = vec![false; d.commands.len()];
    mirrored[2] = true;
    let steps = walk(&d, true, false, &mirrored);
    assert_eq!(steps[2], Walk::Reference { cull: true, invert: false });
}

#[test]
fn an_uncertified_document_culls_nothing() {
    let d = document("0 Uncertified\n0 Name: u.dat\n0 BFC NOCERTIFY\n3 16 0 0 0 1 0 0 0 1 0\n0 BFC CW\n1 16 0 0 0 1 0 0 0 1 0 0 0 1 a.dat\n4 16 0 0 0 1 0 0 1 1 0 0 1 0");
    let mirrored = vec![false; d.commands.len()];
    let steps = walk(&d, true, false, &mirrored);
    assert_eq!(
        steps,
        vec![
            Walk::Face { reversed: false, culled: false },
            Walk::Skip,
            Walk::Reference { cull: false, invert: false },
            Walk::Face { reversed: true, culled: false },
        ]
    );
}

#[test]
fn culling_state_steps() {
    let mut s = CullingState::start(&BfcCertification::Certify(Winding::Cw), true);
    assert_eq!(s.winding, Winding::Ccw);
    assert!(s.certified && s.local_cull && !s.invert_next);
    s.apply(&BfcStatement::InvertNext);
    assert!(s.invert_next);
    assert_eq!(s.enter_reference(true, false), (true, false));
    assert!(!s.invert_next);
    s.apply(&BfcStatement::NoClip);
    assert_eq!(s.face(true), (false, false));
    s.apply(&BfcStatement::Clip(Some(Winding::Ccw)));
    assert_eq!(s.face(true), (true, true));
    let n = CullingState::start(&BfcCertification::NotApplicable, false);
    assert!(n.certified);
    assert_eq!(n.winding, Winding::Ccw);
}

#[test]
fn the_current_colour_is_the_one_on_top() {
    let stack = vec![ColorReference::Unknown(4), ColorReference::Unknown(7)];
    assert_eq!(effective_color(&ColorReference::Current, &stack).code(), 7);
    assert_eq!(effective_color(&ColorReference::Unknown(2), &stack).code(), 2);
    assert!(effective_color(&ColorReference::Complement, &stack).is_complement());
    let d = document(CERTIFIED);
    assert!(matches!(d.commands[0], Command::Triangle(_)));
}

#[test]
fn enabled_features_are_recorded_not_walked() {
    let d = document(CERTIFIED);
    let mirrored = vec![false; d.commands.len()];
    let enabled = vec![PartAlias::new("A.DAT")];
    assert!(feature_enabled(&enabled, &PartAlias::new(" a.dat")));
    assert!(!feature_enabled(&enabled, &PartAlias::new("b.dat")));
    let steps = walk_model(&d, true, false, &mirrored, &enabled);
    let plain = walk(&d, true, false, &mirrored);
    assert_eq!(steps[2], Walk::Feature);
    assert_eq!(steps[3], Walk::Reference { cull: true, invert: false });
    for i in 0..steps.len() {
        if i != 2 {
            assert_eq!(steps[i], plain[i]);
        }
    }
    assert_eq!(walk_model(&d, true, false, &mirrored, &vec![]), plain);
}

#[test]
fn the_colour_stack_follows_the_references() {
    let mut stack = initial_colors();
    assert_eq!(stack.len(), 1);
    assert!(matches!(stack[0], ColorReference::Current));
    enter_color(&mut stack, &ColorReference::Unknown(4));
    enter_color(&mut stack, &ColorReference::Current);
    assert_eq!(stack.len(), 3);
    assert_eq!(stack[2].code(), 4);
    leave_color(&mut stack);
    leave_color(&mut stack);
    assert_eq!(stack.len(), 1);
}

#[test]
fn face_groups_go_to_their_mesh() {
    let key = |color_ref, bfc| MeshGroupKey { color_ref, bfc };
    assert_eq!(mesh_target(&key(ColorReference::Current, true)), MeshTarget::Uncolored);
    assert_eq!(mesh_target(&key(ColorReference::Complement, false)), MeshTarget::UncoloredWithoutBfc);
    assert_eq!(mesh_target(&key(ColorReference::Unknown(4), true)), MeshTarget::Skipped);
    assert_eq!(mesh_target(&key(ColorReference::Unresolved(4), false)), MeshTarget::Skipped);
    assert_eq!(face_corners(false), vec![0, 1, 2]);
    assert_eq!(face_corners(true), vec![0, 1, 2, 2, 3, 0]);
}

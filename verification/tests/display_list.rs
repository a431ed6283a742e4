use ldraw::color::{Color, Material, Rgba};
use ldraw::display_list::{Alpha, DisplayList, DisplayListOps};
use ldraw::instances::{InstanceColors, InstanceOps, Instances, UploadPlan};
use ldraw::entity::{Entity, GpuUpdateResult};
use ldraw::PartAlias;

fn colors(a: u8) -> InstanceColors {
    InstanceColors { color: Rgba::new(10, 20, 30, a), edge: Rgba::new(1, 2, 3, a), alpha: None }
}

fn color(code: u32, a: u8) -> Color {
    Color {
        code,
        name: format!("Colour{}", code),
        color: Rgba::new(200, 100, 50, a),
        edge: Rgba::new(5, 6, 7, a),
        luminance: 0,
        material: Material::Plastic,
    }
}

fn insert(i: &mut Instances<u32, ()>, key: u128, matrix: u32) {
    assert!(matches!(i.mutate(InstanceOps::Insert { key, matrix, colors: colors(255) }), GpuUpdateResult::Modified));
}

fn ranges(plan: UploadPlan) -> Vec<(usize, usize)> {
    match plan {
        UploadPlan::Ranges(r) => r,
        _ => panic!("expected ranges"),
    }
}

#[test]
fn inserted_rows_appear_when_uploaded() {
    let mut i: Instances<u32, ()> = Instances::new(PartAlias::new("3001.dat"));
    insert(&mut i, 7, 70);
    insert(&mut i, 8, 80);
    assert_eq!(i.count(), 0);
    assert_eq!(i.row_of(7), None);
    assert!(matches!(i.handle_gpu_update(), UploadPlan::Rebuild));
    assert_eq!(i.count(), 2);
    assert_eq!(i.range(), 0..2);
    assert_eq!(i.row_of(7), Some(0));
    assert_eq!(i.row_of(8), Some(1));
    assert_eq!(i.row(1).model_matrix, 80);
    assert!(matches!(i.handle_gpu_update(), UploadPlan::Unchanged));
}

#[test]
fn an_insert_of_a_pending_key_replaces_it() {
    let mut i: Instances<u32, ()> = Instances::new(PartAlias::new("3001.dat"));
    insert(&mut i, 7, 70);
    insert(&mut i, 7, 71);
    i.mutate(InstanceOps::UpdateMatrix { key: 7, matrix: 72 });
    i.handle_gpu_update();
    assert_eq!(i.count(), 1);
    assert_eq!(i.row(0).model_matrix, 72);
}

#[test]
fn updates_change_rows_at_once_and_upload_their_runs() {
    let mut i: Instances<u32, ()> = Instances::new(PartAlias::new("3001.dat"));
    for k in 0..5u128 {
        insert(&mut i, k, k as u32);
    }
    i.handle_gpu_update();
    i.instance_buffer = Some(());
    i.mutate(InstanceOps::UpdateMatrix { key: 3, matrix: 33 });
    assert_eq!(i.row(3).model_matrix, 33);
    i.mutate(InstanceOps::UpdateColor { key: 0, colors: colors(128) });
    i.mutate(InstanceOps::UpdateAlpha { key: 1, alpha: 0x3f00_0000 });
    i.mutate(InstanceOps::Update { key: 0, matrix: 10, colors: colors(64) });
    assert_eq!(i.row(1).colors.alpha, Some(0x3f00_0000));
    assert_eq!(i.row(1).colors.color, Rgba::new(10, 20, 30, 255));
    assert_eq!(i.row(0).model_matrix, 10);
    assert_eq!(i.row(0).colors.color.alpha(), 64);
    assert_eq!(ranges(i.handle_gpu_update()), vec![(0, 1), (3, 3)]);
}

#[test]
fn without_a_buffer_everything_is_uploaded() {
    let mut i: Instances<u32, ()> = Instances::new(PartAlias::new("3001.dat"));
    insert(&mut i, 1, 1);
    i.handle_gpu_update();
    i.mutate(InstanceOps::UpdateMatrix { key: 1, matrix: 2 });
    assert!(matches!(i.handle_gpu_update(), UploadPlan::Rebuild));
}

#[test]
fn a_removed_row_is_reused_by_an_insert() {
    let mut i: Instances<u32, ()> = Instances::new(PartAlias::new("3001.dat"));
    insert(&mut i, 1, 10);
    insert(&mut i, 2, 20);
    i.handle_gpu_update();
    i.instance_buffer = Some(());
    i.mutate(InstanceOps::Remove(1));
    insert(&mut i, 3, 30);
    assert_eq!(ranges(i.handle_gpu_update()), vec![(0, 0)]);
    assert_eq!(i.count(), 2);
    assert_eq!(i.row_of(1), None);
    assert_eq!(i.row_of(3), Some(0));
    assert_eq!(i.row(0).model_matrix, 30);
}

#[test]
fn a_removed_row_is_filled_by_the_last_one() {
    let mut i: Instances<u32, ()> = Instances::new(PartAlias::new("3001.dat"));
    for k in 0..4u128 {
        insert(&mut i, k, k as u32);
    }
    i.handle_gpu_update();
    i.instance_buffer = Some(());
    i.mutate(InstanceOps::Remove(1));
    i.mutate(InstanceOps::Remove(9));
    assert!(matches!(i.handle_gpu_update(), UploadPlan::Rebuild));
    assert_eq!(i.count(), 3);
    assert_eq!(i.row_of(1), None);
    assert_eq!(i.row_of(3), Some(1));
    assert_eq!(i.row(1).model_matrix, 3);
}

#[test]
fn two_removals_in_one_upload_keep_a_stale_index() {
    // The key of the row that moves is looked up in the index as it was
    // before the first removal.
    let mut i: Instances<u32, ()> = Instances::new(PartAlias::new("3001.dat"));
    for k in 0..4u128 {
        insert(&mut i, k, k as u32);
    }
    i.handle_gpu_update();
    i.mutate(InstanceOps::Remove(1));
    i.mutate(InstanceOps::Remove(2));
    i.handle_gpu_update();
    assert_eq!(i.count(), 2);
    assert_eq!(i.row(0).model_matrix, 0);
    assert_eq!(i.row(1).model_matrix, 3);
    assert_eq!(i.row_of(3), Some(2));
    assert_eq!(i.row_of(2), Some(1));
}

#[test]
fn display_list_groups_by_kind() {
    let mut list: DisplayList<u32, ()> = DisplayList::new();
    let part = PartAlias::new("3001.dat");
    let r = list.mutate(DisplayListOps::Insert { group: part.clone(), key: 1, matrix: 1, color: color(4, 255), alpha: None });
    assert!(matches!(r, GpuUpdateResult::Modified));
    list.mutate(DisplayListOps::Insert { group: part.clone(), key: 2, matrix: 2, color: color(36, 128), alpha: None });
    list.mutate(DisplayListOps::Insert {
        group: part.clone(),
        key: 3,
        matrix: 3,
        color: color(4, 255),
        alpha: Some(Alpha { bits: 0x3f00_0000, below_one: true }),
    });
    let again = list.mutate(DisplayListOps::Insert { group: part.clone(), key: 1, matrix: 9, color: color(4, 255), alpha: None });
    assert!(matches!(again, GpuUpdateResult::NotModified));
    assert_eq!(list.iter().len(), 2);
    assert_eq!(list.iter_opaque().len(), 1);
    assert_eq!(list.iter_translucent().len(), 1);
    assert_eq!(*list.iter_opaque()[0].0, part);
    assert!(list.get_by_key(1).is_some());
    assert!(list.get_by_key(4).is_none());
    let plans = list.handle_gpu_update();
    assert_eq!(plans.len(), 2);
    assert!(plans.iter().all(|p| matches!(p, Some(UploadPlan::Rebuild))));
    assert_eq!(list.iter_translucent()[0].1.get().count(), 2);
    assert!(!list.iter()[0].2.is_modified());
    assert!(list.handle_gpu_update().iter().all(|p| p.is_none()));
}

#[test]
fn a_change_of_kind_moves_the_instance() {
    let mut list: DisplayList<u32, ()> = DisplayList::default();
    let part = PartAlias::new("3001.dat");
    list.mutate(DisplayListOps::Insert { group: part.clone(), key: 1, matrix: 5, color: color(4, 255), alpha: None });
    list.handle_gpu_update();
    let r = list.mutate(DisplayListOps::UpdateAlpha { key: 1, alpha: Alpha { bits: 0x3f00_0000, below_one: true } });
    let mut mutations = match r {
        GpuUpdateResult::AdditionalMutations { modified, mutations } => {
            assert!(!modified);
            mutations
        }
        _ => panic!("expected the instance to move"),
    };
    assert_eq!(mutations.len(), 1);
    let m = mutations.pop().unwrap();
    match &m {
        DisplayListOps::_Reinstantiate(r) => {
            assert_eq!(r.key, 1);
            assert_eq!(r.matrix, 5);
            assert_eq!(r.colors.alpha, Some(0x3f00_0000));
            assert_eq!(r.colors.color, Rgba::new(200, 100, 50, 255));
        }
        _ => panic!("expected a move"),
    }
    assert!(matches!(list.mutate(m), GpuUpdateResult::Modified));
    assert_eq!(list.iter_translucent().len(), 1);
    assert_eq!(list.iter_opaque().len(), 1);
    list.handle_gpu_update();
    assert_eq!(list.iter_opaque()[0].1.get().count(), 0);
    assert_eq!(list.iter_translucent()[0].1.get().count(), 1);
    let same = list.mutate(DisplayListOps::UpdateAlpha { key: 1, alpha: Alpha { bits: 0x3e80_0000, below_one: true } });
    assert!(matches!(same, GpuUpdateResult::Modified));
    let recolor = list.mutate(DisplayListOps::UpdateColor { key: 1, color: color(4, 255) });
    assert!(matches!(recolor, GpuUpdateResult::AdditionalMutations { .. }));
    let update = list.mutate(DisplayListOps::Update { key: 1, matrix: 6, color: color(36, 100) });
    assert!(matches!(update, GpuUpdateResult::Modified));
    assert!(matches!(list.mutate(DisplayListOps::UpdateMatrix { key: 1, matrix: 7 }), GpuUpdateResult::Modified));
    assert!(matches!(list.mutate(DisplayListOps::UpdateMatrix { key: 2, matrix: 7 }), GpuUpdateResult::NotModified));
}

#[test]
fn removing_the_last_pending_instance_drops_the_group() {
    let mut list: DisplayList<u32, ()> = DisplayList::new();
    let part = PartAlias::new("3001.dat");
    list.mutate(DisplayListOps::Insert { group: part.clone(), key: 1, matrix: 1, color: color(4, 255), alpha: None });
    assert!(matches!(list.mutate(DisplayListOps::Remove { key: 1 }), GpuUpdateResult::Modified));
    assert_eq!(list.iter().len(), 0);
    assert!(matches!(list.mutate(DisplayListOps::Remove { key: 1 }), GpuUpdateResult::NotModified));
    list.mutate(DisplayListOps::Insert { group: part.clone(), key: 2, matrix: 1, color: color(4, 255), alpha: None });
    list.handle_gpu_update();
    list.mutate(DisplayListOps::Remove { key: 2 });
    assert_eq!(list.iter().len(), 1);
    list.handle_gpu_update();
    assert_eq!(list.iter()[0].2.get().count(), 0);
}

#[test]
fn an_entity_of_a_display_list_applies_the_move_it_asks_for() {
    let mut entity = Entity::new(DisplayList::<u32, ()>::new());
    let part = PartAlias::new("3001.dat");
    assert!(entity.mutate_list(DisplayListOps::Insert { group: part.clone(), key: 1, matrix: 5, color: color(4, 255), alpha: None }));
    assert!(entity.is_modified());
    assert!(entity.begin_update());
    entity.get_mut().handle_gpu_update();
    assert!(!entity.is_modified());
    let moved = entity.mutate_list(DisplayListOps::UpdateColor { key: 1, color: color(36, 128) });
    assert!(moved);
    assert!(entity.is_modified());
    assert_eq!(entity.get().iter_translucent().len(), 1);
    assert!(!entity.mutate_list(DisplayListOps::Remove { key: 9 }));
}

#[test]
fn removing_from_a_group_without_rows_drops_its_other_pending_instances() {
    let mut list: DisplayList<u32, ()> = DisplayList::new();
    let part = PartAlias::new("3001.dat");
    list.mutate(DisplayListOps::Insert { group: part.clone(), key: 1, matrix: 1, color: color(4, 255), alpha: None });
    list.mutate(DisplayListOps::Insert { group: part.clone(), key: 2, matrix: 2, color: color(4, 255), alpha: None });
    list.mutate(DisplayListOps::Remove { key: 1 });
    assert_eq!(list.iter().len(), 0);
    assert!(list.get_by_key(2).is_none());
    let again = list.mutate(DisplayListOps::Insert { group: part.clone(), key: 2, matrix: 2, color: color(4, 255), alpha: None });
    assert!(matches!(again, GpuUpdateResult::NotModified));
}

#[test]
fn removing_and_inserting_a_key_in_one_upload_can_lose_it() {
    let mut i: Instances<u32, ()> = Instances::new(PartAlias::new("3001.dat"));
    insert(&mut i, 1, 10);
    insert(&mut i, 2, 20);
    i.handle_gpu_update();
    i.mutate(InstanceOps::Remove(1));
    i.mutate(InstanceOps::Remove(2));
    insert(&mut i, 2, 21);
    i.handle_gpu_update();
    assert_eq!(i.count(), 1);
    assert_eq!(i.row_of(2), None);
    assert_eq!(i.row(0).model_matrix, 21);
}

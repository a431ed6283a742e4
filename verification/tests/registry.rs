use ldraw::registry::PartRegistry;
use ldraw::PartAlias;

#[test]
fn registered_parts_are_found_by_canonical_name() {
    let mut r: PartRegistry<u32> = PartRegistry::new();
    assert!(r.query(&PartAlias::new("3001.dat")).is_none());
    r.register(&PartAlias::new("3001.DAT"), 1);
    r.register(&PartAlias::new("s\\3001s01.dat"), 2);
    assert_eq!(*r.query(&PartAlias::new("3001.dat")).unwrap(), 1);
    assert_eq!(*r.query(&PartAlias::new("S/3001S01.DAT")).unwrap(), 2);
    r.register(&PartAlias::new("3001.dat"), 3);
    assert_eq!(*r.query(&PartAlias::new("3001.DAT")).unwrap(), 3);
}

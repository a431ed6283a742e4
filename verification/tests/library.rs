use std::path::PathBuf;
use std::sync::Arc;

use ldraw::color::ColorCatalog;
use ldraw::document::MultipartDocument;
use ldraw::error::ResolutionError;
use ldraw::library::{
    CacheCollectionStrategy, DependencyResolver, FileLocation, LoadOutcome, PartCache, PartKind,
    ResolutionResult, ResolverAction, TransientDocumentCache, in_use_flags,
};
use ldraw::parser::parse_multipart_document;
use ldraw::resolvers::local::LocalLoader;
use ldraw::PartAlias;

fn document(text: &str) -> MultipartDocument {
    let lines: Vec<String> = text.lines().map(String::from).collect();
    parse_multipart_document(&ColorCatalog::new(), &lines).unwrap()
}

fn named(name: &str) -> Arc<MultipartDocument> {
    Arc::new(document(&format!("0 {}\n0 Name: {}", name, name)))
}

#[test]
fn a_query_finds_what_was_registered() {
    let mut cache = PartCache::new();
    let part = named("3001.dat");
    let primitive = named("stud.dat");
    cache.register(PartKind::Part, PartAlias::new("3001.dat"), Arc::clone(&part));
    cache.register(PartKind::Primitive, PartAlias::new("stud.dat"), Arc::clone(&primitive));
    assert!(Arc::ptr_eq(&cache.query(&PartAlias::new("3001.DAT")).unwrap(), &part));
    assert!(Arc::ptr_eq(&cache.query(&PartAlias::new("stud.dat")).unwrap(), &primitive));
    assert!(cache.query(&PartAlias::new("3002.dat")).is_none());
}

#[test]
fn a_part_hides_a_primitive_of_the_same_name() {
    let mut cache = PartCache::default();
    let part = named("box.dat");
    let primitive = named("box.dat");
    cache.register(PartKind::Primitive, PartAlias::new("box.dat"), Arc::clone(&primitive));
    cache.register(PartKind::Part, PartAlias::new("box.dat"), Arc::clone(&part));
    assert!(Arc::ptr_eq(&cache.query(&PartAlias::new("box.dat")).unwrap(), &part));
}

#[test]
fn registering_again_replaces_the_document() {
    let mut cache = PartCache::new();
    let first = named("a.dat");
    let second = named("a.dat");
    cache.register(PartKind::Part, PartAlias::new("a.dat"), Arc::clone(&first));
    cache.register(PartKind::Part, PartAlias::new("A.DAT"), Arc::clone(&second));
    assert!(Arc::ptr_eq(&cache.query(&PartAlias::new("a.dat")).unwrap(), &second));
}

#[test]
fn collection_drops_what_nothing_else_holds() {
    let mut cache = PartCache::new();
    let kept = named("kept.dat");
    cache.register(PartKind::Part, PartAlias::new("kept.dat"), Arc::clone(&kept));
    cache.register(PartKind::Part, PartAlias::new("dropped.dat"), named("dropped.dat"));
    cache.register(PartKind::Primitive, PartAlias::new("p.dat"), named("p.dat"));
    assert_eq!(cache.collect(CacheCollectionStrategy::Parts), 1);
    assert!(cache.query(&PartAlias::new("kept.dat")).is_some());
    assert!(cache.query(&PartAlias::new("dropped.dat")).is_none());
    assert!(cache.query(&PartAlias::new("p.dat")).is_some());
    assert_eq!(cache.collect(CacheCollectionStrategy::PartsAndPrimitives), 1);
    assert!(cache.query(&PartAlias::new("p.dat")).is_none());
    drop(kept);
    assert_eq!(cache.collect(CacheCollectionStrategy::Primitives), 0);
    assert_eq!(cache.collect(CacheCollectionStrategy::PartsAndPrimitives), 1);
}

#[test]
fn transient_cache_finds_what_was_registered() {
    let mut cache = TransientDocumentCache::new();
    let d = named("local.ldr");
    cache.register(PartAlias::new("local.ldr"), Arc::clone(&d));
    assert!(Arc::ptr_eq(&cache.query(&PartAlias::new("LOCAL.LDR")).unwrap(), &d));
    assert!(cache.query(&PartAlias::new("other.ldr")).is_none());
}

const MODEL: &str = "0 FILE model.ldr
0 Model
0 Name: model.ldr
1 16 0 0 0 1 0 0 0 1 0 0 0 1 sub.ldr
1 16 0 0 0 1 0 0 0 1 0 0 0 1 3001.dat

0 FILE sub.ldr
0 Sub
0 Name: sub.ldr
1 16 0 0 0 1 0 0 0 1 0 0 0 1 3001.dat
1 16 0 0 0 1 0 0 0 1 0 0 0 1 missing.dat
1 16 0 0 0 1 0 0 0 1 0 0 0 1 3001.dat";

/// Drives a resolution, loading `3001.dat` from the library and nothing
/// else; the names asked for, in order.
fn drive(resolver: &mut DependencyResolver, cache: &mut PartCache) -> Vec<Vec<String>> {
    let mut asked = Vec::new();
    loop {
        match resolver.step(cache) {
            ResolverAction::Continue => {}
            ResolverAction::Done => break,
            ResolverAction::Load { aliases, local } => {
                assert!(local);
                asked.push(aliases.iter().map(|a| a.normalized.clone()).collect());
                let outcomes: Vec<LoadOutcome> = aliases
                    .iter()
                    .map(|a| {
                        if a.normalized == "3001.dat" {
                            Ok((FileLocation::Library(PartKind::Part), document("0 Brick 1 x 2\n0 Name: 3001.dat")))
                        } else {
                            Err(ResolutionError::FileNotFound)
                        }
                    })
                    .collect();
                resolver.deliver(outcomes);
            }
        }
    }
    asked
}

#[test]
fn resolution_loads_each_missing_file_once() {
    let model = document(MODEL);
    let mut cache = PartCache::new();
    let mut resolver = DependencyResolver::new();
    resolver.resolve(&model.body, Some(&model), true);
    let asked = drive(&mut resolver, &mut cache);
    assert_eq!(asked, vec![vec!["3001.dat".to_string(), "missing.dat".to_string()]]);
    assert!(resolver.contains_state(&PartAlias::new("sub.ldr"), true));
    assert!(resolver.contains_state(&PartAlias::new("missing.dat"), true));
    assert!(resolver.contains_state(&PartAlias::new("3001.dat"), false));
    assert!(!resolver.contains_state(&PartAlias::new("3001.dat"), true));

    let result = resolver.finish();
    let (brick, local) = result.query(&PartAlias::new("3001.dat"), true).unwrap();
    assert!(!local);
    assert_eq!(brick.body.name, "3001.dat");
    assert!(result.query(&PartAlias::new("missing.dat"), true).is_none());
    assert!(result.query(&PartAlias::new("sub.ldr"), true).is_none());
    assert!(cache.query(&PartAlias::new("3001.dat")).is_some());
}

#[test]
fn a_cached_file_is_not_loaded_again() {
    let model = document(MODEL);
    let mut cache = PartCache::new();
    cache.register(PartKind::Part, PartAlias::new("3001.dat"), named("3001.dat"));
    let mut resolver = DependencyResolver::new();
    resolver.resolve(&model.body, Some(&model), true);
    let asked = drive(&mut resolver, &mut cache);
    assert_eq!(asked, vec![vec!["missing.dat".to_string()]]);
    let result = resolver.finish();
    assert!(result.query(&PartAlias::new("3001.dat"), false).is_some());
}

#[test]
fn an_empty_result_finds_nothing() {
    let result = ResolutionResult::default();
    assert!(result.query(&PartAlias::new("3001.dat"), true).is_none());
    let mut resolver = DependencyResolver::new();
    let mut cache = PartCache::new();
    assert!(matches!(resolver.step(&mut cache), ResolverAction::Done));
}

#[test]
fn local_loader_looks_beside_the_model_first() {
    let loader = LocalLoader::new(Some(PathBuf::from("/ldraw")), Some(PathBuf::from("/model")));
    let alias = PartAlias::new("S\\3001s01.dat");
    let list = loader.candidates(&alias, true).unwrap();
    assert_eq!(list.len(), 3);
    assert!(matches!(list[0].0, FileLocation::Local));
    assert_eq!(list[0].1, &PathBuf::from("/model"));
    assert_eq!(list[0].2, vec!["s/3001s01.dat".to_string()]);
    assert!(matches!(list[1].0, FileLocation::Library(PartKind::Part)));
    assert_eq!(list[1].1, &PathBuf::from("/ldraw"));
    assert_eq!(list[1].2, vec!["parts".to_string(), "s/3001s01.dat".to_string()]);
    assert!(matches!(list[2].0, FileLocation::Library(PartKind::Primitive)));
    assert_eq!(list[2].1, &PathBuf::from("/ldraw"));
    assert_eq!(list[2].2, vec!["p".to_string(), "s/3001s01.dat".to_string()]);
    let joined: PathBuf = list[1].2.iter().fold(list[1].1.clone(), |p, s| p.join(s));
    assert_eq!(joined, PathBuf::from("/ldraw/parts/s/3001s01.dat"));

    let library_only = loader.candidates(&alias, false).unwrap();
    assert_eq!(library_only.len(), 2);
    assert!(matches!(library_only[0].0, FileLocation::Library(PartKind::Part)));
    let (dir, name) = loader.colors_path().unwrap();
    assert_eq!(dir.join(name), PathBuf::from("/ldraw/LDConfig.ldr"));
    let bare = LocalLoader::new(Some(PathBuf::from("/ldraw")), None);
    assert_eq!(bare.candidates(&alias, true).unwrap().len(), 2);
}

#[test]
fn local_loader_needs_an_ldraw_directory() {
    let loader = LocalLoader::new(None, Some(PathBuf::from("/model")));
    assert!(matches!(loader.candidates(&PartAlias::new("3001.dat"), true), Err(ResolutionError::NoLDrawDir)));
    assert!(matches!(loader.colors_path(), Err(ResolutionError::NoLDrawDir)));
}

#[test]
fn documents_held_elsewhere_by_their_counts() {
    assert_eq!(in_use_flags(&vec![(1, 0), (2, 0), (1, 1), (3, 2)]), vec![false, true, true, true]);
    assert!(in_use_flags(&vec![]).is_empty());
}

#[test]
fn dropping_by_given_counts_keeps_order_and_strategy() {
    let mut cache = PartCache::new();
    cache.register(PartKind::Part, PartAlias::new("a.dat"), named("a.dat"));
    cache.register(PartKind::Part, PartAlias::new("b.dat"), named("b.dat"));
    cache.register(PartKind::Part, PartAlias::new("c.dat"), named("c.dat"));
    cache.register(PartKind::Primitive, PartAlias::new("p.dat"), named("p.dat"));
    let dropped = cache.drop_unheld(CacheCollectionStrategy::Parts, &vec![(1, 0), (2, 0), (1, 0)], &vec![(1, 0)]);
    assert_eq!(dropped, 2);
    assert!(cache.query(&PartAlias::new("a.dat")).is_none());
    assert!(cache.query(&PartAlias::new("b.dat")).is_some());
    assert!(cache.query(&PartAlias::new("c.dat")).is_none());
    assert!(cache.query(&PartAlias::new("p.dat")).is_some());
    let dropped = cache.drop_unheld(CacheCollectionStrategy::PartsAndPrimitives, &vec![(1, 1)], &vec![(1, 0)]);
    assert_eq!(dropped, 1);
    assert!(cache.query(&PartAlias::new("b.dat")).is_some());
    assert!(cache.query(&PartAlias::new("p.dat")).is_none());
}

use ldraw::error::ResolutionError;
use ldraw::library::{FileLocation, PartKind};
use ldraw::resolvers::http::{select_response, HttpLoader};
use ldraw::PartAlias;
use reqwest::Url;

#[test]
fn http_candidates_in_order_of_preference() {
    let lib = Url::parse("https://library.example/ldraw/").unwrap();
    let doc = Url::parse("https://models.example/car/").unwrap();
    let loader = HttpLoader::new(Some(lib.clone()), Some(doc.clone()));
    let alias = PartAlias::new("S\\3001s01.DAT");
    let local = loader.candidates(&alias, true).unwrap();
    assert_eq!(local.len(), 3);
    assert!(matches!(local[0].0, FileLocation::Local));
    assert_eq!(*local[0].1, doc);
    assert_eq!(local[0].2, "s/3001s01.dat");
    assert!(matches!(local[1].0, FileLocation::Library(PartKind::Part)));
    assert_eq!(*local[1].1, lib);
    assert_eq!(local[1].2, "parts/s/3001s01.dat");
    assert!(matches!(local[2].0, FileLocation::Library(PartKind::Primitive)));
    assert_eq!(local[2].2, "p/s/3001s01.dat");
    assert_eq!(loader.candidates(&alias, false).unwrap().len(), 2);
    let (base, path) = loader.colors_location().unwrap();
    assert_eq!(base.join(&path).unwrap().as_str(), "https://library.example/ldraw/LDConfig.ldr");

    let bare = HttpLoader::new(None, Some(doc));
    assert!(matches!(bare.candidates(&alias, true), Err(ResolutionError::NoLDrawDir)));
    assert!(matches!(bare.colors_location(), Err(ResolutionError::NoLDrawDir)));
}

#[test]
fn the_first_answer_that_is_ok_is_taken() {
    assert_eq!(select_response(&vec![None, Some(404), Some(200), Some(200)]).unwrap(), 2);
    assert!(matches!(select_response(&vec![None, Some(500)]), Err(ResolutionError::FileNotFound)));
    assert!(matches!(select_response(&vec![]), Err(ResolutionError::FileNotFound)));
}

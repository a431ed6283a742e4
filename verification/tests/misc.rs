use ldraw::color::{ColorCatalog, ColorReference};
use ldraw::display::{GroupKind, IndexBound, ObjectSelectionTestOp, State};
use ldraw::document::{BfcCertification, Document};
use ldraw::elements::{Command, Header};
use ldraw::entity::{Entity, GpuUpdate, GpuUpdateResult, MAX_ITERATIONS};
use ldraw::error::{ColorDefinitionParseError, DocumentParseError, ParseError, ReqwestError, ResolutionError, SerializeError};
use ldraw::number::Decimal;
use ldraw::parser::{next_token, next_token_u32, parse_line_1, parse_single_document};
use ldraw::mesh::{KeyOrder, MeshGroupKey};
use ldraw::part::PartMetadata;
use ldraw::text::char_is_whitespace;
use ldraw::{PartAlias, Winding};

#[test]
fn winding_inverts_and_inverts_back() {
    assert_eq!(Winding::Ccw.invert(), Winding::Cw);
    assert_eq!(Winding::Cw.invert().invert(), Winding::Cw);
    assert_eq!(Winding::Ccw.bitxor(true), Winding::Cw);
    assert_eq!(Winding::Cw.bitxor(false), Winding::Cw);
}

#[test]
fn aliases_compare_by_canonical_name() {
    let a = PartAlias::new("  Parts\\S\\3001S01.DAT ");
    assert_eq!(a.normalized, "parts/s/3001s01.dat");
    assert_eq!(a.original, "  Parts\\S\\3001S01.DAT ");
    assert_eq!(a, PartAlias::new("parts/s/3001s01.dat"));
    assert_ne!(a, PartAlias::new("parts/s/3001s02.dat"));
    let mut b = a.clone();
    b.set("3002.dat".to_string());
    assert_eq!(b.normalized, "3002.dat");
    assert_eq!(b.original, "3002.dat");
    assert_eq!(PartAlias::normalize("A\\B"), "a/b");
}

#[test]
fn certification_queries() {
    assert_eq!(BfcCertification::Certify(Winding::Cw).is_certified(), Some(true));
    assert_eq!(BfcCertification::Certify(Winding::Cw).get_winding(), Some(Winding::Cw));
    assert_eq!(BfcCertification::NoCertify.is_certified(), Some(false));
    assert_eq!(BfcCertification::NoCertify.get_winding(), None);
    assert_eq!(BfcCertification::NotApplicable.is_certified(), None);
    assert_eq!(BfcCertification::NotApplicable.get_winding(), None);
}

#[test]
fn display_pieces() {
    assert!(GroupKind::Translucent.is_translucent());
    assert!(!GroupKind::Opaque.is_translucent());
    let bound = IndexBound(3, 9);
    assert_eq!((bound.0, bound.1), (3, 9));
    assert!(State::Playing != State::Finished);
    assert_eq!(State::Step, State::Step);

    struct FirstId;
    impl ObjectSelectionTestOp for FirstId {
        type Result = u32;
        fn test(&self, ids: Vec<u32>) -> Option<u32> {
            ids.first().copied()
        }
    }
    assert_eq!(FirstId.test(vec![5, 6]), Some(5));
}

#[test]
fn part_metadata_of_a_document() {
    let lines: Vec<String> = "0 Brick 2 x 4\n0 Name: 3001.dat\n0 Author: James Jessiman".lines().map(String::from).collect();
    let d: Document = parse_single_document(&ColorCatalog::new(), &lines).unwrap();
    let m = PartMetadata::from_document(&d);
    assert_eq!(m.name, "3001.dat");
    assert_eq!(m.description, "Brick 2 x 4");
    assert_eq!(m.author, "James Jessiman");
    assert!(m.extras.is_empty());
}

#[test]
fn error_messages() {
    assert_eq!(ParseError::EndOfLine.message(), "End of line");
    assert_eq!(ParseError::TypeMismatch("u32", "x".into()).message(), "Error reading value 'x' into u32");
    assert_eq!(ParseError::InvalidBfcStatement("FOO".into()).message(), "Invalid BFC statement: FOO");
    assert_eq!(ParseError::InvalidDocumentStructure.message(), "Invalid document structure.");
    assert_eq!(ParseError::UnexpectedCommand("9".into()).message(), "Unexpected command: 9");
    assert_eq!(ParseError::InvalidToken("#12".into()).message(), "Invalid token: #12");
    assert_eq!(ParseError::MultipartDocument.message(), "Unexpected multipart document.");
    let d = DocumentParseError { line: 12, error: ParseError::EndOfLine };
    assert_eq!(d.message(), "End of line (at line 12)");
    assert_eq!(ColorDefinitionParseError::UnknownMaterial("WOOD".into()).message(), "Unknown material: WOOD");
    assert_eq!(ColorDefinitionParseError::DocumentParseError(d).message(), "End of line (at line 12)");
}

#[test]
fn parse_errors_come_where_the_text_is_wrong() {
    let lines: Vec<String> = "0 Title\n0 Name: x.dat\n9 foo".lines().map(String::from).collect();
    let err = parse_single_document(&ColorCatalog::new(), &lines).unwrap_err();
    assert_eq!(err.line, 3);
    assert!(matches!(err.error, ParseError::UnexpectedCommand(ref c) if c == "9"));

    let mut it = "   ".chars();
    assert!(matches!(next_token(&mut it, false), Err(ParseError::EndOfLine)));
    let mut it = "x12".chars();
    assert!(matches!(next_token_u32(&mut it), Err(ParseError::TypeMismatch("u32", ref v)) if v == "x12"));
    let mut it = "16 0 0 0 1 0 0 0 1 0 0 0 nan! part.dat".chars();
    assert!(matches!(parse_line_1(&ColorCatalog::new(), &mut it), Err(ParseError::TypeMismatch("f32", _))));
}

#[test]
fn header_write_and_decimal_zero() {
    let mut out = String::new();
    Header("KEYWORDS".into(), "Pirates".into()).write(&mut out);
    assert_eq!(out, "0 !KEYWORDS Pirates\n");
    assert_eq!(Decimal::zero().text, "0");
    let unknown = ColorReference::Unknown(3);
    assert_eq!(unknown.code(), 3);
    assert!(matches!(Command::Meta(ldraw::elements::Meta::Step), Command::Meta(_)));
}

struct Counter {
    value: u32,
}

enum Step {
    Add(u32),
    Nothing,
    Again(u32),
}

impl GpuUpdate for Counter {
    type Mutator = Step;

    fn mutate(&mut self, mutator: Step) -> GpuUpdateResult<Step> {
        match mutator {
            Step::Add(n) => {
                self.value += n;
                GpuUpdateResult::Modified
            }
            Step::Nothing => GpuUpdateResult::NotModified,
            Step::Again(n) => {
                self.value += 1;
                GpuUpdateResult::AdditionalMutations { modified: true, mutations: vec![Step::Again(n + 1)] }
            }
        }
    }
}

#[test]
fn entity_tracks_modifications() {
    let mut e = Entity::new(Counter { value: 0 });
    assert!(e.is_modified());
    assert!(e.begin_update());
    assert!(!e.is_modified());
    assert!(!e.mutate(Step::Nothing));
    assert!(!e.is_modified());
    assert!(e.mutate(Step::Add(2)));
    assert!(e.is_modified());
    assert_eq!(e.get().value, 2);
    e.begin_update();
    assert!(!e.mutate_all(vec![]));
    assert!(!e.is_modified());
    assert!(e.mutate_all(vec![Step::Nothing, Step::Add(1)]));
    assert_eq!(e.get().value, 3);
}

#[test]
fn chained_mutations_stop_at_the_depth_limit() {
    let mut e = Entity::from(Counter { value: 0 });
    assert!(e.mutate(Step::Again(0)));
    assert_eq!(e.get().value, MAX_ITERATIONS as u32);
    e.get_mut().value = 0;
    assert_eq!(e.get().value, 0);
}

#[test]
fn mesh_group_keys_in_text_form() {
    let culled = MeshGroupKey { color_ref: ColorReference::Unknown(15), bfc: true };
    let unculled = MeshGroupKey { color_ref: ColorReference::Unknown(15), bfc: false };
    assert_eq!(culled.to_key_text(), "15");
    assert_eq!(unculled.to_key_text(), "!15");
    let back = MeshGroupKey::from_key_text("!15").unwrap();
    assert!(matches!(back.color_ref, ColorReference::Unknown(15)));
    assert!(!back.bfc);
    assert!(MeshGroupKey::from_key_text("+7").unwrap().bfc);
    assert!(MeshGroupKey::from_key_text("x").is_none());
    assert!(MeshGroupKey::from_key_text("!").is_none());
    assert!(MeshGroupKey::from_key_text("4294967296").is_none());
    assert!(culled == MeshGroupKey { color_ref: ColorReference::Unknown(15), bfc: true });
    assert!(culled != unculled);
    assert_eq!(unculled.compare(&culled), KeyOrder::Less);
    assert_eq!(culled.compare(&unculled), KeyOrder::Greater);
    let other = MeshGroupKey { color_ref: ColorReference::Unknown(4), bfc: true };
    assert_eq!(other.compare(&culled), KeyOrder::Less);
    assert_eq!(culled.compare(&culled), KeyOrder::Equal);
}

#[test]
fn errors_convert_into_wider_errors() {
    let io = || std::io::Error::new(std::io::ErrorKind::Other, "disk");
    assert!(matches!(ParseError::from(io()), ParseError::IoError(_)));
    assert!(matches!(SerializeError::from(io()), SerializeError::IoError(_)));
    assert!(matches!(ResolutionError::from(io()), ResolutionError::IoError(_)));
    let d = DocumentParseError { line: 2, error: ParseError::EndOfLine };
    assert!(matches!(ColorDefinitionParseError::from(d), ColorDefinitionParseError::DocumentParseError(ref e) if e.line == 2));
    assert!(matches!(ColorDefinitionParseError::from(ParseError::EndOfLine), ColorDefinitionParseError::ParseError(ParseError::EndOfLine)));
    let d = DocumentParseError { line: 5, error: ParseError::MultipartDocument };
    assert!(matches!(ResolutionError::from(d), ResolutionError::DocumentParseError(ref e) if e.line == 5));
    let c = ColorDefinitionParseError::UnknownMaterial("X".into());
    assert!(matches!(ResolutionError::from(c), ResolutionError::ColorDefinitionParseError(_)));
    assert!(matches!(ResolutionError::from(ReqwestError), ResolutionError::RemoteError(_)));
}

#[test]
fn an_entity_reads_through_to_its_value() {
    let e = Entity::new(Counter { value: 5 });
    assert_eq!(e.value, 5);
    assert_eq!(e.get().value, 5);
}

#[test]
fn white_space_agrees_with_std_on_every_character() {
    for n in 0u32..=0x10ffff {
        if let Some(c) = char::from_u32(n) {
            assert_eq!(char_is_whitespace(c), c.is_whitespace(), "U+{:04X}", n);
        }
    }
}

#[test]
fn normalizing_an_ascii_name_again_changes_nothing() {
    let once = PartAlias::normalize("  Parts\\S\\3001S01.DAT \t");
    assert_eq!(once, "parts/s/3001s01.dat");
    assert_eq!(PartAlias::normalize(&once), once);
    assert!(PartAlias::new("3001.DAT") == PartAlias::new(" 3001.dat"));
    assert!(PartAlias::new("3001.dat") != PartAlias::new("3002.dat"));
}

use ldraw::color::{ColorCatalog, ColorReference, Material, Rgba};
use ldraw::document::BfcCertification;
use ldraw::elements::{BfcStatement, Header, Meta};
use ldraw::parser::{parse_color_definition, parse_line_0, parse_line_1, parse_line_2, parse_line_3, Line0};
use ldraw::Winding;

/// Writes with `write`, then reads the line back after its `0`.
fn read_back(text: &str) -> Line0 {
    let line = text.strip_suffix('\n').unwrap();
    let rest = line.strip_prefix("0 ").unwrap();
    parse_line_0(&mut rest.chars()).unwrap()
}

#[test]
fn bfc_statements_read_back_as_written() {
    let statements = [
        BfcStatement::Winding(Winding::Cw),
        BfcStatement::Winding(Winding::Ccw),
        BfcStatement::Clip(None),
        BfcStatement::Clip(Some(Winding::Cw)),
        BfcStatement::NoClip,
        BfcStatement::InvertNext,
    ];
    for statement in statements {
        let mut out = String::new();
        statement.write(&mut out);
        match read_back(&out) {
            Line0::Meta(Meta::Bfc(s)) => assert_eq!(s, statement),
            other => panic!("expected a BFC statement, got {:?}", other),
        }
    }
}

#[test]
fn counter_clockwise_clip_is_written_clockwise() {
    let mut out = String::new();
    BfcStatement::Clip(Some(Winding::Ccw)).write(&mut out);
    assert_eq!(out, "0 BFC CLIP CW\n");
    match read_back(&out) {
        Line0::Meta(Meta::Bfc(s)) => assert_eq!(s, BfcStatement::Clip(Some(Winding::Cw))),
        other => panic!("expected a BFC statement, got {:?}", other),
    }
}

#[test]
fn certifications_read_back_as_written() {
    for bfc in [BfcCertification::NoCertify, BfcCertification::Certify(Winding::Cw), BfcCertification::Certify(Winding::Ccw)] {
        let mut out = String::new();
        bfc.write(&mut out).unwrap();
        match read_back(&out) {
            Line0::BfcCertification(b) => assert_eq!(b, bfc),
            other => panic!("expected a certification, got {:?}", other),
        }
    }
    let mut out = String::new();
    let err = BfcCertification::NotApplicable.write(&mut out).unwrap_err();
    assert_eq!(err.message(), "Statement is not serializable.");
    assert_eq!(out, "");
}

#[test]
fn plain_meta_commands_read_back_as_written() {
    for meta in [Meta::Step, Meta::Clear, Meta::Pause, Meta::Save] {
        let mut out = String::new();
        meta.write(&mut out);
        match read_back(&out) {
            Line0::Meta(m) => assert_eq!(m, meta),
            other => panic!("expected a meta command, got {:?}", other),
        }
    }
}

#[test]
fn headers_read_back_as_written() {
    for header in [
        Header("LDRAW_ORG".into(), "Part UPDATE 2006-01".into()),
        Header("HELP".into(), "".into()),
        Header("".into(), "value".into()),
    ] {
        let mut out = String::new();
        header.write(&mut out);
        match read_back(&out) {
            Line0::Header(h) => assert_eq!(h, header),
            other => panic!("expected a header, got {:?}", other),
        }
    }
}

#[test]
fn packed_colour_unpacks_to_its_channels() {
    let c = Rgba::from_value(0x80ff_4020);
    assert_eq!((c.red(), c.green(), c.blue(), c.alpha()), (0xff, 0x40, 0x20, 0x80));
    assert_eq!(Rgba::new(0xff, 0x40, 0x20, 0x80), c);
}

fn catalog() -> ColorCatalog {
    let text = "0 LDraw.org Configuration File
0 !COLOUR Black CODE 0 VALUE #1B2A34 EDGE #808080
0 !COLOUR Blue CODE 1 VALUE #1E5AA8 EDGE #333333
0 !COLOUR Light_Green CODE 17 VALUE #BAFFCE EDGE #333333
0 !COLOUR Trans_Clear CODE 47 VALUE #FCFCFC EDGE #C3C3C3 ALPHA 128";
    let lines: Vec<String> = text.lines().map(String::from).collect();
    parse_color_definition(&lines).unwrap()
}

#[test]
fn resolving_keeps_the_code() {
    let colors = catalog();
    for code in [0u32, 1, 16, 24, 47, 273, 0x2ff_8040, 0x4abc_def, 99] {
        assert_eq!(ColorReference::resolve(code, &colors).code(), code);
    }
}

#[test]
fn resolving_twice_is_resolving_once() {
    let colors = catalog();
    for code in [0u32, 16, 24, 47, 99, 0x2ff_8040] {
        let mut r = ColorReference::Unresolved(code);
        r.resolve_self(&colors);
        let once = format!("{:?}", r);
        r.resolve_self(&colors);
        assert_eq!(format!("{:?}", r), once);
        assert!(!matches!(r, ColorReference::Unresolved(_)));
    }
}

#[test]
fn resolve_gives_each_kind_of_reference() {
    let colors = catalog();
    assert!(ColorReference::resolve(16, &colors).is_current());
    assert!(ColorReference::resolve(24, &colors).is_complement());
    let blue = ColorReference::resolve(1, &colors);
    assert_eq!(blue.get_color().unwrap().name, "Blue");
    assert_eq!(blue.get_color(), Some(&colors[&1]));
    assert!(matches!(ColorReference::resolve(99, &colors), ColorReference::Unknown(99)));
    match ColorReference::resolve(0x2ff_8040, &colors) {
        ColorReference::Color(c) => {
            assert_eq!((c.color.red(), c.color.green(), c.color.blue(), c.color.alpha()), (0xff, 0x80, 0x40, 0xff));
            assert_eq!(c.name, "RGB Color (ff8040)");
            assert!(matches!(c.material, Material::Plastic));
        }
        other => panic!("expected a colour, got {:?}", other),
    }
    match ColorReference::resolve(17 * 16 + 1, &colors) {
        ColorReference::Color(c) => {
            assert_eq!(c.code, 273);
            assert_eq!(c.name, "Blended Color (17 and 1)");
        }
        other => panic!("expected a blended colour, got {:?}", other),
    }
    assert!(colors[&47].is_translucent());
    assert!(!colors[&1].is_translucent());
}

#[test]
fn part_references_read_back_as_written() {
    let colors = catalog();
    let r = parse_line_1(&colors, &mut "1 -0.25 -16 2 1 0 0 0 1 0 0 0 -2 s\\3001s01.dat".chars()).unwrap();
    let mut out = String::new();
    r.write(&mut out);
    assert_eq!(out, "1 1 -0.25 -16 2 1 0 0 0 1 0 0 0 -2 s\\3001s01.dat\n");
    let rest = out.strip_prefix("1 ").unwrap().strip_suffix('\n').unwrap();
    let back = parse_line_1(&colors, &mut rest.chars()).unwrap();
    assert_eq!(back, r);
    assert_eq!(back.name.original, r.name.original);
}

#[test]
fn edges_read_back_as_written() {
    let colors = catalog();
    let l = parse_line_2(&colors, &mut "24 1 -2.5 3e2 0 0 .5".chars()).unwrap();
    let mut out = String::new();
    l.write(&mut out);
    assert_eq!(out, "2 24 1 -2.5 3e2 0 0 .5\n");
    let rest = out.strip_prefix("2 ").unwrap().strip_suffix('\n').unwrap();
    assert_eq!(parse_line_2(&colors, &mut rest.chars()).unwrap(), l);
}

#[test]
fn faces_are_written_with_the_edge_type() {
    let colors = catalog();
    let t = parse_line_3(&colors, &mut "0 1 2 3 4 5 6 7 8 9".chars()).unwrap();
    let mut out = String::new();
    t.write(&mut out);
    assert_eq!(out, "2 0 1 2 3 4 5 6 7 8 9\n");
    let rest = out.strip_prefix("2 ").unwrap().strip_suffix('\n').unwrap();
    assert_eq!(parse_line_3(&colors, &mut rest.chars()).unwrap(), t);
}

#[test]
fn messages_read_back_as_written() {
    for meta in [Meta::Write("any length of string".into()), Meta::Print("also any length".into())] {
        let mut out = String::new();
        meta.write(&mut out);
        match read_back(&out) {
            Line0::Meta(m) => assert_eq!(m, meta),
            other => panic!("expected a meta command, got {:?}", other),
        }
    }
}

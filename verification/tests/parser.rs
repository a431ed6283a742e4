use ldraw::color::{Color, ColorCatalog, ColorReference, CustomizedMaterial, Material, Rgba};
use ldraw::document::{BfcCertification, Document, MultipartDocument};
use ldraw::elements::{BfcStatement, Command, Header, Line, Meta, OptionalLine, Point, Quad, Triangle};
use ldraw::number::Decimal;
use ldraw::parser::{
    parse_color_definition, parse_customized_material, parse_line_0, parse_line_1, parse_line_2,
    parse_line_3, parse_line_4, parse_line_5, parse_multipart_document, parse_single_document,
    Line0,
};
use ldraw::{PartAlias, Winding};

fn parse_line_0_or_panic(input: &str) -> Line0 {
    match parse_line_0(&mut input.chars()) {
        Ok(line0) => line0,
        Err(e) => {
            panic!("cannot parse {}: {}", input, e.message());
        }
    }
}

fn lines(text: &str) -> Vec<String> {
    text.lines().map(String::from).collect()
}

fn value(d: &Decimal) -> f32 {
    d.text.parse::<f32>().unwrap()
}

fn point(p: &Point) -> (f32, f32, f32) {
    (value(&p.x), value(&p.y), value(&p.z))
}

#[test]
fn parse_line_0_parses_comment() {
    let cases = [
        ("// This is a comment", "This is a comment"),
        ("This is also a comment", "This is also a comment"),
    ];

    for (input, output) in cases {
        let parsed = parse_line_0_or_panic(input);
        match parsed {
            Line0::Meta(Meta::Comment(comment)) => assert_eq!(comment, output),
            _ => panic!("expected Line0::Meta(Meta::Comment(...)), got {:?}", parsed),
        }
    }
}

#[test]
fn parse_line_0_parses_offical_meta_commands_without_bfc() {
    let cases = [
        ("STEP", Meta::Step),
        (
            "WRITE any length of string",
            Meta::Write("any length of string".into()),
        ),
        (
            "PRINT also any length of string",
            Meta::Print("also any length of string".into()),
        ),
        ("CLEAR", Meta::Clear),
        ("PAUSE", Meta::Pause),
        ("SAVE", Meta::Save),
    ];
    for (input, output) in cases {
        let parsed = parse_line_0_or_panic(input);
        match parsed {
            Line0::Meta(meta) => assert_eq!(meta, output),
            _ => panic!("expected Line0::Meta(...), got {:?}", parsed),
        }
    }
}

#[test]
fn parse_line_0_parses_bfc_statements() {
    let cases = [
        ("BFC CW", BfcStatement::Winding(Winding::Cw)),
        ("BFC CCW", BfcStatement::Winding(Winding::Ccw)),
        ("BFC CLIP", BfcStatement::Clip(None)),
        ("BFC CLIP CW", BfcStatement::Clip(Some(Winding::Cw))),
        ("BFC CLIP CCW", BfcStatement::Clip(Some(Winding::Ccw))),
        ("BFC CW CLIP", BfcStatement::Clip(Some(Winding::Cw))),
        ("BFC CCW CLIP", BfcStatement::Clip(Some(Winding::Ccw))),
        ("BFC NOCLIP", BfcStatement::NoClip),
        ("BFC INVERTNEXT", BfcStatement::InvertNext),
    ];
    for (input, output) in cases {
        let parsed = parse_line_0_or_panic(input);
        match parsed {
            Line0::Meta(Meta::Bfc(bfc)) => assert_eq!(bfc, output),
            _ => panic!("expected Line0::Meta(Meta::Bfc(...)) got {:?}", parsed),
        }
    }
}

#[test]
fn parse_line_0_parses_bfc_certificates() {
    let cases = [
        ("BFC NOCERTIFY", BfcCertification::NoCertify),
        ("BFC CERTIFY CW", BfcCertification::Certify(Winding::Cw)),
        ("BFC CERTIFY", BfcCertification::Certify(Winding::Ccw)),
        ("BFC CERTIFY CCW", BfcCertification::Certify(Winding::Ccw)),
    ];
    for (input, output) in cases {
        let parsed = parse_line_0_or_panic(input);
        match parsed {
            Line0::BfcCertification(certification) => assert_eq!(certification, output),
            _ => panic!("expected Line0::BfsCertification(...), got {:?}", parsed),
        }
    }
}

#[test]
fn parse_line_0_parses_headers() {
    let cases = [
        (
            "!LDRAW_ORG Part UPDATE 2006-01",
            Header("LDRAW_ORG".into(), "Part UPDATE 2006-01".into()),
        ),
        (
            "!LICENSE Redistributable under CCAL version 2.: see CAreadme.txt",
            Header(
                "LICENSE".into(),
                "Redistributable under CCAL version 2.: see CAreadme.txt".into(),
            ),
        ),
        (
            "!HELP Obviously there is no need for additional",
            Header(
                "HELP".into(),
                "Obviously there is no need for additional".into(),
            ),
        ),
        ("!HELP", Header("HELP".into(), "".into())),
        (
            "!CATEGORY Animal",
            Header("CATEGORY".into(), "Animal".into()),
        ),
        (
            "!KEYWORDS Sting, Poison, Adventurers, Egypt",
            Header(
                "KEYWORDS".into(),
                "Sting, Poison, Adventurers, Egypt".into(),
            ),
        ),
        ("!CMDLINE -c1", Header("CMDLINE".into(), "-c1".into())),
        (
            "!HISTORY 2000-08-?? {Axel Poque} fixes to resolve L3P error messages",
            Header(
                "HISTORY".into(),
                "2000-08-?? {Axel Poque} fixes to resolve L3P error messages".into(),
            ),
        ),
        (
            "!HISTORY 2002-04-25 [PTadmin] Official update 2002-02",
            Header(
                "HISTORY".into(),
                "2002-04-25 [PTadmin] Official update 2002-02".into(),
            ),
        ),
    ];
    for (input, output) in cases {
        let parsed = parse_line_0_or_panic(input);
        match parsed {
            Line0::Header(header) => assert_eq!(header, output),
            _ => panic!("expected Line0::Header(...), got {:?}", parsed),
        }
    }
}

#[test]
fn parse_line_0_parses_name_author() {
    let name = "Name: 193a.dat";
    let parsed_name = parse_line_0_or_panic(name);
    assert_eq!(parsed_name, Line0::Name("193a.dat".into()));

    let author = "Author: Chris Dee [cwdee]";
    let parsed_author = parse_line_0_or_panic(author);
    assert_eq!(parsed_author, Line0::Author("Chris Dee [cwdee]".into()));
}

#[test]
fn parse_line_0_parses_file() {
    let file = "FILE main.ldr";
    let parsed_file = parse_line_0_or_panic(file);
    assert_eq!(parsed_file, Line0::File("main.ldr".into()));
}

struct Glitter {
    value: Rgba,
    luminance: u8,
    fraction: f32,
    vfraction: f32,
    size: u32,
    minsize: f32,
    maxsize: f32,
}

#[test]
fn parse_customized_material_parses_glitter() {
    let cases = [
        ("GLITTER VALUE #122334 FRACTION 0.3 VFRACTION 2.4 SIZE 1", Glitter {
            value: Rgba::new(0x12, 0x23, 0x34, 255),
            luminance: 0,
            fraction: 0.3,
            vfraction: 2.4,
            size: 1,
            minsize: 0.,
            maxsize: 0.,
        }),
        ("GLITTER VALUE #00DEAD LUMINANCE 128 FRACTION 0.5 VFRACTION 0.4 MINSIZE 2 MAXSIZE 3", Glitter {
            value: Rgba::new(0x00, 0xde, 0xad, 255),
            luminance: 128,
            fraction: 0.5,
            vfraction: 0.4,
            size: 0,
            minsize: 2.,
            maxsize: 3.,
        }),
        ("GLITTER VALUE #BEEF00 ALPHA 240 FRACTION 0.1 VFRACTION 0.12 SIZE 7", Glitter {
            value: Rgba::new(0xbe, 0xef, 0x00, 240),
            luminance: 0,
            fraction: 0.1,
            vfraction: 0.12,
            size: 7,
            minsize: 0.,
            maxsize: 0.,
        }),
        ("GLITTER VALUE #677889 ALPHA 5 LUMINANCE 10 FRACTION 1 VFRACTION 2 MINSIZE 1.1 MAXSIZE 4.3", Glitter {
            value: Rgba::new(0x67, 0x78, 0x89, 5),
            luminance: 10,
            fraction: 1.,
            vfraction: 2.,
            size: 0,
            minsize: 1.1,
            maxsize: 4.3,
        }),
    ];
    for (input, output) in cases {
        let parsed = parse_customized_material(&mut input.chars()).unwrap();
        match parsed {
            CustomizedMaterial::Glitter(glitter) => {
                assert_eq!(glitter.value, output.value);
                assert_eq!(glitter.luminance, output.luminance);
                assert_eq!(value(&glitter.fraction), output.fraction);
                assert_eq!(value(&glitter.vfraction), output.vfraction);
                assert_eq!(glitter.size, output.size);
                assert_eq!(value(&glitter.minsize), output.minsize);
                assert_eq!(value(&glitter.maxsize), output.maxsize);
            }
            _ => panic!(
                "expected CustomizedMaterial::Glitter(...), got: {:?}",
                parsed
            ),
        }
    }
}

struct Speckle {
    value: Rgba,
    luminance: u8,
    fraction: f32,
    size: u32,
    minsize: f32,
    maxsize: f32,
}

#[test]
fn parse_customized_material_parses_speckle() {
    let cases = [
        (
            "SPECKLE VALUE #122334 FRACTION 0.3 SIZE 1",
            Speckle {
                value: Rgba::new(0x12, 0x23, 0x34, 255),
                luminance: 0,
                fraction: 0.3,
                size: 1,
                minsize: 0.,
                maxsize: 0.,
            },
        ),
        (
            "SPECKLE VALUE #00DEAD LUMINANCE 128 FRACTION 0.5 MINSIZE 2 MAXSIZE 3",
            Speckle {
                value: Rgba::new(0x00, 0xde, 0xad, 255),
                luminance: 128,
                fraction: 0.5,
                size: 0,
                minsize: 2.,
                maxsize: 3.,
            },
        ),
        (
            "SPECKLE VALUE #BEEF00 ALPHA 240 FRACTION 0.1 SIZE 7",
            Speckle {
                value: Rgba::new(0xbe, 0xef, 0x00, 240),
                luminance: 0,
                fraction: 0.1,
                size: 7,
                minsize: 0.,
                maxsize: 0.,
            },
        ),
        (
            "SPECKLE VALUE #677889 ALPHA 5 LUMINANCE 10 FRACTION 1 MINSIZE 1.1 MAXSIZE 4.3",
            Speckle {
                value: Rgba::new(0x67, 0x78, 0x89, 5),
                luminance: 10,
                fraction: 1.,
                size: 0,
                minsize: 1.1,
                maxsize: 4.3,
            },
        ),
    ];
    for (input, output) in cases {
        let parsed = parse_customized_material(&mut input.chars()).unwrap();
        match parsed {
            CustomizedMaterial::Speckle(speckle) => {
                assert_eq!(speckle.value, output.value);
                assert_eq!(speckle.luminance, output.luminance);
                assert_eq!(value(&speckle.fraction), output.fraction);
                assert_eq!(speckle.size, output.size);
                assert_eq!(value(&speckle.minsize), output.minsize);
                assert_eq!(value(&speckle.maxsize), output.maxsize);
            }
            _ => panic!(
                "expected CustomizedMaterial::Speckle(...), got: {:?}",
                parsed
            ),
        }
    }
}

const COLOR_DEFINITIONS: &str =
"0 Color Definition for testing
0 Name: LDConfig.ldr
0 Author: LDraw.rs

0 !COLOUR Solid                                                 CODE   0   VALUE #000000   EDGE #595959
0 !COLOUR Transparent                                           CODE   1   VALUE #FF0000   EDGE #00FF00   ALPHA 128
0 !COLOUR Chrome                                                CODE   2   VALUE #00FF00   EDGE #FF0000   CHROME
0 !COLOUR Pearl                                                 CODE   3   VALUE #0000FF   EDGE #00FF00   PEARLESCENT
0 !COLOUR Metal                                                 CODE   4   VALUE #FF0000   EDGE #0000FF   METAL
0 !COLOUR Phosphorescent                                        CODE   5   VALUE #FF00FF   EDGE #00FF00   ALPHA 240   LUMINANCE 15
0 !COLOUR Glitter                                               CODE   6   VALUE #FFFF00   EDGE #00FFFF   MATERIAL GLITTER VALUE #FF00FF FRACTION 0.17 VFRACTION 0.2 SIZE 1
0 !COLOUR Glitter_Transparent                                   CODE   7   VALUE #00FFFF   EDGE #FFFF00   ALPHA 128   MATERIAL GLITTER VALUE #FF00FF FRACTION 0.17 VFRACTION 0.2 SIZE 1
0 !COLOUR Speckle                                               CODE   8   VALUE #123456   EDGE #654321   MATERIAL SPECKLE VALUE #898788 FRACTION 0.4 MINSIZE 1 MAXSIZE 3
0 !COLOUR Rubber                                                CODE   9   VALUE #ABCDEF   EDGE #FEDCBA   RUBBER";

fn colors() -> ColorCatalog {
    parse_color_definition(&lines(COLOR_DEFINITIONS)).unwrap()
}

fn color(code: u32, name: &str, color: Rgba, edge: Rgba, luminance: u8, material: Material) -> Color {
    Color { code, name: name.into(), color, edge, luminance, material }
}

fn glitter_of(m: &Material) -> Option<(Rgba, u8, f32, f32, u32, f32, f32)> {
    match m {
        Material::Custom(CustomizedMaterial::Glitter(g)) => Some((
            g.value,
            g.luminance,
            value(&g.fraction),
            value(&g.vfraction),
            g.size,
            value(&g.minsize),
            value(&g.maxsize),
        )),
        _ => None,
    }
}

fn speckle_of(m: &Material) -> Option<(Rgba, u8, f32, u32, f32, f32)> {
    match m {
        Material::Custom(CustomizedMaterial::Speckle(s)) => Some((
            s.value,
            s.luminance,
            value(&s.fraction),
            s.size,
            value(&s.minsize),
            value(&s.maxsize),
        )),
        _ => None,
    }
}

#[test]
fn test_parse_color_definition() {
    let parsed = colors();
    let materials = [
        color(0, "Solid", Rgba::new(0x00, 0x00, 0x00, 255), Rgba::new(0x59, 0x59, 0x59, 255), 0, Material::Plastic),
        color(1, "Transparent", Rgba::new(0xff, 0x00, 0x00, 128), Rgba::new(0x00, 0xff, 0x00, 255), 0, Material::Plastic),
        color(2, "Chrome", Rgba::new(0x00, 0xff, 0x00, 255), Rgba::new(0xff, 0x00, 0x00, 255), 0, Material::Chrome),
        color(3, "Pearl", Rgba::new(0x00, 0x00, 0xff, 255), Rgba::new(0x00, 0xff, 0x00, 255), 0, Material::Pearlescent),
        color(4, "Metal", Rgba::new(0xff, 0x00, 0x00, 255), Rgba::new(0x00, 0x00, 0xff, 255), 0, Material::Metal),
        color(5, "Phosphorescent", Rgba::new(0xff, 0x00, 0xff, 240), Rgba::new(0x00, 0xff, 0x00, 255), 15, Material::Plastic),
        color(9, "Rubber", Rgba::new(0xab, 0xcd, 0xef, 255), Rgba::new(0xfe, 0xdc, 0xba, 255), 0, Material::Rubber),
    ];
    for material in materials {
        assert_eq!(parsed[&material.code], material);
    }

    let glitter = &parsed[&6];
    assert_eq!(glitter.name, "Glitter");
    assert_eq!(glitter.color, Rgba::new(0xff, 0xff, 0x00, 255));
    assert_eq!(glitter.edge, Rgba::new(0x00, 0xff, 0xff, 255));
    assert_eq!(glitter.luminance, 0);
    assert_eq!(
        glitter_of(&glitter.material),
        Some((Rgba::new(0xff, 0x00, 0xff, 255), 0, 0.17, 0.2, 1, 0., 0.))
    );

    let glitter = &parsed[&7];
    assert_eq!(glitter.name, "Glitter_Transparent");
    assert_eq!(glitter.color, Rgba::new(0x00, 0xff, 0xff, 128));
    assert_eq!(glitter.edge, Rgba::new(0xff, 0xff, 0x00, 255));
    assert_eq!(
        glitter_of(&glitter.material),
        Some((Rgba::new(0xff, 0x00, 0xff, 255), 0, 0.17, 0.2, 1, 0., 0.))
    );

    let speckle = &parsed[&8];
    assert_eq!(speckle.name, "Speckle");
    assert_eq!(speckle.color, Rgba::new(0x12, 0x34, 0x56, 255));
    assert_eq!(speckle.edge, Rgba::new(0x65, 0x43, 0x21, 255));
    assert_eq!(
        speckle_of(&speckle.material),
        Some((Rgba::new(0x89, 0x87, 0x88, 255), 0, 0.4, 0, 1., 3.))
    );
}

#[test]
fn test_parse_line_1() {
    let colors = colors();
    let line_1 = "1 11 -0.25 -16 2 0 0 0 1 0 0 0 -2 1-4disc.dat";
    let parsed = parse_line_1(&colors, &mut line_1.chars()).unwrap();
    assert_eq!(parsed.color, ColorReference::Color(colors[&1].clone()));
    assert_eq!(parsed.color.get_color(), Some(&colors[&1]));
    let m = &parsed.matrix;
    let rows = [
        [value(&m.a), value(&m.b), value(&m.c), value(&m.x)],
        [value(&m.d), value(&m.e), value(&m.f), value(&m.y)],
        [value(&m.g), value(&m.h), value(&m.i), value(&m.z)],
    ];
    assert_eq!(
        rows,
        [[2., 0., 0., 11.], [0., 1., 0., -0.25], [0., 0., -2., -16.]]
    );
    assert_eq!(parsed.name, PartAlias::new("1-4disc.dat"));
    assert_eq!(parsed.name.original, "1-4disc.dat");
}

#[test]
fn test_parse_line_2() {
    let colors = colors();
    let line_2 = "16 3 2.7 8 -12.23 4.17 .67";
    let parsed: Line = parse_line_2(&colors, &mut line_2.chars()).unwrap();
    assert!(parsed.color.is_current());
    assert_eq!(point(&parsed.a), (3., 2.7, 8.));
    assert_eq!(point(&parsed.b), (-12.23, 4.17, 0.67));
}

#[test]
fn test_parse_line_3() {
    let colors = colors();
    let line_3 = "15 22.04 -.25 -1.16 23.72 -.25 -4.49 23.72 -.25 -2.61";
    let parsed: Triangle = parse_line_3(&colors, &mut line_3.chars()).unwrap();
    assert!(matches!(parsed.color, ColorReference::Unknown(15)));
    assert_eq!(point(&parsed.a), (22.04, -0.25, -1.16));
    assert_eq!(point(&parsed.b), (23.72, -0.25, -4.49));
    assert_eq!(point(&parsed.c), (23.72, -0.25, -2.61));
}

#[test]
fn test_parse_line_4() {
    let colors = colors();
    let line_4 = "1 -11 -0.25 -18 11 -0.25 -18 11 -0.25 -12.7 -11 -0.25 -12.7";
    let parsed: Quad = parse_line_4(&colors, &mut line_4.chars()).unwrap();
    assert_eq!(parsed.color.get_color(), Some(&colors[&1]));
    assert_eq!(point(&parsed.a), (-11., -0.25, -18.));
    assert_eq!(point(&parsed.b), (11., -0.25, -18.));
    assert_eq!(point(&parsed.c), (11., -0.25, -12.7));
    assert_eq!(point(&parsed.d), (-11., -0.25, -12.7));
}

#[test]
fn test_parse_line_5() {
    let colors = colors();
    let line_5 =
        "24 0 -55.673 -15.623 0 -59.974 -18.831 4.233 -59.338 -18.968 -4.233 -59.338 -18.968";
    let parsed: OptionalLine = parse_line_5(&colors, &mut line_5.chars()).unwrap();
    assert!(parsed.color.is_complement());
    assert_eq!(point(&parsed.a), (0., -55.673, -15.623));
    assert_eq!(point(&parsed.b), (0., -59.974, -18.831));
    assert_eq!(point(&parsed.c), (4.233, -59.338, -18.968));
    assert_eq!(point(&parsed.d), (-4.233, -59.338, -18.968));
}

#[test]
fn test_parse_single_document() {
    let colors = colors();
    let document = "0 Boat Base 8 x 10
0 Name: 2622.dat
0 Author: Chris Alano
0 !LDRAW_ORG Part UPDATE 2000-02
0 !LICENSE Not redistributable : see NonCAreadme.txt

0 BFC NOCERTIFY

0 !KEYWORDS Pirates, Caribbean, Ship

2 24 100 24 80 80 24 20";
    let parsed: Document = parse_single_document(&colors, &lines(document)).unwrap();
    assert_eq!(parsed.name, "2622.dat");
    assert_eq!(parsed.description, "Boat Base 8 x 10");
    assert_eq!(parsed.author, "Chris Alano");
    assert_eq!(parsed.bfc, BfcCertification::NoCertify);
    assert_eq!(
        parsed.headers,
        vec![
            Header("LDRAW_ORG".into(), "Part UPDATE 2000-02".into()),
            Header(
                "LICENSE".into(),
                "Not redistributable : see NonCAreadme.txt".into()
            ),
            Header("KEYWORDS".into(), "Pirates, Caribbean, Ship".into()),
        ]
    );
    assert_eq!(parsed.commands.len(), 1);
    match &parsed.commands[0] {
        Command::Line(l) => {
            assert!(l.color.is_complement());
            assert_eq!(point(&l.a), (100., 24., 80.));
            assert_eq!(point(&l.b), (80., 24., 20.));
        }
        c => panic!("expected a line, got {:?}", c),
    }
}

#[test]
fn test_parse_multipart_document() {
    let colors = colors();
    let document = "0 FILE test.ldr
0 LDraw.rs
0 Name: test.ldr
0 Author: kiwiyou


0 Unofficial Model
0 ROTATION CENTER 0 0 0 1 \"Custom\"
3 7 22.04 -.25 -1.16 23.72 -.25 -4.49 23.72 -.25 -2.61
1 3 0 0 0 0 0 0 0 0 0 0 0 0 apple.ldr

0 FILE apple.ldr
0 Apple
0 Name: apple.ldr
0 Author: kiwiyou
0 BFC CERTIFY CCW


5 24 0 -55.673 -15.623 0 -59.974 -18.831 4.233 -59.338 -18.968 -4.233 -59.338 -18.968";
    let parsed: MultipartDocument = parse_multipart_document(&colors, &lines(document)).unwrap();

    let body = &parsed.body;
    assert_eq!(body.name, "test.ldr");
    assert_eq!(body.description, "LDraw.rs");
    assert_eq!(body.author, "kiwiyou");
    assert_eq!(body.bfc, BfcCertification::NotApplicable);
    assert!(body.headers.is_empty());
    assert_eq!(body.commands.len(), 4);
    assert_eq!(body.commands[0], Command::Meta(Meta::Comment("Unofficial Model".into())));
    assert_eq!(
        body.commands[1],
        Command::Meta(Meta::Comment("ROTATION CENTER 0 0 0 1 \"Custom\"".into()))
    );
    match &body.commands[2] {
        Command::Triangle(t) => {
            assert_eq!(t.color.get_color(), Some(&colors[&7]));
            assert_eq!(point(&t.a), (22.04, -0.25, -1.16));
            assert_eq!(point(&t.b), (23.72, -0.25, -4.49));
            assert_eq!(point(&t.c), (23.72, -0.25, -2.61));
        }
        c => panic!("expected a triangle, got {:?}", c),
    }
    match &body.commands[3] {
        Command::PartReference(r) => {
            assert_eq!(r.color.get_color(), Some(&colors[&3]));
            assert_eq!(r.name, PartAlias::new("apple.ldr"));
            assert!([&r.matrix.x, &r.matrix.y, &r.matrix.z, &r.matrix.a, &r.matrix.b, &r.matrix.c,
                &r.matrix.d, &r.matrix.e, &r.matrix.f, &r.matrix.g, &r.matrix.h, &r.matrix.i]
                .iter()
                .all(|d| value(d) == 0.));
        }
        c => panic!("expected a part reference, got {:?}", c),
    }

    assert_eq!(parsed.subparts.len(), 1);
    let (alias, apple) = &parsed.subparts[0];
    assert_eq!(alias.normalized, "apple.ldr");
    assert_eq!(alias.original, "apple.ldr");
    assert_eq!(apple.name, "apple.ldr");
    assert_eq!(apple.description, "Apple");
    assert_eq!(apple.author, "kiwiyou");
    assert_eq!(apple.bfc, BfcCertification::Certify(Winding::Ccw));
    assert!(apple.headers.is_empty());
    assert_eq!(apple.commands.len(), 1);
    match &apple.commands[0] {
        Command::OptionalLine(o) => {
            assert!(o.color.is_complement());
            assert_eq!(point(&o.a), (0., -55.673, -15.623));
            assert_eq!(point(&o.b), (0., -59.974, -18.831));
            assert_eq!(point(&o.c), (4.233, -59.338, -18.968));
            assert_eq!(point(&o.d), (-4.233, -59.338, -18.968));
        }
        c => panic!("expected an optional line, got {:?}", c),
    }
}

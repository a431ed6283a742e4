//! The elements of an LDraw document: header lines, meta commands, part
//! references and the four kinds of geometry.

use vstd::prelude::*;

use crate::color::{ColorReference, SpecColorReference};
use crate::number::Decimal;
use crate::{PartAlias, SpecPartAlias, Winding};

verus! {

/// A `0 !KEY value` header line: its key and its value.
#[derive(Debug, PartialEq)]
pub struct Header(pub String, pub String);

pub struct SpecHeader(pub Seq<char>, pub Seq<char>);

impl View for Header {
    type V = SpecHeader;

    open spec fn view(&self) -> SpecHeader {
        SpecHeader(self.0@, self.1@)
    }
}

/// A back-face culling statement (`0 BFC ...`).
#[derive(Copy, Clone, Debug, PartialEq, Eq, Structural)]
pub enum BfcStatement {
    Winding(Winding),
    Clip(Option<Winding>),
    NoClip,
    InvertNext,
}

/// A meta command (a line of type 0 that is neither a header nor part of the
/// document's description).
#[derive(Debug, PartialEq)]
pub enum Meta {
    Comment(String),
    Step,
    Write(String),
    Print(String),
    Clear,
    Pause,
    Save,
    Bfc(BfcStatement),
}

pub enum SpecMeta {
    Comment(Seq<char>),
    Step,
    Write(Seq<char>),
    Print(Seq<char>),
    Clear,
    Pause,
    Save,
    Bfc(BfcStatement),
}

impl View for Meta {
    type V = SpecMeta;

    open spec fn view(&self) -> SpecMeta {
        match self {
            Meta::Comment(s) => SpecMeta::Comment(s@),
            Meta::Step => SpecMeta::Step,
            Meta::Write(s) => SpecMeta::Write(s@),
            Meta::Print(s) => SpecMeta::Print(s@),
            Meta::Clear => SpecMeta::Clear,
            Meta::Pause => SpecMeta::Pause,
            Meta::Save => SpecMeta::Save,
            Meta::Bfc(b) => SpecMeta::Bfc(*b),
        }
    }
}

/// A point `(x, y, z, 1)`, its coordinates as written.
#[derive(Debug, PartialEq)]
pub struct Point {
    pub x: Decimal,
    pub y: Decimal,
    pub z: Decimal,
}

pub struct SpecPoint {
    pub x: Seq<char>,
    pub y: Seq<char>,
    pub z: Seq<char>,
}

impl View for Point {
    type V = SpecPoint;

    open spec fn view(&self) -> SpecPoint {
        SpecPoint { x: self.x@, y: self.y@, z: self.z@ }
    }
}

impl Point {
    pub open spec fn wf(&self) -> bool {
        self.x.wf() && self.y.wf() && self.z.wf()
    }
}

/// Where a referenced part is placed: the offset `x y z` and the rows
/// `a b c`, `d e f`, `g h i` of the linear map, as a type 1 line lists them.
/// As a 4x4 matrix it reads, row by row: `a b c x`, `d e f y`, `g h i z`,
/// `0 0 0 1`.
#[derive(Debug, PartialEq)]
pub struct Placement {
    pub x: Decimal,
    pub y: Decimal,
    pub z: Decimal,
    pub a: Decimal,
    pub b: Decimal,
    pub c: Decimal,
    pub d: Decimal,
    pub e: Decimal,
    pub f: Decimal,
    pub g: Decimal,
    pub h: Decimal,
    pub i: Decimal,
}

impl View for Placement {
    /// The twelve numbers in the order of the line.
    type V = Seq<Seq<char>>;

    open spec fn view(&self) -> Seq<Seq<char>> {
        seq![
            self.x@,
            self.y@,
            self.z@,
            self.a@,
            self.b@,
            self.c@,
            self.d@,
            self.e@,
            self.f@,
            self.g@,
            self.h@,
            self.i@,
        ]
    }
}

impl Placement {
    pub open spec fn wf(&self) -> bool {
        &&& self.x.wf() && self.y.wf() && self.z.wf()
        &&& self.a.wf() && self.b.wf() && self.c.wf()
        &&& self.d.wf() && self.e.wf() && self.f.wf()
        &&& self.g.wf() && self.h.wf() && self.i.wf()
    }

    /// The placement that leaves everything where it is: `0 0 0 1 0 0 0 1 0 0 0 1`.
    pub fn identity() -> (res: Placement)
        ensures
            res@ == seq![
                seq!['0'], seq!['0'], seq!['0'],
                seq!['1'], seq!['0'], seq!['0'],
                seq!['0'], seq!['1'], seq!['0'],
                seq!['0'], seq!['0'], seq!['1'],
            ],
            res.wf(),
    {
        Placement {
            x: Decimal::zero(),
            y: Decimal::zero(),
            z: Decimal::zero(),
            a: Decimal::one(),
            b: Decimal::zero(),
            c: Decimal::zero(),
            d: Decimal::zero(),
            e: Decimal::one(),
            f: Decimal::zero(),
            g: Decimal::zero(),
            h: Decimal::zero(),
            i: Decimal::one(),
        }
    }
}

/// What a reference was found to name: nothing yet, nothing at all, a
/// document from outside, or a subpart of the same file.
#[derive(Debug)]
pub enum PartResolution {
    Unresolved,
    Missing,
    External(std::rc::Rc<crate::document::Document>),
    Subpart(std::rc::Rc<crate::document::Document>),
}

/// A type 1 line: another part, in a colour, placed.
#[derive(Debug, PartialEq)]
pub struct PartReference {
    pub color: ColorReference,
    pub matrix: Placement,
    pub name: PartAlias,
}

/// A type 2 line: an edge.
#[derive(Debug, PartialEq)]
pub struct Line {
    pub color: ColorReference,
    pub a: Point,
    pub b: Point,
}

/// A type 3 line: a triangle.
#[derive(Debug, PartialEq)]
pub struct Triangle {
    pub color: ColorReference,
    pub a: Point,
    pub b: Point,
    pub c: Point,
}

/// A type 4 line: a quadrilateral.
#[derive(Debug, PartialEq)]
pub struct Quad {
    pub color: ColorReference,
    pub a: Point,
    pub b: Point,
    pub c: Point,
    pub d: Point,
}

/// A type 5 line: an edge drawn only when `c` and `d` lie on the same side
/// of it.
#[derive(Debug, PartialEq)]
pub struct OptionalLine {
    pub color: ColorReference,
    pub a: Point,
    pub b: Point,
    pub c: Point,
    pub d: Point,
}

/// One command of a document.
#[derive(Debug, PartialEq)]
pub enum Command {
    Meta(Meta),
    PartReference(PartReference),
    Line(Line),
    Triangle(Triangle),
    Quad(Quad),
    OptionalLine(OptionalLine),
}

pub struct SpecPartReference {
    pub color: SpecColorReference,
    pub matrix: Seq<Seq<char>>,
    pub name: SpecPartAlias,
}

/// A geometry line as the model sees it: its colour and its points.
pub struct SpecShape {
    pub color: SpecColorReference,
    pub points: Seq<SpecPoint>,
}

pub enum SpecCommand {
    Meta(SpecMeta),
    PartReference(SpecPartReference),
    Line(SpecShape),
    Triangle(SpecShape),
    Quad(SpecShape),
    OptionalLine(SpecShape),
}

impl View for PartReference {
    type V = SpecPartReference;

    open spec fn view(&self) -> SpecPartReference {
        SpecPartReference { color: self.color@, matrix: self.matrix@, name: self.name@ }
    }
}

impl View for Line {
    type V = SpecShape;

    open spec fn view(&self) -> SpecShape {
        SpecShape { color: self.color@, points: seq![self.a@, self.b@] }
    }
}

impl View for Triangle {
    type V = SpecShape;

    open spec fn view(&self) -> SpecShape {
        SpecShape { color: self.color@, points: seq![self.a@, self.b@, self.c@] }
    }
}

impl View for Quad {
    type V = SpecShape;

    open spec fn view(&self) -> SpecShape {
        SpecShape { color: self.color@, points: seq![self.a@, self.b@, self.c@, self.d@] }
    }
}

impl View for OptionalLine {
    type V = SpecShape;

    open spec fn view(&self) -> SpecShape {
        SpecShape { color: self.color@, points: seq![self.a@, self.b@, self.c@, self.d@] }
    }
}

impl View for Command {
    type V = SpecCommand;

    open spec fn view(&self) -> SpecCommand {
        match self {
            Command::Meta(m) => SpecCommand::Meta(m@),
            Command::PartReference(r) => SpecCommand::PartReference(r@),
            Command::Line(l) => SpecCommand::Line(l@),
            Command::Triangle(t) => SpecCommand::Triangle(t@),
            Command::Quad(q) => SpecCommand::Quad(q@),
            Command::OptionalLine(o) => SpecCommand::OptionalLine(o@),
        }
    }
}

impl Command {
    /// Every number of the command is one that `f32::from_str` accepts.
    pub open spec fn wf(&self) -> bool {
        match self {
            Command::Meta(_) => true,
            Command::PartReference(r) => r.matrix.wf(),
            Command::Line(l) => l.a.wf() && l.b.wf(),
            Command::Triangle(t) => t.a.wf() && t.b.wf() && t.c.wf(),
            Command::Quad(q) => q.a.wf() && q.b.wf() && q.c.wf() && q.d.wf(),
            Command::OptionalLine(o) => o.a.wf() && o.b.wf() && o.c.wf() && o.d.wf(),
        }
    }
}

impl Clone for Header {
    fn clone(&self) -> (res: Self)
        ensures
            res == *self,
    {
        Header(self.0.clone(), self.1.clone())
    }
}

impl Clone for Meta {
    fn clone(&self) -> (res: Self)
        ensures
            res == *self,
    {
        match self {
            Meta::Comment(s) => Meta::Comment(s.clone()),
            Meta::Step => Meta::Step,
            Meta::Write(s) => Meta::Write(s.clone()),
            Meta::Print(s) => Meta::Print(s.clone()),
            Meta::Clear => Meta::Clear,
            Meta::Pause => Meta::Pause,
            Meta::Save => Meta::Save,
            Meta::Bfc(b) => Meta::Bfc(*b),
        }
    }
}

impl Clone for Point {
    fn clone(&self) -> (res: Self)
        ensures
            res == *self,
    {
        Point { x: self.x.clone(), y: self.y.clone(), z: self.z.clone() }
    }
}

impl Clone for Placement {
    fn clone(&self) -> (res: Self)
        ensures
            res == *self,
    {
        Placement {
            x: self.x.clone(),
            y: self.y.clone(),
            z: self.z.clone(),
            a: self.a.clone(),
            b: self.b.clone(),
            c: self.c.clone(),
            d: self.d.clone(),
            e: self.e.clone(),
            f: self.f.clone(),
            g: self.g.clone(),
            h: self.h.clone(),
            i: self.i.clone(),
        }
    }
}

impl Clone for PartReference {
    fn clone(&self) -> (res: Self)
        ensures
            res == *self,
    {
        PartReference { color: self.color.clone(), matrix: self.matrix.clone(), name: self.name.clone() }
    }
}

impl Clone for Line {
    fn clone(&self) -> (res: Self)
        ensures
            res == *self,
    {
        Line { color: self.color.clone(), a: self.a.clone(), b: self.b.clone() }
    }
}

impl Clone for Triangle {
    fn clone(&self) -> (res: Self)
        ensures
            res == *self,
    {
        Triangle { color: self.color.clone(), a: self.a.clone(), b: self.b.clone(), c: self.c.clone() }
    }
}

impl Clone for Quad {
    fn clone(&self) -> (res: Self)
        ensures
            res == *self,
    {
        Quad { color: self.color.clone(), a: self.a.clone(), b: self.b.clone(), c: self.c.clone(), d: self.d.clone() }
    }
}

impl Clone for OptionalLine {
    fn clone(&self) -> (res: Self)
        ensures
            res == *self,
    {
        OptionalLine { color: self.color.clone(), a: self.a.clone(), b: self.b.clone(), c: self.c.clone(), d: self.d.clone() }
    }
}

impl Clone for Command {
    fn clone(&self) -> (res: Self)
        ensures
            res == *self,
    {
        match self {
            Command::Meta(m) => Command::Meta(m.clone()),
            Command::PartReference(r) => Command::PartReference(r.clone()),
            Command::Line(l) => Command::Line(l.clone()),
            Command::Triangle(t) => Command::Triangle(t.clone()),
            Command::Quad(q) => Command::Quad(q.clone()),
            Command::OptionalLine(o) => Command::OptionalLine(o.clone()),
        }
    }
}

} // verus!

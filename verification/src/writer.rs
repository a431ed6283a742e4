//! Writing LDraw text: each element as the line (or lines) that stand for it,
//! and whole documents.
//!
//! A number is written as the text it was read from: the library keeps
//! numbers as their text (`Decimal`) and never formats a float, so `.67`
//! stays `.67`, `1.0` stays `1.0` and `1e2` stays `1e2` (a writer that
//! formatted the value would give `0.67`, `1` and `100`).

use vstd::prelude::*;

use crate::color::{reference_code, ColorReference};
use crate::document::{BfcCertification, Document, MultipartDocument, SpecDocument};
use crate::elements::{
    BfcStatement, Command, Header, Line, Meta, OptionalLine, PartReference, Point, Quad,
    SpecCommand, SpecHeader, SpecMeta, SpecPoint, SpecShape, SpecPartReference, Triangle,
};
use crate::error::SerializeError;
use crate::number::{decimal, push_decimal, Decimal};
use crate::text::push_char;
use crate::Winding;

verus! {

/// The lines of `s` as `str::lines` splits them: at each `\n` (a `\r` just
/// before it is dropped too); a final line ending adds no empty line.
pub open spec fn text_lines(s: Seq<char>) -> Seq<Seq<char>>
    decreases s.len(),
{
    if s.len() == 0 {
        Seq::empty()
    } else {
        let k = crate::number::first_of(s, '\n', '\n', 0);
        if k >= s.len() || k < 0 {
            seq![s]
        } else {
            let line = s.subrange(0, k);
            let line = if line.len() > 0 && line.last() == '\r' {
                line.drop_last()
            } else {
                line
            };
            seq![line] + text_lines(s.skip(k + 1))
        }
    }
}

/// Each of `lines` after `prefix`, ending in `\n`.
pub open spec fn prefixed_lines(prefix: Seq<char>, lines: Seq<Seq<char>>) -> Seq<char>
    decreases lines.len(),
{
    if lines.len() == 0 {
        Seq::empty()
    } else {
        prefix + lines[0] + seq!['\n'] + prefixed_lines(prefix, lines.drop_first())
    }
}

/// Appends `t`.
fn append(out: &mut String, t: &str)
    ensures
        final(out)@ == old(out)@ + t@,
{
    out.append(t);
}

proof fn lemma_first_of_shift(s: Seq<char>, i: int)
    requires
        0 <= i <= s.len(),
        forall|j: int| 0 <= j < i ==> s[j] != '\n',
    ensures
        crate::number::first_of(s, '\n', '\n', 0) == crate::number::first_of(s, '\n', '\n', i),
    decreases i,
{
    if i > 0 {
        lemma_first_of_shift_step(s, i - 1);
        lemma_first_of_shift(s, i - 1);
    }
}

proof fn lemma_first_of_shift_step(s: Seq<char>, j: int)
    requires
        0 <= j < s.len(),
        s[j] != '\n',
    ensures
        crate::number::first_of(s, '\n', '\n', j) == crate::number::first_of(s, '\n', '\n', j + 1),
{
}

/// Appends each line of `message` after `prefix`, ending in `\n`.
fn write_lines(out: &mut String, prefix: &str, message: &String)
    ensures
        final(out)@ == old(out)@ + prefixed_lines(prefix@, text_lines(message@)),
    decreases message@.len(),
{
    let v = crate::text::chars_of(message.as_str());
    if v.len() == 0 {
        return ;
    }
    let mut k: usize = 0;
    while k < v.len() && v[k] != '\n'
        invariant
            k <= v@.len(),
            v@ == message@,
            forall|j: int| 0 <= j < k ==> v@[j] != '\n',
        decreases v@.len() - k,
    {
        k = k + 1;
    }
    proof {
        lemma_first_of_shift(v@, k as int);
    }
    append(out, prefix);
    if k == v.len() {
        let line = crate::text::string_of(&v);
        append(out, line.as_str());
        push_char(out, '\n');
        assert(prefixed_lines(prefix@, text_lines(message@)) =~= prefix@ + v@ + seq!['\n']) by {
            assert(crate::number::first_of(v@, '\n', '\n', k as int) == v@.len());
            assert(text_lines(v@) == seq![v@]);
            assert(seq![v@].drop_first() =~= Seq::<Seq<char>>::empty());
            assert(prefixed_lines(prefix@, seq![v@]) == prefix@ + v@ + seq!['\n'] + prefixed_lines(prefix@, seq![v@].drop_first()));
        }
        return ;
    }
    let end = if k > 0 && v[k - 1] == '\r' {
        k - 1
    } else {
        k
    };
    let line = crate::text::string_of_range(&v, 0, end);
    append(out, line.as_str());
    push_char(out, '\n');
    let rest = crate::text::string_of_range(&v, k + 1, v.len());
    let ghost mid = out@;
    write_lines(out, prefix, &rest);
    proof {
        let s = message@;
        assert(rest@ =~= s.skip(k + 1));
        let l = s.subrange(0, k as int);
        let l2 = if l.len() > 0 && l.last() == '\r' {
            l.drop_last()
        } else {
            l
        };
        assert(line@ =~= l2);
        assert(text_lines(s) =~= seq![l2] + text_lines(s.skip(k + 1)));
        assert((seq![l2] + text_lines(s.skip(k + 1))).drop_first() =~= text_lines(s.skip(k + 1)));
        assert(final(out)@ =~= old(out)@ + prefixed_lines(prefix@, text_lines(message@)));
    }
}

/// The text of a header line.
pub open spec fn header_text(h: SpecHeader) -> Seq<char> {
    "0 !"@ + h.0 + " "@ + h.1 + "\n"@
}

impl Header {
    /// Appends the header line.
    pub fn write(&self, out: &mut String)
        ensures
            final(out)@ == old(out)@ + header_text(self@),
    {
        append(out, "0 !");
        append(out, self.0.as_str());
        append(out, " ");
        append(out, self.1.as_str());
        append(out, "\n");
        assert(final(out)@ =~= old(out)@ + header_text(self@));
    }
}

/// The line of a back-face culling certification (none when the document
/// says nothing).
pub open spec fn bfc_certification_text(b: BfcCertification) -> Option<Seq<char>> {
    match b {
        BfcCertification::NoCertify => Some("0 BFC NOCERTIFY\n"@),
        BfcCertification::Certify(Winding::Ccw) => Some("0 BFC CERTIFY CCW\n"@),
        BfcCertification::Certify(Winding::Cw) => Some("0 BFC CERTIFY CW\n"@),
        BfcCertification::NotApplicable => None,
    }
}

impl BfcCertification {
    /// Appends the certification line; a document that says nothing has none
    /// (`NoSerializable`).
    pub fn write(&self, out: &mut String) -> (res: Result<(), SerializeError>)
        ensures
            match bfc_certification_text(*self) {
                Some(t) => res is Ok && final(out)@ == old(out)@ + t,
                None => res matches Err(SerializeError::NoSerializable) && final(out)@ == old(out)@,
            },
    {
        match self {
            BfcCertification::NoCertify => append(out, "0 BFC NOCERTIFY\n"),
            BfcCertification::Certify(Winding::Ccw) => append(out, "0 BFC CERTIFY CCW\n"),
            BfcCertification::Certify(Winding::Cw) => append(out, "0 BFC CERTIFY CW\n"),
            _ => return Err(SerializeError::NoSerializable),
        }
        Ok(())
    }
}

/// The line of a back-face culling statement. (A clip with counter-clockwise
/// winding is written as one with clockwise winding.)
pub open spec fn bfc_statement_text(b: BfcStatement) -> Seq<char> {
    match b {
        BfcStatement::Winding(Winding::Cw) => "0 BFC CW\n"@,
        BfcStatement::Winding(Winding::Ccw) => "0 BFC CCW\n"@,
        BfcStatement::Clip(None) => "0 BFC CLIP\n"@,
        BfcStatement::Clip(Some(Winding::Cw)) => "0 BFC CLIP CW\n"@,
        BfcStatement::Clip(Some(Winding::Ccw)) => "0 BFC CLIP CW\n"@,
        BfcStatement::NoClip => "0 BFC NOCLIP\n"@,
        BfcStatement::InvertNext => "0 BFC INVERTNEXT\n"@,
    }
}

impl BfcStatement {
    /// Appends the statement line.
    pub fn write(&self, out: &mut String)
        ensures
            final(out)@ == old(out)@ + bfc_statement_text(*self),
    {
        match self {
            BfcStatement::Winding(Winding::Cw) => append(out, "0 BFC CW\n"),
            BfcStatement::Winding(Winding::Ccw) => append(out, "0 BFC CCW\n"),
            BfcStatement::Clip(None) => append(out, "0 BFC CLIP\n"),
            BfcStatement::Clip(Some(Winding::Cw)) => append(out, "0 BFC CLIP CW\n"),
            BfcStatement::Clip(Some(Winding::Ccw)) => append(out, "0 BFC CLIP CW\n"),
            BfcStatement::NoClip => append(out, "0 BFC NOCLIP\n"),
            BfcStatement::InvertNext => append(out, "0 BFC INVERTNEXT\n"),
        }
    }
}

/// The lines of a meta command: a comment, `WRITE` or `PRINT` gives one line
/// per line of its text.
pub open spec fn meta_text(m: SpecMeta) -> Seq<char> {
    match m {
        SpecMeta::Comment(c) => prefixed_lines("0 "@, text_lines(c)),
        SpecMeta::Step => "0 STEP\n"@,
        SpecMeta::Write(c) => prefixed_lines("0 WRITE "@, text_lines(c)),
        SpecMeta::Print(c) => prefixed_lines("0 PRINT "@, text_lines(c)),
        SpecMeta::Clear => "0 CLEAR\n"@,
        SpecMeta::Pause => "0 PAUSE\n"@,
        SpecMeta::Save => "0 SAVE\n"@,
        SpecMeta::Bfc(b) => bfc_statement_text(b),
    }
}

impl Meta {
    /// Appends the lines of the meta command.
    pub fn write(&self, out: &mut String)
        ensures
            final(out)@ == old(out)@ + meta_text(self@),
    {
        match self {
            Meta::Comment(message) => write_lines(out, "0 ", message),
            Meta::Step => append(out, "0 STEP\n"),
            Meta::Write(message) => write_lines(out, "0 WRITE ", message),
            Meta::Print(message) => write_lines(out, "0 PRINT ", message),
            Meta::Clear => append(out, "0 CLEAR\n"),
            Meta::Pause => append(out, "0 PAUSE\n"),
            Meta::Save => append(out, "0 SAVE\n"),
            Meta::Bfc(bfc) => bfc.write(out),
        }
    }
}

/// The code of a colour as written.
pub open spec fn color_text(c: crate::color::SpecColorReference) -> Seq<char> {
    decimal(reference_code(c) as nat)
}

/// The coordinates of a point as written: `x y z`.
pub open spec fn point_text(p: SpecPoint) -> Seq<char> {
    p.x + " "@ + p.y + " "@ + p.z
}

/// The points of a shape, each after a space, their coordinates as the text
/// they were read from.
pub open spec fn points_text(ps: Seq<SpecPoint>) -> Seq<char>
    decreases ps.len(),
{
    if ps.len() == 0 {
        Seq::empty()
    } else {
        " "@ + point_text(ps[0]) + points_text(ps.drop_first())
    }
}

/// The numbers of a placement, each after a space, as the text they were
/// read from.
pub open spec fn numbers_text(ns: Seq<Seq<char>>) -> Seq<char>
    decreases ns.len(),
{
    if ns.len() == 0 {
        Seq::empty()
    } else {
        " "@ + ns[0] + numbers_text(ns.drop_first())
    }
}

/// The line of a part reference: `1`, the colour code, the twelve numbers of
/// the placement (as the text they were read from), the name as written.
pub open spec fn part_reference_text(r: SpecPartReference) -> Seq<char> {
    "1 "@ + color_text(r.color) + numbers_text(r.matrix) + " "@ + r.name.original + "\n"@
}

/// The line of a shape: `2` (for every kind of shape), the colour code, the
/// points.
pub open spec fn shape_text(s: SpecShape) -> Seq<char> {
    "2 "@ + color_text(s.color) + points_text(s.points) + "\n"@
}

fn write_color(out: &mut String, color: &ColorReference)
    ensures
        final(out)@ == old(out)@ + color_text(color@),
{
    push_decimal(out, color.code() as u64);
}

fn write_points(out: &mut String, points: &Vec<&Point>)
    ensures
        final(out)@ == old(out)@ + points_text(points@.map_values(|p: &Point| p@)),
{
    let ghost pv = points@.map_values(|p: &Point| p@);
    assert(pv.skip(0) =~= pv);
    let mut i: usize = 0;
    while i < points.len()
        invariant
            i <= points@.len(),
            pv == points@.map_values(|p: &Point| p@),
            old(out)@ + points_text(pv) == out@ + points_text(pv.skip(i as int)),
        decreases points@.len() - i,
    {
        let p = points[i];
        append(out, " ");
        append(out, p.x.text.as_str());
        append(out, " ");
        append(out, p.y.text.as_str());
        append(out, " ");
        append(out, p.z.text.as_str());
        assert(pv.skip(i as int).drop_first() =~= pv.skip(i + 1));
        assert(pv.skip(i as int)[0] == p@);
        i = i + 1;
    }
    assert(pv.skip(i as int) =~= Seq::<SpecPoint>::empty());
}

fn write_numbers(out: &mut String, numbers: &Vec<&Decimal>)
    ensures
        final(out)@ == old(out)@ + numbers_text(numbers@.map_values(|d: &Decimal| d@)),
{
    let ghost nv = numbers@.map_values(|d: &Decimal| d@);
    assert(nv.skip(0) =~= nv);
    let mut i: usize = 0;
    while i < numbers.len()
        invariant
            i <= numbers@.len(),
            nv == numbers@.map_values(|d: &Decimal| d@),
            old(out)@ + numbers_text(nv) == out@ + numbers_text(nv.skip(i as int)),
        decreases numbers@.len() - i,
    {
        append(out, " ");
        append(out, numbers[i].text.as_str());
        assert(nv.skip(i as int).drop_first() =~= nv.skip(i + 1));
        assert(nv.skip(i as int)[0] == numbers@[i as int]@);
        i = i + 1;
    }
    assert(nv.skip(i as int) =~= Seq::<Seq<char>>::empty());
}

impl PartReference {
    /// Appends the line of the part reference.
    pub fn write(&self, out: &mut String)
        ensures
            final(out)@ == old(out)@ + part_reference_text(self@),
    {
        append(out, "1 ");
        write_color(out, &self.color);
        let m = &self.matrix;
        let numbers = vec![&m.x, &m.y, &m.z, &m.a, &m.b, &m.c, &m.d, &m.e, &m.f, &m.g, &m.h, &m.i];
        assert(numbers@.map_values(|d: &Decimal| d@) =~= m@);
        write_numbers(out, &numbers);
        append(out, " ");
        append(out, self.name.original.as_str());
        append(out, "\n");
        assert(final(out)@ =~= old(out)@ + part_reference_text(self@));
    }
}

fn write_shape(out: &mut String, color: &ColorReference, points: &Vec<&Point>)
    ensures
        final(out)@ == old(out)@ + "2 "@ + color_text(color@) + points_text(points@.map_values(|p: &Point| p@)) + "\n"@,
{
    append(out, "2 ");
    write_color(out, color);
    write_points(out, points);
    append(out, "\n");
    assert(final(out)@ =~= old(out)@ + "2 "@ + color_text(color@) + points_text(points@.map_values(|p: &Point| p@)) + "\n"@);
}

impl Line {
    /// Appends the line of the edge.
    pub fn write(&self, out: &mut String)
        ensures
            final(out)@ == old(out)@ + shape_text(self@),
    {
        let points = vec![&self.a, &self.b];
        assert(points@.map_values(|p: &Point| p@) =~= self@.points);
        write_shape(out, &self.color, &points);
        assert(final(out)@ =~= old(out)@ + shape_text(self@));
    }
}

impl Triangle {
    /// Appends the line of the triangle (written with type `2`).
    pub fn write(&self, out: &mut String)
        ensures
            final(out)@ == old(out)@ + shape_text(self@),
    {
        let points = vec![&self.a, &self.b, &self.c];
        assert(points@.map_values(|p: &Point| p@) =~= self@.points);
        write_shape(out, &self.color, &points);
        assert(final(out)@ =~= old(out)@ + shape_text(self@));
    }
}

impl Quad {
    /// Appends the line of the quadrilateral (written with type `2`).
    pub fn write(&self, out: &mut String)
        ensures
            final(out)@ == old(out)@ + shape_text(self@),
    {
        let points = vec![&self.a, &self.b, &self.c, &self.d];
        assert(points@.map_values(|p: &Point| p@) =~= self@.points);
        write_shape(out, &self.color, &points);
        assert(final(out)@ =~= old(out)@ + shape_text(self@));
    }
}

impl OptionalLine {
    /// Appends the line of the optional edge (written with type `2`).
    pub fn write(&self, out: &mut String)
        ensures
            final(out)@ == old(out)@ + shape_text(self@),
    {
        let points = vec![&self.a, &self.b, &self.c, &self.d];
        assert(points@.map_values(|p: &Point| p@) =~= self@.points);
        write_shape(out, &self.color, &points);
        assert(final(out)@ =~= old(out)@ + shape_text(self@));
    }
}

/// The text of a command.
pub open spec fn command_text(c: SpecCommand) -> Seq<char> {
    match c {
        SpecCommand::Meta(m) => meta_text(m),
        SpecCommand::PartReference(r) => part_reference_text(r),
        SpecCommand::Line(s) => shape_text(s),
        SpecCommand::Triangle(s) => shape_text(s),
        SpecCommand::Quad(s) => shape_text(s),
        SpecCommand::OptionalLine(s) => shape_text(s),
    }
}

impl Command {
    /// Appends the text of the command.
    pub fn write(&self, out: &mut String)
        ensures
            final(out)@ == old(out)@ + command_text(self@),
    {
        match self {
            Command::Meta(meta) => meta.write(out),
            Command::PartReference(r) => r.write(out),
            Command::Line(line) => line.write(out),
            Command::Triangle(triangle) => triangle.write(out),
            Command::Quad(quad) => quad.write(out),
            Command::OptionalLine(optional_line) => optional_line.write(out),
        }
    }
}

/// The texts of `items`, one after another.
pub open spec fn concat_all(items: Seq<Seq<char>>) -> Seq<char>
    decreases items.len(),
{
    if items.len() == 0 {
        Seq::empty()
    } else {
        concat_all(items.drop_last()) + items.last()
    }
}

/// The text of a document: its description, name and author, its headers, a
/// blank line, its certification (with a blank line) if it has one, its
/// commands, and `0` with a blank line.
pub open spec fn document_text(d: SpecDocument) -> Seq<char> {
    "0 "@ + d.description + "\n"@ + "0 Name: "@ + d.name + "\n"@ + "0 Author: "@ + d.author + "\n"@
        + concat_all(d.headers.map_values(|h: SpecHeader| header_text(h))) + "\n"@ + match bfc_certification_text(d.bfc) {
        Some(t) => t + "\n"@,
        None => Seq::empty(),
    } + concat_all(d.commands.map_values(|c: SpecCommand| command_text(c))) + "0\n\n"@
}

/// The head of a document: its description, name and author lines.
pub open spec fn document_head(d: SpecDocument) -> Seq<char> {
    "0 "@ + d.description + "\n"@ + "0 Name: "@ + d.name + "\n"@ + "0 Author: "@ + d.author + "\n"@
}

/// The certification part of a document: its line and a blank line, if any.
pub open spec fn certification_part(b: BfcCertification) -> Seq<char> {
    match bfc_certification_text(b) {
        Some(t) => t + "\n"@,
        None => Seq::empty(),
    }
}

fn write_headers(out: &mut String, headers: &Vec<Header>)
    ensures
        final(out)@ == old(out)@ + concat_all(headers@.map_values(|h: Header| header_text(h@))),
{
    let ghost hv = headers@.map_values(|h: Header| header_text(h@));
    let mut i: usize = 0;
    while i < headers.len()
        invariant
            i <= headers@.len(),
            hv == headers@.map_values(|h: Header| header_text(h@)),
            out@ == old(out)@ + concat_all(hv.subrange(0, i as int)),
        decreases headers@.len() - i,
    {
        headers[i].write(out);
        assert(hv.subrange(0, i + 1).drop_last() =~= hv.subrange(0, i as int));
        i = i + 1;
    }
    assert(hv.subrange(0, i as int) =~= hv);
}

fn write_commands(out: &mut String, commands: &Vec<Command>)
    ensures
        final(out)@ == old(out)@ + concat_all(commands@.map_values(|c: Command| command_text(c@))),
{
    let ghost cv = commands@.map_values(|c: Command| command_text(c@));
    let mut i: usize = 0;
    while i < commands.len()
        invariant
            i <= commands@.len(),
            cv == commands@.map_values(|c: Command| command_text(c@)),
            out@ == old(out)@ + concat_all(cv.subrange(0, i as int)),
        decreases commands@.len() - i,
    {
        commands[i].write(out);
        assert(cv.subrange(0, i + 1).drop_last() =~= cv.subrange(0, i as int));
        i = i + 1;
    }
    assert(cv.subrange(0, i as int) =~= cv);
}

impl Document {
    /// Appends the text of the document.
    pub fn write(&self, out: &mut String)
        ensures
            final(out)@ == old(out)@ + document_text(self@),
    {
        append(out, "0 ");
        append(out, self.description.as_str());
        append(out, "\n");
        append(out, "0 Name: ");
        append(out, self.name.as_str());
        append(out, "\n");
        append(out, "0 Author: ");
        append(out, self.author.as_str());
        append(out, "\n");
        let ghost a = out@;
        assert(a =~= old(out)@ + document_head(self@));
        write_headers(out, &self.headers);
        append(out, "\n");
        let ghost b = out@;
        assert(self.headers@.map_values(|h: Header| header_text(h@)) =~= self@.headers.map_values(|h: SpecHeader| header_text(h)));
        match self.bfc.write(out) {
            Ok(()) => {
                append(out, "\n");
            },
            Err(_) => {},
        }
        let ghost c = out@;
        assert(c =~= b + certification_part(self.bfc));
        write_commands(out, &self.commands);
        assert(self.commands@.map_values(|x: Command| command_text(x@)) =~= self@.commands.map_values(|x: SpecCommand| command_text(x)));
        append(out, "0\n\n");
        assert(document_text(self@) =~= document_head(self@) + concat_all(self@.headers.map_values(|h: SpecHeader| header_text(h))) + "\n"@ + certification_part(self.bfc) + concat_all(self@.commands.map_values(|x: SpecCommand| command_text(x))) + "0\n\n"@);
        assert(final(out)@ =~= old(out)@ + document_text(self@));
    }
}

/// A written document states its certification: right after the blank line
/// that ends its head and headers stands the certification line
/// (`0 BFC CERTIFY CCW`, `0 BFC CERTIFY CW` or `0 BFC NOCERTIFY`) and a blank
/// line; a document that says nothing has neither, and its commands follow
/// the blank line at once.
pub proof fn lemma_written_certification(d: SpecDocument)
    ensures
        ({
            let text = document_text(d);
            let h = ("0 "@ + d.description + "\n"@ + "0 Name: "@ + d.name + "\n"@ + "0 Author: "@ + d.author + "\n"@
                + concat_all(d.headers.map_values(|x: SpecHeader| header_text(x))) + "\n"@).len();
            let cmds = concat_all(d.commands.map_values(|c: SpecCommand| command_text(c)));
            let stated: Option<Seq<char>> = match d.bfc {
                BfcCertification::NoCertify => Some("0 BFC NOCERTIFY\n"@),
                BfcCertification::Certify(Winding::Ccw) => Some("0 BFC CERTIFY CCW\n"@),
                BfcCertification::Certify(Winding::Cw) => Some("0 BFC CERTIFY CW\n"@),
                BfcCertification::NotApplicable => None,
            };
            match stated {
                Some(line) => {
                    let t = line + "\n"@;
                    &&& h + t.len() <= text.len()
                    &&& text.subrange(h as int, (h + t.len()) as int) == t
                    &&& text.subrange((h + t.len()) as int, text.len() as int) == cmds + "0\n\n"@
                },
                None => text.subrange(h as int, text.len() as int) == cmds + "0\n\n"@,
            }
        }),
{
    let pre = "0 "@ + d.description + "\n"@ + "0 Name: "@ + d.name + "\n"@ + "0 Author: "@ + d.author + "\n"@
        + concat_all(d.headers.map_values(|x: SpecHeader| header_text(x))) + "\n"@;
    let cmds = concat_all(d.commands.map_values(|c: SpecCommand| command_text(c)));
    let text = document_text(d);
    let stated: Option<Seq<char>> = match d.bfc {
        BfcCertification::NoCertify => Some("0 BFC NOCERTIFY\n"@),
        BfcCertification::Certify(Winding::Ccw) => Some("0 BFC CERTIFY CCW\n"@),
        BfcCertification::Certify(Winding::Cw) => Some("0 BFC CERTIFY CW\n"@),
        BfcCertification::NotApplicable => None,
    };
    match stated {
        Some(line) => {
            let t = line + "\n"@;
            assert(text =~= pre + t + (cmds + "0\n\n"@));
            assert(text.subrange(pre.len() as int, (pre.len() + t.len()) as int) =~= t);
            assert(text.subrange((pre.len() + t.len()) as int, text.len() as int) =~= cmds + "0\n\n"@);
        },
        None => {
            assert(text =~= pre + (cmds + "0\n\n"@));
            assert(text.subrange(pre.len() as int, text.len() as int) =~= cmds + "0\n\n"@);
        },
    }
}

/// The text of a model file: the main document, then each subpart after a
/// `0 FILE` line with the subpart's name.
pub open spec fn multipart_text(body: SpecDocument, subparts: Seq<SpecDocument>) -> Seq<char> {
    document_text(body) + concat_all(subparts.map_values(|d: SpecDocument| "0 FILE "@ + d.name + "\n"@ + document_text(d)))
}

impl MultipartDocument {
    /// Appends the text of the model file (subparts in the order they are
    /// stored).
    pub fn write(&self, out: &mut String)
        ensures
            final(out)@ == old(out)@ + multipart_text(self@.body, self@.subparts.map_values(|p: (crate::SpecPartAlias, SpecDocument)| p.1)),
    {
        self.body.write(out);
        let ghost start = out@;
        let ghost sv = self@.subparts.map_values(|p: (crate::SpecPartAlias, SpecDocument)| p.1).map_values(
            |d: SpecDocument| "0 FILE "@ + d.name + "\n"@ + document_text(d),
        );
        let mut i: usize = 0;
        while i < self.subparts.len()
            invariant
                i <= self.subparts@.len(),
                sv == self@.subparts.map_values(|p: (crate::SpecPartAlias, SpecDocument)| p.1).map_values(
                    |d: SpecDocument| "0 FILE "@ + d.name + "\n"@ + document_text(d),
                ),
                out@ == start + concat_all(sv.subrange(0, i as int)),
            decreases self.subparts@.len() - i,
        {
            let subpart = &self.subparts[i].1;
            append(out, "0 FILE ");
            append(out, subpart.name.as_str());
            append(out, "\n");
            subpart.write(out);
            assert(sv.subrange(0, i + 1).drop_last() =~= sv.subrange(0, i as int));
            assert(sv[i as int] == "0 FILE "@ + subpart@.name + "\n"@ + document_text(subpart@));
            i = i + 1;
        }
        assert(sv.subrange(0, i as int) =~= sv);
    }
}

} // verus!

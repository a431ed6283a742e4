//! Reading LDraw text: tokens, the six kinds of line, whole documents (single
//! or with subparts), and colour definition files.

use std::str::Chars;
use vstd::prelude::*;
use vstd::std_specs::iter::IteratorSpec;

use crate::color::{
    catalog_view, keyed_by_code, reference_code, resolved, Color, ColorCatalog, ColorReference, CustomizedMaterial, Material,
    MaterialGlitter, MaterialSpeckle, Rgba, SpecColor, SpecColorReference, SpecCustomizedMaterial,
    SpecGlitter, SpecMaterial, SpecSpeckle,
};
use crate::error::{ColorDefinitionParseError, SpecColorDefinitionParseError};
use crate::document::{
    distinct_names, subpart_index, BfcCertification, Document, MultipartDocument, SpecDocument,
    SpecMultipartDocument,
};
use crate::elements::{Command, SpecCommand};
use crate::error::{DocumentParseError, SpecDocumentParseError};
use crate::elements::{
    BfcStatement, Header, Line, Meta, OptionalLine, PartReference, Placement, Point, Quad,
    SpecHeader, SpecMeta, SpecPartReference, SpecPoint, SpecShape, Triangle,
};
use crate::error::{ParseError, SpecParseError};
use crate::number::{is_real_literal, spec_parse_unsigned, Decimal};
use crate::text::{str_eq, trim_end_ws};
use crate::{alias_of, PartAlias, SpecPartAlias, Winding};

verus! {

// ---------------------------------------------------------------------------
// Tokens
// ---------------------------------------------------------------------------

/// The characters that separate tokens on a line.
pub open spec fn is_separator(c: char) -> bool {
    c == ' ' || c == '\t' || c == '\r' || c == '\n'
}

/// The first index at or after `i` that is not a separator (or the length).
pub open spec fn skip_separators(s: Seq<char>, i: int) -> int
    decreases s.len() - i,
{
    if 0 <= i < s.len() && is_separator(s[i]) {
        skip_separators(s, i + 1)
    } else {
        i
    }
}

/// The first index at or after `i` that is a separator (or the length).
pub open spec fn word_end(s: Seq<char>, i: int) -> int
    decreases s.len() - i,
{
    if 0 <= i < s.len() && !is_separator(s[i]) {
        word_end(s, i + 1)
    } else {
        i
    }
}

/// What `next_token` reads from the characters `s`: the token, or `None` when
/// only separators are left; and the characters it leaves. A token starts at
/// the first character that is not a separator and ends before the next
/// separator (which is consumed too), or, when `glob` holds, runs to the end
/// of the line; trailing white space is dropped from it.
pub open spec fn spec_next_token(s: Seq<char>, glob: bool) -> (Option<Seq<char>>, Seq<char>) {
    let start = skip_separators(s, 0);
    if start >= s.len() {
        (None, Seq::empty())
    } else if glob {
        (Some(trim_end_ws(s.skip(start))), Seq::empty())
    } else {
        let end = word_end(s, start);
        (
            Some(trim_end_ws(s.subrange(start, end))),
            if end < s.len() {
                s.skip(end + 1)
            } else {
                Seq::empty()
            },
        )
    }
}

/// The token that `next_token` reads from `s`.
pub open spec fn token(s: Seq<char>, glob: bool) -> Option<Seq<char>> {
    spec_next_token(s, glob).0
}

/// The characters that `next_token` leaves of `s`.
pub open spec fn after_token(s: Seq<char>, glob: bool) -> Seq<char> {
    spec_next_token(s, glob).1
}

proof fn lemma_skip_separators(s: Seq<char>, i: int)
    requires
        0 <= i <= s.len(),
    ensures
        i <= skip_separators(s, i) <= s.len(),
        forall|j: int| i <= j < skip_separators(s, i) ==> is_separator(#[trigger] s[j]),
        skip_separators(s, i) < s.len() ==> !is_separator(s[skip_separators(s, i)]),
    decreases s.len() - i,
{
    if i < s.len() && is_separator(s[i]) {
        lemma_skip_separators(s, i + 1);
    }
}

proof fn lemma_word_end(s: Seq<char>, i: int)
    requires
        0 <= i <= s.len(),
    ensures
        i <= word_end(s, i) <= s.len(),
        forall|j: int| i <= j < word_end(s, i) ==> !is_separator(#[trigger] s[j]),
        word_end(s, i) < s.len() ==> is_separator(s[word_end(s, i)]),
    decreases s.len() - i,
{
    if i < s.len() && !is_separator(s[i]) {
        lemma_word_end(s, i + 1);
    }
}

/// Whether `ch` separates tokens.
pub fn is_whitespace(ch: char) -> (res: bool)
    ensures
        res == is_separator(ch),
{
    matches!(ch, ' ' | '\t' | '\r' | '\n')
}

/// Reads the next token from `iterator` (see `spec_next_token`); at the end
/// of the line, `EndOfLine`.
pub fn next_token(iterator: &mut Chars, glob_remaining: bool) -> (res: Result<String, ParseError>)
    requires
        (*old(iterator)).decrease() is Some,
    ensures
        (*final(iterator)).decrease() is Some,
        (*final(iterator)).remaining() == after_token((*old(iterator)).remaining(), glob_remaining),
        match token((*old(iterator)).remaining(), glob_remaining) {
            Some(t) => res matches Ok(r) && r@ == t,
            None => res matches Err(e) && e@ == SpecParseError::EndOfLine,
        },
{
    let ghost s = (*iterator).remaining();
    let ghost start = skip_separators(s, 0);
    let ghost end = word_end(s, start);
    proof {
        lemma_skip_separators(s, 0);
        lemma_word_end(s, start);
    }
    let mut buffer: Vec<char> = Vec::new();
    let ghost mut i: int = 0;
    loop
        invariant_except_break
            buffer@.len() > 0 ==> start < i && buffer@ == s.subrange(start, i),
            buffer@.len() > 0 && !glob_remaining ==> i <= end,
        invariant
            0 <= i <= s.len(),
            0 <= start <= s.len(),
            start <= end <= s.len(),
            forall|j: int| 0 <= j < start ==> is_separator(#[trigger] s[j]),
            start < s.len() ==> !is_separator(s[start]),
            forall|j: int| start <= j < end ==> !is_separator(#[trigger] s[j]),
            end < s.len() ==> is_separator(s[end]),
            (*iterator).remaining() == s.skip(i),
            (*iterator).decrease() is Some,
            buffer@.len() == 0 ==> i <= start,
        ensures
            (*iterator).decrease() is Some,
            0 <= i <= s.len(),
            (*iterator).remaining() == s.skip(i),
            buffer@.len() == 0 ==> i == s.len() && start == s.len(),
            buffer@.len() > 0 ==> start < s.len(),
            buffer@.len() > 0 && glob_remaining ==> i == s.len() && buffer@ == s.subrange(start, i),
            buffer@.len() > 0 && !glob_remaining ==> i == end || i == end + 1,
            buffer@.len() > 0 && !glob_remaining ==> (i == end + 1) == (end < s.len()),
            buffer@.len() > 0 && !glob_remaining && i == end + 1 ==> buffer@ == s.subrange(start, end),
            buffer@.len() > 0 && !glob_remaining && i == end ==> buffer@ == s.subrange(start, end),
        decreases (*iterator).decrease()->0,
    {
        match iterator.next() {
            Some(v) => {
                assert(v == s[i]);
                proof {
                    i = i + 1;
                }
                if !is_whitespace(v) {
                    buffer.push(v);
                    assert(buffer@ =~= s.subrange(start, i));
                } else if buffer.len() > 0 {
                    if !glob_remaining {
                        assert(i - 1 == end);
                        assert(s.skip(i - 1).drop_first() =~= s.skip(i));
                        break ;
                    } else {
                        buffer.push(v);
                        assert(buffer@ =~= s.subrange(start, i));
                    }
                }
                assert(s.skip(i - 1).drop_first() =~= s.skip(i));
            },
            None => {
                break ;
            },
        }
    }
    if buffer.len() == 0 {
        return Err(ParseError::EndOfLine);
    }
    let n = crate::text::trimmed_end(&buffer, buffer.len());
    assert(buffer@.subrange(0, buffer@.len() as int) =~= buffer@);
    proof {
        if glob_remaining {
            assert(s.subrange(start, i) =~= s.skip(start));
        } else if end < s.len() {
        } else {
            assert(s.skip(i) =~= Seq::<char>::empty());
        }
        if glob_remaining {
            assert(s.skip(i) =~= Seq::<char>::empty());
        }
    }
    Ok(crate::text::string_of_range(&buffer, 0, n))
}


/// The outcome of a parse as the model sees it.
pub open spec fn outcome<T: View>(r: Result<T, ParseError>) -> Result<T::V, SpecParseError> {
    match r {
        Ok(v) => Ok(v@),
        Err(e) => Err(e@),
    }
}

/// The number that a `u32` token denotes: hexadecimal after `0x`, decimal
/// otherwise, as `u32::from_str_radix` reads it.
pub open spec fn u32_token_value(t: Seq<char>) -> Option<nat> {
    if t.len() >= 2 && t[0] == '0' && t[1] == 'x' {
        spec_parse_unsigned(t.skip(2), 16, 0xffff_ffff)
    } else {
        spec_parse_unsigned(t, 10, 0xffff_ffff)
    }
}

/// What `next_token_u32` reads from `s`.
pub open spec fn spec_read_u32(s: Seq<char>) -> Result<u32, SpecParseError> {
    match token(s, false) {
        None => Err(SpecParseError::EndOfLine),
        Some(t) => match u32_token_value(t) {
            Some(v) => Ok(v as u32),
            None => Err(SpecParseError::TypeMismatch("u32"@, t)),
        },
    }
}

/// Reads an unsigned 32-bit number token.
pub fn next_token_u32(iterator: &mut Chars) -> (res: Result<u32, ParseError>)
    requires
        (*old(iterator)).decrease() is Some,
    ensures
        (*final(iterator)).decrease() is Some,
        (*final(iterator)).remaining() == after_token((*old(iterator)).remaining(), false),
        outcome(res) == spec_read_u32((*old(iterator)).remaining()),
{
    let token = next_token(iterator, false)?;
    let v = crate::text::chars_of(token.as_str());
    if v.len() >= 2 && v[0] == '0' && v[1] == 'x' {
        assert(v@.subrange(2, v@.len() as int) =~= v@.skip(2));
        return match crate::number::parse_unsigned(&v, 2, v.len(), 16, 0xffff_ffff) {
            Some(x) => Ok(x),
            None => Err(ParseError::TypeMismatch("u32", token)),
        };
    }
    assert(v@.subrange(0, v@.len() as int) =~= v@);
    match crate::number::parse_unsigned(&v, 0, v.len(), 10, 0xffff_ffff) {
        Some(x) => Ok(x),
        None => Err(ParseError::TypeMismatch("u32", token)),
    }
}

/// What `next_token_decimal` reads from `s`.
pub open spec fn spec_read_decimal(s: Seq<char>) -> Result<Seq<char>, SpecParseError> {
    match token(s, false) {
        None => Err(SpecParseError::EndOfLine),
        Some(t) => if is_real_literal(t) {
            Ok(t)
        } else {
            Err(SpecParseError::TypeMismatch("f32"@, t))
        },
    }
}

/// Reads a real number token (one that `f32::from_str` accepts), keeping it
/// as written.
pub fn next_token_decimal(iterator: &mut Chars) -> (res: Result<Decimal, ParseError>)
    requires
        (*old(iterator)).decrease() is Some,
    ensures
        (*final(iterator)).decrease() is Some,
        (*final(iterator)).remaining() == after_token((*old(iterator)).remaining(), false),
        outcome(res) == spec_read_decimal((*old(iterator)).remaining()),
        res matches Ok(d) ==> d.wf(),
{
    let token = next_token(iterator, false)?;
    let v = crate::text::chars_of(token.as_str());
    assert(v@.subrange(0, v@.len() as int) =~= v@);
    if crate::number::is_real_literal_in(&v, 0, v.len()) {
        Ok(Decimal { text: token })
    } else {
        Err(ParseError::TypeMismatch("f32", token))
    }
}

/// The two characters from index `i` of `s` (fewer at its end).
pub open spec fn pair_at(s: Seq<char>, i: int) -> Seq<char> {
    s.subrange(if i < s.len() { i } else { s.len() as int }, if i + 2 < s.len() { i + 2 } else { s.len() as int })
}

/// What `next_token_rgb` reads from `s`: `#` directly followed by three
/// pairs of hexadecimal digits.
pub open spec fn spec_read_rgb(s: Seq<char>) -> Result<(u8, u8, u8), SpecParseError> {
    if s.len() == 0 {
        Err(SpecParseError::EndOfLine)
    } else if s[0] != '#' {
        Err(SpecParseError::InvalidToken(seq![s[0]]))
    } else {
        match (
            spec_parse_unsigned(pair_at(s, 1), 16, 255),
            spec_parse_unsigned(pair_at(s, 3), 16, 255),
            spec_parse_unsigned(pair_at(s, 5), 16, 255),
        ) {
            (None, _, _) => Err(SpecParseError::TypeMismatch("u8"@, pair_at(s, 1))),
            (Some(_), None, _) => Err(SpecParseError::TypeMismatch("u8"@, pair_at(s, 3))),
            (Some(_), Some(_), None) => Err(SpecParseError::TypeMismatch("u8"@, pair_at(s, 5))),
            (Some(r), Some(g), Some(b)) => Ok((r as u8, g as u8, b as u8)),
        }
    }
}

/// The characters that `next_token_rgb` leaves of `s`.
pub open spec fn after_rgb(s: Seq<char>) -> Seq<char> {
    if s.len() == 0 {
        s
    } else if s[0] != '#' {
        s.drop_first()
    } else {
        s.skip(if 7 < s.len() { 7 } else { s.len() as int })
    }
}

/// Takes up to `n` characters from `iterator`.
fn take_chars(iterator: &mut Chars, n: usize) -> (v: Vec<char>)
    requires
        (*old(iterator)).decrease() is Some,
    ensures
        (*final(iterator)).decrease() is Some,
        v@ == (*old(iterator)).remaining().subrange(0, if n < (*old(iterator)).remaining().len() { n as int } else { (*old(iterator)).remaining().len() as int }),
        (*final(iterator)).remaining() == (*old(iterator)).remaining().skip(v@.len() as int),
{
    let ghost s = (*iterator).remaining();
    let mut v: Vec<char> = Vec::new();
    while v.len() < n
        invariant
            (*iterator).decrease() is Some,
            v@.len() <= n,
            v@.len() <= s.len(),
            v@ == s.subrange(0, v@.len() as int),
            (*iterator).remaining() == s.skip(v@.len() as int),
        ensures
            (*iterator).decrease() is Some,
            v@.len() <= n,
            v@.len() <= s.len(),
            v@ == s.subrange(0, v@.len() as int),
            (*iterator).remaining() == s.skip(v@.len() as int),
            v@.len() == n || v@.len() == s.len(),
        decreases n - v@.len(),
    {
        match iterator.next() {
            Some(c) => {
                v.push(c);
                assert(v@ =~= s.subrange(0, v@.len() as int));
                assert(s.skip(v@.len() - 1).drop_first() =~= s.skip(v@.len() as int));
            },
            None => {
                break ;
            },
        }
    }
    v
}

/// Reads a colour written `#RRGGBB`.
pub fn next_token_rgb(iterator: &mut Chars) -> (res: Result<(u8, u8, u8), ParseError>)
    requires
        (*old(iterator)).decrease() is Some,
    ensures
        (*final(iterator)).decrease() is Some,
        (*final(iterator)).remaining() == after_rgb((*old(iterator)).remaining()),
        outcome(res) == spec_read_rgb((*old(iterator)).remaining()),
{
    let ghost s = (*iterator).remaining();
    match iterator.next() {
        Some(v) => {
            if v != '#' {
                let mut t = String::new();
                crate::text::push_char(&mut t, v);
                return Err(ParseError::InvalidToken(t));
            }
        },
        None => {
            return Err(ParseError::EndOfLine);
        },
    }
    let rs = take_chars(iterator, 2);
    let gs = take_chars(iterator, 2);
    let bs = take_chars(iterator, 2);
    assert(rs@ =~= pair_at(s, 1));
    assert(gs@ =~= pair_at(s, 3));
    assert(bs@ =~= pair_at(s, 5));
    assert((*iterator).remaining() =~= after_rgb(s));
    assert(rs@.subrange(0, rs@.len() as int) =~= rs@);
    assert(gs@.subrange(0, gs@.len() as int) =~= gs@);
    assert(bs@.subrange(0, bs@.len() as int) =~= bs@);
    let r = match crate::number::parse_unsigned(&rs, 0, rs.len(), 16, 255) {
        Some(v) => v as u8,
        None => return Err(ParseError::TypeMismatch("u8", crate::text::string_of(&rs))),
    };
    let g = match crate::number::parse_unsigned(&gs, 0, gs.len(), 16, 255) {
        Some(v) => v as u8,
        None => return Err(ParseError::TypeMismatch("u8", crate::text::string_of(&gs))),
    };
    let b = match crate::number::parse_unsigned(&bs, 0, bs.len(), 16, 255) {
        Some(v) => v as u8,
        None => return Err(ParseError::TypeMismatch("u8", crate::text::string_of(&bs))),
    };
    Ok((r, g, b))
}


// ---------------------------------------------------------------------------
// Lines of type 0
// ---------------------------------------------------------------------------

/// What a line of type 0 says.
#[derive(Debug, PartialEq)]
pub enum Line0 {
    Header(Header),
    Meta(Meta),
    File(String),
    Name(String),
    Author(String),
    BfcCertification(BfcCertification),
}

pub enum SpecLine0 {
    Header(SpecHeader),
    Meta(SpecMeta),
    File(Seq<char>),
    Name(Seq<char>),
    Author(Seq<char>),
    BfcCertification(BfcCertification),
}

impl View for Line0 {
    type V = SpecLine0;

    open spec fn view(&self) -> SpecLine0 {
        match self {
            Line0::Header(h) => SpecLine0::Header(h@),
            Line0::Meta(m) => SpecLine0::Meta(m@),
            Line0::File(f) => SpecLine0::File(f@),
            Line0::Name(n) => SpecLine0::Name(n@),
            Line0::Author(a) => SpecLine0::Author(a@),
            Line0::BfcCertification(b) => SpecLine0::BfcCertification(*b),
        }
    }
}

/// The meaning of the statement after `BFC`.
pub open spec fn bfc_meaning(stmt: Seq<char>) -> Result<SpecLine0, SpecParseError> {
    if stmt == "NOCERTIFY"@ {
        Ok(SpecLine0::BfcCertification(BfcCertification::NoCertify))
    } else if stmt == "CERTIFY"@ || stmt == "CERTIFY CCW"@ {
        Ok(SpecLine0::BfcCertification(BfcCertification::Certify(Winding::Ccw)))
    } else if stmt == "CERTIFY CW"@ {
        Ok(SpecLine0::BfcCertification(BfcCertification::Certify(Winding::Cw)))
    } else if stmt == "CW"@ {
        Ok(SpecLine0::Meta(SpecMeta::Bfc(BfcStatement::Winding(Winding::Cw))))
    } else if stmt == "CCW"@ {
        Ok(SpecLine0::Meta(SpecMeta::Bfc(BfcStatement::Winding(Winding::Ccw))))
    } else if stmt == "CLIP"@ {
        Ok(SpecLine0::Meta(SpecMeta::Bfc(BfcStatement::Clip(None))))
    } else if stmt == "CLIP CW"@ || stmt == "CW CLIP"@ {
        Ok(SpecLine0::Meta(SpecMeta::Bfc(BfcStatement::Clip(Some(Winding::Cw)))))
    } else if stmt == "CLIP CCW"@ || stmt == "CCW CLIP"@ {
        Ok(SpecLine0::Meta(SpecMeta::Bfc(BfcStatement::Clip(Some(Winding::Ccw)))))
    } else if stmt == "NOCLIP"@ {
        Ok(SpecLine0::Meta(SpecMeta::Bfc(BfcStatement::NoClip)))
    } else if stmt == "INVERTNEXT"@ {
        Ok(SpecLine0::Meta(SpecMeta::Bfc(BfcStatement::InvertNext)))
    } else {
        Err(SpecParseError::InvalidBfcStatement(stmt))
    }
}

/// What `parse_bfc_statement` reads from `s`: the rest of the line is the
/// statement.
pub open spec fn spec_parse_bfc(s: Seq<char>) -> Result<SpecLine0, SpecParseError> {
    match token(s, true) {
        None => Err(SpecParseError::EndOfLine),
        Some(stmt) => bfc_meaning(stmt),
    }
}

/// Reads a back-face culling statement (what follows `0 BFC`).
pub fn parse_bfc_statement(iterator: &mut Chars) -> (res: Result<Line0, ParseError>)
    requires
        (*old(iterator)).decrease() is Some,
    ensures
        (*final(iterator)).decrease() is Some,
        (*final(iterator)).remaining() == after_token((*old(iterator)).remaining(), true),
        outcome(res) == spec_parse_bfc((*old(iterator)).remaining()),
{
    let stmt = next_token(iterator, true)?;
    let st = stmt.as_str();
    if str_eq(st, "NOCERTIFY") {
        Ok(Line0::BfcCertification(BfcCertification::NoCertify))
    } else if str_eq(st, "CERTIFY") || str_eq(st, "CERTIFY CCW") {
        Ok(Line0::BfcCertification(BfcCertification::Certify(Winding::Ccw)))
    } else if str_eq(st, "CERTIFY CW") {
        Ok(Line0::BfcCertification(BfcCertification::Certify(Winding::Cw)))
    } else if str_eq(st, "CW") {
        Ok(Line0::Meta(Meta::Bfc(BfcStatement::Winding(Winding::Cw))))
    } else if str_eq(st, "CCW") {
        Ok(Line0::Meta(Meta::Bfc(BfcStatement::Winding(Winding::Ccw))))
    } else if str_eq(st, "CLIP") {
        Ok(Line0::Meta(Meta::Bfc(BfcStatement::Clip(None))))
    } else if str_eq(st, "CLIP CW") || str_eq(st, "CW CLIP") {
        Ok(Line0::Meta(Meta::Bfc(BfcStatement::Clip(Some(Winding::Cw)))))
    } else if str_eq(st, "CLIP CCW") || str_eq(st, "CCW CLIP") {
        Ok(Line0::Meta(Meta::Bfc(BfcStatement::Clip(Some(Winding::Ccw)))))
    } else if str_eq(st, "NOCLIP") {
        Ok(Line0::Meta(Meta::Bfc(BfcStatement::NoClip)))
    } else if str_eq(st, "INVERTNEXT") {
        Ok(Line0::Meta(Meta::Bfc(BfcStatement::InvertNext)))
    } else {
        Err(ParseError::InvalidBfcStatement(stmt))
    }
}

/// The rest of a line as one token, or nothing when the line has ended.
pub open spec fn rest_or_empty(s: Seq<char>) -> Seq<char> {
    match token(s, true) {
        Some(v) => v,
        None => Seq::empty(),
    }
}

/// What `parse_line_0` reads from the characters after the `0` of a line.
pub open spec fn spec_parse_line_0(s: Seq<char>) -> Result<SpecLine0, SpecParseError> {
    match token(s, true) {
        None => Ok(SpecLine0::Meta(SpecMeta::Comment(Seq::empty()))),
        Some(text) => match token(text, false) {
            None => Err(SpecParseError::EndOfLine),
            Some(cmd) => {
                let rest = after_token(text, false);
                if cmd.len() > 0 && cmd[0] == '!' {
                    Ok(SpecLine0::Header(SpecHeader(cmd.drop_first(), rest_or_empty(rest))))
                } else if cmd == "BFC"@ {
                    spec_parse_bfc(rest)
                } else if cmd == "Name:"@ {
                    Ok(SpecLine0::Name(rest_or_empty(rest)))
                } else if cmd == "Author:"@ {
                    Ok(SpecLine0::Author(rest_or_empty(rest)))
                } else if cmd == "FILE"@ {
                    match token(rest, true) {
                        Some(v) => Ok(SpecLine0::File(v)),
                        None => Err(SpecParseError::EndOfLine),
                    }
                } else if cmd == "STEP"@ {
                    Ok(SpecLine0::Meta(SpecMeta::Step))
                } else if cmd == "WRITE"@ {
                    match token(rest, true) {
                        Some(v) => Ok(SpecLine0::Meta(SpecMeta::Write(v))),
                        None => Err(SpecParseError::EndOfLine),
                    }
                } else if cmd == "PRINT"@ {
                    match token(rest, true) {
                        Some(v) => Ok(SpecLine0::Meta(SpecMeta::Print(v))),
                        None => Err(SpecParseError::EndOfLine),
                    }
                } else if cmd == "CLEAR"@ {
                    Ok(SpecLine0::Meta(SpecMeta::Clear))
                } else if cmd == "PAUSE"@ {
                    Ok(SpecLine0::Meta(SpecMeta::Pause))
                } else if cmd == "SAVE"@ {
                    Ok(SpecLine0::Meta(SpecMeta::Save))
                } else if cmd == "//"@ {
                    Ok(SpecLine0::Meta(SpecMeta::Comment(rest_or_empty(rest))))
                } else {
                    Ok(SpecLine0::Meta(SpecMeta::Comment(text)))
                }
            },
        },
    }
}

/// Reads the rest of the line as one token, or the empty string at its end.
fn rest_of_line(iterator: &mut Chars) -> (res: String)
    requires
        (*old(iterator)).decrease() is Some,
    ensures
        (*final(iterator)).decrease() is Some,
        res@ == rest_or_empty((*old(iterator)).remaining()),
{
    match next_token(iterator, true) {
        Ok(msg) => msg,
        Err(_) => String::new(),
    }
}

/// Reads what follows the `0` of a line: a header (`!KEY value`), a back-face
/// culling statement, the name, author or file of the document, a meta
/// command, a comment marked `//` (the text after the mark), or else a
/// comment (the whole text).
pub fn parse_line_0(iterator: &mut Chars) -> (res: Result<Line0, ParseError>)
    requires
        (*old(iterator)).decrease() is Some,
    ensures
        (*final(iterator)).decrease() is Some,
        (*final(iterator)).remaining() == after_token((*old(iterator)).remaining(), true),
        outcome(res) == spec_parse_line_0((*old(iterator)).remaining()),
{
    let text = match next_token(iterator, true) {
        Ok(v) => v,
        Err(ParseError::EndOfLine) => return Ok(Line0::Meta(Meta::Comment(String::new()))),
        Err(e) => return Err(e),
    };
    let mut inner_iterator = text.chars();
    let cmd = next_token(&mut inner_iterator, false)?;
    let cv = crate::text::chars_of(cmd.as_str());
    if cv.len() > 0 && cv[0] == '!' {
        let key = crate::text::string_of_range(&cv, 1, cv.len());
        assert(key@ =~= cmd@.drop_first());
        let value = rest_of_line(&mut inner_iterator);
        return Ok(Line0::Header(Header(key, value)));
    }
    let c = cmd.as_str();
    if str_eq(c, "BFC") {
        parse_bfc_statement(&mut inner_iterator)
    } else if str_eq(c, "Name:") {
        Ok(Line0::Name(rest_of_line(&mut inner_iterator)))
    } else if str_eq(c, "Author:") {
        Ok(Line0::Author(rest_of_line(&mut inner_iterator)))
    } else if str_eq(c, "FILE") {
        match next_token(&mut inner_iterator, true) {
            Ok(msg) => Ok(Line0::File(msg)),
            Err(e) => Err(e),
        }
    } else if str_eq(c, "STEP") {
        Ok(Line0::Meta(Meta::Step))
    } else if str_eq(c, "WRITE") {
        match next_token(&mut inner_iterator, true) {
            Ok(msg) => Ok(Line0::Meta(Meta::Write(msg))),
            Err(e) => Err(e),
        }
    } else if str_eq(c, "PRINT") {
        match next_token(&mut inner_iterator, true) {
            Ok(msg) => Ok(Line0::Meta(Meta::Print(msg))),
            Err(e) => Err(e),
        }
    } else if str_eq(c, "CLEAR") {
        Ok(Line0::Meta(Meta::Clear))
    } else if str_eq(c, "PAUSE") {
        Ok(Line0::Meta(Meta::Pause))
    } else if str_eq(c, "SAVE") {
        Ok(Line0::Meta(Meta::Save))
    } else if str_eq(c, "//") {
        Ok(Line0::Meta(Meta::Comment(rest_of_line(&mut inner_iterator))))
    } else {
        Ok(Line0::Meta(Meta::Comment(text)))
    }
}


// ---------------------------------------------------------------------------
// Lines of types 1 to 5
// ---------------------------------------------------------------------------

/// What reading `n` real numbers from `s` gives (the numbers, or the first
/// error), with the characters left.
pub open spec fn read_decimals(s: Seq<char>, n: nat) -> (Result<Seq<Seq<char>>, SpecParseError>, Seq<char>)
    decreases n,
{
    if n == 0 {
        (Ok(Seq::empty()), s)
    } else {
        match spec_read_decimal(s) {
            Err(e) => (Err(e), after_token(s, false)),
            Ok(t) => {
                let (rest, left) = read_decimals(after_token(s, false), (n - 1) as nat);
                match rest {
                    Ok(ts) => (Ok(seq![t] + ts), left),
                    Err(e) => (Err(e), left),
                }
            },
        }
    }
}

/// Reads `n` real numbers.
fn next_decimals(iterator: &mut Chars, n: usize) -> (res: Result<Vec<Decimal>, ParseError>)
    requires
        (*old(iterator)).decrease() is Some,
    ensures
        (*final(iterator)).decrease() is Some,
        (*final(iterator)).remaining() == read_decimals((*old(iterator)).remaining(), n as nat).1,
        match (res, read_decimals((*old(iterator)).remaining(), n as nat).0) {
            (Ok(v), Ok(ts)) => v@.len() == n && ts.len() == n && forall|i: int|
                0 <= i < n ==> #[trigger] v@[i]@ == ts[i] && v@[i].wf(),
            (Err(e), Err(f)) => e@ == f,
            _ => false,
        },
    decreases n,
{
    if n == 0 {
        return Ok(Vec::new());
    }
    let ghost s = (*iterator).remaining();
    let first = next_token_decimal(iterator)?;
    let mut rest = next_decimals(iterator, n - 1)?;
    let ghost before = rest@;
    rest.insert(0, first);
    proof {
        let t = spec_read_decimal(s)->Ok_0;
        let ts = read_decimals(after_token(s, false), (n - 1) as nat).0->Ok_0;
        assert forall|i: int| 0 <= i < n implies #[trigger] rest@[i]@ == (seq![t] + ts)[i] && rest@[i].wf() by {
            if i > 0 {
                assert(rest@[i] == before[i - 1]);
                assert(before[i - 1]@ == ts[i - 1]);
            }
        }
    }
    Ok(rest)
}

/// The point made of the three numbers of `ts` from index `i`.
pub open spec fn point_at(ts: Seq<Seq<char>>, i: int) -> SpecPoint {
    SpecPoint { x: ts[i], y: ts[i + 1], z: ts[i + 2] }
}

fn point_at_exec(v: &Vec<Decimal>, i: usize) -> (p: Point)
    requires
        i + 3 <= v@.len(),
    ensures
        p.x == v@[i as int] && p.y == v@[i + 1] && p.z == v@[i + 2],
{
    let n = v.len();
    Point { x: v[i].clone(), y: v[i + 1].clone(), z: v[i + 2].clone() }
}

/// What a geometry line with `n` points reads from the characters after its
/// type: a colour code, then the coordinates.
pub open spec fn spec_parse_shape(colors: Map<u32, crate::color::SpecColor>, s: Seq<char>, n: nat) -> Result<SpecShape, SpecParseError> {
    match spec_read_u32(s) {
        Err(e) => Err(e),
        Ok(code) => match read_decimals(after_token(s, false), 3 * n).0 {
            Err(e) => Err(e),
            Ok(ts) => Ok(
                SpecShape {
                    color: resolved(code, colors),
                    points: Seq::new(n, |k: int| point_at(ts, 3 * k)),
                },
            ),
        },
    }
}

/// What a line of type 1 reads from the characters after its type: a colour
/// code, the twelve numbers of the placement, and the name of the part (the
/// rest of the line).
pub open spec fn spec_parse_line_1(colors: Map<u32, crate::color::SpecColor>, s: Seq<char>) -> Result<SpecPartReference, SpecParseError> {
    match spec_read_u32(s) {
        Err(e) => Err(e),
        Ok(code) => {
            let (numbers, left) = read_decimals(after_token(s, false), 12);
            match numbers {
                Err(e) => Err(e),
                Ok(ts) => match token(left, true) {
                    None => Err(SpecParseError::EndOfLine),
                    Some(name) => Ok(
                        SpecPartReference {
                            color: resolved(code, colors),
                            matrix: ts,
                            name: alias_of(name),
                        },
                    ),
                },
            }
        },
    }
}

/// Reads a part reference (what follows the `1` of a line).
pub fn parse_line_1(colors: &ColorCatalog, iterator: &mut Chars) -> (res: Result<PartReference, ParseError>)
    requires
        (*old(iterator)).decrease() is Some,
    ensures
        outcome(res) == spec_parse_line_1(catalog_view(colors), (*old(iterator)).remaining()),
        res matches Ok(r) ==> r.matrix.wf(),
{
    let ghost s = (*iterator).remaining();
    let color = next_token_u32(iterator)?;
    let v = next_decimals(iterator, 12)?;
    let name = next_token(iterator, true)?;
    let matrix = Placement {
        x: v[0].clone(),
        y: v[1].clone(),
        z: v[2].clone(),
        a: v[3].clone(),
        b: v[4].clone(),
        c: v[5].clone(),
        d: v[6].clone(),
        e: v[7].clone(),
        f: v[8].clone(),
        g: v[9].clone(),
        h: v[10].clone(),
        i: v[11].clone(),
    };
    let res = PartReference {
        color: ColorReference::resolve(color, colors),
        matrix,
        name: PartAlias::new(name.as_str()),
    };
    proof {
        let ts = read_decimals(after_token(s, false), 12).0->Ok_0;
        assert(v@[0]@ == ts[0] && v@[1]@ == ts[1] && v@[2]@ == ts[2] && v@[3]@ == ts[3]);
        assert(v@[4]@ == ts[4] && v@[5]@ == ts[5] && v@[6]@ == ts[6] && v@[7]@ == ts[7]);
        assert(v@[8]@ == ts[8] && v@[9]@ == ts[9] && v@[10]@ == ts[10] && v@[11]@ == ts[11]);
        assert(res.matrix@ =~= ts);
    }
    Ok(res)
}

/// Reads an edge (what follows the `2` of a line).
pub fn parse_line_2(colors: &ColorCatalog, iterator: &mut Chars) -> (res: Result<Line, ParseError>)
    requires
        (*old(iterator)).decrease() is Some,
    ensures
        outcome(res) == spec_parse_shape(catalog_view(colors), (*old(iterator)).remaining(), 2),
        res matches Ok(l) ==> l.a.wf() && l.b.wf(),
{
    let ghost s = (*iterator).remaining();
    let color = next_token_u32(iterator)?;
    let v = next_decimals(iterator, 6)?;
    let res = Line {
        color: ColorReference::resolve(color, colors),
        a: point_at_exec(&v, 0),
        b: point_at_exec(&v, 3),
    };
    proof {
        let ts = read_decimals(after_token(s, false), 6).0->Ok_0;
        assert(res@.points =~= Seq::new(2, |k: int| point_at(ts, 3 * k)));
    }
    Ok(res)
}

/// Reads a triangle (what follows the `3` of a line).
pub fn parse_line_3(colors: &ColorCatalog, iterator: &mut Chars) -> (res: Result<Triangle, ParseError>)
    requires
        (*old(iterator)).decrease() is Some,
    ensures
        outcome(res) == spec_parse_shape(catalog_view(colors), (*old(iterator)).remaining(), 3),
        res matches Ok(t) ==> t.a.wf() && t.b.wf() && t.c.wf(),
{
    let ghost s = (*iterator).remaining();
    let color = next_token_u32(iterator)?;
    let v = next_decimals(iterator, 9)?;
    let res = Triangle {
        color: ColorReference::resolve(color, colors),
        a: point_at_exec(&v, 0),
        b: point_at_exec(&v, 3),
        c: point_at_exec(&v, 6),
    };
    proof {
        let ts = read_decimals(after_token(s, false), 9).0->Ok_0;
        assert(res@.points =~= Seq::new(3, |k: int| point_at(ts, 3 * k)));
    }
    Ok(res)
}

/// Reads a quadrilateral (what follows the `4` of a line).
pub fn parse_line_4(colors: &ColorCatalog, iterator: &mut Chars) -> (res: Result<Quad, ParseError>)
    requires
        (*old(iterator)).decrease() is Some,
    ensures
        outcome(res) == spec_parse_shape(catalog_view(colors), (*old(iterator)).remaining(), 4),
        res matches Ok(q) ==> q.a.wf() && q.b.wf() && q.c.wf() && q.d.wf(),
{
    let ghost s = (*iterator).remaining();
    let color = next_token_u32(iterator)?;
    let v = next_decimals(iterator, 12)?;
    let res = Quad {
        color: ColorReference::resolve(color, colors),
        a: point_at_exec(&v, 0),
        b: point_at_exec(&v, 3),
        c: point_at_exec(&v, 6),
        d: point_at_exec(&v, 9),
    };
    proof {
        let ts = read_decimals(after_token(s, false), 12).0->Ok_0;
        assert(res@.points =~= Seq::new(4, |k: int| point_at(ts, 3 * k)));
    }
    Ok(res)
}

/// Reads an optional edge (what follows the `5` of a line).
pub fn parse_line_5(colors: &ColorCatalog, iterator: &mut Chars) -> (res: Result<OptionalLine, ParseError>)
    requires
        (*old(iterator)).decrease() is Some,
    ensures
        outcome(res) == spec_parse_shape(catalog_view(colors), (*old(iterator)).remaining(), 4),
        res matches Ok(o) ==> o.a.wf() && o.b.wf() && o.c.wf() && o.d.wf(),
{
    let ghost s = (*iterator).remaining();
    let color = next_token_u32(iterator)?;
    let v = next_decimals(iterator, 12)?;
    let res = OptionalLine {
        color: ColorReference::resolve(color, colors),
        a: point_at_exec(&v, 0),
        b: point_at_exec(&v, 3),
        c: point_at_exec(&v, 6),
        d: point_at_exec(&v, 9),
    };
    proof {
        let ts = read_decimals(after_token(s, false), 12).0->Ok_0;
        assert(res@.points =~= Seq::new(4, |k: int| point_at(ts, 3 * k)));
    }
    Ok(res)
}


// ---------------------------------------------------------------------------
// Documents
// ---------------------------------------------------------------------------

/// The lines of a text as the model sees them.
pub open spec fn lines_view(lines: &Vec<String>) -> Seq<Seq<char>> {
    lines@.map_values(|l: String| l@)
}

/// The document before any line has been read.
pub open spec fn empty_document() -> SpecDocument {
    SpecDocument {
        name: Seq::empty(),
        description: Seq::empty(),
        author: Seq::empty(),
        bfc: BfcCertification::NotApplicable,
        headers: Seq::empty(),
        commands: Seq::empty(),
    }
}

/// What reading one line does to the document being read.
pub enum LineStep {
    /// The document so far; reading goes on.
    Continue(SpecDocument),
    /// The document ends here: a `0 FILE` line names the next subpart.
    Stop(SpecDocument, Seq<char>),
    /// The line is in error.
    Fail(SpecDocumentParseError),
}

/// The error `e` on the line of (0-based) index `index`.
pub open spec fn failed_at(index: int, e: SpecParseError) -> LineStep {
    LineStep::Fail(SpecDocumentParseError { line: (index + 1) as nat, error: e })
}

/// `d` with `c` appended to its commands.
pub open spec fn with_command(d: SpecDocument, c: SpecCommand) -> SpecDocument {
    SpecDocument { commands: d.commands.push(c), ..d }
}

/// What a line of type 0 does to the document: it sets the back-face culling,
/// name or author, adds a header, ends the document at a `0 FILE` line (in a
/// multipart file, once the document has a description; elsewhere it is an
/// error), gives the document its description (the first comment), or adds
/// a meta command.
pub open spec fn line0_step(d: SpecDocument, l: SpecLine0, index: int, multipart: bool) -> LineStep {
    match l {
        SpecLine0::BfcCertification(b) => LineStep::Continue(SpecDocument { bfc: b, ..d }),
        SpecLine0::File(f) => if multipart {
            if d.description.len() > 0 {
                LineStep::Stop(d, f)
            } else {
                LineStep::Continue(d)
            }
        } else {
            failed_at(index, SpecParseError::MultipartDocument)
        },
        SpecLine0::Name(n) => LineStep::Continue(SpecDocument { name: n, ..d }),
        SpecLine0::Author(a) => LineStep::Continue(SpecDocument { author: a, ..d }),
        SpecLine0::Meta(m) => match m {
            SpecMeta::Comment(c) => if d.description.len() == 0 {
                LineStep::Continue(SpecDocument { description: c, ..d })
            } else {
                LineStep::Continue(with_command(d, SpecCommand::Meta(m)))
            },
            _ => LineStep::Continue(with_command(d, SpecCommand::Meta(m))),
        },
        SpecLine0::Header(h) => LineStep::Continue(SpecDocument { headers: d.headers.push(h), ..d }),
    }
}

#[verifier::opaque]
/// What reading the line `line` (of index `index`) does to the document `d`:
/// a blank line changes nothing; otherwise its first token is its type.
pub open spec fn line_step(colors: Map<u32, crate::color::SpecColor>, d: SpecDocument, line: Seq<char>, index: int, multipart: bool) -> LineStep {
    match token(line, false) {
        None => LineStep::Continue(d),
        Some(t) => {
            let rest = after_token(line, false);
            if t == "0"@ {
                match spec_parse_line_0(rest) {
                    Err(e) => failed_at(index, e),
                    Ok(l) => line0_step(d, l, index, multipart),
                }
            } else if t == "1"@ {
                match spec_parse_line_1(colors, rest) {
                    Err(e) => failed_at(index, e),
                    Ok(r) => LineStep::Continue(with_command(d, SpecCommand::PartReference(r))),
                }
            } else if t == "2"@ {
                match spec_parse_shape(colors, rest, 2) {
                    Err(e) => failed_at(index, e),
                    Ok(r) => LineStep::Continue(with_command(d, SpecCommand::Line(r))),
                }
            } else if t == "3"@ {
                match spec_parse_shape(colors, rest, 3) {
                    Err(e) => failed_at(index, e),
                    Ok(r) => LineStep::Continue(with_command(d, SpecCommand::Triangle(r))),
                }
            } else if t == "4"@ {
                match spec_parse_shape(colors, rest, 4) {
                    Err(e) => failed_at(index, e),
                    Ok(r) => LineStep::Continue(with_command(d, SpecCommand::Quad(r))),
                }
            } else if t == "5"@ {
                match spec_parse_shape(colors, rest, 4) {
                    Err(e) => failed_at(index, e),
                    Ok(r) => LineStep::Continue(with_command(d, SpecCommand::OptionalLine(r))),
                }
            } else {
                failed_at(index, SpecParseError::UnexpectedCommand(t))
            }
        },
    }
}

/// Reading `lines` from index `i` into the document `d`: the document and the
/// name of the next subpart (if a `0 FILE` line ended it), or the first
/// error; with the index of the first line not read.
pub open spec fn parse_run(colors: Map<u32, crate::color::SpecColor>, lines: Seq<Seq<char>>, i: int, d: SpecDocument, multipart: bool) -> (Result<(SpecDocument, Option<Seq<char>>), SpecDocumentParseError>, int)
    decreases lines.len() - i,
{
    if i < 0 || i >= lines.len() {
        (Ok((d, None)), lines.len() as int)
    } else {
        match line_step(colors, d, lines[i], i, multipart) {
            LineStep::Continue(d2) => parse_run(colors, lines, i + 1, d2, multipart),
            LineStep::Stop(d2, f) => (Ok((d2, Some(f))), i + 1),
            LineStep::Fail(e) => (Err(e), i + 1),
        }
    }
}

proof fn lemma_parse_run_position(colors: Map<u32, crate::color::SpecColor>, lines: Seq<Seq<char>>, i: int, d: SpecDocument, multipart: bool)
    requires
        0 <= i <= lines.len(),
    ensures
        i <= parse_run(colors, lines, i, d, multipart).1 <= lines.len(),
        parse_run(colors, lines, i, d, multipart).0 matches Ok((_, Some(_))) ==> i < parse_run(colors, lines, i, d, multipart).1,
        parse_run(colors, lines, i, d, multipart).0 matches Ok((_, None)) ==> parse_run(colors, lines, i, d, multipart).1 == lines.len(),
    decreases lines.len() - i,
{
    if i < lines.len() {
        match line_step(colors, d, lines[i], i, multipart) {
            LineStep::Continue(d2) => lemma_parse_run_position(colors, lines, i + 1, d2, multipart),
            _ => {},
        }
    }
}

/// The optional name as the model sees it.
pub open spec fn name_view(o: Option<String>) -> Option<Seq<char>> {
    match o {
        Some(s) => Some(s@),
        None => None,
    }
}

fn doc_error(index: usize, e: ParseError) -> (r: DocumentParseError)
    requires
        index < usize::MAX,
    ensures
        r@ == (SpecDocumentParseError { line: (index + 1) as nat, error: e@ }),
{
    DocumentParseError { line: index + 1, error: e }
}

/// What reading one line did, as `parse_inner` acts on it.
enum LineOutcome {
    Continue,
    Stop(String),
    Fail(DocumentParseError),
}

/// `step` is what `r` (with the document now `d`) reports.
pub open spec fn reports(step: LineStep, outcome: LineOutcomeView, d: SpecDocument) -> bool {
    match step {
        LineStep::Continue(d2) => outcome == LineOutcomeView::Continue && d == d2,
        LineStep::Stop(d2, f) => outcome == LineOutcomeView::Stop(f) && d == d2,
        LineStep::Fail(e) => outcome == LineOutcomeView::Fail(e),
    }
}

pub enum LineOutcomeView {
    Continue,
    Stop(Seq<char>),
    Fail(SpecDocumentParseError),
}

impl View for LineOutcome {
    type V = LineOutcomeView;

    closed spec fn view(&self) -> LineOutcomeView {
        match self {
            LineOutcome::Continue => LineOutcomeView::Continue,
            LineOutcome::Stop(f) => LineOutcomeView::Stop(f@),
            LineOutcome::Fail(e) => LineOutcomeView::Fail(e@),
        }
    }
}

fn push_command(doc: &mut Document, c: Command)
    requires
        old(doc).wf(),
        c.wf(),
    ensures
        final(doc)@ == with_command(old(doc)@, c@),
        final(doc).wf(),
{
    let ghost old_commands = doc.commands@;
    doc.commands.push(c);
    assert(doc.commands@.map_values(|c: Command| c@) =~= old(doc)@.commands.push(c@));
    assert forall|i: int| 0 <= i < doc.commands@.len() implies #[trigger] doc.commands@[i].wf() by {
        if i < old_commands.len() {
            assert(doc.commands@[i] == old_commands[i]);
        }
    }
}

/// Applies a line of type 0 to the document being read.
fn apply_line_0(doc: &mut Document, val: Line0, index: usize, multipart: bool) -> (r: LineOutcome)
    requires
        old(doc).wf(),
        index < usize::MAX,
    ensures
        final(doc).wf(),
        reports(line0_step(old(doc)@, val@, index as int, multipart), r@, final(doc)@),
{
    match val {
        Line0::BfcCertification(bfc) => {
            doc.bfc = bfc;
            LineOutcome::Continue
        },
        Line0::File(file) => {
            if multipart {
                if doc.description.as_str().is_empty() {
                    LineOutcome::Continue
                } else {
                    LineOutcome::Stop(file)
                }
            } else {
                LineOutcome::Fail(doc_error(index, ParseError::MultipartDocument))
            }
        },
        Line0::Name(name) => {
            doc.name = name;
            LineOutcome::Continue
        },
        Line0::Author(author) => {
            doc.author = author;
            LineOutcome::Continue
        },
        Line0::Meta(meta) => {
            match meta {
                Meta::Comment(comment) => {
                    if doc.description.as_str().is_empty() {
                        doc.description = comment;
                    } else {
                        push_command(doc, Command::Meta(Meta::Comment(comment)));
                    }
                },
                _ => {
                    push_command(doc, Command::Meta(meta));
                },
            }
            LineOutcome::Continue
        },
        Line0::Header(header) => {
            let ghost before = doc@;
            doc.headers.push(header);
            assert(doc.headers@.map_values(|h: Header| h@) =~= before.headers.push(doc.headers@.last()@));
            LineOutcome::Continue
        },
    }
}

/// Reads one line into the document.
fn read_line(colors: &ColorCatalog, doc: &mut Document, line: &String, index: usize, multipart: bool) -> (r: LineOutcome)
    requires
        old(doc).wf(),
        index < usize::MAX,
    ensures
        final(doc).wf(),
        reports(line_step(catalog_view(colors), old(doc)@, line@, index as int, multipart), r@, final(doc)@),
{
    reveal(line_step);
    let mut it = line.as_str().chars();
    let token = match next_token(&mut it, false) {
        Ok(token) => token,
        Err(_) => return LineOutcome::Continue,
    };
    let t = token.as_str();
    if str_eq(t, "0") {
        match parse_line_0(&mut it) {
            Ok(val) => apply_line_0(doc, val, index, multipart),
            Err(e) => LineOutcome::Fail(doc_error(index, e)),
        }
    } else if str_eq(t, "1") {
        match parse_line_1(colors, &mut it) {
            Ok(val) => {
                push_command(doc, Command::PartReference(val));
                LineOutcome::Continue
            },
            Err(e) => LineOutcome::Fail(doc_error(index, e)),
        }
    } else if str_eq(t, "2") {
        match parse_line_2(colors, &mut it) {
            Ok(val) => {
                push_command(doc, Command::Line(val));
                LineOutcome::Continue
            },
            Err(e) => LineOutcome::Fail(doc_error(index, e)),
        }
    } else if str_eq(t, "3") {
        match parse_line_3(colors, &mut it) {
            Ok(val) => {
                push_command(doc, Command::Triangle(val));
                LineOutcome::Continue
            },
            Err(e) => LineOutcome::Fail(doc_error(index, e)),
        }
    } else if str_eq(t, "4") {
        match parse_line_4(colors, &mut it) {
            Ok(val) => {
                push_command(doc, Command::Quad(val));
                LineOutcome::Continue
            },
            Err(e) => LineOutcome::Fail(doc_error(index, e)),
        }
    } else if str_eq(t, "5") {
        match parse_line_5(colors, &mut it) {
            Ok(val) => {
                push_command(doc, Command::OptionalLine(val));
                LineOutcome::Continue
            },
            Err(e) => LineOutcome::Fail(doc_error(index, e)),
        }
    } else {
        LineOutcome::Fail(doc_error(index, ParseError::UnexpectedCommand(token)))
    }
}

/// Reads the lines from `start` into one document, until the end of the text
/// or (in a multipart file) the `0 FILE` line that starts the next subpart.
/// Gives the document, the name of the next subpart, and the index of the
/// first line not read.
pub fn parse_inner(colors: &ColorCatalog, lines: &Vec<String>, start: usize, multipart: bool) -> (res: Result<(Document, Option<String>, usize), DocumentParseError>)
    requires
        start <= lines@.len(),
    ensures
        match (res, parse_run(catalog_view(colors), lines_view(lines), start as int, empty_document(), multipart)) {
            (Ok((d, next, pos)), (Ok((sd, snext)), spos)) => d@ == sd && name_view(next) == snext && pos == spos && d.wf(),
            (Err(e), (Err(se), _)) => e@ == se,
            _ => false,
        },
{
    let ghost cv = catalog_view(colors);
    let ghost lv = lines_view(lines);
    let mut doc = Document {
        name: String::new(),
        description: String::new(),
        author: String::new(),
        bfc: BfcCertification::NotApplicable,
        headers: Vec::new(),
        commands: Vec::new(),
    };
    assert(doc@.headers =~= Seq::<SpecHeader>::empty());
    assert(doc@.commands =~= Seq::<SpecCommand>::empty());
    assert(doc@ == empty_document());
    let mut index = start;
    while index < lines.len()
        invariant
            start <= index <= lines@.len(),
            cv == catalog_view(colors),
            lv == lines_view(lines),
            doc.wf(),
            parse_run(cv, lv, index as int, doc@, multipart) == parse_run(cv, lv, start as int, empty_document(), multipart),
        decreases lines@.len() - index,
    {
        let ghost before = doc@;
        assert(lv[index as int] == lines@[index as int]@);
        match read_line(colors, &mut doc, &lines[index], index, multipart) {
            LineOutcome::Continue => {},
            LineOutcome::Stop(file) => {
                return Ok((doc, Some(file), index + 1));
            },
            LineOutcome::Fail(e) => {
                return Err(e);
            },
        }
        index = index + 1;
    }
    Ok((doc, None, index))
}


/// What `parse_single_document` gives for `lines`.
pub open spec fn spec_parse_single(colors: Map<u32, crate::color::SpecColor>, lines: Seq<Seq<char>>) -> Result<SpecDocument, SpecDocumentParseError> {
    match parse_run(colors, lines, 0, empty_document(), false).0 {
        Ok((d, _)) => Ok(d),
        Err(e) => Err(e),
    }
}

/// Reads a document that has no subparts: a `0 FILE` line is an error.
pub fn parse_single_document(colors: &ColorCatalog, lines: &Vec<String>) -> (res: Result<Document, DocumentParseError>)
    ensures
        match (res, spec_parse_single(catalog_view(colors), lines_view(lines))) {
            (Ok(d), Ok(sd)) => d@ == sd && d.wf(),
            (Err(e), Err(se)) => e@ == se,
            _ => false,
        },
{
    let (document, _, _) = parse_inner(colors, lines, 0, false)?;
    Ok(document)
}

/// `subparts` with `d` stored under `alias`: a subpart of the same canonical
/// name keeps its name and takes `d`; otherwise `d` is added.
pub open spec fn insert_subpart(subparts: Seq<(SpecPartAlias, SpecDocument)>, alias: SpecPartAlias, d: SpecDocument) -> Seq<(SpecPartAlias, SpecDocument)> {
    match subpart_index(subparts, alias.normalized) {
        Some(j) => subparts.update(j, (subparts[j].0, d)),
        None => subparts.push((alias, d)),
    }
}

/// Reading the subparts from line `pos` on, when `next` names the next one
/// (or none is left): the subparts, or the first error.
pub open spec fn multipart_run(colors: Map<u32, crate::color::SpecColor>, lines: Seq<Seq<char>>, pos: int, next: Option<Seq<char>>, subparts: Seq<(SpecPartAlias, SpecDocument)>) -> Result<Seq<(SpecPartAlias, SpecDocument)>, SpecDocumentParseError>
    decreases lines.len() - pos,
{
    match next {
        None => Ok(subparts),
        Some(f) => match parse_run(colors, lines, pos, empty_document(), true) {
            (Err(e), _) => Err(e),
            (Ok((d, n2)), p2) => {
                let s2 = insert_subpart(subparts, alias_of(f), d);
                if p2 <= pos || pos < 0 || p2 > lines.len() {
                    Ok(s2)
                } else {
                    multipart_run(colors, lines, p2, n2, s2)
                }
            },
        },
    }
}

/// What `parse_multipart_document` gives for `lines`: the main document, then
/// each subpart under the name of the `0 FILE` line before it.
pub open spec fn spec_parse_multipart(colors: Map<u32, crate::color::SpecColor>, lines: Seq<Seq<char>>) -> Result<SpecMultipartDocument, SpecDocumentParseError> {
    match parse_run(colors, lines, 0, empty_document(), true) {
        (Err(e), _) => Err(e),
        (Ok((body, next)), pos) => match multipart_run(colors, lines, pos, next, Seq::empty()) {
            Ok(subparts) => Ok(SpecMultipartDocument { body, subparts }),
            Err(e) => Err(e),
        },
    }
}

/// The view of the subparts.
pub open spec fn subparts_view(v: Seq<(PartAlias, Document)>) -> Seq<(SpecPartAlias, SpecDocument)> {
    v.map_values(|p: (PartAlias, Document)| (p.0@, p.1@))
}

/// Stores `d` under `alias` (see `insert_subpart`).
fn store_subpart(subparts: &mut Vec<(PartAlias, Document)>, alias: PartAlias, d: Document)
    requires
        distinct_names(subparts_view(old(subparts)@)),
        forall|i: int| 0 <= i < old(subparts)@.len() ==> #[trigger] old(subparts)@[i].1.wf(),
        d.wf(),
    ensures
        subparts_view(final(subparts)@) == insert_subpart(subparts_view(old(subparts)@), alias@, d@),
        distinct_names(subparts_view(final(subparts)@)),
        forall|i: int| 0 <= i < final(subparts)@.len() ==> #[trigger] final(subparts)@[i].1.wf(),
{
    let ghost sv = subparts_view(subparts@);
    let mut j: usize = 0;
    while j < subparts.len()
        invariant
            j <= subparts@.len(),
            subparts@ == old(subparts)@,
            sv == subparts_view(subparts@),
            distinct_names(sv),
            d.wf(),
            forall|i: int| 0 <= i < subparts@.len() ==> #[trigger] subparts@[i].1.wf(),
            forall|k: int| 0 <= k < j ==> sv[k].0.normalized != alias@.normalized,
        decreases subparts@.len() - j,
    {
        if str_eq(subparts[j].0.normalized.as_str(), alias.normalized.as_str()) {
            assert(sv[j as int].0.normalized == alias@.normalized);
            let ghost idx = subpart_index(sv, alias@.normalized);
            assert(idx == Some(j as int)) by {
                let c = choose|c: int| 0 <= c < sv.len() && sv[c].0.normalized == alias@.normalized;
                if c != j as int {
                    if c < j {
                    } else {
                        assert(sv[j as int].0.normalized != sv[c].0.normalized);
                    }
                }
            }
            let ghost before = subparts@;
            let ghost target = old(subparts)@.update(j as int, (old(subparts)@[j as int].0, d));
            let (k, _) = subparts.remove(j);
            subparts.insert(j, (k, d));
            assert(subparts@ =~= target);
            assert(subparts_view(subparts@) =~= sv.update(j as int, (sv[j as int].0, d@)));
            assert(distinct_names(subparts_view(subparts@))) by {
                let nv = subparts_view(subparts@);
                assert forall|a: int, b: int| 0 <= a < b < nv.len() implies #[trigger] nv[a].0.normalized != #[trigger] nv[b].0.normalized by {
                    assert(nv[a].0 == sv[a].0 && nv[b].0 == sv[b].0);
                }
            }
            assert forall|i: int| 0 <= i < subparts@.len() implies #[trigger] subparts@[i].1.wf() by {
                if i != j {
                    assert(subparts@[i] == before[i]);
                    assert(before[i].1.wf());
                }
            }
            return ;
        }
        j = j + 1;
    }
    assert(subpart_index(sv, alias@.normalized) is None);
    subparts.push((alias, d));
    assert(subparts_view(subparts@) =~= sv.push((alias@, d@)));
    assert(distinct_names(subparts_view(subparts@))) by {
        let nv = subparts_view(subparts@);
        assert forall|a: int, b: int| 0 <= a < b < nv.len() implies #[trigger] nv[a].0.normalized != #[trigger] nv[b].0.normalized by {
            assert(nv[a] == sv[a]);
            if b < sv.len() {
                assert(nv[b] == sv[b]);
            }
        }
    }
    assert forall|i: int| 0 <= i < subparts@.len() implies #[trigger] subparts@[i].1.wf() by {
        if i < sv.len() {
            assert(subparts@[i] == old(subparts)@[i]);
        }
    }
}

/// Reads a model file: the main document, then each subpart that a
/// `0 FILE` line starts.
pub fn parse_multipart_document(colors: &ColorCatalog, lines: &Vec<String>) -> (res: Result<MultipartDocument, DocumentParseError>)
    ensures
        match (res, spec_parse_multipart(catalog_view(colors), lines_view(lines))) {
            (Ok(d), Ok(sd)) => d@ == sd && d.wf(),
            (Err(e), Err(se)) => e@ == se,
            _ => false,
        },
{
    let ghost cv = catalog_view(colors);
    let ghost lv = lines_view(lines);
    let (document, mut next, mut pos) = parse_inner(colors, lines, 0, true)?;
    proof {
        lemma_parse_run_position(cv, lv, 0, empty_document(), true);
    }
    let mut subparts: Vec<(PartAlias, Document)> = Vec::new();
    assert(subparts_view(subparts@) =~= Seq::<(SpecPartAlias, SpecDocument)>::empty());
    while next.is_some()
        invariant
            cv == catalog_view(colors),
            lv == lines_view(lines),
            pos <= lines@.len(),
            distinct_names(subparts_view(subparts@)),
            forall|i: int| 0 <= i < subparts@.len() ==> #[trigger] subparts@[i].1.wf(),
            document.wf(),
            spec_parse_multipart(cv, lv) == match multipart_run(cv, lv, pos as int, name_view(next), subparts_view(subparts@)) {
                Ok(x) => Ok(SpecMultipartDocument { body: document@, subparts: x }),
                Err(e) => Err(e),
            },
        decreases lines@.len() - pos + (if next is Some { 1int } else { 0int }),
    {
        proof {
            lemma_parse_run_position(cv, lv, pos as int, empty_document(), true);
        }
        let (part, next_, pos_) = match parse_inner(colors, lines, pos, true) {
            Ok(r) => r,
            Err(e) => {
                assert(multipart_run(cv, lv, pos as int, name_view(next), subparts_view(subparts@)) == Err::<Seq<(SpecPartAlias, SpecDocument)>, SpecDocumentParseError>(e@));
                return Err(e);
            },
        };
        let name = match next {
            Some(n) => n,
            None => String::new(),
        };
        store_subpart(&mut subparts, PartAlias::new(name.as_str()), part);
        next = next_;
        if pos_ <= pos {
            assert(next.is_none());
        }
        pos = pos_;
    }
    let res = MultipartDocument { body: document, subparts };
    assert(res@.subparts == subparts_view(res.subparts@));
    Ok(res)
}


// ---------------------------------------------------------------------------
// Materials
// ---------------------------------------------------------------------------

/// Reading a token never lengthens what is left of a line, and shortens it
/// when a token is read; an empty line holds no token.
pub proof fn lemma_after_token_len(s: Seq<char>, glob: bool)
    ensures
        after_token(s, glob).len() <= s.len(),
        token(s, glob) is Some ==> after_token(s, glob).len() < s.len(),
        s.len() == 0 ==> token(s, glob) is None,
{
    lemma_skip_separators(s, 0);
    let start = skip_separators(s, 0);
    if start < s.len() {
        lemma_word_end(s, start);
    }
}

/// Reading the options of a glitter material from `s` into `g`: each keyword
/// sets a field from the value after it, until the line ends.
pub open spec fn glitter_options(s: Seq<char>, g: SpecGlitter) -> Result<SpecGlitter, SpecParseError>
    decreases s.len(),
{
    match token(s, false) {
        None => Ok(g),
        Some(t) => {
            let r = after_token(s, false);
            proof {
                lemma_after_token_len(s, false);
                lemma_after_token_len(r, false);
            }
            if t == "ALPHA"@ {
                match spec_read_u32(r) {
                    Err(e) => Err(e),
                    Ok(v) => glitter_options(after_token(r, false), SpecGlitter { value: (g.value.0, g.value.1, g.value.2, v as u8), ..g }),
                }
            } else if t == "LUMINANCE"@ {
                match spec_read_u32(r) {
                    Err(e) => Err(e),
                    Ok(v) => glitter_options(after_token(r, false), SpecGlitter { luminance: v as u8, ..g }),
                }
            } else if t == "FRACTION"@ {
                match spec_read_decimal(r) {
                    Err(e) => Err(e),
                    Ok(v) => glitter_options(after_token(r, false), SpecGlitter { fraction: v, ..g }),
                }
            } else if t == "VFRACTION"@ {
                match spec_read_decimal(r) {
                    Err(e) => Err(e),
                    Ok(v) => glitter_options(after_token(r, false), SpecGlitter { vfraction: v, ..g }),
                }
            } else if t == "SIZE"@ {
                match spec_read_u32(r) {
                    Err(e) => Err(e),
                    Ok(v) => glitter_options(after_token(r, false), SpecGlitter { size: v, ..g }),
                }
            } else if t == "MINSIZE"@ {
                match spec_read_decimal(r) {
                    Err(e) => Err(e),
                    Ok(v) => glitter_options(after_token(r, false), SpecGlitter { minsize: v, ..g }),
                }
            } else if t == "MAXSIZE"@ {
                match spec_read_decimal(r) {
                    Err(e) => Err(e),
                    Ok(v) => glitter_options(after_token(r, false), SpecGlitter { maxsize: v, ..g }),
                }
            } else {
                Err(SpecParseError::InvalidToken(t))
            }
        },
    }
}

/// Reading the options of a speckle material from `s` into `p` (as for
/// glitter, without `VFRACTION`).
pub open spec fn speckle_options(s: Seq<char>, p: SpecSpeckle) -> Result<SpecSpeckle, SpecParseError>
    decreases s.len(),
{
    match token(s, false) {
        None => Ok(p),
        Some(t) => {
            let r = after_token(s, false);
            proof {
                lemma_after_token_len(s, false);
                lemma_after_token_len(r, false);
            }
            if t == "ALPHA"@ {
                match spec_read_u32(r) {
                    Err(e) => Err(e),
                    Ok(v) => speckle_options(after_token(r, false), SpecSpeckle { value: (p.value.0, p.value.1, p.value.2, v as u8), ..p }),
                }
            } else if t == "LUMINANCE"@ {
                match spec_read_u32(r) {
                    Err(e) => Err(e),
                    Ok(v) => speckle_options(after_token(r, false), SpecSpeckle { luminance: v as u8, ..p }),
                }
            } else if t == "FRACTION"@ {
                match spec_read_decimal(r) {
                    Err(e) => Err(e),
                    Ok(v) => speckle_options(after_token(r, false), SpecSpeckle { fraction: v, ..p }),
                }
            } else if t == "SIZE"@ {
                match spec_read_u32(r) {
                    Err(e) => Err(e),
                    Ok(v) => speckle_options(after_token(r, false), SpecSpeckle { size: v, ..p }),
                }
            } else if t == "MINSIZE"@ {
                match spec_read_decimal(r) {
                    Err(e) => Err(e),
                    Ok(v) => speckle_options(after_token(r, false), SpecSpeckle { minsize: v, ..p }),
                }
            } else if t == "MAXSIZE"@ {
                match spec_read_decimal(r) {
                    Err(e) => Err(e),
                    Ok(v) => speckle_options(after_token(r, false), SpecSpeckle { maxsize: v, ..p }),
                }
            } else {
                Err(SpecParseError::InvalidToken(t))
            }
        },
    }
}

/// A glitter material of colour `(r, g, b)` before its options: opaque, and
/// every other field zero.
pub open spec fn initial_glitter(r: u8, g: u8, b: u8) -> SpecGlitter {
    SpecGlitter {
        value: (r, g, b, 255),
        luminance: 0,
        fraction: seq!['0'],
        vfraction: seq!['0'],
        size: 0,
        minsize: seq!['0'],
        maxsize: seq!['0'],
    }
}

/// A speckle material of colour `(r, g, b)` before its options.
pub open spec fn initial_speckle(r: u8, g: u8, b: u8) -> SpecSpeckle {
    SpecSpeckle {
        value: (r, g, b, 255),
        luminance: 0,
        fraction: seq!['0'],
        size: 0,
        minsize: seq!['0'],
        maxsize: seq!['0'],
    }
}

/// What `parse_customized_material` reads from `s`: `GLITTER` or `SPECKLE`,
/// `VALUE #RRGGBB`, then the options.
pub open spec fn spec_parse_material(s: Seq<char>) -> Result<SpecCustomizedMaterial, SpecColorDefinitionParseError> {
    match token(s, false) {
        None => Err(SpecColorDefinitionParseError::ParseError(SpecParseError::EndOfLine)),
        Some(kind) => {
            let r = after_token(s, false);
            if kind == "GLITTER"@ || kind == "SPECKLE"@ {
                match token(r, false) {
                    None => Err(SpecColorDefinitionParseError::ParseError(SpecParseError::EndOfLine)),
                    Some(v) => if v != "VALUE"@ {
                        Err(SpecColorDefinitionParseError::ParseError(SpecParseError::InvalidToken(v)))
                    } else {
                        let r2 = after_token(r, false);
                        match spec_read_rgb(r2) {
                            Err(e) => Err(SpecColorDefinitionParseError::ParseError(e)),
                            Ok((vr, vg, vb)) => if kind == "GLITTER"@ {
                                match glitter_options(after_rgb(r2), initial_glitter(vr, vg, vb)) {
                                    Ok(g) => Ok(SpecCustomizedMaterial::Glitter(g)),
                                    Err(e) => Err(SpecColorDefinitionParseError::ParseError(e)),
                                }
                            } else {
                                match speckle_options(after_rgb(r2), initial_speckle(vr, vg, vb)) {
                                    Ok(p) => Ok(SpecCustomizedMaterial::Speckle(p)),
                                    Err(e) => Err(SpecColorDefinitionParseError::ParseError(e)),
                                }
                            },
                        }
                    },
                }
            } else {
                Err(SpecColorDefinitionParseError::UnknownMaterial(kind))
            }
        },
    }
}

/// Reads the options of a glitter material.
fn read_glitter(it: &mut Chars, budget: usize, r: u8, g: u8, b: u8) -> (res: Result<MaterialGlitter, ParseError>)
    requires
        (*old(it)).decrease() is Some,
        (*old(it)).remaining().len() <= budget,
    ensures
        outcome(res) == glitter_options((*old(it)).remaining(), initial_glitter(r, g, b)),
        res matches Ok(m) ==> m.fraction.wf() && m.vfraction.wf() && m.minsize.wf() && m.maxsize.wf(),
{
    let ghost s0 = (*it).remaining();
    let mut alpha: u8 = 255;
    let mut luminance: u8 = 0;
    let mut fraction = Decimal::zero();
    let mut vfraction = Decimal::zero();
    let mut size: u32 = 0;
    let mut minsize = Decimal::zero();
    let mut maxsize = Decimal::zero();
    let mut budget = budget;
    loop
        invariant
            s0 == (*old(it)).remaining(),
            (*it).decrease() is Some,
            (*it).remaining().len() <= budget,
            fraction.wf() && vfraction.wf() && minsize.wf() && maxsize.wf(),
            glitter_options((*it).remaining(), SpecGlitter { value: (r, g, b, alpha), luminance, fraction: fraction@, vfraction: vfraction@, size, minsize: minsize@, maxsize: maxsize@ })
                == glitter_options(s0, initial_glitter(r, g, b)),
        ensures
            token((*it).remaining(), false) is None,
        decreases budget,
    {
        let ghost s = (*it).remaining();
        proof {
            lemma_after_token_len(s, false);
        }
        if budget == 0 {
            break ;
        }
        let word = match next_token(it, false) {
            Ok(v) => v,
            Err(_) => {
                proof {
                    lemma_after_token_len((*it).remaining(), false);
                }
                break ;
            },
        };
        let ghost rest = (*it).remaining();
        proof {
            lemma_after_token_len(rest, false);
        }
        let t = word.as_str();
        let ghost st = SpecGlitter { value: (r, g, b, alpha), luminance, fraction: fraction@, vfraction: vfraction@, size, minsize: minsize@, maxsize: maxsize@ };
        assert(token(s, false) == Some(word@));
        if str_eq(t, "ALPHA") {
            let v = match next_token_u32(it) {
                Ok(v) => v,
                Err(e) => {
                    return Err(e);
                },
            };
            alpha = v as u8;
        } else if str_eq(t, "LUMINANCE") {
            let v = next_token_u32(it)?;
            luminance = v as u8;
        } else if str_eq(t, "FRACTION") {
            fraction = next_token_decimal(it)?;
        } else if str_eq(t, "VFRACTION") {
            vfraction = next_token_decimal(it)?;
        } else if str_eq(t, "SIZE") {
            size = next_token_u32(it)?;
        } else if str_eq(t, "MINSIZE") {
            minsize = next_token_decimal(it)?;
        } else if str_eq(t, "MAXSIZE") {
            maxsize = next_token_decimal(it)?;
        } else {
            return Err(ParseError::InvalidToken(word));
        }
        budget = budget - 1;
    }
    Ok(MaterialGlitter { value: Rgba::new(r, g, b, alpha), luminance, fraction, vfraction, size, minsize, maxsize })
}

/// Reads the options of a speckle material.
fn read_speckle(it: &mut Chars, budget: usize, r: u8, g: u8, b: u8) -> (res: Result<MaterialSpeckle, ParseError>)
    requires
        (*old(it)).decrease() is Some,
        (*old(it)).remaining().len() <= budget,
    ensures
        outcome(res) == speckle_options((*old(it)).remaining(), initial_speckle(r, g, b)),
        res matches Ok(m) ==> m.fraction.wf() && m.minsize.wf() && m.maxsize.wf(),
{
    let ghost s0 = (*it).remaining();
    let mut alpha: u8 = 255;
    let mut luminance: u8 = 0;
    let mut fraction = Decimal::zero();
    let mut size: u32 = 0;
    let mut minsize = Decimal::zero();
    let mut maxsize = Decimal::zero();
    let mut budget = budget;
    loop
        invariant
            s0 == (*old(it)).remaining(),
            (*it).decrease() is Some,
            (*it).remaining().len() <= budget,
            fraction.wf() && minsize.wf() && maxsize.wf(),
            speckle_options((*it).remaining(), SpecSpeckle { value: (r, g, b, alpha), luminance, fraction: fraction@, size, minsize: minsize@, maxsize: maxsize@ })
                == speckle_options(s0, initial_speckle(r, g, b)),
        ensures
            token((*it).remaining(), false) is None,
        decreases budget,
    {
        let ghost s = (*it).remaining();
        proof {
            lemma_after_token_len(s, false);
        }
        if budget == 0 {
            break ;
        }
        let word = match next_token(it, false) {
            Ok(v) => v,
            Err(_) => {
                proof {
                    lemma_after_token_len((*it).remaining(), false);
                }
                break ;
            },
        };
        let ghost rest = (*it).remaining();
        proof {
            lemma_after_token_len(rest, false);
        }
        let t = word.as_str();
        if str_eq(t, "ALPHA") {
            let v = next_token_u32(it)?;
            alpha = v as u8;
        } else if str_eq(t, "LUMINANCE") {
            let v = next_token_u32(it)?;
            luminance = v as u8;
        } else if str_eq(t, "FRACTION") {
            fraction = next_token_decimal(it)?;
        } else if str_eq(t, "SIZE") {
            size = next_token_u32(it)?;
        } else if str_eq(t, "MINSIZE") {
            minsize = next_token_decimal(it)?;
        } else if str_eq(t, "MAXSIZE") {
            maxsize = next_token_decimal(it)?;
        } else {
            return Err(ParseError::InvalidToken(word));
        }
        budget = budget - 1;
    }
    Ok(MaterialSpeckle { value: Rgba::new(r, g, b, alpha), luminance, fraction, size, minsize, maxsize })
}


/// Reads a material (what follows `MATERIAL` in a colour definition):
/// `GLITTER` or `SPECKLE`, its colour and options, to the end of the line.
pub fn parse_customized_material(iterator: &mut Chars) -> (res: Result<CustomizedMaterial, ColorDefinitionParseError>)
    requires
        (*old(iterator)).decrease() is Some,
    ensures
        (*final(iterator)).decrease() is Some,
        res is Ok ==> (*final(iterator)).remaining().len() == 0,
        match res {
            Ok(m) => spec_parse_material((*old(iterator)).remaining()) == Ok::<SpecCustomizedMaterial, SpecColorDefinitionParseError>(m@),
            Err(e) => spec_parse_material((*old(iterator)).remaining()) == Err::<SpecCustomizedMaterial, SpecColorDefinitionParseError>(e@),
        },
        res matches Ok(m) ==> match m {
            CustomizedMaterial::Glitter(g) => g.fraction.wf() && g.vfraction.wf() && g.minsize.wf() && g.maxsize.wf(),
            CustomizedMaterial::Speckle(p) => p.fraction.wf() && p.minsize.wf() && p.maxsize.wf(),
        },
{
    let kind = match next_token(iterator, false) {
        Ok(k) => k,
        Err(e) => return Err(ColorDefinitionParseError::ParseError(e)),
    };
    let glitter = str_eq(kind.as_str(), "GLITTER");
    if !glitter && !str_eq(kind.as_str(), "SPECKLE") {
        return Err(ColorDefinitionParseError::UnknownMaterial(kind));
    }
    let value = match next_token(iterator, false) {
        Ok(v) => v,
        Err(e) => return Err(ColorDefinitionParseError::ParseError(e)),
    };
    if !str_eq(value.as_str(), "VALUE") {
        return Err(ColorDefinitionParseError::ParseError(ParseError::InvalidToken(value)));
    }
    let (vr, vg, vb) = match next_token_rgb(iterator) {
        Ok(rgb) => rgb,
        Err(e) => return Err(ColorDefinitionParseError::ParseError(e)),
    };
    let rest = crate::text::drain_chars(iterator);
    let text = crate::text::string_of(&rest);
    let mut options = text.as_str().chars();
    if glitter {
        match read_glitter(&mut options, rest.len(), vr, vg, vb) {
            Ok(g) => Ok(CustomizedMaterial::Glitter(g)),
            Err(e) => Err(ColorDefinitionParseError::ParseError(e)),
        }
    } else {
        match read_speckle(&mut options, rest.len(), vr, vg, vb) {
            Ok(p) => Ok(CustomizedMaterial::Speckle(p)),
            Err(e) => Err(ColorDefinitionParseError::ParseError(e)),
        }
    }
}

/// What follows the keyword `kw` at the start of `s`: an error when the line
/// has ended or another word stands there.
pub open spec fn after_keyword(s: Seq<char>, kw: Seq<char>) -> Result<Seq<char>, SpecParseError> {
    match token(s, false) {
        None => Err(SpecParseError::EndOfLine),
        Some(t) => if t == kw {
            Ok(after_token(s, false))
        } else {
            Err(SpecParseError::InvalidToken(t))
        },
    }
}

fn expect_keyword(iterator: &mut Chars, kw: &str) -> (res: Result<(), ParseError>)
    requires
        (*old(iterator)).decrease() is Some,
    ensures
        (*final(iterator)).decrease() is Some,
        (*final(iterator)).remaining() == after_token((*old(iterator)).remaining(), false),
        match (res, after_keyword((*old(iterator)).remaining(), kw@)) {
            (Ok(_), Ok(_)) => true,
            (Err(e), Err(f)) => e@ == f,
            _ => false,
        },
{
    let t = next_token(iterator, false)?;
    if str_eq(t.as_str(), kw) {
        Ok(())
    } else {
        Err(ParseError::InvalidToken(t))
    }
}

/// Reading the options of a colour definition from `s` into `c`: alpha,
/// luminance, a finish, or a material (which runs to the end of the line).
pub open spec fn colour_options(s: Seq<char>, c: SpecColor) -> Result<SpecColor, SpecColorDefinitionParseError>
    decreases s.len(),
{
    match token(s, false) {
        None => Ok(c),
        Some(t) => {
            let r = after_token(s, false);
            proof {
                lemma_after_token_len(s, false);
                lemma_after_token_len(r, false);
            }
            if t == "ALPHA"@ {
                match spec_read_u32(r) {
                    Err(e) => Err(SpecColorDefinitionParseError::ParseError(e)),
                    Ok(v) => colour_options(after_token(r, false), SpecColor { color: (c.color.0, c.color.1, c.color.2, v as u8), ..c }),
                }
            } else if t == "LUMINANCE"@ {
                match spec_read_u32(r) {
                    Err(e) => Err(SpecColorDefinitionParseError::ParseError(e)),
                    Ok(v) => colour_options(after_token(r, false), SpecColor { luminance: v as u8, ..c }),
                }
            } else if t == "CHROME"@ {
                colour_options(r, SpecColor { material: SpecMaterial::Chrome, ..c })
            } else if t == "PEARLESCENT"@ {
                colour_options(r, SpecColor { material: SpecMaterial::Pearlescent, ..c })
            } else if t == "METAL"@ {
                colour_options(r, SpecColor { material: SpecMaterial::Metal, ..c })
            } else if t == "RUBBER"@ {
                colour_options(r, SpecColor { material: SpecMaterial::Rubber, ..c })
            } else if t == "MATTE_METALLIC"@ {
                colour_options(r, SpecColor { material: SpecMaterial::MatteMetallic, ..c })
            } else if t == "MATERIAL"@ {
                match spec_parse_material(r) {
                    Err(e) => Err(e),
                    Ok(m) => Ok(SpecColor { material: SpecMaterial::Custom(m), ..c }),
                }
            } else {
                Err(SpecColorDefinitionParseError::ParseError(SpecParseError::InvalidToken(t)))
            }
        },
    }
}

/// What a `!COLOUR` header's value defines: `name CODE code VALUE #RRGGBB
/// EDGE #RRGGBB` and the options.
pub open spec fn spec_parse_colour(v: Seq<char>) -> Result<SpecColor, SpecColorDefinitionParseError> {
    match token(v, false) {
        None => Err(SpecColorDefinitionParseError::ParseError(SpecParseError::EndOfLine)),
        Some(name) => match after_keyword(after_token(v, false), "CODE"@) {
            Err(e) => Err(SpecColorDefinitionParseError::ParseError(e)),
            Ok(r2) => match spec_read_u32(r2) {
                Err(e) => Err(SpecColorDefinitionParseError::ParseError(e)),
                Ok(code) => match after_keyword(after_token(r2, false), "VALUE"@) {
                    Err(e) => Err(SpecColorDefinitionParseError::ParseError(e)),
                    Ok(r3) => match spec_read_rgb(r3) {
                        Err(e) => Err(SpecColorDefinitionParseError::ParseError(e)),
                        Ok((cr, cg, cb)) => match after_keyword(after_rgb(r3), "EDGE"@) {
                            Err(e) => Err(SpecColorDefinitionParseError::ParseError(e)),
                            Ok(r4) => match spec_read_rgb(r4) {
                                Err(e) => Err(SpecColorDefinitionParseError::ParseError(e)),
                                Ok((er, eg, eb)) => colour_options(
                                    after_rgb(r4),
                                    SpecColor {
                                        code,
                                        name,
                                        color: (cr, cg, cb, 255),
                                        edge: (er, eg, eb, 255),
                                        luminance: 0,
                                        material: SpecMaterial::Plastic,
                                    },
                                ),
                            },
                        },
                    },
                },
            },
        },
    }
}

/// Reads the options of a colour definition.
fn read_colour_options(it: &mut Chars, budget: usize, code: u32, name: String, color: (u8, u8, u8), edge: (u8, u8, u8)) -> (res: Result<Color, ColorDefinitionParseError>)
    requires
        (*old(it)).decrease() is Some,
        (*old(it)).remaining().len() <= budget,
    ensures
        match res {
            Ok(c) => colour_options((*old(it)).remaining(), SpecColor { code, name: name@, color: (color.0, color.1, color.2, 255), edge: (edge.0, edge.1, edge.2, 255), luminance: 0, material: SpecMaterial::Plastic }) == Ok::<SpecColor, SpecColorDefinitionParseError>(c@),
            Err(e) => colour_options((*old(it)).remaining(), SpecColor { code, name: name@, color: (color.0, color.1, color.2, 255), edge: (edge.0, edge.1, edge.2, 255), luminance: 0, material: SpecMaterial::Plastic }) == Err::<SpecColor, SpecColorDefinitionParseError>(e@),
        },
{
    let ghost s0 = (*it).remaining();
    let ghost name0 = name@;
    let mut alpha: u8 = 255;
    let mut luminance: u8 = 0;
    let mut material = Material::Plastic;
    let mut budget = budget;
    loop
        invariant
            s0 == (*old(it)).remaining(),
            name0 == name@,
            (*it).decrease() is Some,
            (*it).remaining().len() <= budget,
            colour_options((*it).remaining(), SpecColor { code, name: name@, color: (color.0, color.1, color.2, alpha), edge: (edge.0, edge.1, edge.2, 255), luminance, material: material@ })
                == colour_options(s0, SpecColor { code, name: name0, color: (color.0, color.1, color.2, 255), edge: (edge.0, edge.1, edge.2, 255), luminance: 0, material: SpecMaterial::Plastic }),
        ensures
            token((*it).remaining(), false) is None,
        decreases budget,
    {
        let ghost s = (*it).remaining();
        proof {
            lemma_after_token_len(s, false);
        }
        if budget == 0 {
            break ;
        }
        let word = match next_token(it, false) {
            Ok(v) => v,
            Err(_) => {
                proof {
                    lemma_after_token_len((*it).remaining(), false);
                }
                break ;
            },
        };
        let ghost rest = (*it).remaining();
        proof {
            lemma_after_token_len(rest, false);
        }
        let t = word.as_str();
        if str_eq(t, "ALPHA") {
            let v = match next_token_u32(it) {
                Ok(v) => v,
                Err(e) => return Err(ColorDefinitionParseError::ParseError(e)),
            };
            alpha = v as u8;
        } else if str_eq(t, "LUMINANCE") {
            let v = match next_token_u32(it) {
                Ok(v) => v,
                Err(e) => return Err(ColorDefinitionParseError::ParseError(e)),
            };
            luminance = v as u8;
        } else if str_eq(t, "CHROME") {
            material = Material::Chrome;
        } else if str_eq(t, "PEARLESCENT") {
            material = Material::Pearlescent;
        } else if str_eq(t, "METAL") {
            material = Material::Metal;
        } else if str_eq(t, "RUBBER") {
            material = Material::Rubber;
        } else if str_eq(t, "MATTE_METALLIC") {
            material = Material::MatteMetallic;
        } else if str_eq(t, "MATERIAL") {
            material = Material::Custom(parse_customized_material(it)?);
            proof {
                lemma_after_token_len((*it).remaining(), false);
            }
        } else {
            return Err(ColorDefinitionParseError::ParseError(ParseError::InvalidToken(word)));
        }
        budget = budget - 1;
    }
    Ok(
        Color {
            code,
            name,
            color: Rgba::new(color.0, color.1, color.2, alpha),
            edge: Rgba::new(edge.0, edge.1, edge.2, 255),
            luminance,
            material,
        },
    )
}

/// Reads the value of a `!COLOUR` header.
fn parse_colour(value: &String) -> (res: Result<Color, ColorDefinitionParseError>)
    ensures
        match res {
            Ok(c) => spec_parse_colour(value@) == Ok::<SpecColor, SpecColorDefinitionParseError>(c@),
            Err(e) => spec_parse_colour(value@) == Err::<SpecColor, SpecColorDefinitionParseError>(e@),
        },
{
    let mut it = value.as_str().chars();
    let name = match next_token(&mut it, false) {
        Ok(n) => n,
        Err(e) => return Err(ColorDefinitionParseError::ParseError(e)),
    };
    if let Err(e) = expect_keyword(&mut it, "CODE") {
        return Err(ColorDefinitionParseError::ParseError(e));
    }
    let code = match next_token_u32(&mut it) {
        Ok(c) => c,
        Err(e) => return Err(ColorDefinitionParseError::ParseError(e)),
    };
    if let Err(e) = expect_keyword(&mut it, "VALUE") {
        return Err(ColorDefinitionParseError::ParseError(e));
    }
    let color = match next_token_rgb(&mut it) {
        Ok(c) => c,
        Err(e) => return Err(ColorDefinitionParseError::ParseError(e)),
    };
    if let Err(e) = expect_keyword(&mut it, "EDGE") {
        return Err(ColorDefinitionParseError::ParseError(e));
    }
    let edge = match next_token_rgb(&mut it) {
        Ok(c) => c,
        Err(e) => return Err(ColorDefinitionParseError::ParseError(e)),
    };
    let rest = crate::text::drain_chars(&mut it);
    let text = crate::text::string_of(&rest);
    let mut options = text.as_str().chars();
    read_colour_options(&mut options, rest.len(), code, name, color, edge)
}

/// The catalog made from `headers` from index `i` on, starting from `m`:
/// each `!COLOUR` header defines a colour under its code (a later definition
/// replaces an earlier one); the first bad definition is the error.
pub open spec fn colour_catalog(headers: Seq<SpecHeader>, i: int, m: Map<u32, SpecColor>) -> Result<Map<u32, SpecColor>, SpecColorDefinitionParseError>
    decreases headers.len() - i,
{
    if i < 0 || i >= headers.len() {
        Ok(m)
    } else if headers[i].0 == "COLOUR"@ {
        match spec_parse_colour(headers[i].1) {
            Ok(c) => colour_catalog(headers, i + 1, m.insert(c.code, c)),
            Err(e) => Err(e),
        }
    } else {
        colour_catalog(headers, i + 1, m)
    }
}

/// What `parse_color_definition` gives for `lines`: the file is read as a
/// document (with no colours known), then its `!COLOUR` headers make the
/// catalog.
pub open spec fn spec_parse_color_definition(lines: Seq<Seq<char>>) -> Result<Map<u32, SpecColor>, SpecColorDefinitionParseError> {
    match spec_parse_single(Map::empty(), lines) {
        Err(e) => Err(SpecColorDefinitionParseError::DocumentParseError(e)),
        Ok(d) => colour_catalog(d.headers, 0, Map::empty()),
    }
}

/// Reads a colour definition file (`LDConfig.ldr`) into a catalog.
pub fn parse_color_definition(lines: &Vec<String>) -> (res: Result<ColorCatalog, ColorDefinitionParseError>)
    ensures
        match res {
            Ok(c) => spec_parse_color_definition(lines_view(lines)) == Ok::<Map<u32, SpecColor>, SpecColorDefinitionParseError>(catalog_view(&c)),
            Err(e) => spec_parse_color_definition(lines_view(lines)) == Err::<Map<u32, SpecColor>, SpecColorDefinitionParseError>(e@),
        },
{
    broadcast use vstd::std_specs::hash::group_hash_axioms;

    let empty: ColorCatalog = ColorCatalog::new();
    assert(catalog_view(&empty) =~= Map::<u32, SpecColor>::empty());
    let document = match parse_single_document(&empty, lines) {
        Ok(d) => d,
        Err(e) => return Err(ColorDefinitionParseError::DocumentParseError(e)),
    };
    let ghost hv = document@.headers;
    let mut materials: ColorCatalog = ColorCatalog::new();
    assert(catalog_view(&materials) =~= Map::<u32, SpecColor>::empty());
    let mut i: usize = 0;
    while i < document.headers.len()
        invariant
            i <= document.headers@.len(),
            hv == document@.headers,
            spec_parse_color_definition(lines_view(lines)) == colour_catalog(hv, i as int, catalog_view(&materials)),
        decreases document.headers@.len() - i,
    {
        assert(hv[i as int] == document.headers@[i as int]@);
        if str_eq(document.headers[i].0.as_str(), "COLOUR") {
            let c = parse_colour(&document.headers[i].1)?;
            let ghost before = catalog_view(&materials);
            let ghost cv = c@;
            materials.insert(c.code, c);
            assert(catalog_view(&materials) =~= before.insert(cv.code, cv));
        }
        i = i + 1;
    }
    Ok(materials)
}

/// Each colour that the `!COLOUR` headers define is filed under its own
/// code.
proof fn lemma_colour_catalog_keyed(headers: Seq<SpecHeader>, i: int, m: Map<u32, SpecColor>)
    requires
        keyed_by_code(m),
    ensures
        colour_catalog(headers, i, m) matches Ok(c) ==> keyed_by_code(c),
    decreases headers.len() - i,
{
    if 0 <= i < headers.len() {
        if headers[i].0 == "COLOUR"@ {
            match spec_parse_colour(headers[i].1) {
                Ok(c) => {
                    assert(keyed_by_code(m.insert(c.code, c)));
                    lemma_colour_catalog_keyed(headers, i + 1, m.insert(c.code, c));
                },
                Err(_) => {},
            }
        } else {
            lemma_colour_catalog_keyed(headers, i + 1, m);
        }
    }
}

/// A catalog read from a colour definition file files each colour under its
/// own code, so that resolving a code against it gives back that code.
pub proof fn lemma_color_definition_resolves_codes(lines: Seq<Seq<char>>, code: u32)
    ensures
        spec_parse_color_definition(lines) matches Ok(c) ==> keyed_by_code(c) && reference_code(resolved(code, c)) == code,
{
    match spec_parse_single(Map::empty(), lines) {
        Ok(d) => {
            lemma_colour_catalog_keyed(d.headers, 0, Map::empty());
        },
        Err(_) => {},
    }
}

} // verus!

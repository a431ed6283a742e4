//! LDraw files: their colours, documents and elements, a parser from LDraw
//! text and a writer back to it, with the rules of each stated and proved.

use vstd::prelude::*;

pub mod buffers;
pub mod color;
pub mod culling;
pub mod display;
pub mod display_list;
pub mod document;
pub mod elements;
pub mod entity;
pub mod instances;
pub mod instancing;
pub mod error;
pub mod library;
pub mod mesh;
pub mod mesh_upload;
pub mod model;
pub mod number;
pub mod parser;
pub mod part;
pub mod registry;
pub mod resolvers;
pub mod round_trip;
pub mod selection;
pub mod text;
pub mod writer;

use crate::text::{
    ascii_lower_char, ascii_lowercase, is_ascii_text, is_ascii_upper, is_white_space, lowercased, replace_char,
    trim_end_ws, trim_start_ws, trim_ws,
};

verus! {

/// The sense in which the vertices of a polygon are listed.
#[derive(Copy, Clone, Debug, PartialEq, Eq, Structural)]
pub enum Winding {
    Ccw,
    Cw,
}

/// The winding opposite to `w`.
pub open spec fn opposite(w: Winding) -> Winding {
    match w {
        Winding::Ccw => Winding::Cw,
        Winding::Cw => Winding::Ccw,
    }
}

impl Winding {
    /// The opposite winding.
    pub fn invert(self) -> (res: Self)
        ensures
            res == opposite(self),
    {
        match self {
            Winding::Ccw => Winding::Cw,
            Winding::Cw => Winding::Ccw,
        }
    }

    /// The winding, inverted when `rhs` holds (the `^ bool` of the winding).
    pub fn bitxor(self, rhs: bool) -> (res: Self)
        ensures
            res == (if rhs { opposite(self) } else { self }),
    {
        match (self, rhs) {
            (Winding::Ccw, false) => Winding::Ccw,
            (Winding::Ccw, true) => Winding::Cw,
            (Winding::Cw, false) => Winding::Cw,
            (Winding::Cw, true) => Winding::Ccw,
        }
    }
}

/// Inverting twice gives back the winding.
pub proof fn lemma_invert_involutive(w: Winding)
    ensures
        opposite(opposite(w)) == w,
{
}

/// The canonical form of a part name: trimmed, lower-cased, with `\` turned
/// into `/`.
pub open spec fn normalized_alias(alias: Seq<char>) -> Seq<char> {
    replace_char(lowercased(trim_ws(alias)), '\\', '/')
}

/// Trimming the front keeps a tail of `s`.
proof fn lemma_trim_start_tail(s: Seq<char>)
    ensures
        trim_start_ws(s) == s.subrange(s.len() - trim_start_ws(s).len(), s.len() as int),
        trim_start_ws(s).len() <= s.len(),
        trim_start_ws(s).len() > 0 ==> !is_white_space(trim_start_ws(s)[0]),
    decreases s.len(),
{
    if s.len() > 0 && is_white_space(s[0]) {
        lemma_trim_start_tail(s.drop_first());
        assert(s.drop_first().subrange(
            s.drop_first().len() - trim_start_ws(s).len(),
            s.drop_first().len() as int,
        ) =~= s.subrange(s.len() - trim_start_ws(s).len(), s.len() as int));
    } else {
        assert(s.subrange(0, s.len() as int) =~= s);
    }
}

/// Trimming the end keeps a head of `s`.
proof fn lemma_trim_end_head(s: Seq<char>)
    ensures
        trim_end_ws(s) == s.subrange(0, trim_end_ws(s).len() as int),
        trim_end_ws(s).len() <= s.len(),
        trim_end_ws(s).len() > 0 ==> !is_white_space(trim_end_ws(s).last()),
    decreases s.len(),
{
    if s.len() > 0 && is_white_space(s.last()) {
        lemma_trim_end_head(s.drop_last());
        assert(s.drop_last().subrange(0, trim_end_ws(s).len() as int) =~= s.subrange(
            0,
            trim_end_ws(s).len() as int,
        ));
    } else {
        assert(s.subrange(0, s.len() as int) =~= s);
    }
}

/// What `str::trim` keeps of `s` is a stretch of `s`, with no white space at
/// either end.
proof fn lemma_trim_stretch(s: Seq<char>)
    ensures
        exists|i: int| 0 <= i <= i + trim_ws(s).len() <= s.len() && trim_ws(s) == #[trigger] s.subrange(i, i + trim_ws(s).len()),
        trim_ws(s).len() > 0 ==> !is_white_space(trim_ws(s)[0]) && !is_white_space(trim_ws(s).last()),
{
    let a = trim_start_ws(s);
    lemma_trim_start_tail(s);
    lemma_trim_end_head(a);
    let t = trim_ws(s);
    let i = s.len() - a.len();
    assert(t =~= s.subrange(i, i + t.len()));
    if t.len() > 0 {
        assert(t[0] == a[0]);
    }
}

/// Text with no white space at either end is what `str::trim` keeps of it.
proof fn lemma_trim_untouched(s: Seq<char>)
    requires
        s.len() > 0 ==> !is_white_space(s[0]) && !is_white_space(s.last()),
    ensures
        trim_ws(s) == s,
{
}

/// The canonical form of a name made of ASCII characters has no white space
/// at either end, no upper-case letter and no `\`; and normalizing it again
/// changes nothing.
pub proof fn lemma_normalized_ascii(alias: Seq<char>)
    requires
        is_ascii_text(alias),
    ensures
        normalized_alias(alias).len() > 0 ==> !is_white_space(normalized_alias(alias)[0]) && !is_white_space(
            normalized_alias(alias).last(),
        ),
        forall|i: int|
            0 <= i < normalized_alias(alias).len() ==> !is_ascii_upper(#[trigger] normalized_alias(alias)[i])
                && normalized_alias(alias)[i] != '\\',
        is_ascii_text(normalized_alias(alias)),
        normalized_alias(normalized_alias(alias)) == normalized_alias(alias),
{
    let t = trim_ws(alias);
    lemma_trim_stretch(alias);
    let k = choose|k: int| 0 <= k <= k + t.len() <= alias.len() && t == #[trigger] alias.subrange(k, k + t.len());
    assert forall|i: int| 0 <= i < t.len() implies (#[trigger] t[i] as u32) < 0x80 by {
        assert(t[i] == alias[k + i]);
    }
    let n = normalized_alias(alias);
    assert forall|i: int| 0 <= i < n.len() implies (#[trigger] n[i] as u32) < 0x80 && !is_ascii_upper(n[i])
        && n[i] != '\\' && (is_white_space(n[i]) == is_white_space(t[i])) by {
        let c = t[i];
        assert((c as u32) < 0x80);
        if is_ascii_upper(c) {
            assert(ascii_lower_char(c) as u32 == (c as u32) + 0x20);
        }
    }
    let m = ascii_lowercase(n);
    assert(m =~= n) by {
        assert forall|i: int| 0 <= i < n.len() implies m[i] == n[i] by {
            assert(!is_ascii_upper(n[i]));
        }
    }
    assert(replace_char(n, '\\', '/') =~= n);
    lemma_trim_untouched(n);
}

/// Two names are the same part exactly when their canonical forms agree.
pub proof fn lemma_alias_equality(a: Seq<char>, b: Seq<char>)
    ensures
        (alias_of(a).normalized == alias_of(b).normalized) <==> (normalized_alias(a) == normalized_alias(b)),
{
}

/// The name of a part as written, with its canonical form, by which two
/// names are compared.
#[derive(Debug)]
pub struct PartAlias {
    pub normalized: String,
    pub original: String,
}

/// A part name as the model sees it.
pub struct SpecPartAlias {
    pub normalized: Seq<char>,
    pub original: Seq<char>,
}

impl View for PartAlias {
    type V = SpecPartAlias;

    open spec fn view(&self) -> SpecPartAlias {
        SpecPartAlias { normalized: self.normalized@, original: self.original@ }
    }
}

/// The alias that names `alias`.
pub open spec fn alias_of(alias: Seq<char>) -> SpecPartAlias {
    SpecPartAlias { normalized: normalized_alias(alias), original: alias }
}

impl PartAlias {
    /// Renames to `alias`.
    pub fn set(&mut self, alias: String)
        ensures
            final(self)@ == alias_of(alias@),
    {
        self.normalized = Self::normalize(alias.as_str());
        self.original = alias;
    }

    /// The canonical form of `alias`.
    pub fn normalize(alias: &str) -> (res: String)
        ensures
            res@ == normalized_alias(alias@),
    {
        let trimmed = crate::text::trim(alias);
        let lower = crate::text::to_lowercase(trimmed.as_str());
        crate::text::replace_chars(lower.as_str(), '\\', '/')
    }

    /// The alias naming `alias` (what `PartAlias::from` builds).
    pub fn new(alias: &str) -> (res: PartAlias)
        ensures
            res@ == alias_of(alias@),
    {
        PartAlias { normalized: Self::normalize(alias), original: alias.to_owned() }
    }
}

impl Clone for PartAlias {
    fn clone(&self) -> (res: Self)
        ensures
            res == *self,
    {
        PartAlias { normalized: self.normalized.clone(), original: self.original.clone() }
    }
}

impl PartialEq for PartAlias {
    fn eq(&self, other: &PartAlias) -> (res: bool) {
        self.normalized == other.normalized
    }
}

impl Eq for PartAlias {}

impl vstd::std_specs::cmp::PartialEqSpecImpl for PartAlias {
    open spec fn obeys_eq_spec() -> bool {
        true
    }

    open spec fn eq_spec(&self, other: &PartAlias) -> bool {
        self.normalized@ == other.normalized@
    }
}

} // verus!

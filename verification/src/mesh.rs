//! The key of a mesh group: the colour of its faces and whether they are
//! culled; its text form (how baked parts store it) and its order.

use vstd::prelude::*;

use crate::color::{reference_code, ColorCatalog, ColorReference, SpecColorReference};
use crate::number::{decimal, parse_unsigned, push_decimal, spec_parse_unsigned};

verus! {

/// The colour of a mesh group's faces and whether they are culled.
#[derive(Debug)]
pub struct MeshGroupKey {
    pub color_ref: ColorReference,
    pub bfc: bool,
}

/// The text form of a key: the colour code, preceded by `!` when the faces
/// are not culled.
pub open spec fn key_text(code: u32, bfc: bool) -> Seq<char> {
    if bfc {
        decimal(code as nat)
    } else {
        seq!['!'] + decimal(code as nat)
    }
}

/// What a key's text form reads as: an optional `!` (no culling), then the
/// colour code as `u32::from_str` reads it.
pub open spec fn read_key_text(s: Seq<char>) -> Option<(u32, bool)> {
    let (digits, bfc) = if s.len() > 0 && s[0] == '!' {
        (s.drop_first(), false)
    } else {
        (s, true)
    };
    match spec_parse_unsigned(digits, 10, 0xffff_ffff) {
        Some(v) => Some((v as u32, bfc)),
        None => None,
    }
}

/// Whether a key's colour is a translucent colour.
pub open spec fn key_translucent(r: SpecColorReference) -> bool {
    match r {
        SpecColorReference::Color(c) => c.color.3 < 255,
        _ => false,
    }
}

/// How two keys are ordered.
#[derive(Copy, Clone, Debug, PartialEq, Eq, Structural)]
pub enum KeyOrder {
    Less,
    Equal,
    Greater,
}

/// The order of keys: opaque colours before translucent ones, then by colour
/// code, then unculled before culled.
pub open spec fn key_order(a: (SpecColorReference, bool), b: (SpecColorReference, bool)) -> KeyOrder {
    let (ta, tb) = (key_translucent(a.0), key_translucent(b.0));
    let (ca, cb) = (reference_code(a.0), reference_code(b.0));
    if ta && !tb {
        KeyOrder::Greater
    } else if !ta && tb {
        KeyOrder::Less
    } else if ca < cb {
        KeyOrder::Less
    } else if ca > cb {
        KeyOrder::Greater
    } else if a.1 == b.1 {
        KeyOrder::Equal
    } else if !a.1 {
        KeyOrder::Less
    } else {
        KeyOrder::Greater
    }
}

impl MeshGroupKey {
    /// The text form of the key (how baked parts store it).
    pub fn to_key_text(&self) -> (res: String)
        ensures
            res@ == key_text(reference_code(self.color_ref@), self.bfc),
    {
        let mut res = String::new();
        if !self.bfc {
            crate::text::push_char(&mut res, '!');
        }
        push_decimal(&mut res, self.color_ref.code() as u64);
        assert(res@ =~= key_text(reference_code(self.color_ref@), self.bfc));
        res
    }

    /// Reads a key from its text form: its colour is left unknown (to be
    /// resolved), or nothing when the text is not a key.
    pub fn from_key_text(value: &str) -> (res: Option<MeshGroupKey>)
        ensures
            match read_key_text(value@) {
                Some((code, bfc)) => res matches Some(k) && k.color_ref@ == SpecColorReference::Unknown(code) && k.bfc == bfc,
                None => res is None,
            },
    {
        let v = crate::text::chars_of(value);
        let (from, bfc) = if v.len() > 0 && v[0] == '!' {
            (1usize, false)
        } else {
            (0usize, true)
        };
        assert(v@.subrange(from as int, v@.len() as int) =~= (if v@.len() > 0 && v@[0] == '!' {
            v@.drop_first()
        } else {
            v@
        }));
        match parse_unsigned(&v, from, v.len(), 10, 0xffff_ffff) {
            Some(code) => Some(MeshGroupKey { color_ref: ColorReference::Unknown(code), bfc }),
            None => None,
        }
    }

    /// Looks the colour up in `colors` if it is still unresolved.
    pub fn resolve_color(&mut self, colors: &ColorCatalog)
        ensures
            match old(self).color_ref@ {
                SpecColorReference::Unresolved(code) => final(self).color_ref@ == crate::color::resolved(
                    code,
                    crate::color::catalog_view(colors),
                ),
                _ => final(self).color_ref == old(self).color_ref,
            },
            final(self).bfc == old(self).bfc,
    {
        self.color_ref.resolve_self(colors);
    }

    /// How `self` is ordered against `other` (see `key_order`).
    pub fn compare(&self, other: &MeshGroupKey) -> (res: KeyOrder)
        ensures
            res == key_order((self.color_ref@, self.bfc), (other.color_ref@, other.bfc)),
    {
        let lhs_translucent = match &self.color_ref {
            ColorReference::Color(c) => c.is_translucent(),
            _ => false,
        };
        let rhs_translucent = match &other.color_ref {
            ColorReference::Color(c) => c.is_translucent(),
            _ => false,
        };
        if lhs_translucent && !rhs_translucent {
            return KeyOrder::Greater;
        }
        if !lhs_translucent && rhs_translucent {
            return KeyOrder::Less;
        }
        let (a, b) = (self.color_ref.code(), other.color_ref.code());
        if a < b {
            KeyOrder::Less
        } else if a > b {
            KeyOrder::Greater
        } else if self.bfc == other.bfc {
            KeyOrder::Equal
        } else if !self.bfc {
            KeyOrder::Less
        } else {
            KeyOrder::Greater
        }
    }
}

impl PartialEq for MeshGroupKey {
    /// Two keys are equal when they have the same colour code and culling.
    fn eq(&self, other: &Self) -> (res: bool) {
        self.color_ref.code() == other.color_ref.code() && self.bfc == other.bfc
    }
}

impl Eq for MeshGroupKey {}

impl vstd::std_specs::cmp::PartialEqSpecImpl for MeshGroupKey {
    open spec fn obeys_eq_spec() -> bool {
        true
    }

    open spec fn eq_spec(&self, other: &Self) -> bool {
        reference_code(self.color_ref@) == reference_code(other.color_ref@) && self.bfc == other.bfc
    }
}

/// The text form of a key reads back as the key's code and culling.
pub proof fn lemma_key_text_round_trip(code: u32, bfc: bool)
    ensures
        read_key_text(key_text(code, bfc)) == Some((code, bfc)),
{
    crate::number::lemma_decimal_parses(code as nat);
    let d = decimal(code as nat);
    if !bfc {
        assert((seq!['!'] + d).drop_first() =~= d);
    }
}

/// Keys are equal exactly when neither comes before the other.
pub proof fn lemma_key_order_equal(a: (SpecColorReference, bool), b: (SpecColorReference, bool))
    ensures
        (key_order(a, b) is Equal) == (reference_code(a.0) == reference_code(b.0) && a.1 == b.1 && key_translucent(a.0) == key_translucent(b.0)),
        key_order(a, b) is Less <==> key_order(b, a) is Greater,
{
}

/// The mesh of a baked part that a group of faces goes to.
#[derive(Copy, Clone, Debug, PartialEq, Eq, Structural)]
pub enum MeshTarget {
    /// The faces drawn in the colour of the reference, culled.
    Uncolored,
    /// The faces drawn in the colour of the reference, not culled.
    UncoloredWithoutBfc,
    /// The faces of a colour of their own, in the mesh of their key.
    Colored,
    /// A colour that was never resolved: the faces are skipped.
    Skipped,
}

/// Where the faces of the group with colour `color` and culling `bfc` go.
pub open spec fn mesh_target_of(color: SpecColorReference, bfc: bool) -> MeshTarget {
    match color {
        SpecColorReference::Current | SpecColorReference::Complement => if bfc {
            MeshTarget::Uncolored
        } else {
            MeshTarget::UncoloredWithoutBfc
        },
        SpecColorReference::Color(_) => MeshTarget::Colored,
        _ => MeshTarget::Skipped,
    }
}

/// Where the faces of the group `key` go.
pub fn mesh_target(key: &MeshGroupKey) -> (res: MeshTarget)
    ensures
        res == mesh_target_of(key.color_ref@, key.bfc),
{
    match &key.color_ref {
        ColorReference::Current | ColorReference::Complement => if key.bfc {
            MeshTarget::Uncolored
        } else {
            MeshTarget::UncoloredWithoutBfc
        },
        ColorReference::Color(_) => MeshTarget::Colored,
        _ => MeshTarget::Skipped,
    }
}

/// The corners of a face, as triangles, in drawing order: a triangle as it
/// is, a quad `a b c d` as the triangles `a b c` and `c d a`.
pub open spec fn corner_order(quad: bool) -> Seq<usize> {
    if quad {
        seq![0usize, 1, 2, 2, 3, 0]
    } else {
        seq![0usize, 1, 2]
    }
}

/// The corners of a face (a quad when `quad` holds), as triangles, in
/// drawing order.
pub fn face_corners(quad: bool) -> (res: Vec<usize>)
    ensures
        res@ == corner_order(quad),
{
    if quad {
        vec![0, 1, 2, 2, 3, 0]
    } else {
        vec![0, 1, 2]
    }
}

} // verus!

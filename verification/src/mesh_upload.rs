//! The index data that a baked part is drawn from: each distinct corner
//! (vertex, normal, colour) gets one index into the vertex data, and each
//! kind of mesh of the part gets the range of the index list that draws it.
//!
//! The vertex data itself (positions, normals and colours, as floats) is
//! written by the caller, one entry for each corner that enters the table.

use std::collections::HashMap;
use vstd::prelude::*;

use crate::buffers::MeshBuffer;
use crate::color::{ColorReference, SpecColorReference};
use crate::mesh::{key_translucent, MeshGroupKey};

verus! {

/// The key of a corner in the index table: its vertex, its normal and its
/// colour code, side by side.
pub open spec fn corner_key(vertex: u32, normal: u32, code: u32) -> u128 {
    (vertex * 0x1_0000_0000_0000_0000 + normal * 0x1_0000_0000 + code) as u128
}

/// Whether the three floats of `vertex` and of `normal` stand inside vertex
/// data of `floats` floats.
pub open spec fn corner_fits(floats: nat, vertex: u32, normal: u32) -> bool {
    vertex * 3 + 3 <= floats && normal * 3 + 3 <= floats
}

/// One corner drawn: a corner already in the table is drawn by its index;
/// a new one enters the table with the next index.
pub open spec fn with_corner(table: Map<u128, u32>, index: Seq<u32>, key: u128) -> (Map<u128, u32>, Seq<u32>) {
    if table.contains_key(key) {
        (table, index.push(table[key]))
    } else {
        (table.insert(key, table.len() as u32), index.push(table.len() as u32))
    }
}

/// The corners `vertices[i]`, `normals[i]` of colour `code`, in order, drawn
/// after `table` and `index`; the flag turns false, and the work stops, at the
/// first corner outside the vertex data.
pub open spec fn expanded_corners(
    table: Map<u128, u32>,
    index: Seq<u32>,
    code: u32,
    vertices: Seq<u32>,
    normals: Seq<u32>,
    floats: nat,
) -> (Map<u128, u32>, Seq<u32>, bool)
    decreases vertices.len(),
{
    if vertices.len() == 0 {
        (table, index, true)
    } else {
        let last = vertices.len() - 1;
        let (t, i, ok) = expanded_corners(table, index, code, vertices.drop_last(), normals.subrange(0, last), floats);
        if !ok || !corner_fits(floats, vertices[last], normals[last]) {
            (t, i, false)
        } else {
            let (t2, i2) = with_corner(t, i, corner_key(vertices[last], normals[last], code));
            (t2, i2, true)
        }
    }
}

/// The groups (colour code, mesh), in order, drawn after `table` and
/// `index`; the flag turns false, and the work stops, at the first mesh
/// whose corners lack normals or leave the vertex data.
pub open spec fn expanded_groups(
    table: Map<u128, u32>,
    index: Seq<u32>,
    groups: Seq<(u32, MeshBuffer)>,
    floats: nat,
) -> (Map<u128, u32>, Seq<u32>, bool)
    decreases groups.len(),
{
    if groups.len() == 0 {
        (table, index, true)
    } else {
        let (t, i, ok) = expanded_groups(table, index, groups.drop_last(), floats);
        let g = groups.last();
        if !ok || g.1.vertex_indices@.len() != g.1.normal_indices@.len() {
            (t, i, false)
        } else {
            expanded_corners(t, i, g.0, g.1.vertex_indices@, g.1.normal_indices@, floats)
        }
    }
}

/// How many corners the groups have in all.
pub open spec fn total_corners(groups: Seq<(u32, MeshBuffer)>) -> nat
    decreases groups.len(),
{
    if groups.len() == 0 {
        0
    } else {
        total_corners(groups.drop_last()) + groups.last().1.vertex_indices@.len()
    }
}

/// The range of the index list that draws what one call of `expand` added:
/// none when it stopped on a broken mesh or added nothing.
pub open spec fn added_range(before: nat, after: Seq<u32>, ok: bool) -> Option<(u32, u32)> {
    if ok && after.len() > before {
        Some((before as u32, after.len() as u32))
    } else {
        None
    }
}

/// A run of corners that stopped stays stopped: the corners after it change
/// nothing.
proof fn lemma_corners_stop(
    table: Map<u128, u32>,
    index: Seq<u32>,
    code: u32,
    vertices: Seq<u32>,
    normals: Seq<u32>,
    k: int,
    floats: nat,
)
    requires
        0 <= k <= vertices.len(),
        normals.len() == vertices.len(),
        !expanded_corners(table, index, code, vertices.subrange(0, k), normals.subrange(0, k), floats).2,
    ensures
        expanded_corners(table, index, code, vertices, normals, floats) == expanded_corners(
            table,
            index,
            code,
            vertices.subrange(0, k),
            normals.subrange(0, k),
            floats,
        ),
    decreases vertices.len(),
{
    if k == vertices.len() {
        assert(vertices.subrange(0, k) =~= vertices);
        assert(normals.subrange(0, k) =~= normals);
    } else {
        let last = vertices.len() - 1;
        let vs = vertices.drop_last();
        let ns = normals.subrange(0, last);
        assert(vs.subrange(0, k) =~= vertices.subrange(0, k));
        assert(ns.subrange(0, k) =~= normals.subrange(0, k));
        lemma_corners_stop(table, index, code, vs, ns, k, floats);
    }
}

/// A run of groups that stopped stays stopped.
proof fn lemma_groups_stop(table: Map<u128, u32>, index: Seq<u32>, groups: Seq<(u32, MeshBuffer)>, k: int, floats: nat)
    requires
        0 <= k <= groups.len(),
        !expanded_groups(table, index, groups.subrange(0, k), floats).2,
    ensures
        expanded_groups(table, index, groups, floats) == expanded_groups(table, index, groups.subrange(0, k), floats),
    decreases groups.len(),
{
    if k == groups.len() {
        assert(groups.subrange(0, k) =~= groups);
    } else {
        assert(groups.drop_last().subrange(0, k) =~= groups.subrange(0, k));
        lemma_groups_stop(table, index, groups.drop_last(), k, floats);
    }
}

/// The groups before `k` have no more corners than all of them.
proof fn lemma_total_prefix(groups: Seq<(u32, MeshBuffer)>, k: int)
    requires
        0 <= k <= groups.len(),
    ensures
        total_corners(groups.subrange(0, k)) <= total_corners(groups),
    decreases groups.len(),
{
    if k == groups.len() {
        assert(groups.subrange(0, k) =~= groups);
    } else {
        assert(groups.drop_last().subrange(0, k) =~= groups.subrange(0, k));
        lemma_total_prefix(groups.drop_last(), k);
    }
}

/// The table numbers its corners `0, 1, ...` without gaps or repeats (each
/// corner has its own index, below the table's size), and every index drawn
/// names one of them.
pub open spec fn numbered(table: Map<u128, u32>, index: Seq<u32>) -> bool {
    &&& table.dom().finite()
    &&& table.len() <= u32::MAX
    &&& forall|k: u128| #[trigger] table.contains_key(k) ==> table[k] < table.len()
    &&& forall|k1: u128, k2: u128|
        #![trigger table[k1], table[k2]]
        table.contains_key(k1) && table.contains_key(k2) && k1 != k2 ==> table[k1] != table[k2]
    &&& forall|i: int| 0 <= i < index.len() ==> exists|k: u128| #[trigger] table.contains_key(k) && table[k] == #[trigger] index[i]
}

proof fn lemma_corner_numbered(table: Map<u128, u32>, index: Seq<u32>, key: u128)
    requires
        numbered(table, index),
        table.len() < u32::MAX,
    ensures
        numbered(with_corner(table, index, key).0, with_corner(table, index, key).1),
        with_corner(table, index, key).0.len() <= table.len() + 1,
{
    let (t, i) = with_corner(table, index, key);
    if table.contains_key(key) {
        assert forall|n: int| 0 <= n < i.len() implies exists|k: u128| #[trigger] t.contains_key(k) && t[k] == #[trigger] i[n] by {
            if n == index.len() {
                assert(t.contains_key(key) && t[key] == i[n]);
            } else {
                assert(i[n] == index[n]);
            }
        }
    } else {
        assert(t.len() == table.len() + 1);
        assert forall|k: u128| #[trigger] t.contains_key(k) implies t[k] < t.len() by {
            if k != key {
                assert(table.contains_key(k));
            }
        }
        assert forall|n: int| 0 <= n < i.len() implies exists|k: u128| #[trigger] t.contains_key(k) && t[k] == #[trigger] i[n] by {
            if n == index.len() {
                assert(t.contains_key(key) && t[key] == i[n]);
            } else {
                assert(i[n] == index[n]);
                let k = choose|k: u128| #[trigger] table.contains_key(k) && table[k] == index[n];
                assert(t.contains_key(k) && t[k] == i[n]);
            }
        }
    }
}

proof fn lemma_corners_numbered(
    table: Map<u128, u32>,
    index: Seq<u32>,
    code: u32,
    vertices: Seq<u32>,
    normals: Seq<u32>,
    floats: nat,
)
    requires
        numbered(table, index),
        table.len() + vertices.len() <= u32::MAX,
    ensures
        numbered(
            expanded_corners(table, index, code, vertices, normals, floats).0,
            expanded_corners(table, index, code, vertices, normals, floats).1,
        ),
        expanded_corners(table, index, code, vertices, normals, floats).0.len() <= table.len() + vertices.len(),
    decreases vertices.len(),
{
    if vertices.len() > 0 {
        let last = vertices.len() - 1;
        lemma_corners_numbered(table, index, code, vertices.drop_last(), normals.subrange(0, last), floats);
        let (t, i, ok) = expanded_corners(table, index, code, vertices.drop_last(), normals.subrange(0, last), floats);
        lemma_corner_numbered(t, i, corner_key(vertices[last], normals[last], code));
    }
}

/// Drawing corners keeps the numbering of the table: a corner seen before
/// keeps its index, a new one takes the next, and every index drawn names a
/// corner of the table.
pub proof fn lemma_expand_numbered(table: Map<u128, u32>, index: Seq<u32>, groups: Seq<(u32, MeshBuffer)>, floats: nat)
    requires
        numbered(table, index),
        table.len() + total_corners(groups) <= u32::MAX,
    ensures
        numbered(expanded_groups(table, index, groups, floats).0, expanded_groups(table, index, groups, floats).1),
        expanded_groups(table, index, groups, floats).0.len() <= table.len() + total_corners(groups),
    decreases groups.len(),
{
    if groups.len() > 0 {
        lemma_expand_numbered(table, index, groups.drop_last(), floats);
        let (t, i, ok) = expanded_groups(table, index, groups.drop_last(), floats);
        let g = groups.last();
        if ok && g.1.vertex_indices@.len() == g.1.normal_indices@.len() {
            lemma_corners_numbered(t, i, g.0, g.1.vertex_indices@, g.1.normal_indices@, floats);
        }
    }
}

/// Distinct corners have distinct keys.
pub proof fn lemma_corner_key_distinct(v1: u32, n1: u32, c1: u32, v2: u32, n2: u32, c2: u32)
    requires
        (v1, n1, c1) != (v2, n2, c2),
    ensures
        corner_key(v1, n1, c1) != corner_key(v2, n2, c2),
{
    assert((v1 * 0x1_0000_0000_0000_0000 + n1 * 0x1_0000_0000 + c1) as u128 != (v2 * 0x1_0000_0000_0000_0000 + n2
        * 0x1_0000_0000 + c2) as u128) by (nonlinear_arith)
        requires
            (v1, n1, c1) != (v2, n2, c2),
            v1 <= u32::MAX,
            v2 <= u32::MAX,
            n1 <= u32::MAX,
            n2 <= u32::MAX,
            c1 <= u32::MAX,
            c2 <= u32::MAX,
    ;
}

/// The key of a corner, as `corner_key` lays it out.
fn make_key(vertex: u32, normal: u32, code: u32) -> (res: u128)
    ensures
        res == corner_key(vertex, normal, code),
{
    (vertex as u128) * 0x1_0000_0000_0000_0000u128 + (normal as u128) * 0x1_0000_0000u128 + (code as u128)
}

/// Draws the corners of `groups` (colour code, mesh), in order, into
/// `index`: a corner already in `index_table` by its index, a new one under
/// the next index, which it keeps. `floats` is the length of the vertex
/// data the corners point into. The range of `index` that was added is
/// returned; none when nothing was added or a mesh was broken (corners
/// without normals, or outside the vertex data), in which case the work
/// stops there and what was added before stays.
pub fn expand(
    index_table: &mut HashMap<u128, u32>,
    index: &mut Vec<u32>,
    floats: usize,
    groups: &Vec<(u32, MeshBuffer)>,
) -> (res: Option<(u32, u32)>)
    requires
        old(index)@.len() + total_corners(groups@) <= u32::MAX,
        old(index_table)@.len() + total_corners(groups@) <= u32::MAX,
    ensures
        ({
            let (t, i, ok) = expanded_groups(old(index_table)@, old(index)@, groups@, floats as nat);
            &&& final(index_table)@ == t
            &&& final(index)@ == i
            &&& res == added_range(old(index)@.len(), i, ok)
        }),
{
    broadcast use vstd::std_specs::hash::group_hash_axioms;

    let ghost table0 = index_table@;
    let ghost index0 = index@;
    let start: usize = index.len();
    let mut g: usize = 0;
    let mut ok = true;
    assert(groups@.subrange(0, 0) =~= Seq::<(u32, MeshBuffer)>::empty());
    while g < groups.len() && ok
        invariant
            g <= groups@.len(),
            start == index0.len(),
            index0.len() + total_corners(groups@) <= u32::MAX,
            table0.len() + total_corners(groups@) <= u32::MAX,
            (index_table@, index@, ok) == expanded_groups(table0, index0, groups@.subrange(0, g as int), floats as nat),
            index_table@.len() <= table0.len() + total_corners(groups@.subrange(0, g as int)),
            index@.len() <= index0.len() + total_corners(groups@.subrange(0, g as int)),
        decreases groups@.len() - g,
    {
        let ghost prefix = groups@.subrange(0, g + 1);
        assert(prefix.drop_last() =~= groups@.subrange(0, g as int));
        assert(prefix.last() == groups@[g as int]);
        proof {
            lemma_total_prefix(groups@, g + 1);
        }
        let code = groups[g].0;
        let mesh = &groups[g].1;
        if mesh.vertex_indices.len() != mesh.normal_indices.len() {
            ok = false;
        } else {
            let ghost t_start = index_table@;
            let ghost i_start = index@;
            let mut j: usize = 0;
            let mut fits = true;
            assert(mesh.vertex_indices@.subrange(0, 0) =~= Seq::<u32>::empty());
            assert(mesh.normal_indices@.subrange(0, 0) =~= Seq::<u32>::empty());
            while j < mesh.vertex_indices.len() && fits
                invariant
                    j <= mesh.vertex_indices@.len(),
                    mesh.vertex_indices@.len() == mesh.normal_indices@.len(),
                    (index_table@, index@, fits) == expanded_corners(
                        t_start,
                        i_start,
                        code,
                        mesh.vertex_indices@.subrange(0, j as int),
                        mesh.normal_indices@.subrange(0, j as int),
                        floats as nat,
                    ),
                    index_table@.len() <= t_start.len() + j,
                    index@.len() <= i_start.len() + j,
                    t_start.len() + mesh.vertex_indices@.len() <= u32::MAX,
                decreases mesh.vertex_indices@.len() - j,
            {
                let v = mesh.vertex_indices[j];
                let n = mesh.normal_indices[j];
                let ghost vs = mesh.vertex_indices@.subrange(0, j + 1);
                let ghost ns = mesh.normal_indices@.subrange(0, j + 1);
                assert(vs.drop_last() =~= mesh.vertex_indices@.subrange(0, j as int));
                assert(ns.subrange(0, j as int) =~= mesh.normal_indices@.subrange(0, j as int));
                assert(vs[j as int] == v && ns[j as int] == n);
                if (v as u64) * 3 + 3 > (floats as u64) || (n as u64) * 3 + 3 > (floats as u64) {
                    fits = false;
                } else {
                    let key = make_key(v, n, code);
                    match index_table.get(&key) {
                        Some(k) => {
                            index.push(*k);
                        },
                        None => {
                            let next = index_table.len() as u32;
                            index_table.insert(key, next);
                            index.push(next);
                        },
                    }
                }
                j = j + 1;
            }
            proof {
                if fits {
                    assert(mesh.vertex_indices@.subrange(0, j as int) =~= mesh.vertex_indices@);
                    assert(mesh.normal_indices@.subrange(0, j as int) =~= mesh.normal_indices@);
                } else {
                    lemma_corners_stop(t_start, i_start, code, mesh.vertex_indices@, mesh.normal_indices@, j as int, floats as nat);
                }
            }
            ok = fits;
        }
        g = g + 1;
    }
    proof {
        if ok {
            assert(groups@.subrange(0, g as int) =~= groups@);
        } else {
            lemma_groups_stop(table0, index0, groups@, g as int, floats as nat);
        }
        lemma_total_prefix(groups@, g as int);
    }
    let end: usize = index.len();
    if ok && end > start {
        Some((start as u32, end as u32))
    } else {
        None
    }
}

/// The ranges of a baked part's index list: the meshes without a colour of
/// their own, and the coloured ones by opacity and culling.
#[derive(Copy, Clone, Debug, PartialEq, Eq, Structural)]
pub enum MeshRange {
    Uncolored,
    UncoloredWithoutBfc,
    ColoredOpaque,
    ColoredOpaqueWithoutBfc,
    ColoredTranslucent,
    ColoredTranslucentWithoutBfc,
}

/// The range that the coloured mesh of `key` is drawn in: none unless its
/// colour is a colour of the catalog.
pub open spec fn colored_range(color: SpecColorReference, bfc: bool) -> Option<MeshRange> {
    match color {
        SpecColorReference::Color(_) => Some(
            if key_translucent(color) {
                if bfc {
                    MeshRange::ColoredTranslucent
                } else {
                    MeshRange::ColoredTranslucentWithoutBfc
                }
            } else if bfc {
                MeshRange::ColoredOpaque
            } else {
                MeshRange::ColoredOpaqueWithoutBfc
            },
        ),
        _ => None,
    }
}

/// The range that the coloured mesh of `key` is drawn in, if any.
pub fn colored_range_of(key: &MeshGroupKey) -> (res: Option<MeshRange>)
    ensures
        res == colored_range(key.color_ref@, key.bfc),
{
    match &key.color_ref {
        ColorReference::Color(c) => {
            let translucent = c.is_translucent();
            Some(
                if translucent {
                    if key.bfc {
                        MeshRange::ColoredTranslucent
                    } else {
                        MeshRange::ColoredTranslucentWithoutBfc
                    }
                } else if key.bfc {
                    MeshRange::ColoredOpaque
                } else {
                    MeshRange::ColoredOpaqueWithoutBfc
                },
            )
        },
        _ => None,
    }
}

} // verus!

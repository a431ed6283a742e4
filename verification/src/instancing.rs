//! The instances a model draws: the walk from a model's objects (or one
//! group's) down the groups they place, giving each part it reaches its key,
//! its colour, and the placements it is drawn through (whose product is its
//! matrix).

use std::collections::HashMap;
use vstd::prelude::*;

use crate::color::{Color, ColorCatalog, ColorReference};
use crate::display_list::DisplayListOps;
use crate::elements::Placement;
use crate::model::{groups_bounded, uuid_xor, xor_id, Model, Object, ObjectInstance};
use crate::PartAlias;

verus! {

/// A part instance the walk reaches: its part, its key, its colour, and the
/// placements from the outermost object down to it.
pub struct Reached {
    pub part: PartAlias,
    pub key: u128,
    pub path: Seq<Placement>,
    pub color: Color,
}

/// The colour of something coloured `own` inside something coloured
/// `outer`: `outer` where `own` is the inherited colour.
pub open spec fn inherited(own: ColorReference, outer: ColorReference) -> ColorReference {
    if own is Current {
        outer
    } else {
        own
    }
}

/// The colour an instance is drawn in: its colour, or `fallback` where it
/// has none.
pub open spec fn drawn_color(c: ColorReference, fallback: Color) -> Color {
    match c {
        ColorReference::Color(m) => m,
        _ => fallback,
    }
}

/// The part instances reached from `objects`, in order: a part gives
/// itself, keyed by `parent` and its own id, drawn through `path` and its
/// placement; a group of `model` gives what its objects reach, keyed
/// through it, drawn through its placement and in its colour (groups
/// followed at most `fuel` deep).
pub open spec fn reached(
    model: Model,
    fallback: Color,
    parent: u128,
    objects: Seq<Object>,
    path: Seq<Placement>,
    color: ColorReference,
    fuel: nat,
) -> Seq<Reached>
    decreases fuel, objects.len(),
{
    if objects.len() == 0 {
        seq![]
    } else {
        let before = reached(model, fallback, parent, objects.drop_last(), path, color, fuel);
        let o = objects.last();
        before + match o.data {
            ObjectInstance::Part(p) => seq![
                Reached {
                    part: p.part,
                    key: xor_id(parent, o.id) as u128,
                    path: path.push(p.matrix),
                    color: drawn_color(inherited(p.color, color), fallback),
                },
            ],
            ObjectInstance::PartGroup(g) => if model.object_groups@.contains_key(g.group_id) && fuel > 0 {
                reached(
                    model,
                    fallback,
                    xor_id(parent, o.id) as u128,
                    model.object_groups@[g.group_id].objects@,
                    path.push(g.matrix),
                    inherited(g.color, color),
                    (fuel - 1) as nat,
                )
            } else {
                seq![]
            },
            _ => seq![],
        }
    }
}

/// The placements a path of references names.
pub open spec fn placements<'a>(path: Seq<&'a Placement>) -> Seq<Placement> {
    path.map_values(|q: &Placement| *q)
}

/// Whether `op` inserts the instance `r`: its part as the group, its key,
/// its path as the matrix, its colour, and no alpha of its own.
pub open spec fn inserts<'a>(op: DisplayListOps<Vec<&'a Placement>>, r: Reached) -> bool {
    op matches DisplayListOps::Insert { group, key, matrix, color, alpha } && group == r.part && key == r.key
        && placements(matrix@) == r.path && color == r.color && alpha is None
}

/// Whether `ops` insert the instances `rs`, in order.
pub open spec fn inserts_all<'a>(ops: Seq<DisplayListOps<Vec<&'a Placement>>>, rs: Seq<Reached>) -> bool {
    ops.len() == rs.len() && forall|j: int| 0 <= j < ops.len() ==> inserts(#[trigger] ops[j], rs[j])
}

/// `path` with `p` after it.
fn extended<'a>(path: &Vec<&'a Placement>, p: &'a Placement) -> (res: Vec<&'a Placement>)
    ensures
        res@ == path@.push(p),
        placements(res@) == placements(path@).push(*p),
{
    let mut res: Vec<&'a Placement> = Vec::new();
    let mut i: usize = 0;
    while i < path.len()
        invariant
            i <= path@.len(),
            res@ == path@.subrange(0, i as int),
        decreases path@.len() - i,
    {
        res.push(path[i]);
        i = i + 1;
        assert(res@ =~= path@.subrange(0, i as int));
    }
    res.push(p);
    assert(res@ =~= path@.push(p));
    assert(placements(res@) =~= placements(path@).push(*p));
    res
}

/// Appends to `ops` the insertions of the part instances reached from
/// `objects` (placed through `parent_id`, drawn through `path`, inside
/// something coloured `color`).
#[verifier::spinoff_prover]
#[verifier::rlimit(40)]
fn expand_object_group<'a>(
    ops: &mut Vec<DisplayListOps<Vec<&'a Placement>>>,
    colors: &ColorCatalog,
    parent_id: u128,
    model: &'a Model,
    objects: &'a Vec<Object>,
    path: &Vec<&'a Placement>,
    color: &ColorReference,
    Ghost(fuel): Ghost<nat>,
)
    requires
        colors@.contains_key(0),
        groups_bounded(*model, objects@, fuel),
    ensures
        final(ops)@.subrange(0, old(ops)@.len() as int) == old(ops)@,
        final(ops)@.len() >= old(ops)@.len(),
        inserts_all(
            final(ops)@.subrange(old(ops)@.len() as int, final(ops)@.len() as int),
            reached(*model, colors@[0], parent_id, objects@, placements(path@), *color, fuel),
        ),
    decreases fuel,
{
    broadcast use vstd::std_specs::hash::group_hash_axioms;

    let ghost start = ops@;
    let ghost n0 = ops@.len();
    let ghost p0 = placements(path@);
    let ghost fallback = colors@[0];
    let mut i: usize = 0;
    assert(objects@.subrange(0, 0) =~= Seq::<Object>::empty());
    assert(ops@.subrange(n0 as int, ops@.len() as int) =~= Seq::<DisplayListOps<Vec<&'a Placement>>>::empty());
    while i < objects.len()
        invariant
            i <= objects@.len(),
            colors@.contains_key(0),
            fallback == colors@[0],
            p0 == placements(path@),
            groups_bounded(*model, objects@, fuel),
            ops@.len() >= n0,
            ops@.subrange(0, n0 as int) == start,
            inserts_all(
                ops@.subrange(n0 as int, ops@.len() as int),
                reached(*model, fallback, parent_id, objects@.subrange(0, i as int), p0, *color, fuel),
            ),
        decreases objects@.len() - i,
    {
        let ghost before = ops@;
        let ghost prefix = reached(*model, fallback, parent_id, objects@.subrange(0, i as int), p0, *color, fuel);
        let ghost o = objects@[i as int];
        assert(objects@.subrange(0, i + 1).drop_last() =~= objects@.subrange(0, i as int));
        assert(objects@.subrange(0, i + 1).last() == o);
        let object = &objects[i];
        match &object.data {
            ObjectInstance::Part(p) => {
                let local = extended(path, &p.matrix);
                let color_ref = if p.color.is_current() {
                    color
                } else {
                    &p.color
                };
                let c = match color_ref {
                    ColorReference::Color(c) => c.clone(),
                    _ => colors.get(&0).unwrap().clone(),
                };
                let key = uuid_xor(parent_id, object.id);
                let part = p.part.clone();
                ops.push(DisplayListOps::Insert { group: part, key, matrix: local, color: c, alpha: None });
                proof {
                    let r = Reached {
                        part: p.part,
                        key: xor_id(parent_id, o.id) as u128,
                        path: p0.push(p.matrix),
                        color: drawn_color(inherited(p.color, *color), fallback),
                    };
                    assert(reached(*model, fallback, parent_id, objects@.subrange(0, i + 1), p0, *color, fuel) == prefix
                        + seq![r]);
                    assert(inserts(ops@[ops@.len() - 1], r));
                    let added = ops@.subrange(n0 as int, ops@.len() as int);
                    assert(added =~= before.subrange(n0 as int, before.len() as int).push(ops@[ops@.len() - 1]));
                    assert forall|j: int| 0 <= j < added.len() implies inserts(#[trigger] added[j], (prefix + seq![r])[j]) by {
                        if j < prefix.len() {
                            assert(added[j] == before.subrange(n0 as int, before.len() as int)[j]);
                        }
                    }
                    assert(ops@.subrange(0, n0 as int) =~= start);
                }
            },
            ObjectInstance::PartGroup(g) => {
                match model.object_groups.get(&g.group_id) {
                    Some(group) => {
                        assert(match objects@[i as int].data {
                            ObjectInstance::PartGroup(g) => model.object_groups@.contains_key(g.group_id) ==> fuel > 0
                                && groups_bounded(*model, model.object_groups@[g.group_id].objects@, (fuel - 1) as nat),
                            _ => true,
                        });
                        let local = extended(path, &g.matrix);
                        let c = if g.color.is_current() {
                            color
                        } else {
                            &g.color
                        }.clone();
                        let key = uuid_xor(parent_id, object.id);
                        expand_object_group(ops, colors, key, model, &group.objects, &local, &c, Ghost((fuel - 1) as nat));
                        proof {
                            let inner = reached(
                                *model,
                                fallback,
                                xor_id(parent_id, o.id) as u128,
                                model.object_groups@[g.group_id].objects@,
                                p0.push(g.matrix),
                                inherited(g.color, *color),
                                (fuel - 1) as nat,
                            );
                            assert(reached(*model, fallback, parent_id, objects@.subrange(0, i + 1), p0, *color, fuel) == prefix
                                + inner);
                            let added = ops@.subrange(n0 as int, ops@.len() as int);
                            let mid = before.len();
                            assert(ops@.subrange(0, mid as int) == before);
                            assert forall|j: int| 0 <= j < added.len() implies inserts(#[trigger] added[j], (prefix + inner)[j]) by {
                                if j < prefix.len() {
                                    assert(added[j] == before[n0 + j]);
                                    assert(before.subrange(n0 as int, before.len() as int)[j] == before[n0 + j]);
                                } else {
                                    assert(added[j] == ops@.subrange(mid as int, ops@.len() as int)[j - prefix.len()]);
                                }
                            }
                            assert(ops@.subrange(0, n0 as int) =~= start) by {
                                assert(before.subrange(0, n0 as int) == start);
                            }
                        }
                    },
                    None => {
                        proof {
                            assert(reached(*model, fallback, parent_id, objects@.subrange(0, i + 1), p0, *color, fuel) =~= prefix);
                        }
                    },
                }
            },
            _ => {
                proof {
                    assert(reached(*model, fallback, parent_id, objects@.subrange(0, i + 1), p0, *color, fuel) =~= prefix);
                }
            },
        }
        i = i + 1;
    }
    assert(objects@.subrange(0, i as int) =~= objects@);
}

/// The objects a walk of `model` starts from: the group `group_id` when it
/// is given (none when the model has no such group), else the model's own.
pub open spec fn walked_objects(model: Model, group_id: Option<u128>) -> Seq<Object> {
    match group_id {
        Some(g) => if model.object_groups@.contains_key(g) {
            model.object_groups@[g].objects@
        } else {
            seq![]
        },
        None => model.objects@,
    }
}

/// The insertions that draw `model` (or its group `group_id`): one for
/// each part instance its objects reach, keyed through the nil identifier,
/// in the catalog's colour 0 where nothing else colours it. Applying them
/// with each path multiplied out into a matrix builds the display list of
/// the model.
pub fn model_insertions<'a>(model: &'a Model, group_id: Option<u128>, colors: &ColorCatalog) -> (res: Vec<
    DisplayListOps<Vec<&'a Placement>>,
>)
    requires
        colors@.contains_key(0),
        groups_bounded(*model, walked_objects(*model, group_id), model.object_groups@.len()),
    ensures
        inserts_all(
            res@,
            reached(
                *model,
                colors@[0],
                0,
                walked_objects(*model, group_id),
                seq![],
                ColorReference::Color(colors@[0]),
                model.object_groups@.len(),
            ),
        ),
{
    broadcast use vstd::std_specs::hash::group_hash_axioms;

    let mut ops: Vec<DisplayListOps<Vec<&'a Placement>>> = Vec::new();
    let top = ColorReference::Color(colors.get(&0).unwrap().clone());
    let path: Vec<&'a Placement> = Vec::new();
    assert(placements(path@) =~= Seq::<Placement>::empty());
    let objects = match group_id {
        Some(g) => match model.object_groups.get(&g) {
            Some(group) => Some(&group.objects),
            None => None,
        },
        None => Some(&model.objects),
    };
    match objects {
        Some(objects) => {
            expand_object_group(&mut ops, colors, 0, model, objects, &path, &top, Ghost(model.object_groups@.len()));
            assert(ops@.subrange(0, ops@.len() as int) =~= ops@);
        },
        None => {
            assert(walked_objects(*model, group_id) =~= Seq::<Object>::empty());
        },
    }
    ops
}

/// A part instance the selection walk reaches: its part, the identifier a
/// selection of it reports, and the placements it is drawn through.
pub struct Selected {
    pub part: PartAlias,
    pub id: u128,
    pub path: Seq<Placement>,
}

/// The part instances reached from `objects` for selection, in order: a
/// part reports its own identifier at the top (`depth` 0), inside a group
/// the group object's (`use_parent`) or the two XORed; a group of `model`
/// gives what its objects reach one level deeper (groups followed at most
/// `fuel` deep).
pub open spec fn selected(
    model: Model,
    parent: u128,
    objects: Seq<Object>,
    path: Seq<Placement>,
    depth: nat,
    use_parent: bool,
    fuel: nat,
) -> Seq<Selected>
    decreases fuel, objects.len(),
{
    if objects.len() == 0 {
        seq![]
    } else {
        let before = selected(model, parent, objects.drop_last(), path, depth, use_parent, fuel);
        let o = objects.last();
        before + match o.data {
            ObjectInstance::Part(p) => seq![
                Selected {
                    part: p.part,
                    id: if depth == 0 {
                        o.id
                    } else if use_parent {
                        parent
                    } else {
                        xor_id(parent, o.id) as u128
                    },
                    path: path.push(p.matrix),
                },
            ],
            ObjectInstance::PartGroup(g) => if model.object_groups@.contains_key(g.group_id) && fuel > 0 {
                selected(
                    model,
                    o.id,
                    model.object_groups@[g.group_id].objects@,
                    path.push(g.matrix),
                    depth + 1,
                    use_parent,
                    (fuel - 1) as nat,
                )
            } else {
                seq![]
            },
            _ => seq![],
        }
    }
}

/// Where the part named `n` stands among the groups of `data` (its last
/// occurrence).
pub open spec fn part_pos<T>(data: Seq<(PartAlias, T)>, n: Seq<char>) -> Option<int>
    decreases data.len(),
{
    if data.len() == 0 {
        None
    } else if data.last().0@.normalized == n {
        Some(data.len() - 1)
    } else {
        part_pos(data.drop_last(), n)
    }
}

/// An instance drawn for selection: its path, and its instance id.
pub open spec fn drawn<'a>(e: (Vec<&'a Placement>, u32)) -> (Seq<Placement>, u32) {
    (placements(e.0@), e.1)
}

/// The instances of each part: each group's part and drawn instances.
pub open spec fn groups_view<'a>(data: Seq<(PartAlias, Vec<(Vec<&'a Placement>, u32)>)>) -> Seq<(PartAlias, Seq<(Seq<Placement>, u32)>)> {
    data.map_values(|e: (PartAlias, Vec<(Vec<&'a Placement>, u32)>)| (e.0, e.1@.map_values(|x: (Vec<&'a Placement>, u32)| drawn(x))))
}

/// `data` with the instance `x` added under the part `part`: to its group
/// where the part has one, else in a new group at the end.
pub open spec fn filed(data: Seq<(PartAlias, Seq<(Seq<Placement>, u32)>)>, part: PartAlias, x: (Seq<Placement>, u32)) -> Seq<
    (PartAlias, Seq<(Seq<Placement>, u32)>),
> {
    match part_pos(data, part@.normalized) {
        Some(j) => data.update(j, (data[j].0, data[j].1.push(x))),
        None => data.push((part, seq![x])),
    }
}

/// `data` with the instances `s` filed under their parts, their instance
/// ids counting up from `base`.
pub open spec fn filed_all(data: Seq<(PartAlias, Seq<(Seq<Placement>, u32)>)>, s: Seq<Selected>, base: int) -> Seq<
    (PartAlias, Seq<(Seq<Placement>, u32)>),
>
    decreases s.len(),
{
    if s.len() == 0 {
        data
    } else {
        filed(filed_all(data, s.drop_last(), base), s.last().part, (s.last().path, (base + s.len() - 1) as u32))
    }
}

/// `lookup` with the instance ids counting up from `base` mapped to the
/// identifiers of `s`.
pub open spec fn looked_up(lookup: Map<u32, u128>, s: Seq<Selected>, base: int) -> Map<u32, u128>
    decreases s.len(),
{
    if s.len() == 0 {
        lookup
    } else {
        looked_up(lookup, s.drop_last(), base).insert((base + s.len() - 1) as u32, s.last().id)
    }
}

/// Where the group of the part named like `part` stands in `data`.
fn find_part<'a>(data: &Vec<(PartAlias, Vec<(Vec<&'a Placement>, u32)>)>, part: &PartAlias) -> (res: Option<usize>)
    ensures
        match res {
            Some(j) => part_pos(groups_view(data@), part@.normalized) == Some(j as int) && j < data@.len(),
            None => part_pos(groups_view(data@), part@.normalized) is None,
        },
{
    let ghost g = groups_view(data@);
    let mut i = data.len();
    assert(g.subrange(0, i as int) =~= g);
    while i > 0
        invariant
            i <= data@.len(),
            g == groups_view(data@),
            g.len() == data@.len(),
            part_pos(g, part@.normalized) == part_pos(g.subrange(0, i as int), part@.normalized),
        decreases i,
    {
        assert(g.subrange(0, i as int).drop_last() =~= g.subrange(0, i - 1));
        assert(g[i - 1].0 == data@[i - 1].0);
        if data[i - 1].0 == *part {
            return Some(i - 1);
        }
        i = i - 1;
    }
    None
}

/// Files the instance `(path, id)` under `part`.
fn file<'a>(
    data: &mut Vec<(PartAlias, Vec<(Vec<&'a Placement>, u32)>)>,
    part: &PartAlias,
    path: Vec<&'a Placement>,
    id: u32,
)
    ensures
        groups_view(final(data)@) == filed(groups_view(old(data)@), *part, (placements(path@), id)),
{
    let ghost before = groups_view(data@);
    match find_part(data, part) {
        Some(j) => {
            let entry = &mut data[j];
            entry.1.push((path, id));
            assert(groups_view(data@) =~= filed(before, *part, (placements(path@), id))) by {
                assert(groups_view(data@)[j as int].1 =~= before[j as int].1.push((placements(path@), id)));
            }
        },
        None => {
            let mut instances: Vec<(Vec<&'a Placement>, u32)> = Vec::new();
            instances.push((path, id));
            data.push((part.clone(), instances));
            assert(groups_view(data@) =~= filed(before, *part, (placements(path@), id))) by {
                assert(groups_view(data@).last().1 =~= seq![(placements(path@), id)]);
            }
        },
    }
}

proof fn lemma_selected_prefix(
    model: Model,
    parent: u128,
    objects: Seq<Object>,
    path: Seq<Placement>,
    depth: nat,
    use_parent: bool,
    fuel: nat,
    j: int,
)
    requires
        0 <= j <= objects.len(),
    ensures
        selected(model, parent, objects.subrange(0, j), path, depth, use_parent, fuel).len() <= selected(
            model,
            parent,
            objects,
            path,
            depth,
            use_parent,
            fuel,
        ).len(),
    decreases objects.len(),
{
    if j == objects.len() {
        assert(objects.subrange(0, j) =~= objects);
    } else {
        lemma_selected_prefix(model, parent, objects.drop_last(), path, depth, use_parent, fuel, j);
        assert(objects.drop_last().subrange(0, j) =~= objects.subrange(0, j));
    }
}

proof fn lemma_filed_all_append(
    d: Seq<(PartAlias, Seq<(Seq<Placement>, u32)>)>,
    a: Seq<Selected>,
    b: Seq<Selected>,
    base: int,
)
    ensures
        filed_all(filed_all(d, a, base), b, base + a.len()) == filed_all(d, a + b, base),
    decreases b.len(),
{
    if b.len() == 0 {
        assert(a + b =~= a);
    } else {
        lemma_filed_all_append(d, a, b.drop_last(), base);
        assert((a + b).drop_last() =~= a + b.drop_last());
        assert((a + b).last() == b.last());
    }
}

proof fn lemma_looked_up_append(l: Map<u32, u128>, a: Seq<Selected>, b: Seq<Selected>, base: int)
    ensures
        looked_up(looked_up(l, a, base), b, base + a.len()) == looked_up(l, a + b, base),
    decreases b.len(),
{
    if b.len() == 0 {
        assert(a + b =~= a);
    } else {
        lemma_looked_up_append(l, a, b.drop_last(), base);
        assert((a + b).drop_last() =~= a + b.drop_last());
        assert((a + b).last() == b.last());
    }
}

/// Files under their parts the instances reached from `objects` for
/// selection (placed through `parent_id`, drawn through `path`, `depth`
/// groups deep), numbering them from `cur_instance_id` on and noting in
/// `lookup_table` the identifier each reports.
#[verifier::spinoff_prover]
#[verifier::rlimit(40)]
fn expand_selection<'a>(
    data: &mut Vec<(PartAlias, Vec<(Vec<&'a Placement>, u32)>)>,
    lookup_table: &mut HashMap<u32, u128>,
    cur_instance_id: &mut u32,
    use_parent_object_id: bool,
    parent_id: u128,
    model: &'a Model,
    objects: &'a Vec<Object>,
    path: &Vec<&'a Placement>,
    depth: u32,
    Ghost(fuel): Ghost<nat>,
)
    requires
        groups_bounded(*model, objects@, fuel),
        depth + fuel < u32::MAX,
        *old(cur_instance_id) + selected(
            *model,
            parent_id,
            objects@,
            placements(path@),
            depth as nat,
            use_parent_object_id,
            fuel,
        ).len() <= u32::MAX,
    ensures
        ({
            let s = selected(*model, parent_id, objects@, placements(path@), depth as nat, use_parent_object_id, fuel);
            &&& *final(cur_instance_id) == *old(cur_instance_id) + s.len()
            &&& groups_view(final(data)@) == filed_all(groups_view(old(data)@), s, *old(cur_instance_id) as int)
            &&& final(lookup_table)@ == looked_up(old(lookup_table)@, s, *old(cur_instance_id) as int)
        }),
    decreases fuel,
{
    broadcast use vstd::std_specs::hash::group_hash_axioms;

    let ghost base = *cur_instance_id as int;
    let ghost d0 = groups_view(data@);
    let ghost l0 = lookup_table@;
    let ghost p0 = placements(path@);
    let ghost total = selected(*model, parent_id, objects@, p0, depth as nat, use_parent_object_id, fuel);
    let mut i: usize = 0;
    assert(objects@.subrange(0, 0) =~= Seq::<Object>::empty());
    while i < objects.len()
        invariant
            i <= objects@.len(),
            p0 == placements(path@),
            total == selected(*model, parent_id, objects@, p0, depth as nat, use_parent_object_id, fuel),
            groups_bounded(*model, objects@, fuel),
            depth + fuel < u32::MAX,
            base + total.len() <= u32::MAX,
            ({
                let sp = selected(*model, parent_id, objects@.subrange(0, i as int), p0, depth as nat, use_parent_object_id, fuel);
                &&& *cur_instance_id == base + sp.len()
                &&& groups_view(data@) == filed_all(d0, sp, base)
                &&& lookup_table@ == looked_up(l0, sp, base)
            }),
        decreases objects@.len() - i,
    {
        let ghost sp = selected(*model, parent_id, objects@.subrange(0, i as int), p0, depth as nat, use_parent_object_id, fuel);
        let ghost next = selected(*model, parent_id, objects@.subrange(0, i + 1), p0, depth as nat, use_parent_object_id, fuel);
        let ghost o = objects@[i as int];
        assert(objects@.subrange(0, i + 1).drop_last() =~= objects@.subrange(0, i as int));
        assert(objects@.subrange(0, i + 1).last() == o);
        proof {
            lemma_selected_prefix(*model, parent_id, objects@, p0, depth as nat, use_parent_object_id, fuel, i + 1);
        }
        let object = &objects[i];
        match &object.data {
            ObjectInstance::Part(p) => {
                let id = if depth == 0 {
                    object.id
                } else if use_parent_object_id {
                    parent_id
                } else {
                    uuid_xor(parent_id, object.id)
                };
                let ghost x = Selected { part: p.part, id, path: p0.push(p.matrix) };
                assert(next == sp + seq![x]);
                assert(next.drop_last() =~= sp);
                lookup_table.insert(*cur_instance_id, id);
                let local = extended(path, &p.matrix);
                file(data, &p.part, local, *cur_instance_id);
                *cur_instance_id = *cur_instance_id + 1;
                proof {
                    assert(lookup_table@ =~= looked_up(l0, next, base));
                }
            },
            ObjectInstance::PartGroup(g) => {
                match model.object_groups.get(&g.group_id) {
                    Some(group) => {
                        assert(match objects@[i as int].data {
                            ObjectInstance::PartGroup(g) => model.object_groups@.contains_key(g.group_id) ==> fuel > 0
                                && groups_bounded(*model, model.object_groups@[g.group_id].objects@, (fuel - 1) as nat),
                            _ => true,
                        });
                        let local = extended(path, &g.matrix);
                        let ghost inner = selected(
                            *model,
                            o.id,
                            model.object_groups@[g.group_id].objects@,
                            p0.push(g.matrix),
                            depth as nat + 1,
                            use_parent_object_id,
                            (fuel - 1) as nat,
                        );
                        assert(next == sp + inner);
                        expand_selection(
                            data,
                            lookup_table,
                            cur_instance_id,
                            use_parent_object_id,
                            object.id,
                            model,
                            &group.objects,
                            &local,
                            depth + 1,
                            Ghost((fuel - 1) as nat),
                        );
                        proof {
                            lemma_filed_all_append(d0, sp, inner, base);
                            lemma_looked_up_append(l0, sp, inner, base);
                        }
                    },
                    None => {
                        assert(next =~= sp);
                    },
                }
            },
            _ => {
                assert(next =~= sp);
            },
        }
        i = i + 1;
    }
    assert(objects@.subrange(0, i as int) =~= objects@);
}

/// How many part instances a walk of `objects` reaches (groups followed
/// at most `fuel` deep).
pub open spec fn reached_count(model: Model, objects: Seq<Object>, fuel: nat) -> nat
    decreases fuel, objects.len(),
{
    if objects.len() == 0 {
        0
    } else {
        reached_count(model, objects.drop_last(), fuel) + match objects.last().data {
            ObjectInstance::Part(_) => 1,
            ObjectInstance::PartGroup(g) => if model.object_groups@.contains_key(g.group_id) && fuel > 0 {
                reached_count(model, model.object_groups@[g.group_id].objects@, (fuel - 1) as nat)
            } else {
                0
            },
            _ => 0,
        }
    }
}

proof fn lemma_selected_len(
    model: Model,
    parent: u128,
    objects: Seq<Object>,
    path: Seq<Placement>,
    depth: nat,
    use_parent: bool,
    fuel: nat,
)
    ensures
        selected(model, parent, objects, path, depth, use_parent, fuel).len() == reached_count(model, objects, fuel),
    decreases fuel, objects.len(),
{
    if objects.len() > 0 {
        lemma_selected_len(model, parent, objects.drop_last(), path, depth, use_parent, fuel);
        let o = objects.last();
        match o.data {
            ObjectInstance::PartGroup(g) => {
                if model.object_groups@.contains_key(g.group_id) && fuel > 0 {
                    lemma_selected_len(
                        model,
                        o.id,
                        model.object_groups@[g.group_id].objects@,
                        path.push(g.matrix),
                        depth + 1,
                        use_parent,
                        (fuel - 1) as nat,
                    );
                }
            },
            _ => {},
        }
    }
}

impl Model {
    /// How many part instances a walk of `objects` reaches, when that fits
    /// in `limit` (groups followed at most `fuel` deep).
    pub fn count_reached(&self, objects: &Vec<Object>, fuel: usize, limit: u64) -> (res: Option<u64>)
        requires
            groups_bounded(*self, objects@, fuel as nat),
        ensures
            match res {
                Some(n) => n == reached_count(*self, objects@, fuel as nat) && n <= limit,
                None => reached_count(*self, objects@, fuel as nat) > limit,
            },
        decreases fuel,
    {
        broadcast use vstd::std_specs::hash::group_hash_axioms;

        let mut n: u64 = 0;
        let mut i: usize = 0;
        while i < objects.len()
            invariant
                i <= objects@.len(),
                groups_bounded(*self, objects@, fuel as nat),
                n == reached_count(*self, objects@.subrange(0, i as int), fuel as nat),
                n <= limit,
            decreases objects@.len() - i,
        {
            assert(objects@.subrange(0, i + 1).drop_last() =~= objects@.subrange(0, i as int));
            assert(objects@.subrange(0, i + 1).last() == objects@[i as int]);
            proof {
                lemma_count_prefix(*self, objects@, fuel as nat, i + 1);
            }
            let add: u64 = match &objects[i].data {
                ObjectInstance::Part(_) => 1,
                ObjectInstance::PartGroup(g) => {
                    match self.object_groups.get(&g.group_id) {
                        Some(group) => {
                            assert(match objects@[i as int].data {
                                ObjectInstance::PartGroup(g) => self.object_groups@.contains_key(g.group_id) ==> fuel > 0
                                    && groups_bounded(*self, self.object_groups@[g.group_id].objects@, (fuel - 1) as nat),
                                _ => true,
                            });
                            match self.count_reached(&group.objects, fuel - 1, limit - n) {
                                Some(m) => m,
                                None => {
                                    return None;
                                },
                            }
                        },
                        None => 0,
                    }
                },
                _ => 0,
            };
            if add > limit - n {
                return None;
            }
            n = n + add;
            i = i + 1;
        }
        assert(objects@.subrange(0, i as int) =~= objects@);
        Some(n)
    }
}

proof fn lemma_count_prefix(model: Model, objects: Seq<Object>, fuel: nat, j: int)
    requires
        0 <= j <= objects.len(),
    ensures
        reached_count(model, objects.subrange(0, j), fuel) <= reached_count(model, objects, fuel),
    decreases objects.len(),
{
    if j == objects.len() {
        assert(objects.subrange(0, j) =~= objects);
    } else {
        lemma_count_prefix(model, objects.drop_last(), fuel, j);
        assert(objects.drop_last().subrange(0, j) =~= objects.subrange(0, j));
    }
}

/// The instances that draw `model` (or its group `group_id`) for
/// selection: for each part, its instances with their paths and instance
/// ids (counting up from `instance_id_base` in the order of the walk), and
/// the identifier each instance id reports. With `flatten_group`, a part
/// inside a group reports the group object's identifier.
pub fn selection_instances<'a>(model: &'a Model, group_id: Option<u128>, instance_id_base: u32, flatten_group: bool) -> (res: (
    Vec<(PartAlias, Vec<(Vec<&'a Placement>, u32)>)>,
    HashMap<u32, u128>,
))
    requires
        groups_bounded(*model, walked_objects(*model, group_id), model.object_groups@.len()),
        model.object_groups@.len() < u32::MAX,
        instance_id_base + reached_count(*model, walked_objects(*model, group_id), model.object_groups@.len()) <= u32::MAX,
    ensures
        ({
            let s = selected(
                *model,
                0,
                walked_objects(*model, group_id),
                seq![],
                0,
                flatten_group,
                model.object_groups@.len(),
            );
            &&& groups_view(res.0@) == filed_all(seq![], s, instance_id_base as int)
            &&& res.1@ == looked_up(Map::empty(), s, instance_id_base as int)
        }),
{
    broadcast use vstd::std_specs::hash::group_hash_axioms;

    let mut data: Vec<(PartAlias, Vec<(Vec<&'a Placement>, u32)>)> = Vec::new();
    let mut lookup_table: HashMap<u32, u128> = HashMap::new();
    let mut instance_id = instance_id_base;
    let path: Vec<&'a Placement> = Vec::new();
    assert(placements(path@) =~= Seq::<Placement>::empty());
    assert(groups_view(data@) =~= Seq::<(PartAlias, Seq<(Seq<Placement>, u32)>)>::empty());
    let objects = match group_id {
        Some(g) => match model.object_groups.get(&g) {
            Some(group) => Some(&group.objects),
            None => None,
        },
        None => Some(&model.objects),
    };
    proof {
        lemma_selected_len(*model, 0, walked_objects(*model, group_id), seq![], 0, flatten_group, model.object_groups@.len());
    }
    match objects {
        Some(objects) => {
            expand_selection(
                &mut data,
                &mut lookup_table,
                &mut instance_id,
                flatten_group,
                0,
                model,
                objects,
                &path,
                0,
                Ghost(model.object_groups@.len()),
            );
        },
        None => {
            assert(walked_objects(*model, group_id) =~= Seq::<Object>::empty());
        },
    }
    (data, lookup_table)
}

/// The identifiers that the instance ids `ids` report, in order, skipping
/// ids that report none.
pub open spec fn matches_of(ids: Seq<u32>, lookup: Map<u32, u128>) -> Seq<u128>
    decreases ids.len(),
{
    if ids.len() == 0 {
        seq![]
    } else {
        let before = matches_of(ids.drop_last(), lookup);
        if lookup.contains_key(ids.last()) {
            before.push(lookup[ids.last()])
        } else {
            before
        }
    }
}

/// What a selection draws: for each part, its instances (in the renderer's
/// form `S`), and the identifier each instance id reports.
pub struct SelectionDisplayList<S> {
    map: Vec<(PartAlias, S)>,
    lookup_table: HashMap<u32, u128>,
}

impl<S> SelectionDisplayList<S> {
    /// The parts and their instances.
    pub closed spec fn groups(&self) -> Seq<(PartAlias, S)> {
        self.map@
    }

    /// The identifier each instance id reports.
    pub closed spec fn lookup(&self) -> Map<u32, u128> {
        self.lookup_table@
    }

    pub fn new(map: Vec<(PartAlias, S)>, lookup_table: HashMap<u32, u128>) -> (res: Self)
        ensures
            res.groups() == map@,
            res.lookup() == lookup_table@,
    {
        SelectionDisplayList { map, lookup_table }
    }

    /// Each part with its instances, in order.
    pub fn iter(&self) -> (res: Vec<(&PartAlias, &S)>)
        ensures
            res@.len() == self.groups().len(),
            forall|i: int|
                0 <= i < res@.len() ==> *(#[trigger] res@[i]).0 == self.groups()[i].0 && *res@[i].1 == self.groups()[i].1,
    {
        let mut res: Vec<(&PartAlias, &S)> = Vec::new();
        let mut i: usize = 0;
        while i < self.map.len()
            invariant
                i <= self.map@.len(),
                res@.len() == i,
                forall|j: int|
                    0 <= j < i ==> *(#[trigger] res@[j]).0 == self.map@[j].0 && *res@[j].1 == self.map@[j].1,
            decreases self.map@.len() - i,
        {
            let entry = &self.map[i];
            res.push((&entry.0, &entry.1));
            i = i + 1;
        }
        res
    }

    /// The identifiers that the instance ids `result` (read back from a
    /// selection) report, in order.
    pub fn get_matches(&self, result: Vec<u32>) -> (res: Vec<u128>)
        ensures
            res@ == matches_of(result@, self.lookup()),
    {
        broadcast use vstd::std_specs::hash::group_hash_axioms;

        let mut res: Vec<u128> = Vec::new();
        let mut i: usize = 0;
        while i < result.len()
            invariant
                i <= result@.len(),
                res@ == matches_of(result@.subrange(0, i as int), self.lookup_table@),
            decreases result@.len() - i,
        {
            assert(result@.subrange(0, i + 1).drop_last() =~= result@.subrange(0, i as int));
            match self.lookup_table.get(&result[i]) {
                Some(id) => {
                    res.push(*id);
                },
                None => {},
            }
            i = i + 1;
        }
        assert(result@.subrange(0, i as int) =~= result@);
        res
    }
}

} // verus!

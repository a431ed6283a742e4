//! The display list of the renderer: the instances of each part that are
//! drawn, grouped by part and by whether they are opaque or translucent, and
//! the group of each key.

use std::collections::HashMap;
use vstd::prelude::*;

use crate::color::{Color, Rgba};
use crate::display::GroupKind;
use crate::entity::{Entity, GpuUpdateResult};
use crate::instances::{
    commit_fits, committed, instances_mutated, key_pos, op_in_bounds, op_key, pending_or_empty, with_alpha, InstanceColors,
    InstanceData, InstanceOps,
    Instances, InstancesView, UploadPlan,
};
use crate::PartAlias;

verus! {

/// A group of instances: whether they are drawn opaque or translucent, and
/// the part they place.
#[derive(Debug)]
pub struct Group(pub GroupKind, pub PartAlias);

impl Clone for Group {
    fn clone(&self) -> (res: Self)
        ensures
            res == *self,
    {
        let kind = match self.0 {
            GroupKind::Opaque => GroupKind::Opaque,
            GroupKind::Translucent => GroupKind::Translucent,
        };
        Group(kind, self.1.clone())
    }
}

/// What tells groups apart: the kind, and the part's name in its canonical
/// form.
pub open spec fn group_key(g: Group) -> (bool, Seq<char>) {
    (g.0 is Translucent, g.1@.normalized)
}

/// Whether `a` and `b` are the same group.
fn same_group(a: &Group, b: &Group) -> (res: bool)
    ensures
        res == (group_key(*a) == group_key(*b)),
{
    a.0.is_translucent() == b.0.is_translucent() && a.1 == b.1
}

/// The group of the kind that `translucent` says.
pub open spec fn kind_of(translucent: bool) -> GroupKind {
    if translucent {
        GroupKind::Translucent
    } else {
        GroupKind::Opaque
    }
}

fn kind_for(translucent: bool) -> (res: GroupKind)
    ensures
        res == kind_of(translucent),
{
    if translucent {
        GroupKind::Translucent
    } else {
        GroupKind::Opaque
    }
}

/// An alpha value that replaces a colour's own: the bits of its `f32`, and
/// whether it is below one (the renderer's test for translucency).
#[derive(Clone, Copy, Debug)]
pub struct Alpha {
    pub bits: u32,
    pub below_one: bool,
}

/// Moving an instance to another group (asked for by the display list
/// itself, when a change makes an instance opaque or translucent).
pub struct DisplayListOpsReinstantiate<M> {
    pub group: Group,
    pub key: u128,
    pub matrix: M,
    pub colors: InstanceColors,
}

/// A change to the display list, by key.
pub enum DisplayListOps<M> {
    Insert { group: PartAlias, key: u128, matrix: M, color: Color, alpha: Option<Alpha> },
    Update { key: u128, matrix: M, color: Color },
    UpdateMatrix { key: u128, matrix: M },
    UpdateColor { key: u128, color: Color },
    UpdateAlpha { key: u128, alpha: Alpha },
    Remove { key: u128 },
    _Reinstantiate(DisplayListOpsReinstantiate<M>),
}

/// The instances of every group, and the group of every key.
pub struct DisplayList<M, B> {
    map: Vec<(Group, Entity<Instances<M, B>>)>,
    lookup_table: HashMap<u128, Group>,
}

/// One group as the contracts see it: the group, its instances and their
/// buffer, and whether they changed since they were last uploaded.
pub struct GroupView<M, B> {
    pub group: Group,
    pub instances: InstancesView<M>,
    pub buffer: Option<B>,
    pub modified: bool,
}

/// A display list as the contracts see it.
pub struct DisplayListView<M, B> {
    pub groups: Seq<GroupView<M, B>>,
    pub lookup: Map<u128, Group>,
}

/// The view of one entry of the list.
pub open spec fn group_view<M, B>(e: (Group, Entity<Instances<M, B>>)) -> GroupView<M, B> {
    GroupView { group: e.0, instances: e.1.inner()@, buffer: e.1.inner().buffer(), modified: e.1.modified() }
}

impl<M, B> View for DisplayList<M, B> {
    type V = DisplayListView<M, B>;

    closed spec fn view(&self) -> DisplayListView<M, B> {
        DisplayListView { groups: self.map@.map_values(|e: (Group, Entity<Instances<M, B>>)| group_view(e)), lookup: self.lookup_table@ }
    }
}

/// Where the group `g` stands among `s` (its last occurrence).
pub open spec fn group_pos<M, B>(s: Seq<GroupView<M, B>>, g: Group) -> Option<int>
    decreases s.len(),
{
    if s.len() == 0 {
        None
    } else if group_key(s.last().group) == group_key(g) {
        Some(s.len() - 1)
    } else {
        group_pos(s.drop_last(), g)
    }
}

/// A new group: no instances, no buffer, to be uploaded.
pub open spec fn fresh_group<M, B>(g: Group) -> GroupView<M, B> {
    GroupView {
        group: g,
        instances: InstancesView { group: g.1, index: Map::empty(), rows: seq![], pending: None },
        buffer: None,
        modified: true,
    }
}

/// `s` with the group `g`, added at the end when it is not there.
pub open spec fn with_group<M, B>(s: Seq<GroupView<M, B>>, g: Group) -> Seq<GroupView<M, B>> {
    if group_pos(s, g) is Some {
        s
    } else {
        s.push(fresh_group(g))
    }
}

/// Where `g` stands in `with_group(s, g)`.
pub open spec fn group_index<M, B>(s: Seq<GroupView<M, B>>, g: Group) -> int {
    match group_pos(s, g) {
        Some(i) => i,
        None => s.len() as int,
    }
}

/// `s` with `op` applied to the instances of the group at `i`, which is
/// then marked for upload.
pub open spec fn mutated_at<M, B>(s: Seq<GroupView<M, B>>, i: int, op: InstanceOps<M>) -> Seq<GroupView<M, B>> {
    s.update(i, GroupView { instances: instances_mutated(s[i].instances, op), modified: true, ..s[i] })
}

/// The colours of an instance coloured `color`.
pub open spec fn colors_of(color: Color, alpha: Option<u32>) -> InstanceColors {
    InstanceColors { color: color.color, edge: color.edge, alpha }
}

/// What applying an operation answers.
pub enum Answer<M> {
    Modified,
    NotModified,
    /// Nothing changed yet; the instance is to be moved by this operation.
    Again(DisplayListOpsReinstantiate<M>),
}

/// Whether `res` is the answer `a`.
pub open spec fn answered<M>(res: GpuUpdateResult<DisplayListOps<M>>, a: Answer<M>) -> bool {
    match a {
        Answer::Modified => res is Modified,
        Answer::NotModified => res is NotModified,
        Answer::Again(r) => res matches GpuUpdateResult::AdditionalMutations { modified, mutations } && !modified
            && mutations@ == seq![DisplayListOps::_Reinstantiate(r)],
    }
}

/// The group and row of `key`, when it has a group that is in the list.
pub open spec fn placed<M, B>(v: DisplayListView<M, B>, key: u128) -> bool {
    v.lookup.contains_key(key) && group_pos(v.groups, v.lookup[key]) is Some
}

/// Whether the row that the index of `key`'s group gives for it exists.
pub open spec fn key_in_bounds<M, B>(v: DisplayListView<M, B>, key: u128) -> bool {
    placed(v, key) ==> {
        let inst = v.groups[group_pos(v.groups, v.lookup[key])->0].instances;
        inst.index.contains_key(key) ==> inst.index[key] < inst.rows.len()
    }
}

/// Whether `op` can be applied to `v`: the row it reads or rewrites exists.
pub open spec fn list_op_fits<M, B>(v: DisplayListView<M, B>, op: DisplayListOps<M>) -> bool {
    match op {
        DisplayListOps::Update { key, color, .. } => (v.lookup.contains_key(key) && (v.lookup[key].0 is Translucent)
            == (color.color@.3 < 255)) ==> key_in_bounds(v, key),
        DisplayListOps::UpdateMatrix { key, .. } => key_in_bounds(v, key),
        DisplayListOps::UpdateColor { key, .. } => key_in_bounds(v, key),
        DisplayListOps::UpdateAlpha { key, .. } => key_in_bounds(v, key),
        _ => true,
    }
}

/// An update of the row of `key` that leaves its group alone: the instances
/// of its group take `op` (answered `Modified`), or nothing happens when the
/// key has no group in the list.
pub open spec fn updated_in_place<M, B>(v: DisplayListView<M, B>, key: u128, op: InstanceOps<M>) -> (
    DisplayListView<M, B>,
    Answer<M>,
) {
    if placed(v, key) {
        (
            DisplayListView { groups: mutated_at(v.groups, group_pos(v.groups, v.lookup[key])->0, op), ..v },
            Answer::Modified,
        )
    } else {
        (v, Answer::NotModified)
    }
}

/// A change of the row of `key` that may make it opaque or translucent (to
/// `translucent`): when its kind changes, the instance is to be moved, with
/// its matrix and the colours `colors` makes of its row's; else its group's
/// instances take `op`.
pub open spec fn recolored<M, B>(
    v: DisplayListView<M, B>,
    key: u128,
    translucent: bool,
    colors: spec_fn(InstanceColors) -> InstanceColors,
    op: InstanceOps<M>,
) -> (DisplayListView<M, B>, Answer<M>) {
    if placed(v, key) {
        let g = v.lookup[key];
        let i = group_pos(v.groups, g)->0;
        let inst = v.groups[i].instances;
        if (g.0 is Translucent) != translucent {
            if inst.index.contains_key(key) {
                let row = inst.rows[inst.index[key] as int];
                (
                    v,
                    Answer::Again(
                        DisplayListOpsReinstantiate {
                            group: Group(kind_of(translucent), g.1),
                            key,
                            matrix: row.model_matrix,
                            colors: colors(row.colors),
                        },
                    ),
                )
            } else {
                (v, Answer::NotModified)
            }
        } else {
            (DisplayListView { groups: mutated_at(v.groups, i, op), ..v }, Answer::Modified)
        }
    } else {
        (v, Answer::NotModified)
    }
}

/// What applying `op` makes of the display list, and what it answers.
pub open spec fn list_mutated<M, B>(v: DisplayListView<M, B>, op: DisplayListOps<M>) -> (
    DisplayListView<M, B>,
    Answer<M>,
) {
    match op {
        DisplayListOps::Insert { group, key, matrix, color, alpha } => {
            if v.lookup.contains_key(key) {
                (v, Answer::NotModified)
            } else {
                let translucent = color.color@.3 < 255 || (alpha is Some && alpha->0.below_one);
                let g = Group(kind_of(translucent), group);
                let colors = colors_of(
                    color,
                    match alpha {
                        Some(a) => Some(a.bits),
                        None => None,
                    },
                );
                (
                    DisplayListView {
                        groups: mutated_at(
                            with_group(v.groups, g),
                            group_index(v.groups, g),
                            InstanceOps::Insert { key, matrix, colors },
                        ),
                        lookup: v.lookup.insert(key, g),
                    },
                    Answer::Modified,
                )
            }
        },
        DisplayListOps::Update { key, matrix, color } => {
            if !v.lookup.contains_key(key) {
                (v, Answer::NotModified)
            } else {
                let g = v.lookup[key];
                let translucent = color.color@.3 < 255;
                if (g.0 is Translucent) != translucent {
                    (
                        v,
                        Answer::Again(
                            DisplayListOpsReinstantiate {
                                group: Group(kind_of(translucent), g.1),
                                key,
                                matrix,
                                colors: colors_of(color, None),
                            },
                        ),
                    )
                } else {
                    updated_in_place(v, key, InstanceOps::Update { key, matrix, colors: colors_of(color, None) })
                }
            }
        },
        DisplayListOps::UpdateMatrix { key, matrix } => updated_in_place(
            v,
            key,
            InstanceOps::UpdateMatrix { key, matrix },
        ),
        DisplayListOps::UpdateColor { key, color } => recolored(
            v,
            key,
            color.color@.3 < 255,
            |c: InstanceColors| colors_of(color, None),
            InstanceOps::UpdateColor { key, colors: colors_of(color, None) },
        ),
        DisplayListOps::UpdateAlpha { key, alpha } => recolored(
            v,
            key,
            alpha.below_one,
            |c: InstanceColors| with_alpha(c, alpha.bits),
            InstanceOps::UpdateAlpha { key, alpha: alpha.bits },
        ),
        DisplayListOps::Remove { key } => {
            if !v.lookup.contains_key(key) {
                (v, Answer::NotModified)
            } else {
                let g = v.lookup[key];
                let lookup = v.lookup.remove(key);
                match group_pos(v.groups, g) {
                    None => (DisplayListView { groups: v.groups, lookup }, Answer::NotModified),
                    Some(i) => {
                        let s = mutated_at(v.groups, i, InstanceOps::Remove(key));
                        let groups = if s[i].instances.rows.len() == 0 {
                            s.remove(i)
                        } else {
                            s
                        };
                        (DisplayListView { groups, lookup }, Answer::Modified)
                    },
                }
            }
        },
        DisplayListOps::_Reinstantiate(r) => {
            if !v.lookup.contains_key(r.key) {
                (v, Answer::NotModified)
            } else {
                let prev = v.lookup[r.key];
                let lookup = v.lookup.remove(r.key);
                match group_pos(v.groups, prev) {
                    None => (DisplayListView { groups: v.groups, lookup }, Answer::NotModified),
                    Some(i) => {
                        let s = mutated_at(v.groups, i, InstanceOps::Remove(r.key));
                        let groups = mutated_at(
                            with_group(s, r.group),
                            group_index(s, r.group),
                            InstanceOps::Insert { key: r.key, matrix: r.matrix, colors: r.colors },
                        );
                        (DisplayListView { groups, lookup: lookup.insert(r.key, r.group) }, Answer::Modified)
                    },
                }
            }
        },
    }
}

/// Whether the entity `e` holds what the group view `g` says.
pub open spec fn entity_is<M, B>(e: Entity<Instances<M, B>>, g: GroupView<M, B>) -> bool {
    e.inner()@ == g.instances && e.inner().buffer() == g.buffer && e.modified() == g.modified
}

/// The groups of one kind (translucent or not), in order.
pub open spec fn of_kind<M, B>(s: Seq<GroupView<M, B>>, translucent: bool) -> Seq<GroupView<M, B>> {
    s.filter(|g: GroupView<M, B>| (g.group.0 is Translucent) == translucent)
}

/// Whether the group `b` and `plan` are what uploading the group `a` gives:
/// when `a` was marked, its pending changes are applied and `plan` says
/// what to upload; else it is left as it was. Either way it is then up to
/// date.
pub open spec fn uploaded<M, B>(a: GroupView<M, B>, b: GroupView<M, B>, plan: Option<UploadPlan>) -> bool {
    &&& b.group == a.group
    &&& b.buffer == a.buffer
    &&& !b.modified
    &&& if a.modified {
        &&& plan is Some
        &&& b.instances.group == a.instances.group
        &&& b.instances.pending is None
        &&& a.instances.pending is None ==> b.instances == a.instances && plan->0 is Unchanged
        &&& a.instances.pending is Some ==> exists|rev: Map<usize, u128>|
            #[trigger] committed(a.instances, a.buffer is Some, rev, b.instances, plan->0)
    } else {
        plan is None && b.instances == a.instances
    }
}

impl<M: Copy, B> DisplayList<M, B> {
    /// An empty display list.
    pub fn new() -> (res: Self)
        ensures
            res@.groups == Seq::<GroupView<M, B>>::empty(),
            res@.lookup == Map::<u128, Group>::empty(),
    {
        let res = DisplayList { map: Vec::new(), lookup_table: HashMap::new() };
        assert(res@.groups =~= Seq::<GroupView<M, B>>::empty());
        res
    }

    /// Where the group `g` stands in the list.
    fn find_group(&self, g: &Group) -> (res: Option<usize>)
        ensures
            match res {
                Some(i) => group_pos(self@.groups, *g) == Some(i as int) && i < self@.groups.len(),
                None => group_pos(self@.groups, *g) is None,
            },
    {
        let ghost groups = self@.groups;
        let mut i = self.map.len();
        assert(groups.subrange(0, i as int) =~= groups);
        while i > 0
            invariant
                i <= self.map@.len(),
                groups == self@.groups,
                groups.len() == self.map@.len(),
                group_pos(groups, *g) == group_pos(groups.subrange(0, i as int), *g),
            decreases i,
        {
            assert(groups.subrange(0, i as int).drop_last() =~= groups.subrange(0, i - 1));
            assert(groups[i - 1].group == self.map@[i - 1].0);
            if same_group(&self.map[i - 1].0, g) {
                return Some(i - 1);
            }
            i = i - 1;
        }
        None
    }

    /// Where the group `g` stands, added with no instances when it is not
    /// there.
    fn get_or_create(&mut self, g: Group) -> (res: usize)
        ensures
            final(self)@.groups == with_group(old(self)@.groups, g),
            final(self)@.lookup == old(self)@.lookup,
            res == group_index(old(self)@.groups, g),
            res < final(self)@.groups.len(),
    {
        match self.find_group(&g) {
            Some(i) => i,
            None => {
                let instances = Instances::new(g.1.clone());
                let entity = Entity::new(instances);
                self.map.push((g, entity));
                let ghost old_groups = old(self)@.groups;
                assert(self@.groups =~= old_groups.push(fresh_group(g)));
                self.map.len() - 1
            },
        }
    }

    /// Applies `op` to the instances of the group at `i`.
    fn mutate_at(&mut self, i: usize, op: InstanceOps<M>)
        requires
            i < old(self)@.groups.len(),
            op_in_bounds(old(self)@.groups[i as int].instances, op),
        ensures
            final(self)@.groups == mutated_at(old(self)@.groups, i as int, op),
            final(self)@.lookup == old(self)@.lookup,
    {
        let ghost old_groups = old(self)@.groups;
        let entry = &mut self.map[i];
        entry.1.mutate_instances(op);
        assert(self@.groups =~= mutated_at(old_groups, i as int, op));
    }

    /// The colours of an instance coloured `color`.
    fn colors_for(color: &Color, alpha: Option<u32>) -> (res: InstanceColors)
        ensures
            res == colors_of(*color, alpha),
    {
        InstanceColors { color: color.color, edge: color.edge, alpha }
    }

    /// Answers that the instance `key` is to move to `group`, placed by
    /// `matrix` and coloured `colors`.
    fn move_to(group: Group, key: u128, matrix: M, colors: InstanceColors) -> (res: GpuUpdateResult<DisplayListOps<M>>)
        ensures
            answered(res, Answer::Again(DisplayListOpsReinstantiate { group, key, matrix, colors })),
    {
        let mut mutations = Vec::new();
        mutations.push(DisplayListOps::_Reinstantiate(DisplayListOpsReinstantiate { group, key, matrix, colors }));
        assert(mutations@ =~= seq![DisplayListOps::_Reinstantiate(DisplayListOpsReinstantiate { group, key, matrix, colors })]);
        GpuUpdateResult::AdditionalMutations { modified: false, mutations }
    }

    /// Applies `op`. A change that makes an instance opaque or translucent
    /// is not applied in place: the answer asks for the instance to be moved
    /// to the group of the other kind.
    pub fn mutate(&mut self, op: DisplayListOps<M>) -> (res: GpuUpdateResult<DisplayListOps<M>>)
        requires
            list_op_fits(old(self)@, op),
        ensures
            final(self)@ == list_mutated(old(self)@, op).0,
            answered(res, list_mutated(old(self)@, op).1),
    {
        broadcast use vstd::std_specs::hash::group_hash_axioms;

        let ghost v = self@;
        match op {
            DisplayListOps::Insert { group, key, matrix, color, alpha } => {
                if self.lookup_table.contains_key(&key) {
                    return GpuUpdateResult::NotModified;
                }
                let translucent = color.is_translucent() || match alpha {
                    Some(a) => a.below_one,
                    None => false,
                };
                let g = Group(kind_for(translucent), group);
                self.lookup_table.insert(key, g.clone());
                let bits = match alpha {
                    Some(a) => Some(a.bits),
                    None => None,
                };
                let colors = Self::colors_for(&color, bits);
                let i = self.get_or_create(g);
                self.mutate_at(i, InstanceOps::Insert { key, matrix, colors });
                GpuUpdateResult::Modified
            },
            DisplayListOps::Update { key, matrix, color } => {
                let g = match self.lookup_table.get(&key) {
                    Some(g) => g.clone(),
                    None => {
                        return GpuUpdateResult::NotModified;
                    },
                };
                let translucent = color.is_translucent();
                let colors = Self::colors_for(&color, None);
                if g.0.is_translucent() != translucent {
                    Self::move_to(Group(kind_for(translucent), g.1), key, matrix, colors)
                } else {
                    match self.find_group(&g) {
                        Some(i) => {
                            self.mutate_at(i, InstanceOps::Update { key, matrix, colors });
                            GpuUpdateResult::Modified
                        },
                        None => GpuUpdateResult::NotModified,
                    }
                }
            },
            DisplayListOps::UpdateMatrix { key, matrix } => {
                let g = match self.lookup_table.get(&key) {
                    Some(g) => g.clone(),
                    None => {
                        return GpuUpdateResult::NotModified;
                    },
                };
                match self.find_group(&g) {
                    Some(i) => {
                        self.mutate_at(i, InstanceOps::UpdateMatrix { key, matrix });
                        GpuUpdateResult::Modified
                    },
                    None => GpuUpdateResult::NotModified,
                }
            },
            DisplayListOps::UpdateColor { key, color } => {
                let colors = Self::colors_for(&color, None);
                let none: Option<u32> = None;
                assert((|c: InstanceColors|
                    match none {
                        Some(a) => with_alpha(c, a),
                        None => colors,
                    }) =~= (|c: InstanceColors| colors_of(color, None)));
                self.recolor(key, color.is_translucent(), colors, none, InstanceOps::UpdateColor { key, colors })
            },
            DisplayListOps::UpdateAlpha { key, alpha } => {
                let some = Some(alpha.bits);
                let unused = InstanceColors { color: Rgba::new(0, 0, 0, 0), edge: Rgba::new(0, 0, 0, 0), alpha: None };
                assert((|c: InstanceColors|
                    match some {
                        Some(a) => with_alpha(c, a),
                        None => unused,
                    }) =~= (|c: InstanceColors| with_alpha(c, alpha.bits)));
                self.recolor(key, alpha.below_one, unused, some, InstanceOps::UpdateAlpha { key, alpha: alpha.bits })
            },
            DisplayListOps::Remove { key } => {
                let g = match self.lookup_table.remove(&key) {
                    Some(g) => g,
                    None => {
                        assert(self.lookup_table@ =~= v.lookup);
                        return GpuUpdateResult::NotModified;
                    },
                };
                match self.find_group(&g) {
                    Some(i) => {
                        self.mutate_at(i, InstanceOps::Remove(key));
                        self.lookup_table.remove(&key);
                        assert(self.lookup_table@ =~= v.lookup.remove(key));
                        assert(self@.groups.len() == self.map@.len());
                        if self.map[i].1.get().count() == 0 {
                            let ghost before = self@.groups;
                            self.map.remove(i);
                            assert(self@.groups =~= before.remove(i as int));
                        }
                        GpuUpdateResult::Modified
                    },
                    None => GpuUpdateResult::NotModified,
                }
            },
            DisplayListOps::_Reinstantiate(r) => {
                let DisplayListOpsReinstantiate { group, key, matrix, colors } = r;
                let prev = match self.lookup_table.remove(&key) {
                    Some(g) => g,
                    None => {
                        assert(self.lookup_table@ =~= v.lookup);
                        return GpuUpdateResult::NotModified;
                    },
                };
                match self.find_group(&prev) {
                    Some(i) => {
                        self.mutate_at(i, InstanceOps::Remove(key));
                        let j = self.get_or_create(group.clone());
                        self.mutate_at(j, InstanceOps::Insert { key, matrix, colors });
                        self.lookup_table.insert(key, group);
                        GpuUpdateResult::Modified
                    },
                    None => GpuUpdateResult::NotModified,
                }
            },
        }
    }

    /// A change of the colours of `key` that may make it `translucent` or
    /// not: when the kind changes, answers that the instance is to move (its
    /// colours are `colors`, or, with `alpha`, its row's with that alpha);
    /// else applies `op` to its group.
    fn recolor(
        &mut self,
        key: u128,
        translucent: bool,
        colors: InstanceColors,
        alpha: Option<u32>,
        op: InstanceOps<M>,
    ) -> (res: GpuUpdateResult<DisplayListOps<M>>)
        requires
            key_in_bounds(old(self)@, key),
            !(op is Insert),
            !(op is Remove),
            op_key(op) == key,
        ensures
            ({
                let f = |c: InstanceColors|
                    match alpha {
                        Some(a) => with_alpha(c, a),
                        None => colors,
                    };
                &&& final(self)@ == recolored(old(self)@, key, translucent, f, op).0
                &&& answered(res, recolored(old(self)@, key, translucent, f, op).1)
            }),
    {
        broadcast use vstd::std_specs::hash::group_hash_axioms;

        let g = match self.lookup_table.get(&key) {
            Some(g) => g.clone(),
            None => {
                return GpuUpdateResult::NotModified;
            },
        };
        let i = match self.find_group(&g) {
            Some(i) => i,
            None => {
                return GpuUpdateResult::NotModified;
            },
        };
        if g.0.is_translucent() != translucent {
            match self.map[i].1.get().row_of(key) {
                Some(r) => {
                    let row = self.map[i].1.get().row(r);
                    let new_colors = match alpha {
                        Some(a) => InstanceColors { color: row.colors.color, edge: row.colors.edge, alpha: Some(a) },
                        None => colors,
                    };
                    Self::move_to(Group(kind_for(translucent), g.1), key, row.model_matrix, new_colors)
                },
                None => GpuUpdateResult::NotModified,
            }
        } else {
            self.mutate_at(i, op);
            GpuUpdateResult::Modified
        }
    }

    /// The instances of the group of `key`, when it has one in the list.
    pub fn get_by_key(&self, key: u128) -> (res: Option<&Entity<Instances<M, B>>>)
        ensures
            res is Some <==> placed(self@, key),
            res matches Some(e) ==> entity_is(*e, self@.groups[group_pos(self@.groups, self@.lookup[key])->0]),
    {
        broadcast use vstd::std_specs::hash::group_hash_axioms;

        match self.lookup_table.get(&key) {
            Some(g) => match self.find_group(g) {
                Some(i) => Some(&self.map[i].1),
                None => None,
            },
            None => None,
        }
    }

    /// Every group: its part, whether it is the translucent one, and its
    /// instances, in the order of the list.
    pub fn iter(&self) -> (res: Vec<(&PartAlias, bool, &Entity<Instances<M, B>>)>)
        ensures
            res@.len() == self@.groups.len(),
            forall|i: int|
                0 <= i < res@.len() ==> {
                    let g = self@.groups[i];
                    &&& *(#[trigger] res@[i]).0 == g.group.1
                    &&& res@[i].1 == (g.group.0 is Translucent)
                    &&& entity_is(*res@[i].2, g)
                },
    {
        let mut res: Vec<(&PartAlias, bool, &Entity<Instances<M, B>>)> = Vec::new();
        let mut i: usize = 0;
        while i < self.map.len()
            invariant
                i <= self.map@.len(),
                self@.groups.len() == self.map@.len(),
                res@.len() == i,
                forall|j: int|
                    0 <= j < i ==> {
                        let g = self@.groups[j];
                        &&& *(#[trigger] res@[j]).0 == g.group.1
                        &&& res@[j].1 == (g.group.0 is Translucent)
                        &&& entity_is(*res@[j].2, g)
                    },
            decreases self.map@.len() - i,
        {
            let entry = &self.map[i];
            res.push((&entry.0.1, entry.0.0.is_translucent(), &entry.1));
            i = i + 1;
        }
        res
    }

    /// The groups of one kind (`translucent` or not): each one's part and
    /// instances, in the order of the list.
    fn iter_kind(&self, translucent: bool) -> (res: Vec<(&PartAlias, &Entity<Instances<M, B>>)>)
        ensures
            res@.len() == of_kind(self@.groups, translucent).len(),
            forall|i: int|
                0 <= i < res@.len() ==> {
                    let g = of_kind(self@.groups, translucent)[i];
                    &&& *(#[trigger] res@[i]).0 == g.group.1
                    &&& entity_is(*res@[i].1, g)
                },
    {
        let ghost groups = self@.groups;
        let mut res: Vec<(&PartAlias, &Entity<Instances<M, B>>)> = Vec::new();
        let mut i: usize = 0;
        while i < self.map.len()
            invariant
                i <= self.map@.len(),
                groups == self@.groups,
                groups.len() == self.map@.len(),
                res@.len() == of_kind(groups.subrange(0, i as int), translucent).len(),
                forall|j: int|
                    0 <= j < res@.len() ==> {
                        let g = of_kind(groups.subrange(0, i as int), translucent)[j];
                        &&& *(#[trigger] res@[j]).0 == g.group.1
                        &&& entity_is(*res@[j].1, g)
                    },
            decreases self.map@.len() - i,
        {
            let entry = &self.map[i];
            proof {
                reveal(Seq::filter);
            }
            assert(groups.subrange(0, i + 1).drop_last() =~= groups.subrange(0, i as int));
            assert(groups.subrange(0, i + 1).last() == groups[i as int]);
            if entry.0.0.is_translucent() == translucent {
                res.push((&entry.0.1, &entry.1));
            }
            i = i + 1;
        }
        assert(groups.subrange(0, i as int) =~= groups);
        res
    }

    /// The opaque groups: each one's part and instances.
    pub fn iter_opaque(&self) -> (res: Vec<(&PartAlias, &Entity<Instances<M, B>>)>)
        ensures
            res@.len() == of_kind(self@.groups, false).len(),
            forall|i: int|
                0 <= i < res@.len() ==> {
                    let g = of_kind(self@.groups, false)[i];
                    &&& *(#[trigger] res@[i]).0 == g.group.1
                    &&& entity_is(*res@[i].1, g)
                },
    {
        self.iter_kind(false)
    }

    /// The translucent groups: each one's part and instances.
    pub fn iter_translucent(&self) -> (res: Vec<(&PartAlias, &Entity<Instances<M, B>>)>)
        ensures
            res@.len() == of_kind(self@.groups, true).len(),
            forall|i: int|
                0 <= i < res@.len() ==> {
                    let g = of_kind(self@.groups, true)[i];
                    &&& *(#[trigger] res@[i]).0 == g.group.1
                    &&& entity_is(*res@[i].1, g)
                },
    {
        self.iter_kind(true)
    }

    /// Applies the pending changes of every group marked for upload, which
    /// is then marked up to date: for each group in the order of the list,
    /// what has to be uploaded, or nothing when it was not marked.
    pub fn handle_gpu_update(&mut self) -> (plans: Vec<Option<UploadPlan>>)
        requires
            forall|i: int| 0 <= i < old(self)@.groups.len() ==> commit_fits(#[trigger] old(self)@.groups[i].instances),
        ensures
            final(self)@.lookup == old(self)@.lookup,
            final(self)@.groups.len() == old(self)@.groups.len(),
            plans@.len() == old(self)@.groups.len(),
            forall|i: int|
                0 <= i < plans@.len() ==> uploaded(old(self)@.groups[i], #[trigger] final(self)@.groups[i], plans@[i]),
    {
        let ghost start = self@.groups;
        let mut plans: Vec<Option<UploadPlan>> = Vec::new();
        let mut i: usize = 0;
        while i < self.map.len()
            invariant
                i <= self.map@.len(),
                self@.groups.len() == start.len(),
                self.map@.len() == start.len(),
                self@.lookup == old(self)@.lookup,
                start == old(self)@.groups,
                plans@.len() == i,
                forall|j: int| 0 <= j < start.len() ==> commit_fits(#[trigger] start[j].instances),
                forall|j: int| 0 <= j < i ==> uploaded(start[j], #[trigger] self@.groups[j], plans@[j]),
                forall|j: int| i <= j < start.len() ==> #[trigger] self@.groups[j] == start[j],
            decreases self.map@.len() - i,
        {
            let ghost before = self@.groups;
            assert(commit_fits(start[i as int].instances));
            assert(self@.groups[i as int] == start[i as int]);
            assert(self@.groups[i as int] == group_view(self.map@[i as int]));
            let entry = &mut self.map[i];
            let plan = if entry.1.begin_update() {
                let instances = entry.1.get_mut();
                let p = instances.handle_gpu_update();
                Some(p)
            } else {
                None
            };
            plans.push(plan);
            assert(self@.groups[i as int] == group_view(self.map@[i as int]));
            assert(uploaded(start[i as int], self@.groups[i as int], plans@[i as int]));
            proof {
                assert forall|j: int| 0 <= j < i + 1 implies uploaded(start[j], #[trigger] self@.groups[j], plans@[j]) by {
                    if j < i {
                        assert(self@.groups[j] == before[j]);
                    }
                }
                assert forall|j: int| i + 1 <= j < start.len() implies #[trigger] self@.groups[j] == start[j] by {
                    assert(self@.groups[j] == before[j]);
                }
            }
            i = i + 1;
        }
        plans
    }
}

impl<M: Copy, B> Default for DisplayList<M, B> {
    fn default() -> (res: Self)
        ensures
            res@.groups == Seq::<GroupView<M, B>>::empty(),
            res@.lookup == Map::<u128, Group>::empty(),
    {
        Self::new()
    }
}

proof fn lemma_group_pos_range<M, B>(s: Seq<GroupView<M, B>>, g: Group)
    ensures
        group_pos(s, g) matches Some(i) ==> 0 <= i < s.len() && group_key(s[i].group) == group_key(g),
    decreases s.len(),
{
    if s.len() > 0 {
        lemma_group_pos_range(s.drop_last(), g);
    }
}

proof fn lemma_group_pos_same_groups<M, B>(s1: Seq<GroupView<M, B>>, s2: Seq<GroupView<M, B>>, g: Group)
    requires
        s1.len() == s2.len(),
        forall|j: int| 0 <= j < s1.len() ==> #[trigger] s1[j].group == s2[j].group,
    ensures
        group_pos(s1, g) == group_pos(s2, g),
    decreases s1.len(),
{
    if s1.len() > 0 {
        assert(s1.last().group == s2.last().group);
        lemma_group_pos_same_groups(s1.drop_last(), s2.drop_last(), g);
    }
}

proof fn lemma_key_pos_range<T>(s: Seq<(u128, T)>, key: u128)
    ensures
        key_pos(s, key) matches Some(j) ==> 0 <= j < s.len() && s[j].0 == key,
    decreases s.len(),
{
    if s.len() > 0 && s.last().0 != key {
        lemma_key_pos_range(s.drop_last(), key);
    }
}

/// An update of a placed key whose colour keeps its kind (opaque or
/// translucent) answers `Modified`, keeps every key in its group and every
/// group in its place, and rewrites the key's row of its group: the row
/// that the group's index gives it, or else its pending insert, takes the
/// new matrix and the new colour and edge colour, with no alpha of its own.
pub proof fn lemma_update_rewrites_row<M, B>(v: DisplayListView<M, B>, key: u128, matrix: M, color: Color)
    requires
        placed(v, key),
        (v.lookup[key].0 is Translucent) == (color.color@.3 < 255),
        key_in_bounds(v, key),
    ensures
        ({
            let (w, a) = list_mutated(v, DisplayListOps::Update { key, matrix, color });
            let i = group_pos(v.groups, v.lookup[key])->0;
            let before = v.groups[i].instances;
            let after = w.groups[i].instances;
            let row = InstanceData { model_matrix: matrix, colors: InstanceColors { color: color.color, edge: color.edge, alpha: None } };
            &&& a is Modified
            &&& w.lookup == v.lookup
            &&& w.groups.len() == v.groups.len()
            &&& forall|k: int| 0 <= k < v.groups.len() && k != i ==> #[trigger] w.groups[k] == v.groups[k]
            &&& after.index == before.index
            &&& after.rows.len() == before.rows.len()
            &&& w.groups[i].modified
            &&& if before.index.contains_key(key) {
                &&& after.rows[before.index[key] as int] == row
                &&& forall|r: int| 0 <= r < before.rows.len() && r != before.index[key] ==> #[trigger] after.rows[r] == before.rows[r]
            } else {
                after.rows == before.rows && match key_pos(pending_or_empty(before.pending).inserts, key) {
                    Some(j) => pending_or_empty(after.pending).inserts[j] == (key, row),
                    None => true,
                }
            }
        }),
{
    lemma_group_pos_range(v.groups, v.lookup[key]);
    let i = group_pos(v.groups, v.lookup[key])->0;
    let before = v.groups[i].instances;
    lemma_key_pos_range(pending_or_empty(before.pending).inserts, key);
    let (w, a) = list_mutated(v, DisplayListOps::Update { key, matrix, color });
    assert(w.groups == mutated_at(
        v.groups,
        i,
        InstanceOps::Update { key, matrix, colors: InstanceColors { color: color.color, edge: color.edge, alpha: None } },
    ));
    assert(w.groups[i].instances == instances_mutated(
        before,
        InstanceOps::Update { key, matrix, colors: InstanceColors { color: color.color, edge: color.edge, alpha: None } },
    ));
}

/// Inserting a key the display list does not hold yet places it: it maps
/// to the group of the part, of the kind its colour and alpha call for, and
/// that group is in the list.
pub proof fn lemma_insert_places<M, B>(v: DisplayListView<M, B>, op: DisplayListOps<M>)
    requires
        op is Insert,
        !v.lookup.contains_key(op->Insert_key),
    ensures
        ({
            let w = list_mutated(v, op).0;
            let translucent = op->Insert_color.color@.3 < 255 || (op->Insert_alpha is Some
                && op->Insert_alpha->0.below_one);
            &&& placed(w, op->Insert_key)
            &&& w.lookup[op->Insert_key] == Group(kind_of(translucent), op->Insert_group)
            &&& list_mutated(v, op).1 is Modified
        }),
{
    let translucent = op->Insert_color.color@.3 < 255 || (op->Insert_alpha is Some && op->Insert_alpha->0.below_one);
    let g = Group(kind_of(translucent), op->Insert_group);
    let s = with_group(v.groups, g);
    let i = group_index(v.groups, g);
    lemma_group_pos_range(v.groups, g);
    assert(group_pos(s, g) == Some(i));
    assert(0 <= i < s.len());
    let w = list_mutated(v, op).0;
    lemma_group_pos_same_groups(w.groups, s, g);
}

/// Removing a key leaves the display list without it.
pub proof fn lemma_remove_unplaces<M, B>(v: DisplayListView<M, B>, key: u128)
    ensures
        !list_mutated(v, DisplayListOps::Remove { key }).0.lookup.contains_key(key),
        !placed(list_mutated(v, DisplayListOps::Remove { key }).0, key),
{
}

} // verus!

//! The instances of one group of the display list: a row per key, each
//! holding a placement matrix (of a type the renderer chooses) and the
//! instance's colours, the index from keys to rows, and the changes recorded
//! since the rows were last uploaded. Applying those changes says what has
//! to be uploaded; the renderer does the upload.

use std::collections::HashMap;
use vstd::prelude::*;
use vstd::std_specs::iter::IteratorSpec;

use crate::color::Rgba;
use crate::entity::GpuUpdateResult;

verus! {

/// The colours of one instance: the main and the edge colour as RGBA
/// channels, and, where an alpha replaced theirs, that alpha as the bits of
/// its `f32`. (The renderer uploads each channel divided by 255, and the
/// replacing alpha in place of both alpha channels.)
#[derive(Clone, Copy, Debug)]
pub struct InstanceColors {
    pub color: Rgba,
    pub edge: Rgba,
    pub alpha: Option<u32>,
}

/// One row: where the instance is placed and how it is coloured.
#[derive(Clone, Copy, Debug)]
pub struct InstanceData<M> {
    pub model_matrix: M,
    pub colors: InstanceColors,
}

/// A change to the instances of one group, by key.
pub enum InstanceOps<M> {
    Insert { key: u128, matrix: M, colors: InstanceColors },
    Update { key: u128, matrix: M, colors: InstanceColors },
    UpdateMatrix { key: u128, matrix: M },
    UpdateColor { key: u128, colors: InstanceColors },
    /// Replaces the alpha of both colours (the bits of an `f32`).
    UpdateAlpha { key: u128, alpha: u32 },
    Remove(u128),
}

/// The changes recorded since the rows were last uploaded.
struct InstanceTransaction<M> {
    rows_to_insert: Vec<(u128, InstanceData<M>)>,
    rows_to_remove: Vec<u128>,
    changed_indices: Vec<usize>,
}

/// What a pending transaction holds: the rows to insert by key (each key
/// once), the keys to remove, and the rows changed in place.
pub struct Pending<M> {
    pub inserts: Seq<(u128, InstanceData<M>)>,
    pub removals: Seq<u128>,
    pub changed: Seq<usize>,
}

/// The instances of one group: a row per key, the index from keys to rows,
/// and the changes not yet applied.
pub struct Instances<M, B> {
    group: crate::PartAlias,
    index: HashMap<u128, usize>,
    instance_data: Vec<InstanceData<M>>,
    pub instance_buffer: Option<B>,
    transaction: Option<InstanceTransaction<M>>,
}

/// An `Instances` as the contracts see it.
pub struct InstancesView<M> {
    pub group: crate::PartAlias,
    pub index: Map<u128, usize>,
    pub rows: Seq<InstanceData<M>>,
    pub pending: Option<Pending<M>>,
}

impl<M> InstanceTransaction<M> {
    spec fn view(&self) -> Pending<M> {
        Pending { inserts: self.rows_to_insert@, removals: self.rows_to_remove@, changed: self.changed_indices@ }
    }
}

impl<M, B> View for Instances<M, B> {
    type V = InstancesView<M>;

    closed spec fn view(&self) -> InstancesView<M> {
        InstancesView {
            group: self.group,
            index: self.index@,
            rows: self.instance_data@,
            pending: match self.transaction {
                Some(t) => Some(t.view()),
                None => None,
            },
        }
    }
}

/// A transaction with nothing in it.
pub open spec fn empty_pending<M>() -> Pending<M> {
    Pending { inserts: seq![], removals: seq![], changed: seq![] }
}

/// The pending transaction, or an empty one.
pub open spec fn pending_or_empty<M>(p: Option<Pending<M>>) -> Pending<M> {
    match p {
        Some(p) => p,
        None => empty_pending(),
    }
}

/// Where `key` stands in `s` (its last occurrence).
pub open spec fn key_pos<T>(s: Seq<(u128, T)>, key: u128) -> Option<int>
    decreases s.len(),
{
    if s.len() == 0 {
        None
    } else if s.last().0 == key {
        Some(s.len() - 1)
    } else {
        key_pos(s.drop_last(), key)
    }
}

/// `s` with `key` mapped to `v`: in place where it stands, else at the end.
pub open spec fn keyed_put<T>(s: Seq<(u128, T)>, key: u128, v: T) -> Seq<(u128, T)> {
    match key_pos(s, key) {
        Some(i) => s.update(i, (key, v)),
        None => s.push((key, v)),
    }
}

/// The row `d` as an update `op` rewrites it (other operations leave it).
pub open spec fn updated_row<M>(d: InstanceData<M>, op: InstanceOps<M>) -> InstanceData<M> {
    match op {
        InstanceOps::Update { matrix, colors, .. } => InstanceData { model_matrix: matrix, colors },
        InstanceOps::UpdateMatrix { matrix, .. } => InstanceData { model_matrix: matrix, ..d },
        InstanceOps::UpdateColor { colors, .. } => InstanceData { colors, ..d },
        InstanceOps::UpdateAlpha { alpha, .. } => InstanceData { colors: with_alpha(d.colors, alpha), ..d },
        _ => d,
    }
}

/// `colors` with both alphas replaced by `alpha`.
pub open spec fn with_alpha(colors: InstanceColors, alpha: u32) -> InstanceColors {
    InstanceColors { alpha: Some(alpha), ..colors }
}

/// An update of `key`: its row is rewritten and recorded as changed; else a
/// pending insert of `key` is rewritten; else only the transaction is opened.
pub open spec fn touched<M>(v: InstancesView<M>, key: u128, op: InstanceOps<M>) -> InstancesView<M> {
    let p = pending_or_empty(v.pending);
    if v.index.contains_key(key) {
        let i = v.index[key] as int;
        InstancesView {
            rows: v.rows.update(i, updated_row(v.rows[i], op)),
            pending: Some(Pending { changed: p.changed.push(v.index[key]), ..p }),
            ..v
        }
    } else {
        match key_pos(p.inserts, key) {
            Some(j) => InstancesView {
                pending: Some(Pending { inserts: p.inserts.update(j, (key, updated_row(p.inserts[j].1, op))), ..p }),
                ..v
            },
            None => InstancesView { pending: Some(p), ..v },
        }
    }
}

/// What applying `op` makes of the instances.
pub open spec fn instances_mutated<M>(v: InstancesView<M>, op: InstanceOps<M>) -> InstancesView<M> {
    let p = pending_or_empty(v.pending);
    match op {
        InstanceOps::Insert { key, matrix, colors } => InstancesView {
            pending: Some(
                Pending { inserts: keyed_put(p.inserts, key, InstanceData { model_matrix: matrix, colors }), ..p },
            ),
            ..v
        },
        InstanceOps::Remove(key) => InstancesView {
            pending: Some(Pending { removals: p.removals.push(key), ..p }),
            ..v
        },
        _ => touched(v, op_key(op), op),
    }
}

/// The key an operation is about.
pub open spec fn op_key<M>(op: InstanceOps<M>) -> u128 {
    match op {
        InstanceOps::Insert { key, .. } => key,
        InstanceOps::Update { key, .. } => key,
        InstanceOps::UpdateMatrix { key, .. } => key,
        InstanceOps::UpdateColor { key, .. } => key,
        InstanceOps::UpdateAlpha { key, .. } => key,
        InstanceOps::Remove(key) => key,
    }
}

/// Whether `op` can be applied: an update of a key that has a row needs that
/// row to exist.
pub open spec fn op_in_bounds<M>(v: InstancesView<M>, op: InstanceOps<M>) -> bool {
    match op {
        InstanceOps::Insert { .. } => true,
        InstanceOps::Remove(_) => true,
        _ => v.index.contains_key(op_key(op)) ==> v.index[op_key(op)] < v.rows.len(),
    }
}

/// Where `key` stands among the pending inserts.
fn find_pending<M>(entries: &Vec<(u128, InstanceData<M>)>, key: u128) -> (res: Option<usize>)
    ensures
        match res {
            Some(j) => key_pos(entries@, key) == Some(j as int) && j < entries@.len() && entries@[j as int].0 == key,
            None => key_pos(entries@, key) is None,
        },
{
    let mut i = entries.len();
    assert(entries@.subrange(0, i as int) =~= entries@);
    while i > 0
        invariant
            i <= entries@.len(),
            key_pos(entries@, key) == key_pos(entries@.subrange(0, i as int), key),
        decreases i,
    {
        let k = entries[i - 1].0;
        assert(entries@.subrange(0, i as int).drop_last() =~= entries@.subrange(0, i - 1));
        if k == key {
            return Some(i - 1);
        }
        i = i - 1;
    }
    None
}

impl<M, B> Instances<M, B> {
    /// The buffer the rows were last uploaded into.
    pub closed spec fn buffer(&self) -> Option<B> {
        self.instance_buffer
    }
}

impl<M: Copy, B> Instances<M, B> {
    /// No instances yet, no buffer and nothing pending.
    pub fn new(group: crate::PartAlias) -> (res: Self)
        ensures
            res@.group == group,
            res@.index == Map::<u128, usize>::empty(),
            res@.rows == Seq::<InstanceData<M>>::empty(),
            res@.pending is None,
            res.buffer() is None,
    {
        Instances {
            group,
            index: HashMap::new(),
            instance_data: Vec::new(),
            instance_buffer: None,
            transaction: None,
        }
    }

    /// How many rows there are.
    pub fn count(&self) -> (res: usize)
        ensures
            res == self@.rows.len(),
    {
        self.instance_data.len()
    }

    /// The rows to draw: from the first to the count.
    pub fn range(&self) -> (res: std::ops::Range<u32>)
        ensures
            res.start == 0,
            res.end == self@.rows.len() as u32,
    {
        0..(self.instance_data.len() as u32)
    }

    /// The row of `key`, if it has one.
    pub fn row_of(&self, key: u128) -> (res: Option<usize>)
        ensures
            res == (if self@.index.contains_key(key) { Some(self@.index[key]) } else { None }),
    {
        broadcast use vstd::std_specs::hash::group_hash_axioms;

        match self.index.get(&key) {
            Some(i) => Some(*i),
            None => None,
        }
    }

    /// The row at `i`.
    pub fn row(&self, i: usize) -> (res: InstanceData<M>)
        requires
            i < self@.rows.len(),
        ensures
            res == self@.rows[i as int],
    {
        self.instance_data[i]
    }

    /// The row `d` as the update `op` rewrites it.
    fn updated(d: InstanceData<M>, op: &InstanceOps<M>) -> (res: InstanceData<M>)
        ensures
            res == updated_row(d, *op),
    {
        match op {
            InstanceOps::Update { matrix, colors, .. } => InstanceData { model_matrix: *matrix, colors: *colors },
            InstanceOps::UpdateMatrix { matrix, .. } => InstanceData { model_matrix: *matrix, colors: d.colors },
            InstanceOps::UpdateColor { colors, .. } => InstanceData { model_matrix: d.model_matrix, colors: *colors },
            InstanceOps::UpdateAlpha { alpha, .. } => InstanceData {
                model_matrix: d.model_matrix,
                colors: InstanceColors { color: d.colors.color, edge: d.colors.edge, alpha: Some(*alpha) },
            },
            _ => d,
        }
    }

    /// Applies the update `op` to the row of its key, or to the pending
    /// insert of it.
    fn touch(&mut self, tr: &mut InstanceTransaction<M>, op: &InstanceOps<M>)
        requires
            old(self).transaction is None,
            op_in_bounds(old(self)@, *op),
            !(*op is Insert),
            !(*op is Remove),
        ensures
            final(self).transaction is None,
            final(self).buffer() == old(self).buffer(),
            ({
                let before = InstancesView { pending: Some(old(tr).view()), ..old(self)@ };
                let after = InstancesView { pending: Some(final(tr).view()), ..final(self)@ };
                after == touched(before, op_key(*op), *op)
            }),
    {
        broadcast use vstd::std_specs::hash::group_hash_axioms;

        let key = match op {
            InstanceOps::Insert { key, .. } => *key,
            InstanceOps::Update { key, .. } => *key,
            InstanceOps::UpdateMatrix { key, .. } => *key,
            InstanceOps::UpdateColor { key, .. } => *key,
            InstanceOps::UpdateAlpha { key, .. } => *key,
            InstanceOps::Remove(key) => *key,
        };
        match self.index.get(&key) {
            Some(i) => {
                let i = *i;
                let d = Self::updated(self.instance_data[i], op);
                self.instance_data.set(i, d);
                tr.changed_indices.push(i);
            },
            None => {
                match find_pending(&tr.rows_to_insert, key) {
                    Some(j) => {
                        let d = Self::updated(tr.rows_to_insert[j].1, op);
                        tr.rows_to_insert.set(j, (key, d));
                    },
                    None => {},
                }
            },
        }
        proof {
            let before = InstancesView { pending: Some(old(tr).view()), ..old(self)@ };
            let after = InstancesView { pending: Some(tr.view()), ..self@ };
            assert(after =~= touched(before, key, *op));
        }
    }

    /// Records `op` in the pending transaction; an update of a key that has
    /// a row changes that row at once and records it as changed. The change
    /// always counts.
    pub fn mutate(&mut self, op: InstanceOps<M>) -> (res: GpuUpdateResult<InstanceOps<M>>)
        requires
            op_in_bounds(old(self)@, op),
        ensures
            final(self)@ == instances_mutated(old(self)@, op),
            final(self).buffer() == old(self).buffer(),
            res is Modified,
    {
        broadcast use vstd::std_specs::hash::group_hash_axioms;

        let mut tr = match self.transaction.take() {
            Some(t) => t,
            None => InstanceTransaction { rows_to_insert: Vec::new(), rows_to_remove: Vec::new(), changed_indices: Vec::new() },
        };
        let ghost v = old(self)@;
        let ghost p = pending_or_empty(v.pending);
        assert(tr.view() == p);
        match op {
            InstanceOps::Insert { key, matrix, colors } => {
                let d = InstanceData { model_matrix: matrix, colors };
                match find_pending(&tr.rows_to_insert, key) {
                    Some(j) => {
                        tr.rows_to_insert.set(j, (key, d));
                    },
                    None => {
                        tr.rows_to_insert.push((key, d));
                    },
                }
            },
            InstanceOps::Remove(key) => {
                tr.rows_to_remove.push(key);
            },
            _ => {
                self.touch(&mut tr, &op);
            },
        }
        self.transaction = Some(tr);
        assert(self@ =~= instances_mutated(v, op));
        GpuUpdateResult::Modified
    }
}


/// The removals whose keys have rows, each with its row, in order.
pub open spec fn found_removals(removals: Seq<u128>, index: Map<u128, usize>) -> Seq<(u128, usize)>
    decreases removals.len(),
{
    if removals.len() == 0 {
        seq![]
    } else {
        let found = found_removals(removals.drop_last(), index);
        let k = removals.last();
        if index.contains_key(k) {
            found.push((k, index[k]))
        } else {
            found
        }
    }
}

/// `s` with `e` put after every entry whose row is not below `e`'s.
pub open spec fn insert_descending(s: Seq<(u128, usize)>, e: (u128, usize)) -> Seq<(u128, usize)>
    decreases s.len(),
{
    if s.len() == 0 {
        seq![e]
    } else if s.last().1 >= e.1 {
        s.push(e)
    } else {
        insert_descending(s.drop_last(), e).push(s.last())
    }
}

/// `s` ordered by row, highest first; entries of the same row keep their
/// order.
pub open spec fn sorted_descending(s: Seq<(u128, usize)>) -> Seq<(u128, usize)>
    decreases s.len(),
{
    if s.len() == 0 {
        s
    } else {
        insert_descending(sorted_descending(s.drop_last()), s.last())
    }
}

/// Whether the rows of `s` never rise.
pub open spec fn descending(s: Seq<(u128, usize)>) -> bool {
    forall|i: int, j: int| 0 <= i < j < s.len() ==> s[i].1 >= s[j].1
}

/// Where an upload of the rows stands: the index, the rows, the removed rows
/// still free to be reused (the last one first), the rows changed in place,
/// and whether rows were added or taken away.
pub struct Commit<M> {
    pub index: Map<u128, usize>,
    pub rows: Seq<InstanceData<M>>,
    pub reusable: Seq<(u128, usize)>,
    pub changed: Seq<usize>,
    pub layout_changed: bool,
}

/// Inserting the row `e`: into the last free row when there is one (its old
/// key leaves the index), else at the end.
pub open spec fn insert_step<M>(c: Commit<M>, e: (u128, InstanceData<M>)) -> Commit<M> {
    if c.reusable.len() > 0 {
        let (old_key, idx) = c.reusable.last();
        Commit {
            index: c.index.remove(old_key).insert(e.0, idx),
            rows: c.rows.update(idx as int, e.1),
            reusable: c.reusable.drop_last(),
            changed: c.changed.push(idx),
            ..c
        }
    } else {
        Commit {
            index: c.index.insert(e.0, c.rows.len() as usize),
            rows: c.rows.push(e.1),
            layout_changed: true,
            ..c
        }
    }
}

/// The upload after inserting `inserts` in order.
pub open spec fn after_inserts<M>(c: Commit<M>, inserts: Seq<(u128, InstanceData<M>)>) -> Commit<M>
    decreases inserts.len(),
{
    if inserts.len() == 0 {
        c
    } else {
        insert_step(after_inserts(c, inserts.drop_last()), inserts.last())
    }
}

/// Whether inserting `inserts` in order stays within the rows and within
/// `usize`.
pub open spec fn inserts_fit<M>(c: Commit<M>, inserts: Seq<(u128, InstanceData<M>)>) -> bool
    decreases inserts.len(),
{
    inserts.len() == 0 || (inserts_fit(c, inserts.drop_last()) && {
        let d = after_inserts(c, inserts.drop_last());
        if d.reusable.len() > 0 {
            d.reusable.last().1 < d.rows.len()
        } else {
            d.rows.len() + 1 < usize::MAX
        }
    })
}

/// Whether `rev` gives, for each row that `index` points to, a key that
/// points to it.
pub open spec fn reverses(rev: Map<usize, u128>, index: Map<u128, usize>) -> bool {
    &&& forall|i: usize| #[trigger] rev.contains_key(i) ==> index.contains_key(rev[i]) && index[rev[i]] == i
    &&& forall|k: u128| #[trigger] index.contains_key(k) ==> rev.contains_key(index[k])
}

/// Removing the row of `e`: the key that `rev` gives for the last row is
/// pointed at `e`'s row, `e`'s key leaves the index, and the last row takes
/// the place of `e`'s.
pub open spec fn removal_step<M>(c: Commit<M>, e: (u128, usize), rev: Map<usize, u128>) -> Commit<M> {
    let last = (c.rows.len() - 1) as usize;
    let index = if rev.contains_key(last) {
        c.index.insert(rev[last], e.1)
    } else {
        c.index
    };
    Commit {
        index: index.remove(e.0),
        rows: c.rows.update(e.1 as int, c.rows.last()).drop_last(),
        layout_changed: true,
        ..c
    }
}

/// The upload after removing the rows of `list` in order.
pub open spec fn after_removals<M>(c: Commit<M>, list: Seq<(u128, usize)>, rev: Map<usize, u128>) -> Commit<M>
    decreases list.len(),
{
    if list.len() == 0 {
        c
    } else {
        removal_step(after_removals(c, list.drop_last(), rev), list.last(), rev)
    }
}

/// Whether removing the rows of `list` in order, from `rows` rows, stays
/// within the rows.
pub open spec fn removals_fit(rows: nat, list: Seq<(u128, usize)>) -> bool {
    forall|j: int| 0 <= j < list.len() ==> list[j].1 + j < rows
}

/// Where an upload starts from: the rows as they are and the removed keys
/// that have rows, highest row first.
pub open spec fn commit_start<M>(v: InstancesView<M>, p: Pending<M>) -> Commit<M> {
    Commit {
        index: v.index,
        rows: v.rows,
        reusable: sorted_descending(found_removals(p.removals, v.index)),
        changed: p.changed,
        layout_changed: false,
    }
}

/// The upload after the inserts of `p`.
pub open spec fn commit_middle<M>(v: InstancesView<M>, p: Pending<M>) -> Commit<M> {
    after_inserts(commit_start(v, p), p.inserts)
}

/// Whether the pending changes of `v` can be applied.
pub open spec fn commit_fits<M>(v: InstancesView<M>) -> bool {
    match v.pending {
        None => true,
        Some(p) => {
            &&& inserts_fit(commit_start(v, p), p.inserts)
            &&& removals_fit(commit_middle(v, p).rows.len(), commit_middle(v, p).reusable)
        },
    }
}

/// Whether `ranges` are the runs of consecutive rows among `rows`: each
/// range holds only rows of `rows`, each row of `rows` lies in a range, and
/// the ranges rise with a gap between each two.
pub open spec fn runs_of(ranges: Seq<(usize, usize)>, rows: Seq<usize>) -> bool {
    &&& forall|k: int| 0 <= k < ranges.len() ==> #[trigger] ranges[k].0 <= ranges[k].1
    &&& forall|k: int, i: usize|
        #![trigger ranges[k], rows.contains(i)]
        0 <= k < ranges.len() && ranges[k].0 <= i <= ranges[k].1 ==> rows.contains(i)
    &&& forall|i: usize|
        #[trigger] rows.contains(i) ==> exists|k: int| #![trigger ranges[k]] 0 <= k < ranges.len() && ranges[k].0 <= i <= ranges[k].1
    &&& forall|k: int| 0 <= k < ranges.len() - 1 ==> #[trigger] ranges[k].1 + 1 < ranges[k + 1].0
}

/// What to upload after applying the pending changes.
pub enum UploadPlan {
    /// Nothing changed.
    Unchanged,
    /// Rows were added or taken away, or nothing was uploaded yet: upload all
    /// rows into a new buffer.
    Rebuild,
    /// Write these rows again (each range from its first row to its last).
    Ranges(Vec<(usize, usize)>),
}

/// Whether `after` and `plan` are what applying the pending changes of
/// `before` gives, when the key found for a row that is no longer last is
/// the one `rev` gives (it is unique where no two keys point to one row).
pub open spec fn committed<M>(
    before: InstancesView<M>,
    had_buffer: bool,
    rev: Map<usize, u128>,
    after: InstancesView<M>,
    plan: UploadPlan,
) -> bool {
    let mid = commit_middle(before, before.pending->0);
    let fin = after_removals(mid, mid.reusable, rev);
    &&& reverses(rev, mid.index)
    &&& after.index == fin.index
    &&& after.rows == fin.rows
    &&& if fin.layout_changed || !had_buffer {
        plan is Rebuild
    } else if fin.changed.len() > 0 {
        plan matches UploadPlan::Ranges(r) && runs_of(r@, fin.changed)
    } else {
        plan is Unchanged
    }
}

proof fn lemma_insert_descending(s: Seq<(u128, usize)>, e: (u128, usize), p: int)
    requires
        descending(s),
        0 <= p <= s.len(),
        forall|q: int| 0 <= q < p ==> s[q].1 >= e.1,
        p < s.len() ==> s[p].1 < e.1,
    ensures
        insert_descending(s, e) == s.insert(p, e),
        descending(s.insert(p, e)),
    decreases s.len(),
{
    if s.len() == 0 {
        assert(s.insert(p, e) =~= seq![e]);
    } else if s.last().1 >= e.1 {
        assert(p == s.len());
        assert(s.insert(p, e) =~= s.push(e));
    } else {
        assert(p < s.len());
        lemma_insert_descending(s.drop_last(), e, p);
        assert(s.insert(p, e) =~= s.drop_last().insert(p, e).push(s.last()));
    }
    assert forall|i: int, j: int| 0 <= i < j < s.insert(p, e).len() implies s.insert(p, e)[i].1 >= s.insert(p, e)[j].1 by {
        if i < p && j > p {
            assert(s[i].1 >= s[j - 1].1);
        }
    }
}

/// `s` ordered by row, highest first, keeping the order of entries of the
/// same row.
fn sort_rows_descending(s: &Vec<(u128, usize)>) -> (res: Vec<(u128, usize)>)
    ensures
        res@ == sorted_descending(s@),
        descending(res@),
{
    let mut res: Vec<(u128, usize)> = Vec::new();
    let mut i: usize = 0;
    while i < s.len()
        invariant
            i <= s@.len(),
            res@ == sorted_descending(s@.subrange(0, i as int)),
            descending(res@),
        decreases s@.len() - i,
    {
        let e = s[i];
        let mut p: usize = 0;
        while p < res.len() && res[p].1 >= e.1
            invariant
                p <= res@.len(),
                forall|q: int| 0 <= q < p ==> res@[q].1 >= e.1,
            decreases res@.len() - p,
        {
            p = p + 1;
        }
        proof {
            lemma_insert_descending(res@, e, p as int);
            assert(s@.subrange(0, i + 1).drop_last() =~= s@.subrange(0, i as int));
        }
        res.insert(p, e);
        i = i + 1;
    }
    assert(s@.subrange(0, i as int) =~= s@);
    res
}

/// For each row that `index` points to, a key that points to it.
fn reverse_lookup(index: &HashMap<u128, usize>) -> (rev: HashMap<usize, u128>)
    ensures
        reverses(rev@, index@),
{
    broadcast use vstd::std_specs::hash::group_hash_axioms;

    let mut keys: Vec<u128> = Vec::new();
    for k in it: index.keys()
        invariant
            keys@ == it.seq().subrange(0, it.index()).map_values(|r: &u128| *r),
    {
        keys.push(*k);
        assert(keys@ =~= it.seq().subrange(0, it.index() + 1).map_values(|r: &u128| *r));
    }
    proof {
        let all = vstd::std_specs::hash::spec_keys_iter(index).remaining();
        vstd::std_specs::hash::axiom_spec_keys_iter(index);
        assert(keys@ =~= all.map_values(|r: &u128| *r));
        assert(all.map_values(|r: &u128| *r) =~= all.unref());
        assert(keys@.to_set() == index@.dom());
    }
    let mut rev: HashMap<usize, u128> = HashMap::new();
    let mut i: usize = 0;
    while i < keys.len()
        invariant
            i <= keys@.len(),
            keys@.to_set() == index@.dom(),
            forall|r: usize| #[trigger] rev@.contains_key(r) ==> index@.contains_key(rev@[r]) && index@[rev@[r]] == r,
            forall|j: int| 0 <= j < i ==> rev@.contains_key(#[trigger] index@[keys@[j]]),
        decreases keys@.len() - i,
    {
        let k = keys[i];
        assert(keys@.to_set().contains(k));
        let r = *index.get(&k).unwrap();
        rev.insert(r, k);
        i = i + 1;
    }
    assert forall|k: u128| #[trigger] index@.contains_key(k) implies rev@.contains_key(index@[k]) by {
        assert(keys@.to_set().contains(k));
        let j = choose|j: int| 0 <= j < keys@.len() && keys@[j] == k;
    }
    rev
}

proof fn lemma_after_inserts_rows<M>(c: Commit<M>, inserts: Seq<(u128, InstanceData<M>)>)
    requires
        inserts_fit(c, inserts),
    ensures
        after_inserts(c, inserts).rows.len() >= c.rows.len(),
        after_inserts(c, inserts).reusable.len() <= c.reusable.len(),
        after_inserts(c, inserts).reusable == c.reusable.subrange(0, after_inserts(c, inserts).reusable.len() as int),
    decreases inserts.len(),
{
    if inserts.len() > 0 {
        lemma_after_inserts_rows(c, inserts.drop_last());
        let d = after_inserts(c, inserts.drop_last());
        if d.reusable.len() > 0 {
            assert(d.reusable.drop_last() =~= c.reusable.subrange(0, d.reusable.len() - 1));
        }
    }
}

proof fn lemma_inserts_fit_prefix<M>(c: Commit<M>, inserts: Seq<(u128, InstanceData<M>)>, j: int)
    requires
        inserts_fit(c, inserts),
        0 <= j <= inserts.len(),
    ensures
        inserts_fit(c, inserts.subrange(0, j)),
    decreases inserts.len(),
{
    if j < inserts.len() {
        assert(inserts.drop_last() =~= inserts.subrange(0, inserts.len() - 1));
        lemma_inserts_fit_prefix(c, inserts.drop_last(), j);
        assert(inserts.drop_last().subrange(0, j) =~= inserts.subrange(0, j));
    } else {
        assert(inserts.subrange(0, j) =~= inserts);
    }
}

proof fn lemma_removals_rows<M>(c: Commit<M>, list: Seq<(u128, usize)>, rev: Map<usize, u128>)
    requires
        removals_fit(c.rows.len(), list),
    ensures
        after_removals(c, list, rev).rows.len() == c.rows.len() - list.len(),
        after_removals(c, list, rev).changed == c.changed,
        list.len() > 0 ==> after_removals(c, list, rev).layout_changed,
        list.len() == 0 ==> after_removals(c, list, rev) == c,
    decreases list.len(),
{
    if list.len() > 0 {
        assert forall|j: int| 0 <= j < list.drop_last().len() implies list.drop_last()[j].1 + j < c.rows.len() by {
            assert(list.drop_last()[j] == list[j]);
        }
        lemma_removals_rows(c, list.drop_last(), rev);
        assert(list[list.len() - 1].1 + (list.len() - 1) < c.rows.len());
    }
}

/// Some key for each row that `index` points to.
pub open spec fn some_reverse(index: Map<u128, usize>) -> Map<usize, u128> {
    Map::new(
        |i: usize| exists|k: u128| index.contains_key(k) && index[k] == i,
        |i: usize| choose|k: u128| index.contains_key(k) && index[k] == i,
    )
}

proof fn lemma_some_reverse(index: Map<u128, usize>)
    ensures
        reverses(some_reverse(index), index),
{
    let rev = some_reverse(index);
    assert forall|k: u128| #[trigger] index.contains_key(k) implies rev.contains_key(index[k]) by {
        assert(index.contains_key(k) && index[k] == index[k]);
    }
}

/// The rows of `s` in rising order, each once.
fn sorted_rows(s: &Vec<usize>) -> (res: Vec<usize>)
    ensures
        forall|i: int, j: int| 0 <= i < j < res@.len() ==> res@[i] < res@[j],
        forall|x: usize| res@.contains(x) <==> s@.contains(x),
{
    let mut res: Vec<usize> = Vec::new();
    let mut i: usize = 0;
    while i < s.len()
        invariant
            i <= s@.len(),
            forall|a: int, b: int| 0 <= a < b < res@.len() ==> res@[a] < res@[b],
            forall|x: usize| res@.contains(x) <==> s@.subrange(0, i as int).contains(x),
        decreases s@.len() - i,
    {
        let e = s[i];
        let mut p: usize = 0;
        while p < res.len() && res[p] < e
            invariant
                p <= res@.len(),
                forall|q: int| 0 <= q < p ==> res@[q] < e,
            decreases res@.len() - p,
        {
            p = p + 1;
        }
        let ghost before = res@;
        let inserted = p == res.len() || res[p] != e;
        if inserted {
            res.insert(p, e);
            assert(res@[p as int] == e);
            assert forall|a: int, b: int| 0 <= a < b < res@.len() implies res@[a] < res@[b] by {
                if a < p && b > p {
                    assert(before[a] < before[b - 1]);
                }
                if a == p && b > p {
                    assert(before[p as int] >= e);
                    assert(before[p as int] <= before[b - 1]);
                }
            }
        } else {
            assert(before[p as int] == e);
        }
        let ghost prev = s@.subrange(0, i as int);
        let ghost next = s@.subrange(0, i + 1);
        assert forall|x: usize| res@.contains(x) <==> next.contains(x) by {
            if next.contains(x) && x != e {
                let q = choose|q: int| 0 <= q < next.len() && next[q] == x;
                assert(prev[q] == x);
            }
            if prev.contains(x) {
                let q = choose|q: int| 0 <= q < prev.len() && prev[q] == x;
                assert(next[q] == x);
            }
            if x == e {
                assert(next[i as int] == x);
                assert(res@[p as int] == x);
            }
            if res@.contains(x) && x != e {
                let q = choose|q: int| 0 <= q < res@.len() && res@[q] == x;
                if inserted {
                    if q < p {
                        assert(before[q] == x);
                    } else if q > p {
                        assert(before[q - 1] == x);
                    }
                } else {
                    assert(before[q] == x);
                }
            }
            if before.contains(x) {
                let q = choose|q: int| 0 <= q < before.len() && before[q] == x;
                if inserted {
                    if q < p {
                        assert(res@[q] == x);
                    } else {
                        assert(res@[q + 1] == x);
                    }
                } else {
                    assert(res@[q] == x);
                }
            }
        }
        i = i + 1;
    }
    assert(s@.subrange(0, i as int) =~= s@);
    res
}

/// The runs of consecutive rows among `s`, which is not empty.
#[verifier::spinoff_prover]
#[verifier::rlimit(40)]
fn runs(s: &Vec<usize>) -> (res: Vec<(usize, usize)>)
    requires
        s@.len() > 0,
    ensures
        runs_of(res@, s@),
{
    let sorted = sorted_rows(s);
    assert(s@.contains(s@[0]));
    assert(sorted@.contains(s@[0]));
    let mut res: Vec<(usize, usize)> = Vec::new();
    let mut start = sorted[0];
    let mut end = sorted[0];
    let mut i: usize = 1;
    proof {
        let r0 = res@.push((start, end));
        let s1 = sorted@.subrange(0, 1);
        assert(s1[0] == start);
        assert forall|y: usize| #[trigger] s1.contains(y) implies exists|k: int| #![trigger r0[k]] 0 <= k < r0.len() && r0[k].0 <= y <= r0[k].1 by {
            let q = choose|q: int| 0 <= q < s1.len() && s1[q] == y;
            assert(r0[0].0 <= y <= r0[0].1);
        }
        assert forall|k: int, y: usize| #![trigger r0[k], s1.contains(y)] 0 <= k < r0.len() && r0[k].0 <= y <= r0[k].1 implies s1.contains(y) by {
            assert(s1[0] == y);
        }
        assert(runs_of(r0, s1));
    }
    while i < sorted.len()
        invariant
            1 <= i <= sorted@.len(),
            forall|a: int, b: int| 0 <= a < b < sorted@.len() ==> sorted@[a] < sorted@[b],
            end == sorted@[i - 1],
            runs_of(res@.push((start, end)), sorted@.subrange(0, i as int)),
        decreases sorted@.len() - i,
    {
        let x = sorted[i];
        let ghost prev = sorted@.subrange(0, i as int);
        let ghost next = sorted@.subrange(0, i + 1);
        let ghost r0 = res@.push((start, end));
        assert forall|y: usize| prev.contains(y) implies next.contains(y) by {
            let q = choose|q: int| 0 <= q < prev.len() && prev[q] == y;
            assert(next[q] == y);
        }
        assert(next.contains(x)) by {
            assert(next[i as int] == x);
        }
        assert forall|y: usize| next.contains(y) implies prev.contains(y) || y == x by {
            let q = choose|q: int| 0 <= q < next.len() && next[q] == y;
            if q < i {
                assert(prev[q] == y);
            }
        }
        if x > end + 1 {
            res.push((start, end));
            start = x;
            end = x;
            let ghost r1 = res@.push((start, end));
            assert(r1 =~= r0.push((x, x)));
            assert forall|y: usize| #[trigger] next.contains(y) implies exists|k: int| #![trigger r1[k]] 0 <= k < r1.len() && r1[k].0 <= y <= r1[k].1 by {
                if y == x {
                    assert(r1[r1.len() - 1].0 <= y <= r1[r1.len() - 1].1);
                } else {
                    assert(prev.contains(y));
                    let k = choose|k: int| #![trigger r0[k]] 0 <= k < r0.len() && r0[k].0 <= y <= r0[k].1;
                    assert(r1[k] == r0[k]);
                }
            }
            assert forall|k: int, y: usize| #![trigger r1[k], next.contains(y)] 0 <= k < r1.len() && r1[k].0 <= y <= r1[k].1 implies next.contains(y) by {
                if k < r0.len() {
                    assert(r1[k] == r0[k]);
                    assert(prev.contains(y));
                }
            }
            assert forall|k: int| 0 <= k < r1.len() - 1 implies #[trigger] r1[k].1 + 1 < r1[k + 1].0 by {
                if k < r0.len() - 1 {
                    assert(r1[k] == r0[k] && r1[k + 1] == r0[k + 1]);
                }
            }
            assert(runs_of(r1, next));
        } else {
            assert(x == end + 1) by {
                assert(sorted@[i - 1] < sorted@[i as int]);
            }
            assert(r0[r0.len() - 1].0 <= r0[r0.len() - 1].1);
            end = x;
            let ghost r1 = res@.push((start, end));
            assert(r1 =~= r0.update(r0.len() - 1, (start, x)));
            assert forall|y: usize| #[trigger] next.contains(y) implies exists|k: int| #![trigger r1[k]] 0 <= k < r1.len() && r1[k].0 <= y <= r1[k].1 by {
                if y == x {
                    assert(r1[r1.len() - 1].0 <= y <= r1[r1.len() - 1].1);
                } else {
                    assert(prev.contains(y));
                    let k = choose|k: int| #![trigger r0[k]] 0 <= k < r0.len() && r0[k].0 <= y <= r0[k].1;
                    assert(r1[k].0 <= y <= r1[k].1);
                }
            }
            assert forall|k: int, y: usize| #![trigger r1[k], next.contains(y)] 0 <= k < r1.len() && r1[k].0 <= y <= r1[k].1 implies next.contains(y) by {
                if k < r0.len() - 1 {
                    assert(r1[k] == r0[k]);
                    assert(prev.contains(y));
                } else if y < x {
                    assert(r0[k].0 <= y <= r0[k].1);
                    assert(prev.contains(y));
                }
            }
            assert forall|k: int| 0 <= k < r1.len() - 1 implies #[trigger] r1[k].1 + 1 < r1[k + 1].0 by {
                assert(r1[k] == r0[k]);
                if k + 1 < r0.len() - 1 {
                    assert(r1[k + 1] == r0[k + 1]);
                } else {
                    assert(r1[k + 1].0 == r0[k + 1].0);
                }
            }
            assert forall|k: int| 0 <= k < r1.len() implies #[trigger] r1[k].0 <= r1[k].1 by {
                if k < r0.len() - 1 {
                    assert(r1[k] == r0[k]);
                }
            }
            assert(runs_of(r1, next));
        }
        i = i + 1;
    }
    res.push((start, end));
    assert(sorted@.subrange(0, i as int) =~= sorted@);
    assert forall|y: usize| #[trigger] s@.contains(y) implies exists|k: int| #![trigger res@[k]] 0 <= k < res@.len() && res@[k].0 <= y <= res@[k].1 by {
        assert(sorted@.contains(y));
    }
    assert forall|k: int, y: usize| #![trigger res@[k], s@.contains(y)] 0 <= k < res@.len() && res@[k].0 <= y <= res@[k].1 implies s@.contains(y) by {
        assert(sorted@.contains(y));
    }
    res
}

impl<M: Copy, B> Instances<M, B> {
    /// Whether the pending changes can be applied (no row they name lies
    /// past the rows there are).
    pub open spec fn commit_fits(&self) -> bool {
        commit_fits(self@)
    }

    /// Applies the pending changes: removed keys whose rows are not reused by
    /// inserts have their rows taken away, inserted keys get a reused or a
    /// new row. Says what has to be uploaded.
    pub fn handle_gpu_update(&mut self) -> (plan: UploadPlan)
        requires
            old(self).commit_fits(),
        ensures
            final(self).buffer() == old(self).buffer(),
            final(self)@.group == old(self)@.group,
            final(self)@.pending is None,
            old(self)@.pending is None ==> final(self)@ == old(self)@ && plan is Unchanged,
            old(self)@.pending is Some ==> exists|rev: Map<usize, u128>|
                #[trigger] committed(old(self)@, old(self).buffer() is Some, rev, final(self)@, plan),
    {
        broadcast use vstd::std_specs::hash::group_hash_axioms;

        let ghost v = old(self)@;
        let tr = match self.transaction.take() {
            Some(t) => t,
            None => {
                return UploadPlan::Unchanged;
            },
        };
        let ghost p = tr.view();
        let InstanceTransaction { rows_to_insert, rows_to_remove, mut changed_indices } = tr;

        let mut found: Vec<(u128, usize)> = Vec::new();
        let mut i: usize = 0;
        while i < rows_to_remove.len()
            invariant
                i <= rows_to_remove@.len(),
                self.index@ == v.index,
                found@ == found_removals(rows_to_remove@.subrange(0, i as int), v.index),
            decreases rows_to_remove@.len() - i,
        {
            let k = rows_to_remove[i];
            assert(rows_to_remove@.subrange(0, i + 1).drop_last() =~= rows_to_remove@.subrange(0, i as int));
            match self.index.get(&k) {
                Some(r) => {
                    found.push((k, *r));
                },
                None => {},
            }
            i = i + 1;
        }
        assert(rows_to_remove@.subrange(0, i as int) =~= rows_to_remove@);
        let mut reusable = sort_rows_descending(&found);
        let mut layout_changed = false;
        let ghost start = commit_start(v, p);

        let mut j: usize = 0;
        while j < rows_to_insert.len()
            invariant
                j <= rows_to_insert@.len(),
                rows_to_insert@ == p.inserts,
                inserts_fit(start, p.inserts),
                ({
                    let c = after_inserts(start, p.inserts.subrange(0, j as int));
                    &&& self.index@ == c.index
                    &&& self.instance_data@ == c.rows
                    &&& reusable@ == c.reusable
                    &&& changed_indices@ == c.changed
                    &&& layout_changed == c.layout_changed
                }),
                self.transaction is None,
                self.instance_buffer == old(self).instance_buffer,
                self.group == old(self).group,
            decreases rows_to_insert@.len() - j,
        {
            let e = rows_to_insert[j];
            proof {
                lemma_inserts_fit_prefix(start, p.inserts, j + 1);
                assert(p.inserts.subrange(0, j + 1).drop_last() =~= p.inserts.subrange(0, j as int));
            }
            let (key, d) = e;
            if reusable.len() > 0 {
                let (old_key, idx) = reusable.pop().unwrap();
                self.instance_data.set(idx, d);
                self.index.remove(&old_key);
                self.index.insert(key, idx);
                changed_indices.push(idx);
            } else {
                layout_changed = true;
                self.instance_data.push(d);
                let last = self.instance_data.len() - 1;
                self.index.insert(key, last);
            }
            proof {
                let c = after_inserts(start, p.inserts.subrange(0, j + 1));
                assert(self.index@ =~= c.index);
                assert(reusable@ =~= c.reusable);
            }
            j = j + 1;
        }
        assert(p.inserts.subrange(0, j as int) =~= p.inserts);
        let ghost mid = commit_middle(v, p);

        proof {
            lemma_after_inserts_rows(start, p.inserts);
        }
        let mut rev: HashMap<usize, u128> = HashMap::new();
        if reusable.len() > 0 {
            rev = reverse_lookup(&self.index);
        }
        let ghost chosen = if reusable@.len() > 0 {
            rev@
        } else {
            some_reverse(mid.index)
        };
        proof {
            lemma_some_reverse(mid.index);
        }
        let mut r: usize = 0;
        while r < reusable.len()
            invariant
                r <= reusable@.len(),
                reusable@ == mid.reusable,
                reusable@.len() > 0 ==> rev@ == chosen,
                reverses(chosen, mid.index),
                removals_fit(mid.rows.len(), mid.reusable),
                ({
                    let c = after_removals(mid, mid.reusable.subrange(0, r as int), chosen);
                    &&& self.index@ == c.index
                    &&& self.instance_data@ == c.rows
                    &&& changed_indices@ == c.changed
                    &&& layout_changed == c.layout_changed
                }),
                self.instance_data@.len() == mid.rows.len() - r,
                self.transaction is None,
                self.instance_buffer == old(self).instance_buffer,
                self.group == old(self).group,
            decreases reusable@.len() - r,
        {
            let (key, idx) = reusable[r];
            assert(mid.reusable[r as int].1 + r < mid.rows.len());
            let last = self.instance_data.len() - 1;
            match rev.get(&last) {
                Some(lk) => {
                    self.index.insert(*lk, idx);
                },
                None => {},
            }
            self.index.remove(&key);
            self.instance_data.swap_remove(idx);
            layout_changed = true;
            proof {
                assert(mid.reusable.subrange(0, r + 1).drop_last() =~= mid.reusable.subrange(0, r as int));
                let c = after_removals(mid, mid.reusable.subrange(0, r + 1), chosen);
                assert(self.index@ =~= c.index);
            }
            r = r + 1;
        }
        assert(mid.reusable.subrange(0, r as int) =~= mid.reusable);
        proof {
            lemma_removals_rows(mid, mid.reusable, chosen);
        }
        let plan = if layout_changed || self.instance_buffer.is_none() {
            UploadPlan::Rebuild
        } else if changed_indices.len() > 0 {
            UploadPlan::Ranges(runs(&changed_indices))
        } else {
            UploadPlan::Unchanged
        };
        assert(committed(v, old(self).buffer() is Some, chosen, self@, plan));
        plan
    }
}

/// Whether the index of `v` points each key to a row of its own, and each
/// row belongs to some key.
pub open spec fn index_consistent<M>(v: InstancesView<M>) -> bool {
    &&& forall|k: u128| #[trigger] v.index.contains_key(k) ==> v.index[k] < v.rows.len()
    &&& forall|k1: u128, k2: u128|
        #[trigger] v.index.contains_key(k1) && #[trigger] v.index.contains_key(k2) && k1 != k2 ==> v.index[k1]
            != v.index[k2]
    &&& forall|i: int| 0 <= i < v.rows.len() ==> #[trigger] row_owned(v.index, i)
}

/// Whether some key points to row `i`.
pub open spec fn row_owned(index: Map<u128, usize>, i: int) -> bool {
    exists|k: u128| #[trigger] index.contains_key(k) && index[k] == i
}

/// Recording a change leaves the index alone and keeps the number of rows,
/// so a consistent index stays consistent.
pub proof fn lemma_mutate_keeps_index<M>(v: InstancesView<M>, op: InstanceOps<M>)
    requires
        index_consistent(v),
        op_in_bounds(v, op),
    ensures
        instances_mutated(v, op).index == v.index,
        instances_mutated(v, op).rows.len() == v.rows.len(),
        index_consistent(instances_mutated(v, op)),
{
    let w = instances_mutated(v, op);
    assert(w.index == v.index);
    assert(w.rows.len() == v.rows.len());
    assert forall|i: int| 0 <= i < w.rows.len() implies #[trigger] row_owned(w.index, i) by {
        assert(row_owned(v.index, i));
    }
}

/// Whether no two entries of `s` name the same row.
pub open spec fn distinct_rows(s: Seq<(u128, usize)>) -> bool {
    forall|a: int, b: int| 0 <= a < b < s.len() ==> s[a].1 != s[b].1
}

proof fn lemma_found_removals(removals: Seq<u128>, index: Map<u128, usize>)
    ensures
        forall|j: int|
            0 <= j < found_removals(removals, index).len() ==> {
                let e = #[trigger] found_removals(removals, index)[j];
                &&& index.contains_key(e.0)
                &&& e.1 == index[e.0]
                &&& removals.contains(e.0)
            },
        removals.no_duplicates() ==> forall|a: int, b: int|
            0 <= a < b < found_removals(removals, index).len() ==> found_removals(removals, index)[a].0
                != found_removals(removals, index)[b].0,
    decreases removals.len(),
{
    if removals.len() > 0 {
        let rest = removals.drop_last();
        lemma_found_removals(rest, index);
        let found = found_removals(removals, index);
        let f0 = found_removals(rest, index);
        assert forall|j: int| 0 <= j < f0.len() implies removals.contains(#[trigger] f0[j].0) by {
            let q = choose|q: int| 0 <= q < rest.len() && rest[q] == f0[j].0;
            assert(removals[q] == f0[j].0);
        }
        assert forall|j: int| 0 <= j < found.len() implies {
            let e = #[trigger] found[j];
            &&& index.contains_key(e.0)
            &&& e.1 == index[e.0]
            &&& removals.contains(e.0)
        } by {
            if j == f0.len() {
                assert(removals[removals.len() - 1] == found[j].0);
            } else {
                assert(found[j] == f0[j]);
            }
        }
        if removals.no_duplicates() {
            assert(rest.no_duplicates());
            assert forall|a: int, b: int| 0 <= a < b < found.len() implies found[a].0 != found[b].0 by {
                if b == f0.len() {
                    assert(found[a] == f0[a]);
                    let q = choose|q: int| 0 <= q < rest.len() && rest[q] == f0[a].0;
                    assert(removals[q] == rest[q]);
                } else {
                    assert(found[a] == f0[a] && found[b] == f0[b]);
                }
            }
        }
    }
}

proof fn lemma_insert_descending_props(s: Seq<(u128, usize)>, e: (u128, usize))
    ensures
        insert_descending(s, e).len() == s.len() + 1,
        forall|x: (u128, usize)| #[trigger] insert_descending(s, e).contains(x) <==> (s.contains(x) || x == e),
        descending(s) ==> descending(insert_descending(s, e)),
        distinct_rows(s) && (forall|j: int| 0 <= j < s.len() ==> #[trigger] s[j].1 != e.1) ==> distinct_rows(
            insert_descending(s, e),
        ),
    decreases s.len(),
{
    let r = insert_descending(s, e);
    if s.len() == 0 {
        assert forall|x: (u128, usize)| #[trigger] r.contains(x) <==> (s.contains(x) || x == e) by {
            if r.contains(x) {
                assert(r[0] == e);
            }
            if x == e {
                assert(r[0] == x);
            }
        }
    } else if s.last().1 >= e.1 {
        assert forall|x: (u128, usize)| #[trigger] r.contains(x) <==> (s.contains(x) || x == e) by {
            if r.contains(x) {
                let q = choose|q: int| 0 <= q < r.len() && r[q] == x;
                if q < s.len() {
                    assert(s[q] == x);
                }
            }
            if s.contains(x) {
                let q = choose|q: int| 0 <= q < s.len() && s[q] == x;
                assert(r[q] == x);
            }
            if x == e {
                assert(r[s.len() as int] == x);
            }
        }
        if descending(s) {
            assert forall|i: int, j: int| 0 <= i < j < r.len() implies r[i].1 >= r[j].1 by {
                if j == s.len() {
                    assert(s[i].1 >= s[s.len() - 1].1);
                }
            }
        }
    } else {
        let t = s.drop_last();
        lemma_insert_descending_props(t, e);
        let r0 = insert_descending(t, e);
        assert forall|x: (u128, usize)| #[trigger] r.contains(x) <==> (s.contains(x) || x == e) by {
            if r.contains(x) {
                let q = choose|q: int| 0 <= q < r.len() && r[q] == x;
                if q < r0.len() {
                    assert(r0[q] == x);
                    assert(r0.contains(x));
                    if t.contains(x) {
                        let q2 = choose|q2: int| 0 <= q2 < t.len() && t[q2] == x;
                        assert(s[q2] == x);
                    }
                } else {
                    assert(s[s.len() - 1] == x);
                }
            }
            if s.contains(x) {
                let q = choose|q: int| 0 <= q < s.len() && s[q] == x;
                if q < t.len() {
                    assert(t[q] == x);
                    assert(r0.contains(x));
                    let q2 = choose|q2: int| 0 <= q2 < r0.len() && r0[q2] == x;
                    assert(r[q2] == x);
                } else {
                    assert(r[r0.len() as int] == x);
                }
            }
            if x == e {
                assert(r0.contains(x));
                let q2 = choose|q2: int| 0 <= q2 < r0.len() && r0[q2] == x;
                assert(r[q2] == x);
            }
        }
        if descending(s) {
            assert(descending(t));
            assert forall|i: int, j: int| 0 <= i < j < r.len() implies r[i].1 >= r[j].1 by {
                if j == r0.len() {
                    assert(r[i] == r0[i]);
                    assert(r0.contains(r0[i]));
                    if t.contains(r0[i]) {
                        let q = choose|q: int| 0 <= q < t.len() && t[q] == r0[i];
                        assert(s[q].1 >= s[s.len() - 1].1);
                    }
                } else {
                    assert(r[i] == r0[i] && r[j] == r0[j]);
                }
            }
        }
        if distinct_rows(s) && (forall|j: int| 0 <= j < s.len() ==> #[trigger] s[j].1 != e.1) {
            assert forall|j: int| 0 <= j < t.len() implies #[trigger] t[j].1 != e.1 by {
                assert(s[j].1 != e.1);
            }
            assert(distinct_rows(t));
            assert forall|a: int, b: int| 0 <= a < b < r.len() implies r[a].1 != r[b].1 by {
                if b == r0.len() {
                    assert(r[a] == r0[a]);
                    assert(r0.contains(r0[a]));
                    if t.contains(r0[a]) {
                        let q = choose|q: int| 0 <= q < t.len() && t[q] == r0[a];
                        assert(s[q].1 != s[s.len() - 1].1);
                    } else {
                        assert(s[s.len() - 1].1 != e.1);
                    }
                } else {
                    assert(r[a] == r0[a] && r[b] == r0[b]);
                }
            }
        }
    }
}

proof fn lemma_sorted_descending_props(s: Seq<(u128, usize)>)
    ensures
        sorted_descending(s).len() == s.len(),
        forall|x: (u128, usize)| #[trigger] sorted_descending(s).contains(x) <==> s.contains(x),
        descending(sorted_descending(s)),
        distinct_rows(s) ==> distinct_rows(sorted_descending(s)),
    decreases s.len(),
{
    if s.len() > 0 {
        let t = s.drop_last();
        lemma_sorted_descending_props(t);
        lemma_insert_descending_props(sorted_descending(t), s.last());
        let st = sorted_descending(t);
        assert forall|x: (u128, usize)| #[trigger] sorted_descending(s).contains(x) <==> s.contains(x) by {
            if t.contains(x) {
                let q = choose|q: int| 0 <= q < t.len() && t[q] == x;
                assert(s[q] == x);
            }
            if s.contains(x) {
                let q = choose|q: int| 0 <= q < s.len() && s[q] == x;
                if q < t.len() {
                    assert(t[q] == x);
                }
            }
        }
        if distinct_rows(s) {
            assert(distinct_rows(t));
            assert forall|j: int| 0 <= j < st.len() implies #[trigger] st[j].1 != s.last().1 by {
                assert(st.contains(st[j]));
                let q = choose|q: int| 0 <= q < t.len() && t[q] == st[j];
                assert(s[q].1 != s[s.len() - 1].1);
            }
        }
    }
}

proof fn lemma_inserts_fit_when<M>(c: Commit<M>, inserts: Seq<(u128, InstanceData<M>)>)
    requires
        forall|j: int| 0 <= j < c.reusable.len() ==> #[trigger] c.reusable[j].1 < c.rows.len(),
        c.rows.len() + inserts.len() + 1 < usize::MAX,
    ensures
        inserts_fit(c, inserts),
        after_inserts(c, inserts).rows.len() <= c.rows.len() + inserts.len(),
        after_inserts(c, inserts).reusable.len() > 0 ==> after_inserts(c, inserts).rows.len() == c.rows.len(),
        after_inserts(c, inserts).reusable.len() <= c.reusable.len(),
        after_inserts(c, inserts).reusable == c.reusable.subrange(0, after_inserts(c, inserts).reusable.len() as int),
    decreases inserts.len(),
{
    if inserts.len() > 0 {
        lemma_inserts_fit_when(c, inserts.drop_last());
        let d = after_inserts(c, inserts.drop_last());
        if d.reusable.len() > 0 {
            assert(d.reusable.last() == c.reusable[d.reusable.len() - 1]);
            assert(d.reusable.drop_last() =~= c.reusable.subrange(0, d.reusable.len() - 1));
        }
    } else {
        assert(c.reusable.subrange(0, c.reusable.len() as int) =~= c.reusable);
    }
}

proof fn lemma_strictly_descending_fits(s: Seq<(u128, usize)>, rows: nat)
    requires
        descending(s),
        distinct_rows(s),
        forall|j: int| 0 <= j < s.len() ==> #[trigger] s[j].1 < rows,
    ensures
        removals_fit(rows, s),
    decreases s.len(),
{
    if s.len() > 0 {
        let t = s.drop_last();
        assert forall|i: int, j: int| 0 <= i < j < t.len() implies t[i].1 >= t[j].1 by {
            assert(s[i].1 >= s[j].1);
        }
        assert forall|a: int, b: int| 0 <= a < b < t.len() implies t[a].1 != t[b].1 by {
            assert(s[a].1 != s[b].1);
        }
        lemma_strictly_descending_fits(t, rows);
        if s.len() > 1 {
            let n = s.len() - 1;
            assert(t[n - 1].1 + (n - 1) < rows);
            assert(s[n - 1].1 >= s[n].1 && s[n - 1].1 != s[n].1);
        }
        assert forall|j: int| 0 <= j < s.len() implies s[j].1 + j < rows by {
            if j < t.len() {
                assert(s[j] == t[j]);
            }
        }
    }
}

/// Instances whose index is consistent, whose pending removals name each
/// key at most once, and whose rows and pending inserts fit in `usize`, can
/// always be uploaded.
pub proof fn lemma_consistent_commit_fits<M>(v: InstancesView<M>)
    requires
        index_consistent(v),
        v.pending is Some,
        v.pending->0.removals.no_duplicates(),
        v.rows.len() + v.pending->0.inserts.len() + 1 < usize::MAX,
    ensures
        commit_fits(v),
{
    let p = v.pending->0;
    let found = found_removals(p.removals, v.index);
    lemma_found_removals(p.removals, v.index);
    assert forall|a: int, b: int| 0 <= a < b < found.len() implies found[a].1 != found[b].1 by {
        assert(found[a].0 != found[b].0);
        assert(v.index.contains_key(found[a].0) && v.index.contains_key(found[b].0));
    }
    let sorted = sorted_descending(found);
    lemma_sorted_descending_props(found);
    assert forall|j: int| 0 <= j < sorted.len() implies #[trigger] sorted[j].1 < v.rows.len() by {
        assert(sorted.contains(sorted[j]));
        let q = choose|q: int| 0 <= q < found.len() && found[q] == sorted[j];
        assert(v.index.contains_key(found[q].0));
    }
    let start = commit_start(v, p);
    lemma_inserts_fit_when(start, p.inserts);
    let mid = commit_middle(v, p);
    if mid.reusable.len() > 0 {
        let r = mid.reusable;
        assert forall|i: int, j: int| 0 <= i < j < r.len() implies r[i].1 >= r[j].1 by {
            assert(r[i] == sorted[i] && r[j] == sorted[j]);
        }
        assert forall|a: int, b: int| 0 <= a < b < r.len() implies r[a].1 != r[b].1 by {
            assert(r[a] == sorted[a] && r[b] == sorted[b]);
        }
        assert forall|j: int| 0 <= j < r.len() implies #[trigger] r[j].1 < mid.rows.len() by {
            assert(r[j] == sorted[j]);
        }
        lemma_strictly_descending_fits(r, mid.rows.len());
    }
}

/// The keys of pending inserts.
pub open spec fn inserted_keys<M>(inserts: Seq<(u128, InstanceData<M>)>) -> Seq<u128> {
    inserts.map_values(|e: (u128, InstanceData<M>)| e.0)
}

/// The rows of pending inserts.
pub open spec fn inserted_rows<M>(inserts: Seq<(u128, InstanceData<M>)>) -> Seq<InstanceData<M>> {
    inserts.map_values(|e: (u128, InstanceData<M>)| e.1)
}

proof fn lemma_appending<M>(c: Commit<M>, inserts: Seq<(u128, InstanceData<M>)>)
    requires
        c.reusable.len() == 0,
        c.rows.len() + inserts.len() < usize::MAX,
        inserted_keys(inserts).no_duplicates(),
        forall|j: int| 0 <= j < inserts.len() ==> !c.index.contains_key(#[trigger] inserts[j].0),
    ensures
        after_inserts(c, inserts).reusable.len() == 0,
        after_inserts(c, inserts).rows == c.rows + inserted_rows(inserts),
        forall|k: u128|
            #[trigger] after_inserts(c, inserts).index.contains_key(k) <==> (c.index.contains_key(k)
                || inserted_keys(inserts).contains(k)),
        forall|k: u128| #[trigger] c.index.contains_key(k) ==> after_inserts(c, inserts).index[k] == c.index[k],
        forall|j: int|
            0 <= j < inserts.len() ==> after_inserts(c, inserts).index[#[trigger] inserts[j].0] == c.rows.len() + j,
    decreases inserts.len(),
{
    if inserts.len() > 0 {
        let rest = inserts.drop_last();
        let e = inserts.last();
        let n = inserts.len() - 1;
        assert(inserted_keys(rest) =~= inserted_keys(inserts).drop_last());
        assert forall|j: int| 0 <= j < rest.len() implies !c.index.contains_key(#[trigger] rest[j].0) by {
            assert(rest[j] == inserts[j]);
        }
        lemma_appending(c, rest);
        let d = after_inserts(c, rest);
        assert(d.rows.len() == c.rows.len() + n);
        let f = after_inserts(c, inserts);
        assert(f.rows =~= c.rows + inserted_rows(inserts));
        assert(inserted_keys(inserts) =~= inserted_keys(rest).push(e.0));
        assert forall|k: u128| #[trigger] f.index.contains_key(k) <==> (c.index.contains_key(k) || inserted_keys(inserts).contains(k)) by {
            if inserted_keys(rest).contains(k) {
                let q = choose|q: int| 0 <= q < inserted_keys(rest).len() && inserted_keys(rest)[q] == k;
                assert(inserted_keys(inserts)[q] == k);
            }
            if inserted_keys(inserts).contains(k) && k != e.0 {
                let q = choose|q: int| 0 <= q < inserted_keys(inserts).len() && inserted_keys(inserts)[q] == k;
                assert(inserted_keys(rest)[q] == k);
            }
            if k == e.0 {
                assert(inserted_keys(inserts)[n] == k);
            }
        }
        assert forall|k: u128| #[trigger] c.index.contains_key(k) implies f.index[k] == c.index[k] by {
            assert(!c.index.contains_key(inserts[n].0));
        }
        assert forall|j: int| 0 <= j < inserts.len() implies f.index[#[trigger] inserts[j].0] == c.rows.len() + j by {
            if j < n {
                assert(rest[j] == inserts[j]);
                assert(d.index[rest[j].0] == c.rows.len() + j);
                assert(inserted_keys(inserts)[j] == inserts[j].0);
                assert(inserted_keys(inserts)[n] == inserts[n].0);
                assert(inserted_keys(inserts)[j] != inserted_keys(inserts)[n]);
            }
        }
    } else {
        assert(c.rows + inserted_rows(inserts) =~= c.rows);
    }
}

/// Uploading instances whose index is consistent, whose pending removals
/// name no key that has a row, and whose pending inserts name each key once
/// and only keys without a row: the inserted rows are added at the end in
/// the order of the inserts, each inserted key points to the row of its
/// insert, every other key keeps its row, and the index stays consistent.
pub proof fn lemma_inserts_append<M>(
    v: InstancesView<M>,
    had_buffer: bool,
    rev: Map<usize, u128>,
    after: InstancesView<M>,
    plan: UploadPlan,
)
    requires
        index_consistent(v),
        v.pending is Some,
        forall|j: int|
            0 <= j < v.pending->0.removals.len() ==> !v.index.contains_key(#[trigger] v.pending->0.removals[j]),
        inserted_keys(v.pending->0.inserts).no_duplicates(),
        forall|j: int|
            0 <= j < v.pending->0.inserts.len() ==> !v.index.contains_key(#[trigger] v.pending->0.inserts[j].0),
        v.rows.len() + v.pending->0.inserts.len() + 1 < usize::MAX,
        committed(v, had_buffer, rev, after, plan),
    ensures
        commit_fits(v),
        after.rows == v.rows + inserted_rows(v.pending->0.inserts),
        forall|k: u128| #[trigger] v.index.contains_key(k) ==> after.index.contains_key(k) && after.index[k] == v.index[k],
        forall|j: int|
            0 <= j < v.pending->0.inserts.len() ==> after.index.contains_key(#[trigger] v.pending->0.inserts[j].0)
                && after.index[v.pending->0.inserts[j].0] == v.rows.len() + j,
        forall|k: u128|
            #[trigger] after.index.contains_key(k) ==> v.index.contains_key(k) || inserted_keys(
                v.pending->0.inserts,
            ).contains(k),
        index_consistent(after),
{
    let p = v.pending->0;
    let ins = p.inserts;
    let found = found_removals(p.removals, v.index);
    lemma_found_removals(p.removals, v.index);
    if found.len() > 0 {
        let q = choose|q: int| 0 <= q < p.removals.len() && p.removals[q] == found[0].0;
        assert(!v.index.contains_key(p.removals[q]));
    }
    assert(found.len() == 0);
    assert(sorted_descending(found) == found);
    let start = commit_start(v, p);
    lemma_appending(start, ins);
    lemma_inserts_fit_when(start, ins);
    let mid = commit_middle(v, p);
    assert(after_removals(mid, mid.reusable, rev) == mid);
    let l0 = v.rows.len();
    assert forall|j: int| 0 <= j < ins.len() implies after.index.contains_key(#[trigger] ins[j].0) by {
        assert(inserted_keys(ins)[j] == ins[j].0);
    }
    assert forall|k: u128| #[trigger] after.index.contains_key(k) implies after.index[k] < after.rows.len() by {
        if !v.index.contains_key(k) {
            let q = choose|q: int| 0 <= q < inserted_keys(ins).len() && inserted_keys(ins)[q] == k;
            assert(ins[q].0 == k);
        }
    }
    assert forall|k1: u128, k2: u128|
        #[trigger] after.index.contains_key(k1) && #[trigger] after.index.contains_key(k2) && k1 != k2 implies after.index[k1]
        != after.index[k2] by {
        if !v.index.contains_key(k1) {
            let q1 = choose|q: int| 0 <= q < inserted_keys(ins).len() && inserted_keys(ins)[q] == k1;
            assert(ins[q1].0 == k1);
            if !v.index.contains_key(k2) {
                let q2 = choose|q: int| 0 <= q < inserted_keys(ins).len() && inserted_keys(ins)[q] == k2;
                assert(ins[q2].0 == k2);
            }
        } else if !v.index.contains_key(k2) {
            let q2 = choose|q: int| 0 <= q < inserted_keys(ins).len() && inserted_keys(ins)[q] == k2;
            assert(ins[q2].0 == k2);
        }
    }
    assert forall|i: int| 0 <= i < after.rows.len() implies #[trigger] row_owned(after.index, i) by {
        if i < l0 {
            assert(row_owned(v.index, i));
            let k = choose|k: u128| #[trigger] v.index.contains_key(k) && v.index[k] == i;
            assert(after.index.contains_key(k) && after.index[k] == i);
        } else {
            let k = ins[i - l0].0;
            assert(after.index.contains_key(k) && after.index[k] == i);
        }
    }
}

/// Uploading instances whose index is consistent, after removing one key
/// that has a row (and inserting nothing): the key leaves the index, the
/// last row takes the place of its row, every other key still finds the
/// row it had, and the index stays consistent.
pub proof fn lemma_single_removal<M>(
    v: InstancesView<M>,
    had_buffer: bool,
    rev: Map<usize, u128>,
    after: InstancesView<M>,
    plan: UploadPlan,
)
    requires
        index_consistent(v),
        v.pending is Some,
        v.pending->0.removals.len() == 1,
        v.index.contains_key(v.pending->0.removals[0]),
        v.pending->0.inserts.len() == 0,
        v.rows.len() + 1 < usize::MAX,
        committed(v, had_buffer, rev, after, plan),
    ensures
        commit_fits(v),
        after.rows.len() == v.rows.len() - 1,
        !after.index.contains_key(v.pending->0.removals[0]),
        forall|k: u128|
            k != v.pending->0.removals[0] ==> (#[trigger] after.index.contains_key(k) <==> v.index.contains_key(k)),
        forall|k: u128|
            k != v.pending->0.removals[0] && #[trigger] after.index.contains_key(k) ==> after.rows[after.index[k] as int]
                == v.rows[v.index[k] as int],
        index_consistent(after),
        plan is Rebuild,
{
    let p = v.pending->0;
    let key = p.removals[0];
    let i = v.index[key];
    let found = found_removals(p.removals, v.index);
    assert(p.removals.drop_last() =~= Seq::<u128>::empty());
    assert(found_removals(p.removals.drop_last(), v.index) =~= Seq::<(u128, usize)>::empty());
    assert(found =~= seq![(key, i)]);
    assert(sorted_descending(found) =~= seq![(key, i)]) by {
        assert(sorted_descending(found.drop_last()) =~= Seq::<(u128, usize)>::empty());
    }
    let start = commit_start(v, p);
    let mid = commit_middle(v, p);
    assert(mid == start);
    assert(removals_fit(mid.rows.len(), mid.reusable));
    let l = v.rows.len();
    assert(i < l);
    assert(mid.reusable.drop_last() =~= Seq::<(u128, usize)>::empty());
    let last = (l - 1) as usize;
    assert(row_owned(v.index, last as int));
    let kl = choose|k: u128| #[trigger] v.index.contains_key(k) && v.index[k] == last;
    assert(rev.contains_key(last));
    let kr = rev[last];
    assert(v.index.contains_key(kr) && v.index[kr] == last);
    assert(kr == kl);
    let fin = after_removals(mid, mid.reusable, rev);
    assert(after_removals(mid, mid.reusable.drop_last(), rev) == mid);
    assert(fin == removal_step(mid, (key, i), rev));
    assert(after.index == v.index.insert(kr, i).remove(key));
    assert(after.rows == v.rows.update(i as int, v.rows.last()).drop_last());
    assert forall|k: u128|
        k != key && #[trigger] after.index.contains_key(k) implies after.rows[after.index[k] as int] == v.rows[v.index[k] as int] by {
        if k == kr {
            assert(v.index[kr] != v.index[key]);
            assert(i != last);
            assert(after.index[k] == i);
            assert(after.rows[i as int] == v.rows[last as int]);
        } else {
            assert(v.index[k] != last);
            assert(v.index[k] != i);
            assert(after.index[k] == v.index[k]);
        }
    }
    assert forall|k: u128| #[trigger] after.index.contains_key(k) implies after.index[k] < after.rows.len() by {
        if k != kr {
            assert(v.index[k] != last);
        } else if kr == key {
            assert(false);
        }
    }
    assert forall|k1: u128, k2: u128|
        #[trigger] after.index.contains_key(k1) && #[trigger] after.index.contains_key(k2) && k1 != k2 implies after.index[k1]
        != after.index[k2] by {
        assert(v.index.contains_key(k1) && v.index.contains_key(k2));
        if k1 == kr {
            assert(v.index[k2] != v.index[key]);
        } else if k2 == kr {
            assert(v.index[k1] != v.index[key]);
        }
    }
    assert forall|j: int| 0 <= j < after.rows.len() implies #[trigger] row_owned(after.index, j) by {
        if j == i {
            assert(i < last);
            assert(v.index[kr] != v.index[key]);
            assert(kr != key);
            assert(after.index.contains_key(kr) && after.index[kr] == j);
        } else {
            assert(row_owned(v.index, j));
            let k = choose|k: u128| #[trigger] v.index.contains_key(k) && v.index[k] == j;
            assert(k != key && k != kr);
            assert(after.index.contains_key(k) && after.index[k] == j);
        }
    }
    lemma_consistent_commit_fits(v);
}

} // verus!

//! A value kept on the GPU: changes to it are applied through mutators, and
//! the entity remembers whether it must be uploaded again.

use vstd::prelude::*;

use crate::display_list::{list_mutated, list_op_fits, Answer, DisplayList, DisplayListOps};
use crate::instances::{instances_mutated, op_in_bounds, InstanceOps, Instances};

verus! {

/// How deep mutations may call for further mutations.
pub const MAX_ITERATIONS: i32 = 10;

/// What applying one mutator did.
pub enum GpuUpdateResult<M> {
    Modified,
    NotModified,
    /// Further mutators to apply, and whether this one changed anything.
    AdditionalMutations { modified: bool, mutations: Vec<M> },
}

impl<M> From<bool> for GpuUpdateResult<M> {
    fn from(value: bool) -> (res: Self) {
        if value {
            Self::Modified
        } else {
            Self::NotModified
        }
    }
}

impl<M> vstd::std_specs::convert::FromSpecImpl<bool> for GpuUpdateResult<M> {
    open spec fn obeys_from_spec() -> bool {
        true
    }

    open spec fn from_spec(v: bool) -> Self {
        if v {
            GpuUpdateResult::Modified
        } else {
            GpuUpdateResult::NotModified
        }
    }
}

/// A value that changes through mutators (implemented by the users of
/// `Entity`; uploading to the GPU is their other half).
pub trait GpuUpdate: Sized {
    type Mutator;

    /// What an implementation promises of one call of `mutate`: that `self`
    /// may become `after` and answer `res` when given `mutator`. An
    /// implementation that does not say promises nothing.
    open spec fn mutated(&self, mutator: Self::Mutator, after: Self, res: GpuUpdateResult<Self::Mutator>) -> bool {
        true
    }

    fn mutate(&mut self, mutator: Self::Mutator) -> (res: GpuUpdateResult<Self::Mutator>)
        ensures
            old(self).mutated(mutator, *final(self), res),
    ;
}

/// Applying `mutator` to `before` at nesting depth `depth` may give `after`
/// and the answer `res` (whether anything changed): past `MAX_ITERATIONS`
/// nothing is applied; otherwise one call of `mutate`, then, one level
/// deeper, each further mutator it asks for, in order.
pub open spec fn applied<I: GpuUpdate>(before: I, mutator: I::Mutator, depth: int, after: I, res: bool) -> bool
    decreases (if depth >= MAX_ITERATIONS { 0 } else { MAX_ITERATIONS - depth }), 0int, 0nat,
{
    if depth >= MAX_ITERATIONS {
        after == before && !res
    } else {
        exists|mid: I, answer: GpuUpdateResult<I::Mutator>|
            #![trigger before.mutated(mutator, mid, answer)]
            before.mutated(mutator, mid, answer) && match answer {
                GpuUpdateResult::Modified => after == mid && res,
                GpuUpdateResult::NotModified => after == mid && !res,
                GpuUpdateResult::AdditionalMutations { modified, mutations } => {
                    ||| applied_each(mid, mutations@, depth + 1, after, true) && res
                    ||| applied_each(mid, mutations@, depth + 1, after, false) && res == modified
                },
            }
    }
}

/// A state that a run of mutations passes through (names the states that
/// `applied_each` speaks of).
pub open spec fn passes_through<I>(state: I) -> bool {
    true
}

/// Applying `mutators` one after the other to `before` at depth `depth` may
/// give `after`, and `res` says whether any of them changed anything.
pub open spec fn applied_each<I: GpuUpdate>(before: I, mutators: Seq<I::Mutator>, depth: int, after: I, res: bool) -> bool
    decreases (if depth >= MAX_ITERATIONS { 0 } else { MAX_ITERATIONS - depth }), 1int, mutators.len(),
{
    if mutators.len() == 0 {
        after == before && !res
    } else {
        exists|mid: I|
            #![trigger passes_through(mid)]
            passes_through(mid) && {
                ||| applied_each(before, mutators.drop_last(), depth, mid, false)
                    && applied(mid, mutators.last(), depth, after, res)
                ||| res && applied_each(before, mutators.drop_last(), depth, mid, true) && {
                    ||| applied(mid, mutators.last(), depth, after, true)
                    ||| applied(mid, mutators.last(), depth, after, false)
                }
            }
    }
}

/// A value with a flag that says whether it changed since it was last
/// uploaded.
#[derive(Debug)]
pub struct Entity<I> {
    inner: I,
    modified: bool,
}

impl<I> Entity<I> {
    pub closed spec fn inner(&self) -> I {
        self.inner
    }

    /// Whether the value changed since it was last uploaded.
    pub closed spec fn modified(&self) -> bool {
        self.modified
    }

    /// A new entity, to be uploaded.
    pub fn new(inner: I) -> (res: Self)
        ensures
            res.inner() == inner,
            res.modified(),
    {
        Self { inner, modified: true }
    }

    pub fn get(&self) -> (res: &I)
        ensures
            *res == self.inner(),
    {
        &self.inner
    }

    /// Whether the value changed since it was last uploaded.
    pub fn is_modified(&self) -> (res: bool)
        ensures
            res == self.modified(),
    {
        self.modified
    }

    /// Starts an upload: whether the value must be uploaded; the entity is
    /// then marked as up to date.
    pub fn begin_update(&mut self) -> (res: bool)
        ensures
            res == old(self).modified(),
            !final(self).modified(),
            final(self).inner() == old(self).inner(),
    {
        if self.modified {
            self.modified = false;
            true
        } else {
            false
        }
    }

    /// The value, to upload it.
    pub fn get_mut(&mut self) -> (res: &mut I)
        ensures
            *res == old(self).inner(),
            final(self).inner() == *final(res),
            final(self).modified() == old(self).modified(),
    {
        &mut self.inner
    }
}

impl<I> std::ops::Deref for Entity<I> {
    type Target = I;

    fn deref(&self) -> (res: &I)
        ensures
            *res == self.inner(),
    {
        &self.inner
    }
}

/// A new entity holding `value`, to be uploaded.
pub closed spec fn entity_of<I>(value: I) -> Entity<I> {
    Entity { inner: value, modified: true }
}

/// What `Entity::from` makes of `value`: an entity holding it, to be
/// uploaded.
pub proof fn lemma_entity_of<I>(value: I)
    ensures
        entity_of(value).inner() == value,
        entity_of(value).modified(),
{
}

impl<I> From<I> for Entity<I> {
    fn from(value: I) -> (res: Self) {
        Entity { inner: value, modified: true }
    }
}

impl<I> vstd::std_specs::convert::FromSpecImpl<I> for Entity<I> {
    open spec fn obeys_from_spec() -> bool {
        true
    }

    open spec fn from_spec(v: I) -> Self {
        entity_of(v)
    }
}

impl<M: Copy, B> Entity<Instances<M, B>> {
    /// `mutate` for a group of instances, whose changes always count:
    /// applies `op` and marks the entity for upload.
    pub fn mutate_instances(&mut self, op: InstanceOps<M>) -> (res: bool)
        requires
            op_in_bounds(old(self).inner()@, op),
        ensures
            res,
            final(self).modified(),
            final(self).inner()@ == instances_mutated(old(self).inner()@, op),
            final(self).inner().buffer() == old(self).inner().buffer(),
    {
        self.inner.mutate(op);
        self.modified = true;
        true
    }
}

impl<M: Copy, B> Entity<DisplayList<M, B>> {
    /// `mutate` for a display list: applies `op`, and the move it may call
    /// for; when either changed the list, the entity is marked for upload.
    pub fn mutate_list(&mut self, op: DisplayListOps<M>) -> (res: bool)
        requires
            list_op_fits(old(self).inner()@, op),
        ensures
            ({
                let (w, a) = list_mutated(old(self).inner()@, op);
                match a {
                    Answer::Modified => final(self).inner()@ == w && res,
                    Answer::NotModified => final(self).inner()@ == w && !res,
                    Answer::Again(r) => {
                        let (w2, a2) = list_mutated(w, DisplayListOps::_Reinstantiate(r));
                        &&& final(self).inner()@ == w2
                        &&& res == (a2 is Modified)
                    },
                }
            }),
            final(self).modified() == (old(self).modified() || res),
    {
        let res = match self.inner.mutate(op) {
            GpuUpdateResult::Modified => true,
            GpuUpdateResult::NotModified => false,
            GpuUpdateResult::AdditionalMutations { mut modified, mut mutations } => {
                let m = mutations.remove(0);
                if let GpuUpdateResult::Modified = self.inner.mutate(m) {
                    modified = true;
                }
                modified
            },
        };
        if res {
            self.modified = true;
        }
        res
    }
}

/// One more mutator applied after a run of them extends the run.
proof fn lemma_applied_each_push<I: GpuUpdate>(
    before: I,
    mutators: Seq<I::Mutator>,
    depth: int,
    mid: I,
    first: bool,
    after: I,
    last: bool,
)
    requires
        mutators.len() > 0,
        applied_each(before, mutators.drop_last(), depth, mid, first),
        applied(mid, mutators.last(), depth, after, last),
    ensures
        applied_each(before, mutators, depth, after, first || last),
{
    assert(passes_through(mid));
}

impl<I: GpuUpdate> Entity<I> {
    /// Applies `mutator` and the mutators it calls for, at most
    /// `MAX_ITERATIONS` deep: whether any of them changed the value. A
    /// mutation past that depth is not applied.
    fn mutate_inner(&mut self, mutator: I::Mutator, iteration: i32) -> (res: bool)
        requires
            0 <= iteration,
        ensures
            applied(old(self).inner(), mutator, iteration as int, final(self).inner(), res),
            final(self).modified() == old(self).modified(),
        decreases MAX_ITERATIONS - iteration,
    {
        if iteration >= MAX_ITERATIONS {
            false
        } else {
            let ghost before = self.inner;
            let answer = self.inner.mutate(mutator);
            let ghost mid = self.inner;
            let ghost given = answer;
            match answer {
                GpuUpdateResult::Modified => true,
                GpuUpdateResult::NotModified => false,
                GpuUpdateResult::AdditionalMutations { modified, mut mutations } => {
                    let ghost all = mutations@;
                    let ghost depth = iteration + 1;
                    let ghost mut done: int = 0;
                    let mut changed = false;
                    assert(all.subrange(0, 0) =~= Seq::<I::Mutator>::empty());
                    while mutations.len() > 0
                        invariant
                            0 <= iteration < MAX_ITERATIONS,
                            depth == iteration + 1,
                            0 <= done <= all.len(),
                            mutations@ == all.subrange(done, all.len() as int),
                            self.modified == old(self).modified,
                            applied_each(mid, all.subrange(0, done), depth, self.inner, changed),
                        decreases mutations@.len(),
                    {
                        let ghost here = self.inner;
                        let ghost so_far = changed;
                        assert(done < all.len());
                        let m = mutations.remove(0);
                        let r = self.mutate_inner(m, iteration + 1);
                        proof {
                            let prefix = all.subrange(0, done + 1);
                            assert(prefix.drop_last() =~= all.subrange(0, done));
                            assert(prefix.last() == m);
                            lemma_applied_each_push(mid, prefix, depth, here, so_far, self.inner, r);
                            done = done + 1;
                        }
                        if r {
                            changed = true;
                        }
                        assert(mutations@ =~= all.subrange(done, all.len() as int));
                    }
                    assert(all.subrange(0, done) =~= all);
                    assert(before.mutated(mutator, mid, given));
                    modified || changed
                },
            }
        }
    }

    /// Applies `mutator`; when it changed the value, the entity is marked for
    /// upload.
    pub fn mutate(&mut self, mutator: I::Mutator) -> (res: bool)
        ensures
            applied(old(self).inner(), mutator, 0, final(self).inner(), res),
            final(self).modified() == (old(self).modified() || res),
    {
        if self.mutate_inner(mutator, 0) {
            self.modified = true;
            true
        } else {
            false
        }
    }

    /// Applies each of `mutators` in turn; when any changed the value, the
    /// entity is marked for upload.
    pub fn mutate_all(&mut self, mutators: Vec<I::Mutator>) -> (res: bool)
        ensures
            applied_each(old(self).inner(), mutators@, 0, final(self).inner(), res),
            final(self).modified() == (old(self).modified() || res),
    {
        let mut modified = false;
        let mut mutators = mutators;
        let ghost all = mutators@;
        let ghost start = self.inner;
        let ghost mut done: int = 0;
        assert(all.subrange(0, 0) =~= Seq::<I::Mutator>::empty());
        while mutators.len() > 0
            invariant
                0 <= done <= all.len(),
                mutators@ == all.subrange(done, all.len() as int),
                self.modified == old(self).modified,
                applied_each(start, all.subrange(0, done), 0, self.inner, modified),
            decreases mutators@.len(),
        {
            let ghost here = self.inner;
            let ghost acc = modified;
            assert(done < all.len());
            let m = mutators.remove(0);
            let r = self.mutate_inner(m, 0);
            proof {
                let prefix = all.subrange(0, done + 1);
                assert(prefix.drop_last() =~= all.subrange(0, done));
                assert(prefix.last() == m);
                lemma_applied_each_push(start, prefix, 0, here, acc, self.inner, r);
                done = done + 1;
            }
            if r {
                modified = true;
            }
            assert(mutators@ =~= all.subrange(done, all.len() as int));
        }
        assert(all.subrange(0, done) =~= all);
        if modified {
            self.modified = true;
        }
        modified
    }
}

} // verus!

//! The part library: where a file was found, the cache of parsed parts, and
//! the result of resolving a model's dependencies.

use std::sync::Arc;
use vstd::prelude::*;

use crate::document::{add_dependency, distinct_aliases, distinct_names, subpart_index, Document, MultipartDocument};
use crate::elements::Command;
use crate::error::ResolutionError;
use crate::PartAlias;

verus! {

/// A library file is a part or a primitive.
#[derive(Clone, Copy, Debug, Hash)]
pub enum PartKind {
    Primitive,
    Part,
}

/// Where a referenced file was found.
#[derive(Clone, Copy, Debug, Hash)]
pub enum FileLocation {
    Library(PartKind),
    Local,
}

/// Which entries of the cache a collection looks at.
#[derive(Copy, Clone, Debug)]
pub enum CacheCollectionStrategy {
    Parts,
    Primitives,
    PartsAndPrimitives,
}

// ---------------------------------------------------------------------------
// Entries keyed by part name
// ---------------------------------------------------------------------------

/// The index of the entry whose name has the canonical form `n`, if any.
pub open spec fn key_index<V>(entries: Seq<(PartAlias, V)>, n: Seq<char>) -> Option<int> {
    if exists|j: int| 0 <= j < entries.len() && entries[j].0.normalized@ == n {
        Some(choose|j: int| 0 <= j < entries.len() && entries[j].0.normalized@ == n)
    } else {
        None
    }
}

/// No two entries share a canonical name.
pub open spec fn distinct_keys<V>(entries: Seq<(PartAlias, V)>) -> bool {
    forall|i: int, j: int|
        0 <= i < j < entries.len() ==> (#[trigger] entries[i]).0.normalized@ != (#[trigger] entries[j]).0.normalized@
}

/// `entries` with `v` stored under `alias`: an entry of the same canonical
/// name keeps its name and takes `v` (as a hash map's `insert` does);
/// otherwise a new entry is added.
pub open spec fn keyed_insert<V>(entries: Seq<(PartAlias, V)>, alias: PartAlias, v: V) -> Seq<(PartAlias, V)> {
    match key_index(entries, alias.normalized@) {
        Some(j) => entries.update(j, (entries[j].0, v)),
        None => entries.push((alias, v)),
    }
}

/// The value stored under the canonical name of `alias`.
pub open spec fn keyed_get<V>(entries: Seq<(PartAlias, V)>, alias: PartAlias) -> Option<V> {
    match key_index(entries, alias.normalized@) {
        Some(j) => Some(entries[j].1),
        None => None,
    }
}

proof fn lemma_key_index_found<V>(entries: Seq<(PartAlias, V)>, n: Seq<char>, j: int)
    requires
        distinct_keys(entries),
        0 <= j < entries.len(),
        entries[j].0.normalized@ == n,
    ensures
        key_index(entries, n) == Some(j),
{
    let c = choose|c: int| 0 <= c < entries.len() && entries[c].0.normalized@ == n;
    if c != j {
        if c < j {
            assert(entries[c].0.normalized@ != entries[j].0.normalized@);
        } else {
            assert(entries[j].0.normalized@ != entries[c].0.normalized@);
        }
    }
}

pub(crate) fn find_key<V>(entries: &Vec<(PartAlias, V)>, alias: &PartAlias) -> (r: Option<usize>)
    requires
        distinct_keys(entries@),
    ensures
        match r {
            Some(j) => key_index(entries@, alias.normalized@) == Some(j as int) && j < entries@.len(),
            None => key_index(entries@, alias.normalized@) is None,
        },
{
    let mut j: usize = 0;
    while j < entries.len()
        invariant
            j <= entries@.len(),
            distinct_keys(entries@),
            forall|k: int| 0 <= k < j ==> entries@[k].0.normalized@ != alias.normalized@,
        decreases entries@.len() - j,
    {
        if crate::text::str_eq(entries[j].0.normalized.as_str(), alias.normalized.as_str()) {
            proof {
                lemma_key_index_found(entries@, alias.normalized@, j as int);
            }
            return Some(j);
        }
        j = j + 1;
    }
    None
}

pub(crate) fn store<V>(entries: &mut Vec<(PartAlias, V)>, alias: PartAlias, v: V)
    requires
        distinct_keys(old(entries)@),
    ensures
        final(entries)@ == keyed_insert(old(entries)@, alias, v),
        distinct_keys(final(entries)@),
{
    match find_key(entries, &alias) {
        Some(j) => {
            let ghost target = entries@.update(j as int, (entries@[j as int].0, v));
            let (k, _) = entries.remove(j);
            entries.insert(j, (k, v));
            assert(entries@ =~= target);
        },
        None => {
            entries.push((alias, v));
            assert forall|i: int, j: int| 0 <= i < j < entries@.len() implies (#[trigger] entries@[i]).0.normalized@ != (#[trigger] entries@[j]).0.normalized@ by {
                if j == entries@.len() - 1 {
                    assert(entries@[i] == old(entries)@[i]);
                } else {
                    assert(entries@[i] == old(entries)@[i]);
                    assert(entries@[j] == old(entries)@[j]);
                }
            }
        },
    }
}

/// `Arc::clone`: another handle to the same value.
#[verifier::external_body]
pub(crate) fn share<T>(a: &Arc<T>) -> (r: Arc<T>)
    ensures
        r == *a,
{
    Arc::clone(a)
}

/// `Arc::strong_count`: how many strong handles the value has now. It
/// depends on the rest of the program; what is promised is only that `a`
/// itself is one of them.
#[verifier::external_body]
fn strong_count<T>(a: &Arc<T>) -> (r: usize)
    ensures
        r >= 1,
{
    Arc::strong_count(a)
}

/// `Arc::weak_count`: how many weak handles the value has now (nothing is
/// promised).
#[verifier::external_body]
fn weak_count<T>(a: &Arc<T>) -> usize {
    Arc::weak_count(a)
}

/// The entries of `entries` whose flag holds, in order.
pub open spec fn kept<V>(entries: Seq<(PartAlias, V)>, flags: Seq<bool>) -> Seq<(PartAlias, V)>
    decreases entries.len(),
{
    if entries.len() == 0 || flags.len() == 0 {
        Seq::empty()
    } else {
        let rest = kept(entries.drop_last(), flags.drop_last());
        if flags.last() {
            rest.push(entries.last())
        } else {
            rest
        }
    }
}

proof fn lemma_kept_distinct<V>(entries: Seq<(PartAlias, V)>, flags: Seq<bool>)
    requires
        distinct_keys(entries),
        flags.len() == entries.len(),
    ensures
        distinct_keys(kept(entries, flags)),
        kept(entries, flags).len() <= entries.len(),
        forall|x: (PartAlias, V)| #[trigger] kept(entries, flags).contains(x) ==> entries.contains(x),
    decreases entries.len(),
{
    if entries.len() > 0 {
        let e = entries.drop_last();
        let f = flags.drop_last();
        assert(distinct_keys(e)) by {
            assert forall|i: int, j: int| 0 <= i < j < e.len() implies (#[trigger] e[i]).0.normalized@ != (#[trigger] e[j]).0.normalized@ by {
                assert(e[i] == entries[i] && e[j] == entries[j]);
            }
        }
        lemma_kept_distinct(e, f);
        let r = kept(e, f);
        assert forall|x: (PartAlias, V)| e.contains(x) implies entries.contains(x) by {
            let j = choose|j: int| 0 <= j < e.len() && e[j] == x;
            assert(entries[j] == x);
        }
        if flags.last() {
            let k = r.push(entries.last());
            assert(kept(entries, flags) == k);
            assert forall|x: (PartAlias, V)| #[trigger] k.contains(x) implies entries.contains(x) by {
                let i = choose|i: int| 0 <= i < k.len() && k[i] == x;
                if i < r.len() {
                    assert(r.contains(x));
                } else {
                    assert(entries[entries.len() - 1] == x);
                }
            }
            assert forall|i: int, j: int| 0 <= i < j < k.len() implies (#[trigger] k[i]).0.normalized@ != (#[trigger] k[j]).0.normalized@ by {
                if j == k.len() - 1 {
                    assert(r.contains(r[i]));
                    let m = choose|m: int| 0 <= m < e.len() && e[m] == r[i];
                    assert(entries[m] == r[i]);
                    assert(entries[m].0.normalized@ != entries[entries.len() - 1].0.normalized@);
                } else {
                    assert(k[i] == r[i] && k[j] == r[j]);
                }
            }
        } else {
            assert(kept(entries, flags) == r);
        }
    }
}

/// The flags that keep, of `entries`, what filtering first by `first` and
/// then, among what stayed, by `second` keeps.
pub open spec fn composed(first: Seq<bool>, second: Seq<bool>) -> Seq<bool>
    decreases first.len(),
{
    if first.len() == 0 {
        Seq::empty()
    } else if first.last() {
        composed(first.drop_last(), second.drop_last()).push(second.last())
    } else {
        composed(first.drop_last(), second).push(false)
    }
}

/// Two filters in a row are one filter.
proof fn lemma_kept_twice<V>(entries: Seq<(PartAlias, V)>, first: Seq<bool>, second: Seq<bool>)
    requires
        first.len() == entries.len(),
        second.len() == kept(entries, first).len(),
    ensures
        composed(first, second).len() == entries.len(),
        kept(kept(entries, first), second) == kept(entries, composed(first, second)),
    decreases entries.len(),
{
    if entries.len() > 0 {
        let e = entries.drop_last();
        let f = first.drop_last();
        let k = kept(e, f);
        if first.last() {
            assert(kept(entries, first) == k.push(entries.last()));
            lemma_kept_twice(e, f, second.drop_last());
            assert(k.push(entries.last()).drop_last() =~= k);
        } else {
            assert(kept(entries, first) == k);
            lemma_kept_twice(e, f, second);
        }
        assert(composed(first, second).drop_last() =~= composed(f, if first.last() { second.drop_last() } else { second }));
    }
}

/// A filter that keeps as many entries as there were keeps them all.
proof fn lemma_kept_full<V>(entries: Seq<(PartAlias, V)>, flags: Seq<bool>)
    requires
        flags.len() == entries.len(),
        kept(entries, flags).len() == entries.len(),
    ensures
        kept(entries, flags) == entries,
    decreases entries.len(),
{
    if entries.len() > 0 {
        let e = entries.drop_last();
        let f = flags.drop_last();
        lemma_kept_length(e, f);
        lemma_kept_full(e, f);
        assert(e.push(entries.last()) =~= entries);
    }
}

/// A filter keeps no more entries than there were.
proof fn lemma_kept_length<V>(entries: Seq<(PartAlias, V)>, flags: Seq<bool>)
    ensures
        kept(entries, flags).len() <= entries.len(),
    decreases entries.len(),
{
    if entries.len() > 0 {
        lemma_kept_length(entries.drop_last(), flags.drop_last());
    }
}

/// Flags that all hold keep everything.
proof fn lemma_kept_all<V>(entries: Seq<(PartAlias, V)>)
    ensures
        kept(entries, Seq::new(entries.len(), |i: int| true)) == entries,
    decreases entries.len(),
{
    if entries.len() > 0 {
        let e = entries.drop_last();
        assert(Seq::new(entries.len(), |i: int| true).drop_last() =~= Seq::new(e.len(), |i: int| true));
        lemma_kept_all(e);
        assert(e.push(entries.last()) =~= entries);
    }
}

/// Keeps the entries whose flag holds.
fn retain_flagged<V>(entries: &mut Vec<(PartAlias, V)>, flags: &Vec<bool>)
    requires
        flags@.len() == old(entries)@.len(),
    ensures
        final(entries)@ == kept(old(entries)@, flags@),
{
    let mut all: Vec<(PartAlias, V)> = Vec::new();
    std::mem::swap(&mut all, entries);
    let ghost entries_before = all@;
    let n: usize = all.len();
    let mut i: usize = 0;
    assert(all@.subrange(0, 0) =~= Seq::<(PartAlias, V)>::empty());
    while all.len() > 0
        invariant
            i + all@.len() == entries_before.len(),
            entries_before.len() == n,
            flags@.len() == entries_before.len(),
            all@ == entries_before.subrange(i as int, entries_before.len() as int),
            entries@ == kept(entries_before.subrange(0, i as int), flags@.subrange(0, i as int)),
        decreases all@.len(),
    {
        let e = all.remove(0);
        let ghost prefix = entries_before.subrange(0, i + 1);
        assert(prefix.drop_last() =~= entries_before.subrange(0, i as int));
        assert(flags@.subrange(0, i + 1).drop_last() =~= flags@.subrange(0, i as int));
        assert(prefix.last() == e);
        if flags[i] {
            entries.push(e);
        }
        i = i + 1;
        assert(all@ =~= entries_before.subrange(i as int, entries_before.len() as int));
    }
    assert(entries_before.subrange(0, i as int) =~= entries_before);
    assert(flags@.subrange(0, i as int) =~= flags@);
}

/// Whether a document with `counts` (its strong handles, its weak handles)
/// is held somewhere besides the cache: another strong handle, or any weak
/// one.
pub open spec fn held_elsewhere(counts: (usize, usize)) -> bool {
    counts.0 > 1 || counts.1 > 0
}

/// `held_elsewhere` of each pair of `counts`.
pub open spec fn held_flags(counts: Seq<(usize, usize)>) -> Seq<bool> {
    counts.map_values(|c: (usize, usize)| held_elsewhere(c))
}

/// For each pair of handle counts, whether its document is held elsewhere.
pub fn in_use_flags(counts: &Vec<(usize, usize)>) -> (flags: Vec<bool>)
    ensures
        flags@ == held_flags(counts@),
{
    let mut flags: Vec<bool> = Vec::new();
    let mut i: usize = 0;
    while i < counts.len()
        invariant
            i <= counts@.len(),
            flags@ == held_flags(counts@.subrange(0, i as int)),
        decreases counts@.len() - i,
    {
        let (strong, weak) = counts[i];
        flags.push(strong > 1 || weak > 0);
        i = i + 1;
        assert(flags@ =~= held_flags(counts@.subrange(0, i as int)));
    }
    assert(counts@.subrange(0, i as int) =~= counts@);
    flags
}

/// The handle counts (strong, weak) of each entry's document, as they stand
/// now.
fn reference_counts(entries: &Vec<(PartAlias, Arc<MultipartDocument>)>) -> (counts: Vec<(usize, usize)>)
    ensures
        counts@.len() == entries@.len(),
        forall|i: int| 0 <= i < counts@.len() ==> (#[trigger] counts@[i]).0 >= 1,
{
    let mut counts: Vec<(usize, usize)> = Vec::new();
    let mut i: usize = 0;
    while i < entries.len()
        invariant
            i <= entries@.len(),
            counts@.len() == i,
            forall|j: int| 0 <= j < counts@.len() ==> (#[trigger] counts@[j]).0 >= 1,
        decreases entries@.len() - i,
    {
        let doc = &entries[i].1;
        counts.push((strong_count(doc), weak_count(doc)));
        i = i + 1;
    }
    counts
}

// ---------------------------------------------------------------------------
// The cache of parsed library files
// ---------------------------------------------------------------------------

/// Parsed parts and primitives of the library, by name.
#[derive(Debug)]
pub struct PartCache {
    primitives: Vec<(PartAlias, Arc<MultipartDocument>)>,
    parts: Vec<(PartAlias, Arc<MultipartDocument>)>,
}

impl PartCache {
    pub closed spec fn primitives(&self) -> Seq<(PartAlias, Arc<MultipartDocument>)> {
        self.primitives@
    }

    pub closed spec fn parts(&self) -> Seq<(PartAlias, Arc<MultipartDocument>)> {
        self.parts@
    }

    /// No name is cached twice among the parts, nor among the primitives.
    #[verifier::type_invariant]
    spec fn distinct(&self) -> bool {
        distinct_keys(self.parts@) && distinct_keys(self.primitives@)
    }

    /// The document that a query for `alias` finds: a part before a
    /// primitive.
    pub open spec fn lookup(&self, alias: PartAlias) -> Option<Arc<MultipartDocument>> {
        match keyed_get(self.parts(), alias) {
            Some(d) => Some(d),
            None => keyed_get(self.primitives(), alias),
        }
    }

    /// `self` is `before` with `document` stored under `alias` among the
    /// parts or the primitives.
    pub open spec fn registered(&self, before: Self, kind: PartKind, alias: PartAlias, document: Arc<MultipartDocument>) -> bool {
        match kind {
            PartKind::Part => self.parts() == keyed_insert(before.parts(), alias, document)
                && self.primitives() == before.primitives(),
            PartKind::Primitive => self.primitives() == keyed_insert(before.primitives(), alias, document)
                && self.parts() == before.parts(),
        }
    }

    /// An empty cache (what `Default` gives).
    pub fn new() -> (res: Self)
        ensures
            res.parts().len() == 0,
            res.primitives().len() == 0,
    {
        PartCache { primitives: Vec::new(), parts: Vec::new() }
    }

    /// Caches `document` under `alias` among the parts or the primitives; an
    /// entry of the same name is replaced.
    pub fn register(&mut self, kind: PartKind, alias: PartAlias, document: Arc<MultipartDocument>)
        ensures
            final(self).registered(*old(self), kind, alias, document),
            old(self).wf(),
            final(self).wf(),
    {
        proof {
            use_type_invariant(&*self);
        }
        match kind {
            PartKind::Part => {
                let mut parts = Vec::new();
                std::mem::swap(&mut parts, &mut self.parts);
                store(&mut parts, alias, document);
                self.parts = parts;
            },
            PartKind::Primitive => {
                let mut primitives = Vec::new();
                std::mem::swap(&mut primitives, &mut self.primitives);
                store(&mut primitives, alias, document);
                self.primitives = primitives;
            },
        };
        proof {
            use_type_invariant(&*self);
        }
    }

    /// The cached document named like `alias`: a part before a primitive.
    pub fn query(&self, alias: &PartAlias) -> (res: Option<Arc<MultipartDocument>>)
        ensures
            res == self.lookup(*alias),
            self.wf(),
    {
        proof {
            use_type_invariant(self);
        }
        match find_key(&self.parts, alias) {
            Some(j) => Some(share(&self.parts[j].1)),
            None => match find_key(&self.primitives, alias) {
                Some(j) => Some(share(&self.primitives[j].1)),
                None => None,
            },
        }
    }

    /// What a collection may do to the cache: keep a selection of the
    /// entries it looks at, and leave the others alone.
    pub open spec fn collected_from(&self, before: &Self, collection_strategy: CacheCollectionStrategy) -> bool {
        &&& self.parts().len() <= before.parts().len()
        &&& self.primitives().len() <= before.primitives().len()
        &&& forall|x: (PartAlias, Arc<MultipartDocument>)| #[trigger] self.parts().contains(x) ==> before.parts().contains(x)
        &&& forall|x: (PartAlias, Arc<MultipartDocument>)| #[trigger] self.primitives().contains(x) ==> before.primitives().contains(x)
        &&& collection_strategy is Parts ==> self.primitives() == before.primitives()
        &&& collection_strategy is Primitives ==> self.parts() == before.parts()
    }

    /// `self` is `before` filtered by `part_flags` among the parts and by
    /// `primitive_flags` among the primitives, each list only where
    /// `collection_strategy` selects it; the order of what stays is kept.
    pub open spec fn filtered_from(
        &self,
        before: &Self,
        collection_strategy: CacheCollectionStrategy,
        part_flags: Seq<bool>,
        primitive_flags: Seq<bool>,
    ) -> bool {
        &&& part_flags.len() == before.parts().len()
        &&& primitive_flags.len() == before.primitives().len()
        &&& self.parts() == if collection_strategy is Primitives {
            before.parts()
        } else {
            kept(before.parts(), part_flags)
        }
        &&& self.primitives() == if collection_strategy is Parts {
            before.primitives()
        } else {
            kept(before.primitives(), primitive_flags)
        }
    }

    /// Drops the selected entries whose document, by `part_counts` and
    /// `primitive_counts` (the handle counts of each entry, in order), is held
    /// nowhere else; how many were dropped.
    pub fn drop_unheld(
        &mut self,
        collection_strategy: CacheCollectionStrategy,
        part_counts: &Vec<(usize, usize)>,
        primitive_counts: &Vec<(usize, usize)>,
    ) -> (res: usize)
        requires
            part_counts@.len() == old(self).parts().len(),
            primitive_counts@.len() == old(self).primitives().len(),
            old(self).parts().len() + old(self).primitives().len() <= usize::MAX,
        ensures
            final(self).filtered_from(old(self), collection_strategy, held_flags(part_counts@), held_flags(primitive_counts@)),
            final(self).collected_from(old(self), collection_strategy),
            res == old(self).parts().len() + old(self).primitives().len() - final(self).parts().len() - final(self).primitives().len(),
    {
        proof {
            use_type_invariant(&*self);
        }
        let prev_size = self.parts.len() + self.primitives.len();
        let (collect_parts, collect_primitives) = match collection_strategy {
            CacheCollectionStrategy::Parts => (true, false),
            CacheCollectionStrategy::Primitives => (false, true),
            CacheCollectionStrategy::PartsAndPrimitives => (true, true),
        };
        if collect_parts {
            let mut parts = Vec::new();
            std::mem::swap(&mut parts, &mut self.parts);
            let ghost old_parts = parts@;
            let part_flags = in_use_flags(part_counts);
            retain_flagged(&mut parts, &part_flags);
            proof {
                lemma_kept_distinct(old_parts, part_flags@);
            }
            self.parts = parts;
        }
        if collect_primitives {
            let mut primitives = Vec::new();
            std::mem::swap(&mut primitives, &mut self.primitives);
            let ghost old_primitives = primitives@;
            let primitive_flags = in_use_flags(primitive_counts);
            retain_flagged(&mut primitives, &primitive_flags);
            proof {
                lemma_kept_distinct(old_primitives, primitive_flags@);
            }
            self.primitives = primitives;
        }
        prev_size - self.parts.len() - self.primitives.len()
    }

    /// One round of collection: reads the handle counts of every cached
    /// document and drops the selected entries held nowhere else; how many
    /// were dropped. The counts depend on the rest of the program: the
    /// contract says what is done with whatever counts were read.
    fn collect_round(&mut self, collection_strategy: CacheCollectionStrategy) -> (res: usize)
        requires
            old(self).parts().len() + old(self).primitives().len() <= usize::MAX,
        ensures
            final(self).collected_from(old(self), collection_strategy),
            exists|part_counts: Seq<(usize, usize)>, primitive_counts: Seq<(usize, usize)>|
                final(self).filtered_from(old(self), collection_strategy, held_flags(part_counts), held_flags(primitive_counts)),
            res == old(self).parts().len() + old(self).primitives().len() - final(self).parts().len() - final(self).primitives().len(),
    {
        let part_counts = reference_counts(&self.parts);
        let primitive_counts = reference_counts(&self.primitives);
        self.drop_unheld(collection_strategy, &part_counts, &primitive_counts)
    }

    /// Drops, round after round until a round drops nothing, the selected
    /// entries whose document is held nowhere else; how many were dropped.
    /// What stays is a filter of what was there, in its order, and the last
    /// reading of the handle counts found every selected entry that stays
    /// held elsewhere. The counts depend on the rest of the program.
    pub fn collect(&mut self, collection_strategy: CacheCollectionStrategy) -> (res: usize)
        requires
            old(self).parts().len() + old(self).primitives().len() <= usize::MAX,
        ensures
            final(self).collected_from(old(self), collection_strategy),
            exists|part_flags: Seq<bool>, primitive_flags: Seq<bool>|
                final(self).filtered_from(old(self), collection_strategy, part_flags, primitive_flags),
            exists|part_counts: Seq<(usize, usize)>, primitive_counts: Seq<(usize, usize)>|
                final(self).filtered_from(final(self), collection_strategy, held_flags(part_counts), held_flags(primitive_counts)),
            res == old(self).parts().len() + old(self).primitives().len() - final(self).parts().len() - final(self).primitives().len(),
    {
        let mut total_collected: usize = 0;
        let ghost mut part_flags: Seq<bool> = Seq::new(self.parts().len(), |i: int| true);
        let ghost mut primitive_flags: Seq<bool> = Seq::new(self.primitives().len(), |i: int| true);
        proof {
            lemma_kept_all(self.parts());
            lemma_kept_all(self.primitives());
        }
        loop
            invariant
                old(self).parts().len() + old(self).primitives().len() <= usize::MAX,
                self.collected_from(old(self), collection_strategy),
                self.filtered_from(old(self), collection_strategy, part_flags, primitive_flags),
                total_collected == old(self).parts().len() + old(self).primitives().len() - self.parts().len() - self.primitives().len(),
            ensures
                exists|part_counts: Seq<(usize, usize)>, primitive_counts: Seq<(usize, usize)>|
                    self.filtered_from(self, collection_strategy, held_flags(part_counts), held_flags(primitive_counts)),
            decreases self.parts().len() + self.primitives().len(),
        {
            let ghost here = *self;
            let collected = self.collect_round(collection_strategy);
            proof {
                let (pc, qc) = choose|pc: Seq<(usize, usize)>, qc: Seq<(usize, usize)>|
                    self.filtered_from(&here, collection_strategy, held_flags(pc), held_flags(qc));
                let pf = held_flags(pc);
                let qf = held_flags(qc);
                if !(collection_strategy is Primitives) {
                    lemma_kept_twice(old(self).parts(), part_flags, pf);
                    part_flags = composed(part_flags, pf);
                }
                if !(collection_strategy is Parts) {
                    lemma_kept_twice(old(self).primitives(), primitive_flags, qf);
                    primitive_flags = composed(primitive_flags, qf);
                }
                if collected == 0 {
                    if !(collection_strategy is Primitives) {
                        lemma_kept_length(here.parts(), pf);
                        lemma_kept_full(here.parts(), pf);
                    }
                    if !(collection_strategy is Parts) {
                        lemma_kept_length(here.primitives(), qf);
                        lemma_kept_full(here.primitives(), qf);
                    }
                    assert(self.filtered_from(self, collection_strategy, held_flags(pc), held_flags(qc)));
                }
            }
            if collected == 0 {
                break ;
            }
            total_collected = total_collected + collected;
        }
        total_collected
    }
}

/// Documents found beside the model rather than in the library, by name.
#[derive(Debug)]
pub struct TransientDocumentCache {
    documents: Vec<(PartAlias, Arc<MultipartDocument>)>,
}

impl TransientDocumentCache {
    pub closed spec fn documents(&self) -> Seq<(PartAlias, Arc<MultipartDocument>)> {
        self.documents@
    }

    /// No name is held twice.
    #[verifier::type_invariant]
    spec fn distinct(&self) -> bool {
        distinct_keys(self.documents@)
    }

    /// An empty cache (what `Default` gives).
    pub fn new() -> (res: Self)
        ensures
            res.documents().len() == 0,
    {
        TransientDocumentCache { documents: Vec::new() }
    }

    /// Holds `document` under `alias`; an entry of the same name is replaced.
    pub fn register(&mut self, alias: PartAlias, document: Arc<MultipartDocument>)
        ensures
            final(self).documents() == keyed_insert(old(self).documents(), alias, document),
    {
        proof {
            use_type_invariant(&*self);
        }
        let mut documents = Vec::new();
        std::mem::swap(&mut documents, &mut self.documents);
        store(&mut documents, alias, document);
        self.documents = documents;
    }

    /// The document held under the name of `alias`.
    pub fn query(&self, alias: &PartAlias) -> (res: Option<Arc<MultipartDocument>>)
        ensures
            res == keyed_get(self.documents(), *alias),
    {
        proof {
            use_type_invariant(self);
        }
        match find_key(&self.documents, alias) {
            Some(j) => Some(share(&self.documents[j].1)),
            None => None,
        }
    }
}


} // verus!

verus! {

// ---------------------------------------------------------------------------
// Resolving the dependencies of a model
// ---------------------------------------------------------------------------

/// What is known of a referenced file while a model's dependencies are
/// resolved.
#[derive(Clone, Debug)]
pub enum ResolutionState<'a> {
    Missing,
    Subpart(&'a Document),
    Associated(Arc<MultipartDocument>),
}

/// The library documents and the local documents that a resolution found,
/// by name.
#[derive(Debug)]
pub struct ResolutionResult {
    library_entries: Vec<(PartAlias, Arc<MultipartDocument>)>,
    local_entries: Vec<(PartAlias, Arc<MultipartDocument>)>,
}

impl ResolutionResult {
    pub closed spec fn library_entries(&self) -> Seq<(PartAlias, Arc<MultipartDocument>)> {
        self.library_entries@
    }

    pub closed spec fn local_entries(&self) -> Seq<(PartAlias, Arc<MultipartDocument>)> {
        self.local_entries@
    }

    #[verifier::type_invariant]
    spec fn distinct(&self) -> bool {
        distinct_keys(self.library_entries@) && distinct_keys(self.local_entries@)
    }

    /// A result that found nothing (what `Default` gives).
    pub fn new() -> (res: Self)
        ensures
            res.library_entries().len() == 0,
            res.local_entries().len() == 0,
    {
        ResolutionResult { library_entries: Vec::new(), local_entries: Vec::new() }
    }

    /// The document found for `alias`, and whether it is a local one: with
    /// `local`, a local document comes before a library one.
    pub fn query(&self, alias: &PartAlias, local: bool) -> (res: Option<(Arc<MultipartDocument>, bool)>)
        ensures
            res == (if local && keyed_get(self.local_entries(), *alias) is Some {
                Some((keyed_get(self.local_entries(), *alias)->Some_0, true))
            } else {
                match keyed_get(self.library_entries(), *alias) {
                    Some(d) => Some((d, false)),
                    None => None,
                }
            }),
    {
        proof {
            use_type_invariant(self);
        }
        if local {
            if let Some(j) = find_key(&self.local_entries, alias) {
                return Some((share(&self.local_entries[j].1), true));
            }
        }
        match find_key(&self.library_entries, alias) {
            Some(j) => Some((share(&self.library_entries[j].1), false)),
            None => None,
        }
    }
}

/// The entries of `states` that hold a document, with that document, in
/// order.
pub open spec fn associated<'a>(states: Seq<(PartAlias, ResolutionState<'a>)>) -> Seq<(PartAlias, Arc<MultipartDocument>)>
    decreases states.len(),
{
    if states.len() == 0 {
        Seq::empty()
    } else {
        let rest = associated(states.drop_last());
        match states.last().1 {
            ResolutionState::Associated(d) => rest.push((states.last().0, d)),
            _ => rest,
        }
    }
}

proof fn lemma_associated<'a>(states: Seq<(PartAlias, ResolutionState<'a>)>)
    requires
        distinct_keys(states),
    ensures
        distinct_keys(associated(states)),
        forall|i: int| 0 <= i < associated(states).len() ==> exists|j: int| 0 <= j < states.len() && (#[trigger] associated(states)[i]).0 == states[j].0,
    decreases states.len(),
{
    if states.len() > 0 {
        let e = states.drop_last();
        assert(distinct_keys(e)) by {
            assert forall|i: int, j: int| 0 <= i < j < e.len() implies (#[trigger] e[i]).0.normalized@ != (#[trigger] e[j]).0.normalized@ by {
                assert(e[i] == states[i] && e[j] == states[j]);
            }
        }
        lemma_associated(e);
        let r = associated(e);
        assert forall|i: int| 0 <= i < r.len() implies exists|j: int| 0 <= j < e.len() && (#[trigger] r[i]).0 == states[j].0 by {
            let j = choose|j: int| 0 <= j < e.len() && r[i].0 == e[j].0;
            assert(e[j] == states[j]);
        }
        match states.last().1 {
            ResolutionState::Associated(d) => {
                let k = r.push((states.last().0, d));
                assert(associated(states) == k);
                assert forall|i: int| 0 <= i < k.len() implies exists|j: int| 0 <= j < states.len() && (#[trigger] k[i]).0 == states[j].0 by {
                    if i < r.len() {
                        assert(k[i] == r[i]);
                        let j = choose|j: int| 0 <= j < e.len() && r[i].0 == states[j].0;
                        assert(0 <= j < states.len());
                    } else {
                        assert(k[i].0 == states[states.len() - 1].0);
                    }
                }
                assert forall|i: int, j: int| 0 <= i < j < k.len() implies (#[trigger] k[i]).0.normalized@ != (#[trigger] k[j]).0.normalized@ by {
                    if j == k.len() - 1 {
                        let m = choose|m: int| 0 <= m < e.len() && r[i].0 == states[m].0;
                        assert(k[i] == r[i]);
                        assert(states[m].0.normalized@ != states[states.len() - 1].0.normalized@);
                    } else {
                        assert(k[i] == r[i] && k[j] == r[j]);
                    }
                }
            },
            _ => {
                assert(associated(states) == r);
            },
        }
    }
}

/// The entries of `states` that hold a document.
fn collect_associated<'a>(states: Vec<(PartAlias, ResolutionState<'a>)>) -> (res: Vec<(PartAlias, Arc<MultipartDocument>)>)
    ensures
        res@ == associated(states@),
{
    let ghost all = states@;
    let mut rest = states;
    let mut res: Vec<(PartAlias, Arc<MultipartDocument>)> = Vec::new();
    let ghost mut done: int = 0;
    assert(all.subrange(0, 0) =~= Seq::<(PartAlias, ResolutionState<'a>)>::empty());
    while rest.len() > 0
        invariant
            0 <= done <= all.len(),
            rest@ == all.subrange(done, all.len() as int),
            res@ == associated(all.subrange(0, done)),
        decreases rest@.len(),
    {
        let (alias, state) = rest.remove(0);
        let ghost prefix = all.subrange(0, done + 1);
        assert(prefix.drop_last() =~= all.subrange(0, done));
        assert(prefix.last() == all[done]);
        match state {
            ResolutionState::Associated(d) => {
                res.push((alias, d));
            },
            _ => {},
        }
        proof {
            done = done + 1;
        }
        assert(rest@ =~= all.subrange(done, all.len() as int));
    }
    assert(all.subrange(0, done) =~= all);
    res
}

/// How a reference is settled while its document is scanned.
pub enum Decision {
    /// Its name has a state already.
    Known,
    /// It names the subpart at this index of the parent document.
    Subpart(int),
    /// It names a local document held from before.
    Local(Arc<MultipartDocument>),
    /// It names a library document of the cache.
    Library(Arc<MultipartDocument>),
    /// It has to be loaded.
    Load,
}

/// How a reference to `alias` is settled: a name with a state already is
/// left alone; then a subpart of the parent, a local document held from
/// before (for a local document), a library document of the cache; else it
/// is loaded.
pub open spec fn decision<'a>(
    states: Seq<(PartAlias, ResolutionState<'a>)>,
    parent: Option<&'a MultipartDocument>,
    local_documents: Seq<(PartAlias, Arc<MultipartDocument>)>,
    cache: PartCache,
    alias: PartAlias,
    local: bool,
) -> Decision {
    if key_index(states, alias.normalized@) is Some {
        Decision::Known
    } else if parent is Some && subpart_index(parent->Some_0@.subparts, alias@.normalized) is Some {
        Decision::Subpart(subpart_index(parent->Some_0@.subparts, alias@.normalized)->Some_0)
    } else if local && keyed_get(local_documents, alias) is Some {
        Decision::Local(keyed_get(local_documents, alias)->Some_0)
    } else if cache.lookup(alias) is Some {
        Decision::Library(cache.lookup(alias)->Some_0)
    } else {
        Decision::Load
    }
}

/// What a load gave: where the file was found and its document, or the
/// error.
pub type LoadOutcome = Result<(FileLocation, MultipartDocument), ResolutionError>;

/// What the resolver asks of its driver.
pub enum ResolverAction {
    /// Call `step` again.
    Continue,
    /// Load these files (each as a local file when `local` holds) and hand
    /// the outcomes, in the same order, to `deliver`.
    Load { aliases: Vec<PartAlias>, local: bool },
    /// The resolution is complete.
    Done,
}

#[derive(Debug)]
enum FrameDocument<'a> {
    Borrowed(&'a Document),
    Shared(Arc<MultipartDocument>),
}

/// Where a document under resolution stands: its references are being
/// scanned, the loads it asked for are awaited, or their outcomes are being
/// taken in.
#[derive(Copy, Clone, Debug, PartialEq, Eq, Structural)]
pub enum FramePhase {
    Scanning,
    Waiting,
    Applying,
}

/// A document under resolution: its commands, the model file whose subparts
/// it may reference, whether it is local, the index of the next command to
/// scan, the names it asks to load, its phase, and the outcomes of its loads
/// not yet taken in.
pub struct FrameView<'a> {
    pub commands: Seq<Command>,
    pub parent: Option<&'a MultipartDocument>,
    pub local: bool,
    pub next: int,
    pub pending: Seq<PartAlias>,
    pub phase: FramePhase,
    pub outcomes: Seq<LoadOutcome>,
}

/// A document about to be resolved.
pub open spec fn fresh_frame<'a>(commands: Seq<Command>, parent: Option<&'a MultipartDocument>, local: bool) -> FrameView<'a> {
    FrameView { commands, parent, local, next: 0, pending: Seq::empty(), phase: FramePhase::Scanning, outcomes: Seq::empty() }
}

/// A document whose references are being resolved.
#[derive(Debug)]
struct Frame<'a> {
    document: FrameDocument<'a>,
    parent: Option<&'a MultipartDocument>,
    local: bool,
    next_command: usize,
    pending: Vec<PartAlias>,
    phase: FramePhase,
    outcomes: Vec<LoadOutcome>,
}

impl<'a> Frame<'a> {
    spec fn view(&self) -> FrameView<'a> {
        FrameView {
            commands: match self.document {
                FrameDocument::Borrowed(d) => d.commands@,
                FrameDocument::Shared(m) => m.body.commands@,
            },
            parent: self.parent,
            local: self.local,
            next: self.next_command as int,
            pending: self.pending@,
            phase: self.phase,
            outcomes: self.outcomes@,
        }
    }

    spec fn wf(&self) -> bool {
        &&& self.parent matches Some(p) ==> distinct_names(p@.subparts)
        &&& distinct_aliases(self.pending@)
    }

    fn start(document: FrameDocument<'a>, parent: Option<&'a MultipartDocument>, local: bool) -> (res: Self)
        requires
            parent matches Some(p) ==> distinct_names(p@.subparts),
        ensures
            res.wf(),
            res.view() == fresh_frame(
                match document {
                    FrameDocument::Borrowed(d) => d.commands@,
                    FrameDocument::Shared(m) => m.body.commands@,
                },
                parent,
                local,
            ),
    {
        Frame {
            document,
            parent,
            local,
            next_command: 0,
            pending: Vec::new(),
            phase: FramePhase::Scanning,
            outcomes: Vec::new(),
        }
    }

    /// The name referenced by the next command, `None` for a command of
    /// another kind, or nothing when every command has been scanned.
    fn next_reference(&self) -> (res: Option<Option<PartAlias>>)
        ensures
            res == (if 0 <= self.view().next < self.view().commands.len() {
                Some(
                    match self.view().commands[self.view().next] {
                        Command::PartReference(r) => Some(r.name),
                        _ => None,
                    },
                )
            } else {
                None
            }),
            self.view().commands.len() <= usize::MAX,
    {
        let body: &Document = match &self.document {
            FrameDocument::Borrowed(d) => d,
            FrameDocument::Shared(m) => &m.body,
        };
        if self.next_command < body.commands.len() {
            match &body.commands[self.next_command] {
                Command::PartReference(r) => Some(Some(r.name.clone())),
                _ => Some(None),
            }
        } else {
            None
        }
    }
}

} // verus!

verus! {

/// How a reference was settled, with what it settles to.
enum ReferenceDecision<'a> {
    Known,
    Subpart(&'a Document),
    Local(Arc<MultipartDocument>),
    Library(Arc<MultipartDocument>),
    Load,
}

/// Resolves the files that a model references, and those that they
/// reference in turn: each name gets a state once, in the map of local
/// names or in that of library names. Loading is left to the driver, which
/// calls `step` until it answers `Done` and hands every load it asks for
/// back through `deliver`.
#[derive(Debug)]
pub struct DependencyResolver<'a> {
    local_cache: TransientDocumentCache,
    map: Vec<(PartAlias, ResolutionState<'a>)>,
    local_map: Vec<(PartAlias, ResolutionState<'a>)>,
    frames: Vec<Frame<'a>>,
}

impl<'a> DependencyResolver<'a> {
    /// The states recorded for local names (`local`) or for library names.
    pub closed spec fn states(&self, local: bool) -> Seq<(PartAlias, ResolutionState<'a>)> {
        if local {
            self.local_map@
        } else {
            self.map@
        }
    }

    /// The local documents loaded so far.
    pub closed spec fn local_documents(&self) -> Seq<(PartAlias, Arc<MultipartDocument>)> {
        self.local_cache.documents()
    }

    /// The documents under resolution, outermost first.
    pub closed spec fn frames(&self) -> Seq<FrameView<'a>> {
        self.frames@.map_values(|f: Frame<'a>| f.view())
    }

    /// How many documents are under resolution, one inside the other.
    pub open spec fn depth(&self) -> nat {
        self.frames().len()
    }

    #[verifier::type_invariant]
    spec fn wf(&self) -> bool {
        &&& distinct_keys(self.map@)
        &&& distinct_keys(self.local_map@)
        &&& forall|i: int| 0 <= i < self.frames@.len() ==> #[trigger] self.frames@[i].wf()
    }

    /// A resolver that knows nothing yet.
    pub fn new() -> (res: Self)
        ensures
            res.states(true).len() == 0,
            res.states(false).len() == 0,
            res.local_documents().len() == 0,
            res.depth() == 0,
    {
        DependencyResolver {
            local_cache: TransientDocumentCache::new(),
            map: Vec::new(),
            local_map: Vec::new(),
            frames: Vec::new(),
        }
    }

    /// Whether the name of `alias` has a state among the local names
    /// (`local`) or the library names.
    pub fn contains_state(&self, alias: &PartAlias, local: bool) -> (res: bool)
        ensures
            res == key_index(self.states(local), alias.normalized@) is Some,
    {
        proof {
            use_type_invariant(self);
        }
        if local {
            find_key(&self.local_map, alias).is_some()
        } else {
            find_key(&self.map, alias).is_some()
        }
    }

    /// Records `state` for `alias` among the local names (`local`) or the
    /// library names; a state of the same name is replaced.
    pub fn put_state(&mut self, alias: PartAlias, local: bool, state: ResolutionState<'a>)
        ensures
            final(self).states(local) == keyed_insert(old(self).states(local), alias, state),
            final(self).states(!local) == old(self).states(!local),
            final(self).local_documents() == old(self).local_documents(),
            final(self).frames() == old(self).frames(),
    {
        proof {
            use_type_invariant(&*self);
        }
        if local {
            let mut map = Vec::new();
            std::mem::swap(&mut map, &mut self.local_map);
            store(&mut map, alias, state);
            self.local_map = map;
        } else {
            let mut map = Vec::new();
            std::mem::swap(&mut map, &mut self.map);
            store(&mut map, alias, state);
            self.map = map;
        }
    }

    /// Records `state` for a name that has none yet.
    fn record(&mut self, alias: PartAlias, local: bool, state: ResolutionState<'a>)
        requires
            key_index(old(self).states(local), alias.normalized@) is None,
        ensures
            final(self).states(local) == old(self).states(local).push((alias, state)),
            final(self).states(!local) == old(self).states(!local),
            final(self).local_documents() == old(self).local_documents(),
            final(self).frames() == old(self).frames(),
    {
        self.put_state(alias, local, state);
    }

    /// Starts resolving the references of `document`, whose subparts are
    /// looked up in `parent`; `local` tells whether it is a local document.
    /// `step` carries the resolution out.
    pub fn resolve(&mut self, document: &'a Document, parent: Option<&'a MultipartDocument>, local: bool)
        requires
            parent matches Some(p) ==> distinct_names(p@.subparts),
        ensures
            final(self).states(true) == old(self).states(true),
            final(self).states(false) == old(self).states(false),
            final(self).local_documents() == old(self).local_documents(),
            final(self).frames() == old(self).frames().push(fresh_frame(document.commands@, parent, local)),
    {
        self.push_frame(Frame::start(FrameDocument::Borrowed(document), parent, local));
    }

    /// Holds a local document.
    fn register_local(&mut self, alias: PartAlias, document: Arc<MultipartDocument>)
        ensures
            final(self).local_documents() == keyed_insert(old(self).local_documents(), alias, document),
            final(self).states(true) == old(self).states(true),
            final(self).states(false) == old(self).states(false),
            final(self).frames() == old(self).frames(),
    {
        proof {
            use_type_invariant(&*self);
        }
        let mut local_cache = TransientDocumentCache::new();
        std::mem::swap(&mut local_cache, &mut self.local_cache);
        local_cache.register(alias, document);
        self.local_cache = local_cache;
    }

    fn push_frame(&mut self, frame: Frame<'a>)
        requires
            frame.wf(),
        ensures
            final(self).states(true) == old(self).states(true),
            final(self).states(false) == old(self).states(false),
            final(self).local_documents() == old(self).local_documents(),
            final(self).frames@ == old(self).frames@.push(frame),
            final(self).frames() == old(self).frames().push(frame.view()),
    {
        proof {
            use_type_invariant(&*self);
        }
        let mut frames = Vec::new();
        std::mem::swap(&mut frames, &mut self.frames);
        frames.push(frame);
        self.frames = frames;
        assert(self.frames() =~= old(self).frames().push(frame.view()));
    }

    fn pop_frame(&mut self) -> (res: Option<Frame<'a>>)
        ensures
            final(self).states(true) == old(self).states(true),
            final(self).states(false) == old(self).states(false),
            final(self).local_documents() == old(self).local_documents(),
            old(self).frames@.len() == 0 ==> res is None && final(self).frames@ == old(self).frames@,
            old(self).frames@.len() > 0 ==> res == Some(old(self).frames@.last())
                && final(self).frames@ == old(self).frames@.drop_last(),
            res matches Some(f) ==> f.wf(),
            old(self).frames@.len() > 0 ==> (res matches Some(f) && f.view() == old(self).frames().last()
                && final(self).frames() == old(self).frames().drop_last()),
    {
        proof {
            use_type_invariant(&*self);
        }
        let mut frames = Vec::new();
        std::mem::swap(&mut frames, &mut self.frames);
        let res = frames.pop();
        assert(forall|i: int| 0 <= i < frames@.len() ==> frames@[i] == old(self).frames@[i]);
        self.frames = frames;
        proof {
            if old(self).frames@.len() > 0 {
                assert(self.frames() =~= old(self).frames().drop_last());
            }
        }
        res
    }
}

} // verus!

verus! {

/// The document behind a shared handle.
pub open spec fn held(d: Arc<MultipartDocument>) -> MultipartDocument {
    *d
}

/// A shared handle to `document` (handles to equal documents are equal).
pub open spec fn shared(document: MultipartDocument) -> Arc<MultipartDocument> {
    choose|d: Arc<MultipartDocument>| #[trigger] held(d) == document
}

/// Among which names the outcome of a load is recorded: a library file among
/// the library names, anything else where it was asked for.
pub open spec fn outcome_local(outcome: LoadOutcome, local: bool) -> bool {
    match outcome {
        Ok((FileLocation::Library(_), _)) => false,
        _ => local,
    }
}

/// The state that the outcome of a load gives its name.
pub open spec fn outcome_state<'a>(outcome: LoadOutcome) -> ResolutionState<'a> {
    match outcome {
        Ok((_, document)) => ResolutionState::Associated(shared(document)),
        Err(_) => ResolutionState::Missing,
    }
}

impl<'a> DependencyResolver<'a> {
    /// How the reference to `alias` in a document with `parent` settles.
    fn decide(&self, cache: &PartCache, parent: Option<&'a MultipartDocument>, alias: &PartAlias, local: bool) -> (res: ReferenceDecision<'a>)
        requires
            parent matches Some(p) ==> distinct_names(p@.subparts),
        ensures
            match decision(self.states(local), parent, self.local_documents(), *cache, *alias, local) {
                Decision::Known => res is Known,
                Decision::Subpart(j) => res == ReferenceDecision::Subpart(&parent->Some_0.subparts@[j].1),
                Decision::Local(d) => res == ReferenceDecision::<'a>::Local(d),
                Decision::Library(d) => res == ReferenceDecision::<'a>::Library(d),
                Decision::Load => res is Load,
            },
    {
        if self.contains_state(alias, local) {
            return ReferenceDecision::Known;
        }
        if let Some(p) = parent {
            if let Some(subpart) = p.get_subpart(alias) {
                return ReferenceDecision::Subpart(subpart);
            }
        }
        if local {
            if let Some(cached) = self.local_cache.query(alias) {
                return ReferenceDecision::Local(cached);
            }
        }
        match cache.query(alias) {
            Some(cached) => ReferenceDecision::Library(cached),
            None => ReferenceDecision::Load,
        }
    }

    /// Takes in the outcome of loading `alias` (asked for as a local file
    /// when `local` holds): a library document goes to `cache`, a local one
    /// to the local documents, and the name gets the state unless it has one
    /// already. The document to resolve next, if any, with whether it is
    /// local.
    pub fn apply_outcome(&mut self, cache: &mut PartCache, alias: PartAlias, local: bool, outcome: LoadOutcome) -> (res: Option<(Arc<MultipartDocument>, bool)>)
        ensures
            ({
                let l = outcome_local(outcome, local);
                let fresh = key_index(old(self).states(l), alias.normalized@) is None;
                &&& match outcome {
                    Ok((FileLocation::Library(kind), document)) => final(cache).registered(*old(cache), kind, alias, shared(document))
                        && final(self).local_documents() == old(self).local_documents(),
                    Ok((FileLocation::Local, document)) => *final(cache) == *old(cache)
                        && final(self).local_documents() == keyed_insert(old(self).local_documents(), alias, shared(document)),
                    Err(_) => *final(cache) == *old(cache) && final(self).local_documents() == old(self).local_documents(),
                }
                &&& final(self).states(l) == (if fresh {
                    old(self).states(l).push((alias, outcome_state(outcome)))
                } else {
                    old(self).states(l)
                })
                &&& final(self).states(!l) == old(self).states(!l)
                &&& final(self).frames() == old(self).frames()
                &&& res == (if fresh && outcome is Ok {
                    Some((shared(outcome->Ok_0.1), l))
                } else {
                    None
                })
                &&& res matches Some((d, _)) ==> held(d) == outcome->Ok_0.1
            }),
    {
        let ghost start_cache = *cache;
        let mut target_local = local;
        let (state, document) = match outcome {
            Ok((location, document)) => {
                let ghost value = document;
                let document = Arc::new(document);
                assert(held(document) == value);
                assert(shared(value) == document);
                match location {
                    FileLocation::Library(kind) => {
                        target_local = false;
                        cache.register(kind, alias.clone(), share(&document));
                    },
                    FileLocation::Local => {
                        self.register_local(alias.clone(), share(&document));
                    },
                };
                (ResolutionState::Associated(share(&document)), Some(document))
            },
            Err(_) => (ResolutionState::Missing, None),
        };
        if !self.contains_state(&alias, target_local) {
            self.record(alias, target_local, state);
            match document {
                Some(d) => Some((d, target_local)),
                None => None,
            }
        } else {
            None
        }
    }
}

} // verus!

verus! {

/// Whether every name with a state in `before` has one in `after`.
pub open spec fn keeps_names<V, W>(before: Seq<(PartAlias, V)>, after: Seq<(PartAlias, W)>) -> bool {
    forall|n: Seq<char>| #[trigger] key_index(before, n) is Some ==> key_index(after, n) is Some
}

proof fn lemma_keyed_insert_keeps<V>(entries: Seq<(PartAlias, V)>, alias: PartAlias, v: V)
    ensures
        keeps_names(entries, keyed_insert(entries, alias, v)),
        key_index(keyed_insert(entries, alias, v), alias.normalized@) is Some,
{
    let after = keyed_insert(entries, alias, v);
    assert forall|n: Seq<char>| #[trigger] key_index(entries, n) is Some implies key_index(after, n) is Some by {
        let i = choose|i: int| 0 <= i < entries.len() && entries[i].0.normalized@ == n;
        assert(after[i].0 == entries[i].0);
    }
    match key_index(entries, alias.normalized@) {
        Some(j) => {
            assert(after[j].0 == entries[j].0);
        },
        None => {
            assert(after[entries.len() as int].0 == alias);
        },
    }
}

proof fn lemma_keeps_names_trans<U, V, W>(a: Seq<(PartAlias, U)>, b: Seq<(PartAlias, V)>, c: Seq<(PartAlias, W)>)
    requires
        keeps_names(a, b),
        keeps_names(b, c),
    ensures
        keeps_names(a, c),
{
    assert forall|n: Seq<char>| #[trigger] key_index(a, n) is Some implies key_index(c, n) is Some by {
        assert(key_index(b, n) is Some);
    }
}

/// What scanning a reference leaves to do.
pub enum Settled<'a> {
    /// Nothing more.
    Settled,
    /// Resolve this subpart, with the same parent.
    Descend(&'a Document),
    /// Load the file.
    Load,
}

impl<'a> DependencyResolver<'a> {
    /// Settles the reference to `alias` met in a document with `parent`
    /// (local when `local` holds), as `decision` says: a subpart or a
    /// local document gets its state among the names of the document's
    /// kind, a cached library document among the library names.
    pub fn settle_reference(&mut self, cache: &PartCache, parent: Option<&'a MultipartDocument>, alias: &PartAlias, local: bool) -> (res: Settled<'a>)
        requires
            parent matches Some(p) ==> distinct_names(p@.subparts),
        ensures
            final(self).local_documents() == old(self).local_documents(),
            final(self).frames() == old(self).frames(),
            match decision(old(self).states(local), parent, old(self).local_documents(), *cache, *alias, local) {
                Decision::Known => *final(self) == *old(self) && res is Settled,
                Decision::Subpart(j) => final(self).states(local) == old(self).states(local).push(
                    (*alias, ResolutionState::Subpart(&parent->Some_0.subparts@[j].1)),
                ) && final(self).states(!local) == old(self).states(!local)
                    && res == Settled::Descend(&parent->Some_0.subparts@[j].1),
                Decision::Local(d) => final(self).states(true) == old(self).states(true).push((*alias, ResolutionState::Associated(d)))
                    && final(self).states(false) == old(self).states(false) && res is Settled,
                Decision::Library(d) => final(self).states(false) == keyed_insert(old(self).states(false), *alias, ResolutionState::Associated(d))
                    && final(self).states(true) == old(self).states(true) && res is Settled,
                Decision::Load => *final(self) == *old(self) && res is Load,
            },
    {
        match self.decide(cache, parent, alias, local) {
            ReferenceDecision::Known => Settled::Settled,
            ReferenceDecision::Subpart(subpart) => {
                self.record(alias.clone(), local, ResolutionState::Subpart(subpart));
                Settled::Descend(subpart)
            },
            ReferenceDecision::Local(cached) => {
                self.record(alias.clone(), true, ResolutionState::Associated(cached));
                Settled::Settled
            },
            ReferenceDecision::Library(cached) => {
                self.put_state(alias.clone(), false, ResolutionState::Associated(cached));
                Settled::Settled
            },
            ReferenceDecision::Load => Settled::Load,
        }
    }
}

} // verus!

verus! {

proof fn lemma_distinct_aliases_tail(list: Seq<PartAlias>)
    requires
        distinct_aliases(list),
        list.len() > 0,
    ensures
        distinct_aliases(list.subrange(1, list.len() as int)),
{
    let t = list.subrange(1, list.len() as int);
    assert forall|i: int, j: int| 0 <= i < j < t.len() implies (#[trigger] t[i]).normalized@ != (#[trigger] t[j]).normalized@ by {
        assert(t[i] == list[i + 1] && t[j] == list[j + 1]);
    }
}

/// `f` with its next command scanned.
pub open spec fn advanced<'a>(f: FrameView<'a>) -> FrameView<'a> {
    FrameView { next: f.next + 1, ..f }
}

/// `list` with `alias` added at its end, unless a name like it is there.
pub open spec fn with_name(list: Seq<PartAlias>, alias: PartAlias) -> Seq<PartAlias> {
    if crate::document::alias_names(list).contains(alias.normalized@) {
        list
    } else {
        list.push(alias)
    }
}

/// Whether the states and the local documents of `after` are those of
/// `before`.
pub open spec fn same_knowledge<'a>(before: DependencyResolver<'a>, after: DependencyResolver<'a>) -> bool {
    &&& after.states(true) == before.states(true)
    &&& after.states(false) == before.states(false)
    &&& after.local_documents() == before.local_documents()
}

/// What scanning the next command of the innermost document `f` of
/// `before` leaves (`after`): a reference is settled as `decision` says,
/// and a subpart to resolve becomes the innermost document.
pub open spec fn scanned<'a>(before: DependencyResolver<'a>, cache: PartCache, after: DependencyResolver<'a>, f: FrameView<'a>) -> bool {
    let rest = before.frames().drop_last();
    let next = advanced(f);
    &&& after.local_documents() == before.local_documents()
    &&& match f.commands[f.next] {
        Command::PartReference(r) => match decision(before.states(f.local), f.parent, before.local_documents(), cache, r.name, f.local) {
            Decision::Known => same_knowledge(before, after) && after.frames() == rest.push(next),
            Decision::Subpart(j) => {
                &&& after.states(f.local) == before.states(f.local).push((r.name, ResolutionState::Subpart(&f.parent->Some_0.subparts@[j].1)))
                &&& after.states(!f.local) == before.states(!f.local)
                &&& after.frames() == rest.push(next).push(fresh_frame(f.parent->Some_0.subparts@[j].1.commands@, f.parent, f.local))
            },
            Decision::Local(d) => {
                &&& after.states(true) == before.states(true).push((r.name, ResolutionState::Associated(d)))
                &&& after.states(false) == before.states(false)
                &&& after.frames() == rest.push(next)
            },
            Decision::Library(d) => {
                &&& after.states(false) == keyed_insert(before.states(false), r.name, ResolutionState::Associated(d))
                &&& after.states(true) == before.states(true)
                &&& after.frames() == rest.push(next)
            },
            Decision::Load => same_knowledge(before, after) && after.frames() == rest.push(FrameView { pending: with_name(f.pending, r.name), ..next }),
        },
        _ => same_knowledge(before, after) && after.frames() == rest.push(next),
    }
}

/// What taking in the first outcome of the innermost document `f` of
/// `before` leaves (`after`, and the cache `cache_after`): the outcome is
/// taken in as `apply_outcome` says, and a document newly associated with its
/// name becomes the innermost document.
pub open spec fn applied<'a>(
    before: DependencyResolver<'a>,
    cache_before: PartCache,
    after: DependencyResolver<'a>,
    cache_after: PartCache,
    f: FrameView<'a>,
) -> bool {
    let alias = f.pending[0];
    let outcome = f.outcomes[0];
    let l = outcome_local(outcome, f.local);
    let fresh = key_index(before.states(l), alias.normalized@) is None;
    let frames = before.frames().drop_last().push(FrameView { pending: f.pending.drop_first(), outcomes: f.outcomes.drop_first(), ..f });
    &&& match outcome {
        Ok((FileLocation::Library(kind), document)) => cache_after.registered(cache_before, kind, alias, shared(document))
            && after.local_documents() == before.local_documents(),
        Ok((FileLocation::Local, document)) => cache_after == cache_before
            && after.local_documents() == keyed_insert(before.local_documents(), alias, shared(document)),
        Err(_) => cache_after == cache_before && after.local_documents() == before.local_documents(),
    }
    &&& after.states(l) == (if fresh {
        before.states(l).push((alias, outcome_state(outcome)))
    } else {
        before.states(l)
    })
    &&& after.states(!l) == before.states(!l)
    &&& after.frames() == (if fresh && outcome is Ok {
        frames.push(fresh_frame(outcome->Ok_0.1.body.commands@, None, l))
    } else {
        frames
    })
}

/// One step of a resolution from `before` (with the cache `cache_before`) to
/// `after` (with `cache_after`), answering `action`.
pub open spec fn stepped<'a>(
    before: DependencyResolver<'a>,
    cache_before: PartCache,
    after: DependencyResolver<'a>,
    cache_after: PartCache,
    action: ResolverAction,
) -> bool {
    let fs = before.frames();
    if fs.len() == 0 {
        action is Done && after == before && cache_after == cache_before
    } else {
        let f = fs.last();
        let rest = fs.drop_last();
        match f.phase {
            FramePhase::Scanning => if f.next < f.commands.len() {
                action is Continue && cache_after == cache_before && scanned(before, cache_before, after, f)
            } else if f.pending.len() == 0 {
                action is Continue && cache_after == cache_before && same_knowledge(before, after) && after.frames() == rest
            } else {
                &&& action matches ResolverAction::Load { aliases, local }
                &&& action->aliases@ == f.pending && action->local == f.local
                &&& cache_after == cache_before && same_knowledge(before, after)
                &&& after.frames() == rest.push(FrameView { phase: FramePhase::Waiting, ..f })
            },
            FramePhase::Waiting => {
                &&& action matches ResolverAction::Load { aliases, local }
                &&& action->aliases@ == f.pending && action->local == f.local
                &&& cache_after == cache_before && same_knowledge(before, after) && after.frames() == fs
            },
            FramePhase::Applying => action is Continue && if f.pending.len() > 0 && f.outcomes.len() > 0 {
                applied(before, cache_before, after, cache_after, f)
            } else {
                cache_after == cache_before && same_knowledge(before, after) && after.frames() == rest
            },
        }
    }
}

impl<'a> DependencyResolver<'a> {
    /// Carries the resolution one step further (see `stepped`): scans the
    /// next command of the innermost document, or takes in the next outcome
    /// of its loads, or asks for its loads once it has been scanned, or
    /// finishes it. Names never lose their state; the files asked for have
    /// distinct names.
    pub fn step(&mut self, cache: &mut PartCache) -> (action: ResolverAction)
        ensures
            stepped(*old(self), *old(cache), *final(self), *final(cache), action),
            keeps_names(old(self).states(true), final(self).states(true)),
            keeps_names(old(self).states(false), final(self).states(false)),
            keeps_names(old(self).local_documents(), final(self).local_documents()),
            action matches ResolverAction::Load { aliases, .. } ==> distinct_aliases(aliases@),
    {
        if self.frames.len() == 0 {
            return ResolverAction::Done;
        }
        let ghost before = *self;
        let ghost cache_before = *cache;
        let ghost f = before.frames().last();
        let ghost rest = before.frames().drop_last();
        let mut frame = match self.pop_frame() {
            Some(fr) => fr,
            None => {
                return ResolverAction::Done;
            },
        };
        proof {
            assert forall|l: bool| keeps_names(#[trigger] before.states(l), self.states(l)) by {
                assert forall|n: Seq<char>| #[trigger] key_index(before.states(l), n) is Some implies key_index(self.states(l), n) is Some by {}
            }
            assert(keeps_names(before.local_documents(), self.local_documents())) by {
                assert forall|n: Seq<char>| #[trigger] key_index(before.local_documents(), n) is Some implies key_index(self.local_documents(), n) is Some by {}
            }
        }
        match frame.phase {
            FramePhase::Scanning => {
                match frame.next_reference() {
                    Some(item) => {
                        frame.next_command = frame.next_command + 1;
                        assert(frame.view() == advanced(f));
                        match item {
                            Some(alias) => {
                                let ghost mid = *self;
                                let settled = self.settle_reference(cache, frame.parent, &alias, frame.local);
                                proof {
                                    let l = frame.local;
                                    match decision(mid.states(l), frame.parent, mid.local_documents(), *cache, alias, l) {
                                        Decision::Library(d) => {
                                            lemma_keyed_insert_keeps(mid.states(false), alias, ResolutionState::Associated(d));
                                        },
                                        _ => {},
                                    }
                                    assert forall|m: bool| keeps_names(#[trigger] mid.states(m), self.states(m)) by {
                                        assert forall|n: Seq<char>| #[trigger] key_index(mid.states(m), n) is Some implies key_index(self.states(m), n) is Some by {
                                            if mid.states(m) != self.states(m) && !(m == false && decision(mid.states(l), frame.parent, mid.local_documents(), *cache, alias, l) is Library) {
                                                let i = choose|i: int| 0 <= i < mid.states(m).len() && mid.states(m)[i].0.normalized@ == n;
                                                assert(self.states(m)[i] == mid.states(m)[i]);
                                            }
                                        }
                                    }
                                    lemma_keeps_names_trans(before.states(true), mid.states(true), self.states(true));
                                    lemma_keeps_names_trans(before.states(false), mid.states(false), self.states(false));
                                }
                                match settled {
                                    Settled::Descend(subpart) => {
                                        let parent = frame.parent;
                                        let local = frame.local;
                                        self.push_frame(frame);
                                        self.push_frame(Frame::start(FrameDocument::Borrowed(subpart), parent, local));
                                    },
                                    Settled::Load => {
                                        add_dependency(&mut frame.pending, &alias);
                                        self.push_frame(frame);
                                    },
                                    Settled::Settled => {
                                        self.push_frame(frame);
                                    },
                                }
                            },
                            None => {
                                self.push_frame(frame);
                            },
                        }
                        ResolverAction::Continue
                    },
                    None => {
                        if frame.pending.len() == 0 {
                            ResolverAction::Continue
                        } else {
                            let aliases = clone_aliases(&frame.pending);
                            let local = frame.local;
                            frame.phase = FramePhase::Waiting;
                            self.push_frame(frame);
                            ResolverAction::Load { aliases, local }
                        }
                    },
                }
            },
            FramePhase::Waiting => {
                let aliases = clone_aliases(&frame.pending);
                let local = frame.local;
                self.push_frame(frame);
                assert(self.frames() =~= before.frames());
                ResolverAction::Load { aliases, local }
            },
            FramePhase::Applying => {
                if frame.pending.len() > 0 && frame.outcomes.len() > 0 {
                    proof {
                        lemma_distinct_aliases_tail(frame.pending@);
                    }
                    let alias = frame.pending.remove(0);
                    let outcome = frame.outcomes.remove(0);
                    assert(frame.pending@ =~= f.pending.drop_first());
                    assert(frame.outcomes@ =~= f.outcomes.drop_first());
                    let ghost mid = *self;
                    let ghost o = outcome;
                    let next = self.apply_outcome(cache, alias, frame.local, outcome);
                    proof {
                        let l = outcome_local(o, frame.local);
                        assert forall|m: bool| keeps_names(#[trigger] mid.states(m), self.states(m)) by {
                            assert forall|n: Seq<char>| #[trigger] key_index(mid.states(m), n) is Some implies key_index(self.states(m), n) is Some by {
                                let i = choose|i: int| 0 <= i < mid.states(m).len() && mid.states(m)[i].0.normalized@ == n;
                                assert(self.states(m)[i] == mid.states(m)[i]);
                            }
                        }
                        match o {
                            Ok((FileLocation::Local, d)) => {
                                lemma_keyed_insert_keeps(mid.local_documents(), alias, shared(d));
                            },
                            _ => {},
                        }
                        lemma_keeps_names_trans(before.states(true), mid.states(true), self.states(true));
                        lemma_keeps_names_trans(before.states(false), mid.states(false), self.states(false));
                        lemma_keeps_names_trans(before.local_documents(), mid.local_documents(), self.local_documents());
                    }
                    self.push_frame(frame);
                    match next {
                        Some((document, local)) => {
                            self.push_frame(Frame::start(FrameDocument::Shared(document), None, local));
                        },
                        None => {},
                    }
                }
                ResolverAction::Continue
            },
        }
    }

    /// Hands the outcomes of the loads that `step` asked for, in the order
    /// of the names, to the innermost document when it awaits them; anything
    /// else is ignored.
    pub fn deliver(&mut self, outcomes: Vec<LoadOutcome>)
        ensures
            same_knowledge(*old(self), *final(self)),
            old(self).frames().len() > 0 && old(self).frames().last().phase == FramePhase::Waiting ==> final(self).frames()
                == old(self).frames().drop_last().push(
                FrameView { phase: FramePhase::Applying, outcomes: outcomes@, ..old(self).frames().last() },
            ),
            !(old(self).frames().len() > 0 && old(self).frames().last().phase == FramePhase::Waiting) ==> final(self).frames()
                == old(self).frames(),
    {
        let ghost before = *self;
        if let Some(mut frame) = self.pop_frame() {
            match frame.phase {
                FramePhase::Waiting => {
                    frame.phase = FramePhase::Applying;
                    frame.outcomes = outcomes;
                },
                _ => {},
            }
            self.push_frame(frame);
            proof {
                if before.frames().last().phase != FramePhase::Waiting {
                    assert(self.frames() =~= before.frames());
                }
            }
        }
    }

    /// The documents that the resolution associated with names: the library
    /// ones and the local ones.
    pub fn finish(self) -> (res: ResolutionResult)
        ensures
            res.library_entries() == associated(self.states(false)),
            res.local_entries() == associated(self.states(true)),
    {
        proof {
            use_type_invariant(&self);
            lemma_associated(self.map@);
            lemma_associated(self.local_map@);
        }
        let DependencyResolver { local_cache: _, map, local_map, frames: _ } = self;
        ResolutionResult { library_entries: collect_associated(map), local_entries: collect_associated(local_map) }
    }
}

/// A copy of `list`.
fn clone_aliases(list: &Vec<PartAlias>) -> (res: Vec<PartAlias>)
    ensures
        res@ == list@,
{
    let mut res: Vec<PartAlias> = Vec::new();
    let mut i: usize = 0;
    while i < list.len()
        invariant
            i <= list@.len(),
            res@ == list@.subrange(0, i as int),
        decreases list@.len() - i,
    {
        res.push(list[i].clone());
        i = i + 1;
        assert(res@ =~= list@.subrange(0, i as int));
    }
    assert(list@.subrange(0, i as int) =~= list@);
    res
}

} // verus!

verus! {

impl Default for PartCache {
    fn default() -> (res: Self)
        ensures
            res.parts().len() == 0,
            res.primitives().len() == 0,
    {
        PartCache::new()
    }
}

impl Default for TransientDocumentCache {
    fn default() -> (res: Self)
        ensures
            res.documents().len() == 0,
    {
        TransientDocumentCache::new()
    }
}

impl Default for ResolutionResult {
    fn default() -> (res: Self)
        ensures
            res.library_entries().len() == 0,
            res.local_entries().len() == 0,
    {
        ResolutionResult::new()
    }
}

} // verus!

verus! {

/// After `v` is stored under `alias`, a lookup of that name gives `v`.
pub proof fn lemma_keyed_get_insert_same<V>(entries: Seq<(PartAlias, V)>, alias: PartAlias, v: V, q: PartAlias)
    requires
        distinct_keys(entries),
        q.normalized@ == alias.normalized@,
    ensures
        keyed_get(keyed_insert(entries, alias, v), q) == Some(v),
        distinct_keys(keyed_insert(entries, alias, v)),
{
    let after = keyed_insert(entries, alias, v);
    match key_index(entries, alias.normalized@) {
        Some(j) => {
            assert(after[j].0 == entries[j].0);
            assert forall|a: int, b: int| 0 <= a < b < after.len() implies (#[trigger] after[a]).0.normalized@ != (#[trigger] after[b]).0.normalized@ by {
                assert(after[a].0 == entries[a].0 && after[b].0 == entries[b].0);
            }
            lemma_key_index_found(after, q.normalized@, j);
        },
        None => {
            let n = entries.len() as int;
            assert(after[n] == (alias, v));
            assert forall|a: int, b: int| 0 <= a < b < after.len() implies (#[trigger] after[a]).0.normalized@ != (#[trigger] after[b]).0.normalized@ by {
                assert(after[a] == entries[a]);
                if b < n {
                    assert(after[b] == entries[b]);
                }
            }
            lemma_key_index_found(after, q.normalized@, n);
        },
    }
}

/// Storing under `alias` leaves the lookups of other names as they were.
pub proof fn lemma_keyed_get_insert_other<V>(entries: Seq<(PartAlias, V)>, alias: PartAlias, v: V, q: PartAlias)
    requires
        distinct_keys(entries),
        q.normalized@ != alias.normalized@,
    ensures
        keyed_get(keyed_insert(entries, alias, v), q) == keyed_get(entries, q),
{
    let after = keyed_insert(entries, alias, v);
    lemma_keyed_get_insert_same(entries, alias, v, alias);
    match key_index(entries, q.normalized@) {
        Some(i) => {
            assert(after[i].0 == entries[i].0);
            lemma_key_index_found(after, q.normalized@, i);
            match key_index(entries, alias.normalized@) {
                Some(j) => {
                    assert(i != j);
                },
                None => {},
            }
        },
        None => {
            if exists|k: int| 0 <= k < after.len() && after[k].0.normalized@ == q.normalized@ {
                let k = choose|k: int| 0 <= k < after.len() && after[k].0.normalized@ == q.normalized@;
                if k < entries.len() {
                    assert(after[k].0 == entries[k].0);
                } else {
                    assert(after[k].0 == alias);
                }
            }
        },
    }
}

impl PartCache {
    /// No name is cached twice among the parts, nor among the primitives
    /// (every cache is so).
    pub open spec fn wf(&self) -> bool {
        distinct_keys(self.parts()) && distinct_keys(self.primitives())
    }

}

/// What a query gives back after a registration: a part registered under a
/// name is found by that name; a primitive is found unless a part of that
/// name hides it; other names find what they found before.
pub proof fn lemma_query_after_register(
    before: PartCache,
    after: PartCache,
    kind: PartKind,
    alias: PartAlias,
    document: Arc<MultipartDocument>,
    q: PartAlias,
)
    requires
        before.wf(),
        after.registered(before, kind, alias, document),
    ensures
        q.normalized@ == alias.normalized@ ==> after.lookup(q) == (match kind {
            PartKind::Part => Some(document),
            PartKind::Primitive => match keyed_get(before.parts(), q) {
                Some(d) => Some(d),
                None => Some(document),
            },
        }),
        q.normalized@ != alias.normalized@ ==> after.lookup(q) == before.lookup(q),
{
    if q.normalized@ == alias.normalized@ {
        match kind {
            PartKind::Part => lemma_keyed_get_insert_same(before.parts(), alias, document, q),
            PartKind::Primitive => lemma_keyed_get_insert_same(before.primitives(), alias, document, q),
        }
    } else {
        match kind {
            PartKind::Part => lemma_keyed_get_insert_other(before.parts(), alias, document, q),
            PartKind::Primitive => lemma_keyed_get_insert_other(before.primitives(), alias, document, q),
        }
    }
}

} // verus!

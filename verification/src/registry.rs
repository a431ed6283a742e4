//! The parts an offline renderer has baked, by name.

use std::sync::Arc;
use vstd::prelude::*;

use crate::library::{distinct_keys, find_key, keyed_get, keyed_insert, share, store};
use crate::PartAlias;

verus! {

/// Baked parts of type `P`, each under the canonical name of its part.
pub struct PartRegistry<P> {
    map: Vec<(PartAlias, Arc<P>)>,
}

impl<P> PartRegistry<P> {
    /// No two entries share a canonical name.
    #[verifier::type_invariant]
    spec fn distinct(self) -> bool {
        distinct_keys(self.map@)
    }

    /// The parts, each with the name it was first registered under.
    pub closed spec fn entries(&self) -> Seq<(PartAlias, Arc<P>)> {
        self.map@
    }

    /// No parts yet.
    pub fn new() -> (res: Self)
        ensures
            res.entries() == Seq::<(PartAlias, Arc<P>)>::empty(),
    {
        PartRegistry { map: Vec::new() }
    }

    /// Registers `part` under `alias`, in place of a part registered under
    /// the same canonical name.
    pub fn register(&mut self, alias: &PartAlias, part: P)
        ensures
            final(self).entries() == keyed_insert(old(self).entries(), *alias, Arc::new(part)),
    {
        proof {
            use_type_invariant(&*self);
        }
        let mut map = Vec::new();
        std::mem::swap(&mut map, &mut self.map);
        store(&mut map, alias.clone(), Arc::new(part));
        self.map = map;
    }

    /// The part registered under the canonical name of `alias`, if any.
    pub fn query(&self, alias: &PartAlias) -> (res: Option<Arc<P>>)
        ensures
            res == keyed_get(self.entries(), *alias),
    {
        proof {
            use_type_invariant(self);
        }
        match find_key(&self.map, alias) {
            Some(j) => Some(share(&self.map[j].1)),
            None => None,
        }
    }
}

} // verus!

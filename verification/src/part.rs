//! What a baked part keeps of the document it was baked from.

use std::collections::HashMap;
use vstd::prelude::*;

use crate::document::Document;

verus! {

/// The name, description and author of a part, with further fields by name.
#[derive(Clone, Debug)]
pub struct PartMetadata {
    pub name: String,
    pub description: String,
    pub author: String,
    pub extras: HashMap<String, String>,
}

impl PartMetadata {
    /// The metadata of `document`: its name, description and author, and no
    /// further fields.
    pub fn from_document(document: &Document) -> (res: PartMetadata)
        ensures
            res.name@ == document.name@,
            res.description@ == document.description@,
            res.author@ == document.author@,
            res.extras@ == Map::<String, String>::empty(),
    {
        PartMetadata {
            name: document.name.clone(),
            description: document.description.clone(),
            author: document.author.clone(),
            extras: HashMap::new(),
        }
    }
}

} // verus!

//! Looking for files served over HTTP: in an LDraw library at one base
//! address and, for local files, beside the model at another. The addresses
//! a file may be at are asked for together; the first of them, in the order
//! of preference, that answers is taken.

use reqwest::Url;
use vstd::prelude::*;

use crate::error::ResolutionError;
use crate::library::{FileLocation, PartKind};
use crate::PartAlias;

verus! {

#[verifier::external_type_specification]
#[verifier::external_body]
pub struct ExUrl(Url);

/// The base addresses of an LDraw library and of a model's own files.
pub struct HttpLoader {
    ldraw_url_base: Option<Url>,
    document_url_base: Option<Url>,
}

/// Where a file may be: its location, the base address, and the path
/// relative to that base.
pub type Candidate<'a> = (FileLocation, &'a Url, String);

impl HttpLoader {
    pub closed spec fn ldraw_url_base(&self) -> Option<Url> {
        self.ldraw_url_base
    }

    pub closed spec fn document_url_base(&self) -> Option<Url> {
        self.document_url_base
    }

    /// A loader for the library at `ldraw_url_base` and the model files at
    /// `document_url_base`.
    pub fn new(ldraw_url_base: Option<Url>, document_url_base: Option<Url>) -> (res: Self)
        ensures
            res.ldraw_url_base() == ldraw_url_base,
            res.document_url_base() == document_url_base,
    {
        HttpLoader { ldraw_url_base, document_url_base }
    }

    /// The colour definition file: `LDConfig.ldr` relative to the library's
    /// base; without a library base, `NoLDrawDir`.
    pub fn colors_location(&self) -> (res: Result<(&Url, String), ResolutionError>)
        ensures
            match self.ldraw_url_base() {
                Some(base) => res matches Ok((b, path)) && *b == base && path@ == seq!['L', 'D', 'C', 'o', 'n', 'f', 'i', 'g', '.', 'l', 'd', 'r'],
                None => res matches Err(ResolutionError::NoLDrawDir),
            },
    {
        match &self.ldraw_url_base {
            Some(base) => {
                let path = String::from_str("LDConfig.ldr");
                proof {
                    reveal_strlit("LDConfig.ldr");
                }
                Ok((base, path))
            },
            None => Err(ResolutionError::NoLDrawDir),
        }
    }

    /// Where the file of `alias` may be, in the order of preference: beside
    /// the model (for a local file, when the model's base is known), then
    /// `parts/` and `p/` of the library; without a library base,
    /// `NoLDrawDir`.
    pub fn candidates(&self, alias: &PartAlias, local: bool) -> (res: Result<Vec<Candidate<'_>>, ResolutionError>)
        ensures
            self.ldraw_url_base() is None ==> res matches Err(ResolutionError::NoLDrawDir),
            self.ldraw_url_base() matches Some(lib) ==> res matches Ok(list) && {
                let n = alias@.normalized;
                let library = seq![
                    (FileLocation::Library(PartKind::Part), lib, seq!['p', 'a', 'r', 't', 's', '/'] + n),
                    (FileLocation::Library(PartKind::Primitive), lib, seq!['p', '/'] + n),
                ];
                list@.map_values(|c: Candidate<'_>| (c.0, *c.1, c.2@)) == match self.document_url_base() {
                    Some(doc) => if local {
                        seq![(FileLocation::Local, doc, n)] + library
                    } else {
                        library
                    },
                    None => library,
                }
            },
    {
        let lib = match &self.ldraw_url_base {
            Some(base) => base,
            None => {
                return Err(ResolutionError::NoLDrawDir);
            },
        };
        let mut list: Vec<Candidate<'_>> = Vec::new();
        if local {
            if let Some(doc) = &self.document_url_base {
                list.push((FileLocation::Local, doc, alias.normalized.clone()));
            }
        }
        let mut parts = String::from_str("parts/");
        parts.append(alias.normalized.as_str());
        let mut primitives = String::from_str("p/");
        primitives.append(alias.normalized.as_str());
        proof {
            reveal_strlit("parts/");
            reveal_strlit("p/");
        }
        let ghost n = alias@.normalized;
        assert(parts@ =~= seq!['p', 'a', 'r', 't', 's', '/'] + n);
        assert(primitives@ =~= seq!['p', '/'] + n);
        list.push((FileLocation::Library(PartKind::Part), lib, parts));
        list.push((FileLocation::Library(PartKind::Primitive), lib, primitives));
        let ghost library = seq![
            (FileLocation::Library(PartKind::Part), *lib, seq!['p', 'a', 'r', 't', 's', '/'] + n),
            (FileLocation::Library(PartKind::Primitive), *lib, seq!['p', '/'] + n),
        ];
        assert(list@.map_values(|c: Candidate<'_>| (c.0, *c.1, c.2@)) =~= match self.document_url_base() {
            Some(doc) => if local {
                seq![(FileLocation::Local, doc, n)] + library
            } else {
                library
            },
            None => library,
        });
        Ok(list)
    }
}

/// Which of the answers to the candidates' addresses is taken, given the
/// status of each (none where the request failed): the first that is 200
/// (OK); when none is, `FileNotFound`.
pub fn select_response(statuses: &Vec<Option<u16>>) -> (res: Result<usize, ResolutionError>)
    ensures
        match res {
            Ok(i) => i < statuses@.len() && statuses@[i as int] == Some(200u16) && forall|j: int|
                0 <= j < i ==> statuses@[j] != Some(200u16),
            Err(e) => e is FileNotFound && forall|j: int| 0 <= j < statuses@.len() ==> statuses@[j] != Some(200u16),
        },
{
    let mut i: usize = 0;
    while i < statuses.len()
        invariant
            i <= statuses@.len(),
            forall|j: int| 0 <= j < i ==> statuses@[j] != Some(200u16),
        decreases statuses@.len() - i,
    {
        if let Some(status) = statuses[i] {
            if status == 200 {
                return Ok(i);
            }
        }
        i = i + 1;
    }
    Err(ResolutionError::FileNotFound)
}

} // verus!

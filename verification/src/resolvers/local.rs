//! Looking for files on the local disk: in the LDraw directory and beside the
//! model.

use std::path::PathBuf;
use vstd::prelude::*;

use crate::error::ResolutionError;
use crate::library::{FileLocation, PartKind};
use crate::PartAlias;

verus! {

#[verifier::external_type_specification]
#[verifier::external_body]
pub struct ExPathBuf(PathBuf);

/// Where a file may be: its location, the directory to start from, and the
/// path components to follow from there, in order.
pub type LocalCandidate<'a> = (FileLocation, &'a PathBuf, Vec<String>);

/// A candidate as the contracts see it.
pub open spec fn candidate_view(c: LocalCandidate<'_>) -> (FileLocation, PathBuf, Seq<Seq<char>>) {
    (c.0, *c.1, c.2@.map_values(|s: String| s@))
}

/// Finds files in an LDraw directory (its `parts` and `p` folders) and, for
/// local files, in the model's own directory.
pub struct LocalLoader {
    ldrawdir: Option<PathBuf>,
    cwd: Option<PathBuf>,
}

impl LocalLoader {
    pub closed spec fn ldrawdir(&self) -> Option<PathBuf> {
        self.ldrawdir
    }

    pub closed spec fn cwd(&self) -> Option<PathBuf> {
        self.cwd
    }

    /// A loader for the LDraw directory `ldrawdir` and the model directory
    /// `cwd`.
    pub fn new(ldrawdir: Option<PathBuf>, cwd: Option<PathBuf>) -> (res: Self)
        ensures
            res.ldrawdir() == ldrawdir,
            res.cwd() == cwd,
    {
        LocalLoader { ldrawdir, cwd }
    }

    /// The colour definition file: the LDraw directory and the file name
    /// `LDConfig.ldr` in it; without an LDraw directory, `NoLDrawDir`.
    pub fn colors_path(&self) -> (res: Result<(&PathBuf, String), ResolutionError>)
        ensures
            self.ldrawdir() is None ==> res matches Err(ResolutionError::NoLDrawDir),
            self.ldrawdir() matches Some(dir) ==> res matches Ok((d, f)) && *d == dir && f@ == "LDConfig.ldr"@,
    {
        match &self.ldrawdir {
            Some(dir) => {
                let name = String::from_str("LDConfig.ldr");
                Ok((dir, name))
            },
            None => Err(ResolutionError::NoLDrawDir),
        }
    }

    /// Where the file of `alias` may be, in the order in which it is looked
    /// for: its normalized name beside the model (for a local file, when the
    /// model directory is known), then under `parts` and under `p` of the
    /// LDraw directory; without an LDraw directory, `NoLDrawDir`.
    pub fn candidates(&self, alias: &PartAlias, local: bool) -> (res: Result<Vec<LocalCandidate<'_>>, ResolutionError>)
        ensures
            self.ldrawdir() is None ==> res matches Err(ResolutionError::NoLDrawDir),
            self.ldrawdir() matches Some(dir) ==> res matches Ok(list) && {
                let n = alias@.normalized;
                let library = seq![
                    (FileLocation::Library(PartKind::Part), dir, seq!["parts"@, n]),
                    (FileLocation::Library(PartKind::Primitive), dir, seq!["p"@, n]),
                ];
                list@.map_values(|c: LocalCandidate<'_>| candidate_view(c)) == match self.cwd() {
                    Some(cwd) => if local {
                        seq![(FileLocation::Local, cwd, seq![n])] + library
                    } else {
                        library
                    },
                    None => library,
                }
            },
    {
        let dir = match &self.ldrawdir {
            Some(dir) => dir,
            None => {
                return Err(ResolutionError::NoLDrawDir);
            },
        };
        let mut list: Vec<LocalCandidate<'_>> = Vec::new();
        if local {
            if let Some(cwd) = &self.cwd {
                let mut path: Vec<String> = Vec::new();
                path.push(alias.normalized.clone());
                assert(path@.map_values(|s: String| s@) =~= seq![alias@.normalized]);
                list.push((FileLocation::Local, cwd, path));
            }
        }
        let mut parts: Vec<String> = Vec::new();
        parts.push(String::from_str("parts"));
        parts.push(alias.normalized.clone());
        let mut primitives: Vec<String> = Vec::new();
        primitives.push(String::from_str("p"));
        primitives.push(alias.normalized.clone());
        list.push((FileLocation::Library(PartKind::Part), dir, parts));
        list.push((FileLocation::Library(PartKind::Primitive), dir, primitives));
        let ghost n = alias@.normalized;
        assert(parts@.map_values(|s: String| s@) =~= seq!["parts"@, n]);
        assert(primitives@.map_values(|s: String| s@) =~= seq!["p"@, n]);
        let ghost library = seq![
            (FileLocation::Library(PartKind::Part), *dir, seq!["parts"@, n]),
            (FileLocation::Library(PartKind::Primitive), *dir, seq!["p"@, n]),
        ];
        assert(list@.map_values(|c: LocalCandidate<'_>| candidate_view(c)) =~= match self.cwd() {
            Some(cwd) => if local {
                seq![(FileLocation::Local, cwd, seq![n])] + library
            } else {
                library
            },
            None => library,
        });
        Ok(list)
    }
}

} // verus!

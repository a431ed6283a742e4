//! LDraw documents: a single part or model, and a model file with subparts.

use vstd::prelude::*;

use crate::elements::{
    Command, Header, Line, Meta, OptionalLine, PartReference, Quad, SpecCommand, SpecHeader,
    Triangle,
};
use crate::{PartAlias, SpecPartAlias, Winding};

verus! {

/// Whether a document declares its back-face culling, and with which winding.
#[derive(Copy, Clone, Debug, PartialEq, Eq, Structural)]
pub enum BfcCertification {
    NotApplicable,
    NoCertify,
    Certify(Winding),
}

/// Whether a document certified as `b` takes part in back-face culling:
/// `None` when it says nothing.
pub open spec fn certified(b: BfcCertification) -> Option<bool> {
    match b {
        BfcCertification::Certify(_) => Some(true),
        BfcCertification::NoCertify => Some(false),
        BfcCertification::NotApplicable => None,
    }
}

/// The winding that `b` certifies, if any.
pub open spec fn certified_winding(b: BfcCertification) -> Option<Winding> {
    match b {
        BfcCertification::Certify(w) => Some(w),
        _ => None,
    }
}

impl BfcCertification {
    /// `Some(true)` when certified, `Some(false)` when declared uncertified,
    /// `None` when the document says nothing.
    pub fn is_certified(&self) -> (res: Option<bool>)
        ensures
            res == certified(*self),
    {
        match self {
            BfcCertification::Certify(_) => Some(true),
            BfcCertification::NoCertify => Some(false),
            BfcCertification::NotApplicable => None,
        }
    }

    /// The certified winding, if any.
    pub fn get_winding(&self) -> (res: Option<Winding>)
        ensures
            res == certified_winding(*self),
    {
        match self {
            BfcCertification::Certify(w) => Some(*w),
            _ => None,
        }
    }
}

/// A certification has a winding exactly when it certifies.
pub proof fn lemma_winding_iff_certified(b: BfcCertification)
    ensures
        (certified_winding(b) is Some) == (certified(b) == Some(true)),
{
}

/// One LDraw document: its name, description and author, its back-face
/// culling, its header lines and its commands in file order.
#[derive(Clone, Debug, PartialEq)]
pub struct Document {
    pub name: String,
    pub description: String,
    pub author: String,
    pub bfc: BfcCertification,
    pub headers: Vec<Header>,
    pub commands: Vec<Command>,
}

pub struct SpecDocument {
    pub name: Seq<char>,
    pub description: Seq<char>,
    pub author: Seq<char>,
    pub bfc: BfcCertification,
    pub headers: Seq<SpecHeader>,
    pub commands: Seq<SpecCommand>,
}

impl View for Document {
    type V = SpecDocument;

    open spec fn view(&self) -> SpecDocument {
        SpecDocument {
            name: self.name@,
            description: self.description@,
            author: self.author@,
            bfc: self.bfc,
            headers: self.headers@.map_values(|h: Header| h@),
            commands: self.commands@.map_values(|c: Command| c@),
        }
    }
}

impl Document {
    /// Every number of every command is one that `f32::from_str` accepts.
    pub open spec fn wf(&self) -> bool {
        forall|i: int| 0 <= i < self.commands@.len() ==> #[trigger] self.commands@[i].wf()
    }
}

/// A model file: its main document and the subparts it embeds, each under
/// the name of its `0 FILE` line (no two with the same canonical name).
#[derive(Clone, Debug, PartialEq)]
pub struct MultipartDocument {
    pub body: Document,
    pub subparts: Vec<(PartAlias, Document)>,
}

pub struct SpecMultipartDocument {
    pub body: SpecDocument,
    pub subparts: Seq<(SpecPartAlias, SpecDocument)>,
}

impl View for MultipartDocument {
    type V = SpecMultipartDocument;

    open spec fn view(&self) -> SpecMultipartDocument {
        SpecMultipartDocument {
            body: self.body@,
            subparts: self.subparts@.map_values(|p: (PartAlias, Document)| (p.0@, p.1@)),
        }
    }
}

/// No two subparts share a canonical name.
pub open spec fn distinct_names(subparts: Seq<(SpecPartAlias, SpecDocument)>) -> bool {
    forall|i: int, j: int|
        0 <= i < j < subparts.len() ==> #[trigger] subparts[i].0.normalized != #[trigger] subparts[j].0.normalized
}

impl MultipartDocument {
    pub open spec fn wf(&self) -> bool {
        &&& distinct_names(self@.subparts)
        &&& self.body.wf()
        &&& forall|i: int| 0 <= i < self.subparts@.len() ==> #[trigger] self.subparts@[i].1.wf()
    }
}

/// The index of the subpart named (canonically) `normalized`, if any.
pub open spec fn subpart_index(subparts: Seq<(SpecPartAlias, SpecDocument)>, normalized: Seq<char>) -> Option<int> {
    if exists|j: int| 0 <= j < subparts.len() && subparts[j].0.normalized == normalized {
        Some(choose|j: int| 0 <= j < subparts.len() && subparts[j].0.normalized == normalized)
    } else {
        None
    }
}

/// The part references among `cmds`, in order.
pub open spec fn part_refs(cmds: Seq<Command>) -> Seq<PartReference>
    decreases cmds.len(),
{
    if cmds.len() == 0 {
        Seq::empty()
    } else {
        let rest = part_refs(cmds.drop_last());
        match cmds.last() {
            Command::PartReference(r) => rest.push(r),
            _ => rest,
        }
    }
}

/// The meta commands among `cmds`, in order.
pub open spec fn metas(cmds: Seq<Command>) -> Seq<Meta>
    decreases cmds.len(),
{
    if cmds.len() == 0 {
        Seq::empty()
    } else {
        let rest = metas(cmds.drop_last());
        match cmds.last() {
            Command::Meta(m) => rest.push(m),
            _ => rest,
        }
    }
}

/// The edges among `cmds`, in order.
pub open spec fn lines_of(cmds: Seq<Command>) -> Seq<Line>
    decreases cmds.len(),
{
    if cmds.len() == 0 {
        Seq::empty()
    } else {
        let rest = lines_of(cmds.drop_last());
        match cmds.last() {
            Command::Line(m) => rest.push(m),
            _ => rest,
        }
    }
}

/// The triangles among `cmds`, in order.
pub open spec fn triangles_of(cmds: Seq<Command>) -> Seq<Triangle>
    decreases cmds.len(),
{
    if cmds.len() == 0 {
        Seq::empty()
    } else {
        let rest = triangles_of(cmds.drop_last());
        match cmds.last() {
            Command::Triangle(m) => rest.push(m),
            _ => rest,
        }
    }
}

/// The quadrilaterals among `cmds`, in order.
pub open spec fn quads_of(cmds: Seq<Command>) -> Seq<Quad>
    decreases cmds.len(),
{
    if cmds.len() == 0 {
        Seq::empty()
    } else {
        let rest = quads_of(cmds.drop_last());
        match cmds.last() {
            Command::Quad(m) => rest.push(m),
            _ => rest,
        }
    }
}

/// The optional edges among `cmds`, in order.
pub open spec fn optional_lines_of(cmds: Seq<Command>) -> Seq<OptionalLine>
    decreases cmds.len(),
{
    if cmds.len() == 0 {
        Seq::empty()
    } else {
        let rest = optional_lines_of(cmds.drop_last());
        match cmds.last() {
            Command::OptionalLine(m) => rest.push(m),
            _ => rest,
        }
    }
}

/// Whether a command draws something.
pub open spec fn is_geometry(c: Command) -> bool {
    c is Line || c is Triangle || c is Quad || c is OptionalLine
}

impl Document {
    /// Whether any command is an edge, triangle, quadrilateral or optional
    /// edge.
    pub fn has_geometry(&self) -> (res: bool)
        ensures
            res == exists|i: int| 0 <= i < self.commands@.len() && is_geometry(#[trigger] self.commands@[i]),
    {
        let mut i: usize = 0;
        while i < self.commands.len()
            invariant
                i <= self.commands@.len(),
                forall|j: int| 0 <= j < i ==> !is_geometry(#[trigger] self.commands@[j]),
            decreases self.commands@.len() - i,
        {
            match &self.commands[i] {
                Command::Line(_) | Command::Triangle(_) | Command::Quad(_) | Command::OptionalLine(_) => {
                    assert(is_geometry(self.commands@[i as int]));
                    return true;
                },
                _ => {},
            }
            i = i + 1;
        }
        false
    }

    /// The meta commands, in order.
    pub fn iter_meta(&self) -> (res: Vec<&Meta>)
        ensures
            res@.map_values(|m: &Meta| *m) == metas(self.commands@),
    {
        let mut res: Vec<&Meta> = Vec::new();
        let mut i: usize = 0;
        while i < self.commands.len()
            invariant
                i <= self.commands@.len(),
                res@.map_values(|m: &Meta| *m) == metas(self.commands@.subrange(0, i as int)),
            decreases self.commands@.len() - i,
        {
            assert(self.commands@.subrange(0, i + 1).drop_last() =~= self.commands@.subrange(0, i as int));
            if let Command::Meta(m) = &self.commands[i] {
                res.push(m);
            }
            i = i + 1;
            assert(res@.map_values(|m: &Meta| *m) =~= metas(self.commands@.subrange(0, i as int)));
        }
        assert(self.commands@.subrange(0, i as int) =~= self.commands@);
        res
    }

    /// The part references, in order.
    pub fn iter_refs(&self) -> (res: Vec<&PartReference>)
        ensures
            res@.map_values(|r: &PartReference| *r) == part_refs(self.commands@),
    {
        let mut res: Vec<&PartReference> = Vec::new();
        let mut i: usize = 0;
        while i < self.commands.len()
            invariant
                i <= self.commands@.len(),
                res@.map_values(|r: &PartReference| *r) == part_refs(self.commands@.subrange(0, i as int)),
            decreases self.commands@.len() - i,
        {
            assert(self.commands@.subrange(0, i + 1).drop_last() =~= self.commands@.subrange(0, i as int));
            if let Command::PartReference(r) = &self.commands[i] {
                res.push(r);
            }
            i = i + 1;
            assert(res@.map_values(|r: &PartReference| *r) =~= part_refs(self.commands@.subrange(0, i as int)));
        }
        assert(self.commands@.subrange(0, i as int) =~= self.commands@);
        res
    }

    /// The edges, in order.
    pub fn iter_lines(&self) -> (res: Vec<&Line>)
        ensures
            res@.map_values(|r: &Line| *r) == lines_of(self.commands@),
    {
        let mut res: Vec<&Line> = Vec::new();
        let mut i: usize = 0;
        while i < self.commands.len()
            invariant
                i <= self.commands@.len(),
                res@.map_values(|r: &Line| *r) == lines_of(self.commands@.subrange(0, i as int)),
            decreases self.commands@.len() - i,
        {
            assert(self.commands@.subrange(0, i + 1).drop_last() =~= self.commands@.subrange(0, i as int));
            if let Command::Line(r) = &self.commands[i] {
                res.push(r);
            }
            i = i + 1;
            assert(res@.map_values(|r: &Line| *r) =~= lines_of(self.commands@.subrange(0, i as int)));
        }
        assert(self.commands@.subrange(0, i as int) =~= self.commands@);
        res
    }

    /// The triangles, in order.
    pub fn iter_triangles(&self) -> (res: Vec<&Triangle>)
        ensures
            res@.map_values(|r: &Triangle| *r) == triangles_of(self.commands@),
    {
        let mut res: Vec<&Triangle> = Vec::new();
        let mut i: usize = 0;
        while i < self.commands.len()
            invariant
                i <= self.commands@.len(),
                res@.map_values(|r: &Triangle| *r) == triangles_of(self.commands@.subrange(0, i as int)),
            decreases self.commands@.len() - i,
        {
            assert(self.commands@.subrange(0, i + 1).drop_last() =~= self.commands@.subrange(0, i as int));
            if let Command::Triangle(r) = &self.commands[i] {
                res.push(r);
            }
            i = i + 1;
            assert(res@.map_values(|r: &Triangle| *r) =~= triangles_of(self.commands@.subrange(0, i as int)));
        }
        assert(self.commands@.subrange(0, i as int) =~= self.commands@);
        res
    }

    /// The quadrilaterals, in order.
    pub fn iter_quads(&self) -> (res: Vec<&Quad>)
        ensures
            res@.map_values(|r: &Quad| *r) == quads_of(self.commands@),
    {
        let mut res: Vec<&Quad> = Vec::new();
        let mut i: usize = 0;
        while i < self.commands.len()
            invariant
                i <= self.commands@.len(),
                res@.map_values(|r: &Quad| *r) == quads_of(self.commands@.subrange(0, i as int)),
            decreases self.commands@.len() - i,
        {
            assert(self.commands@.subrange(0, i + 1).drop_last() =~= self.commands@.subrange(0, i as int));
            if let Command::Quad(r) = &self.commands[i] {
                res.push(r);
            }
            i = i + 1;
            assert(res@.map_values(|r: &Quad| *r) =~= quads_of(self.commands@.subrange(0, i as int)));
        }
        assert(self.commands@.subrange(0, i as int) =~= self.commands@);
        res
    }

    /// The optional edges, in order.
    pub fn iter_optional_lines(&self) -> (res: Vec<&OptionalLine>)
        ensures
            res@.map_values(|r: &OptionalLine| *r) == optional_lines_of(self.commands@),
    {
        let mut res: Vec<&OptionalLine> = Vec::new();
        let mut i: usize = 0;
        while i < self.commands.len()
            invariant
                i <= self.commands@.len(),
                res@.map_values(|r: &OptionalLine| *r) == optional_lines_of(self.commands@.subrange(0, i as int)),
            decreases self.commands@.len() - i,
        {
            assert(self.commands@.subrange(0, i + 1).drop_last() =~= self.commands@.subrange(0, i as int));
            if let Command::OptionalLine(r) = &self.commands[i] {
                res.push(r);
            }
            i = i + 1;
            assert(res@.map_values(|r: &OptionalLine| *r) =~= optional_lines_of(self.commands@.subrange(0, i as int)));
        }
        assert(self.commands@.subrange(0, i as int) =~= self.commands@);
        res
    }
}


impl MultipartDocument {
    /// Whether no two subparts share a canonical name (as with every parsed
    /// model file).
    pub fn has_distinct_subparts(&self) -> (res: bool)
        ensures
            res == distinct_names(self@.subparts),
    {
        let ghost sv = self@.subparts;
        let mut i: usize = 0;
        while i < self.subparts.len()
            invariant
                i <= sv.len(),
                sv == self@.subparts,
                forall|a: int, b: int| 0 <= a < b < sv.len() && a < i ==> #[trigger] sv[a].0.normalized != #[trigger] sv[b].0.normalized,
            decreases sv.len() - i,
        {
            let mut j: usize = i + 1;
            while j < self.subparts.len()
                invariant
                    i < sv.len(),
                    i + 1 <= j <= sv.len(),
                    sv == self@.subparts,
                    forall|a: int, b: int| 0 <= a < b < sv.len() && a < i ==> #[trigger] sv[a].0.normalized != #[trigger] sv[b].0.normalized,
                    forall|b: int| i < b < j ==> sv[i as int].0.normalized != #[trigger] sv[b].0.normalized,
                decreases sv.len() - j,
            {
                assert(sv[i as int] == (self.subparts@[i as int].0@, self.subparts@[i as int].1@));
                assert(sv[j as int] == (self.subparts@[j as int].0@, self.subparts@[j as int].1@));
                if crate::text::str_eq(self.subparts[i].0.normalized.as_str(), self.subparts[j].0.normalized.as_str()) {
                    assert(sv[i as int].0.normalized == sv[j as int].0.normalized);
                    return false;
                }
                j = j + 1;
            }
            i = i + 1;
        }
        true
    }

    /// The subpart named (canonically) like `alias`.
    pub fn get_subpart(&self, alias: &PartAlias) -> (res: Option<&Document>)
        requires
            distinct_names(self@.subparts),
        ensures
            match subpart_index(self@.subparts, alias@.normalized) {
                Some(j) => res == Some(&self.subparts@[j].1),
                None => res is None,
            },
    {
        let ghost sv = self@.subparts;
        let mut j: usize = 0;
        while j < self.subparts.len()
            invariant
                j <= self.subparts@.len(),
                sv == self@.subparts,
                distinct_names(sv),
                forall|k: int| 0 <= k < j ==> sv[k].0.normalized != alias@.normalized,
            decreases self.subparts@.len() - j,
        {
            assert(sv[j as int] == (self.subparts@[j as int].0@, self.subparts@[j as int].1@));
            if crate::text::str_eq(self.subparts[j].0.normalized.as_str(), alias.normalized.as_str()) {
                assert(subpart_index(sv, alias@.normalized) == Some(j as int)) by {
                    let c = choose|c: int| 0 <= c < sv.len() && sv[c].0.normalized == alias@.normalized;
                    if c != j as int && c > j {
                        assert(sv[j as int].0.normalized != sv[c].0.normalized);
                    }
                }
                return Some(&self.subparts[j].1);
            }
            j = j + 1;
        }
        None
    }
}

/// The canonical names in `list`.
pub open spec fn alias_names(list: Seq<PartAlias>) -> Set<Seq<char>> {
    Set::new(|n: Seq<char>| exists|i: int| 0 <= i < list.len() && (#[trigger] list[i]).normalized@ == n)
}

/// No two entries of `list` share a canonical name.
pub open spec fn distinct_aliases(list: Seq<PartAlias>) -> bool {
    forall|i: int, j: int| 0 <= i < j < list.len() ==> (#[trigger] list[i]).normalized@ != (#[trigger] list[j]).normalized@
}

/// Whether the command `c` brings in a dependency named `n`: a reference to
/// a subpart of `md` brings in that subpart's dependencies (looked into at
/// most `fuel` deep), any other reference the part it names.
pub open spec fn command_depends_on(md: SpecMultipartDocument, c: SpecCommand, n: Seq<char>, fuel: nat) -> bool
    decreases fuel, 0nat,
{
    match c {
        SpecCommand::PartReference(r) => match subpart_index(md.subparts, r.name.normalized) {
            Some(j) => fuel > 0 && depends_on(md, md.subparts[j].1, n, (fuel - 1) as nat),
            None => r.name.normalized == n,
        },
        _ => false,
    }
}

/// Whether one of the first `k` commands of `d` brings in a dependency
/// named `n`.
pub open spec fn depends_on_upto(md: SpecMultipartDocument, d: SpecDocument, k: int, n: Seq<char>, fuel: nat) -> bool
    decreases fuel, 1nat,
{
    exists|i: int| 0 <= i < k && i < d.commands.len() && command_depends_on(md, #[trigger] d.commands[i], n, fuel)
}

/// Whether `d` depends on the part named `n`.
pub open spec fn depends_on(md: SpecMultipartDocument, d: SpecDocument, n: Seq<char>, fuel: nat) -> bool
    decreases fuel, 2nat,
{
    depends_on_upto(md, d, d.commands.len() as int, n, fuel)
}

/// Following references to subparts from `d` never goes deeper than `fuel`
/// (no subpart refers back to itself).
pub open spec fn bounded(md: SpecMultipartDocument, d: SpecDocument, fuel: nat) -> bool
    decreases fuel,
{
    forall|i: int|
        0 <= i < d.commands.len() ==> match #[trigger] d.commands[i] {
            SpecCommand::PartReference(r) => match subpart_index(md.subparts, r.name.normalized) {
                Some(j) => fuel > 0 && bounded(md, md.subparts[j].1, (fuel - 1) as nat),
                None => true,
            },
            _ => true,
        }
}

/// A name that a document depends on is never the name of one of the
/// model's subparts: a reference to a subpart is replaced by the subpart's
/// own dependencies.
pub proof fn lemma_dependencies_are_not_subparts(md: SpecMultipartDocument, d: SpecDocument, n: Seq<char>, fuel: nat)
    requires
        depends_on(md, d, n, fuel),
    ensures
        subpart_index(md.subparts, n) is None,
    decreases fuel,
{
    let i = choose|i: int| 0 <= i < d.commands.len() && i < d.commands.len() && command_depends_on(md, #[trigger] d.commands[i], n, fuel);
    match d.commands[i] {
        SpecCommand::PartReference(r) => match subpart_index(md.subparts, r.name.normalized) {
            Some(j) => {
                lemma_dependencies_are_not_subparts(md, md.subparts[j].1, n, (fuel - 1) as nat);
            },
            None => {},
        },
        _ => {},
    }
}

/// A reference to a part that is not a subpart makes the document depend on
/// it; a reference to a subpart (looked into while `fuel` lasts) makes it
/// depend on everything the subpart depends on.
pub proof fn lemma_reference_dependencies(md: SpecMultipartDocument, d: SpecDocument, i: int, n: Seq<char>, fuel: nat)
    requires
        0 <= i < d.commands.len(),
        d.commands[i] is PartReference,
    ensures
        ({
            let r = d.commands[i]->PartReference_0;
            match subpart_index(md.subparts, r.name.normalized) {
                None => depends_on(md, d, r.name.normalized, fuel),
                Some(j) => fuel > 0 && depends_on(md, md.subparts[j].1, n, (fuel - 1) as nat) ==> depends_on(md, d, n, fuel),
            }
        }),
{
    let r = d.commands[i]->PartReference_0;
    match subpart_index(md.subparts, r.name.normalized) {
        None => {
            assert(command_depends_on(md, d.commands[i], r.name.normalized, fuel));
        },
        Some(j) => {
            if fuel > 0 && depends_on(md, md.subparts[j].1, n, (fuel - 1) as nat) {
                assert(command_depends_on(md, d.commands[i], n, fuel));
            }
        },
    }
}

/// A document with no subparts, standing for "no parent".
pub open spec fn no_parent(d: SpecDocument) -> SpecMultipartDocument {
    SpecMultipartDocument { body: d, subparts: Seq::empty() }
}

/// Adds `alias` to `list` unless a name with the same canonical form is
/// there.
pub(crate) fn add_dependency(list: &mut Vec<PartAlias>, alias: &PartAlias)
    requires
        distinct_aliases(old(list)@),
    ensures
        distinct_aliases(final(list)@),
        alias_names(final(list)@) == alias_names(old(list)@).insert(alias.normalized@),
        final(list)@ == (if alias_names(old(list)@).contains(alias.normalized@) {
            old(list)@
        } else {
            old(list)@.push(*alias)
        }),
{
    let mut j: usize = 0;
    while j < list.len()
        invariant
            j <= list@.len(),
            list@ == old(list)@,
            distinct_aliases(old(list)@),
            forall|k: int| 0 <= k < j ==> list@[k].normalized@ != alias.normalized@,
        decreases list@.len() - j,
    {
        if crate::text::str_eq(list[j].normalized.as_str(), alias.normalized.as_str()) {
            assert(alias_names(list@) =~= alias_names(old(list)@).insert(alias.normalized@)) by {
                assert(list@[j as int].normalized@ == alias.normalized@);
            }
            return ;
        }
        j = j + 1;
    }
    let ghost before = list@;
    list.push(alias.clone());
    assert(forall|k: int| 0 <= k < before.len() ==> list@[k] == before[k]);
    assert(alias_names(list@) =~= alias_names(before).insert(alias.normalized@)) by {
        assert(list@[before.len() as int].normalized@ == alias.normalized@);
        assert forall|n: Seq<char>| alias_names(list@).contains(n) implies alias_names(before).insert(alias.normalized@).contains(n) by {
            let i = choose|i: int| 0 <= i < list@.len() && (#[trigger] list@[i]).normalized@ == n;
            if i < before.len() {
                assert(before[i].normalized@ == n);
            }
        }
        assert forall|n: Seq<char>| alias_names(before).contains(n) implies alias_names(list@).contains(n) by {
            let i = choose|i: int| 0 <= i < before.len() && (#[trigger] before[i]).normalized@ == n;
            assert(list@[i].normalized@ == n);
        }
    }
}

/// Collects into `list` the parts that `document` depends on, looking into
/// the subparts of `parent` rather than listing them.
fn traverse_dependencies(document: &Document, parent: Option<&MultipartDocument>, list: &mut Vec<PartAlias>, Ghost(fuel): Ghost<nat>)
    requires
        distinct_aliases(old(list)@),
        parent matches Some(p) ==> distinct_names(p@.subparts) && bounded(p@, document@, fuel),
    ensures
        distinct_aliases(final(list)@),
        forall|n: Seq<char>|
            #[trigger] alias_names(final(list)@).contains(n) == (alias_names(old(list)@).contains(n) || depends_on(
                match parent {
                    Some(p) => p@,
                    None => no_parent(document@),
                },
                document@,
                n,
                fuel,
            )),
    decreases fuel,
{
    let ghost md = match parent {
        Some(p) => p@,
        None => no_parent(document@),
    };
    let ghost start = alias_names(list@);
    let mut i: usize = 0;
    while i < document.commands.len()
        invariant
            i <= document.commands@.len(),
            md == (match parent {
                Some(p) => p@,
                None => no_parent(document@),
            }),
            parent matches Some(p) ==> distinct_names(p@.subparts) && bounded(p@, document@, fuel),
            start == alias_names(old(list)@),
            distinct_aliases(list@),
            forall|n: Seq<char>|
                #[trigger] alias_names(list@).contains(n) == (start.contains(n) || depends_on_upto(md, document@, i as int, n, fuel)),
        decreases document.commands@.len() - i,
    {
        let ghost before = alias_names(list@);
        let ghost c = document@.commands[i as int];
        assert(c == document.commands@[i as int]@);
        if let Command::PartReference(part_ref) = &document.commands[i] {
            let mut handled = false;
            if let Some(p) = parent {
                if let Some(sub) = p.get_subpart(&part_ref.name) {
                    let ghost j = subpart_index(md.subparts, part_ref.name@.normalized)->Some_0;
                    assert(sub@ == md.subparts[j].1);
                    assert(bounded(md, document@, fuel));
                    assert(fuel > 0 && bounded(md, md.subparts[j].1, (fuel - 1) as nat)) by {
                        assert(match document@.commands[i as int] {
                            SpecCommand::PartReference(r) => match subpart_index(md.subparts, r.name.normalized) {
                                Some(j) => fuel > 0 && bounded(md, md.subparts[j].1, (fuel - 1) as nat),
                                None => true,
                            },
                            _ => true,
                        });
                    }
                    traverse_dependencies(sub, Some(p), list, Ghost((fuel - 1) as nat));
                    handled = true;
                }
            }
            if !handled {
                add_dependency(list, &part_ref.name);
            }
        }
        proof {
            assert forall|n: Seq<char>|
                #[trigger] alias_names(list@).contains(n) == (start.contains(n) || depends_on_upto(md, document@, i + 1, n, fuel)) by {
                if depends_on_upto(md, document@, i + 1, n, fuel) && !depends_on_upto(md, document@, i as int, n, fuel) {
                    let k = choose|k: int| 0 <= k < i + 1 && k < document@.commands.len() && command_depends_on(md, #[trigger] document@.commands[k], n, fuel);
                    assert(k == i);
                }
                if depends_on_upto(md, document@, i as int, n, fuel) {
                    let k = choose|k: int| 0 <= k < i && k < document@.commands.len() && command_depends_on(md, #[trigger] document@.commands[k], n, fuel);
                    assert(depends_on_upto(md, document@, i + 1, n, fuel));
                }
                if command_depends_on(md, c, n, fuel) {
                    assert(depends_on_upto(md, document@, i + 1, n, fuel));
                }
            }
        }
        i = i + 1;
    }
}

impl Document {
    /// The names of the parts this document refers to, each canonical name
    /// once.
    pub fn list_dependencies(&self) -> (res: Vec<PartAlias>)
        ensures
            distinct_aliases(res@),
            forall|n: Seq<char>| #[trigger] alias_names(res@).contains(n) == depends_on(no_parent(self@), self@, n, 0),
    {
        let mut result: Vec<PartAlias> = Vec::new();
        assert(alias_names(result@) =~= Set::<Seq<char>>::empty());
        traverse_dependencies(self, None, &mut result, Ghost(0));
        result
    }
}

impl MultipartDocument {
    /// The names of the parts this model depends on, each canonical name once:
    /// the references of the main document, with those to subparts replaced by
    /// the dependencies of the subparts.
    pub fn list_dependencies(&self) -> (res: Vec<PartAlias>)
        requires
            distinct_names(self@.subparts),
            bounded(self@, self@.body, self@.subparts.len()),
        ensures
            distinct_aliases(res@),
            forall|n: Seq<char>|
                #[trigger] alias_names(res@).contains(n) == depends_on(self@, self@.body, n, self@.subparts.len()),
    {
        let mut result: Vec<PartAlias> = Vec::new();
        assert(alias_names(result@) =~= Set::<Seq<char>>::empty());
        traverse_dependencies(&self.body, Some(self), &mut result, Ghost(self@.subparts.len()));
        result
    }
}

} // verus!

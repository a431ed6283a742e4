//! The back-face culling decisions taken while a model is walked to build its
//! meshes: which faces are culled, in which order their vertices go, and how
//! a referenced document is walked.

use vstd::prelude::*;

use crate::color::ColorReference;
use crate::document::{BfcCertification, Document};
use crate::elements::{BfcStatement, Command, Meta};
use crate::text::str_eq;
use crate::{opposite, PartAlias, Winding};

verus! {

/// `w`, inverted when `invert` holds.
pub open spec fn oriented(w: Winding, invert: bool) -> Winding {
    if invert {
        opposite(w)
    } else {
        w
    }
}

/// The culling state of a document while its commands are walked.
#[derive(Copy, Clone, Debug, PartialEq, Eq, Structural)]
pub struct CullingState {
    /// Whether the document takes part in back-face culling.
    pub certified: bool,
    /// Whether the document is walked mirrored.
    pub invert: bool,
    /// The winding of the faces that follow.
    pub winding: Winding,
    /// Whether culling is switched on (`CLIP`) or off (`NOCLIP`) here.
    pub local_cull: bool,
    /// Whether the next reference is inverted (`INVERTNEXT`).
    pub invert_next: bool,
}

/// The state at the start of a document certified as `bfc`, walked mirrored
/// when `invert` holds: a document that says nothing counts as certified,
/// and its winding is the certified one (counter-clockwise by default)
/// inverted when mirrored.
pub open spec fn initial_state(bfc: BfcCertification, invert: bool) -> CullingState {
    let certified = !(bfc is NoCertify);
    CullingState {
        certified,
        invert,
        winding: if certified {
            oriented(
                match bfc {
                    BfcCertification::Certify(w) => w,
                    _ => Winding::Ccw,
                },
                invert,
            )
        } else {
            Winding::Ccw
        },
        local_cull: true,
        invert_next: false,
    }
}

/// The state after the statement `statement`.
pub open spec fn after_statement(s: CullingState, statement: BfcStatement) -> CullingState {
    match statement {
        BfcStatement::InvertNext => CullingState { invert_next: true, ..s },
        BfcStatement::NoClip => CullingState { local_cull: false, ..s },
        BfcStatement::Clip(w) => CullingState {
            local_cull: true,
            winding: match w {
                Some(w) => oriented(w, s.invert),
                None => s.winding,
            },
            ..s
        },
        BfcStatement::Winding(w) => CullingState { winding: oriented(w, s.invert), ..s },
    }
}

/// The state after a reference: its `INVERTNEXT` is used up.
pub open spec fn after_reference(s: CullingState) -> CullingState {
    CullingState { invert_next: false, ..s }
}

/// The state after the command `c`: a culling statement takes effect, a
/// reference uses up an `INVERTNEXT`.
pub open spec fn after_command(s: CullingState, c: Command) -> CullingState {
    match c {
        Command::Meta(Meta::Bfc(statement)) => after_statement(s, statement),
        Command::PartReference(_) => after_reference(s),
        _ => s,
    }
}

/// The state before the command at index `k` of `cmds`, from `s` at the
/// start.
pub open spec fn state_at(s: CullingState, cmds: Seq<Command>, k: int) -> CullingState
    decreases k,
{
    if k <= 0 {
        s
    } else {
        after_command(state_at(s, cmds, k - 1), cmds[k - 1])
    }
}

/// Whether faces are culled here, in a document walked with culling `cull`:
/// only in a certified document, where culling is on and was on above.
pub open spec fn culls(s: CullingState, cull: bool) -> bool {
    s.certified && cull && s.local_cull
}

/// What to do with a command.
#[derive(Copy, Clone, Debug, PartialEq, Eq, Structural)]
pub enum Walk {
    /// Walk the referenced document with these culling and mirroring flags.
    Reference { cull: bool, invert: bool },
    /// Draw the (optional) edge.
    Edge,
    /// Draw the face, its vertices in reverse order when `reversed` holds,
    /// culled when `culled` holds.
    Face { reversed: bool, culled: bool },
    /// Nothing to draw.
    Skip,
    /// Record the reference, with its colour and placement, as an instance
    /// of an enabled feature instead of walking into it.
    Feature,
}

/// Whether a referenced document is walked mirrored: when the reference's
/// matrix is `mirrored` or an `INVERTNEXT` precedes it, but not both, the
/// mirroring of the document flips.
pub open spec fn child_inverted(s: CullingState, mirrored: bool) -> bool {
    if mirrored {
        s.invert == s.invert_next
    } else {
        s.invert != s.invert_next
    }
}

/// What to do with `c` in state `s`, in a document walked with culling
/// `cull`; `mirrored` says whether the reference's matrix has a negative
/// determinant.
pub open spec fn walk_of(s: CullingState, c: Command, cull: bool, mirrored: bool) -> Walk {
    match c {
        Command::PartReference(_) => Walk::Reference { cull: culls(s, cull), invert: child_inverted(s, mirrored) },
        Command::Line(_) => Walk::Edge,
        Command::OptionalLine(_) => Walk::Edge,
        Command::Triangle(_) => Walk::Face { reversed: s.winding == Winding::Cw, culled: culls(s, cull) },
        Command::Quad(_) => Walk::Face { reversed: s.winding == Winding::Cw, culled: culls(s, cull) },
        Command::Meta(_) => Walk::Skip,
    }
}

impl CullingState {
    /// The state at the start of a document certified as `bfc`, walked
    /// mirrored when `invert` holds.
    pub fn start(bfc: &BfcCertification, invert: bool) -> (res: Self)
        ensures
            res == initial_state(*bfc, invert),
    {
        let certified = match bfc.is_certified() {
            Some(e) => e,
            None => true,
        };
        let winding = if certified {
            let w = match bfc.get_winding() {
                Some(e) => e,
                None => Winding::Ccw,
            };
            w.bitxor(invert)
        } else {
            Winding::Ccw
        };
        CullingState { certified, invert, winding, local_cull: true, invert_next: false }
    }

    /// Takes in the culling statement `statement`.
    pub fn apply(&mut self, statement: &BfcStatement)
        ensures
            *final(self) == after_statement(*old(self), *statement),
    {
        match statement {
            BfcStatement::InvertNext => {
                self.invert_next = true;
            },
            BfcStatement::NoClip => {
                self.local_cull = false;
            },
            BfcStatement::Clip(w) => {
                self.local_cull = true;
                if let Some(w) = w {
                    self.winding = w.bitxor(self.invert);
                }
            },
            BfcStatement::Winding(w) => {
                self.winding = w.bitxor(self.invert);
            },
        }
    }

    /// How a reference is walked, in a document walked with culling `cull`,
    /// when its matrix is `mirrored` or not: with culling and with mirroring;
    /// an `INVERTNEXT` is used up.
    pub fn enter_reference(&mut self, cull: bool, mirrored: bool) -> (res: (bool, bool))
        ensures
            res.0 == culls(*old(self), cull),
            res.1 == child_inverted(*old(self), mirrored),
            *final(self) == after_reference(*old(self)),
    {
        let invert_child = if mirrored {
            self.invert == self.invert_next
        } else {
            self.invert != self.invert_next
        };
        let cull_next = if self.certified {
            cull && self.local_cull
        } else {
            false
        };
        self.invert_next = false;
        (cull_next, invert_child)
    }

    /// How a face is drawn here, in a document walked with culling `cull`:
    /// whether its vertices go in reverse order, and whether it is culled.
    pub fn face(&self, cull: bool) -> (res: (bool, bool))
        ensures
            res.0 == (self.winding == Winding::Cw),
            res.1 == culls(*self, cull),
    {
        let reversed = match self.winding {
            Winding::Cw => true,
            Winding::Ccw => false,
        };
        let culled = if self.certified {
            cull && self.local_cull
        } else {
            false
        };
        (reversed, culled)
    }
}

/// What to do with each command of `document`, walked with culling `cull`
/// and mirrored when `invert` holds; `mirrored[i]` says whether the matrix of
/// the reference at index `i` has a negative determinant.
pub fn walk(document: &Document, cull: bool, invert: bool, mirrored: &Vec<bool>) -> (res: Vec<Walk>)
    requires
        mirrored@.len() == document.commands@.len(),
    ensures
        res@.len() == document.commands@.len(),
        forall|i: int|
            0 <= i < res@.len() ==> #[trigger] res@[i] == walk_of(
                state_at(initial_state(document.bfc, invert), document.commands@, i),
                document.commands@[i],
                cull,
                mirrored@[i],
            ),
{
    let ghost s0 = initial_state(document.bfc, invert);
    let ghost cmds = document.commands@;
    let mut state = CullingState::start(&document.bfc, invert);
    let mut res: Vec<Walk> = Vec::new();
    let mut i: usize = 0;
    while i < document.commands.len()
        invariant
            i <= cmds.len(),
            cmds == document.commands@,
            mirrored@.len() == cmds.len(),
            state == state_at(s0, cmds, i as int),
            res@.len() == i,
            forall|j: int| 0 <= j < i ==> #[trigger] res@[j] == walk_of(state_at(s0, cmds, j), cmds[j], cull, mirrored@[j]),
        decreases cmds.len() - i,
    {
        let step = match &document.commands[i] {
            Command::PartReference(_) => {
                let (c, v) = state.enter_reference(cull, mirrored[i]);
                Walk::Reference { cull: c, invert: v }
            },
            Command::Line(_) => Walk::Edge,
            Command::OptionalLine(_) => Walk::Edge,
            Command::Triangle(_) => {
                let (reversed, culled) = state.face(cull);
                Walk::Face { reversed, culled }
            },
            Command::Quad(_) => {
                let (reversed, culled) = state.face(cull);
                Walk::Face { reversed, culled }
            },
            Command::Meta(m) => {
                if let Meta::Bfc(statement) = m {
                    state.apply(statement);
                }
                Walk::Skip
            },
        };
        res.push(step);
        i = i + 1;
    }
    res
}

/// The colour that an element of colour `color` is drawn in, under the
/// colours `stack` of the references that led to it: the current colour is
/// the one on top.
pub fn effective_color(color: &ColorReference, stack: &Vec<ColorReference>) -> (res: ColorReference)
    requires
        color is Current ==> stack@.len() > 0,
    ensures
        res == (if color is Current {
            stack@.last()
        } else {
            *color
        }),
{
    match color {
        ColorReference::Current => stack[stack.len() - 1].clone(),
        _ => color.clone(),
    }
}

/// Whether `name` is among the `enabled` feature names (compared in their
/// canonical form).
pub open spec fn is_enabled(enabled: Seq<PartAlias>, name: PartAlias) -> bool {
    exists|k: int| 0 <= k < enabled.len() && (#[trigger] enabled[k]).normalized@ == name.normalized@
}

/// What to do with `c` in state `s` while a model is walked with the
/// features `enabled`: a reference to an enabled feature is recorded, not
/// walked; anything else as `walk_of` says.
pub open spec fn model_walk_of(s: CullingState, c: Command, cull: bool, mirrored: bool, enabled: Seq<PartAlias>) -> Walk {
    match c {
        Command::PartReference(r) => if is_enabled(enabled, r.name) {
            Walk::Feature
        } else {
            walk_of(s, c, cull, mirrored)
        },
        _ => walk_of(s, c, cull, mirrored),
    }
}

/// Whether `name` is among the `enabled` feature names.
pub fn feature_enabled(enabled: &Vec<PartAlias>, name: &PartAlias) -> (res: bool)
    ensures
        res == is_enabled(enabled@, *name),
{
    let mut k: usize = 0;
    while k < enabled.len()
        invariant
            k <= enabled@.len(),
            forall|m: int| 0 <= m < k ==> (#[trigger] enabled@[m]).normalized@ != name.normalized@,
        decreases enabled@.len() - k,
    {
        if str_eq(enabled[k].normalized.as_str(), name.normalized.as_str()) {
            return true;
        }
        k = k + 1;
    }
    false
}

/// What to do with each command of `document` while a model is walked with
/// the features `enabled`: as `walk`, except that a reference to an enabled
/// feature is recorded rather than walked (its `INVERTNEXT` is used up all
/// the same).
pub fn walk_model(document: &Document, cull: bool, invert: bool, mirrored: &Vec<bool>, enabled: &Vec<PartAlias>) -> (res: Vec<Walk>)
    requires
        mirrored@.len() == document.commands@.len(),
    ensures
        res@.len() == document.commands@.len(),
        forall|i: int|
            0 <= i < res@.len() ==> #[trigger] res@[i] == model_walk_of(
                state_at(initial_state(document.bfc, invert), document.commands@, i),
                document.commands@[i],
                cull,
                mirrored@[i],
                enabled@,
            ),
{
    let steps = walk(document, cull, invert, mirrored);
    let ghost s0 = initial_state(document.bfc, invert);
    let mut res: Vec<Walk> = Vec::new();
    let mut i: usize = 0;
    while i < steps.len()
        invariant
            i <= steps@.len(),
            steps@.len() == document.commands@.len(),
            forall|j: int|
                0 <= j < steps@.len() ==> #[trigger] steps@[j] == walk_of(
                    state_at(s0, document.commands@, j),
                    document.commands@[j],
                    cull,
                    mirrored@[j],
                ),
            res@.len() == i,
            forall|j: int|
                0 <= j < i ==> #[trigger] res@[j] == model_walk_of(
                    state_at(s0, document.commands@, j),
                    document.commands@[j],
                    cull,
                    mirrored@[j],
                    enabled@,
                ),
        decreases steps@.len() - i,
    {
        let step = match &document.commands[i] {
            Command::PartReference(r) => if feature_enabled(enabled, &r.name) {
                Walk::Feature
            } else {
                steps[i]
            },
            _ => steps[i],
        };
        res.push(step);
        i = i + 1;
    }
    res
}

/// Enters a reference of colour `color`: its effective colour under the
/// colours `stack` above it goes on top of the stack.
pub fn enter_color(stack: &mut Vec<ColorReference>, color: &ColorReference)
    requires
        color is Current ==> old(stack)@.len() > 0,
    ensures
        final(stack)@ == old(stack)@.push(if color is Current {
            old(stack)@.last()
        } else {
            *color
        }),
{
    let c = effective_color(color, stack);
    stack.push(c);
}

/// Leaves a reference: the colour it put on the stack comes off.
pub fn leave_color(stack: &mut Vec<ColorReference>)
    requires
        old(stack)@.len() > 0,
    ensures
        final(stack)@ == old(stack)@.drop_last(),
{
    stack.pop();
}

/// The colour stack a walk starts with: the current colour alone.
pub fn initial_colors() -> (res: Vec<ColorReference>)
    ensures
        res@ == seq![ColorReference::Current],
{
    let mut stack: Vec<ColorReference> = Vec::new();
    stack.push(ColorReference::Current);
    stack
}

/// What each culling statement does to the state: `CLIP` without a winding
/// switches culling on and keeps the winding, `CLIP` with a winding and a
/// bare winding set it (inverted in a mirrored document), `NOCLIP` switches
/// culling off and keeps the winding, `INVERTNEXT` marks the next reference;
/// nothing else changes.
pub proof fn lemma_statement_effects(s: CullingState, statement: BfcStatement)
    ensures
        ({
            let t = after_statement(s, statement);
            &&& t.certified == s.certified
            &&& t.invert == s.invert
            &&& match statement {
                BfcStatement::Clip(None) => t.local_cull && t.winding == s.winding && t.invert_next == s.invert_next,
                BfcStatement::Clip(Some(w)) => t.local_cull && t.winding == (if s.invert {
                    opposite(w)
                } else {
                    w
                }) && t.invert_next == s.invert_next,
                BfcStatement::Winding(w) => t.local_cull == s.local_cull && t.winding == (if s.invert {
                    opposite(w)
                } else {
                    w
                }) && t.invert_next == s.invert_next,
                BfcStatement::NoClip => !t.local_cull && t.winding == s.winding && t.invert_next == s.invert_next,
                BfcStatement::InvertNext => t.invert_next && t.winding == s.winding && t.local_cull == s.local_cull,
            }
        }),
{
}

/// `apply` of a `CLIP` without a winding keeps the winding and switches
/// culling on.
pub proof fn lemma_clip_keeps_winding(s: CullingState)
    ensures
        after_statement(s, BfcStatement::Clip(None)).winding == s.winding,
        after_statement(s, BfcStatement::Clip(None)).local_cull,
{
    lemma_statement_effects(s, BfcStatement::Clip(None));
}

/// Walking a document never changes whether it is certified or mirrored.
pub proof fn lemma_walk_keeps_certification(s: CullingState, cmds: Seq<Command>, k: int)
    ensures
        state_at(s, cmds, k).certified == s.certified,
        state_at(s, cmds, k).invert == s.invert,
    decreases k,
{
    if k > 0 {
        lemma_walk_keeps_certification(s, cmds, k - 1);
    }
}

/// A document declared uncertified (`0 BFC NOCERTIFY`) culls nothing: none
/// of its faces is culled and every document it references is walked
/// without culling.
pub proof fn lemma_uncertified_culls_nothing(document: Document, cull: bool, invert: bool, mirrored: Seq<bool>, i: int)
    requires
        document.bfc is NoCertify,
        0 <= i < document.commands@.len(),
    ensures
        match walk_of(state_at(initial_state(document.bfc, invert), document.commands@, i), document.commands@[i], cull, mirrored[i]) {
            Walk::Reference { cull, .. } => !cull,
            Walk::Face { culled, .. } => !culled,
            _ => true,
        },
{
    lemma_walk_keeps_certification(initial_state(document.bfc, invert), document.commands@, i);
}

} // verus!

//! Small pieces of the renderer and the viewer: display groups, index ranges
//! of baked buffers, object selection tests and the playback state.

use vstd::prelude::*;

verus! {

/// Whether a display group is drawn opaque or translucent.
#[derive(Clone, Debug, PartialEq, Eq, Structural, Hash)]
pub enum GroupKind {
    Opaque,
    Translucent,
}

impl GroupKind {
    /// Whether the group is the translucent one.
    pub fn is_translucent(&self) -> (res: bool)
        ensures
            res == (*self is Translucent),
    {
        match self {
            GroupKind::Translucent => true,
            GroupKind::Opaque => false,
        }
    }
}

/// A range of a baked index buffer: its start and its length.
#[derive(Clone, Copy, Debug)]
pub struct IndexBound(pub usize, pub usize);

/// A test of which objects a selection hit, given the ids that were drawn
/// under it.
pub trait ObjectSelectionTestOp {
    type Result;

    fn test(&self, ids: Vec<u32>) -> Option<Self::Result>;
}

/// An object selection operation: the test of which objects were hit (its
/// drawing half lives with the renderer).
pub trait ObjectSelectionOp: ObjectSelectionTestOp {}

impl<T: ObjectSelectionTestOp> ObjectSelectionOp for T {}

/// Where the step-by-step playback of a model stands.
#[derive(Copy, Clone, Debug, PartialEq, Eq, Structural)]
pub enum State {
    Playing,
    Step,
    Finished,
}

} // verus!

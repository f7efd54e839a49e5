use vstd::prelude::*;

verus! {

/// Handle of one real or virtual node of the rendered tree.
#[derive(Clone, Copy, Debug, PartialEq, Eq, Hash, Structural)]
pub struct ElementId(pub usize);

/// Handle of one component instance and its render state.
#[derive(Clone, Copy, Debug, PartialEq, Eq, Hash, Structural)]
pub struct ScopeId(pub usize);

/// Handle of a background task owned by a scope.
#[derive(Clone, Copy, Debug, PartialEq, Eq, Hash, Structural)]
pub struct TaskId(pub usize);

/// Handle of a suspended computation waiting under a suspense boundary.
#[derive(Clone, Copy, Debug, PartialEq, Eq, Hash, Structural)]
pub struct SuspenseId(pub usize);

} // verus!

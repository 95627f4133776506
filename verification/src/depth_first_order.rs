use vstd::prelude::*;

verus! {

/// The order of depth-first iteration.  In-order is not offered, since the
/// tree promises nothing about how values relate across positions.
#[derive(Debug, Clone, Copy, Eq, PartialEq, Hash, Structural)]
pub enum DepthFirstOrder {
    /// Parent nodes are returned before their children.
    PreOrder,
    /// Child nodes are returned before their parents.
    PostOrder,
}

} // verus!

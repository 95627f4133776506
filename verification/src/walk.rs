use vstd::prelude::*;

use crate::entry::Entry;
use crate::entry_mut::EntryMut;
use crate::eytzinger_index_calculator::spec_parent_index;
use crate::{EytzingerTree, Node, NodeMut};

verus! {

/// What a walk handler asks the walk to do next: stop, move to the current
/// node's parent, or move to the child at a given child slot.
#[derive(Debug, Clone, Copy, Eq, PartialEq, Hash, Structural)]
pub enum WalkAction {
    Stop,
    Parent,
    Child(usize),
}

/// A caller-supplied driver for a read-only walk.  The walk shows the handler
/// the entry it stands on and follows the action handed back, until the
/// handler stops it, asks for the parent of the walk's own starting node, or
/// asks for a move the tree cannot make.
pub trait WalkHandler {
    type Item;

    /// Decides what the walk does at the current entry.  An asked-for child
    /// slot stays below the tree's branching factor.
    fn on_node<'a>(&mut self, entry: &Entry<'a, Self::Item>) -> (r: WalkAction)
        requires
            entry.wf(),
        ensures
            r matches WalkAction::Child(o) ==> (o as int) < entry.spec_tree().branching(),
    ;
}

/// Something a read-only walk can start from.
pub trait Walkable {
    type Item;

    /// What must hold of the starting point for the walk to begin.
    spec fn valid_walk(&self) -> bool;

    /// Walks from here, driven by the handler, until the handler stops, asks
    /// for the parent of the starting node, or asks for a move the tree
    /// cannot make.
    fn walk<H: WalkHandler<Item = Self::Item>>(&self, handler: &mut H)
        requires
            self.valid_walk(),
    ;
}

/// A caller-supplied driver for a walk that may change the tree through the
/// entry it is shown.
pub trait WalkMutHandler {
    type Item;

    /// Decides what the walk does at the current entry, possibly changing the
    /// tree through it first.  The tree stays well formed, keeps its
    /// branching factor, and the entry stays a matching cursor on its
    /// position; an asked-for child slot stays below the branching factor.
    fn on_mut_node(
        &mut self,
        tree: &mut EytzingerTree<Self::Item>,
        entry: &mut EntryMut<Self::Item>,
    ) -> (r: WalkAction)
        requires
            old(entry).valid(*old(tree)),
        ensures
            final(entry).valid(*final(tree)),
            final(entry).index_spec() == old(entry).index_spec(),
            final(tree).branching() == old(tree).branching(),
            r matches WalkAction::Child(o) ==> (o as int) < old(tree).branching(),
    ;
}

/// Something a walk with write access can start from.
pub trait WalkableMut {
    type Item;

    /// What must hold of the starting point for the walk to begin.
    spec fn valid_walk(&self) -> bool;

    /// Walks from here as `Walkable::walk` does, handing the handler write
    /// access to each entry.
    fn walk_mut<H: WalkMutHandler<Item = Self::Item>>(&mut self, handler: &mut H)
        requires
            old(self).valid_walk(),
        ensures
            final(self).valid_walk(),
    ;
}

impl<'a, N> Walkable for Entry<'a, N> {
    type Item = N;

    open spec fn valid_walk(&self) -> bool {
        self.wf()
    }

    #[verifier::loop_isolation(false)]
    fn walk<H: WalkHandler<Item = N>>(&self, handler: &mut H) {
        let tree = self.tree();
        let mut index = self.index();
        let mut level: usize = 0;
        // An untrusted handler could drive the walk up and down forever; the
        // step budget bounds the loop without ever cutting a real walk short.
        let mut fuel: usize = usize::MAX;
        loop
            invariant
                tree.wf(),
                level + fuel <= usize::MAX,
            decreases fuel,
        {
            if fuel == 0 {
                return ;
            }
            fuel = fuel - 1;
            let current = tree.entry(index);
            match handler.on_node(&current) {
                WalkAction::Stop => {
                    return ;
                },
                WalkAction::Parent => {
                    if level == 0 || index == 0 {
                        return ;
                    }
                    match tree.index_calculator_ref().parent_index(index) {
                        Some(parent_index) => {
                            index = parent_index;
                            level = level - 1;
                        },
                        None => {
                            return ;
                        },
                    }
                },
                WalkAction::Child(child_offset) => {
                    if !current.is_occupied() {
                        return ;
                    }
                    match tree.child_index_checked(index, child_offset) {
                        Some(child_index) => {
                            index = child_index;
                            level = level + 1;
                        },
                        None => {
                            return ;
                        },
                    }
                },
            }
        }
    }
}

impl<'a, N> Walkable for Node<'a, N> {
    type Item = N;

    open spec fn valid_walk(&self) -> bool {
        self.wf()
    }

    fn walk<H: WalkHandler<Item = N>>(&self, handler: &mut H) {
        Entry::Occupied(*self).walk(handler)
    }
}

impl<N> Walkable for EytzingerTree<N> {
    type Item = N;

    open spec fn valid_walk(&self) -> bool {
        self.wf()
    }

    fn walk<H: WalkHandler<Item = N>>(&self, handler: &mut H) {
        self.root_entry().walk(handler)
    }
}

impl<N> NodeMut<N> {
    /// Walks from this node as `Walkable::walk` does, reading the given tree.
    pub fn walk<H: WalkHandler<Item = N>>(
        &self,
        tree: &EytzingerTree<N>,
        handler: &mut H,
    )
        requires
            self.valid(*tree),
    {
        self.as_node(tree).walk(handler)
    }
}

impl<N> EntryMut<N> {
    /// Walks from this entry as `Walkable::walk` does, reading the given
    /// tree.
    pub fn walk<H: WalkHandler<Item = N>>(
        &self,
        tree: &EytzingerTree<N>,
        handler: &mut H,
    )
        requires
            self.valid(*tree),
    {
        self.as_entry(tree).walk(handler)
    }

    /// Walks from this entry, handing the handler write access to each entry
    /// visited.  The walk never ascends above its starting node: a request
    /// for the parent while at the start stops it.
    #[verifier::loop_isolation(false)]
    pub fn walk_mut<H: WalkMutHandler<Item = N>>(
        self,
        tree: &mut EytzingerTree<N>,
        handler: &mut H,
    )
        requires
            self.valid(*old(tree)),
        ensures
            final(tree).wf(),
            final(tree).branching() == old(tree).branching(),
    {
        let mut current = self;
        let mut level: usize = 0;
        // An untrusted handler could drive the walk up and down forever; the
        // step budget bounds the loop without ever cutting a real walk short.
        let mut fuel: usize = usize::MAX;
        loop
            invariant
                current.valid(*tree),
                tree.branching() == old(tree).branching(),
                level + fuel <= usize::MAX,
            decreases fuel,
        {
            if fuel == 0 {
                return ;
            }
            fuel = fuel - 1;
            match handler.on_mut_node(tree, &mut current) {
                WalkAction::Stop => {
                    return ;
                },
                WalkAction::Parent => {
                    if level == 0 {
                        return ;
                    }
                    match current.to_parent(tree) {
                        Ok(parent) => {
                            current = EntryMut::Occupied(parent);
                            level = level - 1;
                        },
                        Err(_) => {
                            return ;
                        },
                    }
                },
                WalkAction::Child(child_offset) => {
                    let index = current.index();
                    match current.to_node_mut() {
                        Some(node) => {
                            match tree.child_index_checked(index, child_offset) {
                                Some(child_index) => {
                                    if child_index < usize::MAX {
                                        current = node.child_entry_mut(tree, child_offset);
                                        level = level + 1;
                                    } else {
                                        return ;
                                    }
                                },
                                None => {
                                    return ;
                                },
                            }
                        },
                        None => {
                            return ;
                        },
                    }
                },
            }
        }
    }
}

impl<N> WalkableMut for EytzingerTree<N> {
    type Item = N;

    open spec fn valid_walk(&self) -> bool {
        self.wf()
    }

    fn walk_mut<H: WalkMutHandler<Item = N>>(&mut self, handler: &mut H) {
        let entry = self.root_entry_mut();
        entry.walk_mut(self, handler)
    }
}

} // verus!

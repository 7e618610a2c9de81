//! A tree of values, each node with its children in order.
use vstd::prelude::*;

verus! {

/// A tree: its root node.
pub struct Tree<T> {
    pub root: Node<T>,
}

/// A node: its value and its children, in order.
pub struct Node<T> {
    pub value: T,
    pub children: Vec<Node<T>>,
}

impl<T> Tree<T> {
    /// A tree of one node holding `value`.
    pub fn new(value: T) -> (res: Tree<T>)
        ensures
            res.root.value == value,
            res.root.children@.len() == 0,
    {
        Tree { root: Node { value, children: Vec::new() } }
    }
}

impl<T> Node<T> {
    /// A node holding `value`, without children.
    pub fn new(value: T) -> (res: Node<T>)
        ensures
            res.value == value,
            res.children@.len() == 0,
    {
        Node { value, children: Vec::new() }
    }

    /// Adds a last child holding `value`.
    pub fn add_child(&mut self, value: T)
        ensures
            final(self).value == old(self).value,
            final(self).children@.len() == old(self).children@.len() + 1,
            forall|i: int| 0 <= i < old(self).children@.len() ==> #[trigger] final(self).children@[i] == old(self).children@[i],
            final(self).children@.last().value == value,
            final(self).children@.last().children@.len() == 0,
    {
        let node = Node::new(value);
        self.children.push(node);
    }
}

} // verus!

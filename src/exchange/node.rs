use vstd::prelude::*;

use crate::exchange::error::Error;

verus! {

/// The storage key of a tree node.
#[derive(Debug, Clone, Copy, PartialEq, Eq, Structural)]
pub struct NodeKey {
    pub id: u64,
}

#[derive(Debug, Clone, Copy, PartialEq, Eq, Structural)]
pub enum NodeColor {
    Red,
    Black,
}

/// A link to a tree node: its value, or nothing.
#[derive(Debug, Clone, Copy, PartialEq, Eq, Structural)]
pub struct NodeView {
    pub id: Option<u64>,
}

/// The value that marks the temporary black leaf used while rebalancing.
pub const NIL_NODE_ID: u64 = 0xffff_ffff_ffff_ffff;

impl NodeView {
    pub fn new(id: u64) -> (r: Self)
        ensures
            r.id == Some(id),
    {
        Self { id: Some(id) }
    }
}

/// The two colors of the tree.
pub trait ColorInterface {
    fn black() -> (r: NodeColor)
        ensures
            r == NodeColor::Black,
    ;

    fn red() -> (r: NodeColor)
        ensures
            r == NodeColor::Red,
    ;
}

impl ColorInterface for NodeView {
    fn black() -> (r: NodeColor) {
        NodeColor::Black
    }

    fn red() -> (r: NodeColor) {
        NodeColor::Red
    }
}

/// Links that may point nowhere.
pub trait NodeViewInterface: Sized {
    spec fn raw(&self) -> Option<u64>;

    fn is_empty(&self) -> (r: bool)
        ensures
            r == self.raw() is None,
    ;

    fn new(id: u64) -> (r: Self)
        ensures
            r.raw() == Some(id),
    ;

    fn empty_node() -> (r: Self)
        ensures
            r.raw() is None,
    ;

    fn nil_node() -> (r: Self)
        ensures
            r.raw() == Some(NIL_NODE_ID),
    ;

    fn to_raw(&self) -> (r: Option<u64>)
        ensures
            r == self.raw(),
    ;
}

impl NodeViewInterface for NodeView {
    open spec fn raw(&self) -> Option<u64> {
        self.id
    }

    fn is_empty(&self) -> (r: bool) {
        self.id.is_none()
    }

    fn new(id: u64) -> (r: Self) {
        NodeView { id: Some(id) }
    }

    fn empty_node() -> (r: Self) {
        NodeView { id: None }
    }

    fn nil_node() -> (r: Self) {
        NodeView { id: Some(NIL_NODE_ID) }
    }

    fn to_raw(&self) -> (r: Option<u64>) {
        self.id
    }
}

/// A node as stored: its links, its color, and the keys filed under its
/// value.
#[derive(Debug)]
pub struct InnerNode {
    pub parent: NodeView,
    pub left: NodeView,
    pub right: NodeView,
    pub color: NodeColor,
    pub keys: Vec<u64>,
}

/// `keys` without any copy of `key`.
pub open spec fn without_key(keys: Seq<u64>, key: u64) -> Seq<u64> {
    keys.filter(|k: u64| k != key)
}

/// Once removed, a key is no longer among the keys.
pub proof fn lemma_without_key(keys: Seq<u64>, key: u64)
    ensures
        !without_key(keys, key).contains(key),
    decreases keys.len(),
{
    reveal(Seq::filter);
    if keys.len() > 0 {
        lemma_without_key(keys.drop_last(), key);
        let sub = without_key(keys.drop_last(), key);
        if keys.last() != key {
            assert(without_key(keys, key) == sub.push(keys.last()));
            assert forall|i: int| 0 <= i < sub.push(keys.last()).len() implies sub.push(keys.last())[i] != key by {
                if i < sub.len() {
                    assert(sub.push(keys.last())[i] == sub[i]);
                }
            }
        } else {
            assert(without_key(keys, key) == sub);
        }
    }
}

/// Two nodes with the same links, color and keys.
pub open spec fn same_node(a: InnerNode, b: InnerNode) -> bool {
    a.parent == b.parent && a.left == b.left && a.right == b.right && a.color == b.color && a.keys@
        == b.keys@
}

impl InnerNode {
    pub fn copy_node(&self) -> (r: InnerNode)
        ensures
            same_node(r, *self),
    {
        let mut keys: Vec<u64> = Vec::new();
        let mut i: usize = 0;
        while i < self.keys.len()
            invariant
                0 <= i <= self.keys@.len(),
                keys@ == self.keys@.take(i as int),
            decreases self.keys@.len() - i,
        {
            keys.push(self.keys[i]);
            proof {
                assert(self.keys@.take(i + 1) == self.keys@.take(i as int).push(self.keys@[i as int]));
            }
            i += 1;
        }
        proof {
            assert(self.keys@.take(i as int) == self.keys@);
        }
        InnerNode { parent: self.parent, left: self.left, right: self.right, color: self.color, keys }
    }
}

/// Reads and writes of a stored node's links, color and keys.
pub trait NodeInterface {
    spec fn spec_left(&self) -> NodeView;

    spec fn spec_right(&self) -> NodeView;

    spec fn spec_parent(&self) -> NodeView;

    spec fn spec_color(&self) -> NodeColor;

    spec fn spec_keys(&self) -> Seq<u64>;

    fn left(&self) -> (r: NodeView)
        ensures
            r == self.spec_left(),
    ;

    fn right(&self) -> (r: NodeView)
        ensures
            r == self.spec_right(),
    ;

    fn parent(&self) -> (r: NodeView)
        ensures
            r == self.spec_parent(),
    ;

    fn color(&self) -> (r: NodeColor)
        ensures
            r == self.spec_color(),
    ;

    fn key_exists(&self, key: u64) -> (r: bool)
        ensures
            r == self.spec_keys().contains(key),
    ;

    fn insert_key(&mut self, key: u64)
        ensures
            final(self).spec_keys() == old(self).spec_keys().push(key),
            final(self).spec_left() == old(self).spec_left(),
            final(self).spec_right() == old(self).spec_right(),
            final(self).spec_parent() == old(self).spec_parent(),
            final(self).spec_color() == old(self).spec_color(),
    ;

    fn remove_key(&mut self, key: u64)
        ensures
            final(self).spec_keys() == without_key(old(self).spec_keys(), key),
            final(self).spec_left() == old(self).spec_left(),
            final(self).spec_right() == old(self).spec_right(),
            final(self).spec_parent() == old(self).spec_parent(),
            final(self).spec_color() == old(self).spec_color(),
    ;

    fn keys_empty(&self) -> (r: bool)
        ensures
            r == (self.spec_keys().len() == 0),
    ;
}

impl NodeInterface for InnerNode {
    open spec fn spec_left(&self) -> NodeView {
        self.left
    }

    open spec fn spec_right(&self) -> NodeView {
        self.right
    }

    open spec fn spec_parent(&self) -> NodeView {
        self.parent
    }

    open spec fn spec_color(&self) -> NodeColor {
        self.color
    }

    open spec fn spec_keys(&self) -> Seq<u64> {
        self.keys@
    }

    fn left(&self) -> (r: NodeView) {
        self.left
    }

    fn right(&self) -> (r: NodeView) {
        self.right
    }

    fn parent(&self) -> (r: NodeView) {
        self.parent
    }

    fn color(&self) -> (r: NodeColor) {
        self.color
    }

    fn key_exists(&self, key: u64) -> (r: bool) {
        let mut i: usize = 0;
        while i < self.keys.len()
            invariant
                0 <= i <= self.keys@.len(),
                forall|j: int| 0 <= j < i ==> self.keys@[j] != key,
            decreases self.keys@.len() - i,
        {
            if self.keys[i] == key {
                return true;
            }
            i += 1;
        }
        false
    }

    fn insert_key(&mut self, key: u64) {
        self.keys.push(key);
    }

    fn remove_key(&mut self, key: u64) {
        let mut kept: Vec<u64> = Vec::new();
        let mut i: usize = 0;
        while i < self.keys.len()
            invariant
                0 <= i <= self.keys@.len(),
                kept@ == without_key(self.keys@.take(i as int), key),
            decreases self.keys@.len() - i,
        {
            let k = self.keys[i];
            proof {
                assert(self.keys@.take(i + 1).drop_last() == self.keys@.take(i as int));
                reveal(Seq::filter);
            }
            if k != key {
                kept.push(k);
            }
            i += 1;
        }
        proof {
            assert(self.keys@.take(i as int) == self.keys@);
        }
        self.keys = kept;
    }

    fn keys_empty(&self) -> (r: bool) {
        self.keys.len() == 0
    }
}

/// The node storage of one tree, by node value.
#[derive(Debug)]
pub struct NodeStorage {
    nodes: Vec<(u64, InnerNode)>,
}

impl NodeStorage {
    pub closed spec fn entries(&self) -> Seq<(u64, InnerNode)> {
        self.nodes@
    }

    pub open spec fn wf(&self) -> bool {
        forall|i: int, j: int|
            0 <= i < j < self.entries().len() ==> self.entries()[i].0 != self.entries()[j].0
    }

    pub open spec fn contains(&self, id: u64) -> bool {
        exists|i: int| 0 <= i < self.entries().len() && self.entries()[i].0 == id
    }

    /// The node stored under `id`.
    pub open spec fn node(&self, id: u64) -> InnerNode {
        self.entries()[choose|i: int| 0 <= i < self.entries().len() && self.entries()[i].0 == id].1
    }

    pub fn new() -> (r: Self)
        ensures
            r.wf(),
            forall|id: u64| !r.contains(id),
    {
        NodeStorage { nodes: Vec::new() }
    }

    fn find(&self, id: u64) -> (r: Option<usize>)
        requires
            self.wf(),
        ensures
            r matches Some(i) ==> i < self.entries().len() && self.entries()[i as int].0 == id
                && self.contains(id) && self.node(id) == self.entries()[i as int].1,
            r is None ==> !self.contains(id),
    {
        let mut i: usize = 0;
        while i < self.nodes.len()
            invariant
                0 <= i <= self.nodes@.len(),
                self.wf(),
                forall|j: int| 0 <= j < i ==> self.nodes@[j].0 != id,
            decreases self.nodes@.len() - i,
        {
            if self.nodes[i].0 == id {
                proof {
                    assert(self.entries()[i as int].0 == id);
                    let c = choose|c: int| 0 <= c < self.entries().len() && self.entries()[c].0 == id;
                    assert(c == i as int);
                }
                return Some(i);
            }
            i += 1;
        }
        None
    }

    /// Whether a node is stored under `node_view`.
    pub fn node_exists(&self, node_view: NodeView) -> (r: bool)
        requires
            self.wf(),
        ensures
            r == (node_view.id matches Some(id) && self.contains(id)),
    {
        match node_view.id {
            Some(id) => self.find(id).is_some(),
            None => false,
        }
    }

    /// A copy of the node `node_view` points to.
    pub fn load(&self, node_view: NodeView) -> (r: Result<InMemoryNode, Error>)
        requires
            self.wf(),
        ensures
            r matches Ok(n) ==> node_view.id matches Some(id) && self.contains(id) && n.id == node_view
                && !n.is_modified && same_node(n.inner_node, self.node(id)),
            r is Err ==> !(node_view.id matches Some(id) && self.contains(id)),
    {
        let id = match node_view.id {
            Some(id) => id,
            None => return Err(Error::EmptyNodeView),
        };
        match self.find(id) {
            Some(i) => Ok(
                InMemoryNode {
                    is_modified: false,
                    id: node_view,
                    inner_node: self.nodes[i].1.copy_node(),
                },
            ),
            None => Err(Error::EmptyNodeView),
        }
    }

    /// Stores a copy of `in_node` under `node_view`.
    pub fn upload(&mut self, node_view: NodeView, in_node: &InnerNode) -> (r: Result<(), Error>)
        requires
            old(self).wf(),
        ensures
            final(self).wf(),
            node_view.id is None ==> r is Err && *final(self) == *old(self),
            node_view.id matches Some(id) ==> r is Ok && final(self).contains(id) && same_node(
                final(self).node(id),
                *in_node,
            ) && forall|o: u64|
                o != id ==> (#[trigger] final(self).contains(o) == old(self).contains(o) && (old(
                    self,
                ).contains(o) ==> final(self).node(o) == old(self).node(o))),
    {
        let id = match node_view.id {
            Some(id) => id,
            None => return Err(Error::EmptyNodeView),
        };
        let copy = in_node.copy_node();
        match self.find(id) {
            Some(i) => {
                self.nodes.set(i, (id, copy));
                proof {
                    self.lemma_frame(*old(self), id);
                    assert(self.entries()[i as int].0 == id);
                    let d = choose|d: int| 0 <= d < self.entries().len() && self.entries()[d].0 == id;
                    assert(d == i as int);
                }
            },
            None => {
                self.nodes.push((id, copy));
                proof {
                    let n = old(self).entries().len() as int;
                    assert(self.entries()[n].0 == id);
                    self.lemma_frame(*old(self), id);
                    let d = choose|d: int| 0 <= d < self.entries().len() && self.entries()[d].0 == id;
                    assert(d == n);
                }
            },
        }
        Ok(())
    }

    proof fn lemma_frame(&self, prev: NodeStorage, id: u64)
        requires
            self.wf(),
            prev.wf(),
            prev.entries().len() <= self.entries().len() <= prev.entries().len() + 1,
            forall|j: int|
                0 <= j < prev.entries().len() && prev.entries()[j].0 != id ==> self.entries()[j]
                    == prev.entries()[j],
            forall|j: int|
                0 <= j < prev.entries().len() && prev.entries()[j].0 == id ==> self.entries()[j].0
                    == id,
            self.entries().len() == prev.entries().len() + 1 ==> self.entries().last().0 == id,
        ensures
            forall|o: u64|
                o != id ==> (#[trigger] self.contains(o) == prev.contains(o) && (prev.contains(o)
                    ==> self.node(o) == prev.node(o))),
    {
        assert forall|o: u64| o != id implies (#[trigger] self.contains(o) == prev.contains(o) && (
        prev.contains(o) ==> self.node(o) == prev.node(o))) by {
            if prev.contains(o) {
                let c = choose|c: int| 0 <= c < prev.entries().len() && prev.entries()[c].0 == o;
                assert(self.entries()[c].0 == o);
                let d = choose|d: int| 0 <= d < self.entries().len() && self.entries()[d].0 == o;
                assert(d == c);
            }
            if self.contains(o) {
                let d = choose|d: int| 0 <= d < self.entries().len() && self.entries()[d].0 == o;
                if d < prev.entries().len() {
                    assert(prev.entries()[d].0 == o);
                }
            }
        }
    }

    pub fn to_node_holder(&self, node_view: NodeView) -> (r: NodeViewHolder)
        ensures
            r.node_view == node_view,
    {
        NodeViewHolder::new(node_view)
    }

    /// Removes the node under `node_view`, if any.
    pub fn remove_node(&mut self, node_view: NodeView) -> (r: Result<(), Error>)
        requires
            old(self).wf(),
        ensures
            final(self).wf(),
            node_view.id is None ==> r is Err && *final(self) == *old(self),
            node_view.id matches Some(v) ==> r is Ok && !final(self).contains(v) && forall|o: u64|
                o != v ==> (#[trigger] final(self).contains(o) == old(self).contains(o) && (old(
                    self,
                ).contains(o) ==> final(self).node(o) == old(self).node(o))),
    {
        let id = match node_view.id {
            Some(id) => id,
            None => return Err(Error::EmptyNodeView),
        };
        match self.find(id) {
            Some(i) => {
                let _ = self.nodes.remove(i);
                proof {
                    let prev = *old(self);
                    assert forall|a: int, b: int|
                        0 <= a < b < self.entries().len() implies self.entries()[a].0 != self.entries()[b].0 by {
                        let a2 = if a < i { a } else { a + 1 };
                        let b2 = if b < i { b } else { b + 1 };
                        assert(self.entries()[a] == prev.entries()[a2]);
                        assert(self.entries()[b] == prev.entries()[b2]);
                    }
                    if self.contains(id) {
                        let d = choose|d: int| 0 <= d < self.entries().len() && self.entries()[d].0 == id;
                        let d2 = if d < i { d } else { d + 1 };
                        assert(prev.entries()[d2].0 == id);
                    }
                    assert forall|o: u64| o != id implies (#[trigger] self.contains(o) == prev.contains(o) && (
                    prev.contains(o) ==> self.node(o) == prev.node(o))) by {
                        if prev.contains(o) {
                            let c = choose|c: int| 0 <= c < prev.entries().len() && prev.entries()[c].0 == o;
                            let c2 = if c < i { c } else { c - 1 };
                            assert(c != i);
                            assert(self.entries()[c2] == prev.entries()[c]);
                            let d = choose|d: int| 0 <= d < self.entries().len() && self.entries()[d].0 == o;
                            assert(d == c2);
                        }
                        if self.contains(o) {
                            let d = choose|d: int| 0 <= d < self.entries().len() && self.entries()[d].0 == o;
                            let d2 = if d < i { d } else { d + 1 };
                            assert(prev.entries()[d2].0 == o);
                        }
                    }
                }
                Ok(())
            },
            None => Ok(()),
        }
    }

    /// Stores the temporary black leaf below `parent`.
    pub fn create_nil_node(&mut self, parent: NodeView) -> (r: Result<NodeViewHolder, Error>)
        requires
            old(self).wf(),
        ensures
            final(self).wf(),
            r == Ok::<NodeViewHolder, Error>(NodeViewHolder { node_view: NodeView { id: Some(NIL_NODE_ID) } }),
            final(self).contains(NIL_NODE_ID),
            final(self).node(NIL_NODE_ID).keys@.len() == 0,
            final(self).node(NIL_NODE_ID).parent == parent,
            forall|o: u64|
                o != NIL_NODE_ID ==> (#[trigger] final(self).contains(o) == old(self).contains(o) && (old(
                    self,
                ).contains(o) ==> final(self).node(o) == old(self).node(o))),
    {
        let node = InnerNode {
            parent,
            left: NodeView { id: None },
            right: NodeView { id: None },
            color: NodeColor::Black,
            keys: Vec::new(),
        };
        let view = NodeView { id: Some(NIL_NODE_ID) };
        match self.upload(view, &node) {
            Ok(()) => Ok(NodeViewHolder::new(view)),
            Err(e) => Err(e),
        }
    }

    /// Stores a new red leaf under `id`, below `parent`, holding `key`.
    pub fn new_node(&mut self, parent: NodeView, id: NodeView, key: u64) -> (r: Result<
        NodeViewHolder,
        Error,
    >)
        requires
            old(self).wf(),
        ensures
            final(self).wf(),
            id.id is None ==> r is Err && *final(self) == *old(self),
            id.id matches Some(v) ==> r == Ok::<NodeViewHolder, Error>(NodeViewHolder { node_view: id })
                && final(self).contains(v) && final(self).node(v).keys@ == seq![key]
                && final(self).node(v).parent == parent && final(self).node(v).color == NodeColor::Red
                && final(self).node(v).left.id is None && final(self).node(v).right.id is None
                && forall|o: u64|
                o != v ==> (#[trigger] final(self).contains(o) == old(self).contains(o) && (old(
                    self,
                ).contains(o) ==> final(self).node(o) == old(self).node(o))),
    {
        let mut keys: Vec<u64> = Vec::new();
        keys.push(key);
        let node = InnerNode {
            parent,
            left: NodeView { id: None },
            right: NodeView { id: None },
            color: NodeColor::Red,
            keys,
        };
        match self.upload(id, &node) {
            Ok(()) => {
                proof {
                    assert(node.keys@ == seq![key]);
                }
                Ok(NodeViewHolder::new(id))
            },
            Err(e) => Err(e),
        }
    }
}

/// A link to a node, to be followed through the storage.
#[derive(Debug, Clone, Copy, PartialEq, Eq, Structural)]
pub struct NodeViewHolder {
    pub node_view: NodeView,
}

impl NodeViewHolder {
    pub fn new(node_view: NodeView) -> (r: Self)
        ensures
            r.node_view == node_view,
    {
        Self { node_view }
    }

    pub fn get_view(&self) -> (r: NodeView)
        ensures
            r == self.node_view,
    {
        self.node_view
    }

    pub fn is_empty(&self) -> (r: bool)
        ensures
            r == self.node_view.id is None,
    {
        self.node_view.id.is_none()
    }

    /// The node this link points to, read from `storage`.
    pub fn load(self, storage: &NodeStorage) -> (r: Result<InMemoryNode, Error>)
        requires
            storage.wf(),
        ensures
            r matches Ok(n) ==> self.node_view.id matches Some(id) && storage.contains(id) && n.id
                == self.node_view && !n.is_modified && same_node(n.inner_node, storage.node(id)),
            r is Err ==> !(self.node_view.id matches Some(id) && storage.contains(id)),
    {
        storage.load(self.node_view)
    }
}

/// A node read out of storage, noting whether it was changed.
#[derive(Debug)]
pub struct InMemoryNode {
    pub is_modified: bool,
    pub id: NodeView,
    pub inner_node: InnerNode,
}

impl InMemoryNode {
    pub fn node_view(&self) -> (r: NodeViewHolder)
        ensures
            r.node_view == self.id,
    {
        NodeViewHolder { node_view: self.id }
    }

    pub fn color(&self) -> (r: NodeColor)
        ensures
            r == self.inner_node.color,
    {
        self.inner_node.color()
    }

    pub fn color_mut(&mut self) -> (r: &mut NodeColor)
        ensures
            *r == old(self).inner_node.color,
            final(self).is_modified,
            final(self).id == old(self).id,
            final(self).inner_node.color == *final(r),
            final(self).inner_node.left == old(self).inner_node.left,
            final(self).inner_node.right == old(self).inner_node.right,
            final(self).inner_node.parent == old(self).inner_node.parent,
            final(self).inner_node.keys == old(self).inner_node.keys,
    {
        self.is_modified = true;
        &mut self.inner_node.color
    }

    pub fn right_mut(&mut self) -> (r: &mut NodeView)
        ensures
            *r == old(self).inner_node.right,
            final(self).is_modified,
            final(self).id == old(self).id,
            final(self).inner_node.right == *final(r),
            final(self).inner_node.left == old(self).inner_node.left,
            final(self).inner_node.parent == old(self).inner_node.parent,
            final(self).inner_node.color == old(self).inner_node.color,
            final(self).inner_node.keys == old(self).inner_node.keys,
    {
        self.is_modified = true;
        &mut self.inner_node.right
    }

    pub fn left_mut(&mut self) -> (r: &mut NodeView)
        ensures
            *r == old(self).inner_node.left,
            final(self).is_modified,
            final(self).id == old(self).id,
            final(self).inner_node.left == *final(r),
            final(self).inner_node.right == old(self).inner_node.right,
            final(self).inner_node.parent == old(self).inner_node.parent,
            final(self).inner_node.color == old(self).inner_node.color,
            final(self).inner_node.keys == old(self).inner_node.keys,
    {
        self.is_modified = true;
        &mut self.inner_node.left
    }

    pub fn parent_mut(&mut self) -> (r: &mut NodeView)
        ensures
            *r == old(self).inner_node.parent,
            final(self).is_modified,
            final(self).id == old(self).id,
            final(self).inner_node.parent == *final(r),
            final(self).inner_node.left == old(self).inner_node.left,
            final(self).inner_node.right == old(self).inner_node.right,
            final(self).inner_node.color == old(self).inner_node.color,
            final(self).inner_node.keys == old(self).inner_node.keys,
    {
        self.is_modified = true;
        &mut self.inner_node.parent
    }

    pub fn left(&self) -> (r: NodeViewHolder)
        ensures
            r.node_view == self.inner_node.left,
    {
        NodeViewHolder { node_view: self.inner_node.left() }
    }

    pub fn right(&self) -> (r: NodeViewHolder)
        ensures
            r.node_view == self.inner_node.right,
    {
        NodeViewHolder { node_view: self.inner_node.right() }
    }

    pub fn parent(&self) -> (r: NodeViewHolder)
        ensures
            r.node_view == self.inner_node.parent,
    {
        NodeViewHolder { node_view: self.inner_node.parent() }
    }

    pub fn key_exists(&self, key: u64) -> (r: bool)
        ensures
            r == self.inner_node.keys@.contains(key),
    {
        self.inner_node.key_exists(key)
    }

    pub fn insert_key(&mut self, key: u64)
        ensures
            final(self).is_modified,
            final(self).id == old(self).id,
            final(self).inner_node.keys@ == old(self).inner_node.keys@.push(key),
            final(self).inner_node.left == old(self).inner_node.left,
            final(self).inner_node.right == old(self).inner_node.right,
            final(self).inner_node.parent == old(self).inner_node.parent,
            final(self).inner_node.color == old(self).inner_node.color,
    {
        self.is_modified = true;
        self.inner_node.insert_key(key);
    }

    pub fn remove_key(&mut self, key: u64)
        ensures
            final(self).is_modified,
            final(self).id == old(self).id,
            final(self).inner_node.keys@ == without_key(old(self).inner_node.keys@, key),
            final(self).inner_node.left == old(self).inner_node.left,
            final(self).inner_node.right == old(self).inner_node.right,
            final(self).inner_node.parent == old(self).inner_node.parent,
            final(self).inner_node.color == old(self).inner_node.color,
    {
        self.is_modified = true;
        self.inner_node.remove_key(key);
    }

    pub fn keys_empty(&self) -> (r: bool)
        ensures
            r == (self.inner_node.keys@.len() == 0),
    {
        self.inner_node.keys_empty()
    }

    /// Writes the node back to `storage` and returns its link.
    pub fn sync(self, storage: &mut NodeStorage) -> (r: Result<NodeViewHolder, Error>)
        requires
            old(storage).wf(),
        ensures
            final(storage).wf(),
            self.id.id is None ==> r is Err && *final(storage) == *old(storage),
            self.id.id matches Some(id) ==> r == Ok::<NodeViewHolder, Error>(
                NodeViewHolder { node_view: self.id },
            ) && final(storage).contains(id) && same_node(final(storage).node(id), self.inner_node)
                && forall|o: u64|
                o != id ==> (#[trigger] final(storage).contains(o) == old(storage).contains(o) && (old(
                    storage,
                ).contains(o) ==> final(storage).node(o) == old(storage).node(o))),
    {
        match storage.upload(self.id, &self.inner_node) {
            Ok(()) => Ok(NodeViewHolder::new(self.id)),
            Err(e) => Err(e),
        }
    }
}

} // verus!

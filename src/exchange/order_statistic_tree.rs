//! A red-black tree laid out in keyed node storage, each node holding the
//! keys filed under its value. Nodes are addressed by value and linked by
//! node views.
use vstd::prelude::*;

use crate::exchange::error::Error;
use crate::exchange::node::{
    lemma_without_key, without_key, InMemoryNode, NodeColor, NodeStorage, NodeView, NodeViewHolder,
    NodeViewInterface, NIL_NODE_ID, same_node,
};

verus! {

/// Access to the nodes of a tree by their links.
pub trait StorageAccessor {
    spec fn spec_wf(&self) -> bool;

    /// A node is stored under `node_view`.
    spec fn spec_holds(&self, node_view: NodeView) -> bool;

    fn node_exists(&self, node_view: NodeView) -> (r: bool)
        requires
            self.spec_wf(),
        ensures
            r == self.spec_holds(node_view),
    ;

    fn load(&self, node_view: NodeView) -> (r: Result<InMemoryNode, Error>)
        requires
            self.spec_wf(),
        ensures
            r is Ok <==> self.spec_holds(node_view),
            r matches Ok(n) ==> n.id == node_view,
    ;

    fn to_node_holder(&self, node_view: NodeView) -> (r: NodeViewHolder)
        ensures
            r.node_view == node_view,
    ;
}

impl StorageAccessor for NodeStorage {
    open spec fn spec_wf(&self) -> bool {
        self.wf()
    }

    open spec fn spec_holds(&self, node_view: NodeView) -> bool {
        node_view.id matches Some(id) && self.contains(id)
    }

    fn node_exists(&self, node_view: NodeView) -> (r: bool) {
        NodeStorage::node_exists(self, node_view)
    }

    fn load(&self, node_view: NodeView) -> (r: Result<InMemoryNode, Error>) {
        NodeStorage::load(self, node_view)
    }

    fn to_node_holder(&self, node_view: NodeView) -> (r: NodeViewHolder) {
        NodeStorage::to_node_holder(self, node_view)
    }
}

/// A tree: its root link and the storage its nodes live in.
#[derive(Debug)]
pub struct OrderStatisticTree {
    pub root: NodeViewHolder,
    pub storage_accessor: NodeStorage,
}

impl OrderStatisticTree {
    pub open spec fn wf(&self) -> bool {
        self.storage_accessor.wf()
    }

    /// `value` is a node of the tree: the root, or stored.
    pub open spec fn spec_exists(&self, value: u64) -> bool {
        value != 0 && (self.root.node_view == NodeView { id: Some(value) }
            || self.storage_accessor.contains(value))
    }

    /// An empty tree over `storage_accessor`.
    pub fn new(storage_accessor: NodeStorage) -> (r: Self)
        ensures
            r.root.node_view.id is None,
            r.storage_accessor == storage_accessor,
    {
        OrderStatisticTree {
            root: NodeViewHolder::new(NodeView::empty_node()),
            storage_accessor,
        }
    }

    /// The tree rooted at `root` in `storage_accessor`.
    pub fn from_root(root: NodeView, storage_accessor: NodeStorage) -> (r: Self)
        ensures
            r.root.node_view == root,
            r.storage_accessor == storage_accessor,
    {
        let root = storage_accessor.to_node_holder(root);
        OrderStatisticTree { root, storage_accessor }
    }

    pub fn value_exists(&self, value: u64) -> (r: bool)
        requires
            self.wf(),
        ensures
            r == self.spec_exists(value),
    {
        let node_view = NodeView::new(value);
        let contains = self.storage_accessor.node_exists(node_view);
        value != 0 && (node_view == self.root.get_view() || contains)
    }

    /// Whether `key` is filed under `value`.
    pub fn key_exists(&self, key: u64, value: u64) -> (r: bool)
        requires
            self.wf(),
        ensures
            r == (self.spec_exists(value) && self.storage_accessor.contains(value)
                && self.storage_accessor.node(value).keys@.contains(key)),
    {
        if !self.value_exists(value) {
            return false;
        }
        let holder = self.storage_accessor.to_node_holder(NodeView::new(value));
        match holder.load(&self.storage_accessor) {
            Ok(node) => node.key_exists(key),
            Err(_) => false,
        }
    }

    /// Follows left links from the root to a node without a left child.
    /// Fails when a link points to no stored node, or when the walk does
    /// not end within `u64::MAX` steps.
    pub fn first(&self) -> (r: Result<NodeView, Error>)
        requires
            self.wf(),
        ensures
            self.root.node_view.id is None ==> r == Ok::<NodeView, Error>(NodeView { id: None }),
            r matches Ok(v) ==> (v.id is None && self.root.node_view.id is None) || (v.id matches Some(
                id,
            ) && self.storage_accessor.contains(id) && self.storage_accessor.node(id).left.id is None),
    {
        self.walk(true)
    }

    /// Follows right links from the root to a node without a right child,
    /// failing as `first` does.
    pub fn last(&self) -> (r: Result<NodeView, Error>)
        requires
            self.wf(),
        ensures
            self.root.node_view.id is None ==> r == Ok::<NodeView, Error>(NodeView { id: None }),
            r matches Ok(v) ==> (v.id is None && self.root.node_view.id is None) || (v.id matches Some(
                id,
            ) && self.storage_accessor.contains(id) && self.storage_accessor.node(id).right.id is None),
    {
        self.walk(false)
    }

    fn walk(&self, leftward: bool) -> (r: Result<NodeView, Error>)
        requires
            self.wf(),
        ensures
            self.root.node_view.id is None ==> r == Ok::<NodeView, Error>(NodeView { id: None }),
            r matches Ok(v) ==> (v.id is None && self.root.node_view.id is None) || (v.id matches Some(
                id,
            ) && self.storage_accessor.contains(id) && (if leftward {
                self.storage_accessor.node(id).left.id is None
            } else {
                self.storage_accessor.node(id).right.id is None
            })),
    {
        let root = self.root.get_view();
        if root.is_empty() {
            return Ok(root);
        }
        self.tree_extreme(root, leftward)
    }
}

/// Every node stored in `a` is stored in `b` with the same keys, and `b`
/// stores no other node: only links and colors changed.
pub open spec fn keys_kept(a: NodeStorage, b: NodeStorage) -> bool {
    &&& forall|id: u64| #[trigger] a.contains(id) ==> b.contains(id) && b.node(id).keys@ == a.node(id).keys@
    &&& forall|id: u64| #[trigger] b.contains(id) ==> a.contains(id)
}

proof fn lemma_keys_kept_trans(a: NodeStorage, b: NodeStorage, c: NodeStorage)
    requires
        keys_kept(a, b),
        keys_kept(b, c),
    ensures
        keys_kept(a, c),
{
}

/// Which link of a node to rewrite.
#[derive(Debug, Clone, Copy, PartialEq, Eq, Structural)]
enum Link {
    Left,
    Right,
    Parent,
}

impl OrderStatisticTree {
    /// The links and color of the node at `at`.
    fn links(&self, at: NodeView) -> (r: Result<(NodeView, NodeView, NodeView, NodeColor), Error>)
        requires
            self.wf(),
        ensures
            r matches Ok((p, l, rt, c)) ==> at.id matches Some(id) && self.storage_accessor.contains(id)
                && p == self.storage_accessor.node(id).parent && l == self.storage_accessor.node(id).left
                && rt == self.storage_accessor.node(id).right && c == self.storage_accessor.node(id).color,
    {
        match self.storage_accessor.load(at) {
            Ok(n) => Ok((n.inner_node.parent, n.inner_node.left, n.inner_node.right, n.inner_node.color)),
            Err(e) => Err(e),
        }
    }

    /// Points one link of the node at `at` to `to`.
    fn set_link(&mut self, at: NodeView, link: Link, to: NodeView) -> (r: Result<(), Error>)
        requires
            old(self).wf(),
        ensures
            final(self).wf(),
            final(self).root == old(self).root,
            r is Ok ==> keys_kept(old(self).storage_accessor, final(self).storage_accessor),
            r is Err ==> final(self).storage_accessor == old(self).storage_accessor,
    {
        let mut node = match self.storage_accessor.load(at) {
            Ok(n) => n,
            Err(e) => return Err(e),
        };
        match link {
            Link::Left => *node.left_mut() = to,
            Link::Right => *node.right_mut() = to,
            Link::Parent => *node.parent_mut() = to,
        }
        let ghost before = self.storage_accessor;
        match node.sync(&mut self.storage_accessor) {
            Ok(_) => {
                proof {
                    let id = at.id->Some_0;
                    assert forall|o: u64| #[trigger] before.contains(o) implies self.storage_accessor.contains(o)
                        && self.storage_accessor.node(o).keys@ == before.node(o).keys@ by {
                        if o != id {
                        }
                    }
                    assert forall|o: u64| #[trigger] self.storage_accessor.contains(o) implies before.contains(o) by {
                        if o != id {
                        }
                    }
                }
                Ok(())
            },
            Err(e) => Err(e),
        }
    }

    /// Paints the node at `at`.
    fn set_color(&mut self, at: NodeView, color: NodeColor) -> (r: Result<(), Error>)
        requires
            old(self).wf(),
        ensures
            final(self).wf(),
            final(self).root == old(self).root,
            r is Ok ==> keys_kept(old(self).storage_accessor, final(self).storage_accessor),
            r is Err ==> final(self).storage_accessor == old(self).storage_accessor,
    {
        let mut node = match self.storage_accessor.load(at) {
            Ok(n) => n,
            Err(e) => return Err(e),
        };
        *node.color_mut() = color;
        let ghost before = self.storage_accessor;
        match node.sync(&mut self.storage_accessor) {
            Ok(_) => {
                proof {
                    let id = at.id->Some_0;
                    assert forall|o: u64| #[trigger] before.contains(o) implies self.storage_accessor.contains(o)
                        && self.storage_accessor.node(o).keys@ == before.node(o).keys@ by {
                        if o != id {
                        }
                    }
                    assert forall|o: u64| #[trigger] self.storage_accessor.contains(o) implies before.contains(o) by {
                        if o != id {
                        }
                    }
                }
                Ok(())
            },
            Err(e) => Err(e),
        }
    }

    /// Puts `new_child` in the place `old_child` held below `parent`, or at
    /// the root when `parent` is empty.
    fn replace_parent_child_relations(
        &mut self,
        parent: NodeView,
        old_child: NodeView,
        new_child: NodeView,
    ) -> (r: Result<(), Error>)
        requires
            old(self).wf(),
        ensures
            final(self).wf(),
            r is Ok ==> keys_kept(old(self).storage_accessor, final(self).storage_accessor),
    {
        let ghost start = self.storage_accessor;
        if parent.is_empty() {
            self.root = NodeViewHolder::new(new_child);
        } else {
            let (_, left, right, _) = match self.links(parent) {
                Ok(x) => x,
                Err(e) => return Err(e),
            };
            if left == old_child {
                match self.set_link(parent, Link::Left, new_child) {
                    Ok(()) => {},
                    Err(e) => return Err(e),
                }
            } else if right == old_child {
                match self.set_link(parent, Link::Right, new_child) {
                    Ok(()) => {},
                    Err(e) => return Err(e),
                }
            } else {
                return Err(Error::NotAChildOfItsParent);
            }
        }
        let ghost mid = self.storage_accessor;
        if !new_child.is_empty() {
            match self.set_link(new_child, Link::Parent, parent) {
                Ok(()) => {},
                Err(e) => return Err(e),
            }
            proof {
                lemma_keys_kept_trans(start, mid, self.storage_accessor);
            }
        }
        Ok(())
    }

    /// Turns the right child of `x` into the parent of `x`.
    fn rotate_left(&mut self, x: NodeView) -> (r: Result<(), Error>)
        requires
            old(self).wf(),
        ensures
            final(self).wf(),
            r is Ok ==> keys_kept(old(self).storage_accessor, final(self).storage_accessor),
    {
        let ghost s0 = self.storage_accessor;
        let (old_parent, _, right_child, _) = match self.links(x) {
            Ok(v) => v,
            Err(e) => return Err(e),
        };
        let (_, grandchild, _, _) = match self.links(right_child) {
            Ok(v) => v,
            Err(e) => return Err(e),
        };
        match self.set_link(x, Link::Right, grandchild) {
            Ok(()) => {},
            Err(e) => return Err(e),
        }
        let ghost s1 = self.storage_accessor;
        if !grandchild.is_empty() {
            match self.set_link(grandchild, Link::Parent, x) {
                Ok(()) => {},
                Err(e) => return Err(e),
            }
            proof {
                lemma_keys_kept_trans(s0, s1, self.storage_accessor);
            }
        }
        let ghost s2 = self.storage_accessor;
        match self.set_link(right_child, Link::Left, x) {
            Ok(()) => {},
            Err(e) => return Err(e),
        }
        let ghost s3 = self.storage_accessor;
        match self.set_link(x, Link::Parent, right_child) {
            Ok(()) => {},
            Err(e) => return Err(e),
        }
        let ghost s4 = self.storage_accessor;
        let r = self.replace_parent_child_relations(old_parent, x, right_child);
        proof {
            if r is Ok {
                lemma_keys_kept_trans(s0, s2, s3);
                lemma_keys_kept_trans(s0, s3, s4);
                lemma_keys_kept_trans(s0, s4, self.storage_accessor);
            }
        }
        r
    }

    /// Turns the left child of `x` into the parent of `x`.
    fn rotate_right(&mut self, x: NodeView) -> (r: Result<(), Error>)
        requires
            old(self).wf(),
        ensures
            final(self).wf(),
            r is Ok ==> keys_kept(old(self).storage_accessor, final(self).storage_accessor),
    {
        let ghost s0 = self.storage_accessor;
        let (old_parent, left_child, _, _) = match self.links(x) {
            Ok(v) => v,
            Err(e) => return Err(e),
        };
        let (_, _, grandchild, _) = match self.links(left_child) {
            Ok(v) => v,
            Err(e) => return Err(e),
        };
        match self.set_link(x, Link::Left, grandchild) {
            Ok(()) => {},
            Err(e) => return Err(e),
        }
        let ghost s1 = self.storage_accessor;
        if !grandchild.is_empty() {
            match self.set_link(grandchild, Link::Parent, x) {
                Ok(()) => {},
                Err(e) => return Err(e),
            }
            proof {
                lemma_keys_kept_trans(s0, s1, self.storage_accessor);
            }
        }
        let ghost s2 = self.storage_accessor;
        match self.set_link(left_child, Link::Right, x) {
            Ok(()) => {},
            Err(e) => return Err(e),
        }
        let ghost s3 = self.storage_accessor;
        match self.set_link(x, Link::Parent, left_child) {
            Ok(()) => {},
            Err(e) => return Err(e),
        }
        let ghost s4 = self.storage_accessor;
        let r = self.replace_parent_child_relations(old_parent, x, left_child);
        proof {
            if r is Ok {
                lemma_keys_kept_trans(s0, s2, s3);
                lemma_keys_kept_trans(s0, s3, s4);
                lemma_keys_kept_trans(s0, s4, self.storage_accessor);
            }
        }
        r
    }
}

impl OrderStatisticTree {
    /// Restores the red-black rules above the red node `current`: recolors
    /// while the uncle is red, then rotates once or twice. `fuel` bounds the
    /// climb; running out fails.
    fn insert_fixup(&mut self, current: NodeView, fuel: u64) -> (r: Result<(), Error>)
        requires
            old(self).wf(),
        ensures
            final(self).wf(),
            r is Ok ==> keys_kept(old(self).storage_accessor, final(self).storage_accessor),
        decreases fuel,
    {
        let ghost s0 = self.storage_accessor;
        if fuel == 0 {
            return Err(Error::NotAChildOfItsParent);
        }
        let (parent, _, _, _) = match self.links(current) {
            Ok(v) => v,
            Err(e) => return Err(e),
        };
        if parent.is_empty() {
            return self.set_color(current, NodeColor::Black);
        }
        let (grandparent, parent_left, parent_right, parent_color) = match self.links(parent) {
            Ok(v) => v,
            Err(e) => return Err(e),
        };
        if parent_color == NodeColor::Black {
            return Ok(());
        }
        if grandparent.is_empty() {
            return self.set_color(parent, NodeColor::Black);
        }
        let (_, grand_left, grand_right, _) = match self.links(grandparent) {
            Ok(v) => v,
            Err(e) => return Err(e),
        };
        let uncle = if grand_left == parent {
            grand_right
        } else if grand_right == parent {
            grand_left
        } else {
            return Err(Error::NotAChildOfItsParent);
        };
        let uncle_red = if uncle.is_empty() {
            false
        } else {
            match self.links(uncle) {
                Ok((_, _, _, c)) => c == NodeColor::Red,
                Err(e) => return Err(e),
            }
        };
        if uncle_red {
            match self.set_color(uncle, NodeColor::Black) {
                Ok(()) => {},
                Err(e) => return Err(e),
            }
            let ghost s1 = self.storage_accessor;
            match self.set_color(parent, NodeColor::Black) {
                Ok(()) => {},
                Err(e) => return Err(e),
            }
            let ghost s2 = self.storage_accessor;
            match self.set_color(grandparent, NodeColor::Red) {
                Ok(()) => {},
                Err(e) => return Err(e),
            }
            let ghost s3 = self.storage_accessor;
            let r = self.insert_fixup(grandparent, fuel - 1);
            proof {
                if r is Ok {
                    lemma_keys_kept_trans(s0, s1, s2);
                    lemma_keys_kept_trans(s0, s2, s3);
                    lemma_keys_kept_trans(s0, s3, self.storage_accessor);
                }
            }
            return r;
        }
        let mut top = parent;
        if parent == grand_left {
            if current == parent_right {
                match self.rotate_left(parent) {
                    Ok(()) => {},
                    Err(e) => return Err(e),
                }
                top = current;
            }
            let ghost s1 = self.storage_accessor;
            match self.rotate_right(grandparent) {
                Ok(()) => {},
                Err(e) => return Err(e),
            }
            proof {
                if s1 != s0 {
                    lemma_keys_kept_trans(s0, s1, self.storage_accessor);
                }
            }
        } else {
            if current == parent_left {
                match self.rotate_right(parent) {
                    Ok(()) => {},
                    Err(e) => return Err(e),
                }
                top = current;
            }
            let ghost s1 = self.storage_accessor;
            match self.rotate_left(grandparent) {
                Ok(()) => {},
                Err(e) => return Err(e),
            }
            proof {
                if s1 != s0 {
                    lemma_keys_kept_trans(s0, s1, self.storage_accessor);
                }
            }
        }
        let ghost s2 = self.storage_accessor;
        match self.set_color(top, NodeColor::Black) {
            Ok(()) => {},
            Err(e) => return Err(e),
        }
        let ghost s3 = self.storage_accessor;
        let r = self.set_color(grandparent, NodeColor::Red);
        proof {
            if r is Ok {
                lemma_keys_kept_trans(s0, s2, s3);
                lemma_keys_kept_trans(s0, s3, self.storage_accessor);
            }
        }
        r
    }

    /// Files `key` under `value`: adds it to the node of that value, or
    /// inserts a new red node for it and rebalances. A value of 0 is
    /// refused. The other nodes keep their keys.
    pub fn insert(&mut self, value: u64, key: u64) -> (r: Result<(), Error>)
        requires
            old(self).wf(),
        ensures
            final(self).wf(),
            value == 0 ==> r == Err::<(), Error>(Error::ZeroValueInsert) && *final(self) == *old(self),
            r is Ok ==> final(self).storage_accessor.contains(value)
                && final(self).storage_accessor.node(value).keys@.contains(key),
            r is Ok ==> forall|id: u64|
                id != value && #[trigger] old(self).storage_accessor.contains(id)
                    ==> final(self).storage_accessor.contains(id)
                    && final(self).storage_accessor.node(id).keys@ == old(self).storage_accessor.node(id).keys@,
            r is Ok ==> forall|id: u64| #[trigger] final(self).storage_accessor.contains(id)
                ==> id == value || old(self).storage_accessor.contains(id),
    {
        if value == 0 {
            return Err(Error::ZeroValueInsert);
        }
        let node_value = NodeView::new(value);
        let mut current = self.root.get_view();
        let mut parent = self.root.get_view();
        let mut left_side = false;
        let mut budget: u64 = u64::MAX;
        while !current.is_empty() && budget > 0
            invariant
                self.wf(),
                self.storage_accessor == old(self).storage_accessor,
                value != 0,
                node_value == (NodeView { id: Some(value) }),
            decreases budget,
        {
            let mut cur_node = match self.storage_accessor.load(current) {
                Ok(n) => n,
                Err(e) => return Err(e),
            };
            parent = cur_node.id;
            let cur_value = match current.id {
                Some(v) => v,
                None => return Err(Error::EmptyNodeView),
            };
            if value < cur_value {
                left_side = true;
                current = cur_node.inner_node.left;
            } else if value > cur_value {
                left_side = false;
                current = cur_node.inner_node.right;
            } else {
                if !cur_node.key_exists(key) {
                    cur_node.insert_key(key);
                    let ghost before = self.storage_accessor;
                    match cur_node.sync(&mut self.storage_accessor) {
                        Ok(_) => {},
                        Err(e) => return Err(e),
                    }
                    proof {
                        assert(self.storage_accessor.node(value).keys@ == before.node(value).keys@.push(key));
                        assert(self.storage_accessor.node(value).keys@.last() == key);
                        assert forall|id: u64|
                            id != value && #[trigger] before.contains(id) implies self.storage_accessor.contains(id)
                            && self.storage_accessor.node(id).keys@ == before.node(id).keys@ by {
                            assert(self.storage_accessor.contains(id) == before.contains(id));
                        }
                        assert forall|id: u64| #[trigger] self.storage_accessor.contains(id) implies id == value
                            || before.contains(id) by {
                            if id != value {
                                assert(self.storage_accessor.contains(id) == before.contains(id));
                            }
                        }
                    }
                }
                return Ok(());
            }
            budget -= 1;
        }
        if !current.is_empty() {
            return Err(Error::NotAChildOfItsParent);
        }
        let ghost s0 = self.storage_accessor;
        match self.storage_accessor.new_node(parent, node_value, key) {
            Ok(_) => {},
            Err(e) => return Err(e),
        }
        let ghost s1 = self.storage_accessor;
        proof {
            assert(s1.node(value).keys@[0] == key);
        }
        if !parent.is_empty() {
            let link = if left_side {
                Link::Left
            } else {
                Link::Right
            };
            match self.set_link(parent, link, node_value) {
                Ok(()) => {},
                Err(e) => return Err(e),
            }
        } else {
            self.root = NodeViewHolder::new(node_value);
        }
        let ghost s2 = self.storage_accessor;
        let r = self.insert_fixup(node_value, u64::MAX);
        proof {
            if r is Ok {
                if s2 != s1 {
                    lemma_keys_kept_trans(s1, s2, self.storage_accessor);
                }
                assert(self.storage_accessor.node(value).keys@ == s1.node(value).keys@);
                assert(self.storage_accessor.node(value).keys@[0] == key);
                assert forall|id: u64|
                    id != value && #[trigger] s0.contains(id) implies self.storage_accessor.contains(id)
                    && self.storage_accessor.node(id).keys@ == s0.node(id).keys@ by {
                    assert(s1.contains(id) == s0.contains(id));
                    assert(s1.contains(id));
                }
                assert forall|id: u64| #[trigger] self.storage_accessor.contains(id) implies id == value
                    || s0.contains(id) by {
                    assert(s1.contains(id));
                    if id != value {
                        assert(s1.contains(id) == s0.contains(id));
                    }
                }
            }
        }
        r
    }
}

/// Apart from the node of `v` and the temporary black leaf, `a` and `b`
/// store the same nodes with the same keys.
pub open spec fn kept_apart(a: NodeStorage, b: NodeStorage, v: u64) -> bool {
    forall|id: u64|
        id != v && id != NIL_NODE_ID ==> ((#[trigger] a.contains(id) ==> b.contains(id)
            && b.node(id).keys@ == a.node(id).keys@) && (b.contains(id) ==> a.contains(id)))
}

proof fn lemma_kept_apart_trans(a: NodeStorage, b: NodeStorage, c: NodeStorage, v: u64)
    requires
        kept_apart(a, b, v),
        kept_apart(b, c, v),
    ensures
        kept_apart(a, c, v),
{
    assert forall|id: u64| id != v && id != NIL_NODE_ID implies ((#[trigger] a.contains(id) ==> c.contains(id)
        && c.node(id).keys@ == a.node(id).keys@) && (c.contains(id) ==> a.contains(id))) by {
        if a.contains(id) {
            assert(b.contains(id));
        }
        if c.contains(id) {
            assert(b.contains(id));
        }
    }
}

proof fn lemma_kept_is_apart(a: NodeStorage, b: NodeStorage, v: u64)
    requires
        keys_kept(a, b),
    ensures
        kept_apart(a, b, v),
{
    assert forall|id: u64| id != v && id != NIL_NODE_ID implies ((#[trigger] a.contains(id) ==> b.contains(id)
        && b.node(id).keys@ == a.node(id).keys@) && (b.contains(id) ==> a.contains(id))) by {
        if b.contains(id) {
            assert(a.contains(id));
        }
    }
}

proof fn lemma_apart_wider(a: NodeStorage, b: NodeStorage, v: u64)
    requires
        kept_apart(a, b, NIL_NODE_ID),
    ensures
        kept_apart(a, b, v),
{
    assert forall|id: u64| id != v && id != NIL_NODE_ID implies ((#[trigger] a.contains(id) ==> b.contains(id)
        && b.node(id).keys@ == a.node(id).keys@) && (b.contains(id) ==> a.contains(id))) by {
        if b.contains(id) {
            assert(a.contains(id));
        }
        if a.contains(id) {
            assert(b.contains(id));
        }
    }
}

impl OrderStatisticTree {
    /// The node of the largest value below `start`, following right links.
    fn find_maximum(&self, start: NodeView) -> (r: Result<NodeView, Error>)
        requires
            self.wf(),
    {
        let mut node = start;
        let mut budget: u64 = u64::MAX;
        while budget > 0
            invariant
                self.wf(),
            decreases budget,
        {
            let (_, _, right, _) = match self.links(node) {
                Ok(v) => v,
                Err(e) => return Err(e),
            };
            if right.is_empty() {
                return Ok(node);
            }
            node = right;
            budget -= 1;
        }
        Err(Error::NotAChildOfItsParent)
    }

    fn is_node_black_or_none(&self, node: NodeView) -> (r: bool)
        requires
            self.wf(),
    {
        if node.is_empty() {
            return true;
        }
        match self.links(node) {
            Ok((_, _, _, c)) => c == NodeColor::Black,
            Err(_) => false,
        }
    }

    /// The other child of the parent of `node`.
    fn get_sibling(&self, node: NodeView) -> (r: Result<NodeView, Error>)
        requires
            self.wf(),
    {
        let (parent, _, _, _) = match self.links(node) {
            Ok(v) => v,
            Err(e) => return Err(e),
        };
        let (_, left, right, _) = match self.links(parent) {
            Ok(v) => v,
            Err(e) => return Err(e),
        };
        if node == left {
            Ok(right)
        } else if node == right {
            Ok(left)
        } else {
            Err(Error::NotAChildOfItsParent)
        }
    }

    /// Unlinks `node`, which has at most one child, and returns the link
    /// that moved into its place: the child, the temporary black leaf for
    /// a black leaf, or `node` itself for a red leaf.
    fn delete_node_with_zero_or_one_child(&mut self, node: NodeView) -> (r: Result<NodeView, Error>)
        requires
            old(self).wf(),
        ensures
            final(self).wf(),
            r is Ok ==> kept_apart(old(self).storage_accessor, final(self).storage_accessor, NIL_NODE_ID),
    {
        let ghost s0 = self.storage_accessor;
        let (parent, left, right, color) = match self.links(node) {
            Ok(v) => v,
            Err(e) => return Err(e),
        };
        if !left.is_empty() {
            let r = self.replace_parent_child_relations(parent, node, left);
            proof {
                if r is Ok {
                    lemma_kept_is_apart(s0, self.storage_accessor, NIL_NODE_ID);
                }
            }
            return match r {
                Ok(()) => Ok(left),
                Err(e) => Err(e),
            };
        } else if !right.is_empty() {
            let r = self.replace_parent_child_relations(parent, node, right);
            proof {
                if r is Ok {
                    lemma_kept_is_apart(s0, self.storage_accessor, NIL_NODE_ID);
                }
            }
            return match r {
                Ok(()) => Ok(right),
                Err(e) => Err(e),
            };
        }
        if color == NodeColor::Black {
            let nil = match self.storage_accessor.create_nil_node(parent) {
                Ok(h) => h.get_view(),
                Err(e) => return Err(e),
            };
            let ghost s1 = self.storage_accessor;
            proof {
                assert forall|id: u64| id != NIL_NODE_ID && id != NIL_NODE_ID implies ((#[trigger] s0.contains(id)
                    ==> s1.contains(id) && s1.node(id).keys@ == s0.node(id).keys@) && (s1.contains(id)
                    ==> s0.contains(id))) by {
                    assert(s1.contains(id) == s0.contains(id));
                }
            }
            let r = self.replace_parent_child_relations(parent, node, nil);
            proof {
                if r is Ok {
                    lemma_kept_is_apart(s1, self.storage_accessor, NIL_NODE_ID);
                    lemma_kept_apart_trans(s0, s1, self.storage_accessor, NIL_NODE_ID);
                }
            }
            match r {
                Ok(()) => Ok(nil),
                Err(e) => Err(e),
            }
        } else {
            let (_, p_left, p_right, _) = match self.links(parent) {
                Ok(v) => v,
                Err(e) => return Err(e),
            };
            let link = if node == p_left {
                Link::Left
            } else if node == p_right {
                Link::Right
            } else {
                return Err(Error::NotAChildOfItsParent);
            };
            let r = self.set_link(parent, link, NodeView { id: None });
            proof {
                if r is Ok {
                    lemma_kept_is_apart(s0, self.storage_accessor, NIL_NODE_ID);
                }
            }
            match r {
                Ok(()) => Ok(node),
                Err(e) => Err(e),
            }
        }
    }

    /// Exchanges the places of `node` and `pred`, the largest node of its
    /// left subtree, colors included, so that `node` can be unlinked with
    /// at most one child.
    fn swap_with_predecessor(&mut self, node: NodeView, pred: NodeView) -> (r: Result<(), Error>)
        requires
            old(self).wf(),
        ensures
            final(self).wf(),
            r is Ok ==> keys_kept(old(self).storage_accessor, final(self).storage_accessor),
    {
        let ghost s0 = self.storage_accessor;
        let (n_parent, n_left, n_right, n_color) = match self.links(node) {
            Ok(v) => v,
            Err(e) => return Err(e),
        };
        let (p_parent, p_left, _, p_color) = match self.links(pred) {
            Ok(v) => v,
            Err(e) => return Err(e),
        };
        let mut steps: Vec<(NodeView, Link, NodeView)> = Vec::new();
        if pred == n_left {
            steps.push((pred, Link::Left, node));
        } else {
            steps.push((pred, Link::Left, n_left));
            steps.push((n_left, Link::Parent, pred));
            steps.push((p_parent, Link::Right, node));
        }
        steps.push((pred, Link::Right, n_right));
        if !n_right.is_empty() {
            steps.push((n_right, Link::Parent, pred));
        }
        steps.push((pred, Link::Parent, n_parent));
        steps.push((node, Link::Left, p_left));
        if !p_left.is_empty() {
            steps.push((p_left, Link::Parent, node));
        }
        steps.push((node, Link::Right, NodeView { id: None }));
        if pred == n_left {
            steps.push((node, Link::Parent, pred));
        } else {
            steps.push((node, Link::Parent, p_parent));
        }
        let mut i: usize = 0;
        while i < steps.len()
            invariant
                self.wf(),
                0 <= i <= steps@.len(),
                keys_kept(s0, self.storage_accessor),
            decreases steps@.len() - i,
        {
            let (at, link, to) = steps[i];
            let ghost before = self.storage_accessor;
            match self.set_link(at, link, to) {
                Ok(()) => {},
                Err(e) => return Err(e),
            }
            proof {
                lemma_keys_kept_trans(s0, before, self.storage_accessor);
            }
            i += 1;
        }
        let ghost s1 = self.storage_accessor;
        match self.set_color(pred, n_color) {
            Ok(()) => {},
            Err(e) => return Err(e),
        }
        let ghost s2 = self.storage_accessor;
        match self.set_color(node, p_color) {
            Ok(()) => {},
            Err(e) => return Err(e),
        }
        let ghost s3 = self.storage_accessor;
        proof {
            lemma_keys_kept_trans(s0, s1, s2);
            lemma_keys_kept_trans(s0, s2, s3);
        }
        if n_parent.is_empty() {
            self.root = NodeViewHolder::new(pred);
            Ok(())
        } else {
            let (_, g_left, g_right, _) = match self.links(n_parent) {
                Ok(v) => v,
                Err(e) => return Err(e),
            };
            let link = if g_left == node {
                Link::Left
            } else if g_right == node {
                Link::Right
            } else {
                return Err(Error::NotAChildOfItsParent);
            };
            let r = self.set_link(n_parent, link, pred);
            proof {
                if r is Ok {
                    lemma_keys_kept_trans(s0, s3, self.storage_accessor);
                }
            }
            r
        }
    }

    fn handle_red_sibling(&mut self, node: NodeView, sibling: NodeView) -> (r: Result<(), Error>)
        requires
            old(self).wf(),
        ensures
            final(self).wf(),
            r is Ok ==> keys_kept(old(self).storage_accessor, final(self).storage_accessor),
    {
        let ghost s0 = self.storage_accessor;
        let (parent, _, _, _) = match self.links(node) {
            Ok(v) => v,
            Err(e) => return Err(e),
        };
        let (_, parent_left, _, _) = match self.links(parent) {
            Ok(v) => v,
            Err(e) => return Err(e),
        };
        match self.set_color(sibling, NodeColor::Black) {
            Ok(()) => {},
            Err(e) => return Err(e),
        }
        let ghost s1 = self.storage_accessor;
        match self.set_color(parent, NodeColor::Red) {
            Ok(()) => {},
            Err(e) => return Err(e),
        }
        let ghost s2 = self.storage_accessor;
        let r = if node == parent_left {
            self.rotate_left(parent)
        } else {
            self.rotate_right(parent)
        };
        proof {
            if r is Ok {
                lemma_keys_kept_trans(s0, s1, s2);
                lemma_keys_kept_trans(s0, s2, self.storage_accessor);
            }
        }
        r
    }

    fn handle_black_sibling_with_at_least_one_red_child(&mut self, node: NodeView, sibling: NodeView) -> (r:
        Result<(), Error>)
        requires
            old(self).wf(),
        ensures
            final(self).wf(),
            r is Ok ==> keys_kept(old(self).storage_accessor, final(self).storage_accessor),
    {
        let ghost s0 = self.storage_accessor;
        let (parent, _, _, _) = match self.links(node) {
            Ok(v) => v,
            Err(e) => return Err(e),
        };
        let (_, parent_left, _, _) = match self.links(parent) {
            Ok(v) => v,
            Err(e) => return Err(e),
        };
        let node_is_left_child = node == parent_left;
        let (_, sib_left, sib_right, _) = match self.links(sibling) {
            Ok(v) => v,
            Err(e) => return Err(e),
        };
        let mut sib = sibling;
        if node_is_left_child && self.is_node_black_or_none(sib_right) {
            match self.set_color(sib_left, NodeColor::Black) {
                Ok(()) => {},
                Err(e) => return Err(e),
            }
            let ghost t1 = self.storage_accessor;
            match self.set_color(sibling, NodeColor::Red) {
                Ok(()) => {},
                Err(e) => return Err(e),
            }
            let ghost t2 = self.storage_accessor;
            match self.rotate_right(sibling) {
                Ok(()) => {},
                Err(e) => return Err(e),
            }
            proof {
                lemma_keys_kept_trans(s0, t1, t2);
                lemma_keys_kept_trans(s0, t2, self.storage_accessor);
            }
            sib = match self.links(parent) {
                Ok((_, _, r, _)) => r,
                Err(e) => return Err(e),
            };
        } else if !node_is_left_child && self.is_node_black_or_none(sib_left) {
            match self.set_color(sib_right, NodeColor::Black) {
                Ok(()) => {},
                Err(e) => return Err(e),
            }
            let ghost t1 = self.storage_accessor;
            match self.set_color(sibling, NodeColor::Red) {
                Ok(()) => {},
                Err(e) => return Err(e),
            }
            let ghost t2 = self.storage_accessor;
            match self.rotate_left(sibling) {
                Ok(()) => {},
                Err(e) => return Err(e),
            }
            proof {
                lemma_keys_kept_trans(s0, t1, t2);
                lemma_keys_kept_trans(s0, t2, self.storage_accessor);
            }
            sib = match self.links(parent) {
                Ok((_, l, _, _)) => l,
                Err(e) => return Err(e),
            };
        }
        let ghost s1 = self.storage_accessor;
        let parent_color = match self.links(parent) {
            Ok((_, _, _, c)) => c,
            Err(e) => return Err(e),
        };
        match self.set_color(sib, parent_color) {
            Ok(()) => {},
            Err(e) => return Err(e),
        }
        let ghost s2 = self.storage_accessor;
        match self.set_color(parent, NodeColor::Black) {
            Ok(()) => {},
            Err(e) => return Err(e),
        }
        let ghost s3 = self.storage_accessor;
        let (_, sl, sr, _) = match self.links(sib) {
            Ok(v) => v,
            Err(e) => return Err(e),
        };
        let outer = if node_is_left_child {
            sr
        } else {
            sl
        };
        match self.set_color(outer, NodeColor::Black) {
            Ok(()) => {},
            Err(e) => return Err(e),
        }
        let ghost s4 = self.storage_accessor;
        let r = if node_is_left_child {
            self.rotate_left(parent)
        } else {
            self.rotate_right(parent)
        };
        proof {
            if r is Ok {
                if s1 != s0 {
                    assert(keys_kept(s0, s1));
                }
                lemma_keys_kept_trans(s0, s1, s2);
                lemma_keys_kept_trans(s0, s2, s3);
                lemma_keys_kept_trans(s0, s3, s4);
                lemma_keys_kept_trans(s0, s4, self.storage_accessor);
            }
        }
        r
    }

    /// Restores the red-black rules after a black node left the tree, with
    /// `node` carrying the missing black. `fuel` bounds the climb.
    fn fix_red_black_properties_after_delete(&mut self, node: NodeView, fuel: u64) -> (r: Result<(), Error>)
        requires
            old(self).wf(),
        ensures
            final(self).wf(),
            r is Ok ==> keys_kept(old(self).storage_accessor, final(self).storage_accessor),
        decreases fuel,
    {
        let ghost s0 = self.storage_accessor;
        if fuel == 0 {
            return Err(Error::NotAChildOfItsParent);
        }
        if !node.is_empty() && node == self.root.get_view() {
            return self.set_color(node, NodeColor::Black);
        }
        let mut sibling = match self.get_sibling(node) {
            Ok(v) => v,
            Err(e) => return Err(e),
        };
        let sibling_color = match self.links(sibling) {
            Ok((_, _, _, c)) => c,
            Err(e) => return Err(e),
        };
        if sibling_color == NodeColor::Red {
            match self.handle_red_sibling(node, sibling) {
                Ok(()) => {},
                Err(e) => return Err(e),
            }
            sibling = match self.get_sibling(node) {
                Ok(v) => v,
                Err(e) => return Err(e),
            };
        }
        let ghost s1 = self.storage_accessor;
        let (_, sib_left, sib_right, _) = match self.links(sibling) {
            Ok(v) => v,
            Err(e) => return Err(e),
        };
        let r = if self.is_node_black_or_none(sib_left) && self.is_node_black_or_none(sib_right) {
            match self.set_color(sibling, NodeColor::Red) {
                Ok(()) => {},
                Err(e) => return Err(e),
            }
            let ghost s2 = self.storage_accessor;
            let (parent, _, _, _) = match self.links(node) {
                Ok(v) => v,
                Err(e) => return Err(e),
            };
            let parent_color = match self.links(parent) {
                Ok((_, _, _, c)) => c,
                Err(e) => return Err(e),
            };
            let r = if parent_color == NodeColor::Red {
                self.set_color(parent, NodeColor::Black)
            } else {
                self.fix_red_black_properties_after_delete(parent, fuel - 1)
            };
            proof {
                if r is Ok {
                    lemma_keys_kept_trans(s1, s2, self.storage_accessor);
                }
            }
            r
        } else {
            self.handle_black_sibling_with_at_least_one_red_child(node, sibling)
        };
        proof {
            if r is Ok {
                if s1 != s0 {
                    assert(keys_kept(s0, s1));
                }
                lemma_keys_kept_trans(s0, s1, self.storage_accessor);
            }
        }
        r
    }
}

impl OrderStatisticTree {
    /// Deletes the node of `value` from the tree and rebalances. Fails when
    /// no node of that value is reachable from the root.
    pub fn remove_node(&mut self, value: NodeViewHolder) -> (r: Result<(), Error>)
        requires
            old(self).wf(),
        ensures
            final(self).wf(),
            r is Ok && old(self).root.node_view.id is Some ==> (value.node_view.id matches Some(v) ==> !final(self).storage_accessor.contains(v)
                && kept_apart(old(self).storage_accessor, final(self).storage_accessor, v)),
            old(self).root.node_view.id is None ==> r is Ok && *final(self) == *old(self),
            old(self).root.node_view.id is Some && (value.node_view.id is None || value.node_view.id
                == Some(NIL_NODE_ID)) ==> r is Err,
    {
        let ghost s0 = self.storage_accessor;
        if self.root.is_empty() {
            return Ok(());
        }
        let target = value.get_view();
        let wanted = match target.id {
            Some(v) => v,
            None => return Err(Error::EmptyNodeView),
        };
        if wanted == NIL_NODE_ID {
            return Err(Error::EmptyNodeView);
        }
        let mut node = self.root.get_view();
        let mut budget: u64 = u64::MAX;
        while !node.is_empty() && node != target && budget > 0
            invariant
                self.wf(),
                self.storage_accessor == s0,
                self.root == old(self).root,
                old(self).root.node_view.id is Some,
            decreases budget,
        {
            let (_, left, right, _) = match self.links(node) {
                Ok(v) => v,
                Err(e) => return Err(e),
            };
            let here = match node.id {
                Some(h) => h,
                None => return Err(Error::EmptyNodeView),
            };
            node = if wanted < here {
                left
            } else {
                right
            };
            budget -= 1;
        }
        if node != target {
            return Err(Error::EmptyNodeView);
        }
        let (_, n_left, n_right, n_color) = match self.links(node) {
            Ok(v) => v,
            Err(e) => return Err(e),
        };
        let deleted_color;
        if !n_left.is_empty() && !n_right.is_empty() {
            let pred = match self.find_maximum(n_left) {
                Ok(p) => p,
                Err(e) => return Err(e),
            };
            deleted_color = match self.links(pred) {
                Ok((_, _, _, c)) => c,
                Err(e) => return Err(e),
            };
            match self.swap_with_predecessor(node, pred) {
                Ok(()) => {},
                Err(e) => return Err(e),
            }
        } else {
            deleted_color = n_color;
        }
        let ghost s1 = self.storage_accessor;
        let moved_up = match self.delete_node_with_zero_or_one_child(node) {
            Ok(m) => m,
            Err(e) => return Err(e),
        };
        let ghost s2 = self.storage_accessor;
        match self.storage_accessor.remove_node(node) {
            Ok(()) => {},
            Err(e) => return Err(e),
        }
        let ghost s3 = self.storage_accessor;
        proof {
            if s1 != s0 {
                assert(keys_kept(s0, s1));
            }
            lemma_kept_is_apart(s0, s1, NIL_NODE_ID);
            lemma_kept_apart_trans(s0, s1, s2, NIL_NODE_ID);
            lemma_apart_wider(s0, s2, wanted);
            assert forall|id: u64| id != wanted && id != NIL_NODE_ID implies ((#[trigger] s2.contains(id)
                ==> s3.contains(id) && s3.node(id).keys@ == s2.node(id).keys@) && (s3.contains(id)
                ==> s2.contains(id))) by {
                assert(s3.contains(id) == s2.contains(id));
            }
            lemma_kept_apart_trans(s0, s2, s3, wanted);
        }
        if deleted_color == NodeColor::Black {
            match self.fix_red_black_properties_after_delete(moved_up, u64::MAX) {
                Ok(()) => {},
                Err(e) => return Err(e),
            }
            let ghost s4 = self.storage_accessor;
            proof {
                lemma_kept_is_apart(s3, s4, wanted);
                lemma_kept_apart_trans(s0, s3, s4, wanted);
            }
            if moved_up == (NodeView { id: Some(NIL_NODE_ID) }) {
                if moved_up == self.root.get_view() {
                    self.root = NodeViewHolder::new(NodeView { id: None });
                } else {
                    let (parent, _, _, _) = match self.links(moved_up) {
                        Ok(v) => v,
                        Err(e) => return Err(e),
                    };
                    let (_, p_left, p_right, _) = match self.links(parent) {
                        Ok(v) => v,
                        Err(e) => return Err(e),
                    };
                    let link = if p_left == moved_up {
                        Link::Left
                    } else if p_right == moved_up {
                        Link::Right
                    } else {
                        return Err(Error::NotAChildOfItsParent);
                    };
                    match self.set_link(parent, link, NodeView { id: None }) {
                        Ok(()) => {},
                        Err(e) => return Err(e),
                    }
                    proof {
                        lemma_kept_is_apart(s4, self.storage_accessor, wanted);
                        lemma_kept_apart_trans(s0, s4, self.storage_accessor, wanted);
                    }
                }
                let ghost s5 = self.storage_accessor;
                match self.storage_accessor.remove_node(moved_up) {
                    Ok(()) => {},
                    Err(e) => return Err(e),
                }
                proof {
                    assert forall|id: u64| id != wanted && id != NIL_NODE_ID implies ((#[trigger] s5.contains(id)
                        ==> self.storage_accessor.contains(id) && self.storage_accessor.node(id).keys@
                        == s5.node(id).keys@) && (self.storage_accessor.contains(id) ==> s5.contains(id))) by {
                        assert(self.storage_accessor.contains(id) == s5.contains(id));
                    }
                    lemma_kept_apart_trans(s0, s5, self.storage_accessor, wanted);
                    assert(self.storage_accessor.contains(wanted) == s5.contains(wanted));
                }
            }
        }
        Ok(())
    }
}

impl OrderStatisticTree {
    /// Takes `key` off `value`, and deletes the node of `value` once it
    /// holds no key. Nothing happens when `key` is not filed there, or for
    /// the value 0, which is never a node.
    pub fn remove(&mut self, value: u64, key: u64) -> (r: Result<(), Error>)
        requires
            old(self).wf(),
        ensures
            final(self).wf(),
            !(old(self).spec_exists(value) && old(self).storage_accessor.contains(value) && old(
                self,
            ).storage_accessor.node(value).keys@.contains(key)) ==> r is Ok && *final(self) == *old(self),
            r is Ok && value != 0 ==> !(final(self).storage_accessor.contains(value)
                && final(self).storage_accessor.node(value).keys@.contains(key)),
            r is Ok ==> kept_apart(old(self).storage_accessor, final(self).storage_accessor, value),
            r is Ok && value != 0 && final(self).storage_accessor.contains(value) && old(
                self,
            ).storage_accessor.contains(value) ==> final(self).storage_accessor.node(value).keys@ == without_key(
                old(self).storage_accessor.node(value).keys@,
                key,
            ) || !old(self).storage_accessor.node(value).keys@.contains(key),
    {
        let ghost s0 = self.storage_accessor;
        if !self.value_exists(value) || !self.key_exists(key, value) {
            proof {
                lemma_kept_is_apart(s0, s0, value);
            }
            return Ok(());
        }
        let mut node = match self.storage_accessor.load(NodeView::new(value)) {
            Ok(n) => n,
            Err(e) => return Err(e),
        };
        node.remove_key(key);
        proof {
            lemma_without_key(s0.node(value).keys@, key);
        }
        if node.keys_empty() && !self.root.is_empty() {
            let holder = node.node_view();
            self.remove_node(holder)
        } else {
            match node.sync(&mut self.storage_accessor) {
                Ok(_) => {},
                Err(e) => return Err(e),
            }
            proof {
                assert forall|id: u64| id != value && id != NIL_NODE_ID implies ((#[trigger] s0.contains(id)
                    ==> self.storage_accessor.contains(id) && self.storage_accessor.node(id).keys@
                    == s0.node(id).keys@) && (self.storage_accessor.contains(id) ==> s0.contains(id))) by {
                    assert(self.storage_accessor.contains(id) == s0.contains(id));
                }
            }
            Ok(())
        }
    }
}

impl OrderStatisticTree {
    /// The end of the walk from `start` along left links (`leftward`) or
    /// right links: a stored node whose next link that way is empty.
    fn tree_extreme(&self, start: NodeView, leftward: bool) -> (r: Result<NodeView, Error>)
        requires
            self.wf(),
        ensures
            r matches Ok(v) ==> v.id matches Some(id) && self.storage_accessor.contains(id) && (if leftward {
                self.storage_accessor.node(id).left.id is None
            } else {
                self.storage_accessor.node(id).right.id is None
            }),
    {
        let mut cursor = start;
        let mut budget: u64 = u64::MAX;
        while budget > 0
            invariant
                self.wf(),
            decreases budget,
        {
            let (_, left, right, _) = match self.links(cursor) {
                Ok(v) => v,
                Err(e) => return Err(e),
            };
            let next = if leftward {
                left
            } else {
                right
            };
            if next.is_empty() {
                return Ok(cursor);
            }
            cursor = next;
            budget -= 1;
        }
        Err(Error::NotAChildOfItsParent)
    }

    /// The in-order neighbour of `node`: the next larger value when
    /// `forward`, else the next smaller; an empty link when there is none.
    fn neighbour(&self, node: NodeViewHolder, forward: bool) -> (r: Result<NodeViewHolder, Error>)
        requires
            self.wf(),
        ensures
            r matches Ok(h) ==> h.node_view.id matches Some(id) ==> self.storage_accessor.contains(id),
    {
        let (parent, left, right, _) = match self.links(node.get_view()) {
            Ok(v) => v,
            Err(e) => return Err(e),
        };
        let down = if forward {
            right
        } else {
            left
        };
        if !down.is_empty() {
            return match self.tree_extreme(down, forward) {
                Ok(v) => Ok(NodeViewHolder::new(v)),
                Err(e) => Err(e),
            };
        }
        let mut cursor = parent;
        let mut current = node.get_view();
        let mut budget: u64 = u64::MAX;
        while !cursor.is_empty() && budget > 0
            invariant
                self.wf(),
            decreases budget,
        {
            let (up, c_left, c_right, _) = match self.links(cursor) {
                Ok(v) => v,
                Err(e) => return Err(e),
            };
            let came_from = if forward {
                c_right
            } else {
                c_left
            };
            if current != came_from {
                return Ok(NodeViewHolder::new(cursor));
            }
            current = cursor;
            cursor = up;
            budget -= 1;
        }
        if !cursor.is_empty() {
            return Err(Error::NotAChildOfItsParent);
        }
        Ok(NodeViewHolder::new(cursor))
    }

    /// The node of the next larger value after `node`, or an empty link.
    pub fn next(&self, node: NodeViewHolder) -> (r: Result<NodeViewHolder, Error>)
        requires
            self.wf(),
        ensures
            r matches Ok(h) ==> h.node_view.id matches Some(id) ==> self.storage_accessor.contains(id),
    {
        self.neighbour(node, true)
    }

    /// The node of the next smaller value before `node`, or an empty link.
    pub fn prev(&self, node: NodeViewHolder) -> (r: Result<NodeViewHolder, Error>)
        requires
            self.wf(),
        ensures
            r matches Ok(h) ==> h.node_view.id matches Some(id) ==> self.storage_accessor.contains(id),
    {
        self.neighbour(node, false)
    }
}

} // verus!

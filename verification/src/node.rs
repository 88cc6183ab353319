//! The tree of visual nodes shown in a window.
//!
//! Nodes live in a slot map and are linked to their parent, their siblings
//! and their first and last children. The links are checked against a ghost
//! model: every node sits at one position of one ordered sibling list, and a
//! list is either the children of a node (possibly one that was removed) or a
//! chain of nodes without parent.
pub mod event;
pub mod paint;

use vstd::prelude::*;
use slotmap::{DefaultKey, KeyData, SlotMap};

verus! {

/// The bit that every key handed out by a slot map has set: slot versions
/// of occupied slots are odd, and the version sits in the upper 32 bits.
pub const OCCUPIED_BIT: u64 = 0x1_0000_0000;

/// Whether `key` is the 64-bit form of a key that a slot map can hand out.
pub open spec fn is_canonical(key: u64) -> bool {
    key | OCCUPIED_BIT == key
}

/// The slot map that holds the nodes of a tree, keyed by `DefaultKey`.
/// The declaration of `SlotMap` cannot be given (its key bound is an outside
/// trait), so the map sits in a field that only the wrappers below read and
/// write.
#[verifier::external_body]
pub struct NodeSlots {
    map: SlotMap<DefaultKey, Node>,
}

/// The nodes that a slot map holds, by the 64-bit form of their keys.
pub uninterp spec fn node_slots(m: NodeSlots) -> Map<u64, Node>;

/// The number of nodes that a slot map holds.
pub uninterp spec fn node_slot_count(m: NodeSlots) -> nat;

/// Calls `SlotMap::with_key`: an empty map.
#[verifier::external_body]
fn slots_new() -> (fresh: NodeSlots)
    ensures
        node_slots(fresh).dom().is_empty(),
        node_slot_count(fresh) == 0,
{
    NodeSlots { map: SlotMap::with_key() }
}

/// Calls `SlotMap::len`: the number of occupied slots.
#[verifier::external_body]
fn slots_len(m: &NodeSlots) -> (n: usize)
    ensures
        n == node_slot_count(*m),
{
    m.map.len()
}

/// Calls `SlotMap::insert` and returns the key in the form of
/// `KeyData::as_ffi`. The key was not in use, its version is odd, and the
/// value is stored under it. `insert` panics only when all `u32::MAX - 1`
/// usable slots are taken, which `requires` rules out.
#[verifier::external_body]
fn slots_insert(m: &mut NodeSlots, value: Node) -> (key: u64)
    requires
        node_slot_count(*old(m)) < 0xffff_fffe,
    ensures
        !node_slots(*old(m)).contains_key(key),
        is_canonical(key),
        node_slots(*final(m)) == node_slots(*old(m)).insert(key, value),
        node_slot_count(*final(m)) == node_slot_count(*old(m)) + 1,
{
    let k: DefaultKey = m.map.insert(value);
    slotmap::Key::data(&k).as_ffi()
}

/// Calls `SlotMap::get` with the key that `KeyData::from_ffi` rebuilds from
/// `key`; for a key in the form of `as_ffi`, that is the key itself.
#[verifier::external_body]
fn slots_get(m: &NodeSlots, key: u64) -> (r: Option<&Node>)
    requires
        is_canonical(key),
    ensures
        match r {
            Some(v) => node_slots(*m).contains_key(key) && *v == node_slots(*m)[key],
            None => !node_slots(*m).contains_key(key),
        },
{
    m.map.get(KeyData::from_ffi(key).into())
}

/// Overwrites the node stored under `key` through `SlotMap`'s `IndexMut`,
/// which panics on a key that is not in use: `requires` rules that out.
#[verifier::external_body]
fn slots_set(m: &mut NodeSlots, key: u64, value: Node)
    requires
        is_canonical(key),
        node_slots(*old(m)).contains_key(key),
    ensures
        node_slots(*final(m)) == node_slots(*old(m)).insert(key, value),
        node_slot_count(*final(m)) == node_slot_count(*old(m)),
{
    m.map[KeyData::from_ffi(key).into()] = value;
}

/// Calls `SlotMap::remove`: the stored node, if there was one, leaves.
#[verifier::external_body]
fn slots_remove(m: &mut NodeSlots, key: u64) -> (r: Option<Node>)
    requires
        is_canonical(key),
    ensures
        match r {
            Some(v) => node_slots(*old(m)).contains_key(key) && v == node_slots(*old(m))[key]
                && node_slot_count(*final(m)) + 1 == node_slot_count(*old(m)),
            None => !node_slots(*old(m)).contains_key(key)
                && node_slot_count(*final(m)) == node_slot_count(*old(m)),
        },
        node_slots(*final(m)) == node_slots(*old(m)).remove(key),
{
    m.map.remove(KeyData::from_ffi(key).into())
}

/// Identifies a node of a [`NodeTree`].
#[derive(Copy, Clone, Debug, PartialEq, Eq, Structural, Hash)]
pub struct NodeId {
    key: u64,
}

impl NodeId {
    /// The 64-bit key of the node in the tree's slot map.
    pub closed spec fn key(self) -> u64 {
        self.key
    }
}

/// The links of a node to its parent, its siblings and its children.
#[derive(Copy, Clone, Debug, PartialEq, Eq, Structural)]
pub struct Links {
    pub parent: Option<NodeId>,
    pub previous_sibling: Option<NodeId>,
    pub next_sibling: Option<NodeId>,
    pub first_child: Option<NodeId>,
    pub last_child: Option<NodeId>,
}

impl Links {
    /// The links of a node alone: no parent, no siblings, no children.
    pub fn root() -> (l: Links)
        ensures
            l.parent is None,
            l.previous_sibling is None,
            l.next_sibling is None,
            l.first_child is None,
            l.last_child is None,
    {
        Links {
            parent: None,
            previous_sibling: None,
            next_sibling: None,
            first_child: None,
            last_child: None,
        }
    }
}

/// A node within the visual tree.
#[derive(Copy, Clone, Debug, PartialEq, Eq, Structural)]
pub struct Node {
    pub links: Links,
    /// The type of the node's visual, if it has one.
    pub visual: Option<u64>,
    /// Key associated to the node.
    pub key: Option<u64>,
}

/// `n` with its links replaced.
pub open spec fn with_links(n: Node, links: Links) -> Node {
    Node { links, visual: n.visual, key: n.key }
}

/// Every node of `inner` is in `outer`, with the same visual and key.
pub open spec fn same_payload(outer: Map<u64, Node>, inner: Map<u64, Node>) -> bool {
    forall|n: u64| #[trigger]
        inner.contains_key(n) ==> outer.contains_key(n) && inner[n].visual == outer[n].visual
            && inner[n].key == outer[n].key
}

/// Replaces the links of the node stored under `key`, keeping its visual and
/// its key.
fn set_links(m: &mut NodeSlots, key: u64, links: Links)
    requires
        is_canonical(key),
        node_slots(*old(m)).contains_key(key),
    ensures
        node_slots(*final(m)) == node_slots(*old(m)).insert(
            key,
            with_links(node_slots(*old(m))[key], links),
        ),
        node_slot_count(*final(m)) == node_slot_count(*old(m)),
{
    let mut n = *slots_get(m, key).unwrap();
    n.links = links;
    slots_set(m, key, n);
}

impl Node {
    /// The type of the node's visual, if it has one.
    pub fn visual(&self) -> (r: Option<u64>)
        ensures
            r == self.visual,
    {
        self.visual
    }

    /// The key of the node, if it has one.
    pub fn key(&self) -> (r: Option<u64>)
        ensures
            r == self.key,
    {
        self.key
    }

    pub fn parent(&self) -> (r: Option<NodeId>)
        ensures
            r == self.links.parent,
    {
        self.links.parent
    }

    pub fn previous_sibling(&self) -> (r: Option<NodeId>)
        ensures
            r == self.links.previous_sibling,
    {
        self.links.previous_sibling
    }

    pub fn next_sibling(&self) -> (r: Option<NodeId>)
        ensures
            r == self.links.next_sibling,
    {
        self.links.next_sibling
    }

    pub fn first_child(&self) -> (r: Option<NodeId>)
        ensures
            r == self.links.first_child,
    {
        self.links.first_child
    }

    pub fn last_child(&self) -> (r: Option<NodeId>)
        ensures
            r == self.links.last_child,
    {
        self.links.last_child
    }
}

/// A position between nodes in the node tree.
#[derive(Copy, Clone, Debug, PartialEq, Eq, Structural, Hash)]
pub enum NodeCursor {
    /// Points before the specified node.
    Before(NodeId),
    /// Points at the children of the specified node: the nodes to the right
    /// of it start at the first child, and a node inserted there becomes the
    /// last child.
    BeforeChild(NodeId),
    /// Points after the specified node.
    After(NodeId),
}

/// The ghost shape of a tree: ordered sibling lists, named by integers.
///
/// Every node sits at position `pos[n]` of the list `list_of[n]`; its own
/// children form the list `kids[n]`. A list's `owner` is the parent that its
/// members point to: the node whose children they are, or `None` for a chain
/// of nodes without parent. A removed node's children keep a list whose
/// owner is no longer in the tree, as their parent links do.
pub struct Forest {
    pub lists: Map<int, Seq<u64>>,
    pub owner: Map<int, Option<u64>>,
    pub list_of: Map<u64, int>,
    pub pos: Map<u64, int>,
    pub kids: Map<u64, int>,
    pub next_list: int,
}

impl Forest {
    /// The sibling list that holds `n`.
    pub open spec fn siblings(self, n: u64) -> Seq<u64> {
        self.lists[self.list_of[n]]
    }

    /// The children of `n`, in order.
    pub open spec fn children(self, n: u64) -> Seq<u64> {
        self.lists[self.kids[n]]
    }

    /// The parent that the members of the list holding `n` point to.
    pub open spec fn parent(self, n: u64) -> Option<u64> {
        self.owner[self.list_of[n]]
    }

    /// `n` is in the tree at a consistent place.
    pub open spec fn placed(self, nodes: Set<u64>, n: u64) -> bool {
        &&& self.list_of.contains_key(n)
        &&& self.pos.contains_key(n)
        &&& self.kids.contains_key(n)
        &&& self.lists.contains_key(self.list_of[n])
        &&& self.lists.contains_key(self.kids[n])
        &&& 0 <= self.pos[n] < self.siblings(n).len()
        &&& self.siblings(n)[self.pos[n]] == n
        &&& self.owner[self.kids[n]] == Some(n)
    }

    /// The `i`-th member of list `l` is a node that knows its place.
    pub open spec fn member(self, nodes: Set<u64>, l: int, i: int) -> bool {
        let m = self.lists[l][i];
        &&& nodes.contains(m)
        &&& self.list_of.contains_key(m)
        &&& self.pos.contains_key(m)
        &&& self.list_of[m] == l
        &&& self.pos[m] == i
    }

    /// The lists describe the nodes `nodes` without contradiction.
    #[verifier::opaque]
    pub open spec fn wf(self, nodes: Set<u64>) -> bool {
        &&& self.next_list >= 0
        &&& forall|n: u64| #[trigger] nodes.contains(n) ==> self.placed(nodes, n)
        &&& forall|l: int, i: int|
            #![trigger self.lists[l][i]]
            self.lists.contains_key(l) && 0 <= i < self.lists[l].len() ==> self.member(nodes, l, i)
        &&& forall|l: int|
            #[trigger] self.lists.contains_key(l) ==> self.owner.contains_key(l) && 0 <= l < self.next_list
    }
}

/// The identifier of the node stored under `key`.
pub closed spec fn node_id(key: u64) -> NodeId {
    NodeId { key }
}

/// The identifier of an optional node.
pub open spec fn opt_id(k: Option<u64>) -> Option<NodeId> {
    match k {
        Some(key) => Some(node_id(key)),
        None => None,
    }
}

/// The links of `n` that the lists of `f` call for.
pub open spec fn derived_links(f: Forest, n: u64) -> Links {
    let s = f.siblings(n);
    let i = f.pos[n];
    let c = f.children(n);
    Links {
        parent: opt_id(f.parent(n)),
        previous_sibling: if i > 0 { Some(node_id(s[i - 1])) } else { None },
        next_sibling: if i + 1 < s.len() { Some(node_id(s[i + 1])) } else { None },
        first_child: if c.len() > 0 { Some(node_id(c[0])) } else { None },
        last_child: if c.len() > 0 { Some(node_id(c[c.len() - 1])) } else { None },
    }
}

/// The links of a node with no parent, no siblings and no children.
pub open spec fn lone_links() -> Links {
    Links {
        parent: None,
        previous_sibling: None,
        next_sibling: None,
        first_child: None,
        last_child: None,
    }
}

/// `n` has the same links in `g` as in `f`.
pub open spec fn same_links(g: Forest, f: Forest, n: u64) -> bool {
    derived_links(g, n) == derived_links(f, n)
}

/// `f` with a new node `key` that has no parent, no siblings and no children.
pub open spec fn created_model(f: Forest, key: u64) -> Forest {
    let c = f.next_list;
    let s = f.next_list + 1;
    Forest {
        lists: f.lists.insert(c, Seq::empty()).insert(s, seq![key]),
        owner: f.owner.insert(c, Some(key)).insert(s, None),
        list_of: f.list_of.insert(key, s),
        pos: f.pos.insert(key, 0),
        kids: f.kids.insert(key, c),
        next_list: f.next_list + 2,
    }
}

/// Adding a node keeps the lists consistent; the new node is alone, and no
/// other node's links change.
pub proof fn lemma_created(f: Forest, nodes: Set<u64>, key: u64)
    requires
        f.wf(nodes),
        !nodes.contains(key),
    ensures
        created_model(f, key).wf(nodes.insert(key)),
        derived_links(created_model(f, key), key) == lone_links(),
        forall|m: u64| #[trigger] nodes.contains(m) ==> same_links(created_model(f, key), f, m),
{
    reveal(Forest::wf);
    let g = created_model(f, key);
    let all = nodes.insert(key);
    assert forall|n: u64| #[trigger] all.contains(n) implies g.placed(all, n) by {
        if n != key {
            assert(f.placed(nodes, n));
        }
    }
    assert forall|l: int, i: int|
        #![trigger g.lists[l][i]]
        g.lists.contains_key(l) && 0 <= i < g.lists[l].len() implies g.member(all, l, i) by {
        if l != f.next_list && l != f.next_list + 1 {
            assert(f.member(nodes, l, i));
        }
    }
    assert forall|l: int| #[trigger] g.lists.contains_key(l) implies g.owner.contains_key(l) && 0 <= l
        < g.next_list by {
        if l != f.next_list && l != f.next_list + 1 {
            assert(f.lists.contains_key(l));
        }
    }
    assert forall|m: u64| #[trigger] nodes.contains(m) implies same_links(g, f, m) by {
        assert(f.placed(nodes, m));
    }
}

/// Links `m` with its next sibling replaced.
pub open spec fn with_next(m: Links, next: Option<NodeId>) -> Links {
    Links {
        parent: m.parent,
        previous_sibling: m.previous_sibling,
        next_sibling: next,
        first_child: m.first_child,
        last_child: m.last_child,
    }
}

/// Links `m` with its previous sibling replaced.
pub open spec fn with_previous(m: Links, previous: Option<NodeId>) -> Links {
    Links {
        parent: m.parent,
        previous_sibling: previous,
        next_sibling: m.next_sibling,
        first_child: m.first_child,
        last_child: m.last_child,
    }
}

/// Links `m` with its first child replaced.
pub open spec fn with_first_child(m: Links, first: Option<NodeId>) -> Links {
    Links {
        parent: m.parent,
        previous_sibling: m.previous_sibling,
        next_sibling: m.next_sibling,
        first_child: first,
        last_child: m.last_child,
    }
}

/// Links `m` with its last child replaced.
pub open spec fn with_last_child(m: Links, last: Option<NodeId>) -> Links {
    Links {
        parent: m.parent,
        previous_sibling: m.previous_sibling,
        next_sibling: m.next_sibling,
        first_child: m.first_child,
        last_child: last,
    }
}

/// Links `m` with its parent and siblings replaced.
pub open spec fn with_place(
    m: Links,
    parent: Option<NodeId>,
    previous: Option<NodeId>,
    next: Option<NodeId>,
) -> Links {
    Links {
        parent: parent,
        previous_sibling: previous,
        next_sibling: next,
        first_child: m.first_child,
        last_child: m.last_child,
    }
}

/// Where taking `n` out of its list or putting a node next to it changes
/// the first or last child of its parent, that parent is in the tree and
/// counts `n` among its children (which fails for the children of a
/// removed node).
pub open spec fn parent_writable(f: Forest, nodes: Set<u64>, n: u64) -> bool {
    match f.parent(n) {
        Some(q) => (f.pos[n] == 0 || f.pos[n] + 1 == f.siblings(n).len()) ==> nodes.contains(q)
            && f.kids[q] == f.list_of[n],
        None => true,
    }
}

/// `f` with `n` taken out of its sibling list; `n` keeps its children and
/// is left alone in a new list without parent.
pub open spec fn detached_model(f: Forest, n: u64) -> Forest {
    let l = f.list_of[n];
    let i = f.pos[n];
    let k = f.next_list;
    Forest {
        lists: f.lists.insert(l, f.lists[l].remove(i)).insert(k, seq![n]),
        owner: f.owner.insert(k, None),
        list_of: f.list_of.insert(n, k),
        pos: Map::new(
            |m: u64| f.pos.contains_key(m),
            |m: u64|
                if m == n {
                    0
                } else if f.list_of[m] == l && f.pos[m] > i {
                    f.pos[m] - 1
                } else {
                    f.pos[m]
                },
        ),
        kids: f.kids,
        next_list: k + 1,
    }
}

/// The links of `m` once `n` is detached, as the links of `n` dictate:
/// `n` loses its parent and siblings, its neighbours are joined, and the
/// parent's first or last child moves past `n`.
pub open spec fn detach_effect(f: Forest, n: u64, m: u64) -> Links {
    let ln = derived_links(f, n);
    let lm = derived_links(f, m);
    let base = if m == n {
        with_place(lm, None, None, None)
    } else {
        lm
    };
    let a = if ln.previous_sibling == Some(node_id(m)) {
        with_next(base, ln.next_sibling)
    } else {
        base
    };
    let b = if ln.next_sibling == Some(node_id(m)) {
        with_previous(a, ln.previous_sibling)
    } else {
        a
    };
    let c = if ln.parent == Some(node_id(m)) && ln.previous_sibling is None {
        with_first_child(b, ln.next_sibling)
    } else {
        b
    };
    if ln.parent == Some(node_id(m)) && ln.next_sibling is None {
        with_last_child(c, ln.previous_sibling)
    } else {
        c
    }
}

/// Detaching keeps the lists consistent, and the links that follow from
/// the new lists are those that `detach_effect` writes.
pub proof fn lemma_detached(f: Forest, nodes: Set<u64>, n: u64)
    requires
        f.wf(nodes),
        nodes.contains(n),
        parent_writable(f, nodes, n),
    ensures
        detached_model(f, n).wf(nodes),
        forall|m: u64| #[trigger]
            nodes.contains(m) ==> derived_links(detached_model(f, n), m) == detach_effect(f, n, m),
{
    reveal(Forest::wf);
    let g = detached_model(f, n);
    let l = f.list_of[n];
    let i = f.pos[n];
    let s = f.lists[l];
    let k = f.next_list;
    assert(f.placed(nodes, n));
    assert forall|m: u64| #[trigger] nodes.contains(m) implies g.placed(nodes, m) by {
        assert(f.placed(nodes, m));
        assert(f.lists.contains_key(f.kids[m]));
        if m != n && f.list_of[m] == l {
            assert(s.remove(i)[g.pos[m]] == m);
        }
    }
    assert forall|ll: int, j: int|
        #![trigger g.lists[ll][j]]
        g.lists.contains_key(ll) && 0 <= j < g.lists[ll].len() implies g.member(nodes, ll, j) by {
        if ll == k {
        } else if ll == l {
            if j < i {
                assert(f.member(nodes, l, j));
            } else {
                assert(f.member(nodes, l, j + 1));
            }
        } else {
            assert(f.member(nodes, ll, j));
        }
    }
    assert forall|ll: int| #[trigger] g.lists.contains_key(ll) implies g.owner.contains_key(ll) && 0
        <= ll < g.next_list by {
        if ll != k {
            assert(f.lists.contains_key(ll));
        }
    }
    assert forall|m: u64| #[trigger] nodes.contains(m) implies derived_links(g, m) == detach_effect(f, n, m) by {
        assert(f.placed(nodes, m));
        assert(f.lists.contains_key(f.kids[m]));
        if m != n && f.list_of[m] == l {
            let j = f.pos[m];
            if j > 0 {
                assert(f.member(nodes, l, j - 1));
            }
            if j + 1 < s.len() {
                assert(f.member(nodes, l, j + 1));
            }
        }
        if f.kids[m] == l {
            assert(f.owner[l] == Some(m));
        }
    }
}

/// `f` with the lone node `n` put at position `j` of list `l`.
pub open spec fn spliced_model(f: Forest, n: u64, l: int, j: int) -> Forest {
    let k = f.list_of[n];
    Forest {
        lists: f.lists.insert(k, Seq::empty()).insert(l, f.lists[l].insert(j, n)),
        owner: f.owner,
        list_of: f.list_of.insert(n, l),
        pos: Map::new(
            |m: u64| f.pos.contains_key(m),
            |m: u64|
                if m == n {
                    j
                } else if f.list_of[m] == l && f.pos[m] >= j {
                    f.pos[m] + 1
                } else {
                    f.pos[m]
                },
        ),
        kids: f.kids,
        next_list: f.next_list,
    }
}

/// The links of `m` once the lone node `n` is put at position `j` of list
/// `l`: `n` takes the list's parent and its new neighbours, the neighbours
/// point at `n`, and the parent's first or last child becomes `n` where `n`
/// ends up first or last.
pub open spec fn splice_effect(f: Forest, n: u64, l: int, j: int, m: u64) -> Links {
    let s = f.lists[l];
    let lm = derived_links(f, m);
    let left = if j > 0 { Some(node_id(s[j - 1])) } else { None };
    let right = if j < s.len() { Some(node_id(s[j])) } else { None };
    let base = if m == n {
        with_place(lm, opt_id(f.owner[l]), left, right)
    } else {
        lm
    };
    let a = if j > 0 && m == s[j - 1] {
        with_next(base, Some(node_id(n)))
    } else {
        base
    };
    let b = if j < s.len() && m == s[j] {
        with_previous(a, Some(node_id(n)))
    } else {
        a
    };
    let c = if f.owner[l] == Some(m) && j == 0 {
        with_first_child(b, Some(node_id(n)))
    } else {
        b
    };
    if f.owner[l] == Some(m) && j == s.len() {
        with_last_child(c, Some(node_id(n)))
    } else {
        c
    }
}

/// Where putting a node at position `j` of list `l` changes the first or
/// last child of the list's parent, that parent is in the tree and the list
/// is its children.
pub open spec fn list_parent_writable(f: Forest, nodes: Set<u64>, l: int, j: int) -> bool {
    match f.owner[l] {
        Some(q) => (j == 0 || j == f.lists[l].len()) ==> nodes.contains(q) && f.kids[q] == l,
        None => true,
    }
}

/// Putting a lone node into a list keeps the lists consistent, and the
/// links that follow from the new lists are those that `splice_effect`
/// writes.
pub proof fn lemma_spliced(f: Forest, nodes: Set<u64>, n: u64, l: int, j: int)
    requires
        f.wf(nodes),
        nodes.contains(n),
        f.siblings(n) == seq![n],
        f.parent(n) is None,
        f.lists.contains_key(l),
        l != f.list_of[n],
        0 <= j <= f.lists[l].len(),
        list_parent_writable(f, nodes, l, j),
    ensures
        spliced_model(f, n, l, j).wf(nodes),
        forall|m: u64| #[trigger]
            nodes.contains(m) ==> derived_links(spliced_model(f, n, l, j), m) == splice_effect(
                f,
                n,
                l,
                j,
                m,
            ),
{
    reveal(Forest::wf);
    let g = spliced_model(f, n, l, j);
    let k = f.list_of[n];
    let s = f.lists[l];
    assert(f.placed(nodes, n));
    assert forall|m: u64| #[trigger] nodes.contains(m) implies g.placed(nodes, m) by {
        assert(f.placed(nodes, m));
        assert(f.lists.contains_key(f.kids[m]));
        if m != n && f.list_of[m] == l {
            assert(s.insert(j, n)[g.pos[m]] == m);
        }
    }
    assert forall|ll: int, i: int|
        #![trigger g.lists[ll][i]]
        g.lists.contains_key(ll) && 0 <= i < g.lists[ll].len() implies g.member(nodes, ll, i) by {
        if ll == l {
            if i < j {
                assert(f.member(nodes, l, i));
            } else if i > j {
                assert(f.member(nodes, l, i - 1));
            }
        } else if ll != k {
            assert(f.member(nodes, ll, i));
        }
    }
    assert forall|ll: int| #[trigger] g.lists.contains_key(ll) implies g.owner.contains_key(ll) && 0
        <= ll < g.next_list by {
        assert(f.lists.contains_key(ll));
    }
    assert forall|m: u64| #[trigger] nodes.contains(m) implies derived_links(g, m) == splice_effect(
        f,
        n,
        l,
        j,
        m,
    ) by {
        assert(f.placed(nodes, m));
        assert(f.lists.contains_key(f.kids[m]));
        if m != n && f.list_of[m] == l {
            let i = f.pos[m];
            if i > 0 {
                assert(f.member(nodes, l, i - 1));
            }
            if i + 1 < s.len() {
                assert(f.member(nodes, l, i + 1));
            }
        }
        if j > 0 {
            assert(f.member(nodes, l, j - 1));
        }
        if j < s.len() {
            assert(f.member(nodes, l, j));
        }
        if f.kids[m] == l {
            assert(f.owner[l] == Some(m));
        }
        if f.kids[m] == k {
            assert(f.owner[k] == Some(m));
        }
    }
}

/// The list and the position in it that a cursor points at.
pub open spec fn cursor_place(f: Forest, at: NodeCursor) -> (int, int) {
    match at {
        NodeCursor::Before(a) => (f.list_of[a.key()], f.pos[a.key()]),
        NodeCursor::After(b) => (f.list_of[b.key()], f.pos[b.key()] + 1),
        NodeCursor::BeforeChild(p) => (f.kids[p.key()], f.lists[f.kids[p.key()]].len() as int),
    }
}

/// The list and the position in it where the nodes "to the right" of a
/// cursor start. Unlike insertion, which appends after the last child, a
/// `BeforeChild` cursor is read from the first child on.
pub open spec fn cursor_start(f: Forest, at: NodeCursor) -> (int, int) {
    match at {
        NodeCursor::BeforeChild(p) => (f.kids[p.key()], 0),
        _ => cursor_place(f, at),
    }
}

/// The node that a cursor is relative to.
pub open spec fn cursor_anchor(at: NodeCursor) -> NodeId {
    match at {
        NodeCursor::Before(a) => a,
        NodeCursor::After(b) => b,
        NodeCursor::BeforeChild(p) => p,
    }
}

/// `f` once `n` is detached and put where `at` points.
pub open spec fn inserted_model(f: Forest, n: u64, at: NodeCursor) -> Forest {
    let d = detached_model(f, n);
    let (l, j) = cursor_place(d, at);
    spliced_model(d, n, l, j)
}

/// `n` can be put where `at` points, once it is detached: the cursor's node
/// is in the tree and is not `n`, and the parent whose first or last child
/// changes is in the tree and holds the list.
pub open spec fn insert_allowed(f: Forest, nodes: Set<u64>, n: u64, at: NodeCursor) -> bool {
    let d = detached_model(f, n);
    let (l, j) = cursor_place(d, at);
    &&& nodes.contains(cursor_anchor(at).key())
    &&& cursor_anchor(at).key() != n
    &&& list_parent_writable(d, nodes, l, j)
}

/// The members of a list next to a position are in the tree, and each list
/// of a node has the node as owner.
proof fn lemma_place(f: Forest, nodes: Set<u64>, at: NodeCursor)
    requires
        f.wf(nodes),
        nodes.contains(cursor_anchor(at).key()),
    ensures
        ({
            let (l, j) = cursor_place(f, at);
            &&& f.lists.contains_key(l)
            &&& 0 <= j <= f.lists[l].len()
            &&& j > 0 ==> nodes.contains(f.lists[l][j - 1])
            &&& j < f.lists[l].len() ==> nodes.contains(f.lists[l][j])
            &&& at matches NodeCursor::BeforeChild(p) ==> f.owner[l] == Some(p.key())
            &&& at matches NodeCursor::Before(a) ==> j < f.lists[l].len() && f.lists[l][j]
                == a.key()
            &&& at matches NodeCursor::After(b) ==> j > 0 && f.lists[l][j - 1] == b.key()
        }),
        ({
            let (l, j) = cursor_start(f, at);
            &&& f.lists.contains_key(l)
            &&& 0 <= j <= f.lists[l].len()
            &&& j < f.lists[l].len() ==> nodes.contains(f.lists[l][j])
        }),
{
    reveal(Forest::wf);
    let (l, j) = cursor_place(f, at);
    assert(f.placed(nodes, cursor_anchor(at).key()));
    if j > 0 && j <= f.lists[l].len() {
        assert(f.member(nodes, l, j - 1));
    }
    if 0 <= j < f.lists[l].len() {
        assert(f.member(nodes, l, j));
    }
    let (l2, j2) = cursor_start(f, at);
    if 0 <= j2 < f.lists[l2].len() {
        assert(f.member(nodes, l2, j2));
    }
}

/// Each node of the tree has its place in the lists.
proof fn lemma_placed(f: Forest, nodes: Set<u64>, n: u64)
    requires
        f.wf(nodes),
        nodes.contains(n),
    ensures
        f.placed(nodes, n),
{
    reveal(Forest::wf);
}

/// `f` once `n` is detached and gone; its children keep their list, which
/// names `n` as their parent still.
pub open spec fn removed_model(f: Forest, n: u64) -> Forest {
    let d = detached_model(f, n);
    Forest {
        lists: d.lists.insert(d.list_of[n], Seq::empty()),
        owner: d.owner,
        list_of: d.list_of,
        pos: d.pos,
        kids: d.kids,
        next_list: d.next_list,
    }
}

/// Dropping a lone node keeps the lists of the others consistent and their
/// links unchanged.
pub proof fn lemma_removed(f: Forest, nodes: Set<u64>, n: u64)
    requires
        f.wf(nodes),
        nodes.contains(n),
        f.siblings(n) == seq![n],
        f.parent(n) is None,
    ensures
        ({
            let g = Forest {
                lists: f.lists.insert(f.list_of[n], Seq::empty()),
                owner: f.owner,
                list_of: f.list_of,
                pos: f.pos,
                kids: f.kids,
                next_list: f.next_list,
            };
            &&& g.wf(nodes.remove(n))
            &&& forall|m: u64| #[trigger]
                nodes.remove(n).contains(m) ==> derived_links(g, m) == derived_links(f, m)
        }),
{
    reveal(Forest::wf);
    let k = f.list_of[n];
    let g = Forest {
        lists: f.lists.insert(k, Seq::empty()),
        owner: f.owner,
        list_of: f.list_of,
        pos: f.pos,
        kids: f.kids,
        next_list: f.next_list,
    };
    let rest = nodes.remove(n);
    assert(f.placed(nodes, n));
    assert forall|m: u64| #[trigger] rest.contains(m) implies g.placed(rest, m) by {
        assert(f.placed(nodes, m));
        assert(f.lists.contains_key(f.kids[m]));
    }
    assert forall|ll: int, i: int|
        #![trigger g.lists[ll][i]]
        g.lists.contains_key(ll) && 0 <= i < g.lists[ll].len() implies g.member(rest, ll, i) by {
        assert(f.member(nodes, ll, i));
    }
    assert forall|ll: int| #[trigger] g.lists.contains_key(ll) implies g.owner.contains_key(ll) && 0
        <= ll < g.next_list by {
        assert(f.lists.contains_key(ll));
    }
    assert forall|m: u64| #[trigger] rest.contains(m) implies derived_links(g, m) == derived_links(f, m) by {
        assert(f.placed(nodes, m));
        assert(f.lists.contains_key(f.kids[m]));
    }
}

/// An identifier is the one of its key.
pub proof fn lemma_id_key(id: NodeId)
    ensures
        node_id(id.key()) == id,
{
}

/// The identifiers of the nodes with keys `s`.
pub open spec fn ids(s: Seq<u64>) -> Seq<NodeId> {
    s.map_values(|k: u64| node_id(k))
}

/// The `i`-th member of a list is in the tree, at position `i` of that list.
proof fn lemma_member(f: Forest, nodes: Set<u64>, l: int, i: int)
    requires
        f.wf(nodes),
        f.lists.contains_key(l),
        0 <= i < f.lists[l].len(),
    ensures
        f.member(nodes, f.list_of[f.lists[l][i]], i),
        f.member(nodes, l, i),
        f.placed(nodes, f.lists[l][i]),
{
    reveal(Forest::wf);
    assert(f.member(nodes, l, i));
    assert(f.placed(nodes, f.lists[l][i]));
}

/// The siblings of a node in the tree are in the tree, and so is its parent
/// where detaching the node changes it.
proof fn lemma_neighbours(f: Forest, nodes: Set<u64>, n: u64)
    requires
        f.wf(nodes),
        nodes.contains(n),
        parent_writable(f, nodes, n),
    ensures
        ({
            let ln = derived_links(f, n);
            &&& ln.previous_sibling matches Some(p) ==> nodes.contains(p.key)
            &&& ln.next_sibling matches Some(x) ==> nodes.contains(x.key)
            &&& ln.parent matches Some(q) ==> (ln.previous_sibling is None
                || ln.next_sibling is None) ==> nodes.contains(q.key)
        }),
{
    reveal(Forest::wf);
    let l = f.list_of[n];
    let i = f.pos[n];
    let s = f.lists[l];
    assert(f.placed(nodes, n));
    if i > 0 {
        assert(f.member(nodes, l, i - 1));
    }
    if i + 1 < s.len() {
        assert(f.member(nodes, l, i + 1));
    }
}

/// Inserting puts the node where the cursor points: before `a` it becomes
/// the previous sibling of `a` and shares its parent, after `b` it becomes
/// the next sibling of `b` and shares its parent, and under `p` it becomes
/// the last child of `p`, after the children that `p` had. The lists stay
/// consistent, and every other node keeps its list and its order in it: the
/// node leaves its old list, whose other members close up, and joins the
/// list at the cursor.
pub proof fn law_insert_places_node(f: Forest, nodes: Set<u64>, n: u64, at: NodeCursor)
    requires
        f.wf(nodes),
        nodes.contains(n),
        parent_writable(f, nodes, n),
        insert_allowed(f, nodes, n, at),
    ensures
        ({
            let g = inserted_model(f, n, at);
            let d = detached_model(f, n);
            &&& g.wf(nodes)
            &&& match at {
                NodeCursor::Before(a) => {
                    &&& derived_links(g, n).next_sibling == Some(a)
                    &&& derived_links(g, a.key()).previous_sibling == Some(node_id(n))
                    &&& derived_links(g, n).parent == derived_links(f, a.key()).parent
                },
                NodeCursor::After(b) => {
                    &&& derived_links(g, n).previous_sibling == Some(b)
                    &&& derived_links(g, b.key()).next_sibling == Some(node_id(n))
                    &&& derived_links(g, n).parent == derived_links(f, b.key()).parent
                },
                NodeCursor::BeforeChild(p) => {
                    &&& derived_links(g, n).parent == Some(p)
                    &&& derived_links(g, n).next_sibling is None
                    &&& derived_links(g, p.key()).last_child == Some(node_id(n))
                    &&& g.children(p.key()) == d.children(p.key()).push(n)
                },
            }
            &&& forall|m: u64| #[trigger]
                nodes.contains(m) && m != n ==> d.list_of[m] == f.list_of[m] && d.siblings(m) == (
                if f.list_of[m] == f.list_of[n] {
                    f.siblings(n).remove(f.pos[n])
                } else {
                    f.siblings(m)
                })
            &&& forall|m: u64| #[trigger]
                nodes.contains(m) && m != n ==> g.siblings(m) == (if d.list_of[m]
                    == cursor_place(d, at).0 {
                    d.lists[cursor_place(d, at).0].insert(cursor_place(d, at).1, n)
                } else {
                    d.siblings(m)
                })
        }),
{
    let d = detached_model(f, n);
    let (l, j) = cursor_place(d, at);
    assert forall|m: u64| #[trigger] nodes.contains(m) implies f.lists.contains_key(f.list_of[m])
        && f.list_of[m] < f.next_list by {
        reveal(Forest::wf);
        assert(f.placed(nodes, m));
    }
    lemma_detached(f, nodes, n);
    lemma_placed(d, nodes, n);
    lemma_place(d, nodes, at);
    lemma_spliced(d, nodes, n, l, j);
    lemma_id_key(cursor_anchor(at));
    let g = inserted_model(f, n, at);
    if let NodeCursor::BeforeChild(p) = at {
        lemma_placed(d, nodes, p.key());
        assert(g.children(p.key()) =~= d.children(p.key()).push(n));
    }
}

/// Detaching takes the node out of its parent's children and out of its
/// sibling chain, joining the siblings on either side; the node keeps its
/// own children. (A node that was inserted among its own children is its
/// own parent, and loses itself as a child.)
pub proof fn law_detach_unlinks(f: Forest, nodes: Set<u64>, n: u64)
    requires
        f.wf(nodes),
        nodes.contains(n),
        parent_writable(f, nodes, n),
        f.parent(n) != Some(n),
    ensures
        ({
            let g = detached_model(f, n);
            &&& g.wf(nodes)
            &&& derived_links(g, n) == with_place(derived_links(f, n), None, None, None)
            &&& g.children(n) == f.children(n)
            &&& forall|m: u64|
                #![trigger g.siblings(m)]
                nodes.contains(m) && m != n && f.list_of[m] == f.list_of[n] ==> g.siblings(m)
                    == f.siblings(n).remove(f.pos[n])
            &&& derived_links(f, n).previous_sibling matches Some(p) ==> derived_links(
                g,
                p.key(),
            ).next_sibling == derived_links(f, n).next_sibling
            &&& derived_links(f, n).next_sibling matches Some(x) ==> derived_links(
                g,
                x.key(),
            ).previous_sibling == derived_links(f, n).previous_sibling
        }),
{
    let g = detached_model(f, n);
    lemma_detached(f, nodes, n);
    lemma_neighbours(f, nodes, n);
    lemma_placed(f, nodes, n);
    assert(f.list_of[n] < f.next_list && f.kids[n] < f.next_list) by {
        reveal(Forest::wf);
    }
    let ln = derived_links(f, n);
    if let Some(p) = ln.previous_sibling {
        lemma_id_key(p);
        assert(derived_links(g, p.key()) == detach_effect(f, n, p.key()));
    }
    if let Some(x) = ln.next_sibling {
        lemma_id_key(x);
        assert(derived_links(g, x.key()) == detach_effect(f, n, x.key()));
    }
    assert(derived_links(g, n) == detach_effect(f, n, n));
}

/// Detaching a node that was just inserted undoes the insertion: every
/// node of the tree has the links it had before, the node itself too.
pub proof fn law_insert_then_detach(f: Forest, nodes: Set<u64>, n: u64, at: NodeCursor)
    requires
        f.wf(nodes),
        nodes.contains(n),
        f.siblings(n) == seq![n],
        f.parent(n) is None,
        insert_allowed(f, nodes, n, at),
    ensures
        parent_writable(inserted_model(f, n, at), nodes, n),
        forall|m: u64| #[trigger]
            nodes.contains(m) ==> derived_links(detached_model(inserted_model(f, n, at), n), m)
                == derived_links(f, m),
{
    let d = detached_model(f, n);
    let (l, j) = cursor_place(d, at);
    let g = inserted_model(f, n, at);
    let h = detached_model(g, n);
    lemma_placed(f, nodes, n);
    lemma_detached(f, nodes, n);
    lemma_placed(d, nodes, n);
    lemma_place(d, nodes, at);
    lemma_spliced(d, nodes, n, l, j);
    lemma_placed(g, nodes, n);
    if j > 0 {
        lemma_member(d, nodes, l, j - 1);
    }
    if j < d.lists[l].len() {
        lemma_member(d, nodes, l, j);
    }
    assert(g.siblings(n) =~= d.lists[l].insert(j, n));
    assert(parent_writable(g, nodes, n));
    lemma_detached(g, nodes, n);
    assert forall|m: u64| #[trigger] nodes.contains(m) implies derived_links(h, m) == derived_links(
        f,
        m,
    ) by {
        assert(derived_links(d, m) == detach_effect(f, n, m));
        assert(derived_links(g, m) == splice_effect(d, n, l, j, m));
        assert(derived_links(g, n) == splice_effect(d, n, l, j, n));
        assert(derived_links(h, m) == detach_effect(g, n, m));
        if j > 0 {
            lemma_id_key(node_id(d.lists[l][j - 1]));
        }
        if j < d.lists[l].len() {
            lemma_id_key(node_id(d.lists[l][j]));
        }
    }
}

/// The model of a tree with no node yet.
pub open spec fn empty_forest() -> Forest {
    Forest {
        lists: Map::empty(),
        owner: Map::empty(),
        list_of: Map::empty(),
        pos: Map::empty(),
        kids: Map::empty(),
        next_list: 0,
    }
}

/// Every node that has a parent has it in the tree, among its children:
/// this holds as long as no node that had children was removed.
pub open spec fn parents_hold(f: Forest, nodes: Set<u64>) -> bool {
    forall|n: u64|
        #[trigger] nodes.contains(n) ==> (f.parent(n) matches Some(q) ==> nodes.contains(q)
            && f.kids[q] == f.list_of[n])
}

/// Where every parent is in place, a node can be detached, and detaching it
/// keeps every parent in place.
pub proof fn lemma_parents_kept_by_detach(f: Forest, nodes: Set<u64>, n: u64)
    requires
        f.wf(nodes),
        parents_hold(f, nodes),
        nodes.contains(n),
    ensures
        parent_writable(f, nodes, n),
        parents_hold(detached_model(f, n), nodes),
{
    reveal(Forest::wf);
    let d = detached_model(f, n);
    assert(f.placed(nodes, n));
    assert forall|m: u64| #[trigger] nodes.contains(m) implies (d.parent(m) matches Some(q)
        ==> nodes.contains(q) && d.kids[q] == d.list_of[m]) by {
        assert(f.placed(nodes, m));
    }
}

/// Where every parent is in place, a node can be inserted next to or under
/// any other node of the tree, and inserting it keeps every parent in place.
pub proof fn lemma_insert_allowed(f: Forest, nodes: Set<u64>, n: u64, at: NodeCursor)
    requires
        f.wf(nodes),
        parents_hold(f, nodes),
        nodes.contains(n),
        nodes.contains(cursor_anchor(at).key()),
        cursor_anchor(at).key() != n,
    ensures
        parent_writable(f, nodes, n),
        insert_allowed(f, nodes, n, at),
        parents_hold(inserted_model(f, n, at), nodes),
{
    reveal(Forest::wf);
    let d = detached_model(f, n);
    let a = cursor_anchor(at).key();
    assert(f.placed(nodes, n));
    assert(f.placed(nodes, a));
    lemma_detached(f, nodes, n);
    let (l, j) = cursor_place(d, at);
    assert(list_parent_writable(d, nodes, l, j));
    let g = inserted_model(f, n, at);
    assert forall|m: u64| #[trigger] nodes.contains(m) implies (g.parent(m) matches Some(q)
        ==> nodes.contains(q) && g.kids[q] == g.list_of[m]) by {
        assert(f.placed(nodes, m));
    }
}

/// Adding a node keeps every parent in place.
pub proof fn lemma_parents_kept_by_create(f: Forest, nodes: Set<u64>, n: u64)
    requires
        f.wf(nodes),
        parents_hold(f, nodes),
        !nodes.contains(n),
    ensures
        parents_hold(created_model(f, n), nodes.insert(n)),
{
    reveal(Forest::wf);
    let g = created_model(f, n);
    let all = nodes.insert(n);
    assert forall|m: u64| #[trigger] all.contains(m) implies (g.parent(m) matches Some(q)
        ==> all.contains(q) && g.kids[q] == g.list_of[m]) by {
        if m != n {
            assert(f.placed(nodes, m));
            assert(f.lists.contains_key(f.list_of[m]));
        }
    }
}

/// Removing a node that has no children keeps every parent in place.
pub proof fn lemma_parents_kept_by_remove(f: Forest, nodes: Set<u64>, n: u64)
    requires
        f.wf(nodes),
        parents_hold(f, nodes),
        nodes.contains(n),
        f.children(n).len() == 0,
    ensures
        parents_hold(removed_model(f, n), nodes.remove(n)),
{
    reveal(Forest::wf);
    let g = removed_model(f, n);
    let rest = nodes.remove(n);
    assert(f.placed(nodes, n));
    assert forall|m: u64| #[trigger] rest.contains(m) implies (g.parent(m) matches Some(q)
        ==> rest.contains(q) && g.kids[q] == g.list_of[m]) by {
        assert(f.placed(nodes, m));
        if f.parent(m) == Some(n) {
            assert(f.kids[n] == f.list_of[m]);
            assert(f.member(nodes, f.list_of[m], f.pos[m]));
        }
    }
}

/// Whether the node stored under `n` has a visual of type `visual` and the
/// key `key`.
pub open spec fn node_matches(slots: Map<u64, Node>, n: u64, key: Option<u64>, visual: u64) -> bool {
    slots[n].visual == Some(visual) && slots[n].key == key
}

/// The nodes to the right of a cursor, in order.
pub open spec fn right_of(f: Forest, at: NodeCursor) -> Seq<u64> {
    f.lists[cursor_start(f, at).0].subrange(
        cursor_start(f, at).1,
        f.lists[cursor_start(f, at).0].len() as int,
    )
}

/// The model once the node `n` is moved where a child emitted at `at` goes:
/// before `a` unless it is `a`, first among the children of `p` unless it is
/// already, and after `b`.
pub open spec fn emitted_model(f: Forest, n: u64, at: NodeCursor) -> Forest {
    match at {
        NodeCursor::Before(a) => if a.key() == n {
            f
        } else {
            inserted_model(f, n, at)
        },
        NodeCursor::BeforeChild(p) => if f.children(p.key()).len() == 0 {
            inserted_model(f, n, at)
        } else if f.children(p.key())[0] == n {
            f
        } else {
            inserted_model(f, n, NodeCursor::Before(node_id(f.children(p.key())[0])))
        },
        NodeCursor::After(_) => inserted_model(f, n, at),
    }
}

/// A tree of visual nodes representing the user interface elements shown in
/// a window.
///
/// Contrary to the widget tree, those nodes are retained (as much as
/// possible) across data updates and relayouts.
pub struct NodeTree {
    nodes: NodeSlots,
    root: NodeId,
    forest: Ghost<Forest>,
}

impl NodeTree {
    /// The nodes of the tree, by key.
    pub closed spec fn slots(&self) -> Map<u64, Node> {
        node_slots(self.nodes)
    }

    /// The sibling lists that the links of the nodes follow.
    pub closed spec fn model(&self) -> Forest {
        self.forest@
    }

    /// The root node.
    pub closed spec fn root_id(&self) -> NodeId {
        self.root
    }

    /// The number of nodes that the slot map counts.
    pub closed spec fn count(&self) -> nat {
        node_slot_count(self.nodes)
    }

    /// `id` names a node of the tree.
    pub open spec fn contains(&self, id: NodeId) -> bool {
        self.slots().contains_key(id.key())
    }

    /// The links that the sibling lists give node `id`.
    pub open spec fn links_of(&self, id: NodeId) -> Links {
        derived_links(self.model(), id.key())
    }

    /// The links of every node follow the sibling lists, and the root is in
    /// the tree.
    pub closed spec fn wf(&self) -> bool {
        &&& self.model().wf(self.slots().dom())
        &&& forall|n: u64| #[trigger]
            self.slots().contains_key(n) ==> is_canonical(n) && self.slots()[n].links
                == derived_links(self.model(), n)
    }

    /// Every node that has a parent has it in the tree, among its children.
    pub open spec fn parents_in_place(&self) -> bool {
        parents_hold(self.model(), self.slots().dom())
    }

    /// The sibling lists of a well-formed tree are consistent.
    pub proof fn lemma_model_wf(&self)
        requires
            self.wf(),
        ensures
            self.model().wf(self.slots().dom()),
    {
    }

    /// In a tree whose parents are in place, any node can be detached.
    pub proof fn lemma_can_detach(&self, id: NodeId)
        requires
            self.wf(),
            self.parents_in_place(),
            self.contains(id),
        ensures
            parent_writable(self.model(), self.slots().dom(), id.key()),
    {
        lemma_parents_kept_by_detach(self.model(), self.slots().dom(), id.key());
    }

    /// In a tree whose parents are in place, any node can be inserted next to
    /// or under any other node of the tree.
    pub proof fn lemma_can_insert(&self, id: NodeId, at: NodeCursor)
        requires
            self.wf(),
            self.parents_in_place(),
            self.contains(id),
            self.contains(cursor_anchor(at)),
            cursor_anchor(at) != id,
        ensures
            parent_writable(self.model(), self.slots().dom(), id.key()),
            insert_allowed(self.model(), self.slots().dom(), id.key(), at),
    {
        lemma_id_key(id);
        lemma_id_key(cursor_anchor(at));
        lemma_insert_allowed(self.model(), self.slots().dom(), id.key(), at);
    }

    /// Creates a new node tree containing a single root node.
    pub fn new() -> (t: NodeTree)
        ensures
            t.wf(),
            t.contains(t.root_id()),
            t.slots().dom() == set![t.root_id().key()],
            t.links_of(t.root_id()) == lone_links(),
            t.count() == 1,
            t.model() == created_model(empty_forest(), t.root_id().key()),
            t.parents_in_place(),
            t.slots()[t.root_id().key()].visual is None,
            t.slots()[t.root_id().key()].key is None,
    {
        let mut nodes = slots_new();
        let key = slots_insert(&mut nodes, Node { links: Links::root(), visual: None, key: None });
        let ghost empty = empty_forest();
        proof {
            reveal(Forest::wf);
            lemma_created(empty, Set::empty(), key);
            lemma_parents_kept_by_create(empty, Set::empty(), key);
            assert(node_slots(nodes).dom() =~= set![key]);
        }
        NodeTree { nodes, root: NodeId { key }, forest: Ghost(created_model(empty, key)) }
    }

    /// Returns the ID of the root node.
    pub fn root(&self) -> (r: NodeId)
        ensures
            r == self.root_id(),
    {
        self.root
    }

    /// Returns the node with the given ID, if it is in the tree.
    pub fn get(&self, id: NodeId) -> (r: Option<&Node>)
        requires
            self.wf(),
        ensures
            match r {
                Some(node) => self.contains(id) && node.links == self.links_of(id) && *node
                    == self.slots()[id.key()],
                None => !self.contains(id),
            },
    {
        if id.key | OCCUPIED_BIT != id.key {
            return None;
        }
        slots_get(&self.nodes, id.key)
    }

    /// Returns the node with the given ID, which must be in the tree.
    pub fn get_unchecked(&self, id: NodeId) -> (r: &Node)
        requires
            self.wf(),
            self.contains(id),
        ensures
            r.links == self.links_of(id),
            *r == self.slots()[id.key()],
    {
        slots_get(&self.nodes, id.key).unwrap()
    }

    /// Creates a new, unattached node with the given visual type and key.
    fn create_node(&mut self, visual: Option<u64>, node_key: Option<u64>) -> (id: NodeId)
        requires
            old(self).wf(),
            old(self).count() < 0xffff_fffe,
        ensures
            final(self).wf(),
            !old(self).contains(id),
            final(self).slots().dom() == old(self).slots().dom().insert(id.key()),
            final(self).model() == created_model(old(self).model(), id.key()),
            final(self).root_id() == old(self).root_id(),
            final(self).count() == old(self).count() + 1,
            old(self).parents_in_place() ==> final(self).parents_in_place(),
            final(self).slots()[id.key()].visual == visual,
            final(self).slots()[id.key()].key == node_key,
            same_payload(final(self).slots(), old(self).slots()),
    {
        let key = slots_insert(&mut self.nodes, Node { links: Links::root(), visual, key: node_key });
        proof {
            let f = self.forest@;
            let nodes = node_slots(self.nodes);
            lemma_created(f, old(self).slots().dom(), key);
            if old(self).parents_in_place() {
                lemma_parents_kept_by_create(f, old(self).slots().dom(), key);
            }
            assert(nodes.dom() =~= old(self).slots().dom().insert(key));
            self.forest = Ghost(created_model(f, key));
            assert forall|n: u64| #[trigger] nodes.contains_key(n) implies is_canonical(n)
                && nodes[n].links == derived_links(self.forest@, n) by {
                if n != key {
                    assert(old(self).slots().dom().contains(n));
                }
            }
        }
        NodeId { key }
    }

    /// Creates a new, unattached node whose visual has type `visual`.
    pub fn create(&mut self, visual: u64) -> (id: NodeId)
        requires
            old(self).wf(),
            old(self).count() < 0xffff_fffe,
        ensures
            final(self).wf(),
            !old(self).contains(id),
            final(self).slots().dom() == old(self).slots().dom().insert(id.key()),
            final(self).model() == created_model(old(self).model(), id.key()),
            final(self).root_id() == old(self).root_id(),
            final(self).count() == old(self).count() + 1,
            old(self).parents_in_place() ==> final(self).parents_in_place(),
            final(self).slots()[id.key()].visual == Some(visual),
            final(self).slots()[id.key()].key is None,
            same_payload(final(self).slots(), old(self).slots()),
    {
        self.create_node(Some(visual), None)
    }

    /// Detaches the specified node and its descendants from its parent, but
    /// does not remove the node itself.
    pub fn detach(&mut self, id: NodeId)
        requires
            old(self).wf(),
            old(self).contains(id),
            parent_writable(old(self).model(), old(self).slots().dom(), id.key()),
        ensures
            final(self).wf(),
            final(self).slots().dom() == old(self).slots().dom(),
            final(self).model() == detached_model(old(self).model(), id.key()),
            final(self).root_id() == old(self).root_id(),
            final(self).count() == old(self).count(),
            old(self).parents_in_place() ==> final(self).parents_in_place(),
            same_payload(old(self).slots(), final(self).slots()),
    {
        let ghost f = self.forest@;
        let ghost dom = self.slots().dom();
        let key = id.key;
        proof {
            if parents_hold(f, dom) {
                lemma_parents_kept_by_detach(f, dom, key);
            }
            lemma_detached(f, dom, key);
            lemma_neighbours(f, dom, key);
        }
        let links = slots_get(&self.nodes, key).unwrap().links;
        let prev_id = links.previous_sibling;
        let next_id = links.next_sibling;
        let parent_id = links.parent;
        set_links(
            &mut self.nodes,
            key,
            Links {
                parent: None,
                previous_sibling: None,
                next_sibling: None,
                first_child: links.first_child,
                last_child: links.last_child,
            },
        );
        match prev_id {
            Some(p) => {
                let mut pl = slots_get(&self.nodes, p.key).unwrap().links;
                pl.next_sibling = next_id;
                set_links(&mut self.nodes, p.key, pl);
            },
            None => {
                if let Some(q) = parent_id {
                    let mut ql = slots_get(&self.nodes, q.key).unwrap().links;
                    ql.first_child = next_id;
                    set_links(&mut self.nodes, q.key, ql);
                }
            },
        }
        match next_id {
            Some(x) => {
                let mut xl = slots_get(&self.nodes, x.key).unwrap().links;
                xl.previous_sibling = prev_id;
                set_links(&mut self.nodes, x.key, xl);
            },
            None => {
                if let Some(q) = parent_id {
                    let mut ql = slots_get(&self.nodes, q.key).unwrap().links;
                    ql.last_child = prev_id;
                    set_links(&mut self.nodes, q.key, ql);
                }
            },
        }
        proof {
            let g = detached_model(f, key);
            self.forest = Ghost(g);
            let nodes = node_slots(self.nodes);
            assert(nodes.dom() =~= dom);
            assert forall|m: u64| #[trigger] nodes.contains_key(m) implies is_canonical(m)
                && nodes[m].links == derived_links(g, m) by {
                assert(old(self).slots().contains_key(m));
                assert(dom.contains(m));
            }
        }
    }

    /// Inserts a node at a specified location, after detaching it from where
    /// it was.
    pub fn insert(&mut self, id: NodeId, at: NodeCursor)
        requires
            old(self).wf(),
            old(self).contains(id),
            parent_writable(old(self).model(), old(self).slots().dom(), id.key()),
            insert_allowed(old(self).model(), old(self).slots().dom(), id.key(), at),
        ensures
            final(self).wf(),
            final(self).slots().dom() == old(self).slots().dom(),
            final(self).model() == inserted_model(old(self).model(), id.key(), at),
            final(self).root_id() == old(self).root_id(),
            final(self).count() == old(self).count(),
            old(self).parents_in_place() ==> final(self).parents_in_place(),
            same_payload(old(self).slots(), final(self).slots()),
    {
        proof {
            if old(self).parents_in_place() {
                lemma_id_key(id);
                lemma_id_key(cursor_anchor(at));
                lemma_insert_allowed(old(self).model(), old(self).slots().dom(), id.key, at);
            }
        }
        self.detach(id);
        let ghost f = self.forest@;
        let ghost dom = self.slots().dom();
        let ghost place = cursor_place(f, at);
        let key = id.key;
        proof {
            lemma_placed(f, dom, key);
            lemma_place(f, dom, at);
            lemma_spliced(f, dom, key, place.0, place.1);
        }
        match at {
            NodeCursor::Before(after_id) => {
                let al = slots_get(&self.nodes, after_id.key).unwrap().links;
                let prev_id = al.previous_sibling;
                let parent_id = al.parent;
                let mut tl = slots_get(&self.nodes, key).unwrap().links;
                tl.next_sibling = Some(after_id);
                tl.previous_sibling = prev_id;
                tl.parent = parent_id;
                set_links(&mut self.nodes, key, tl);
                let mut al2 = slots_get(&self.nodes, after_id.key).unwrap().links;
                al2.previous_sibling = Some(id);
                set_links(&mut self.nodes, after_id.key, al2);
                match prev_id {
                    Some(p) => {
                        let mut pl = slots_get(&self.nodes, p.key).unwrap().links;
                        pl.next_sibling = Some(id);
                        set_links(&mut self.nodes, p.key, pl);
                    },
                    None => {
                        if let Some(q) = parent_id {
                            let mut ql = slots_get(&self.nodes, q.key).unwrap().links;
                            ql.first_child = Some(id);
                            set_links(&mut self.nodes, q.key, ql);
                        }
                    },
                }
            },
            NodeCursor::After(before_id) => {
                let bl = slots_get(&self.nodes, before_id.key).unwrap().links;
                let next_id = bl.next_sibling;
                let parent_id = bl.parent;
                let mut tl = slots_get(&self.nodes, key).unwrap().links;
                tl.previous_sibling = Some(before_id);
                tl.next_sibling = next_id;
                tl.parent = parent_id;
                set_links(&mut self.nodes, key, tl);
                let mut bl2 = slots_get(&self.nodes, before_id.key).unwrap().links;
                bl2.next_sibling = Some(id);
                set_links(&mut self.nodes, before_id.key, bl2);
                match next_id {
                    Some(x) => {
                        let mut xl = slots_get(&self.nodes, x.key).unwrap().links;
                        xl.previous_sibling = Some(id);
                        set_links(&mut self.nodes, x.key, xl);
                    },
                    None => {
                        if let Some(q) = parent_id {
                            let mut ql = slots_get(&self.nodes, q.key).unwrap().links;
                            ql.last_child = Some(id);
                            set_links(&mut self.nodes, q.key, ql);
                        }
                    },
                }
            },
            NodeCursor::BeforeChild(parent_id) => {
                let last_child = slots_get(&self.nodes, parent_id.key).unwrap().links.last_child;
                let mut tl = slots_get(&self.nodes, key).unwrap().links;
                tl.parent = Some(parent_id);
                tl.previous_sibling = last_child;
                set_links(&mut self.nodes, key, tl);
                let mut pl = slots_get(&self.nodes, parent_id.key).unwrap().links;
                pl.last_child = Some(id);
                match last_child {
                    Some(c) => {
                        set_links(&mut self.nodes, parent_id.key, pl);
                        let mut cl = slots_get(&self.nodes, c.key).unwrap().links;
                        cl.next_sibling = Some(id);
                        set_links(&mut self.nodes, c.key, cl);
                    },
                    None => {
                        pl.first_child = Some(id);
                        set_links(&mut self.nodes, parent_id.key, pl);
                    },
                }
            },
        }
        proof {
            let g = spliced_model(f, key, place.0, place.1);
            self.forest = Ghost(g);
            let nodes = node_slots(self.nodes);
            assert(nodes.dom() =~= dom);
            assert forall|m: u64| #[trigger] nodes.contains_key(m) implies is_canonical(m)
                && nodes[m].links == derived_links(g, m) by {
                assert(dom.contains(m));
            }
        }
    }

    /// Detaches the node and takes it out of the tree. Its children stay in
    /// the tree, pointing to it as their parent.
    pub fn remove(&mut self, id: NodeId)
        requires
            old(self).wf(),
            old(self).contains(id),
            parent_writable(old(self).model(), old(self).slots().dom(), id.key()),
        ensures
            final(self).wf(),
            final(self).slots().dom() == old(self).slots().dom().remove(id.key()),
            final(self).model() == removed_model(old(self).model(), id.key()),
            final(self).root_id() == old(self).root_id(),
            final(self).count() + 1 == old(self).count(),
            same_payload(old(self).slots(), final(self).slots()),
            old(self).parents_in_place() && old(self).model().children(id.key()).len() == 0
                ==> final(self).parents_in_place(),
    {
        proof {
            if old(self).parents_in_place() && old(self).model().children(id.key).len() == 0 {
                lemma_parents_kept_by_remove(old(self).model(), old(self).slots().dom(), id.key);
            }
        }
        self.detach(id);
        let ghost f = self.forest@;
        let ghost dom = self.slots().dom();
        proof {
            lemma_removed(f, dom, id.key);
        }
        let _ = slots_remove(&mut self.nodes, id.key);
        proof {
            let g = removed_model(old(self).model(), id.key);
            self.forest = Ghost(g);
            let nodes = node_slots(self.nodes);
            assert(nodes.dom() =~= dom.remove(id.key));
            assert forall|m: u64| #[trigger] nodes.contains_key(m) implies is_canonical(m)
                && nodes[m].links == derived_links(g, m) by {
                assert(dom.remove(id.key).contains(m));
            }
        }
    }

    /// The nodes of list `l` from position `i` on, starting from the node
    /// `first` at that position and following the next-sibling links.
    fn collect_from(&self, first: Option<NodeId>, Ghost(l): Ghost<int>, Ghost(i): Ghost<int>) -> (r:
        Vec<NodeId>)
        requires
            self.wf(),
            self.model().lists.contains_key(l),
            0 <= i <= self.model().lists[l].len(),
            first == (if i < self.model().lists[l].len() {
                Some(node_id(self.model().lists[l][i]))
            } else {
                None
            }),
        ensures
            r@ == ids(self.model().lists[l].subrange(i, self.model().lists[l].len() as int)),
    {
        let ghost f = self.model();
        let ghost s = f.lists[l];
        let mut r: Vec<NodeId> = Vec::new();
        let mut current = first;
        let ghost mut j: int = i;
        while current.is_some()
            invariant
                self.wf(),
                f == self.model(),
                s == f.lists[l],
                f.lists.contains_key(l),
                0 <= i <= j <= s.len(),
                current == (if j < s.len() {
                    Some(node_id(s[j]))
                } else {
                    None
                }),
                r@ == ids(s.subrange(i, j)),
            decreases s.len() - j,
        {
            let c = current.unwrap();
            proof {
                assert(j < s.len());
                lemma_member(f, self.slots().dom(), l, j);
                assert(ids(s.subrange(i, j + 1)) =~= ids(s.subrange(i, j)).push(node_id(s[j])));
            }
            r.push(c);
            current = slots_get(&self.nodes, c.key).unwrap().links.next_sibling;
            proof {
                j = j + 1;
            }
        }
        r
    }

    /// Returns the children of the specified node, in order.
    pub fn children(&self, id: NodeId) -> (r: Vec<NodeId>)
        requires
            self.wf(),
            self.contains(id),
        ensures
            r@ == ids(self.model().children(id.key())),
    {
        proof {
            lemma_placed(self.model(), self.slots().dom(), id.key);
        }
        let first = slots_get(&self.nodes, id.key).unwrap().links.first_child;
        let ghost c = self.model().children(id.key);
        let r = self.collect_from(first, Ghost(self.model().kids[id.key]), Ghost(0));
        proof {
            assert(c.subrange(0, c.len() as int) =~= c);
        }
        r
    }

    /// Returns the nodes "to the right" of the specified cursor, in order.
    pub fn cursor_iter(&self, cursor: NodeCursor) -> (r: Vec<NodeId>)
        requires
            self.wf(),
            self.contains(cursor_anchor(cursor)),
        ensures
            ({
                let (l, j) = cursor_start(self.model(), cursor);
                r@ == ids(self.model().lists[l].subrange(j, self.model().lists[l].len() as int))
            }),
    {
        let ghost f = self.model();
        let ghost place = cursor_start(f, cursor);
        proof {
            lemma_place(f, self.slots().dom(), cursor);
            lemma_placed(f, self.slots().dom(), cursor_anchor(cursor).key());
            lemma_id_key(cursor_anchor(cursor));
        }
        let first = match cursor {
            NodeCursor::Before(sibling) => {
                let _ = slots_get(&self.nodes, sibling.key).unwrap();
                Some(sibling)
            },
            NodeCursor::BeforeChild(parent) => slots_get(
                &self.nodes,
                parent.key,
            ).unwrap().links.first_child,
            NodeCursor::After(sibling) => slots_get(
                &self.nodes,
                sibling.key,
            ).unwrap().links.next_sibling,
        };
        self.collect_from(first, Ghost(place.0), Ghost(place.1))
    }

    /// Returns the ID of the node just after the cursor, if there is one.
    pub fn node_after(&self, cursor: NodeCursor) -> (r: Option<NodeId>)
        requires
            self.wf(),
            self.contains(cursor_anchor(cursor)),
        ensures
            ({
                let (l, j) = cursor_start(self.model(), cursor);
                r == (if j < self.model().lists[l].len() {
                    Some(node_id(self.model().lists[l][j]))
                } else {
                    None
                })
            }),
    {
        proof {
            lemma_place(self.model(), self.slots().dom(), cursor);
            lemma_placed(self.model(), self.slots().dom(), cursor_anchor(cursor).key());
            lemma_id_key(cursor_anchor(cursor));
        }
        match cursor {
            NodeCursor::Before(sibling) => {
                let _ = slots_get(&self.nodes, sibling.key).unwrap();
                Some(sibling)
            },
            NodeCursor::BeforeChild(parent) => slots_get(
                &self.nodes,
                parent.key,
            ).unwrap().links.first_child,
            NodeCursor::After(sibling) => slots_get(
                &self.nodes,
                sibling.key,
            ).unwrap().links.next_sibling,
        }
    }

    /// Returns the following siblings of the specified node, in order.
    pub fn following_siblings(&self, id: NodeId) -> (r: Vec<NodeId>)
        requires
            self.wf(),
            self.contains(id),
        ensures
            r@ == ids(
                self.model().siblings(id.key()).subrange(
                    self.model().pos[id.key()] + 1,
                    self.model().siblings(id.key()).len() as int,
                ),
            ),
    {
        proof {
            lemma_placed(self.model(), self.slots().dom(), id.key);
        }
        let next = slots_get(&self.nodes, id.key).unwrap().links.next_sibling;
        self.collect_from(
            next,
            Ghost(self.model().list_of[id.key]),
            Ghost(self.model().pos[id.key] + 1),
        )
    }

    /// The position in `candidates` of the first node with a visual of type
    /// `visual` and the key `key`, if there is one.
    fn first_match(&self, candidates: &Vec<NodeId>, key: Option<u64>, visual: u64) -> (r: Option<
        usize,
    >)
        requires
            self.wf(),
            forall|i: int| 0 <= i < candidates@.len() ==> self.contains(#[trigger] candidates@[i]),
        ensures
            match r {
                Some(i) => i < candidates@.len() && node_matches(
                    self.slots(),
                    candidates@[i as int].key(),
                    key,
                    visual,
                ) && forall|k: int|
                    0 <= k < i ==> !node_matches(
                        self.slots(),
                        #[trigger] candidates@[k].key(),
                        key,
                        visual,
                    ),
                None => forall|k: int|
                    0 <= k < candidates@.len() ==> !node_matches(
                        self.slots(),
                        #[trigger] candidates@[k].key(),
                        key,
                        visual,
                    ),
            },
    {
        let mut i: usize = 0;
        while i < candidates.len()
            invariant
                self.wf(),
                i <= candidates@.len(),
                forall|k: int| 0 <= k < candidates@.len() ==> self.contains(#[trigger] candidates@[k]),
                forall|k: int|
                    0 <= k < i ==> !node_matches(
                        self.slots(),
                        #[trigger] candidates@[k].key(),
                        key,
                        visual,
                    ),
            decreases candidates@.len() - i,
        {
            let node = self.get_unchecked(candidates[i]);
            let same_visual = match node.visual {
                Some(v) => v == visual,
                None => false,
            };
            let same_key = match (node.key, key) {
                (Some(a), Some(b)) => a == b,
                (None, None) => true,
                _ => false,
            };
            if same_visual && same_key {
                return Some(i);
            }
            i = i + 1;
        }
        None
    }

    /// Emits a child at `cursor` during layout: reuses the first node to the
    /// right of the cursor whose visual has type `visual` and whose key is
    /// `key`, or else creates such a node, and moves it where the cursor
    /// points. Returns the node, the cursor for the next child (after the
    /// node, except that a `Before` cursor stays), and whether the node was
    /// reused.
    pub fn reconcile_child(&mut self, cursor: NodeCursor, key: Option<u64>, visual: u64) -> (r: (
        NodeId,
        NodeCursor,
        bool,
    ))
        requires
            old(self).wf(),
            old(self).parents_in_place(),
            old(self).contains(cursor_anchor(cursor)),
            old(self).count() < 0xffff_fffe,
        ensures
            final(self).wf(),
            final(self).parents_in_place(),
            final(self).root_id() == old(self).root_id(),
            final(self).count() == old(self).count() + if r.2 {
                0nat
            } else {
                1nat
            },
            final(self).contains(r.0),
            final(self).slots().dom() == old(self).slots().dom().insert(r.0.key()),
            same_payload(final(self).slots(), old(self).slots()),
            final(self).slots()[r.0.key()].visual == Some(visual),
            final(self).slots()[r.0.key()].key == key,
            r.2 ==> exists|i: int|
                0 <= i < right_of(old(self).model(), cursor).len() && #[trigger] right_of(
                    old(self).model(),
                    cursor,
                )[i] == r.0.key() && forall|k: int|
                    0 <= k < i ==> !node_matches(
                        old(self).slots(),
                        #[trigger] right_of(old(self).model(), cursor)[k],
                        key,
                        visual,
                    ),
            !r.2 ==> !old(self).contains(r.0) && forall|k: int|
                0 <= k < right_of(old(self).model(), cursor).len() ==> !node_matches(
                    old(self).slots(),
                    #[trigger] right_of(old(self).model(), cursor)[k],
                    key,
                    visual,
                ),
            final(self).model() == emitted_model(
                if r.2 {
                    old(self).model()
                } else {
                    created_model(old(self).model(), r.0.key())
                },
                r.0.key(),
                cursor,
            ),
            r.1 == (match cursor {
                NodeCursor::Before(_) => cursor,
                _ => NodeCursor::After(r.0),
            }),
    {
        let ghost f = self.model();
        let ghost s = right_of(f, cursor);
        let candidates = self.cursor_iter(cursor);
        proof {
            lemma_place(f, self.slots().dom(), cursor);
            let (l, j) = cursor_start(f, cursor);
            assert forall|i: int| 0 <= i < candidates@.len() implies self.contains(
                #[trigger] candidates@[i],
            ) && candidates@[i].key() == s[i] by {
                lemma_member(f, self.slots().dom(), l, j + i);
            }
        }
        let found = self.first_match(&candidates, key, visual);
        proof {
            match found {
                Some(i) => {
                    assert forall|k: int| 0 <= k < i implies !node_matches(
                        old(self).slots(),
                        #[trigger] s[k],
                        key,
                        visual,
                    ) by {
                        assert(candidates@[k].key() == s[k]);
                    }
                },
                None => {
                    assert forall|k: int| 0 <= k < s.len() implies !node_matches(
                        old(self).slots(),
                        #[trigger] s[k],
                        key,
                        visual,
                    ) by {
                        assert(candidates@[k].key() == s[k]);
                    }
                },
            }
        }
        let (id, reused) = match found {
            Some(i) => (candidates[i], true),
            None => (self.create_node(Some(visual), key), false),
        };
        proof {
            lemma_id_key(id);
            lemma_id_key(cursor_anchor(cursor));
            if reused {
                assert(s[found.unwrap() as int] == id.key());
            }
        }
        let ghost m1 = self.model();
        match cursor {
            NodeCursor::Before(after) => {
                if id != after {
                    proof {
                        self.lemma_can_insert(id, cursor);
                    }
                    self.insert(id, cursor);
                }
                (id, cursor, reused)
            },
            NodeCursor::BeforeChild(parent) => {
                proof {
                    lemma_placed(m1, self.slots().dom(), parent.key());
                }
                let first = self.get_unchecked(parent).first_child();
                match first {
                    Some(first_id) => {
                        proof {
                            lemma_id_key(first_id);
                            lemma_member(m1, self.slots().dom(), m1.kids[parent.key()], 0);
                        }
                        if first_id != id {
                            proof {
                                self.lemma_can_insert(id, NodeCursor::Before(first_id));
                            }
                            self.insert(id, NodeCursor::Before(first_id));
                        }
                    },
                    None => {
                        proof {
                            self.lemma_can_insert(id, cursor);
                        }
                        self.insert(id, cursor);
                    },
                }
                (id, NodeCursor::After(id), reused)
            },
            NodeCursor::After(before) => {
                proof {
                    if reused {
                        let (l, j) = cursor_start(f, cursor);
                        lemma_placed(f, old(self).slots().dom(), before.key());
                        lemma_member(f, old(self).slots().dom(), l, j + found.unwrap());
                    }
                    self.lemma_can_insert(id, cursor);
                }
                self.insert(id, cursor);
                (id, NodeCursor::After(id), reused)
            },
        }
    }

    /// Creates a new, unattached node if the slot map has room for it, and
    /// returns `None` otherwise, leaving the tree as it was.
    pub fn try_create(&mut self, visual: u64) -> (r: Option<NodeId>)
        requires
            old(self).wf(),
        ensures
            final(self).wf(),
            match r {
                Some(id) => old(self).count() < 0xffff_fffe && !old(self).contains(id)
                    && final(self).slots().dom() == old(self).slots().dom().insert(id.key())
                    && final(self).model() == created_model(old(self).model(), id.key())
                    && final(self).root_id() == old(self).root_id()
                    && final(self).slots()[id.key()].visual == Some(visual)
                    && final(self).slots()[id.key()].key is None
                    && same_payload(final(self).slots(), old(self).slots()),
                None => old(self).count() >= 0xffff_fffe && *final(self) == *old(self),
            },
    {
        if slots_len(&self.nodes) < 0xffff_fffe {
            Some(self.create(visual))
        } else {
            None
        }
    }
}

} // verus!

use kyute::node::event::{dispatch_step, merge_repaint, FocusChange, FocusEventKind, RepaintRequest};
use kyute::node::{NodeCursor, NodeId, NodeTree};

#[test]
fn test_insertion() {
    let mut node_tree = NodeTree::new();
    let root = node_tree.root();
    {
        let root_node = node_tree.get(root).unwrap();
        assert_eq!(root_node.first_child(), None);
        assert_eq!(root_node.last_child(), None);
        assert_eq!(root_node.previous_sibling(), None);
        assert_eq!(root_node.next_sibling(), None);
        assert_eq!(root_node.parent(), None);
    }

    // insert child: R(A)
    let a = node_tree.create(0);
    node_tree.insert(a, NodeCursor::BeforeChild(root));
    {
        let a_node = node_tree.get(a).unwrap();
        let root_node = node_tree.get(root).unwrap();
        assert_eq!(a_node.parent(), Some(root));
        assert_eq!(a_node.previous_sibling(), None);
        assert_eq!(a_node.next_sibling(), None);
        assert_eq!(root_node.first_child(), Some(a));
        assert_eq!(root_node.last_child(), Some(a));
    }

    // insert child: R(A,B)
    let b = node_tree.create(0);
    node_tree.insert(b, NodeCursor::BeforeChild(root));
    {
        let a_node = node_tree.get(a).unwrap();
        let b_node = node_tree.get(b).unwrap();
        let root_node = node_tree.get(root).unwrap();

        assert_eq!(b_node.parent(), Some(root));
        assert_eq!(a_node.previous_sibling(), None);
        assert_eq!(a_node.next_sibling(), Some(b));
        assert_eq!(b_node.previous_sibling(), Some(a));
        assert_eq!(b_node.next_sibling(), None);
        assert_eq!(root_node.first_child(), Some(a));
        assert_eq!(root_node.last_child(), Some(b));
    }

    // insert before (begin): R(C,A,B)
    let c = node_tree.create(0);
    node_tree.insert(c, NodeCursor::Before(a));
    {
        let a_node = node_tree.get(a).unwrap();
        let c_node = node_tree.get(c).unwrap();
        let root_node = node_tree.get(root).unwrap();

        assert_eq!(c_node.parent(), Some(root));
        assert_eq!(a_node.previous_sibling(), Some(c));
        assert_eq!(a_node.next_sibling(), Some(b));
        assert_eq!(c_node.previous_sibling(), None);
        assert_eq!(c_node.next_sibling(), Some(a));
        assert_eq!(root_node.first_child(), Some(c));
        assert_eq!(root_node.last_child(), Some(b));
    }

    // insert before (end): R(C,A,D,B)
    let d = node_tree.create(0);
    node_tree.insert(d, NodeCursor::Before(b));
    {
        let a_node = node_tree.get(a).unwrap();
        let d_node = node_tree.get(d).unwrap();
        let b_node = node_tree.get(b).unwrap();
        assert_eq!(d_node.parent(), Some(root));
        assert_eq!(a_node.next_sibling(), Some(d));
        assert_eq!(d_node.previous_sibling(), Some(a));
        assert_eq!(d_node.next_sibling(), Some(b));
        assert_eq!(b_node.previous_sibling(), Some(d));
    }

    // insert before (middle): R(C,A,E,D,B)
    let e = node_tree.create(0);
    node_tree.insert(e, NodeCursor::Before(d));
    {
        let a_node = node_tree.get(a).unwrap();
        let e_node = node_tree.get(e).unwrap();
        let d_node = node_tree.get(d).unwrap();
        assert_eq!(e_node.parent(), Some(root));
        assert_eq!(a_node.next_sibling(), Some(e));
        assert_eq!(e_node.previous_sibling(), Some(a));
        assert_eq!(e_node.next_sibling(), Some(d));
        assert_eq!(d_node.previous_sibling(), Some(e));
    }

    // insert after (middle): R(C,A,E,F,D,B)
    let f = node_tree.create(0);
    node_tree.insert(f, NodeCursor::After(e));
    {
        let e_node = node_tree.get(e).unwrap();
        let f_node = node_tree.get(f).unwrap();
        let d_node = node_tree.get(d).unwrap();
        assert_eq!(f_node.parent(), Some(root));
        assert_eq!(e_node.next_sibling(), Some(f));
        assert_eq!(f_node.previous_sibling(), Some(e));
        assert_eq!(f_node.next_sibling(), Some(d));
        assert_eq!(d_node.previous_sibling(), Some(f));
    }

    // insert after (end): R(C,A,E,F,D,B,G)
    let g = node_tree.create(0);
    node_tree.insert(g, NodeCursor::After(b));
    {
        let b_node = node_tree.get(b).unwrap();
        let g_node = node_tree.get(g).unwrap();
        let root_node = node_tree.get(root).unwrap();
        assert_eq!(g_node.parent(), Some(root));
        assert_eq!(b_node.next_sibling(), Some(g));
        assert_eq!(g_node.previous_sibling(), Some(b));
        assert_eq!(g_node.next_sibling(), None);
        assert_eq!(root_node.last_child(), Some(g));
    }
}

#[test]
fn test_removal() {
    let mut node_tree = NodeTree::new();
    let root = node_tree.root();
    // R(A,B,C,D)
    let a = node_tree.create(0);
    node_tree.insert(a, NodeCursor::BeforeChild(root));
    let b = node_tree.create(0);
    node_tree.insert(b, NodeCursor::After(a));
    let c = node_tree.create(0);
    node_tree.insert(c, NodeCursor::After(b));
    let d = node_tree.create(0);
    node_tree.insert(d, NodeCursor::After(c));

    // R(B,C,D)
    node_tree.detach(a);
    {
        let root_node = node_tree.get(root).unwrap();
        let b_node = node_tree.get(b).unwrap();
        assert_eq!(root_node.first_child(), Some(b));
        assert_eq!(root_node.last_child(), Some(d));
    }

    // R(B,D)
    node_tree.detach(c);
    {
        let root_node = node_tree.get(root).unwrap();
        let b_node = node_tree.get(b).unwrap();
        let d_node = node_tree.get(d).unwrap();
        assert_eq!(b_node.next_sibling(), Some(d));
        assert_eq!(d_node.previous_sibling(), Some(b));
        assert_eq!(root_node.first_child(), Some(b));
        assert_eq!(root_node.last_child(), Some(d));
    }

    // R(D)
    node_tree.detach(b);
    {
        let root_node = node_tree.get(root).unwrap();
        let d_node = node_tree.get(d).unwrap();
        assert_eq!(d_node.next_sibling(), None);
        assert_eq!(d_node.previous_sibling(), None);
        assert_eq!(root_node.first_child(), Some(d));
        assert_eq!(root_node.last_child(), Some(d));
    }

    // R
    node_tree.detach(d);
    {
        let root_node = node_tree.get(root).unwrap();
        assert_eq!(root_node.first_child(), None);
        assert_eq!(root_node.last_child(), None);
    }
}

#[test]
fn test_iter() {
    let mut node_tree = NodeTree::new();
    let root = node_tree.root();
    // R(A,B,C,D)
    let a = node_tree.create(0);
    node_tree.insert(a, NodeCursor::BeforeChild(root));
    let b = node_tree.create(0);
    node_tree.insert(b, NodeCursor::After(a));
    let c = node_tree.create(0);
    node_tree.insert(c, NodeCursor::After(b));
    let d = node_tree.create(0);
    node_tree.insert(d, NodeCursor::After(c));

    let _root_node = node_tree.get(root).unwrap();
    let children: Vec<NodeId> = node_tree.children(root);
    assert_eq!(&children[..], &[a, b, c, d]);
}

fn four_children() -> (NodeTree, NodeId, [NodeId; 4]) {
    let mut node_tree = NodeTree::new();
    let root = node_tree.root();
    let a = node_tree.create(0);
    node_tree.insert(a, NodeCursor::BeforeChild(root));
    let b = node_tree.create(0);
    node_tree.insert(b, NodeCursor::After(a));
    let c = node_tree.create(0);
    node_tree.insert(c, NodeCursor::After(b));
    let d = node_tree.create(0);
    node_tree.insert(d, NodeCursor::After(c));
    (node_tree, root, [a, b, c, d])
}

#[test]
fn cursors_read_to_the_right() {
    let (node_tree, root, [a, b, c, d]) = four_children();
    assert_eq!(node_tree.cursor_iter(NodeCursor::BeforeChild(root)), vec![a, b, c, d]);
    assert_eq!(node_tree.cursor_iter(NodeCursor::Before(b)), vec![b, c, d]);
    assert_eq!(node_tree.cursor_iter(NodeCursor::After(b)), vec![c, d]);
    assert_eq!(node_tree.cursor_iter(NodeCursor::After(d)), Vec::<NodeId>::new());
    assert_eq!(node_tree.node_after(NodeCursor::BeforeChild(root)), Some(a));
    assert_eq!(node_tree.node_after(NodeCursor::Before(c)), Some(c));
    assert_eq!(node_tree.node_after(NodeCursor::After(c)), Some(d));
    assert_eq!(node_tree.node_after(NodeCursor::After(d)), None);
    assert_eq!(node_tree.node_after(NodeCursor::BeforeChild(a)), None);
    assert_eq!(node_tree.following_siblings(a), vec![b, c, d]);
    assert_eq!(node_tree.following_siblings(d), Vec::<NodeId>::new());
}

#[test]
fn removed_node_is_gone_and_children_keep_their_parent() {
    let (mut node_tree, root, [a, b, c, d]) = four_children();
    let x = node_tree.create(0);
    node_tree.insert(x, NodeCursor::BeforeChild(b));
    node_tree.remove(b);
    assert!(node_tree.get(b).is_none());
    assert_eq!(node_tree.children(root), vec![a, c, d]);
    assert_eq!(node_tree.get(a).unwrap().next_sibling(), Some(c));
    assert_eq!(node_tree.get(c).unwrap().previous_sibling(), Some(a));
    assert_eq!(node_tree.get(x).unwrap().parent(), Some(b));
    // a key of a removed node is not handed out again right away
    let y = node_tree.create(0);
    assert_ne!(y, b);
    assert!(node_tree.get(b).is_none());
}

#[test]
fn insert_then_detach_restores_links() {
    let (mut node_tree, root, [a, b, c, d]) = four_children();
    let x = node_tree.create(0);
    node_tree.insert(x, NodeCursor::Before(c));
    assert_eq!(node_tree.children(root), vec![a, b, x, c, d]);
    node_tree.detach(x);
    assert_eq!(node_tree.children(root), vec![a, b, c, d]);
    assert_eq!(node_tree.get(b).unwrap().next_sibling(), Some(c));
    assert_eq!(node_tree.get(c).unwrap().previous_sibling(), Some(b));
    let xn = node_tree.get(x).unwrap();
    assert_eq!(xn.parent(), None);
    assert_eq!(xn.previous_sibling(), None);
    assert_eq!(xn.next_sibling(), None);
}

#[test]
fn moving_a_node_keeps_its_children() {
    let (mut node_tree, root, [a, b, c, d]) = four_children();
    let x = node_tree.create(0);
    node_tree.insert(x, NodeCursor::BeforeChild(a));
    // move `a`, with its child, after `d`
    node_tree.insert(a, NodeCursor::After(d));
    assert_eq!(node_tree.children(root), vec![b, c, d, a]);
    assert_eq!(node_tree.children(a), vec![x]);
    assert_eq!(node_tree.get(root).unwrap().first_child(), Some(b));
    assert_eq!(node_tree.get(root).unwrap().last_child(), Some(a));
    assert_eq!(node_tree.get(x).unwrap().parent(), Some(a));
}

#[test]
fn siblings_of_a_parentless_node_form_a_chain() {
    let mut node_tree = NodeTree::new();
    let a = node_tree.create(0);
    let b = node_tree.create(0);
    node_tree.insert(b, NodeCursor::After(a));
    assert_eq!(node_tree.following_siblings(a), vec![b]);
    assert_eq!(node_tree.get(b).unwrap().parent(), None);
    assert_eq!(node_tree.get(b).unwrap().previous_sibling(), Some(a));
    node_tree.detach(a);
    assert_eq!(node_tree.get(b).unwrap().previous_sibling(), None);
}

#[test]
fn try_create_adds_a_lone_node() {
    let mut node_tree = NodeTree::new();
    let root = node_tree.root();
    let a = node_tree.try_create(0).unwrap();
    let an = node_tree.get(a).unwrap();
    assert_eq!(an.parent(), None);
    assert_eq!(an.first_child(), None);
    assert_ne!(a, root);
    assert_eq!(node_tree.get_unchecked(root).first_child(), None);
}

#[test]
fn dispatch_step_moves_focus_and_bubbles() {
    let (_t, root, [a, b, _c, _d]) = four_children();
    // acquiring focus away from another node: focus out of it, then in
    let (focus, grab, sends, handled_by, next) =
        dispatch_step(Some(b), None, a, FocusChange::Acquire, false, true, true, Some(root));
    assert_eq!(focus, Some(a));
    assert_eq!(grab, Some(a));
    assert_eq!(sends, vec![(FocusEventKind::FocusOut, b), (FocusEventKind::FocusIn, a)]);
    assert_eq!(handled_by, None);
    assert_eq!(next, Some(root));
    // acquiring the focus it already has does nothing
    let (focus, grab, sends, _, _) = dispatch_step(Some(a), Some(b), a, FocusChange::Acquire, false, false, true, None);
    assert_eq!(focus, Some(a));
    assert_eq!(grab, Some(b));
    assert!(sends.is_empty());
    // releasing: focus out, no focus left; a handled event stops
    let (focus, _, sends, handled_by, next) =
        dispatch_step(Some(a), None, a, FocusChange::Release, true, false, true, Some(root));
    assert_eq!(focus, None);
    assert_eq!(sends, vec![(FocusEventKind::FocusOut, a)]);
    assert_eq!(handled_by, Some(a));
    assert_eq!(next, None);
    // releasing a focus the node does not have does nothing
    let (focus, _, sends, _, next) = dispatch_step(Some(b), None, a, FocusChange::Release, false, false, false, Some(root));
    assert_eq!(focus, Some(b));
    assert!(sends.is_empty());
    assert_eq!(next, None);
    // acquiring with no previous focus only sends focus-in
    let (_, _, sends, _, _) = dispatch_step(None, None, a, FocusChange::Acquire, false, false, true, Some(root));
    assert_eq!(sends, vec![(FocusEventKind::FocusIn, a)]);
    assert_eq!(merge_repaint(RepaintRequest::Repaint, RepaintRequest::Nothing), RepaintRequest::Repaint);
    assert_eq!(merge_repaint(RepaintRequest::Repaint, RepaintRequest::Relayout), RepaintRequest::Relayout);
    assert_eq!(merge_repaint(RepaintRequest::Nothing, RepaintRequest::Nothing), RepaintRequest::Nothing);
}

#[test]
fn reconcile_reuses_matching_nodes_and_creates_others() {
    let mut t = NodeTree::new();
    let root = t.root();
    // first layout: emits (visual 1, key 10), (visual 2, no key) under the root
    let (a, cur, reused) = t.reconcile_child(NodeCursor::BeforeChild(root), Some(10), 1);
    assert!(!reused);
    assert_eq!(cur, NodeCursor::After(a));
    let (b, cur, reused) = t.reconcile_child(cur, None, 2);
    assert!(!reused);
    assert_eq!(cur, NodeCursor::After(b));
    assert_eq!(t.children(root), vec![a, b]);
    assert_eq!(t.get(a).unwrap().visual(), Some(1));
    assert_eq!(t.get(a).unwrap().key(), Some(10));
    assert_eq!(t.get(b).unwrap().key(), None);
    // second layout, in the other order: b is found again and moved first,
    // then a is found after it
    let (b2, cur, reused) = t.reconcile_child(NodeCursor::BeforeChild(root), None, 2);
    assert!(reused);
    assert_eq!(b2, b);
    assert_eq!(t.children(root), vec![b, a]);
    let (a2, cur, reused) = t.reconcile_child(cur, Some(10), 1);
    assert!(reused);
    assert_eq!(a2, a);
    assert_eq!(cur, NodeCursor::After(a));
    assert_eq!(t.children(root), vec![b, a]);
    // a key that matches nothing gives a new node, placed after the cursor
    let (c, _, reused) = t.reconcile_child(NodeCursor::After(b), Some(11), 1);
    assert!(!reused);
    assert_eq!(t.children(root), vec![b, c, a]);
    // a `Before` cursor stays, and a node found at the cursor stays in place
    let (c2, cur, reused) = t.reconcile_child(NodeCursor::Before(c), Some(11), 1);
    assert!(reused);
    assert_eq!(c2, c);
    assert_eq!(cur, NodeCursor::Before(c));
    assert_eq!(t.children(root), vec![b, c, a]);
    // the first child is already the one found: nothing moves
    let (b3, _, reused) = t.reconcile_child(NodeCursor::BeforeChild(root), None, 2);
    assert!(reused);
    assert_eq!(b3, b);
    assert_eq!(t.children(root), vec![b, c, a]);
}

//! Positional cache: the slot table that records the call tree of a
//! composition, and the writer that replays a composition over it.
//!
//! The table is a flat sequence of slots. A group is a `StartGroup` slot whose
//! `len` counts the slots from itself to its `EndGroup` marker included; between
//! them lie the group's children, groups and value slots. While a composition
//! runs, the writer keeps a position in the table: slots found again (by call
//! identifier) are moved to the position, new ones are inserted there, and the
//! slots that a group no longer produced are removed when the group ends.
use vstd::prelude::*;
use crate::call_key::{CallId, CallIdStack, CallSite, spec_chain_hash};

verus! {

/// A slot in the slot table.
pub enum Slot<V> {
    /// Marks the start of a group.
    /// Contains the length of the group including this slot and the `EndGroup` marker.
    StartGroup { call_id: CallId, len: u32 },
    /// Marks the end of a group.
    EndGroup,
    /// A state entry, made at the call site `call_id`.
    Value { call_id: CallId, var: V },
}

/// Number of slots that the item starting with `slot` takes, as the table
/// records it.
pub open spec fn item_len<V>(slot: Slot<V>) -> int {
    match slot {
        Slot::StartGroup { len, .. } => len as int,
        Slot::Value { .. } => 1,
        Slot::EndGroup => 0,
    }
}

/// The slots `s[a..b)` form a list of items: value slots, and groups whose
/// length reaches their end marker and whose inside is again a list of items.
#[verifier::opaque]
pub open spec fn wf_list<V>(s: Seq<Slot<V>>, a: int, b: int) -> bool
    decreases b - a,
{
    if !(0 <= a <= b <= s.len()) {
        false
    } else if a == b {
        true
    } else {
        match s[a] {
            Slot::EndGroup => false,
            Slot::Value { .. } => wf_list(s, a + 1, b),
            Slot::StartGroup { len, .. } => {
                &&& len >= 2
                &&& a + len <= b
                &&& s[a + len - 1] is EndGroup
                &&& wf_list(s, a + 1, a + len - 1)
                &&& wf_list(s, a + len, b)
            },
        }
    }
}

/// The call identifier recorded in a slot, if it records one.
pub open spec fn slot_call_id<V>(slot: Slot<V>) -> Option<CallId> {
    match slot {
        Slot::StartGroup { call_id, .. } => Some(call_id),
        Slot::Value { call_id, .. } => Some(call_id),
        Slot::EndGroup => None,
    }
}

/// The first item of the list `s[a..b)` that records `id`, if any.
pub open spec fn spec_find<V>(s: Seq<Slot<V>>, a: int, b: int, id: CallId) -> Option<int>
    decreases b - a,
{
    if !(0 <= a < b <= s.len()) || item_len(s[a]) <= 0 || a + item_len(s[a]) > b {
        None
    } else if slot_call_id(s[a]) == Some(id) {
        Some(a)
    } else {
        spec_find(s, a + item_len(s[a]), b, id)
    }
}

/// A list stays a list when its slots move together by `d` positions.
pub proof fn lemma_wf_list_shift<V>(s: Seq<Slot<V>>, t: Seq<Slot<V>>, a: int, b: int, d: int)
    requires
        wf_list(s, a, b),
        0 <= a + d,
        b + d <= t.len(),
        forall|k: int| a <= k < b ==> t[k + d] == s[k],
    ensures
        wf_list(t, a + d, b + d),
    decreases b - a,
{
    reveal(wf_list);
    if a < b {
        match s[a] {
            Slot::EndGroup => {},
            Slot::Value { .. } => {
                lemma_wf_list_shift(s, t, a + 1, b, d);
            },
            Slot::StartGroup { len, .. } => {
                lemma_wf_list_shift(s, t, a + 1, a + len - 1, d);
                lemma_wf_list_shift(s, t, a + len, b, d);
                assert(t[a + d] == s[a]);
                assert(t[a + len - 1 + d] == s[a + len - 1]);
            },
        }
    }
}

/// Two lists that follow each other form one list.
pub proof fn lemma_wf_list_concat<V>(s: Seq<Slot<V>>, a: int, m: int, b: int)
    requires
        wf_list(s, a, m),
        wf_list(s, m, b),
    ensures
        wf_list(s, a, b),
    decreases m - a,
{
    reveal(wf_list);
    if a < m {
        match s[a] {
            Slot::EndGroup => {},
            Slot::Value { .. } => {
                lemma_wf_list_concat(s, a + 1, m, b);
            },
            Slot::StartGroup { len, .. } => {
                lemma_wf_list_concat(s, a + len, m, b);
            },
        }
    }
}

/// The first item of a non-empty list is a list of one item.
pub proof fn lemma_wf_list_first<V>(s: Seq<Slot<V>>, a: int, b: int)
    requires
        wf_list(s, a, b),
        a < b,
    ensures
        item_len(s[a]) >= 1,
        a + item_len(s[a]) <= b,
        wf_list(s, a, a + item_len(s[a])),
        wf_list(s, a + item_len(s[a]), b),
        !(s[a] is EndGroup),
{
    reveal(wf_list);
    match s[a] {
        Slot::EndGroup => {},
        Slot::Value { .. } => {
            assert(wf_list(s, a + 1, a + 1));
        },
        Slot::StartGroup { len, .. } => {
            assert(wf_list(s, a + len, a + len));
        },
    }
}

/// Searching a list finds an item of the list that records the identifier,
/// and the items before it form a list, as do the items from it on.
pub proof fn lemma_find_splits<V>(s: Seq<Slot<V>>, a: int, b: int, id: CallId)
    requires
        wf_list(s, a, b),
    ensures
        spec_find(s, a, b, id) matches Some(f) ==> {
            &&& a <= f < b
            &&& slot_call_id(s[f]) == Some(id)
            &&& wf_list(s, a, f)
            &&& wf_list(s, f, b)
        },
    decreases b - a,
{
    reveal(wf_list);
    if a < b {
        lemma_wf_list_first(s, a, b);
        if slot_call_id(s[a]) != Some(id) {
            let n = a + item_len(s[a]);
            lemma_find_splits(s, n, b, id);
            if spec_find(s, n, b, id) is Some {
                let f = spec_find(s, n, b, id)->0;
                lemma_wf_list_concat(s, a, n, f);
            }
        } else {
            assert(wf_list(s, a, a));
        }
    }
}

/// The lists before the position: from the table's start to the first open
/// group, between open groups, and from the innermost open group to `p`; the
/// open groups start with `StartGroup` slots.
pub open spec fn prefix_ok<V>(s: Seq<Slot<V>>, g: Seq<usize>, p: int) -> bool {
    if g.len() == 0 {
        wf_list(s, 0, p)
    } else {
        &&& wf_list(s, 0, g[0] as int)
        &&& forall|k: int| #![trigger g[k]] 0 <= k < g.len() - 1 ==> wf_list(s, g[k] + 1, g[k + 1] as int)
        &&& wf_list(s, g.last() + 1, p)
        &&& forall|k: int| #![trigger g[k]] 0 <= k < g.len() ==> s[g[k] as int] is StartGroup
    }
}

/// The lists after the position: up to the end marker of the innermost open
/// group, between end markers, and after the outermost one; `e` holds the end
/// markers, innermost last.
pub open spec fn suffix_ok<V>(s: Seq<Slot<V>>, e: Seq<int>, p: int) -> bool {
    if e.len() == 0 {
        wf_list(s, p, s.len() as int)
    } else {
        &&& wf_list(s, p, e.last())
        &&& forall|k: int| #![trigger e[k]] 0 <= k < e.len() - 1 ==> wf_list(s, e[k + 1] + 1, e[k])
        &&& wf_list(s, e[0] + 1, s.len() as int)
        &&& forall|k: int| #![trigger e[k]] 0 <= k < e.len() ==> 0 <= e[k] < s.len() && s[e[k]] is EndGroup
    }
}

/// Every open group starts before the position.
pub proof fn lemma_groups_before<V>(s: Seq<Slot<V>>, g: Seq<usize>, p: int, k: int)
    requires
        prefix_ok(s, g, p),
        0 <= k < g.len(),
    ensures
        g[k] + 1 <= p,
        p <= s.len(),
    decreases g.len() - k,
{
    if k == g.len() - 1 {
        lemma_wf_list_bounds(s, g.last() + 1, p);
    } else {
        lemma_groups_before(s, g, p, k + 1);
        lemma_wf_list_bounds(s, g[k] + 1, g[k + 1] as int);
    }
}

/// The lists before a position do not change when the slots before it stay.
pub proof fn lemma_prefix_frame<V>(s: Seq<Slot<V>>, t: Seq<Slot<V>>, g: Seq<usize>, p: int)
    requires
        prefix_ok(s, g, p),
        p <= t.len(),
        forall|k: int| 0 <= k < p ==> t[k] == s[k],
    ensures
        prefix_ok(t, g, p),
{
    if g.len() == 0 {
        lemma_wf_list_shift(s, t, 0, p, 0);
    } else {
        lemma_groups_before(s, g, p, 0);
        lemma_wf_list_shift(s, t, 0, g[0] as int, 0);
        assert forall|k: int| #![trigger g[k]] 0 <= k < g.len() - 1 implies wf_list(t, g[k] + 1, g[k + 1] as int) by {
            lemma_groups_before(s, g, p, k + 1);
            lemma_wf_list_shift(s, t, g[k] + 1, g[k + 1] as int, 0);
        }
        lemma_wf_list_shift(s, t, g.last() + 1, p, 0);
        assert forall|k: int| #![trigger g[k]] 0 <= k < g.len() implies t[g[k] as int] is StartGroup by {
            lemma_groups_before(s, g, p, k);
        }
    }
}

/// The end markers moved by `d`.
pub open spec fn shift_ends(e: Seq<int>, d: int) -> Seq<int> {
    Seq::new(e.len(), |k: int| e[k] + d)
}

/// A list lies inside the table, from its start to its end.
pub proof fn lemma_wf_list_bounds<V>(s: Seq<Slot<V>>, a: int, b: int)
    requires
        wf_list(s, a, b),
    ensures
        0 <= a <= b <= s.len(),
{
    reveal(wf_list);
}

/// The empty list.
pub proof fn lemma_wf_list_empty<V>(s: Seq<Slot<V>>, a: int)
    requires
        0 <= a <= s.len(),
    ensures
        wf_list(s, a, a),
{
    reveal(wf_list);
}

/// Every end marker lies at or after the position.
pub proof fn lemma_ends_after<V>(s: Seq<Slot<V>>, e: Seq<int>, p: int, k: int)
    requires
        suffix_ok(s, e, p),
        0 <= k < e.len(),
    ensures
        p <= e[k],
        e[k] + 1 <= s.len(),
    decreases e.len() - k,
{
    if k == e.len() - 1 {
        lemma_wf_list_bounds(s, p, e.last());
    } else {
        lemma_ends_after(s, e, p, k + 1);
        lemma_wf_list_bounds(s, e[k + 1] + 1, e[k]);
    }
}

/// Where the items of the innermost open group end.
pub open spec fn current_end<V>(s: Seq<Slot<V>>, e: Seq<int>) -> int {
    if e.len() == 0 {
        s.len() as int
    } else {
        e.last()
    }
}

/// The lists after the current group's end move with the slots from there on,
/// and the current group's items may be replaced by another list.
pub proof fn lemma_suffix_reframe<V>(s: Seq<Slot<V>>, t: Seq<Slot<V>>, e: Seq<int>, p: int, q: int, d: int)
    requires
        suffix_ok(s, e, p),
        t.len() == s.len() + d,
        forall|k: int| current_end(s, e) <= k < s.len() ==> t[k + d] == s[k],
        wf_list(t, q, current_end(s, e) + d),
    ensures
        suffix_ok(t, shift_ends(e, d), q),
{
    let e2 = shift_ends(e, d);
    if e.len() > 0 {
        lemma_ends_after(s, e, p, e.len() - 1);
        assert forall|k: int| #![trigger e2[k]] 0 <= k < e2.len() - 1 implies wf_list(t, e2[k + 1] + 1, e2[k]) by {
            lemma_ends_after(s, e, p, k + 1);
            lemma_ends_after(s, e, p, e.len() - 1);
            lemma_ends_le(s, e, p, k + 1, e.len() - 1);
            lemma_wf_list_bounds(s, e[k + 1] + 1, e[k]);
            lemma_wf_list_bounds(t, q, current_end(s, e) + d);
            lemma_wf_list_shift(s, t, e[k + 1] + 1, e[k], d);
        }
        lemma_ends_after(s, e, p, 0);
        lemma_ends_le(s, e, p, 0, e.len() - 1);
        lemma_wf_list_bounds(t, q, current_end(s, e) + d);
        lemma_wf_list_shift(s, t, e[0] + 1, s.len() as int, d);
        assert forall|k: int| #![trigger e2[k]] 0 <= k < e2.len() implies 0 <= e2[k] < t.len() && t[e2[k]] is EndGroup by {
            lemma_ends_after(s, e, p, k);
            lemma_ends_le(s, e, p, k, e.len() - 1);
            lemma_wf_list_bounds(t, q, current_end(s, e) + d);
        }
    }
}

/// Outer end markers lie after inner ones.
pub proof fn lemma_ends_le<V>(s: Seq<Slot<V>>, e: Seq<int>, p: int, j: int, k: int)
    requires
        suffix_ok(s, e, p),
        0 <= j <= k < e.len(),
    ensures
        e[k] <= e[j],
    decreases k - j,
{
    if j < k {
        lemma_ends_le(s, e, p, j + 1, k);
        lemma_wf_list_bounds(s, e[j + 1] + 1, e[j]);
    }
}

/// Opening a group whose end marker is at `x`.
pub proof fn lemma_suffix_push<V>(t: Seq<Slot<V>>, e: Seq<int>, x: int, q: int)
    requires
        suffix_ok(t, e, x + 1),
        0 <= x < t.len(),
        t[x] is EndGroup,
        wf_list(t, q, x),
    ensures
        suffix_ok(t, e.push(x), q),
{
    let e2 = e.push(x);
    assert(e2.last() == x);
    if e.len() > 0 {
        lemma_ends_after(t, e, x + 1, e.len() - 1);
        assert forall|k: int| #![trigger e2[k]] 0 <= k < e2.len() - 1 implies wf_list(t, e2[k + 1] + 1, e2[k]) by {
            if k == e2.len() - 2 {
                assert(e2[k + 1] == x);
                assert(e2[k] == e.last());
            } else {
                assert(e2[k] == e[k]);
                assert(e2[k + 1] == e[k + 1]);
            }
        }
        assert forall|k: int| #![trigger e2[k]] 0 <= k < e2.len() implies 0 <= e2[k] < t.len() && t[e2[k]] is EndGroup by {
            if k < e.len() {
                assert(e2[k] == e[k]);
            }
        }
    } else {
        assert(e2[0] == x);
    }
}

/// Closing the current group, once the position reached its end marker.
pub proof fn lemma_suffix_pop<V>(t: Seq<Slot<V>>, e: Seq<int>)
    requires
        e.len() > 0,
        suffix_ok(t, e, e.last()),
    ensures
        suffix_ok(t, e.drop_last(), e.last() + 1),
{
    let e2 = e.drop_last();
    if e2.len() > 0 {
        assert(wf_list(t, e[e.len() - 1] + 1, e[e.len() - 2]));
        assert forall|k: int| #![trigger e2[k]] 0 <= k < e2.len() - 1 implies wf_list(t, e2[k + 1] + 1, e2[k]) by {
            assert(e2[k] == e[k]);
            assert(e2[k + 1] == e[k + 1]);
        }
        assert forall|k: int| #![trigger e2[k]] 0 <= k < e2.len() implies 0 <= e2[k] < t.len() && t[e2[k]] is EndGroup by {
            assert(e2[k] == e[k]);
        }
    }
}

/// Entering the group that starts at the position.
pub proof fn lemma_prefix_push<V>(t: Seq<Slot<V>>, g: Seq<usize>, p: usize)
    requires
        prefix_ok(t, g, p as int),
        p < t.len(),
        t[p as int] is StartGroup,
    ensures
        prefix_ok(t, g.push(p), p + 1),
{
    let g2 = g.push(p);
    lemma_wf_list_empty(t, p + 1);
    if g.len() > 0 {
        assert forall|k: int| #![trigger g2[k]] 0 <= k < g2.len() - 1 implies wf_list(t, g2[k] + 1, g2[k + 1] as int) by {
            if k == g2.len() - 2 {
                assert(g2[k] == g.last());
            } else {
                assert(g2[k] == g[k]);
                assert(g2[k + 1] == g[k + 1]);
            }
        }
        assert forall|k: int| #![trigger g2[k]] 0 <= k < g2.len() implies t[g2[k] as int] is StartGroup by {
            if k < g.len() {
                assert(g2[k] == g[k]);
            }
        }
    }
}

/// Closing the innermost open group at its end marker `p`, with the length of
/// its start slot set to reach it.
pub proof fn lemma_prefix_pop<V>(t: Seq<Slot<V>>, t2: Seq<Slot<V>>, g: Seq<usize>, p: int)
    requires
        g.len() > 0,
        prefix_ok(t, g, p),
        0 <= p < t.len(),
        t[p] is EndGroup,
        t2.len() == t.len(),
        forall|k: int| 0 <= k < t.len() && k != g.last() ==> t2[k] == t[k],
        t2[g.last() as int] matches Slot::StartGroup { len, .. } && len == p + 1 - g.last(),
    ensures
        prefix_ok(t2, g.drop_last(), p + 1),
{
    let gl = g.last() as int;
    let g2 = g.drop_last();
    lemma_groups_before(t, g, p, g.len() - 1);
    lemma_wf_list_shift(t, t2, gl + 1, p, 0);
    assert(wf_list(t2, gl, p + 1)) by {
        reveal(wf_list);
        lemma_wf_list_empty(t2, p + 1);
    }
    if g2.len() == 0 {
        lemma_wf_list_shift(t, t2, 0, gl, 0);
        lemma_wf_list_concat(t2, 0, gl, p + 1);
    } else {
        let gp = g2.last() as int;
        assert(gp == g[g.len() - 2]);
        assert(wf_list(t, gp + 1, gl));
        lemma_wf_list_shift(t, t2, gp + 1, gl, 0);
        lemma_wf_list_concat(t2, gp + 1, gl, p + 1);
        lemma_groups_before(t, g, p, 0);
        lemma_wf_list_bounds(t, 0, g[0] as int);
        assert(g2[0] == g[0]);
        lemma_groups_order(t, g, p, 0, g.len() - 2);
        lemma_wf_list_shift(t, t2, 0, g2[0] as int, 0);
        assert forall|k: int| #![trigger g2[k]] 0 <= k < g2.len() - 1 implies wf_list(t2, g2[k] + 1, g2[k + 1] as int) by {
            assert(g2[k] == g[k]);
            assert(g2[k + 1] == g[k + 1]);
            lemma_groups_before(t, g, p, k + 1);
            lemma_groups_before(t, g, p, g.len() - 1);
            lemma_wf_list_bounds(t, g[k] + 1, g[k + 1] as int);
            lemma_groups_order(t, g, p, k + 1, g.len() - 2);
            lemma_wf_list_shift(t, t2, g[k] + 1, g[k + 1] as int, 0);
        }
        assert forall|k: int| #![trigger g2[k]] 0 <= k < g2.len() implies t2[g2[k] as int] is StartGroup by {
            assert(g2[k] == g[k]);
            lemma_groups_before(t, g, p, k);
            lemma_groups_order(t, g, p, k, g.len() - 2);
        }
    }
}

/// Open groups start in increasing positions.
pub proof fn lemma_groups_order<V>(s: Seq<Slot<V>>, g: Seq<usize>, p: int, j: int, k: int)
    requires
        prefix_ok(s, g, p),
        0 <= j <= k < g.len() - 1,
    ensures
        g[j] < g[k + 1],
    decreases k - j,
{
    lemma_wf_list_bounds(s, g[k] + 1, g[k + 1] as int);
    if j < k {
        lemma_groups_order(s, g, p, j, k - 1);
    }
}

/// The table `s` with the items `s[f..end)` moved before the items `s[p..f)`.
pub open spec fn rotated<V>(s: Seq<Slot<V>>, p: int, f: int, end: int) -> Seq<Slot<V>> {
    s.subrange(0, p) + s.subrange(f, end) + s.subrange(p, f) + s.subrange(end, s.len() as int)
}

/// The table `s` with the items `s[p..end)` removed.
pub open spec fn drained<V>(s: Seq<Slot<V>>, p: int, end: int) -> Seq<Slot<V>> {
    s.subrange(0, p) + s.subrange(end, s.len() as int)
}

/// Syncing moves the slot found again to the position without losing or
/// duplicating any slot: the items before it move after it, and the slots
/// outside the current group stay where they were.
pub proof fn law_rotation_keeps_slots<V>(s: Seq<Slot<V>>, p: int, f: int, end: int)
    requires
        0 <= p <= f < end <= s.len(),
    ensures
        rotated(s, p, f, end).len() == s.len(),
        rotated(s, p, f, end)[p] == s[f],
        forall|k: int| 0 <= k < p ==> rotated(s, p, f, end)[k] == s[k],
        forall|k: int| end <= k < s.len() ==> rotated(s, p, f, end)[k] == s[k],
        forall|k: int| f <= k < end ==> rotated(s, p, f, end)[p + (k - f)] == s[k],
        forall|k: int| p <= k < f ==> rotated(s, p, f, end)[p + (end - f) + (k - p)] == s[k],
{
}

/// Closing a group removes exactly the slots from the position to its end
/// marker, and keeps the others in order.
pub proof fn law_end_group_removes_unvisited<V>(s: Seq<Slot<V>>, p: int, end: int)
    requires
        0 <= p <= end <= s.len(),
    ensures
        drained(s, p, end).len() == s.len() - (end - p),
        forall|k: int| 0 <= k < p ==> drained(s, p, end)[k] == s[k],
        forall|k: int| end <= k < s.len() ==> drained(s, p, end)[k - (end - p)] == s[k],
{
}

/// Replays a composition over a slot table.
pub struct CacheWriter<V> {
    /// The slot table.
    slots: Vec<Slot<V>>,
    /// Current position in the slot table.
    pos: usize,
    /// Stack of call IDs.
    id_stack: CallIdStack,
    /// Stack of group start positions; the top element is the start of the current group.
    group_stack: Vec<usize>,
    /// Positions of the end markers of the open groups, innermost last.
    ends: Ghost<Seq<int>>,
}

impl<V> CacheWriter<V> {
    /// The slot table.
    pub closed spec fn slots(&self) -> Seq<Slot<V>> {
        self.slots@
    }

    /// The current position in the slot table.
    pub closed spec fn position(&self) -> int {
        self.pos as int
    }

    /// Start positions of the open groups, innermost last.
    pub closed spec fn open_groups(&self) -> Seq<usize> {
        self.group_stack@
    }

    /// Identifiers of the scopes entered, innermost last.
    pub closed spec fn scopes(&self) -> Seq<u64> {
        self.id_stack@
    }

    /// Positions of the end markers of the open groups, innermost last.
    pub closed spec fn open_ends(&self) -> Seq<int> {
        self.ends@
    }

    /// Where the current group's items end: its end marker, or the end of the
    /// table when no group is open.
    pub closed spec fn group_end(&self) -> int {
        if self.ends@.len() == 0 {
            self.slots@.len() as int
        } else {
            self.ends@.last()
        }
    }

    /// The table is made of lists of items around the position, as the open
    /// groups delimit them, and its length fits the length field of a group.
    pub closed spec fn inv(&self) -> bool {
        &&& self.slots@.len() <= u32::MAX
        &&& self.ends@.len() == self.group_stack@.len()
        &&& prefix_ok(self.slots@, self.group_stack@, self.pos as int)
        &&& suffix_ok(self.slots@, self.ends@, self.pos as int)
    }

    /// The items of the current group, from the position on, form a list.
    proof fn lemma_current_list(&self)
        requires
            self.inv(),
        ensures
            wf_list(self.slots@, self.pos as int, self.group_end()),
            self.pos <= self.group_end() <= self.slots@.len(),
            self.group_end() < self.slots@.len() ==> self.slots@[self.group_end()] is EndGroup,
            self.ends@.len() > 0 ==> self.group_end() < self.slots@.len(),
    {
        if self.ends@.len() > 0 {
            lemma_ends_after(self.slots@, self.ends@, self.pos as int, self.ends@.len() - 1);
        }
        lemma_wf_list_bounds(self.slots@, self.pos as int, self.group_end());
    }

    /// Finds a slot with the specified call identifier among the items of the
    /// current group, starting from the current position.
    ///
    /// Returns the position of the matching slot in the table, or None.
    pub fn find_call_id(&self, call_id: CallId) -> (r: Option<usize>)
        requires
            self.inv(),
        ensures
            r matches Some(f) ==> spec_find(self.slots(), self.position(), self.group_end(), call_id) == Some(f as int),
            r is None ==> spec_find(self.slots(), self.position(), self.group_end(), call_id) is None,
    {
        proof {
            self.lemma_current_list();
        }
        let ghost s = self.slots@;
        let ghost end = self.group_end();
        let mut i = self.pos;
        while i < self.slots.len()
            invariant
                self.inv(),
                s == self.slots@,
                end == self.group_end(),
                self.pos <= i <= end <= s.len(),
                end < s.len() ==> s[end] is EndGroup,
                wf_list(s, i as int, end),
                spec_find(s, self.pos as int, end, call_id) == spec_find(s, i as int, end, call_id),
            decreases s.len() - i,
        {
            proof {
                if i < end {
                    lemma_wf_list_first(s, i as int, end);
                }
            }
            match &self.slots[i] {
                Slot::StartGroup { call_id: this_call_id, len } => {
                    if this_call_id.0 == call_id.0 {
                        return Some(i);
                    }
                    i = i + *len as usize;
                },
                Slot::Value { call_id: this_call_id, .. } => {
                    if this_call_id.0 == call_id.0 {
                        return Some(i);
                    }
                    i = i + 1;
                },
                Slot::EndGroup => {
                    // reached the end of the current group
                    return None;
                },
            }
        }
        // no slot found
        None
    }

    /// Returns the position of the end marker of the current group (the end
    /// of the table when no group is open).
    pub fn group_end_position(&self) -> (r: usize)
        requires
            self.inv(),
        ensures
            r == self.group_end(),
    {
        proof {
            self.lemma_current_list();
        }
        let ghost s = self.slots@;
        let ghost end = self.group_end();
        let mut i = self.pos;
        while i < self.slots.len()
            invariant
                self.inv(),
                s == self.slots@,
                end == self.group_end(),
                self.pos <= i <= end <= s.len(),
                end < s.len() ==> s[end] is EndGroup,
                wf_list(s, i as int, end),
            ensures
                i == end,
            decreases s.len() - i,
        {
            proof {
                if i < end {
                    lemma_wf_list_first(s, i as int, end);
                }
            }
            match &self.slots[i] {
                Slot::EndGroup => {
                    break;
                },
                Slot::StartGroup { len, .. } => {
                    i = i + *len as usize;
                },
                _ => i = i + 1,
            }
        }
        i
    }
}

impl<V> CacheWriter<V> {
    /// The identifier of the current scope.
    pub open spec fn current_id(&self) -> CallId {
        CallId(self.scopes().last())
    }

    /// The slot found again for the current scope, if the current group has one
    /// from the position on.
    pub open spec fn sync_target(&self) -> Option<int> {
        spec_find(self.slots(), self.position(), self.group_end(), self.current_id())
    }

    /// The number of slots in the table.
    pub fn len(&self) -> (n: usize)
        ensures
            n == self.slots().len(),
    {
        self.slots.len()
    }

    /// The slot at `i`.
    pub fn slot(&self, i: usize) -> (r: &Slot<V>)
        requires
            i < self.slots().len(),
        ensures
            *r == self.slots()[i as int],
    {
        &self.slots[i]
    }

    /// The current position in the table.
    pub fn pos(&self) -> (p: usize)
        ensures
            p == self.position(),
    {
        self.pos
    }

    /// The number of open groups.
    pub fn open_group_count(&self) -> (n: usize)
        ensures
            n == self.open_groups().len(),
    {
        self.group_stack.len()
    }

    /// The number of scopes entered and not exited.
    pub fn scope_count(&self) -> (n: usize)
        ensures
            n == self.scopes().len(),
    {
        self.id_stack.depth()
    }

    /// Whether no scope is entered.
    pub fn scopes_empty(&self) -> (r: bool)
        ensures
            r == (self.scopes().len() == 0),
    {
        self.id_stack.is_empty()
    }

    /// Returns the identifier of the current scope.
    pub fn current_call_id(&self) -> (id: CallId)
        requires
            self.scopes().len() > 0,
        ensures
            id == self.current_id(),
    {
        self.id_stack.current()
    }

    /// Enters a scope at `site`, with `index` among the calls made there.
    pub fn enter_scope(&mut self, site: &CallSite, index: usize)
        requires
            old(self).inv(),
        ensures
            final(self).inv(),
            final(self).scopes() == old(self).scopes().push(spec_chain_hash(old(self).scopes(), *site, index)),
            final(self).slots() == old(self).slots(),
            final(self).position() == old(self).position(),
            final(self).open_groups() == old(self).open_groups(),
            final(self).group_end() == old(self).group_end(),
    {
        self.id_stack.enter(site, index);
    }

    /// Exits the current scope.
    pub fn exit_scope(&mut self)
        requires
            old(self).inv(),
        ensures
            final(self).inv(),
            final(self).scopes() == (if old(self).scopes().len() == 0 {
                old(self).scopes()
            } else {
                old(self).scopes().drop_last()
            }),
            final(self).slots() == old(self).slots(),
            final(self).position() == old(self).position(),
            final(self).open_groups() == old(self).open_groups(),
            final(self).group_end() == old(self).group_end(),
    {
        self.id_stack.exit();
    }

    /// Moves the items from `pos` to the end of the current group before the
    /// items from the current position to `pos`.
    fn rotate_in_current_position(&mut self, pos: usize)
        requires
            old(self).inv(),
            wf_list(old(self).slots(), old(self).position(), pos as int),
            wf_list(old(self).slots(), pos as int, old(self).group_end()),
        ensures
            final(self).inv(),
            final(self).slots() == rotated(old(self).slots(), old(self).position(), pos as int, old(self).group_end()),
            final(self).position() == old(self).position(),
            final(self).open_groups() == old(self).open_groups(),
            final(self).scopes() == old(self).scopes(),
            final(self).group_end() == old(self).group_end(),
            final(self).open_ends() == old(self).open_ends(),
    {
        let ghost s = self.slots@;
        let ghost p = self.pos as int;
        proof {
            self.lemma_current_list();
            lemma_wf_list_bounds(s, p, pos as int);
            lemma_wf_list_bounds(s, pos as int, self.group_end());
        }
        let group_end_pos = self.group_end_position();
        let mut tail = self.slots.split_off(group_end_pos);
        let mut moved = self.slots.split_off(pos);
        let mut rest = self.slots.split_off(self.pos);
        self.slots.append(&mut moved);
        self.slots.append(&mut rest);
        self.slots.append(&mut tail);
        proof {
            let t = self.slots@;
            let end = group_end_pos as int;
            let f = pos as int;
            assert(t =~= rotated(s, p, f, end));
            lemma_prefix_frame(s, t, self.group_stack@, p);
            lemma_wf_list_shift(s, t, f, end, p - f);
            lemma_wf_list_shift(s, t, p, f, end - f);
            lemma_wf_list_concat(t, p, p + end - f, end);
            lemma_suffix_reframe(s, t, self.ends@, p, p, 0);
            assert(shift_ends(self.ends@, 0) =~= self.ends@);
        }
    }

    /// Finds the slot of the current scope in the current group and moves it
    /// to the current position. Returns whether it was found.
    pub fn sync(&mut self) -> (found: bool)
        requires
            old(self).inv(),
            old(self).scopes().len() > 0,
        ensures
            final(self).inv(),
            found == old(self).sync_target() is Some,
            match old(self).sync_target() {
                Some(f) => final(self).slots() == rotated(old(self).slots(), old(self).position(), f, old(self).group_end()),
                None => final(self).slots() == old(self).slots(),
            },
            final(self).position() == old(self).position(),
            final(self).open_groups() == old(self).open_groups(),
            final(self).scopes() == old(self).scopes(),
            final(self).group_end() == old(self).group_end(),
            final(self).open_ends() == old(self).open_ends(),
    {
        let call_id = self.id_stack.current();
        let pos = self.find_call_id(call_id);
        match pos {
            Some(pos) => {
                proof {
                    self.lemma_current_list();
                    lemma_find_splits(self.slots@, self.pos as int, self.group_end(), call_id);
                }
                // move slots in position
                self.rotate_in_current_position(pos);
                true
            },
            None => false,
        }
    }
}

impl<V> CacheWriter<V> {
    /// Moves the position over the item there, in the current group's lists.
    proof fn lemma_advance(&self, t: Seq<Slot<V>>, n: int)
        requires
            self.inv(),
            t == self.slots@,
            self.pos < self.group_end(),
            n == item_len(t[self.pos as int]),
        ensures
            n >= 1,
            prefix_ok(t, self.group_stack@, self.pos + n),
            suffix_ok(t, self.ends@, self.pos + n),
            self.pos + n <= self.group_end(),
    {
        let p = self.pos as int;
        self.lemma_current_list();
        lemma_wf_list_first(t, p, self.group_end());
        let g = self.group_stack@;
        if g.len() == 0 {
            lemma_wf_list_concat(t, 0, p, p + n);
        } else {
            lemma_wf_list_concat(t, g.last() + 1, p, p + n);
        }
        lemma_suffix_reframe(t, t, self.ends@, p, p + n, 0);
        assert(shift_ends(self.ends@, 0) =~= self.ends@);
    }

    /// Skips the next entry or the next group.
    pub fn skip(&mut self)
        requires
            old(self).inv(),
            old(self).position() < old(self).slots().len(),
        ensures
            final(self).inv(),
            final(self).position() == old(self).position() + item_len(old(self).slots()[old(self).position()]),
            final(self).slots() == old(self).slots(),
            final(self).open_groups() == old(self).open_groups(),
            final(self).scopes() == old(self).scopes(),
            final(self).group_end() == old(self).group_end(),
            final(self).open_ends() == old(self).open_ends(),
    {
        proof {
            self.lemma_current_list();
        }
        match &self.slots[self.pos] {
            Slot::StartGroup { len, .. } => {
                proof {
                    self.lemma_advance(self.slots@, item_len(self.slots@[self.pos as int]));
                }
                self.pos = self.pos + *len as usize;
            },
            Slot::Value { .. } => {
                proof {
                    self.lemma_advance(self.slots@, 1);
                }
                self.pos = self.pos + 1;
            },
            Slot::EndGroup => {
                // nothing to skip
            },
        }
    }

    /// Skips the remaining items of the current group.
    pub fn skip_until_end_of_group(&mut self)
        requires
            old(self).inv(),
            old(self).open_groups().len() > 0,
        ensures
            final(self).inv(),
            final(self).position() == old(self).group_end(),
            final(self).slots() == old(self).slots(),
            final(self).open_groups() == old(self).open_groups(),
            final(self).scopes() == old(self).scopes(),
            final(self).open_ends() == old(self).open_ends(),
    {
        proof {
            self.lemma_current_list();
        }
        loop
            invariant
                self.inv(),
                self.slots@ == old(self).slots@,
                self.group_stack@ == old(self).group_stack@,
                self.id_stack@ == old(self).id_stack@,
                self.ends@ == old(self).ends@,
                self.group_end() == old(self).group_end(),
                self.group_end() < self.slots@.len(),
                self.pos <= self.group_end(),
            ensures
                self.pos == self.group_end(),
            decreases self.group_end() - self.pos,
        {
            proof {
                self.lemma_current_list();
                if self.pos < self.group_end() {
                    lemma_wf_list_first(self.slots@, self.pos as int, self.group_end());
                }
            }
            if let Slot::EndGroup = &self.slots[self.pos] {
                break;
            }
            self.skip();
        }
    }

    /// Opens the group of the current scope: the group found again in the
    /// current group, moved to the position, or a new empty group inserted
    /// there.
    pub fn start_group(&mut self)
        requires
            old(self).inv(),
            old(self).scopes().len() > 0,
            old(self).slots().len() + 2 <= u32::MAX,
            !(old(self).sync_target() matches Some(f) && old(self).slots()[f] is Value),
        ensures
            final(self).inv(),
            match old(self).sync_target() {
                Some(f) => final(self).slots() == rotated(old(self).slots(), old(self).position(), f, old(self).group_end()),
                None => final(self).slots() == old(self).slots().insert(
                    old(self).position(),
                    Slot::StartGroup { call_id: old(self).current_id(), len: 2 },
                ).insert(old(self).position() + 1, Slot::EndGroup),
            },
            final(self).position() == old(self).position() + 1,
            final(self).open_groups() == old(self).open_groups().push(old(self).position() as usize),
            final(self).scopes() == old(self).scopes(),
    {
        let ghost s = self.slots@;
        let ghost p = self.pos as int;
        let ghost e = self.ends@;
        let ghost end = self.group_end();
        proof {
            self.lemma_current_list();
            lemma_find_splits(s, p, end, self.current_id());
        }
        let synced = self.sync();
        if synced {
            proof {
                let t = self.slots@;
                let f = old(self).sync_target()->0;
                assert(t[p] == s[f]);
                self.lemma_current_list();
                lemma_wf_list_first(t, p, end);
                let n = item_len(t[p]);
                assert(wf_list(t, p, p + n)) ;
                assert(wf_list(t, p + 1, p + n - 1) && t[p + n - 1] is EndGroup) by {
                    reveal(wf_list);
                }
                lemma_suffix_reframe(t, t, e, p, p + n, 0);
                assert(shift_ends(e, 0) =~= e);
                lemma_suffix_push(t, e, p + n - 1, p + 1);
                lemma_prefix_push(t, self.group_stack@, p as usize);
                self.ends@ = e.push(p + n - 1);
            }
        } else {
            let call_id = self.id_stack.current();
            self.slots.insert(self.pos, Slot::StartGroup { call_id, len: 2 });
            self.slots.insert(self.pos + 1, Slot::EndGroup);
            proof {
                let t = self.slots@;
                assert(forall|k: int| 0 <= k < p ==> t[k] == s[k]);
                assert(forall|k: int| p <= k < s.len() ==> t[k + 2] == s[k]);
                lemma_prefix_frame(s, t, self.group_stack@, p);
                lemma_wf_list_shift(s, t, p, end, 2);
                lemma_suffix_reframe(s, t, e, p, p + 2, 2);
                lemma_wf_list_empty(t, p + 1);
                lemma_suffix_push(t, shift_ends(e, 2), p + 1, p + 1);
                lemma_prefix_push(t, self.group_stack@, p as usize);
                self.ends@ = shift_ends(e, 2).push(p + 1);
            }
        }
        // enter group
        self.group_stack.push(self.pos);
        self.pos = self.pos + 1;
    }
}

/// The start slot of a group, with its length set to `len`.
pub open spec fn with_len<V>(slot: Slot<V>, len: u32) -> Slot<V> {
    match slot {
        Slot::StartGroup { call_id, .. } => Slot::StartGroup { call_id, len },
        _ => slot,
    }
}

impl<V> CacheWriter<V> {
    /// Closes the current group: the items it did not produce again (from the
    /// position to its end marker) are removed, the position moves past the
    /// marker, and the group's length is updated.
    pub fn end_group(&mut self)
        requires
            old(self).inv(),
            old(self).open_groups().len() > 0,
        ensures
            final(self).inv(),
            final(self).slots() == drained(old(self).slots(), old(self).position(), old(self).group_end()).update(
                old(self).open_groups().last() as int,
                with_len(
                    old(self).slots()[old(self).open_groups().last() as int],
                    (old(self).position() + 1 - old(self).open_groups().last()) as u32,
                ),
            ),
            final(self).position() == old(self).position() + 1,
            final(self).open_groups() == old(self).open_groups().drop_last(),
            final(self).scopes() == old(self).scopes(),
    {
        let ghost s = self.slots@;
        let ghost p = self.pos as int;
        let ghost e = self.ends@;
        let ghost end = self.group_end();
        let ghost g = self.group_stack@;
        proof {
            self.lemma_current_list();
            lemma_groups_before(s, g, p, g.len() - 1);
        }
        // all remaining slots in the group are now considered dead in this revision:
        // - find position of group end marker
        let group_end_pos = self.group_end_position();
        // remove the extra slots
        let mut tail = self.slots.split_off(group_end_pos);
        let _removed = self.slots.split_off(self.pos);
        self.slots.append(&mut tail);
        let ghost t1 = self.slots@;
        let ghost d = p - end;
        proof {
            assert(t1 =~= drained(s, p, end));
            assert(forall|k: int| 0 <= k < p ==> t1[k] == s[k]);
            assert(forall|k: int| end <= k < s.len() ==> t1[k + d] == s[k]);
            lemma_prefix_frame(s, t1, g, p);
            lemma_wf_list_empty(t1, p);
            lemma_suffix_reframe(s, t1, e, p, p, d);
            assert(shift_ends(e, d).last() == p);
            lemma_suffix_pop(t1, shift_ends(e, d));
        }
        // skip GroupEnd marker
        self.pos = self.pos + 1;
        // update group length
        let group_start_pos = self.group_stack.pop().unwrap();
        let new_len = (self.pos - group_start_pos) as u32;
        if let Slot::StartGroup { call_id, .. } = &self.slots[group_start_pos] {
            let call_id = *call_id;
            self.slots.set(group_start_pos, Slot::StartGroup { call_id, len: new_len });
        }
        proof {
            let t2 = self.slots@;
            let gl = g.last() as int;
            assert(t1[gl] == s[gl]);
            assert(t2 == t1.update(gl, with_len(t1[gl], new_len)));
            lemma_prefix_pop(t1, t2, g, p);
            let e2 = shift_ends(e, d).drop_last();
            lemma_suffix_bounds_after(t1, e2, p + 1);
            lemma_wf_list_shift(t1, t2, p + 1, current_end(t1, e2), 0);
            lemma_suffix_reframe(t1, t2, e2, p + 1, p + 1, 0);
            assert(shift_ends(e2, 0) =~= e2);
            self.ends@ = e2;
        }
    }
}

/// The lists after the position lie after it.
pub proof fn lemma_suffix_bounds_after<V>(s: Seq<Slot<V>>, e: Seq<int>, p: int)
    requires
        suffix_ok(s, e, p),
    ensures
        p <= current_end(s, e) <= s.len(),
        wf_list(s, p, current_end(s, e)),
{
    if e.len() > 0 {
        lemma_ends_after(s, e, p, e.len() - 1);
    }
    lemma_wf_list_bounds(s, p, current_end(s, e));
}

impl<V> CacheWriter<V> {
    /// Inserts a new state entry for the current scope at the position.
    fn insert_entry(&mut self, var: V)
        requires
            old(self).inv(),
            old(self).scopes().len() > 0,
            old(self).slots().len() + 1 <= u32::MAX,
        ensures
            final(self).inv(),
            final(self).slots() == old(self).slots().insert(
                old(self).position(),
                Slot::Value { call_id: old(self).current_id(), var },
            ),
            final(self).position() == old(self).position(),
            final(self).open_groups() == old(self).open_groups(),
            final(self).scopes() == old(self).scopes(),
            final(self).group_end() == old(self).group_end() + 1,
            final(self).open_ends() == shift_ends(old(self).open_ends(), 1),
    {
        let ghost s = self.slots@;
        let ghost p = self.pos as int;
        let ghost e = self.ends@;
        let ghost end = self.group_end();
        proof {
            self.lemma_current_list();
        }
        let call_id = self.id_stack.current();
        self.slots.insert(self.pos, Slot::Value { call_id, var });
        proof {
            let t = self.slots@;
            assert(forall|k: int| 0 <= k < p ==> t[k] == s[k]);
            assert(forall|k: int| p <= k < s.len() ==> t[k + 1] == s[k]);
            lemma_prefix_frame(s, t, self.group_stack@, p);
            lemma_wf_list_shift(s, t, p, end, 1);
            assert(wf_list(t, p, p + 1)) by {
                reveal(wf_list);
                lemma_wf_list_empty(t, p + 1);
            }
            lemma_wf_list_concat(t, p, p + 1, end + 1);
            lemma_suffix_reframe(s, t, e, p, p, 1);
            self.ends@ = shift_ends(e, 1);
        }
    }

    /// Finds the state entry of the current scope in the current group, or
    /// inserts one made by `init`, at the position; then moves past it.
    /// Returns the entry's position and whether it was inserted.
    pub fn get_or_insert_entry<F: FnOnce() -> V>(&mut self, init: F) -> (r: (usize, bool))
        requires
            old(self).inv(),
            old(self).scopes().len() > 0,
            old(self).slots().len() + 1 <= u32::MAX,
            !(old(self).sync_target() matches Some(f) && old(self).slots()[f] is StartGroup),
            init.requires(()),
        ensures
            final(self).inv(),
            r.0 == old(self).position(),
            r.1 == old(self).sync_target() is None,
            match old(self).sync_target() {
                Some(f) => final(self).slots() == rotated(old(self).slots(), old(self).position(), f, old(self).group_end()),
                None => {
                    &&& final(self).slots() == old(self).slots().insert(old(self).position(), final(self).slots()[old(self).position()])
                    &&& final(self).slots()[old(self).position()] matches Slot::Value { call_id, var }
                    &&& call_id == old(self).current_id()
                    &&& init.ensures((), var)
                },
            },
            final(self).slots()[old(self).position()] is Value,
            final(self).position() == old(self).position() + 1,
            final(self).open_groups() == old(self).open_groups(),
            final(self).scopes() == old(self).scopes(),
    {
        let ghost s = self.slots@;
        let ghost p = self.pos as int;
        let ghost end = self.group_end();
        proof {
            self.lemma_current_list();
            lemma_find_splits(s, p, end, self.current_id());
        }
        let inserted = if self.sync() {
            proof {
                let f = old(self).sync_target()->0;
                assert(self.slots@[p] == s[f]);
                self.lemma_current_list();
                lemma_wf_list_first(self.slots@, p, end);
            }
            false
        } else {
            let var = init();
            self.insert_entry(var);
            proof {
                self.lemma_current_list();
            }
            true
        };
        let at = self.pos;
        proof {
            self.lemma_advance(self.slots@, 1);
        }
        self.pos = self.pos + 1;
        (at, inserted)
    }

    /// A writer over `slots`, at its start, with no scope entered and no group open.
    pub fn open(slots: Vec<Slot<V>>) -> (w: CacheWriter<V>)
        requires
            wf_list(slots@, 0, slots@.len() as int),
            slots@.len() <= u32::MAX,
        ensures
            w.inv(),
            w.slots() == slots@,
            w.position() == 0,
            w.open_groups().len() == 0,
            w.scopes().len() == 0,
    {
        let writer = CacheWriter {
            slots,
            pos: 0,
            id_stack: CallIdStack::new(),
            group_stack: Vec::new(),
            ends: Ghost(Seq::empty()),
        };
        proof {
            lemma_wf_list_empty(writer.slots@, 0);
        }
        writer
    }

    /// Starts a composition over `slots`: enters the root scope at `root` and
    /// opens its group.
    pub fn new(root: &CallSite, slots: Vec<Slot<V>>) -> (w: CacheWriter<V>)
        requires
            wf_list(slots@, 0, slots@.len() as int),
            slots@.len() + 2 <= u32::MAX,
            !(spec_find(slots@, 0, slots@.len() as int, CallId(spec_chain_hash(Seq::empty(), *root, 0))) matches Some(f)
                && slots@[f] is Value),
        ensures
            w.inv(),
            w.position() == 1,
            w.open_groups() == seq![0usize],
            w.scopes() == seq![spec_chain_hash(Seq::empty(), *root, 0)],
            match spec_find(slots@, 0, slots@.len() as int, CallId(spec_chain_hash(Seq::empty(), *root, 0))) {
                Some(f) => w.slots() == rotated(slots@, 0, f, slots@.len() as int),
                None => w.slots() == slots@.insert(
                    0,
                    Slot::StartGroup { call_id: CallId(spec_chain_hash(Seq::empty(), *root, 0)), len: 2 },
                ).insert(1, Slot::EndGroup),
            },
    {
        let mut writer = CacheWriter::open(slots);
        writer.enter_scope(root, 0);
        writer.start_group();
        assert(writer.open_groups() =~= seq![0usize]);
        assert(writer.scopes() =~= seq![spec_chain_hash(Seq::empty(), *root, 0)]);
        writer
    }

    /// Ends the composition: closes the root group and exits the root scope,
    /// and returns the slot table.
    pub fn finish(self) -> (slots: Vec<Slot<V>>)
        requires
            self.inv(),
            self.open_groups().len() == 1,
            self.scopes().len() == 1,
        ensures
            wf_list(slots@, 0, slots@.len() as int),
            slots@ == drained(self.slots(), self.position(), self.group_end()).update(
                self.open_groups()[0] as int,
                with_len(
                    self.slots()[self.open_groups()[0] as int],
                    (self.position() + 1 - self.open_groups()[0]) as u32,
                ),
            ),
    {
        let mut writer = self;
        writer.end_group();
        writer.exit_scope();
        proof {
            lemma_wf_list_concat(writer.slots@, 0, writer.pos as int, writer.slots@.len() as int);
        }
        writer.slots
    }
}

/// What a memoized call does: run its function again, or skip to the end of
/// its group and give back the cached result.
#[derive(Copy, Clone, Debug, PartialEq, Eq, Structural)]
pub enum MemoStep {
    Recompute,
    Reuse,
}

/// A memoized call runs its function again when its arguments changed, or
/// when its cached result was invalidated.
pub fn memoize_step(args_changed: bool, result_dirty: bool) -> (r: MemoStep)
    ensures
        r == (if args_changed || result_dirty {
            MemoStep::Recompute
        } else {
            MemoStep::Reuse
        }),
{
    if args_changed || result_dirty {
        MemoStep::Recompute
    } else {
        MemoStep::Reuse
    }
}

} // verus!

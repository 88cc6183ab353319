//! Identifiers of call sites in a call tree.
use vstd::prelude::*;
use std::collections::hash_map::DefaultHasher;
use std::hash::{Hash, Hasher};

verus! {

/// Identifies a particular call site in a call tree.
#[derive(Clone, Copy, PartialEq, Eq, Hash, Debug)]
pub struct CallId(pub u64);

impl CallId {
    /// Returns the raw value of the identifier.
    pub fn to_u64(&self) -> (v: u64)
        ensures
            v == self.0,
    {
        self.0
    }
}

/// Where a call was made: what `std::panic::Location` reports of it.
#[derive(Clone, Copy, Debug)]
pub struct CallSite {
    pub file: &'static str,
    pub line: u32,
    pub column: u32,
}

/// The hash that `DefaultHasher::new()` computes of the two innermost
/// identifiers of the stack, followed by a call site and an index.
pub uninterp spec fn call_site_hash(
    key0: u64,
    key1: u64,
    file: Seq<char>,
    line: u32,
    column: u32,
    index: usize,
) -> u64;

/// Hashes `key0`, `key1`, then the pair `((file, line, column), index)` with a
/// `std::collections::hash_map::DefaultHasher` made by `new()`, and returns
/// `finish()`.
///
/// Trusted: `DefaultHasher::new()` always starts from the same keys, so the
/// result is the named value `call_site_hash` of the arguments.
#[verifier::external_body]
fn hash_call_site(key0: u64, key1: u64, site: &CallSite, index: usize) -> (h: u64)
    ensures
        h == call_site_hash(key0, key1, site.file@, site.line, site.column, index),
{
    let mut hasher = DefaultHasher::new();
    key0.hash(&mut hasher);
    key1.hash(&mut hasher);
    ((site.file, site.line, site.column), index).hash(&mut hasher);
    hasher.finish()
}

/// The identifier of a scope entered at `site` with `index`, inside the scopes
/// of `stack` (innermost last).
pub open spec fn spec_chain_hash(stack: Seq<u64>, site: CallSite, index: usize) -> u64 {
    let key1 = if stack.len() >= 2 { stack[stack.len() - 2] } else { 0u64 };
    let key0 = if stack.len() >= 1 { stack[stack.len() - 1] } else { 0u64 };
    call_site_hash(key0, key1, site.file@, site.line, site.column, index)
}

/// Stack of identifiers of the scopes entered so far, innermost last.
pub struct CallIdStack(Vec<u64>);

impl View for CallIdStack {
    type V = Seq<u64>;

    closed spec fn view(&self) -> Seq<u64> {
        self.0@
    }
}

impl CallIdStack {
    /// Creates a new empty CallIdStack.
    pub fn new() -> (s: CallIdStack)
        ensures
            s@ == Seq::<u64>::empty(),
    {
        CallIdStack(Vec::new())
    }

    /// The identifier of a scope entered here at `site` with `index`.
    fn chain_hash(&self, site: &CallSite, index: usize) -> (h: u64)
        ensures
            h == spec_chain_hash(self@, *site, index),
    {
        let stacklen = self.0.len();
        let key1 = if stacklen >= 2 {
            self.0[stacklen - 2]
        } else {
            0
        };
        let key0 = if stacklen >= 1 {
            self.0[stacklen - 1]
        } else {
            0
        };
        hash_call_site(key0, key1, site, index)
    }

    /// Enters a scope in the call graph.
    pub fn enter(&mut self, site: &CallSite, index: usize) -> (id: CallId)
        ensures
            id.0 == spec_chain_hash(old(self)@, *site, index),
            final(self)@ == old(self)@.push(id.0),
    {
        let id = self.chain_hash(site, index);
        self.0.push(id);
        CallId(id)
    }

    /// Exits a scope previously entered with `enter`.
    pub fn exit(&mut self)
        ensures
            final(self)@ == (if old(self)@.len() == 0 {
                old(self)@
            } else {
                old(self)@.drop_last()
            }),
    {
        self.0.pop();
    }

    /// Returns the `CallId` of the current scope.
    pub fn current(&self) -> (id: CallId)
        requires
            self@.len() > 0,
        ensures
            id.0 == self@.last(),
    {
        CallId(self.0[self.0.len() - 1])
    }

    /// Returns the number of scopes entered and not exited.
    pub fn depth(&self) -> (n: usize)
        ensures
            n == self@.len(),
    {
        self.0.len()
    }

    /// Returns whether the stack is empty.
    ///
    /// The stack is empty just after creation, and when `enter` and `exit` calls are balanced.
    pub fn is_empty(&self) -> (b: bool)
        ensures
            b == (self@.len() == 0),
    {
        self.0.len() == 0
    }
}

/// Entering a scope makes it the current one, and exiting it afterwards gives
/// back the stack as it was before.
pub proof fn law_enter_exit_balanced(before: Seq<u64>, entered: Seq<u64>, id: CallId, exited: Seq<u64>)
    requires
        entered == before.push(id.0),
        exited == (if entered.len() == 0 { entered } else { entered.drop_last() }),
    ensures
        entered.last() == id.0,
        exited == before,
{
    assert(entered.drop_last() =~= before);
}

/// The two scope identifiers nearest to the top decide the identifier of the
/// next scope: stacks that agree on them give the same identifier for the same
/// call site and index.
pub proof fn law_chain_hash_depends_on_top_two(a: Seq<u64>, b: Seq<u64>, site: CallSite, index: usize)
    requires
        a.len() >= 2,
        b.len() >= 2,
        a.last() == b.last(),
        a[a.len() - 2] == b[b.len() - 2],
    ensures
        spec_chain_hash(a, site, index) == spec_chain_hash(b, site, index),
{
}

/// A call made on a stack of scopes: `enter` of a scope whose identifier is
/// the given one, or `exit`.
#[derive(Copy, Clone, Debug, PartialEq, Eq, Structural)]
pub enum ScopeCall {
    Enter(u64),
    Exit,
}

/// The stack of scopes after the calls `calls`, made in order on `start`:
/// `enter` pushes its identifier, `exit` pops one if there is one.
pub open spec fn replay(start: Seq<u64>, calls: Seq<ScopeCall>) -> Seq<u64>
    decreases calls.len(),
{
    if calls.len() == 0 {
        start
    } else {
        let before = replay(start, calls.drop_last());
        match calls.last() {
            ScopeCall::Enter(h) => before.push(h),
            ScopeCall::Exit => if before.len() == 0 {
                before
            } else {
                before.drop_last()
            },
        }
    }
}

/// The number of `enter` calls in `calls`.
pub open spec fn enter_count(calls: Seq<ScopeCall>) -> int
    decreases calls.len(),
{
    if calls.len() == 0 {
        0
    } else {
        enter_count(calls.drop_last()) + if calls.last() is Enter {
            1int
        } else {
            0int
        }
    }
}

/// The number of `exit` calls in `calls`.
pub open spec fn exit_count(calls: Seq<ScopeCall>) -> int
    decreases calls.len(),
{
    if calls.len() == 0 {
        0
    } else {
        exit_count(calls.drop_last()) + if calls.last() is Exit {
            1int
        } else {
            0int
        }
    }
}

/// No prefix of `calls` exits more scopes than `depth` plus the ones it
/// entered: every `exit` has a scope to leave.
pub open spec fn well_nested(depth: int, calls: Seq<ScopeCall>) -> bool {
    forall|k: int|
        0 <= k <= calls.len() ==> #[trigger] exit_count(calls.take(k)) <= depth + enter_count(
            calls.take(k),
        )
}

/// A history of calls that never leaves a scope it did not enter keeps the
/// scopes it started with, below the ones it entered and did not leave:
/// the stack grows by the number of `enter` calls minus the number of `exit`
/// calls.
pub proof fn law_history_keeps_outer_scopes(start: Seq<u64>, calls: Seq<ScopeCall>)
    requires
        well_nested(0, calls),
    ensures
        replay(start, calls).len() == start.len() + enter_count(calls) - exit_count(calls),
        replay(start, calls).subrange(0, start.len() as int) == start,
    decreases calls.len(),
{
    if calls.len() > 0 {
        let rest = calls.drop_last();
        assert forall|k: int| 0 <= k <= rest.len() implies #[trigger] exit_count(rest.take(k))
            <= 0 + enter_count(rest.take(k)) by {
            assert(rest.take(k) =~= calls.take(k));
            assert(exit_count(calls.take(k)) <= 0 + enter_count(calls.take(k)));
        }
        law_history_keeps_outer_scopes(start, rest);
        assert(calls.take(calls.len() as int) =~= calls);
        assert(exit_count(calls.take(calls.len() as int)) <= 0 + enter_count(
            calls.take(calls.len() as int),
        ));
        let before = replay(start, rest);
        match calls.last() {
            ScopeCall::Enter(h) => {
                assert(before.push(h).subrange(0, start.len() as int) =~= before.subrange(
                    0,
                    start.len() as int,
                ));
            },
            ScopeCall::Exit => {
                assert(before.drop_last().subrange(0, start.len() as int) =~= before.subrange(
                    0,
                    start.len() as int,
                ));
            },
        }
    }
}

/// After a scope is entered, `current` gives its identifier again once every
/// scope entered since has been exited: a balanced history that never leaves
/// a scope it did not enter gives the stack back unchanged.
pub proof fn law_balanced_history_restores(start: Seq<u64>, calls: Seq<ScopeCall>)
    requires
        well_nested(0, calls),
        enter_count(calls) == exit_count(calls),
    ensures
        replay(start, calls) == start,
{
    law_history_keeps_outer_scopes(start, calls);
    assert(replay(start, calls) =~= replay(start, calls).subrange(0, start.len() as int));
}

/// From a new stack, the stack is empty exactly when the history has made as
/// many `exit` calls as `enter` calls (no `exit` having had nothing to leave).
pub proof fn law_empty_when_balanced(calls: Seq<ScopeCall>)
    requires
        well_nested(0, calls),
    ensures
        (replay(Seq::empty(), calls).len() == 0) == (enter_count(calls) == exit_count(calls)),
{
    law_history_keeps_outer_scopes(Seq::empty(), calls);
}

} // verus!

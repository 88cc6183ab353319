# kyute

The core of the kyute GUI toolkit, written in Verus with its behaviour stated
in contracts and proved.

- `src/` is the verified library:
  - `cache`: the positional cache of composition (slot table, groups, values);
  - `call_key`: call-site identifiers and the stack of scopes;
  - `bloom`: the filter that routes events to the subtrees that may hold a target;
  - `env`: layered environments;
  - `model`: lenses, revisions, change descriptions and edits;
  - `gap_buffer`: a gap buffer;
  - `node`: the tree of visual nodes, its links checked against a model of
    ordered sibling lists, and the reconciliation of emitted children with
    the nodes already there; `node::event` holds the focus and bubbling step
    of event delivery;
  - `widget`: the decisions of event routing, hit-testing and hover;
  - `layout::grid`: line resolution and item placement of the grid layout;
  - `live_literal`: line and column positions in a source text, and their
    remapping across edits of the text.
- `app/` is the runtime around it: the thread-local composition cache with its
  dependency tracking, dispatch of callbacks, the source files of live
  literals, box constraints and regions (floating point).
- `tests/` holds the tests.

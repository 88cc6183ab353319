//! Widget identifiers, event results and hit-testing decisions.
use vstd::prelude::*;
use crate::bloom::{Bloom, item_mask};
use crate::call_key::CallId;
use crate::event::PointerEventKind;

verus! {

/// ID of a node in the tree.
#[derive(Clone, Copy, PartialEq, Eq, Hash, Debug)]
pub struct WidgetId(pub CallId);

impl WidgetId {
    /// The widget identified by the call site `call_id`.
    pub fn from_call_id(call_id: CallId) -> (w: WidgetId)
        ensures
            w.0 == call_id,
    {
        WidgetId(call_id)
    }
}

/// Whether an event was handled, and what the widget asks for after it.
#[derive(Copy, Clone, Debug)]
pub struct EventResult {
    pub handled: bool,
    pub relayout: bool,
    pub redraw: bool,
}

/// Outcome of hit-testing a pointer event against a widget.
#[derive(Copy, Clone, Debug, PartialEq, Eq, Structural)]
pub enum HitTestResult {
    Failed,
    Passed,
    Skipped,
}

/// Painting context of a window.
pub struct WindowPaintCtx {}

/// Whether two optional widget identifiers are equal.
fn same_widget(a: Option<WidgetId>, b: Option<WidgetId>) -> (r: bool)
    ensures
        r == (a == b),
{
    match (a, b) {
        (Some(x), Some(y)) => x.0.0 == y.0.0,
        (None, None) => true,
        _ => false,
    }
}

/// The hit-test decision for a pointer event of kind `kind` delivered to the
/// widget `id`, when the widget `pointer_grab` holds the pointer and `inside`
/// tells whether the pointer position falls in the widget's bounds.
///
/// Returns:
/// - Skipped: pointer-out events, and events delivered to the widget that grabs the pointer,
///   are not hit-tested (if the pointer leaves a parent, its children must know it too)
/// - Passed: if the pointer position fell in the bounds
/// - Failed: otherwise
pub fn hit_test(kind: PointerEventKind, id: Option<WidgetId>, pointer_grab: Option<WidgetId>, inside: bool) -> (r: HitTestResult)
    ensures
        r == (if kind == PointerEventKind::PointerOut || (pointer_grab is Some && pointer_grab == id) {
            HitTestResult::Skipped
        } else if inside {
            HitTestResult::Passed
        } else {
            HitTestResult::Failed
        }),
{
    let out = match kind {
        PointerEventKind::PointerOut => true,
        _ => false,
    };
    if out || (pointer_grab.is_some() && same_widget(pointer_grab, id)) {
        HitTestResult::Skipped
    } else if inside {
        HitTestResult::Passed
    } else {
        HitTestResult::Failed
    }
}

/// Whether a widget whose filter of descendants is `child_filter` may contain
/// `widget`: without a filter computed yet, any widget may be a descendant.
pub fn may_contain_child(child_filter: Option<Bloom>, widget: WidgetId) -> (r: bool)
    ensures
        r == match child_filter {
            Some(f) => f.spec_may_contain(widget.0.0),
            None => true,
        },
{
    match child_filter {
        Some(filter) => filter.may_contain(widget.0.0),
        None => true,
    }
}

/// What a widget does with an event routed to `target`.
#[derive(Copy, Clone, Debug, PartialEq, Eq, Structural)]
pub enum RouteDecision {
    /// The widget is the target: the routed event is delivered to it.
    Deliver,
    /// The event was handled already, or the target cannot be among the
    /// widget's descendants: the event stops here.
    Stop,
    /// The target may be a descendant: the event goes on to the children.
    Descend,
}

/// The routing decision for an event aimed at `target`, reaching the widget
/// `id` whose filter of descendants is `child_filter`; `parent_handled` tells
/// whether the event was handled before it reached the widget.
pub fn route_step(parent_handled: bool, target: WidgetId, id: WidgetId, child_filter: Option<Bloom>) -> (r:
    RouteDecision)
    ensures
        r == (if parent_handled {
            RouteDecision::Stop
        } else if target == id {
            RouteDecision::Deliver
        } else if !(match child_filter {
            Some(f) => f.spec_may_contain(target.0.0),
            None => true,
        }) {
            RouteDecision::Stop
        } else {
            RouteDecision::Descend
        }),
{
    if parent_handled {
        RouteDecision::Stop
    } else if target.0.0 == id.0.0 {
        RouteDecision::Deliver
    } else if !may_contain_child(child_filter, target) {
        RouteDecision::Stop
    } else {
        RouteDecision::Descend
    }
}

/// The filter of a widget's subtree: its own identifier, added to the filter
/// that its children built.
pub fn subtree_filter(id: WidgetId, children: &Bloom) -> (f: Bloom)
    ensures
        f.bits() == item_mask(id.0.0) | children.bits(),
{
    let mut filter = Bloom::new();
    filter.add(id.0.0);
    filter.extend(children);
    proof {
        assert(0u64 | item_mask(id.0.0) == item_mask(id.0.0)) by (bit_vector);
    }
    filter
}

/// What an `Initialize` event does to a widget, given whether it and its
/// children were initialized already.
#[derive(Copy, Clone, Debug, PartialEq, Eq, Structural)]
pub enum InitAction {
    /// The widget itself receives `Initialize`.
    Initialize,
    /// Only the children still need it: the initialization is routed to them.
    RouteToChildren,
    /// Everything was initialized already.
    Nothing,
}

/// The initialization step of a widget; afterwards it and its children count
/// as initialized.
pub fn initialize_step(initialized: bool, children_initialized: bool) -> (r: InitAction)
    ensures
        r == (if !initialized {
            InitAction::Initialize
        } else if !children_initialized {
            InitAction::RouteToChildren
        } else {
            InitAction::Nothing
        }),
{
    match (initialized, children_initialized) {
        (false, _) => InitAction::Initialize,
        (true, false) => InitAction::RouteToChildren,
        _ => InitAction::Nothing,
    }
}

/// What happens when a pointer event reaches a widget.
#[derive(Copy, Clone, Debug, PartialEq, Eq, Structural)]
pub struct HoverOutcome {
    /// Whether the pointer is over the widget afterwards.
    pub pointer_over: bool,
    /// The hover-change event sent to the widget first, if any.
    pub notify: Option<PointerEventKind>,
    /// Whether the pointer event goes on to the widget.
    pub deliver: bool,
}

/// The notification sent to a widget that was hovered (`pointer_over`) or not,
/// when the pointer hits it or not.
pub open spec fn spec_hover_notify(pointer_over: bool, hit: bool) -> Option<PointerEventKind> {
    if hit && !pointer_over {
        Some(PointerEventKind::PointerOver)
    } else if !hit && pointer_over {
        Some(PointerEventKind::PointerOut)
    } else {
        None
    }
}

/// The hover step of a widget: the pointer hits the widget when it falls in
/// the widget's bounds (`inside`) or when the widget holds the pointer grab
/// (`grabbed`). Entering sends `PointerOver`, leaving sends `PointerOut`, and
/// a pointer that misses the widget does not reach it.
pub fn pointer_hover_step(pointer_over: bool, inside: bool, grabbed: bool) -> (r: HoverOutcome)
    ensures
        r.pointer_over == (inside || grabbed),
        r.deliver == (inside || grabbed),
        r.notify == spec_hover_notify(pointer_over, inside || grabbed),
{
    if !inside && !grabbed {
        // pointer hit-test fail; if we were hovering the widget, send pointerout
        let notify = if pointer_over {
            Some(PointerEventKind::PointerOut)
        } else {
            None
        };
        HoverOutcome { pointer_over: false, notify, deliver: false }
    } else {
        // pointer hit-test pass; send pointerover
        let notify = if !pointer_over {
            Some(PointerEventKind::PointerOver)
        } else {
            None
        };
        HoverOutcome { pointer_over: true, notify, deliver: true }
    }
}

/// A widget is told once that the pointer entered it and once that it left:
/// after a step, another step with the same hit result sends nothing, and the
/// notification goes by the change of the hit result.
pub proof fn law_hover_notifies_on_change(pointer_over: bool, hit: bool)
    ensures
        spec_hover_notify(hit, hit) is None,
        spec_hover_notify(pointer_over, hit) is Some <==> pointer_over != hit,
        spec_hover_notify(false, true) == Some(PointerEventKind::PointerOver),
        spec_hover_notify(true, false) == Some(PointerEventKind::PointerOut),
{
}

/// A widget's subtree filter lets its own identifier pass, and every
/// identifier that its children's filter lets pass.
pub proof fn law_subtree_filter_covers(id: WidgetId, children: Bloom, subtree: Bloom, other: u64)
    requires
        subtree.bits() == item_mask(id.0.0) | children.bits(),
    ensures
        subtree.spec_may_contain(id.0.0),
        children.spec_may_contain(other) ==> subtree.spec_may_contain(other),
{
    let m = item_mask(id.0.0);
    let c = children.bits();
    assert((m | c) & m == m) by (bit_vector);
    let o = item_mask(other);
    assert(c & o == o ==> (m | c) & o == o) by (bit_vector);
}

} // verus!

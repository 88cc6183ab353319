//! Requests exchanged while events are delivered to nodes.
use vstd::prelude::*;
use crate::event::MoveFocusDirection;
use crate::node::NodeId;

verus! {

/// What a node asks for after an event was delivered to it.
#[derive(Copy, Clone, Debug, PartialEq, Eq, PartialOrd, Ord)]
pub enum RepaintRequest {
    /// Do nothing
    Nothing,
    /// Repaint the widgets
    Repaint,
    /// Relayout and repaint the widgets
    Relayout,
}

/// How the focus changes after an event.
#[derive(Copy, Clone, Debug, PartialEq, Eq, Hash)]
pub enum FocusChange {
    /// Keep the focus, or do nothing if the node does not have it.
    Keep,
    /// Acquire focus, if the node does not have it already
    Acquire,
    /// Release the focus, if the node has it
    Release,
    /// Move the focus.
    Move(MoveFocusDirection),
}

/// The focus events that the delivery of an event gives rise to.
#[derive(Copy, Clone, Debug, PartialEq, Eq, Structural, Hash)]
pub enum FocusEventKind {
    FocusIn,
    FocusOut,
}

/// The larger of two repaint requests: relayout over repaint over nothing.
pub fn merge_repaint(a: RepaintRequest, b: RepaintRequest) -> (r: RepaintRequest)
    ensures
        r == (if a == RepaintRequest::Relayout || b == RepaintRequest::Relayout {
            RepaintRequest::Relayout
        } else if a == RepaintRequest::Repaint || b == RepaintRequest::Repaint {
            RepaintRequest::Repaint
        } else {
            RepaintRequest::Nothing
        }),
{
    match (a, b) {
        (RepaintRequest::Relayout, _) | (_, RepaintRequest::Relayout) => RepaintRequest::Relayout,
        (RepaintRequest::Repaint, _) | (_, RepaintRequest::Repaint) => RepaintRequest::Repaint,
        _ => RepaintRequest::Nothing,
    }
}

/// One step of the delivery of an event to node `id` and up its ancestors,
/// once the node has handled it: `change`, `handled` and `capture` are what
/// the node asked for, `bubble` whether the event goes up, and `parent` the
/// node's parent.
///
/// Returns the new focus, the new pointer grab, the focus events to send
/// (in order: the focus moves to `id` between the two), the node that
/// handled the event if this one did, and the node to deliver the event to
/// next, if any.
pub fn dispatch_step(
    focus: Option<NodeId>,
    grab: Option<NodeId>,
    id: NodeId,
    change: FocusChange,
    handled: bool,
    capture: bool,
    bubble: bool,
    parent: Option<NodeId>,
) -> (r: (Option<NodeId>, Option<NodeId>, Vec<(FocusEventKind, NodeId)>, Option<NodeId>, Option<NodeId>))
    requires
        !(change is Move),
    ensures
        change == FocusChange::Acquire && focus != Some(id) ==> {
            &&& r.0 == Some(id)
            &&& r.2@ == match focus {
                Some(old) => seq![(FocusEventKind::FocusOut, old), (FocusEventKind::FocusIn, id)],
                None => seq![(FocusEventKind::FocusIn, id)],
            }
        },
        change == FocusChange::Release && focus == Some(id) ==> r.0 is None && r.2@ == seq![
            (FocusEventKind::FocusOut, id),
        ],
        !(change == FocusChange::Acquire && focus != Some(id)) && !(change == FocusChange::Release
            && focus == Some(id)) ==> r.0 == focus && r.2@.len() == 0,
        r.1 == (if capture {
            Some(id)
        } else {
            grab
        }),
        r.3 == (if handled {
            Some(id)
        } else {
            None
        }),
        r.4 == (if !bubble || handled {
            None
        } else {
            parent
        }),
{
    let mut sends: Vec<(FocusEventKind, NodeId)> = Vec::new();
    let is_focused = match focus {
        Some(f) => f == id,
        None => false,
    };
    let new_focus = match change {
        FocusChange::Acquire => {
            if !is_focused {
                if let Some(old) = focus {
                    sends.push((FocusEventKind::FocusOut, old));
                }
                sends.push((FocusEventKind::FocusIn, id));
                Some(id)
            } else {
                focus
            }
        },
        FocusChange::Release => {
            if is_focused {
                sends.push((FocusEventKind::FocusOut, id));
                None
            } else {
                focus
            }
        },
        _ => focus,
    };
    let new_grab = if capture {
        Some(id)
    } else {
        grab
    };
    let handled_by = if handled {
        Some(id)
    } else {
        None
    };
    let next = if !bubble || handled {
        None
    } else {
        parent
    };
    (new_focus, new_grab, sends, handled_by, next)
}

} // verus!

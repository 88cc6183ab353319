use kyute::bloom::Bloom;
use kyute::call_key::CallId;
use kyute::event::PointerEventKind;
use kyute::widget::{
    hit_test, initialize_step, may_contain_child, pointer_hover_step, route_step, subtree_filter, HitTestResult,
    InitAction, RouteDecision, WidgetId,
};

fn w(id: u64) -> WidgetId {
    WidgetId(CallId(id))
}

#[test]
fn hit_test_decisions() {
    assert_eq!(hit_test(PointerEventKind::PointerOut, Some(w(1)), None, false), HitTestResult::Skipped);
    assert_eq!(hit_test(PointerEventKind::PointerMove, Some(w(1)), Some(w(1)), false), HitTestResult::Skipped);
    assert_eq!(hit_test(PointerEventKind::PointerMove, Some(w(1)), Some(w(2)), true), HitTestResult::Passed);
    assert_eq!(hit_test(PointerEventKind::PointerDown, None, None, false), HitTestResult::Failed);
    // no grab: a widget without id is hit-tested
    assert_eq!(hit_test(PointerEventKind::PointerDown, None, None, true), HitTestResult::Passed);
}

#[test]
fn routing_decisions() {
    let mut children = Bloom::new();
    children.add(7);
    assert_eq!(route_step(false, w(3), w(3), Some(children)), RouteDecision::Deliver);
    assert_eq!(route_step(false, w(7), w(3), Some(children)), RouteDecision::Descend);
    assert_eq!(route_step(false, w(7), w(3), None), RouteDecision::Descend);
    assert_eq!(route_step(false, w(7), w(3), Some(Bloom::new())), RouteDecision::Stop);
    // an event handled already goes no further, not even to its target
    assert_eq!(route_step(true, w(3), w(3), Some(children)), RouteDecision::Stop);
    assert_eq!(route_step(true, w(7), w(3), None), RouteDecision::Stop);
    assert!(may_contain_child(None, w(1)));
    assert!(!may_contain_child(Some(Bloom::new()), w(1)));
}

#[test]
fn subtree_filter_covers_self_and_children() {
    let mut children = Bloom::new();
    children.add(10);
    children.add(11);
    let f = subtree_filter(w(1), &children);
    assert!(f.may_contain(1));
    assert!(f.may_contain(10));
    assert!(f.may_contain(11));
}

#[test]
fn initialization_steps() {
    assert_eq!(initialize_step(false, false), InitAction::Initialize);
    assert_eq!(initialize_step(false, true), InitAction::Initialize);
    assert_eq!(initialize_step(true, false), InitAction::RouteToChildren);
    assert_eq!(initialize_step(true, true), InitAction::Nothing);
}

#[test]
fn hover_steps() {
    let enter = pointer_hover_step(false, true, false);
    assert!(enter.pointer_over && enter.deliver);
    assert_eq!(enter.notify, Some(PointerEventKind::PointerOver));
    let stay = pointer_hover_step(true, true, false);
    assert_eq!(stay.notify, None);
    assert!(stay.deliver);
    let leave = pointer_hover_step(true, false, false);
    assert!(!leave.pointer_over && !leave.deliver);
    assert_eq!(leave.notify, Some(PointerEventKind::PointerOut));
    let away = pointer_hover_step(false, false, false);
    assert_eq!(away.notify, None);
    assert!(!away.deliver);
    // a grabbing widget receives the pointer outside its bounds
    let grabbed = pointer_hover_step(true, false, true);
    assert!(grabbed.deliver);
    assert_eq!(grabbed.notify, None);
}

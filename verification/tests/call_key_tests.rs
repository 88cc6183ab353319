use kyute::call_key::{CallId, CallIdStack, CallSite};
use kyute::widget::WidgetId;

const A: CallSite = CallSite { file: "a.rs", line: 3, column: 7 };
const B: CallSite = CallSite { file: "b.rs", line: 9, column: 1 };

#[test]
fn call_id_exposes_its_value() {
    assert_eq!(CallId(42).to_u64(), 42);
    assert_eq!(WidgetId::from_call_id(CallId(5)).0, CallId(5));
}

#[test]
fn new_stack_is_empty() {
    let s = CallIdStack::new();
    assert!(s.is_empty());
}

#[test]
fn enter_makes_current_and_exit_balances() {
    let mut s = CallIdStack::new();
    let id = s.enter(&A, 0);
    assert!(!s.is_empty());
    assert_eq!(s.current(), id);
    let inner = s.enter(&B, 1);
    assert_eq!(s.current(), inner);
    s.exit();
    assert_eq!(s.current(), id);
    s.exit();
    assert!(s.is_empty());
    // exiting an empty stack keeps it empty
    s.exit();
    assert!(s.is_empty());
}

#[test]
fn same_site_same_parents_same_id() {
    let mut s1 = CallIdStack::new();
    let mut s2 = CallIdStack::new();
    assert_eq!(s1.enter(&A, 0), s2.enter(&A, 0));
    assert_eq!(s1.enter(&B, 3), s2.enter(&B, 3));
}

#[test]
fn index_and_site_distinguish_ids() {
    let mut s = CallIdStack::new();
    let a0 = s.enter(&A, 0);
    s.exit();
    let a1 = s.enter(&A, 1);
    s.exit();
    let b0 = s.enter(&B, 0);
    s.exit();
    assert_ne!(a0, a1);
    assert_ne!(a0, b0);
}

#[test]
fn parent_scopes_change_ids() {
    let mut s = CallIdStack::new();
    let top = s.enter(&A, 0);
    s.exit();
    s.enter(&B, 0);
    let nested = s.enter(&A, 0);
    assert_ne!(top, nested);
}

#[test]
fn balanced_history_gives_back_the_entered_scope() {
    let mut s = CallIdStack::new();
    let outer = s.enter(&A, 0);
    // a balanced history: enter, enter, exit, enter, exit, exit
    s.enter(&B, 0);
    s.enter(&A, 1);
    s.exit();
    s.enter(&B, 2);
    s.exit();
    s.exit();
    assert_eq!(s.current(), outer);
    s.exit();
    assert!(s.is_empty());
}

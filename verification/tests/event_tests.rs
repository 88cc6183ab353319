use kyute::event::{PointerButton, PointerButtons};

#[test]
fn new_and_default_have_no_buttons() {
    assert!(PointerButtons::new().is_empty());
    assert!(PointerButtons::default().is_empty());
    assert_eq!(PointerButtons::all().0, 0xFFFF_FFFF);
}

#[test]
fn button_constants() {
    assert_eq!(PointerButton::left().0, 0);
    assert_eq!(PointerButton::middle().0, 1);
    assert_eq!(PointerButton::right().0, 2);
    assert_eq!(PointerButton::x1().0, 3);
    assert_eq!(PointerButton::x2().0, 4);
}

#[test]
fn with_sets_the_button_bit() {
    let b = PointerButtons::new().with(PointerButton::right());
    assert_eq!(b.0, 0b100);
    assert!(b.test(PointerButton::right()));
    assert!(!b.test(PointerButton::left()));
}

#[test]
fn set_and_reset() {
    let mut b = PointerButtons::new();
    b.set(PointerButton::left());
    b.set(PointerButton::x2());
    assert_eq!(b.0, 0b10001);
    assert!(b.test(PointerButton::x2()));
    b.reset(PointerButton::left());
    assert!(!b.test(PointerButton::left()));
    assert!(b.test(PointerButton::x2()));
    b.reset(PointerButton::x2());
    assert!(b.is_empty());
}

#[test]
fn intersects_checks_common_buttons() {
    let a = PointerButtons(0b0110);
    assert!(a.intersects(PointerButtons(0b0100)));
    assert!(!a.intersects(PointerButtons(0b1001)));
    assert!(a.intersects(PointerButtons::all()));
}

#[test]
fn highest_button() {
    let b = PointerButtons::new().with(PointerButton(31));
    assert_eq!(b.0, 1 << 31);
}

//! Input event types and the state of pointer buttons.
use vstd::prelude::*;

verus! {

/// Represents the type of pointer.
#[derive(Copy, Clone, Debug, PartialEq, Eq, Hash)]
pub enum PointerType {
    Mouse,
    Pen,
    Stylus,
    Other,
}

/// Represents a pointer button.
#[derive(Copy, Clone, Debug, PartialEq, Eq, Hash)]
pub struct PointerButton(pub u16);

impl PointerButton {
    /// Left button, or touch / pen contact.
    pub fn left() -> (b: PointerButton)
        ensures
            b.0 == 0,
    {
        PointerButton(0)
    }

    /// Middle button.
    pub fn middle() -> (b: PointerButton)
        ensures
            b.0 == 1,
    {
        PointerButton(1)
    }

    /// Right button, or pen barrel.
    pub fn right() -> (b: PointerButton)
        ensures
            b.0 == 2,
    {
        PointerButton(2)
    }

    /// First extra button.
    pub fn x1() -> (b: PointerButton)
        ensures
            b.0 == 3,
    {
        PointerButton(3)
    }

    /// Second extra button.
    pub fn x2() -> (b: PointerButton)
        ensures
            b.0 == 4,
    {
        PointerButton(4)
    }
}

/// Whether bit `i` of `bits` is set.
pub open spec fn bit_set(bits: u32, i: u32) -> bool {
    (bits >> i) & 1u32 == 1u32
}

/// The mask of a single button.
pub open spec fn button_mask(button: PointerButton) -> u32 {
    1u32 << (button.0 as u32)
}

/// The state of the mouse buttons: bit `i` is set when button `i` is pressed.
#[derive(Copy, Clone, Debug, PartialEq, Eq, Hash)]
pub struct PointerButtons(pub u32);

impl PointerButtons {
    /// All buttons pressed.
    pub fn all() -> (b: PointerButtons)
        ensures
            b.0 == 0xFFFF_FFFFu32,
    {
        PointerButtons(0xFFFF_FFFF)
    }

    /// No button pressed.
    pub fn new() -> (b: PointerButtons)
        ensures
            b.0 == 0,
    {
        PointerButtons(0)
    }

    /// These buttons, and `button` pressed too.
    pub fn with(self, button: PointerButton) -> (b: PointerButtons)
        requires
            button.0 < 32,
        ensures
            b.0 == self.0 | button_mask(button),
    {
        PointerButtons(self.0 | (1u32 << (button.0 as u32)))
    }

    /// Checks if the specified mouse button is pressed.
    pub fn test(self, button: PointerButton) -> (r: bool)
        requires
            button.0 < 32,
        ensures
            r == (self.0 & button_mask(button) != 0),
    {
        self.0 & (1u32 << (button.0 as u32)) != 0
    }

    /// Marks `button` as pressed.
    pub fn set(&mut self, button: PointerButton)
        requires
            button.0 < 32,
        ensures
            final(self).0 == old(self).0 | button_mask(button),
    {
        self.0 = self.0 | (1u32 << (button.0 as u32));
    }

    /// Marks `button` as released.
    pub fn reset(&mut self, button: PointerButton)
        requires
            button.0 < 32,
        ensures
            final(self).0 == old(self).0 & !button_mask(button),
    {
        self.0 = self.0 & !(1u32 << (button.0 as u32));
    }

    /// Whether any of `buttons` is pressed here.
    pub fn intersects(&self, buttons: PointerButtons) -> (r: bool)
        ensures
            r == (self.0 & buttons.0 != 0),
    {
        (self.0 & buttons.0) != 0
    }

    /// Whether no button is pressed.
    pub fn is_empty(&self) -> (r: bool)
        ensures
            r == (self.0 == 0),
    {
        self.0 == 0
    }

    /// No button pressed.
    pub fn default() -> (b: PointerButtons)
        ensures
            b.0 == 0,
    {
        PointerButtons::new()
    }
}

/// The mask of button `i` has bit `i` set and no other.
pub proof fn lemma_button_mask_bits(b: u32, j: u32)
    requires
        b < 32,
        j < 32,
    ensures
        bit_set(1u32 << b, j) == (j == b),
{
    assert(bit_set(1u32 << b, j) == (j == b)) by (bit_vector)
        requires
            b < 32,
            j < 32,
    ;
}

/// A button that was pressed with `set` (or added with `with`) tests as
/// pressed, and pressing it leaves every other button as it was.
pub proof fn law_set_then_test(before: PointerButtons, after: PointerButtons, button: PointerButton, other: u32)
    requires
        button.0 < 32,
        other < 32,
        after.0 == before.0 | button_mask(button),
    ensures
        after.0 & button_mask(button) != 0,
        other != button.0 ==> bit_set(after.0, other) == bit_set(before.0, other),
{
    let x = before.0;
    let b = button.0 as u32;
    assert((x | (1u32 << b)) & (1u32 << b) != 0) by (bit_vector)
        requires
            b < 32,
    ;
    assert(other != b ==> (((x | (1u32 << b)) >> other) & 1u32 == 1u32) == ((x >> other) & 1u32 == 1u32))
        by (bit_vector)
        requires
            b < 32,
            other < 32,
    ;
}

/// A button that was released with `reset` tests as released, and releasing it
/// leaves every other button as it was.
pub proof fn law_reset_then_test(before: PointerButtons, after: PointerButtons, button: PointerButton, other: u32)
    requires
        button.0 < 32,
        other < 32,
        after.0 == before.0 & !button_mask(button),
    ensures
        after.0 & button_mask(button) == 0,
        other != button.0 ==> bit_set(after.0, other) == bit_set(before.0, other),
{
    let x = before.0;
    let b = button.0 as u32;
    assert((x & !(1u32 << b)) & (1u32 << b) == 0) by (bit_vector)
        requires
            b < 32,
    ;
    assert(other != b ==> (((x & !(1u32 << b)) >> other) & 1u32 == 1u32) == ((x >> other) & 1u32 == 1u32))
        by (bit_vector)
        requires
            b < 32,
            other < 32,
    ;
}

/// A button is pressed exactly when its own bit is set.
pub proof fn law_test_reads_bit(buttons: PointerButtons, button: PointerButton)
    requires
        button.0 < 32,
    ensures
        (buttons.0 & button_mask(button) != 0) == bit_set(buttons.0, button.0 as u32),
{
    let x = buttons.0;
    let b = button.0 as u32;
    assert((x & (1u32 << b) != 0) == ((x >> b) & 1u32 == 1u32)) by (bit_vector)
        requires
            b < 32,
    ;
}

/// Kinds of pointer events.
#[derive(Copy, Clone, Debug, PartialEq, Eq, Hash, Structural)]
pub enum PointerEventKind {
    PointerDown,
    PointerUp,
    PointerMove,
    PointerOver,
    PointerOut,
}

/// Unit of the deltas of a wheel event.
#[derive(Copy, Clone, Debug, PartialEq, Eq, Hash)]
pub enum WheelDeltaMode {
    Pixel,
    Line,
    Page,
}

/// A character typed on the keyboard.
#[derive(Copy, Clone, Debug, PartialEq, Eq, Hash)]
pub struct InputEvent {
    pub character: char,
}

/// Direction in which the focus moves.
#[derive(Copy, Clone, Debug, PartialEq, Eq, Hash)]
pub enum MoveFocusDirection {
    Before,
    After,
}

} // verus!

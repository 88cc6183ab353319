//! States of the standard controls, as the renderer draws them.
use vstd::prelude::*;

verus! {

/// Represents the state of a button.
#[derive(Copy, Clone, Debug, PartialEq, Eq, Hash)]
pub struct ButtonState {
    pub disabled: bool,
    pub clicked: bool,
    pub hot: bool,
}

/// State of a text element.
#[derive(Copy, Clone, Debug, PartialEq, Eq, Hash)]
pub enum TextState {
    Default,
    Disabled,
}

/// Tri-state checkbox state.
#[derive(Copy, Clone, Debug, PartialEq, Eq, Hash)]
pub enum CheckBoxState {
    Unchecked,
    PartiallyChecked,
    Checked,
}

/// Options of a checkbox.
#[derive(Copy, Clone, Debug, PartialEq, Eq, Hash)]
pub struct CheckBoxOptions {
    enabled: bool,
    state: CheckBoxState,
}

} // verus!

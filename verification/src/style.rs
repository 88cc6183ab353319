//! Style values.
use vstd::prelude::*;

verus! {

/// Unit of length: device-independent pixel.
pub struct Dip;

/// A style value: a constant, or an expression that evaluates to one.
#[derive(Clone, Debug)]
pub enum Value<T> {
    /// Constant
    Constant(T),
    /// Expression that evaluates to a value of type `T`.
    Expr(String),
}

/// How a layer blends with what lies below it.
#[derive(Copy, Clone, Debug, PartialEq, Eq, Hash)]
pub enum BlendMode {
    Normal,
    Multiply,
    Screen,
    Overlay,
}

/// Shape of a gradient.
#[derive(Copy, Clone, Debug, PartialEq, Eq, Hash)]
pub enum GradientType {
    Linear,
    Radial,
}

/// Index of a color in a palette.
#[derive(Copy, Clone, Debug, PartialEq, Eq, PartialOrd, Ord, Hash)]
pub struct PaletteIndex(pub u32);

} // verus!

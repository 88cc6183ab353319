//! Drawing options.
use vstd::prelude::*;

verus! {

/// Style of a border line.
#[derive(Copy, Clone, Debug, PartialEq, Eq, PartialOrd, Ord, Hash)]
pub enum BorderStyle {
    Solid,
    Dotted,
    Dashed,
}

impl Default for BorderStyle {
    fn default() -> (s: BorderStyle)
        ensures
            s == BorderStyle::Solid,
    {
        BorderStyle::Solid
    }
}

/// Describes a blending mode.
#[derive(Copy, Clone, Debug, PartialEq, Eq, PartialOrd, Ord, Hash)]
pub enum BlendMode {
    Clear,
    Src,
    Dst,
    SrcOver,
    DstOver,
    SrcIn,
    DstIn,
    SrcOut,
    DstOut,
    SrcATop,
    DstATop,
    Xor,
    Plus,
    Modulate,
    Screen,
    Overlay,
    Darken,
    Lighten,
    ColorDodge,
    ColorBurn,
    HardLight,
    SoftLight,
    Difference,
    Exclusion,
    Multiply,
    Hue,
    Saturation,
    Color,
    Luminosity,
}

/// List of all path commands.
#[derive(Clone, Copy, PartialEq, Debug)]
pub enum PathCommand {
    MoveTo,
    LineTo,
    HorizontalLineTo,
    VerticalLineTo,
    CurveTo,
    SmoothCurveTo,
    Quadratic,
    SmoothQuadratic,
    EllipticalArc,
}

} // verus!

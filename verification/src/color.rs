//! Pens: the (layer, color) pairs strokes are tagged with, and the
//! color-mode strategy that assigns a pen to each emitted line.

use vstd::prelude::*;

verus! {

/// A named plotter color.
#[derive(Clone, Copy, PartialEq, Eq, Structural, Debug)]
pub enum Ink {
    Red,
    DarkRed,
    Gold,
    /// A gray level, `0` black to `255` white.
    Gray(u8),
}

/// A pen: an output layer paired with a color.
#[derive(Clone, Copy, PartialEq, Eq, Structural, Debug)]
pub struct Pen {
    pub layer: usize,
    pub color: Ink,
}

/// The color strategy of a flow-field pass: one constant pen for every
/// line, or a weighted random choice between two pens drawn once per
/// emitted line.
#[derive(Clone, Copy, PartialEq, Eq, Structural, Debug)]
pub enum ColorMode {
    Fixed(Pen),
    Gradient(Pen, Pen),
}

/// The pen a line gets: the constant pen of a `Fixed` mode, or the
/// first pen of a `Gradient` mode exactly when the line's weighted
/// draw came up true.
pub open spec fn line_pen_spec(mode: ColorMode, pick: bool) -> Pen {
    match mode {
        ColorMode::Fixed(pen) => pen,
        ColorMode::Gradient(first, second) => if pick {
            first
        } else {
            second
        },
    }
}

/// Assigns a pen to one line.  A `Fixed` mode ignores the draw.
pub fn line_pen(mode: &ColorMode, pick: bool) -> (pen: Pen)
    ensures
        pen == line_pen_spec(*mode, pick),
{
    match mode {
        ColorMode::Fixed(pen) => *pen,
        ColorMode::Gradient(first, second) => if pick {
            *first
        } else {
            *second
        },
    }
}

/// Whether the mode consumes one weighted draw per line.  A `Fixed`
/// mode consumes no randomness at all.
pub fn color_pick_needed(mode: &ColorMode) -> (need: bool)
    ensures
        need == (mode matches ColorMode::Gradient(_, _)),
{
    match mode {
        ColorMode::Fixed(_) => false,
        ColorMode::Gradient(_, _) => true,
    }
}

} // verus!

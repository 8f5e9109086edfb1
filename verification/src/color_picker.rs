//! Interaction state for the color-picker widgets. The widgets themselves
//! (drawing, hit testing, HSV geometry) belong to the presentation layer;
//! the core only tracks whether a drag is in progress.

use vstd::prelude::*;

verus! {

/// Drag state of the two-dimensional saturation/value picker.
#[derive(Debug, Clone, Copy, PartialEq, Eq, Structural)]
pub struct ColorPickerState {
    pub is_dragging: bool,
}

impl Default for ColorPickerState {
    /// No drag is in progress initially.
    fn default() -> (s: ColorPickerState)
        ensures
            !s.is_dragging,
    {
        ColorPickerState { is_dragging: false }
    }
}

/// Drag state of the hue slider.
#[derive(Debug, Clone, Copy, PartialEq, Eq, Structural)]
pub struct HueSliderState {
    pub is_dragging: bool,
}

impl Default for HueSliderState {
    /// No drag is in progress initially.
    fn default() -> (s: HueSliderState)
        ensures
            !s.is_dragging,
    {
        HueSliderState { is_dragging: false }
    }
}

} // verus!

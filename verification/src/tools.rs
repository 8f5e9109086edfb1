//! Tool settings: the active tool and brush parameters that the engine
//! samples at the start of each stroke.

use vstd::prelude::*;
use crate::color::Color;

verus! {

/// The active drawing tool. Erasing is overpainting with the canvas
/// background color, a deliberate approximation: true alpha subtraction is
/// not implemented.
#[derive(Clone, Copy, Debug, PartialEq, Eq, Structural)]
pub enum Tool {
    Pen,
    Eraser,
}

impl Default for Tool {
    /// The pen is the initial tool.
    fn default() -> (t: Tool)
        ensures
            t == Tool::Pen,
    {
        Tool::Pen
    }
}

/// The current tool selection and brush parameters. Brush size is a diameter
/// in pixels, clamped to 1..=200 by its setter; opacity maps 0..=255 onto
/// [0, 1].
#[derive(Clone, Debug)]
pub struct ToolSettings {
    pub current_tool: Tool,
    pub brush_size: u32,
    pub brush_opacity: u8,
    pub brush_color: Color,
    pub background_color: Color,
}

/// A brush size forced into the 1..=200 range the toolbar offers.
pub open spec fn clamped_brush_size(s: int) -> int {
    if s < 1 {
        1
    } else if s > 200 {
        200
    } else {
        s
    }
}

impl ToolSettings {
    /// The color a stroke started now would freeze: the brush color with the
    /// configured opacity for the pen, the background color for the eraser.
    pub open spec fn current_color_spec(self) -> Color {
        match self.current_tool {
            Tool::Pen => Color {
                r: self.brush_color.r,
                g: self.brush_color.g,
                b: self.brush_color.b,
                a: self.brush_opacity,
            },
            Tool::Eraser => self.background_color,
        }
    }

    /// Selects the active tool.
    pub fn set_tool(&mut self, tool: Tool)
        ensures
            *final(self) == (ToolSettings { current_tool: tool, ..*old(self) }),
    {
        self.current_tool = tool;
    }

    /// Sets the brush size, clamped to 1..=200.
    pub fn set_brush_size(&mut self, size: u32)
        ensures
            final(self).brush_size as int == clamped_brush_size(size as int),
            *final(self) == (ToolSettings { brush_size: final(self).brush_size, ..*old(self) }),
    {
        self.brush_size = if size < 1 {
            1
        } else if size > 200 {
            200
        } else {
            size
        };
    }

    /// Sets the brush opacity; the whole 0..=255 range is valid.
    pub fn set_brush_opacity(&mut self, opacity: u8)
        ensures
            *final(self) == (ToolSettings { brush_opacity: opacity, ..*old(self) }),
    {
        self.brush_opacity = opacity;
    }

    /// Sets the brush color.
    pub fn set_brush_color(&mut self, color: Color)
        ensures
            *final(self) == (ToolSettings { brush_color: color, ..*old(self) }),
    {
        self.brush_color = color;
    }

    /// The color a stroke started now would freeze.
    pub fn get_current_color(&self) -> (c: Color)
        ensures
            c == self.current_color_spec(),
    {
        match self.current_tool {
            Tool::Pen => Color {
                r: self.brush_color.r,
                g: self.brush_color.g,
                b: self.brush_color.b,
                a: self.brush_opacity,
            },
            Tool::Eraser => self.background_color,
        }
    }

    /// Whether the eraser is the active tool.
    pub fn is_eraser(&self) -> (r: bool)
        ensures
            r == (self.current_tool == Tool::Eraser),
    {
        self.current_tool == Tool::Eraser
    }
}

impl Default for ToolSettings {
    /// A pen of size 10, fully opaque black, over a white background.
    fn default() -> (t: ToolSettings)
        ensures
            t == (ToolSettings {
                current_tool: Tool::Pen,
                brush_size: 10,
                brush_opacity: 255,
                brush_color: Color { r: 0, g: 0, b: 0, a: 255 },
                background_color: Color { r: 255, g: 255, b: 255, a: 255 },
            }),
    {
        ToolSettings {
            current_tool: Tool::Pen,
            brush_size: 10,
            brush_opacity: 255,
            brush_color: Color::black(),
            background_color: Color::white(),
        }
    }
}

} // verus!

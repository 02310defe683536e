//! The colours of the light and the dark theme.
use vstd::prelude::*;

use crate::color::Color;

verus! {

/// Theme colours.
#[derive(Copy, Clone, Debug, PartialEq, Eq, Structural)]
pub struct Colors {
    /// Window and application background.
    pub background: Color,
    /// Main text.
    pub text: Color,
    /// Secondary text (placeholders, disabled state).
    pub text_secondary: Color,
    /// Main accent (buttons, links, focus border).
    pub primary: Color,
    /// Main accent under the pointer.
    pub primary_hover: Color,
    /// Borders.
    pub border: Color,
    /// Input field background.
    pub input_background: Color,
    /// Button background.
    pub button_background: Color,
    /// Button background under the pointer.
    pub button_hover_background: Color,
    /// Button text.
    pub button_text: Color,
}

impl Colors {
    /// The light palette: white background, black text, blue accent, grey
    /// borders and buttons.
    pub fn light() -> (c: Self)
        ensures
            c.background.packed() == 0xFFFFFFFF,
            c.text.packed() == 0x000000FF,
            c.text_secondary.packed() == 0xA0A0A0FF,
            c.primary.packed() == 0x0078D4FF,
            c.primary_hover.packed() == 0x0064C0FF,
            c.border.packed() == 0xC8C8C8FF,
            c.input_background.packed() == 0xFFFFFFFF,
            c.button_background.packed() == 0xE6E6E6FF,
            c.button_hover_background.packed() == 0xD2D2D2FF,
            c.button_text.packed() == 0x000000FF,
    {
        Colors {
            background: Color::white(),
            text: Color::black(),
            text_secondary: Color::rgba(160, 160, 160, 255),
            primary: Color::rgba(0, 120, 212, 255),
            primary_hover: Color::rgba(0, 100, 192, 255),
            border: Color::rgba(200, 200, 200, 255),
            input_background: Color::white(),
            button_background: Color::rgba(230, 230, 230, 255),
            button_hover_background: Color::rgba(210, 210, 210, 255),
            button_text: Color::black(),
        }
    }

    /// The dark palette: near-black background, near-white text, light blue
    /// accent, dark grey borders and buttons.
    pub fn dark() -> (c: Self)
        ensures
            c.background.packed() == 0x1E1E1EFF,
            c.text.packed() == 0xF0F0F0FF,
            c.text_secondary.packed() == 0x787878FF,
            c.primary.packed() == 0x50A0F0FF,
            c.primary_hover.packed() == 0x64B4FFFF,
            c.border.packed() == 0x3C3C3CFF,
            c.input_background.packed() == 0x2D2D2DFF,
            c.button_background.packed() == 0x323232FF,
            c.button_hover_background.packed() == 0x414141FF,
            c.button_text.packed() == 0xF0F0F0FF,
    {
        Colors {
            background: Color::rgba(30, 30, 30, 255),
            text: Color::rgba(240, 240, 240, 255),
            text_secondary: Color::rgba(120, 120, 120, 255),
            primary: Color::rgba(80, 160, 240, 255),
            primary_hover: Color::rgba(100, 180, 255, 255),
            border: Color::rgba(60, 60, 60, 255),
            input_background: Color::rgba(45, 45, 45, 255),
            button_background: Color::rgba(50, 50, 50, 255),
            button_hover_background: Color::rgba(65, 65, 65, 255),
            button_text: Color::rgba(240, 240, 240, 255),
        }
    }
}

} // verus!

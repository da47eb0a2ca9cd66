//! The Teams-inspired dark theme.

use vstd::prelude::*;

verus! {

/// The named colors of the dark theme.
#[derive(Debug, Clone, Copy, PartialEq, Eq, Structural)]
pub enum ThemeColor {
    Background,
    SidebarBg,
    ChatBg,
    InputBg,
    TextPrimary,
    TextSecondary,
    TextMuted,
    Accent,
    Selected,
    Hover,
    BubbleMe,
    BubbleOther,
    Border,
    HeaderBg,
}

/// An opaque RGB color; each channel is in hundredths, from 0 to 100.
#[derive(Debug, Clone, Copy, PartialEq, Eq, Structural)]
pub struct Rgb {
    pub r: u8,
    pub g: u8,
    pub b: u8,
}

/// Teams-inspired dark theme colors.
pub struct TeamsDark;

/// The channels of a theme color, in hundredths.
pub open spec fn teams_dark_rgb(c: ThemeColor) -> Rgb {
    match c {
        ThemeColor::Background => Rgb { r: 13, g: 13, b: 13 },
        ThemeColor::SidebarBg => Rgb { r: 11, g: 11, b: 11 },
        ThemeColor::ChatBg => Rgb { r: 16, g: 16, b: 16 },
        ThemeColor::InputBg => Rgb { r: 20, g: 20, b: 20 },
        ThemeColor::TextPrimary => Rgb { r: 100, g: 100, b: 100 },
        ThemeColor::TextSecondary => Rgb { r: 65, g: 65, b: 65 },
        ThemeColor::TextMuted => Rgb { r: 45, g: 45, b: 45 },
        ThemeColor::Accent => Rgb { r: 38, g: 45, b: 95 },
        ThemeColor::Selected => Rgb { r: 22, g: 22, b: 28 },
        ThemeColor::Hover => Rgb { r: 19, g: 19, b: 19 },
        ThemeColor::BubbleMe => Rgb { r: 30, g: 35, b: 70 },
        ThemeColor::BubbleOther => Rgb { r: 22, g: 22, b: 22 },
        ThemeColor::Border => Rgb { r: 25, g: 25, b: 25 },
        ThemeColor::HeaderBg => Rgb { r: 14, g: 14, b: 14 },
    }
}

impl TeamsDark {
    /// The channels of a theme color, in hundredths.
    pub fn rgb(c: ThemeColor) -> (r: Rgb)
        ensures
            r == teams_dark_rgb(c),
    {
        match c {
            ThemeColor::Background => Rgb { r: 13, g: 13, b: 13 },
            ThemeColor::SidebarBg => Rgb { r: 11, g: 11, b: 11 },
            ThemeColor::ChatBg => Rgb { r: 16, g: 16, b: 16 },
            ThemeColor::InputBg => Rgb { r: 20, g: 20, b: 20 },
            ThemeColor::TextPrimary => Rgb { r: 100, g: 100, b: 100 },
            ThemeColor::TextSecondary => Rgb { r: 65, g: 65, b: 65 },
            ThemeColor::TextMuted => Rgb { r: 45, g: 45, b: 45 },
            ThemeColor::Accent => Rgb { r: 38, g: 45, b: 95 },
            ThemeColor::Selected => Rgb { r: 22, g: 22, b: 28 },
            ThemeColor::Hover => Rgb { r: 19, g: 19, b: 19 },
            ThemeColor::BubbleMe => Rgb { r: 30, g: 35, b: 70 },
            ThemeColor::BubbleOther => Rgb { r: 22, g: 22, b: 22 },
            ThemeColor::Border => Rgb { r: 25, g: 25, b: 25 },
            ThemeColor::HeaderBg => Rgb { r: 14, g: 14, b: 14 },
        }
    }
}

} // verus!

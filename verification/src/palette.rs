//! Accent palettes: one focal color that carries the story, and theme-aware
//! grays for everything that recedes.

use vstd::prelude::*;
use crate::capabilities::Theme;
use crate::color::RgbColor;
use crate::text::{chars_eq_str, chars_of, string_from_chars};

verus! {

/// A named accent palette.
#[derive(Debug, Clone, Copy, PartialEq, Eq, Structural)]
pub enum Palette {
    Signature,
    Editorial,
    ColorblindSafe,
}

/// A palette name that is not one of the known palettes; holds the name.
#[derive(Debug)]
pub struct UnknownPalette(pub String);

impl UnknownPalette {
    /// The message the error reads as.
    pub fn message(&self) -> (s: String)
        ensures
            s@ == "unknown palette: "@ + self.0@,
    {
        crate::text::prefixed("unknown palette: ", self.0.as_str())
    }
}

/// The gray `#vvvvvv` with all three channels equal to `v`.
pub open spec fn gray(v: u8) -> RgbColor {
    RgbColor { r: v, g: v, b: v }
}

/// Focal (accent) color of each palette.
pub open spec fn spec_focal_color(p: Palette) -> RgbColor {
    match p {
        Palette::Signature => RgbColor { r: 0xee, g: 0x7b, b: 0x3d },
        Palette::Editorial => RgbColor { r: 0x1f, g: 0x6f, b: 0xeb },
        Palette::ColorblindSafe => RgbColor { r: 0x00, g: 0x72, b: 0xb2 },
    }
}

/// Context gray: medium on dark backgrounds, darker on light ones.
pub open spec fn spec_context_color(t: Theme) -> RgbColor {
    match t {
        Theme::Dark => gray(0x76),
        Theme::Light => gray(0x4a),
    }
}

/// Dim context gray for secondary chrome: darker on dark backgrounds,
/// lighter on light ones.
pub open spec fn spec_dim_context_color(t: Theme) -> RgbColor {
    match t {
        Theme::Dark => gray(0x4f),
        Theme::Light => gray(0x96),
    }
}

/// The palette a name selects.
pub open spec fn spec_palette_named(name: Seq<char>) -> Option<Palette> {
    if name == "signature"@ {
        Some(Palette::Signature)
    } else if name == "editorial"@ {
        Some(Palette::Editorial)
    } else if name == "colorblind-safe"@ {
        Some(Palette::ColorblindSafe)
    } else {
        None
    }
}

impl Palette {
    /// The accent color used for the focal series.
    pub fn focal_color(self) -> (c: RgbColor)
        ensures
            c == spec_focal_color(self),
    {
        match self {
            Palette::Signature => RgbColor { r: 0xee, g: 0x7b, b: 0x3d },
            Palette::Editorial => RgbColor { r: 0x1f, g: 0x6f, b: 0xeb },
            Palette::ColorblindSafe => RgbColor { r: 0x00, g: 0x72, b: 0xb2 },
        }
    }

    /// Theme-aware desaturated context color (`#767676` on dark, `#4a4a4a` on
    /// light).
    pub fn context_color_for(self, theme: Theme) -> (c: RgbColor)
        ensures
            c == spec_context_color(theme),
    {
        match theme {
            Theme::Dark => RgbColor { r: 0x76, g: 0x76, b: 0x76 },
            Theme::Light => RgbColor { r: 0x4a, g: 0x4a, b: 0x4a },
        }
    }

    /// The dark-theme context gray.
    pub fn context_color(self) -> (c: RgbColor)
        ensures
            c == spec_context_color(Theme::Dark),
    {
        self.context_color_for(Theme::Dark)
    }

    /// Theme-aware dimmer gray for axis ticks and other secondary chrome
    /// (`#4f4f4f` on dark, `#969696` on light).
    pub fn dim_context_color_for(self, theme: Theme) -> (c: RgbColor)
        ensures
            c == spec_dim_context_color(theme),
    {
        match theme {
            Theme::Dark => RgbColor { r: 0x4f, g: 0x4f, b: 0x4f },
            Theme::Light => RgbColor { r: 0x96, g: 0x96, b: 0x96 },
        }
    }

    /// The dark-theme dim context gray.
    pub fn dim_context_color(self) -> (c: RgbColor)
        ensures
            c == spec_dim_context_color(Theme::Dark),
    {
        self.dim_context_color_for(Theme::Dark)
    }

    /// Looks a palette up by name (`signature`, `editorial`,
    /// `colorblind-safe`).
    pub fn from_name(name: &str) -> (r: Result<Palette, UnknownPalette>)
        ensures
            match r {
                Ok(p) => spec_palette_named(name@) == Some(p),
                Err(e) => spec_palette_named(name@) is None && e.0@ == name@,
            },
    {
        let cs = chars_of(name);
        if chars_eq_str(&cs, "signature") {
            Ok(Palette::Signature)
        } else if chars_eq_str(&cs, "editorial") {
            Ok(Palette::Editorial)
        } else if chars_eq_str(&cs, "colorblind-safe") {
            Ok(Palette::ColorblindSafe)
        } else {
            Err(UnknownPalette(string_from_chars(&cs)))
        }
    }
}

impl Default for Palette {
    fn default() -> (p: Palette)
        ensures
            p == Palette::Signature,
    {
        Palette::Signature
    }
}

/// Every palette's context gray is a true gray (equal channels), whatever the
/// theme.
pub proof fn context_colors_are_gray(p: Palette, t: Theme)
    ensures
        spec_context_color(t).r == spec_context_color(t).g == spec_context_color(t).b,
        spec_dim_context_color(t).r == spec_dim_context_color(t).g == spec_dim_context_color(t).b,
{
}

/// On a dark background the context gray is lighter than on a light one,
/// while the dim gray is the other way round.
pub proof fn context_grays_follow_theme()
    ensures
        spec_context_color(Theme::Dark).r > spec_context_color(Theme::Light).r,
        spec_dim_context_color(Theme::Light).r > spec_dim_context_color(Theme::Dark).r,
{
}

} // verus!

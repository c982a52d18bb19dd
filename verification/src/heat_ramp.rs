//! Names of the sequential and diverging color ramps used by heatmaps.

use vstd::prelude::*;
use crate::color::RgbColor;
use crate::text::{chars_eq_str, chars_of, string_from_chars};

verus! {

/// A heatmap color ramp.
#[derive(Debug, Clone, Copy, PartialEq, Eq, Structural)]
pub enum HeatRamp {
    /// Dark navy, blue, magenta, orange, red. The default.
    Inferno,
    /// Perceptually uniform purple, blue, green, yellow.
    Viridis,
    /// Diverging blue, white, red.
    Coolwarm,
}

/// A ramp name that is not one of the known ramps; holds the name.
#[derive(Debug)]
pub struct UnknownHeatRamp(pub String);

impl UnknownHeatRamp {
    /// The message the error reads as.
    pub fn message(&self) -> (s: String)
        ensures
            s@ == "unknown heat ramp: "@ + self.0@,
    {
        crate::text::prefixed("unknown heat ramp: ", self.0.as_str())
    }
}

/// The ramp a name selects.
pub open spec fn spec_ramp_named(name: Seq<char>) -> Option<HeatRamp> {
    if name == "inferno"@ {
        Some(HeatRamp::Inferno)
    } else if name == "viridis"@ {
        Some(HeatRamp::Viridis)
    } else if name == "coolwarm"@ {
        Some(HeatRamp::Coolwarm)
    } else {
        None
    }
}

/// The color with the given channels.
pub open spec fn rgb(r: u8, g: u8, b: u8) -> RgbColor {
    RgbColor { r, g, b }
}

/// The colors a ramp passes through, evenly spaced from its start (0) to its
/// end (1): stop `i` of `k` sits at `i / (k - 1)`.
pub open spec fn spec_stop_colors(ramp: HeatRamp) -> Seq<RgbColor> {
    match ramp {
        HeatRamp::Inferno => seq![
            rgb(0x1c, 0x23, 0x30),
            rgb(0x2d, 0x42, 0x63),
            rgb(0x6e, 0x40, 0x90),
            rgb(0xee, 0x7b, 0x3d),
            rgb(0xd5, 0x4e, 0x3a),
        ],
        HeatRamp::Viridis => seq![
            rgb(0x44, 0x01, 0x54),
            rgb(0x3b, 0x52, 0x8b),
            rgb(0x21, 0x90, 0x8c),
            rgb(0x5e, 0xc9, 0x62),
            rgb(0xfd, 0xe7, 0x25),
        ],
        HeatRamp::Coolwarm => seq![
            rgb(0x33, 0x66, 0xa6),
            rgb(0xee, 0xee, 0xee),
            rgb(0xc0, 0x39, 0x2b),
        ],
    }
}

impl HeatRamp {
    /// The ramp's stop colors, from its start to its end; the stops are evenly
    /// spaced, so stop `i` of `k` sits at `i / (k - 1)`.
    pub fn stop_colors(self) -> (r: Vec<RgbColor>)
        ensures
            r@ == spec_stop_colors(self),
            r@.len() >= 2,
    {
        match self {
            HeatRamp::Inferno => vec![
                RgbColor { r: 0x1c, g: 0x23, b: 0x30 },
                RgbColor { r: 0x2d, g: 0x42, b: 0x63 },
                RgbColor { r: 0x6e, g: 0x40, b: 0x90 },
                RgbColor { r: 0xee, g: 0x7b, b: 0x3d },
                RgbColor { r: 0xd5, g: 0x4e, b: 0x3a },
            ],
            HeatRamp::Viridis => vec![
                RgbColor { r: 0x44, g: 0x01, b: 0x54 },
                RgbColor { r: 0x3b, g: 0x52, b: 0x8b },
                RgbColor { r: 0x21, g: 0x90, b: 0x8c },
                RgbColor { r: 0x5e, g: 0xc9, b: 0x62 },
                RgbColor { r: 0xfd, g: 0xe7, b: 0x25 },
            ],
            HeatRamp::Coolwarm => vec![
                RgbColor { r: 0x33, g: 0x66, b: 0xa6 },
                RgbColor { r: 0xee, g: 0xee, b: 0xee },
                RgbColor { r: 0xc0, g: 0x39, b: 0x2b },
            ],
        }
    }

    /// Looks a ramp up by name (`inferno`, `viridis`, `coolwarm`).
    pub fn from_name(name: &str) -> (r: Result<HeatRamp, UnknownHeatRamp>)
        ensures
            match r {
                Ok(h) => spec_ramp_named(name@) == Some(h),
                Err(e) => spec_ramp_named(name@) is None && e.0@ == name@,
            },
    {
        let cs = chars_of(name);
        if chars_eq_str(&cs, "inferno") {
            Ok(HeatRamp::Inferno)
        } else if chars_eq_str(&cs, "viridis") {
            Ok(HeatRamp::Viridis)
        } else if chars_eq_str(&cs, "coolwarm") {
            Ok(HeatRamp::Coolwarm)
        } else {
            Err(UnknownHeatRamp(string_from_chars(&cs)))
        }
    }
}

impl Default for HeatRamp {
    fn default() -> (h: HeatRamp)
        ensures
            h == HeatRamp::Inferno,
    {
        HeatRamp::Inferno
    }
}

} // verus!

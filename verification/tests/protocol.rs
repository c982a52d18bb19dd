use tplot::capabilities::{Capabilities, ColorDepth, GlyphSet, GraphicsProtocol, Theme};
use tplot::color::RgbColor;
use tplot::heat_ramp::HeatRamp;
use tplot::palette::Palette;
use tplot::story::{FocusMode, StoryConfig};

#[test]
fn conservative_is_safe_for_unknown_terminals() {
    let c = Capabilities::conservative();
    assert_eq!(c.color_depth, ColorDepth::Ansi256);
    assert_eq!(c.glyph_set, GlyphSet::HalfBlocks);
    assert_eq!(c.graphics_protocol, GraphicsProtocol::NoGraphics);
}

#[test]
fn detects_truecolor_from_env() {
    let c = Capabilities::from_vars(|name: &str| match name {
        "COLORTERM" => Some("truecolor".to_string()),
        "TERM" => Some("xterm-256color".to_string()),
        _ => None,
    });
    assert_eq!(c.color_depth, ColorDepth::Truecolor);
}

#[test]
fn detects_kitty_graphics() {
    let c = Capabilities::from_vars(|name: &str| match name {
        "TERM" => Some("xterm-kitty".to_string()),
        "COLORTERM" => Some("truecolor".to_string()),
        _ => None,
    });
    assert_eq!(c.graphics_protocol, GraphicsProtocol::Kitty);
}

#[test]
fn theme_default_is_dark() {
    let c = Capabilities::conservative();
    assert_eq!(c.theme, Theme::Dark);
}

#[test]
fn theme_dark_when_colorfgbg_says_dark_bg() {
    let c = Capabilities::from_vars(|name: &str| match name {
        "COLORFGBG" => Some("15;0".to_string()),
        _ => None,
    });
    assert_eq!(c.theme, Theme::Dark);
}

#[test]
fn theme_light_when_colorfgbg_says_light_bg() {
    let c = Capabilities::from_vars(|name: &str| match name {
        "COLORFGBG" => Some("0;15".to_string()),
        _ => None,
    });
    assert_eq!(c.theme, Theme::Light);
}

#[test]
fn theme_apple_terminal_default_inferred_light() {
    let c = Capabilities::from_vars(|name: &str| match name {
        "TERM_PROGRAM" => Some("Apple_Terminal".to_string()),
        _ => None,
    });
    assert_eq!(c.theme, Theme::Light);
}

#[test]
fn theme_falls_back_to_dark_for_unknown_terminal() {
    let c = Capabilities::from_vars(|_: &str| None);
    assert_eq!(c.theme, Theme::Dark);
}

#[test]
fn theme_falls_back_to_dark_for_malformed_colorfgbg() {
    let c = Capabilities::from_vars(|name: &str| match name {
        "COLORFGBG" => Some("15".to_string()),
        _ => None,
    });
    assert_eq!(c.theme, Theme::Dark);
}

#[test]
fn signature_palette_focal_is_burnt_orange() {
    let p = Palette::Signature;
    assert_eq!(p.focal_color(), RgbColor { r: 0xee, g: 0x7b, b: 0x3d });
}

#[test]
fn signature_context_color_is_desaturated() {
    let p = Palette::Signature;
    let ctx = p.context_color();
    assert_eq!(ctx.r, ctx.g);
    assert_eq!(ctx.g, ctx.b);
}

#[test]
fn context_gray_for_dark_is_lighter_than_for_light() {
    let dark = Palette::Signature.context_color_for(Theme::Dark);
    let light = Palette::Signature.context_color_for(Theme::Light);
    assert!(dark.r > light.r);
}

#[test]
fn context_color_default_path_is_dark() {
    let default = Palette::Signature.context_color();
    let dark = Palette::Signature.context_color_for(Theme::Dark);
    assert_eq!(default, dark);
}

#[test]
fn dim_context_gray_for_dark_is_darker_than_for_light() {
    let dark = Palette::Signature.dim_context_color_for(Theme::Dark);
    let light = Palette::Signature.dim_context_color_for(Theme::Light);
    assert!(light.r > dark.r);
}

#[test]
fn dim_context_color_default_path_is_dark() {
    let default = Palette::Signature.dim_context_color();
    let dark = Palette::Signature.dim_context_color_for(Theme::Dark);
    assert_eq!(default, dark);
}

#[test]
fn parses_palette_name() {
    assert_eq!(Palette::from_name("signature").unwrap(), Palette::Signature);
    assert_eq!(Palette::from_name("editorial").unwrap(), Palette::Editorial);
    assert_eq!(Palette::from_name("colorblind-safe").unwrap(), Palette::ColorblindSafe);
    assert!(Palette::from_name("nope").is_err());
}

#[test]
fn parses_hex() {
    let c = RgbColor::from_hex("#ee7b3d").unwrap();
    assert_eq!(c, RgbColor { r: 0xee, g: 0x7b, b: 0x3d });
}

#[test]
fn rejects_bad_hex() {
    assert!(RgbColor::from_hex("not-a-color").is_err());
    assert!(RgbColor::from_hex("#zzz").is_err());
}

#[test]
fn defaults_are_story_on() {
    let s = StoryConfig::default();
    assert!(s.enabled);
    assert!(s.takeaway);
    assert!(matches!(s.focus, FocusMode::Auto));
}

#[test]
fn from_name_dispatches_known_ramps() {
    assert_eq!(HeatRamp::from_name("inferno").unwrap(), HeatRamp::Inferno);
    assert_eq!(HeatRamp::from_name("viridis").unwrap(), HeatRamp::Viridis);
    assert_eq!(HeatRamp::from_name("coolwarm").unwrap(), HeatRamp::Coolwarm);
    assert!(HeatRamp::from_name("nope").is_err());
}

#[test]
fn hex_text_reads_back_in_either_case() {
    for c in [
        RgbColor { r: 0, g: 0, b: 0 },
        RgbColor { r: 0xee, g: 0x7b, b: 0x3d },
        RgbColor { r: 0xff, g: 0x0a, b: 0x90 },
    ] {
        let lower = format!("#{:02x}{:02x}{:02x}", c.r, c.g, c.b);
        let upper = format!("#{:02X}{:02X}{:02X}", c.r, c.g, c.b);
        assert_eq!(RgbColor::from_hex(&lower).unwrap(), c);
        assert_eq!(RgbColor::from_hex(&upper).unwrap(), c);
    }
}

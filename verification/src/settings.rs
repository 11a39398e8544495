//! Waveform display settings that are stored as text: the enum codecs used to
//! persist them, integer parsing for numeric settings, and the classification
//! of a live settings update.

use vstd::prelude::*;
use crate::text::{chars_of, chars_eq};
use crate::num::{parse_u8, spec_parse_u8};

verus! {

/// How the waveform bar is drawn vertically.
#[derive(Debug, Clone, Copy, PartialEq, Eq, Structural)]
pub enum DisplayStyle {
    /// Symmetric bar centered in the viewport.
    Mirrored,
    /// Bar grows from the bottom up.
    TopHalf,
}

/// Color scheme for rendered waveform bars.
#[derive(Debug, Clone, Copy, PartialEq, Eq, Structural)]
pub enum ColorScheme {
    /// Additive blend: Low=Peach, Mid=Blue, High=Lavender.
    AdditivePeachBlueLavender,
    Monochrome,
    PerBandSolid,
    Grayscale,
}

/// How amplitude values are normalized before rendering.
#[derive(Debug, Clone, Copy, PartialEq, Eq, Structural)]
pub enum NormalizeMode {
    /// No normalization: the raw band values are drawn.
    Raw,
    /// Normalize each band independently to its own peak.
    PerBand,
    /// Normalize all bands to the global peak.
    Global,
}

/// `true` iff `a` and `b` hold the same chars.
pub fn str_eq(a: &str, b: &str) -> (r: bool)
    ensures
        r == (a@ == b@),
{
    let va = chars_of(a);
    let vb = chars_of(b);
    chars_eq(&va, &vb)
}

// ── Text codecs ────────────────────────────────────────────────────────────

/// The stored name of a display style.
pub open spec fn display_style_name(s: DisplayStyle) -> Seq<char> {
    match s {
        DisplayStyle::Mirrored => "mirrored"@,
        DisplayStyle::TopHalf => "tophalf"@,
    }
}

/// The display style a stored name denotes, if any.
pub open spec fn display_style_of_name(s: Seq<char>) -> Option<DisplayStyle> {
    if s == "mirrored"@ {
        Some(DisplayStyle::Mirrored)
    } else if s == "tophalf"@ {
        Some(DisplayStyle::TopHalf)
    } else {
        None
    }
}

pub fn parse_display_style(s: &str) -> (r: Option<DisplayStyle>)
    ensures
        r == display_style_of_name(s@),
{
    if str_eq(s, "mirrored") {
        Some(DisplayStyle::Mirrored)
    } else if str_eq(s, "tophalf") {
        Some(DisplayStyle::TopHalf)
    } else {
        None
    }
}

pub fn display_style_to_str(s: DisplayStyle) -> (r: &'static str)
    ensures
        r@ == display_style_name(s),
{
    match s {
        DisplayStyle::Mirrored => "mirrored",
        DisplayStyle::TopHalf => "tophalf",
    }
}

/// The stored name of a normalize mode.
pub open spec fn normalize_mode_name(m: NormalizeMode) -> Seq<char> {
    match m {
        NormalizeMode::Raw => "none"@,
        NormalizeMode::PerBand => "perband"@,
        NormalizeMode::Global => "global"@,
    }
}

/// The normalize mode a stored name denotes, if any.
pub open spec fn normalize_mode_of_name(s: Seq<char>) -> Option<NormalizeMode> {
    if s == "none"@ {
        Some(NormalizeMode::Raw)
    } else if s == "perband"@ {
        Some(NormalizeMode::PerBand)
    } else if s == "global"@ {
        Some(NormalizeMode::Global)
    } else {
        None
    }
}

pub fn parse_normalize_mode(s: &str) -> (r: Option<NormalizeMode>)
    ensures
        r == normalize_mode_of_name(s@),
{
    if str_eq(s, "none") {
        Some(NormalizeMode::Raw)
    } else if str_eq(s, "perband") {
        Some(NormalizeMode::PerBand)
    } else if str_eq(s, "global") {
        Some(NormalizeMode::Global)
    } else {
        None
    }
}

pub fn normalize_mode_to_str(m: NormalizeMode) -> (r: &'static str)
    ensures
        r@ == normalize_mode_name(m),
{
    match m {
        NormalizeMode::Raw => "none",
        NormalizeMode::PerBand => "perband",
        NormalizeMode::Global => "global",
    }
}

/// The stored name of a color scheme.
pub open spec fn color_scheme_name(c: ColorScheme) -> Seq<char> {
    match c {
        ColorScheme::AdditivePeachBlueLavender => "additive"@,
        ColorScheme::Monochrome => "monochrome"@,
        ColorScheme::PerBandSolid => "perband"@,
        ColorScheme::Grayscale => "grayscale"@,
    }
}

/// The color scheme a stored name denotes, if any.
pub open spec fn color_scheme_of_name(s: Seq<char>) -> Option<ColorScheme> {
    if s == "additive"@ {
        Some(ColorScheme::AdditivePeachBlueLavender)
    } else if s == "monochrome"@ {
        Some(ColorScheme::Monochrome)
    } else if s == "perband"@ {
        Some(ColorScheme::PerBandSolid)
    } else if s == "grayscale"@ {
        Some(ColorScheme::Grayscale)
    } else {
        None
    }
}

pub fn parse_color_scheme(s: &str) -> (r: Option<ColorScheme>)
    ensures
        r == color_scheme_of_name(s@),
{
    if str_eq(s, "additive") {
        Some(ColorScheme::AdditivePeachBlueLavender)
    } else if str_eq(s, "monochrome") {
        Some(ColorScheme::Monochrome)
    } else if str_eq(s, "perband") {
        Some(ColorScheme::PerBandSolid)
    } else if str_eq(s, "grayscale") {
        Some(ColorScheme::Grayscale)
    } else {
        None
    }
}

pub fn color_scheme_to_str(c: ColorScheme) -> (r: &'static str)
    ensures
        r@ == color_scheme_name(c),
{
    match c {
        ColorScheme::AdditivePeachBlueLavender => "additive",
        ColorScheme::Monochrome => "monochrome",
        ColorScheme::PerBandSolid => "perband",
        ColorScheme::Grayscale => "grayscale",
    }
}

/// A stored display style read back gives the style that was stored.
pub proof fn lemma_display_style_roundtrip(s: DisplayStyle)
    ensures
        display_style_of_name(display_style_name(s)) == Some(s),
{
    reveal_strlit("mirrored");
    reveal_strlit("tophalf");
    assert("mirrored"@[0] != "tophalf"@[0]);
}

/// A stored normalize mode read back gives the mode that was stored.
pub proof fn lemma_normalize_mode_roundtrip(m: NormalizeMode)
    ensures
        normalize_mode_of_name(normalize_mode_name(m)) == Some(m),
{
    reveal_strlit("none");
    reveal_strlit("perband");
    reveal_strlit("global");
    assert("none"@[0] != "perband"@[0]);
    assert("none"@[0] != "global"@[0]);
    assert("perband"@[0] != "global"@[0]);
}

/// A stored color scheme read back gives the scheme that was stored.
pub proof fn lemma_color_scheme_roundtrip(c: ColorScheme)
    ensures
        color_scheme_of_name(color_scheme_name(c)) == Some(c),
{
    reveal_strlit("additive");
    reveal_strlit("monochrome");
    reveal_strlit("perband");
    reveal_strlit("grayscale");
    assert("additive"@[0] != "monochrome"@[0]);
    assert("additive"@[0] != "perband"@[0]);
    assert("additive"@[0] != "grayscale"@[0]);
    assert("monochrome"@[0] != "perband"@[0]);
    assert("monochrome"@[0] != "grayscale"@[0]);
    assert("perband"@[0] != "grayscale"@[0]);
}

// ── Integer codes (settings window widgets) ────────────────────────────────

pub open spec fn display_style_code(s: DisplayStyle) -> i32 {
    match s {
        DisplayStyle::Mirrored => 0,
        DisplayStyle::TopHalf => 1,
    }
}

/// Code 1 is `TopHalf`; every other code falls back to `Mirrored`.
pub open spec fn display_style_of_code(v: i32) -> DisplayStyle {
    if v == 1 {
        DisplayStyle::TopHalf
    } else {
        DisplayStyle::Mirrored
    }
}

pub open spec fn color_scheme_code(c: ColorScheme) -> i32 {
    match c {
        ColorScheme::AdditivePeachBlueLavender => 0,
        ColorScheme::Monochrome => 1,
        ColorScheme::PerBandSolid => 2,
        ColorScheme::Grayscale => 3,
    }
}

/// Codes 1, 2, 3 select the matching scheme; every other code falls back to
/// the additive scheme.
pub open spec fn color_scheme_of_code(v: i32) -> ColorScheme {
    if v == 1 {
        ColorScheme::Monochrome
    } else if v == 2 {
        ColorScheme::PerBandSolid
    } else if v == 3 {
        ColorScheme::Grayscale
    } else {
        ColorScheme::AdditivePeachBlueLavender
    }
}

pub fn display_style_to_int(s: DisplayStyle) -> (r: i32)
    ensures
        r == display_style_code(s),
{
    match s {
        DisplayStyle::Mirrored => 0,
        DisplayStyle::TopHalf => 1,
    }
}

pub fn int_to_display_style(v: i32) -> (r: DisplayStyle)
    ensures
        r == display_style_of_code(v),
{
    match v {
        1 => DisplayStyle::TopHalf,
        _ => DisplayStyle::Mirrored,
    }
}

pub fn color_scheme_to_int(c: ColorScheme) -> (r: i32)
    ensures
        r == color_scheme_code(c),
{
    match c {
        ColorScheme::AdditivePeachBlueLavender => 0,
        ColorScheme::Monochrome => 1,
        ColorScheme::PerBandSolid => 2,
        ColorScheme::Grayscale => 3,
    }
}

pub fn int_to_color_scheme(v: i32) -> (r: ColorScheme)
    ensures
        r == color_scheme_of_code(v),
{
    match v {
        1 => ColorScheme::Monochrome,
        2 => ColorScheme::PerBandSolid,
        3 => ColorScheme::Grayscale,
        _ => ColorScheme::AdditivePeachBlueLavender,
    }
}

/// The integer code of a display style or color scheme decodes to the same
/// style or scheme.
pub proof fn lemma_int_codes_roundtrip(s: DisplayStyle, c: ColorScheme)
    ensures
        display_style_of_code(display_style_code(s)) == s,
        color_scheme_of_code(color_scheme_code(c)) == c,
{
}

// ── Live settings updates ───────────────────────────────────────────────────

/// The settings whose values are real numbers.
#[derive(Debug, Clone, Copy, PartialEq, Eq, Structural)]
pub enum FloatSetting {
    AmplitudeScale,
    LowGain,
    MidGain,
    HighGain,
    Gamma,
    NoiseFloor,
}

/// What a `(key, value)` settings update changes.
#[derive(Debug, Clone, Copy, PartialEq, Eq, Structural)]
pub enum SettingUpdate {
    /// A real-valued setting; its value text is still to be read as a number.
    Float(FloatSetting),
    /// The smoothing window; `None` when the value is not a `u8`.
    Smoothing(Option<u8>),
    DisplayStyle(DisplayStyle),
    ColorScheme(ColorScheme),
    NormalizeMode(NormalizeMode),
}

/// The float setting a key names, if any.
pub open spec fn float_setting_of_key(k: Seq<char>) -> Option<FloatSetting> {
    if k == "amplitude_scale"@ {
        Some(FloatSetting::AmplitudeScale)
    } else if k == "low_gain"@ {
        Some(FloatSetting::LowGain)
    } else if k == "mid_gain"@ {
        Some(FloatSetting::MidGain)
    } else if k == "high_gain"@ {
        Some(FloatSetting::HighGain)
    } else if k == "gamma"@ {
        Some(FloatSetting::Gamma)
    } else if k == "noise_floor"@ {
        Some(FloatSetting::NoiseFloor)
    } else {
        None
    }
}

/// The update a `(key, value)` pair denotes; `None` for an unknown key.
/// Enum values are read leniently: an unrecognised value selects the default
/// variant.
pub open spec fn spec_setting_update(k: Seq<char>, v: Seq<char>) -> Option<SettingUpdate> {
    if float_setting_of_key(k) is Some {
        Some(SettingUpdate::Float(float_setting_of_key(k)->0))
    } else if k == "smoothing"@ {
        Some(SettingUpdate::Smoothing(spec_parse_u8(v)))
    } else if k == "display_style"@ {
        Some(SettingUpdate::DisplayStyle(
            if v == "tophalf"@ { DisplayStyle::TopHalf } else { DisplayStyle::Mirrored },
        ))
    } else if k == "color_scheme"@ {
        Some(SettingUpdate::ColorScheme(
            if v == "monochrome"@ {
                ColorScheme::Monochrome
            } else if v == "perband"@ {
                ColorScheme::PerBandSolid
            } else if v == "grayscale"@ {
                ColorScheme::Grayscale
            } else {
                ColorScheme::AdditivePeachBlueLavender
            },
        ))
    } else if k == "normalize_mode"@ {
        Some(SettingUpdate::NormalizeMode(
            if v == "perband"@ {
                NormalizeMode::PerBand
            } else if v == "global"@ {
                NormalizeMode::Global
            } else {
                NormalizeMode::Raw
            },
        ))
    } else {
        None
    }
}

fn float_setting_key(key: &str) -> (r: Option<FloatSetting>)
    ensures
        r == float_setting_of_key(key@),
{
    if str_eq(key, "amplitude_scale") {
        Some(FloatSetting::AmplitudeScale)
    } else if str_eq(key, "low_gain") {
        Some(FloatSetting::LowGain)
    } else if str_eq(key, "mid_gain") {
        Some(FloatSetting::MidGain)
    } else if str_eq(key, "high_gain") {
        Some(FloatSetting::HighGain)
    } else if str_eq(key, "gamma") {
        Some(FloatSetting::Gamma)
    } else if str_eq(key, "noise_floor") {
        Some(FloatSetting::NoiseFloor)
    } else {
        None
    }
}

/// Classifies a live settings update from the settings drawer.
pub fn classify_setting_update(key: &str, value: &str) -> (r: Option<SettingUpdate>)
    ensures
        r == spec_setting_update(key@, value@),
{
    if let Some(f) = float_setting_key(key) {
        Some(SettingUpdate::Float(f))
    } else if str_eq(key, "smoothing") {
        Some(SettingUpdate::Smoothing(parse_u8(value)))
    } else if str_eq(key, "display_style") {
        Some(SettingUpdate::DisplayStyle(
            if str_eq(value, "tophalf") { DisplayStyle::TopHalf } else { DisplayStyle::Mirrored },
        ))
    } else if str_eq(key, "color_scheme") {
        Some(SettingUpdate::ColorScheme(
            if str_eq(value, "monochrome") {
                ColorScheme::Monochrome
            } else if str_eq(value, "perband") {
                ColorScheme::PerBandSolid
            } else if str_eq(value, "grayscale") {
                ColorScheme::Grayscale
            } else {
                ColorScheme::AdditivePeachBlueLavender
            },
        ))
    } else if str_eq(key, "normalize_mode") {
        Some(SettingUpdate::NormalizeMode(
            if str_eq(value, "perband") {
                NormalizeMode::PerBand
            } else if str_eq(value, "global") {
                NormalizeMode::Global
            } else {
                NormalizeMode::Raw
            },
        ))
    } else {
        None
    }
}

/// A value written in its stored form selects that exact variant when sent
/// as a live update: the lenient reading agrees with the stored codec.
pub proof fn lemma_update_agrees_with_codec(s: DisplayStyle, c: ColorScheme, m: NormalizeMode)
    ensures
        spec_setting_update("display_style"@, display_style_name(s))
            == Some(SettingUpdate::DisplayStyle(s)),
        spec_setting_update("color_scheme"@, color_scheme_name(c))
            == Some(SettingUpdate::ColorScheme(c)),
        spec_setting_update("normalize_mode"@, normalize_mode_name(m))
            == Some(SettingUpdate::NormalizeMode(m)),
{
    reveal_strlit("display_style");
    reveal_strlit("color_scheme");
    reveal_strlit("normalize_mode");
    reveal_strlit("smoothing");
    reveal_strlit("amplitude_scale");
    reveal_strlit("low_gain");
    reveal_strlit("mid_gain");
    reveal_strlit("high_gain");
    reveal_strlit("gamma");
    reveal_strlit("noise_floor");
    lemma_display_style_roundtrip(s);
    lemma_color_scheme_roundtrip(c);
    lemma_normalize_mode_roundtrip(m);
    reveal_strlit("mirrored");
    reveal_strlit("tophalf");
    reveal_strlit("none");
    reveal_strlit("perband");
    reveal_strlit("global");
    reveal_strlit("additive");
    reveal_strlit("monochrome");
    reveal_strlit("grayscale");
    assert("display_style"@[0] != "amplitude_scale"@[0]);
    assert("display_style"@.len() != "low_gain"@.len());
    assert("display_style"@.len() != "mid_gain"@.len());
    assert("display_style"@.len() != "high_gain"@.len());
    assert("display_style"@.len() != "gamma"@.len());
    assert("display_style"@.len() != "noise_floor"@.len());
    assert("display_style"@.len() != "smoothing"@.len());
    assert("color_scheme"@[0] != "amplitude_scale"@[0]);
    assert("color_scheme"@[0] != "low_gain"@[0]);
    assert("color_scheme"@[0] != "mid_gain"@[0]);
    assert("color_scheme"@[0] != "high_gain"@[0]);
    assert("color_scheme"@[0] != "gamma"@[0]);
    assert("color_scheme"@[0] != "noise_floor"@[0]);
    assert("color_scheme"@[0] != "smoothing"@[0]);
    assert("color_scheme"@[0] != "display_style"@[0]);
    assert("normalize_mode"@[0] != "amplitude_scale"@[0]);
    assert("normalize_mode"@[0] != "low_gain"@[0]);
    assert("normalize_mode"@[0] != "mid_gain"@[0]);
    assert("normalize_mode"@[0] != "high_gain"@[0]);
    assert("normalize_mode"@[0] != "gamma"@[0]);
    assert("normalize_mode"@.len() != "noise_floor"@.len());
    assert("normalize_mode"@[0] != "smoothing"@[0]);
    assert("normalize_mode"@[0] != "display_style"@[0]);
    assert("normalize_mode"@[0] != "color_scheme"@[0]);
    assert("tophalf"@[0] != "mirrored"@[0]);
    assert("monochrome"@[0] != "additive"@[0]);
    assert("perband"@[0] != "additive"@[0]);
    assert("grayscale"@[0] != "additive"@[0]);
    assert("monochrome"@[0] != "perband"@[0]);
    assert("monochrome"@[0] != "grayscale"@[0]);
    assert("perband"@[0] != "grayscale"@[0]);
    assert("perband"@[0] != "none"@[0]);
    assert("global"@[0] != "none"@[0]);
    assert("perband"@[0] != "global"@[0]);
}

/// Each real-valued setting's key selects that setting and no other,
/// whatever value text comes with it.
pub proof fn lemma_float_keys_name_their_setting(v: Seq<char>)
    ensures
        spec_setting_update("amplitude_scale"@, v) == Some(
            SettingUpdate::Float(FloatSetting::AmplitudeScale),
        ),
        spec_setting_update("low_gain"@, v) == Some(SettingUpdate::Float(FloatSetting::LowGain)),
        spec_setting_update("mid_gain"@, v) == Some(SettingUpdate::Float(FloatSetting::MidGain)),
        spec_setting_update("high_gain"@, v) == Some(SettingUpdate::Float(FloatSetting::HighGain)),
        spec_setting_update("gamma"@, v) == Some(SettingUpdate::Float(FloatSetting::Gamma)),
        spec_setting_update("noise_floor"@, v) == Some(
            SettingUpdate::Float(FloatSetting::NoiseFloor),
        ),
{
    reveal_strlit("amplitude_scale");
    reveal_strlit("low_gain");
    reveal_strlit("mid_gain");
    reveal_strlit("high_gain");
    reveal_strlit("gamma");
    reveal_strlit("noise_floor");
    assert("low_gain"@ != "amplitude_scale"@) by {
        assert("low_gain"@[0] != "amplitude_scale"@[0]);
    }
    assert("mid_gain"@ != "amplitude_scale"@) by {
        assert("mid_gain"@[0] != "amplitude_scale"@[0]);
    }
    assert("mid_gain"@ != "low_gain"@) by {
        assert("mid_gain"@[0] != "low_gain"@[0]);
    }
    assert("high_gain"@ != "amplitude_scale"@) by {
        assert("high_gain"@[0] != "amplitude_scale"@[0]);
    }
    assert("high_gain"@ != "low_gain"@) by {
        assert("high_gain"@[0] != "low_gain"@[0]);
    }
    assert("high_gain"@ != "mid_gain"@) by {
        assert("high_gain"@[0] != "mid_gain"@[0]);
    }
    assert("gamma"@ != "amplitude_scale"@) by {
        assert("gamma"@[0] != "amplitude_scale"@[0]);
    }
    assert("gamma"@ != "low_gain"@) by {
        assert("gamma"@[0] != "low_gain"@[0]);
    }
    assert("gamma"@ != "mid_gain"@) by {
        assert("gamma"@[0] != "mid_gain"@[0]);
    }
    assert("gamma"@ != "high_gain"@) by {
        assert("gamma"@[0] != "high_gain"@[0]);
    }
    assert("noise_floor"@ != "amplitude_scale"@) by {
        assert("noise_floor"@[0] != "amplitude_scale"@[0]);
    }
    assert("noise_floor"@ != "low_gain"@) by {
        assert("noise_floor"@[0] != "low_gain"@[0]);
    }
    assert("noise_floor"@ != "mid_gain"@) by {
        assert("noise_floor"@[0] != "mid_gain"@[0]);
    }
    assert("noise_floor"@ != "high_gain"@) by {
        assert("noise_floor"@[0] != "high_gain"@[0]);
    }
    assert("noise_floor"@ != "gamma"@) by {
        assert("noise_floor"@[0] != "gamma"@[0]);
    }
}

} // verus!

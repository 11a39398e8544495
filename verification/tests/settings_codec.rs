use singing_sand::settings::{
    classify_setting_update, color_scheme_to_int, color_scheme_to_str, display_style_to_int,
    display_style_to_str, int_to_color_scheme, int_to_display_style, normalize_mode_to_str,
    parse_color_scheme, parse_display_style, parse_normalize_mode, str_eq, ColorScheme,
    DisplayStyle, FloatSetting, NormalizeMode, SettingUpdate,
};

#[test]
fn display_style_names() {
    assert_eq!(parse_display_style("mirrored"), Some(DisplayStyle::Mirrored));
    assert_eq!(parse_display_style("tophalf"), Some(DisplayStyle::TopHalf));
    assert_eq!(parse_display_style("Mirrored"), None);
    assert_eq!(parse_display_style(""), None);
    assert_eq!(display_style_to_str(DisplayStyle::Mirrored), "mirrored");
    assert_eq!(display_style_to_str(DisplayStyle::TopHalf), "tophalf");
}

#[test]
fn normalize_mode_names() {
    assert_eq!(parse_normalize_mode("none"), Some(NormalizeMode::Raw));
    assert_eq!(parse_normalize_mode("perband"), Some(NormalizeMode::PerBand));
    assert_eq!(parse_normalize_mode("global"), Some(NormalizeMode::Global));
    assert_eq!(parse_normalize_mode("raw"), None);
    assert_eq!(normalize_mode_to_str(NormalizeMode::Raw), "none");
    assert_eq!(normalize_mode_to_str(NormalizeMode::PerBand), "perband");
    assert_eq!(normalize_mode_to_str(NormalizeMode::Global), "global");
}

#[test]
fn color_scheme_names() {
    assert_eq!(parse_color_scheme("additive"), Some(ColorScheme::AdditivePeachBlueLavender));
    assert_eq!(parse_color_scheme("monochrome"), Some(ColorScheme::Monochrome));
    assert_eq!(parse_color_scheme("perband"), Some(ColorScheme::PerBandSolid));
    assert_eq!(parse_color_scheme("grayscale"), Some(ColorScheme::Grayscale));
    assert_eq!(parse_color_scheme("greyscale"), None);
    assert_eq!(color_scheme_to_str(ColorScheme::PerBandSolid), "perband");
}

#[test]
fn stored_names_read_back() {
    for s in [DisplayStyle::Mirrored, DisplayStyle::TopHalf] {
        assert_eq!(parse_display_style(display_style_to_str(s)), Some(s));
    }
    for m in [NormalizeMode::Raw, NormalizeMode::PerBand, NormalizeMode::Global] {
        assert_eq!(parse_normalize_mode(normalize_mode_to_str(m)), Some(m));
    }
    for c in [
        ColorScheme::AdditivePeachBlueLavender,
        ColorScheme::Monochrome,
        ColorScheme::PerBandSolid,
        ColorScheme::Grayscale,
    ] {
        assert_eq!(parse_color_scheme(color_scheme_to_str(c)), Some(c));
    }
}

#[test]
fn combo_box_codes() {
    assert_eq!(display_style_to_int(DisplayStyle::Mirrored), 0);
    assert_eq!(display_style_to_int(DisplayStyle::TopHalf), 1);
    assert_eq!(int_to_display_style(1), DisplayStyle::TopHalf);
    assert_eq!(int_to_display_style(0), DisplayStyle::Mirrored);
    assert_eq!(int_to_display_style(7), DisplayStyle::Mirrored);
    assert_eq!(int_to_display_style(-1), DisplayStyle::Mirrored);
    assert_eq!(color_scheme_to_int(ColorScheme::AdditivePeachBlueLavender), 0);
    assert_eq!(color_scheme_to_int(ColorScheme::Monochrome), 1);
    assert_eq!(color_scheme_to_int(ColorScheme::PerBandSolid), 2);
    assert_eq!(color_scheme_to_int(ColorScheme::Grayscale), 3);
    assert_eq!(int_to_color_scheme(2), ColorScheme::PerBandSolid);
    assert_eq!(int_to_color_scheme(4), ColorScheme::AdditivePeachBlueLavender);
}

#[test]
fn combo_box_codes_read_back() {
    for s in [DisplayStyle::Mirrored, DisplayStyle::TopHalf] {
        assert_eq!(int_to_display_style(display_style_to_int(s)), s);
    }
    for c in [
        ColorScheme::AdditivePeachBlueLavender,
        ColorScheme::Monochrome,
        ColorScheme::PerBandSolid,
        ColorScheme::Grayscale,
    ] {
        assert_eq!(int_to_color_scheme(color_scheme_to_int(c)), c);
    }
}

#[test]
fn live_update_classification() {
    assert_eq!(
        classify_setting_update("gamma", "0.5"),
        Some(SettingUpdate::Float(FloatSetting::Gamma))
    );
    assert_eq!(
        classify_setting_update("amplitude_scale", "x"),
        Some(SettingUpdate::Float(FloatSetting::AmplitudeScale))
    );
    assert_eq!(classify_setting_update("smoothing", "12"), Some(SettingUpdate::Smoothing(Some(12))));
    assert_eq!(classify_setting_update("smoothing", "+7"), Some(SettingUpdate::Smoothing(Some(7))));
    assert_eq!(classify_setting_update("smoothing", "256"), Some(SettingUpdate::Smoothing(None)));
    assert_eq!(classify_setting_update("smoothing", "-1"), Some(SettingUpdate::Smoothing(None)));
    assert_eq!(
        classify_setting_update("display_style", "tophalf"),
        Some(SettingUpdate::DisplayStyle(DisplayStyle::TopHalf))
    );
    assert_eq!(
        classify_setting_update("display_style", "sideways"),
        Some(SettingUpdate::DisplayStyle(DisplayStyle::Mirrored))
    );
    assert_eq!(
        classify_setting_update("color_scheme", "grayscale"),
        Some(SettingUpdate::ColorScheme(ColorScheme::Grayscale))
    );
    assert_eq!(
        classify_setting_update("color_scheme", "neon"),
        Some(SettingUpdate::ColorScheme(ColorScheme::AdditivePeachBlueLavender))
    );
    assert_eq!(
        classify_setting_update("normalize_mode", "global"),
        Some(SettingUpdate::NormalizeMode(NormalizeMode::Global))
    );
    assert_eq!(
        classify_setting_update("normalize_mode", "none"),
        Some(SettingUpdate::NormalizeMode(NormalizeMode::Raw))
    );
    assert_eq!(classify_setting_update("brightness", "1"), None);
}

#[test]
fn stored_names_as_live_updates() {
    for s in [DisplayStyle::Mirrored, DisplayStyle::TopHalf] {
        assert_eq!(
            classify_setting_update("display_style", display_style_to_str(s)),
            Some(SettingUpdate::DisplayStyle(s))
        );
    }
    for c in [ColorScheme::Monochrome, ColorScheme::PerBandSolid, ColorScheme::Grayscale] {
        assert_eq!(
            classify_setting_update("color_scheme", color_scheme_to_str(c)),
            Some(SettingUpdate::ColorScheme(c))
        );
    }
    for m in [NormalizeMode::Raw, NormalizeMode::PerBand, NormalizeMode::Global] {
        assert_eq!(
            classify_setting_update("normalize_mode", normalize_mode_to_str(m)),
            Some(SettingUpdate::NormalizeMode(m))
        );
    }
}

#[test]
fn text_equality() {
    assert!(str_eq("abc", "abc"));
    assert!(!str_eq("abc", "abd"));
    assert!(!str_eq("abc", "ab"));
    assert!(str_eq("", ""));
}

use tabby_zj::colors::{
    ansi_bg, ansi_fg, catppuccin_mocha, get_default_group_color, get_theme, hex_to_rgb,
    rgb_to_hex, rose_pine_dawn, Rgb, RESET, REVERSE,
};

#[test]
fn test_hex_to_rgb_valid() {
    let rgb = hex_to_rgb("#e74c3c").unwrap();
    assert_eq!(rgb.r, 231);
    assert_eq!(rgb.g, 76);
    assert_eq!(rgb.b, 60);
}

#[test]
fn test_hex_to_rgb_invalid() {
    assert!(hex_to_rgb("nothex").is_none());
    assert!(hex_to_rgb("#gg0000").is_none());
}

#[test]
fn test_rgb_to_hex_roundtrip() {
    let hex = "#3498db";
    let rgb = hex_to_rgb(hex).unwrap();
    assert_eq!(rgb_to_hex(&rgb), hex);
}

#[test]
fn test_default_group_color_palette() {
    assert_eq!(get_default_group_color(0), "#3498db");
    assert_eq!(get_default_group_color(12), "#3498db");
    assert_ne!(get_default_group_color(0), get_default_group_color(1));
}

#[test]
fn test_catppuccin_mocha_is_dark() {
    assert!(catppuccin_mocha().is_dark, "catppuccin-mocha should be dark");
}

#[test]
fn test_rose_pine_dawn_is_light() {
    assert!(!rose_pine_dawn().is_dark, "rose-pine-dawn should be light");
}

#[test]
fn test_get_theme_mocha() {
    assert!(
        get_theme("catppuccin-mocha").is_dark,
        "get_theme catppuccin-mocha should be dark"
    );
}

#[test]
fn test_get_theme_dawn() {
    assert!(
        !get_theme("rose-pine-dawn").is_dark,
        "get_theme rose-pine-dawn should be light"
    );
}

#[test]
fn test_get_theme_unknown_falls_back_to_dark() {
    assert!(
        get_theme("unknown-theme").is_dark,
        "unknown theme should fall back to catppuccin-mocha (dark)"
    );
}

#[test]
fn test_get_theme_empty_falls_back_to_dark() {
    assert!(
        get_theme("").is_dark,
        "empty theme name should fall back to catppuccin-mocha (dark)"
    );
}

#[test]
fn test_sidebar_bg_is_valid_hex() {
    let t = catppuccin_mocha();
    assert!(
        t.sidebar_bg.starts_with('#') && t.sidebar_bg.len() == 7,
        "catppuccin-mocha sidebar_bg should be a 7-char hex: {}",
        t.sidebar_bg
    );
}

#[test]
fn test_rose_pine_sidebar_bg_is_valid_hex() {
    let t = rose_pine_dawn();
    assert!(
        t.sidebar_bg.starts_with('#') && t.sidebar_bg.len() == 7,
        "rose-pine-dawn sidebar_bg should be a 7-char hex: {}",
        t.sidebar_bg
    );
}

#[test]
fn hex_to_rgb_accepts_upper_case_many_hashes_and_plus_sign() {
    let rgb = hex_to_rgb("##FF+a00").unwrap();
    assert_eq!((rgb.r, rgb.g, rgb.b), (255, 10, 0));
    assert!(hex_to_rgb("#fff").is_none());
    assert!(hex_to_rgb("").is_none());
    assert!(hex_to_rgb("#-10000").is_none());
}

#[test]
fn hex_to_rgb_rejects_non_ascii_that_stays_on_boundaries() {
    assert!(hex_to_rgb("#ééé").is_none());
}

#[test]
fn rgb_to_hex_is_lower_case_and_zero_padded() {
    let rgb = Rgb { r: 10, g: 0, b: 255 };
    assert_eq!(rgb_to_hex(&rgb), "#0a00ff");
    let back = hex_to_rgb(&rgb_to_hex(&rgb)).unwrap();
    assert_eq!((back.r, back.g, back.b), (10, 0, 255));
}

#[test]
fn palette_goes_round_after_twelve() {
    assert_eq!(get_default_group_color(11), "#27ae60");
    assert_eq!(get_default_group_color(13), "#2ecc71");
    assert_eq!(get_default_group_color(2), "#e74c3c");
}

#[test]
fn ansi_escapes_of_a_colour() {
    assert_eq!(ansi_fg("#e74c3c"), "\x1b[38;2;231;76;60m");
    assert_eq!(ansi_bg("#000000"), "\x1b[48;2;0;0;0m");
    assert_eq!(ansi_fg("nothex"), "");
    assert_eq!(ansi_bg(""), "");
    assert_eq!(RESET, "\x1b[0m");
    assert_eq!(REVERSE, "\x1b[7m");
}

#[test]
fn theme_colours() {
    let m = get_theme("catppuccin-mocha");
    assert_eq!(m.sidebar_bg, "#1e1e2e");
    assert_eq!(m.menu_selected_fg, "#ffffff");
    let d = get_theme("rose-pine-dawn");
    assert_eq!(d.sidebar_fg, "#575279");
    assert_eq!(d.menu_bg, "#ebe5e0");
    let c = d.clone();
    assert_eq!(c.divider_fg, "#dfdad9");
}

use togglite::ui::{dark_theme, palette, Rgb};

#[test]
fn project_colours_parse() {
    assert_eq!(Rgb::from_hex("#e55ca8"), Some(Rgb(0xe5, 0x5c, 0xa8)));
    assert_eq!(Rgb::from_hex(" ##3D8BFF "), Some(Rgb(0x3d, 0x8b, 0xff)));
    assert_eq!(Rgb::from_hex("+ABCDE"), Some(Rgb(0x0a, 0xbc, 0xde)));
    assert_eq!(Rgb::from_hex("#12345"), None);
    assert_eq!(Rgb::from_hex("#12345g"), None);
    assert_eq!(Rgb::from_hex("#1234567"), None);
    assert_eq!(Rgb::from_hex(""), None);
}

#[test]
fn palettes_differ() {
    assert_eq!(palette(true).bg, Rgb(0x1C, 0x1C, 0x21));
    assert_eq!(palette(false).bg, Rgb(0xFF, 0xFF, 0xFF));
    assert_eq!(palette(true).on_accent, palette(false).on_accent);
}

#[test]
fn theme_override_wins_over_the_system_setting() {
    assert!(dark_theme(Some("dark"), Some(1)));
    assert!(!dark_theme(Some("light"), Some(0)));
    assert!(dark_theme(Some("other"), Some(0)));
    assert!(dark_theme(None, Some(0)));
    assert!(!dark_theme(None, Some(1)));
    assert!(!dark_theme(None, None));
}

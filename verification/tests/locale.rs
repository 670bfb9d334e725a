use dhammapada::locale::{
    color_scheme, language_code, locale_dir, needs_english_fallback, theme_toggle_visible,
    ColorScheme, LocaleDir,
};

#[test]
fn language_codes() {
    assert_eq!(language_code("de_DE.UTF-8"), "de");
    assert_eq!(language_code("en_US.UTF-8"), "en");
    assert_eq!(language_code("pt"), "pt");
    assert_eq!(language_code("C.UTF-8"), "C");
    assert_eq!(language_code(".UTF-8"), "");
    assert_eq!(language_code(""), "");
    assert_eq!(language_code("sr_RS.UTF-8@latin"), "sr");
}

#[test]
fn english_fallback() {
    assert!(needs_english_fallback("de", false));
    assert!(!needs_english_fallback("de", true));
    assert!(!needs_english_fallback("en", false));
    assert!(!needs_english_fallback("", false));
    assert!(needs_english_fallback("eng", false));
}

#[test]
fn locale_directories() {
    assert_eq!(locale_dir(true, true), LocaleDir::AppImage);
    assert_eq!(locale_dir(true, false), LocaleDir::AppImage);
    assert_eq!(locale_dir(false, true), LocaleDir::WorkingDirectory);
    assert_eq!(locale_dir(false, false), LocaleDir::System);
}

#[test]
fn colour_scheme_and_toggle() {
    assert_eq!(color_scheme(true), ColorScheme::PreferDark);
    assert_eq!(color_scheme(false), ColorScheme::PreferLight);
    assert!(theme_toggle_visible(false));
    assert!(!theme_toggle_visible(true));
}

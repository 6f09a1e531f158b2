use boxlang_compiler::ui::{colors, format_seconds, UI};

#[test]
fn test_ui_creation() {
    let ui = UI::new();
    assert!(!ui.is_verbose());
}

#[test]
fn test_ui_verbose() {
    let ui = UI::verbose();
    assert!(ui.is_verbose());
}

#[test]
fn test_color_output() {
    let ui = UI::new();
    let colored = ui.color("test", colors::RED);
    assert!(colored.contains("test"));
}

#[test]
fn colors_wrap_text_only_when_enabled() {
    let on = UI::with_colors(true, false);
    assert_eq!(on.color("x", colors::RED), "\x1b[31mx\x1b[0m");
    let off = UI::with_colors(false, false);
    assert_eq!(off.color("x", colors::RED), "x");
}

#[test]
fn seconds_are_rounded_to_tenths() {
    assert_eq!(format_seconds(0), "0.0s");
    assert_eq!(format_seconds(1_249_999_999), "1.2s");
    assert_eq!(format_seconds(1_250_000_000), "1.3s");
    assert_eq!(format_seconds(12_000_000_000), "12.0s");
    assert!(UI::new().elapsed().ends_with('s'));
}

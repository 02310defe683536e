use wy_ui::color::Color;
use wy_ui::theme::Colors;

#[test]
fn light_palette_defaults() {
    let c = Colors::light();
    assert_eq!(c.background, Color::white());
    assert_eq!(c.text, Color::black());
    assert_eq!(c.primary.to_u32(), 0x0078D4FF);
}

#[test]
fn dark_theme_defaults() {
    let c = Colors::dark();
    assert_eq!(c.background, Color::rgba(30, 30, 30, 255));
    assert_eq!(c.text, Color::rgba(240, 240, 240, 255));
    assert_eq!(c.button_text.to_u32(), 0xF0F0F0FF);
}

#[test]
fn theme_colors_are_distinct() {
    let c = Colors::light();
    assert_ne!(c.background, c.text);
    assert_ne!(c.button_background, c.button_hover_background);
}

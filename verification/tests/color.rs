use wy_ui::color::Color;

#[test]
fn color_rgba_roundtrip() {
    let c = Color::rgba(12, 34, 56, 78);
    assert_eq!(c.red(), 12);
    assert_eq!(c.green(), 34);
    assert_eq!(c.blue(), 56);
    assert_eq!(c.alpha(), 78);
    assert_eq!(c.to_u32(), 0x0c22384e);
}

#[test]
fn color_from_u32_roundtrip() {
    let v = 0x11223344;
    let c = Color::from_u32(v);
    assert_eq!(c.to_u32(), v);
    assert_eq!(Color::from(c), c);
    assert_eq!(u32::from(c), v);
}

#[test]
fn color_transparent_alpha_is_zero() {
    assert_eq!(Color::transparent().alpha(), 0);
    assert_eq!(Color::transparent().to_u32(), 0);
}

#[test]
fn color_white_is_opaque() {
    assert_eq!(Color::white().alpha(), 255);
    assert_eq!(Color::white().to_u32(), 0xffffffff);
}

#[test]
fn color_from_u32_channels() {
    let c = Color::from_u32(0xa1b2c3d4);
    assert_eq!((c.red(), c.green(), c.blue(), c.alpha()), (0xa1, 0xb2, 0xc3, 0xd4));
    assert_eq!(Color::from(0xa1b2c3d4u32), c);
    assert_eq!(c.to_srgb_u32(), 0xa1b2c3d4);
}

#[test]
fn color_rgb_is_opaque_and_presets() {
    assert_eq!(Color::rgb(1, 2, 3).to_u32(), 0x010203ff);
    assert_eq!(Color::black().to_u32(), 0x000000ff);
    assert_eq!(Color::opaque_red().to_u32(), 0xff0000ff);
    assert_eq!(Color::opaque_green().to_u32(), 0x008000ff);
    assert_eq!(Color::opaque_blue().to_u32(), 0x0000ffff);
    assert_eq!(Color::gray().to_u32(), 0x808080ff);
    assert_eq!(Color::light_gray().to_u32(), 0xe6e6e6ff);
    assert_eq!(Color::dark_gray().to_u32(), 0x404040ff);
    assert_eq!(Color::cyan().to_u32(), 0x00ffffff);
    assert_eq!(Color::magenta().to_u32(), 0xff00ffff);
    assert_eq!(Color::yellow().to_u32(), 0xffff00ff);
}

use pixesh::color::{blended, from_rgba_unmultiplied, mix, Color};

#[test]
fn blended_over_white_half_alpha() {
    // (0 * 128 + 255 * 127) / 255 = 127
    assert_eq!(blended(0, 0, 0, 128, 255, 255, 255), (127, 127, 127, 255));
}

#[test]
fn blended_transparent_gives_background() {
    assert_eq!(blended(10, 20, 30, 0, 1, 2, 3), (1, 2, 3, 255));
}

#[test]
fn blended_opaque_keeps_color() {
    assert_eq!(blended(10, 20, 30, 255, 200, 200, 200), (10, 20, 30, 255));
}

#[test]
fn blended_over_black() {
    // (200 * 51) / 255 = 40
    assert_eq!(blended(200, 100, 0, 51, 0, 0, 0), (40, 20, 0, 255));
}

#[test]
fn mix_formula() {
    assert_eq!(mix(255, 0, 255), 255);
    assert_eq!(mix(255, 0, 0), 0);
    assert_eq!(mix(100, 200, 100), ((100u32 * 100 + 200 * 155) / 255) as u8);
}

#[test]
fn unmultiplied_zero_alpha_is_transparent() {
    assert_eq!(from_rgba_unmultiplied(12, 34, 56, 0), Color::transparent());
}

#[test]
fn unmultiplied_opaque_keeps_channels() {
    assert_eq!(from_rgba_unmultiplied(12, 34, 56, 255), Color { r: 12, g: 34, b: 56, a: 255 });
}

#[test]
fn unmultiplied_half_alpha_premultiplies() {
    let c = from_rgba_unmultiplied(255, 0, 255, 128);
    assert_eq!(c.a, 128);
    assert!(c.r < 255 && c.r > 0);
    assert_eq!(c.g, 0);
    assert_eq!(c.r, c.b);
}

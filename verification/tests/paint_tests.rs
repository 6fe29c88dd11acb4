use pixesh::color::Color;
use pixesh::document::Document;

fn red() -> Color {
    Color { r: 255, g: 0, b: 0, a: 255 }
}

fn black() -> Color {
    Color { r: 0, g: 0, b: 0, a: 255 }
}

fn pix(d: &Document, x: usize, y: usize) -> Color {
    d.layers[d.active_layer].cels[d.active_frame][y * d.width + x]
}

fn count(d: &Document, c: Color) -> usize {
    d.layers[d.active_layer].cels[d.active_frame].iter().filter(|p| **p == c).count()
}

#[test]
fn paint_pixel_single() {
    let mut d = Document::new_sized("t", 4, 4);
    d.paint_pixel(1, 2, red(), 1);
    assert_eq!(pix(&d, 1, 2), red());
    assert_eq!(count(&d, red()), 1);
    assert!(d.canvas_dirty);
}

#[test]
fn paint_pixel_brush_three_centered() {
    let mut d = Document::new_sized("t", 5, 5);
    d.paint_pixel(2, 2, red(), 3);
    assert_eq!(count(&d, red()), 9);
    assert_eq!(pix(&d, 1, 1), red());
    assert_eq!(pix(&d, 3, 3), red());
    assert_eq!(pix(&d, 0, 0), Color::transparent());
}

#[test]
fn paint_pixel_brush_two_extends_right_down() {
    let mut d = Document::new_sized("t", 4, 4);
    d.paint_pixel(1, 1, red(), 2);
    assert_eq!(count(&d, red()), 4);
    assert_eq!(pix(&d, 2, 2), red());
    assert_eq!(pix(&d, 0, 0), Color::transparent());
}

#[test]
fn paint_pixel_clipped_at_edge() {
    let mut d = Document::new_sized("t", 4, 4);
    d.paint_pixel(0, 0, red(), 3);
    assert_eq!(count(&d, red()), 4);
}

#[test]
fn paint_respects_selection() {
    let mut d = Document::new_sized("t", 4, 4);
    d.sel = Some((0, 0, 1, 1));
    d.paint_pixel(1, 1, red(), 3);
    assert_eq!(count(&d, red()), 4);
    assert_eq!(pix(&d, 2, 2), Color::transparent());
}

#[test]
fn paint_line_bresenham() {
    let mut d = Document::new_sized("t", 4, 2);
    d.paint_line(0, 0, 3, 1, red(), 1);
    assert_eq!(count(&d, red()), 4);
    assert_eq!(pix(&d, 0, 0), red());
    assert_eq!(pix(&d, 1, 0), red());
    assert_eq!(pix(&d, 2, 1), red());
    assert_eq!(pix(&d, 3, 1), red());
}

#[test]
fn paint_line_to_itself_is_a_stamp() {
    let mut a = Document::new_sized("t", 5, 5);
    let mut b = Document::new_sized("t", 5, 5);
    a.paint_line(2, 2, 2, 2, red(), 3);
    b.paint_pixel(2, 2, red(), 3);
    assert_eq!(a.layers[0].cels[0], b.layers[0].cels[0]);
}

#[test]
fn paint_line_vertical_gap_free() {
    let mut d = Document::new_sized("t", 3, 6);
    d.paint_line(1, 5, 1, 0, red(), 1);
    for y in 0..6 {
        assert_eq!(pix(&d, 1, y), red());
    }
    assert_eq!(count(&d, red()), 6);
}

#[test]
fn flood_fill_stops_at_wall() {
    let mut d = Document::new_sized("t", 4, 3);
    for y in 0..3 {
        d.paint_pixel(2, y, black(), 1);
    }
    d.flood_fill(0, 0, red());
    for y in 0..3 {
        assert_eq!(pix(&d, 0, y as usize), red());
        assert_eq!(pix(&d, 1, y as usize), red());
        assert_eq!(pix(&d, 3, y as usize), Color::transparent());
    }
    assert_eq!(count(&d, red()), 6);
}

#[test]
fn flood_fill_is_four_connected() {
    let mut d = Document::new_sized("t", 2, 2);
    d.paint_pixel(1, 0, black(), 1);
    d.paint_pixel(0, 1, black(), 1);
    d.flood_fill(0, 0, red());
    assert_eq!(pix(&d, 0, 0), red());
    assert_eq!(pix(&d, 1, 1), Color::transparent());
}

#[test]
fn flood_fill_same_color_changes_nothing() {
    let mut d = Document::new_sized("t", 3, 3);
    d.flood_fill(0, 0, red());
    let before = d.layers[0].cels[0].clone();
    d.canvas_dirty = false;
    d.flood_fill(1, 1, red());
    assert_eq!(d.layers[0].cels[0], before);
    assert!(!d.canvas_dirty);
}

#[test]
fn flood_fill_off_canvas_does_nothing() {
    let mut d = Document::new_sized("t", 3, 3);
    d.flood_fill(-1, 0, red());
    d.flood_fill(3, 0, red());
    assert_eq!(count(&d, red()), 0);
}

#[test]
fn flood_fill_inside_selection_only() {
    let mut d = Document::new_sized("t", 4, 4);
    d.sel = Some((0, 0, 1, 1));
    d.flood_fill(0, 0, red());
    assert_eq!(count(&d, red()), 4);
}

#[test]
fn mirror_horizontal_moves_pixel() {
    let mut d = Document::new_sized("t", 4, 3);
    d.paint_pixel(0, 1, red(), 1);
    d.mirror_horizontal();
    assert_eq!(pix(&d, 3, 1), red());
    assert_eq!(pix(&d, 0, 1), Color::transparent());
}

#[test]
fn mirror_twice_restores() {
    let mut d = Document::new_sized("t", 5, 3);
    d.paint_pixel(1, 0, red(), 1);
    d.paint_pixel(4, 2, black(), 1);
    let before = d.layers[0].cels[0].clone();
    d.mirror_horizontal();
    d.mirror_horizontal();
    assert_eq!(d.layers[0].cels[0], before);
    d.mirror_vertical();
    assert_ne!(d.layers[0].cels[0], before);
    d.mirror_vertical();
    assert_eq!(d.layers[0].cels[0], before);
}

#[test]
fn mirror_vertical_moves_pixel() {
    let mut d = Document::new_sized("t", 2, 3);
    d.paint_pixel(1, 0, red(), 1);
    d.mirror_vertical();
    assert_eq!(pix(&d, 1, 2), red());
}

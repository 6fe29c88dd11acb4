use pixesh::color::Color;
use pixesh::document::Document;

fn red() -> Color {
    Color { r: 255, g: 0, b: 0, a: 255 }
}

fn pix(d: &Document, x: usize, y: usize) -> Color {
    d.layers[d.active_layer].cels[d.active_frame][y * d.width + x]
}

#[test]
fn resize_keeps_top_left() {
    let mut d = Document::new_sized("t", 4, 4);
    d.paint_pixel(1, 1, red(), 1);
    d.paint_pixel(3, 3, red(), 1);
    d.resize_canvas(2, 3);
    assert_eq!((d.width, d.height), (2, 3));
    assert_eq!(d.layers[0].cels[0].len(), 6);
    assert_eq!(pix(&d, 1, 1), red());
    assert_eq!(d.layers[0].cels[0].iter().filter(|p| **p == red()).count(), 1);
}

#[test]
fn resize_grows_with_transparency() {
    let mut d = Document::new_sized("t", 1, 1);
    d.paint_pixel(0, 0, red(), 1);
    d.resize_canvas(3, 2);
    assert_eq!(pix(&d, 0, 0), red());
    assert_eq!(pix(&d, 2, 1), Color::transparent());
}

#[test]
fn crop_to_selection_cuts() {
    let mut d = Document::new_sized("t", 4, 4);
    d.paint_pixel(2, 2, red(), 1);
    d.sel = Some((1, 1, 2, 2));
    d.crop_to_selection();
    assert_eq!((d.width, d.height), (2, 2));
    assert_eq!(pix(&d, 1, 1), red());
    assert_eq!(d.sel, None);
    assert_eq!(d.undo_stack.len(), 1);
}

#[test]
fn crop_without_selection_does_nothing() {
    let mut d = Document::new_sized("t", 4, 4);
    d.crop_to_selection();
    assert_eq!((d.width, d.height), (4, 4));
    assert_eq!(d.undo_stack.len(), 0);
}

#[test]
fn scale_up_nearest_neighbour() {
    let mut d = Document::new_sized("t", 2, 2);
    d.paint_pixel(0, 0, red(), 1);
    d.scale_image(4, 4);
    assert_eq!((d.width, d.height), (4, 4));
    assert_eq!(pix(&d, 0, 0), red());
    assert_eq!(pix(&d, 1, 1), red());
    assert_eq!(pix(&d, 2, 0), Color::transparent());
    assert_eq!(d.layers[0].cels[0].iter().filter(|p| **p == red()).count(), 4);
}

#[test]
fn scale_down_samples() {
    let mut d = Document::new_sized("t", 4, 4);
    d.paint_pixel(2, 2, red(), 1);
    d.scale_image(2, 2);
    // new pixel (1, 1) samples old (2, 2)
    assert_eq!(pix(&d, 1, 1), red());
    assert_eq!(pix(&d, 0, 0), Color::transparent());
}

#[test]
fn scale_to_zero_does_nothing() {
    let mut d = Document::new_sized("t", 2, 2);
    d.scale_image(0, 5);
    assert_eq!((d.width, d.height), (2, 2));
    assert_eq!(d.undo_stack.len(), 0);
}

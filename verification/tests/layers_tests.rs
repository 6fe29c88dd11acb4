use pixesh::color::Color;
use pixesh::document::Document;

fn red() -> Color {
    Color { r: 255, g: 0, b: 0, a: 255 }
}

fn blue() -> Color {
    Color { r: 0, g: 0, b: 255, a: 255 }
}

#[test]
fn new_document_shape() {
    let d = Document::new("Untitled");
    assert_eq!((d.width, d.height), (16, 16));
    assert_eq!(d.layers.len(), 1);
    assert_eq!(d.layers[0].name, "Background");
    assert!(d.layers[0].visible);
    assert_eq!(d.frames, 1);
    assert_eq!(d.layers[0].cels[0].len(), 256);
    assert_eq!(d.export_name, "pixesh.png");
    assert!(!d.unsaved);
}

#[test]
fn add_layer_names_and_activates() {
    let mut d = Document::new_sized("t", 2, 2);
    d.add_layer();
    d.add_layer();
    assert_eq!(d.layers[1].name, "Layer 1");
    assert_eq!(d.layers[2].name, "Layer 2");
    assert_eq!(d.active_layer, 2);
    assert_eq!(d.layers[2].cels[0], vec![Color::transparent(); 4]);
}

#[test]
fn remove_last_layer_is_refused() {
    let mut d = Document::new_sized("t", 2, 2);
    d.remove_layer(0);
    assert_eq!(d.layers.len(), 1);
    assert_eq!(d.undo_stack.len(), 0);
}

#[test]
fn remove_layer_moves_active_down() {
    let mut d = Document::new_sized("t", 2, 2);
    d.add_layer();
    d.remove_layer(1);
    assert_eq!(d.layers.len(), 1);
    assert_eq!(d.active_layer, 0);
}

#[test]
fn duplicate_layer_copies() {
    let mut d = Document::new_sized("t", 2, 2);
    d.paint_pixel(0, 0, red(), 1);
    d.duplicate_layer(0);
    assert_eq!(d.layers.len(), 2);
    assert_eq!(d.layers[1].name, "Background copy");
    assert_eq!(d.layers[1].cels[0], d.layers[0].cels[0]);
}

#[test]
fn composite_takes_topmost_visible() {
    let mut d = Document::new_sized("t", 2, 1);
    d.paint_pixel(0, 0, red(), 1);
    d.add_layer();
    d.paint_pixel(0, 0, blue(), 1);
    d.paint_pixel(1, 0, blue(), 1);
    let flat = d.composite();
    assert_eq!(flat[0], red());
    assert_eq!(flat[1], blue());
    d.toggle_layer_visible(0);
    let flat = d.composite();
    assert_eq!(flat[0], blue());
    d.toggle_layer_visible(1);
    let flat = d.composite();
    assert_eq!(flat, vec![Color::transparent(); 2]);
}

#[test]
fn flatten_merges_visible_layers() {
    let mut d = Document::new_sized("t", 2, 1);
    d.paint_pixel(0, 0, red(), 1);
    d.add_layer();
    d.paint_pixel(1, 0, blue(), 1);
    let flat = d.composite();
    d.flatten_layers();
    assert_eq!(d.layers.len(), 1);
    assert_eq!(d.layers[0].cels[0], flat);
}

#[test]
fn frames_add_duplicate_delete() {
    let mut d = Document::new_sized("t", 2, 2);
    d.paint_pixel(0, 0, red(), 1);
    d.duplicate_frame();
    assert_eq!(d.frames, 2);
    assert_eq!(d.active_frame, 1);
    assert_eq!(d.layers[0].cels[1], d.layers[0].cels[0]);
    d.add_frame_blank();
    assert_eq!(d.frames, 3);
    assert_eq!(d.active_frame, 2);
    assert_eq!(d.layers[0].cels[2], vec![Color::transparent(); 4]);
    d.delete_frame();
    assert_eq!(d.frames, 2);
    assert_eq!(d.active_frame, 1);
}

#[test]
fn delete_only_frame_is_refused() {
    let mut d = Document::new_sized("t", 2, 2);
    d.delete_frame();
    assert_eq!(d.frames, 1);
}

#[test]
fn move_frame_reorders() {
    let mut d = Document::new_sized("t", 1, 1);
    d.paint_pixel(0, 0, red(), 1);
    d.add_frame_blank();
    d.move_frame(0, 1);
    assert_eq!(d.layers[0].cels[1][0], red());
    assert_eq!(d.layers[0].cels[0][0], Color::transparent());
    assert_eq!(d.active_frame, 1);
    d.move_frame_earlier();
    assert_eq!(d.layers[0].cels[0][0], red());
    assert_eq!(d.active_frame, 0);
    d.move_frame_earlier();
    assert_eq!(d.layers[0].cels[0][0], red());
}

#[test]
fn composite_at_each_frame() {
    let mut d = Document::new_sized("t", 1, 1);
    d.add_frame_blank();
    d.paint_pixel(0, 0, blue(), 1);
    assert_eq!(d.composite_at(0)[0], Color::transparent());
    assert_eq!(d.composite_at(1)[0], blue());
    assert_eq!(d.composite_at(5)[0], Color::transparent());
}

#[test]
fn playback_advances_and_wraps() {
    let mut d = Document::new_sized("t", 1, 1);
    d.add_frame_blank();
    d.add_frame_blank();
    d.set_active_frame(0);
    d.advance_frame();
    assert_eq!(d.active_frame, 1);
    d.advance_frame();
    d.advance_frame();
    assert_eq!(d.active_frame, 0);
    d.set_active_frame(10);
    assert_eq!(d.active_frame, 2);
    d.toggle_playing();
    assert!(d.playing);
    d.stop_playing();
    assert!(!d.playing);
    assert_eq!(d.active_frame, 0);
}

#[test]
fn thumbnail_shows_checker_for_transparent() {
    let mut d = Document::new_sized("t", 2, 1);
    d.paint_pixel(1, 0, red(), 1);
    let t = d.thumbnail(0);
    assert_eq!(t[0], Color { r: 200, g: 200, b: 200, a: 255 });
    assert_eq!(t[1], red());
}

#[test]
fn display_lays_translucent_over_checker() {
    let mut d = Document::new_sized("t", 2, 1);
    d.paint_pixel(1, 0, Color { r: 0, g: 0, b: 0, a: 128 }, 1);
    let v = d.composite_display();
    assert_eq!(v[0], Color { r: 200, g: 200, b: 200, a: 255 });
    // (180 * 127) / 255 = 89
    assert_eq!(v[1], Color { r: 89, g: 89, b: 89, a: 255 });
}

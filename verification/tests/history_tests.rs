use pixesh::color::Color;
use pixesh::document::Document;

fn red() -> Color {
    Color { r: 255, g: 0, b: 0, a: 255 }
}

fn cel(d: &Document) -> Vec<Color> {
    d.layers[d.active_layer].cels[d.active_frame].clone()
}

#[test]
fn undo_reverts_a_stroke() {
    let mut d = Document::new_sized("t", 4, 4);
    let before = cel(&d);
    d.handle_brush_press(1, 1, red(), 1);
    assert_ne!(cel(&d), before);
    assert!(d.unsaved);
    d.undo();
    assert_eq!(cel(&d), before);
    assert_eq!(d.redo_stack.len(), 1);
}

#[test]
fn redo_after_undo_restores_the_edit() {
    let mut d = Document::new_sized("t", 4, 4);
    d.handle_brush_press(2, 3, red(), 1);
    let after = cel(&d);
    d.undo();
    d.redo();
    assert_eq!(cel(&d), after);
    assert_eq!(d.undo_stack.len(), 1);
    assert_eq!(d.redo_stack.len(), 0);
}

#[test]
fn undo_with_empty_stack_changes_nothing() {
    let mut d = Document::new_sized("t", 3, 3);
    d.undo();
    d.redo();
    assert_eq!(d.undo_stack.len(), 0);
    assert_eq!(d.redo_stack.len(), 0);
    assert_eq!(cel(&d), vec![Color::transparent(); 9]);
}

#[test]
fn new_edit_clears_redo() {
    let mut d = Document::new_sized("t", 3, 3);
    d.handle_brush_press(0, 0, red(), 1);
    d.undo();
    assert_eq!(d.redo_stack.len(), 1);
    d.handle_brush_press(1, 1, red(), 1);
    assert_eq!(d.redo_stack.len(), 0);
}

#[test]
fn history_is_capped_at_fifty() {
    let mut d = Document::new_sized("t", 2, 2);
    for _ in 0..60 {
        d.push_undo();
    }
    assert_eq!(d.undo_stack.len(), 50);
    for _ in 0..60 {
        d.undo();
    }
    assert_eq!(d.undo_stack.len(), 0);
    assert_eq!(d.redo_stack.len(), 50);
}

#[test]
fn undo_restores_size_after_resize() {
    let mut d = Document::new_sized("t", 4, 4);
    d.resize_canvas(2, 3);
    assert_eq!((d.width, d.height), (2, 3));
    d.undo();
    assert_eq!((d.width, d.height), (4, 4));
    assert_eq!(cel(&d).len(), 16);
    assert!(d.canvas_dirty);
}

#[test]
fn undo_undoes_layer_add() {
    let mut d = Document::new_sized("t", 2, 2);
    d.add_layer();
    assert_eq!(d.layers.len(), 2);
    d.undo();
    assert_eq!(d.layers.len(), 1);
    d.redo();
    assert_eq!(d.layers.len(), 2);
    assert_eq!(d.layers[1].name, "Layer 1");
}

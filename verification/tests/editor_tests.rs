use pixesh::canvas::{brush_cursor, PointerInput};
use pixesh::color::Color;
use pixesh::config::{settings_text, welcome_show_again};
use pixesh::document::Document;
use pixesh::editor::{Editor, Tool};
use pixesh::text::side_from_label;

fn red() -> Color {
    Color { r: 255, g: 0, b: 0, a: 255 }
}

fn green() -> Color {
    Color { r: 0, g: 255, b: 0, a: 255 }
}

fn blue() -> Color {
    Color { r: 0, g: 0, b: 255, a: 255 }
}

fn idle() -> PointerInput {
    PointerInput {
        pixel: None,
        primary_down: false,
        secondary_down: false,
        clicked_primary: false,
        clicked_secondary: false,
        drag_started: false,
        drag_stopped: false,
        dragged_primary: false,
        dragged_secondary: false,
        pressed_on: false,
    }
}

fn editor(w: usize, h: usize) -> Editor<()> {
    let mut e = Editor::new((), false);
    e.tabs[0].doc = Document::new_sized("t", w, h);
    e
}

fn pix(e: &Editor<()>, x: usize, y: usize) -> Color {
    let d = &e.tabs[e.active_tab].doc;
    d.layers[d.active_layer].cels[d.active_frame][y * d.width + x]
}

#[test]
fn new_editor_defaults() {
    let e: Editor<()> = Editor::new((), true);
    assert_eq!(e.tabs.len(), 1);
    assert_eq!(e.tool, Tool::Brush);
    assert_eq!(e.color, Color { r: 0, g: 0, b: 0, a: 255 });
    assert_eq!(e.brush, 1);
    assert!(e.dialogs.show_welcome);
    assert!(e.dialogs.dialog_open());
    assert_eq!(e.tabs[0].doc.name, "Untitled");
}

#[test]
fn color_history_moves_repeat_to_end_and_keeps_four() {
    let mut e = editor(2, 2);
    e.record_color(red());
    e.record_color(green());
    e.record_color(red());
    assert_eq!(e.color_history, vec![green(), red()]);
    e.record_color(blue());
    e.record_color(Color { r: 1, g: 1, b: 1, a: 255 });
    e.record_color(Color { r: 2, g: 2, b: 2, a: 255 });
    assert_eq!(e.color_history.len(), 4);
    assert_eq!(e.color_history[0], red());
    assert_eq!(e.color_history[3], Color { r: 2, g: 2, b: 2, a: 255 });
}

#[test]
fn alt_round_trip_restores_tool() {
    let mut e = editor(2, 2);
    e.tool = Tool::Fill;
    e.alt_eyedropper(true);
    assert_eq!(e.tool, Tool::Eyedropper);
    e.alt_eyedropper(true);
    assert_eq!(e.tool, Tool::Eyedropper);
    e.alt_eyedropper(false);
    assert_eq!(e.tool, Tool::Fill);
    assert_eq!(e.tool_saved, None);
}

#[test]
fn eyedrop_picks_top_color_and_records() {
    let mut e = editor(2, 1);
    e.tabs[0].doc.paint_pixel(1, 0, green(), 1);
    assert_eq!(e.eyedrop(1, 0), Some(green()));
    assert_eq!(e.color, green());
    assert_eq!(e.color_history, vec![green()]);
    assert_eq!(e.eyedrop(0, 0), Some(Color::transparent()));
    assert_eq!(e.color, Color::transparent());
    assert_eq!(e.color_history, vec![green()]);
    assert_eq!(e.eyedrop(5, 0), None);
}

#[test]
fn close_tab_variants() {
    let mut e = editor(2, 2);
    e.push_tab(Document::new_sized("b", 3, 3), ());
    e.push_tab(Document::new_sized("c", 4, 4), ());
    assert_eq!(e.active_tab, 2);
    e.close_tab(0, ());
    assert_eq!(e.tabs.len(), 2);
    assert_eq!(e.active_tab, 1);
    assert_eq!(e.tabs[1].doc.name, "c");
    e.next_tab();
    assert_eq!(e.active_tab, 0);
    e.close_tab(1, ());
    e.close_tab(0, ());
    assert_eq!(e.tabs.len(), 1);
    assert_eq!(e.tabs[0].doc.name, "Untitled");
    assert_eq!(e.tabs[0].doc.width, 16);
}

#[test]
fn any_unsaved_follows_documents() {
    let mut e = editor(2, 2);
    assert!(!e.any_unsaved());
    e.tabs[0].doc.handle_brush_press(0, 0, red(), 1);
    assert!(e.any_unsaved());
}

#[test]
fn brush_stroke_through_canvas_input() {
    let mut e = editor(4, 1);
    e.color = red();
    let mut inp = idle();
    inp.primary_down = true;
    inp.pressed_on = true;
    inp.pixel = Some((0, 0));
    e.canvas_input(inp);
    assert_eq!(pix(&e, 0, 0), red());
    assert_eq!(e.tabs[0].doc.undo_stack.len(), 1);
    let mut drag = idle();
    drag.primary_down = true;
    drag.dragged_primary = true;
    drag.pixel = Some((3, 0));
    e.canvas_input(drag);
    for x in 0..4 {
        assert_eq!(pix(&e, x, 0), red());
    }
    assert_eq!(e.tabs[0].doc.undo_stack.len(), 1);
    let mut up = idle();
    up.drag_stopped = true;
    e.canvas_input(up);
    assert_eq!(e.tabs[0].doc.last_px_primary, None);
}

#[test]
fn eraser_tool_paints_transparency() {
    let mut e = editor(2, 1);
    e.tabs[0].doc.paint_pixel(0, 0, red(), 1);
    e.tool = Tool::Eraser;
    let mut inp = idle();
    inp.primary_down = true;
    inp.pixel = Some((0, 0));
    e.canvas_input(inp);
    assert_eq!(pix(&e, 0, 0), Color::transparent());
}

#[test]
fn right_click_erases() {
    let mut e = editor(2, 1);
    e.tabs[0].doc.paint_pixel(1, 0, red(), 1);
    let mut inp = idle();
    inp.clicked_secondary = true;
    inp.pixel = Some((1, 0));
    e.canvas_input(inp);
    assert_eq!(pix(&e, 1, 0), Color::transparent());
    assert_eq!(e.tabs[0].doc.undo_stack.len(), 1);
}

#[test]
fn dialog_blocks_canvas() {
    let mut e = editor(2, 1);
    e.dialogs.show_settings = true;
    let mut inp = idle();
    inp.primary_down = true;
    inp.pixel = Some((0, 0));
    e.canvas_input(inp);
    assert_eq!(pix(&e, 0, 0), Color::transparent());
}

#[test]
fn eyedropper_click_through_canvas_input() {
    let mut e = editor(2, 1);
    e.tabs[0].doc.paint_pixel(1, 0, blue(), 1);
    e.tool = Tool::Eyedropper;
    let mut inp = idle();
    inp.clicked_primary = true;
    inp.pixel = Some((1, 0));
    e.canvas_input(inp);
    assert_eq!(e.color, blue());
    assert_eq!(e.color_history, vec![blue()]);
}

#[test]
fn fill_click_through_canvas_input() {
    let mut e = editor(3, 3);
    e.tool = Tool::Fill;
    e.color = green();
    let mut inp = idle();
    inp.clicked_primary = true;
    inp.pixel = Some((1, 1));
    e.canvas_input(inp);
    for y in 0..3 {
        for x in 0..3 {
            assert_eq!(pix(&e, x, y), green());
        }
    }
}

#[test]
fn select_then_move_selection() {
    let mut e = editor(4, 4);
    e.tabs[0].doc.paint_pixel(0, 0, red(), 1);
    e.tool = Tool::Select;
    let mut press = idle();
    press.primary_down = true;
    press.drag_started = true;
    press.pixel = Some((0, 0));
    e.canvas_input(press);
    let mut drag = idle();
    drag.primary_down = true;
    drag.dragged_primary = true;
    drag.pixel = Some((1, 1));
    e.canvas_input(drag);
    let mut up = idle();
    up.drag_stopped = true;
    e.canvas_input(up);
    assert_eq!(e.tabs[0].doc.sel, Some((0, 0, 1, 1)));
    // move it two to the right
    e.tool = Tool::Move;
    let mut grab = idle();
    grab.primary_down = true;
    grab.drag_started = true;
    grab.pixel = Some((0, 0));
    e.canvas_input(grab);
    let mut to = idle();
    to.primary_down = true;
    to.dragged_primary = true;
    to.pixel = Some((2, 0));
    e.canvas_input(to);
    let view = e.tabs[0].doc.canvas_view();
    assert_eq!(view[2], red());
    e.canvas_input(up);
    assert_eq!(pix(&e, 0, 0), Color::transparent());
    assert_eq!(pix(&e, 2, 0), red());
    assert_eq!(e.tabs[0].doc.sel, Some((2, 0, 3, 1)));
    e.tabs[0].doc.undo();
    assert_eq!(pix(&e, 0, 0), red());
}

#[test]
fn canvas_move_shifts_every_layer() {
    let mut e = editor(3, 1);
    e.tabs[0].doc.paint_pixel(0, 0, red(), 1);
    e.tool = Tool::Move;
    let mut press = idle();
    press.primary_down = true;
    press.drag_started = true;
    press.pixel = Some((0, 0));
    e.canvas_input(press);
    let mut drag = idle();
    drag.primary_down = true;
    drag.dragged_primary = true;
    drag.pixel = Some((1, 0));
    e.canvas_input(drag);
    let mut up = idle();
    up.drag_stopped = true;
    e.canvas_input(up);
    assert_eq!(pix(&e, 1, 0), red());
    assert_eq!(pix(&e, 0, 0), Color::transparent());
}

#[test]
fn copy_and_paste_centred() {
    let mut d = Document::new_sized("t", 4, 4);
    d.paint_pixel(0, 0, red(), 1);
    d.sel = Some((0, 0, 1, 1));
    d.copy_selection();
    assert_eq!(d.clip_w, 2);
    assert_eq!(d.clipboard.as_ref().unwrap()[0], red());
    d.paste_clipboard();
    assert!(d.pasting);
    assert_eq!(d.sel, Some((1, 1, 2, 2)));
    d.commit_pending_paste();
    assert!(!d.pasting);
    assert_eq!(d.sel, None);
    assert_eq!(d.layers[0].cels[0][1 * 4 + 1], red());
    d.undo();
    assert_eq!(d.layers[0].cels[0][1 * 4 + 1], Color::transparent());
}

#[test]
fn delete_selection_clears() {
    let mut d = Document::new_sized("t", 3, 3);
    d.paint_pixel(1, 1, red(), 3);
    d.sel = Some((0, 0, 0, 2));
    d.delete_selection();
    assert_eq!(d.sel, None);
    assert_eq!(d.layers[0].cels[0].iter().filter(|p| **p == red()).count(), 6);
}

#[test]
fn escape_closes_dialogs_or_deselects() {
    let mut e = editor(3, 3);
    e.tabs[0].doc.sel = Some((0, 0, 1, 1));
    e.dialogs.show_export = true;
    e.dialogs.show_text = true;
    e.escape();
    assert!(!e.dialogs.show_export);
    assert!(e.dialogs.show_text);
    assert_eq!(e.tabs[0].doc.sel, Some((0, 0, 1, 1)));
    e.dialogs.show_text = false;
    e.escape();
    assert_eq!(e.tabs[0].doc.sel, None);
}

#[test]
fn dialogs_open_only_when_none_is_open() {
    let mut e = editor(5, 7);
    e.open_resize();
    assert!(e.dialogs.show_resize);
    assert_eq!((e.resize_w, e.resize_h), (5, 7));
    e.open_scale();
    assert!(!e.dialogs.show_scale);
    e.resize_w = 2;
    e.apply_resize();
    assert!(!e.dialogs.show_resize);
    assert_eq!((e.tabs[0].doc.width, e.tabs[0].doc.height), (2, 7));
    e.tabs[0].doc.export_name = String::new();
    e.open_export();
    assert!(e.dialogs.show_export);
    assert_eq!(e.tabs[0].doc.export_name, "pixesh.png");
    e.finish_export();
    assert!(!e.dialogs.show_export);
}

#[test]
fn brush_scroll_clamps() {
    let mut e = editor(3, 2);
    e.brush_scroll(false);
    assert_eq!(e.brush, 1);
    e.brush_scroll(true);
    e.brush_scroll(true);
    e.brush_scroll(true);
    assert_eq!(e.brush, 3);
}

#[test]
fn enter_crops_to_selection() {
    let mut e = editor(4, 4);
    e.tabs[0].doc.sel = Some((1, 1, 2, 3));
    e.crop_on_enter();
    assert_eq!((e.tabs[0].doc.width, e.tabs[0].doc.height), (2, 3));
}

#[test]
fn quit_is_asked_once_per_request() {
    let mut e = editor(2, 2);
    assert!(!e.close_requested(true));
    e.tabs[0].doc.unsaved = true;
    assert!(e.close_requested(true));
    assert!(e.dialogs.show_quit);
    e.cancel_quit();
    assert!(!e.close_requested(true));
    assert!(!e.close_requested(false));
    assert!(e.close_requested(true));
}

#[test]
fn brush_cursor_square() {
    assert_eq!(brush_cursor(5, 5, 3, 10, 10), (4, 4, 7, 7));
    assert_eq!(brush_cursor(0, 0, 3, 10, 10), (0, 0, 2, 2));
    assert_eq!(brush_cursor(9, 9, 4, 10, 10), (8, 8, 10, 10));
}

#[test]
fn outline_of_drawn_selection_is_clamped() {
    let mut d = Document::new_sized("t", 4, 4);
    d.sel_start = Some((3, -2));
    d.sel_end = Some((9, 1));
    assert_eq!(d.outline_rect(), Some((3, 0, 3, 1)));
}

#[test]
fn settings_round_trip() {
    assert!(welcome_show_again(&settings_text(true)));
    assert!(!welcome_show_again(&settings_text(false)));
    assert_eq!(settings_text(false), "welcome_show_again=0\n");
}

#[test]
fn settings_parse_lines() {
    assert!(welcome_show_again(""));
    assert!(!welcome_show_again("x=1\n  welcome_show_again=0 \r\ny=2"));
    assert!(welcome_show_again("welcome_show_again=00"));
    assert!(welcome_show_again("# welcome_show_again=0"));
    assert!(!welcome_show_again("\u{3000}welcome_show_again=0"));
}

#[test]
fn tool_labels() {
    assert_eq!(Tool::Eyedropper.label(), "Dropper");
    assert_eq!(Tool::Move.label(), "Move");
}

#[test]
fn quick_action_sides() {
    assert_eq!(side_from_label("32x32"), 32);
    assert_eq!(side_from_label("128x128"), 128);
    assert_eq!(side_from_label("16x"), 16);
    assert_eq!(side_from_label("+8x8"), 8);
    assert_eq!(side_from_label("New File"), 16);
    assert_eq!(side_from_label("x64"), 16);
    assert_eq!(side_from_label("99999999999999999999999x1"), 16);
}

#[test]
fn whole_stroke_undone_at_once() {
    let mut e = editor(5, 1);
    e.color = red();
    let mut inp = idle();
    inp.primary_down = true;
    inp.pixel = Some((0, 0));
    e.canvas_input(inp);
    for x in 1..5 {
        let mut drag = idle();
        drag.primary_down = true;
        drag.dragged_primary = true;
        drag.pixel = Some((x, 0));
        e.canvas_input(drag);
    }
    assert_eq!(pix(&e, 4, 0), red());
    e.tabs[0].doc.undo();
    for x in 0..5 {
        assert_eq!(pix(&e, x, 0), Color::transparent());
    }
}

#[test]
fn clear_and_mirror_buttons_record_undo() {
    let mut d = Document::new_sized("t", 3, 1);
    d.paint_pixel(0, 0, red(), 1);
    d.add_layer();
    d.paint_pixel(1, 0, blue(), 1);
    d.clear_canvas();
    assert_eq!(d.layers[0].cels[0], vec![Color::transparent(); 3]);
    assert_eq!(d.layers[1].cels[0], vec![Color::transparent(); 3]);
    d.undo();
    assert_eq!(d.layers[0].cels[0][0], red());
    d.select_layer(0);
    d.mirror_with_undo(true);
    assert_eq!(d.layers[0].cels[0][2], red());
    d.undo();
    assert_eq!(d.layers[0].cels[0][0], red());
}

use pixesh::canvas::PointerInput;
use pixesh::color::{Color, from_rgba_unmultiplied};
use pixesh::document::Document;
use pixesh::editor::{Editor, Tool};
use pixesh::export::{export_pixels, ExportBg};
use pixesh::keys::{command_for, Command, Key};

fn red() -> Color {
    Color { r: 255, g: 0, b: 0, a: 255 }
}

#[test]
fn ctrl_z_undoes_and_ctrl_shift_z_redoes() {
    assert_eq!(command_for(Key::Z, true, false, false, false), Some(Command::Undo));
    assert_eq!(command_for(Key::Z, true, true, false, false), Some(Command::Redo));
    assert_eq!(command_for(Key::Z, false, false, false, false), None);
}

#[test]
fn ctrl_shortcuts() {
    assert_eq!(command_for(Key::S, true, false, false, false), Some(Command::OpenExport));
    assert_eq!(command_for(Key::R, true, false, false, true), Some(Command::OpenResize));
    assert_eq!(command_for(Key::I, true, false, false, false), Some(Command::OpenScale));
    assert_eq!(command_for(Key::Tab, true, false, false, false), Some(Command::NextTab));
    assert_eq!(command_for(Key::D, true, false, false, false), Some(Command::Deselect));
    assert_eq!(command_for(Key::E, true, false, false, false), None);
}

#[test]
fn tool_keys_need_no_alt_and_no_text_focus() {
    assert_eq!(command_for(Key::B, false, false, false, false), Some(Command::SelectTool(Tool::Brush)));
    assert_eq!(command_for(Key::R, false, false, false, false), Some(Command::SelectTool(Tool::Select)));
    assert_eq!(command_for(Key::B, false, false, true, false), None);
    assert_eq!(command_for(Key::B, false, false, false, true), None);
    assert_eq!(command_for(Key::Y, false, false, false, false), Some(Command::Copy));
    assert_eq!(command_for(Key::P, false, false, false, false), Some(Command::Paste));
    assert_eq!(command_for(Key::D, false, false, false, false), Some(Command::MoreOpaque));
}

#[test]
fn delete_enter_escape_always_work() {
    assert_eq!(command_for(Key::Delete, false, false, true, true), Some(Command::DeleteSelection));
    assert_eq!(command_for(Key::Enter, false, false, false, true), Some(Command::Crop));
    assert_eq!(command_for(Key::Escape, false, true, false, true), Some(Command::Escape));
}

#[test]
fn export_reads_only_the_first_pixels_of_a_longer_buffer() {
    let buf = vec![red(), Color::transparent(), red()];
    let out = export_pixels(&buf, 2, 1, 1, ExportBg::Transparent);
    assert_eq!(out, vec![255, 0, 0, 255, 0, 0, 0, 0]);
}

#[test]
fn delete_clips_a_selection_hanging_off_the_canvas() {
    let mut d = Document::new_sized("t", 3, 2);
    d.paint_pixel(1, 1, red(), 3);
    d.sel = Some((2, -5, 9, 9));
    d.delete_selection();
    assert_eq!(d.layers[0].cels[0][2], Color::transparent());
    assert_eq!(d.layers[0].cels[0][1 * 3 + 2], Color::transparent());
    assert_eq!(d.layers[0].cels[0][1 * 3 + 1], red());
    assert_eq!(d.layers[0].cels[0].iter().filter(|p| **p == red()).count(), 4);
}

#[test]
fn copy_takes_the_part_on_the_canvas() {
    let mut d = Document::new_sized("t", 3, 3);
    d.paint_pixel(2, 2, red(), 1);
    d.sel = Some((1, 1, 10, 10));
    d.copy_selection();
    assert_eq!((d.clip_w, d.clip_h), (2, 2));
    assert_eq!(d.clipboard.as_ref().unwrap()[3], red());
    d.sel = Some((5, 5, 6, 6));
    d.copy_selection();
    assert_eq!((d.clip_w, d.clip_h), (2, 2));
}

#[test]
fn moving_a_selection_after_shrinking_the_canvas() {
    let mut e: Editor<()> = Editor::new((), false);
    e.tabs[0].doc = Document::new_sized("t", 4, 4);
    e.tabs[0].doc.paint_pixel(1, 1, red(), 1);
    e.tabs[0].doc.sel = Some((0, 0, 3, 3));
    e.tabs[0].doc.resize_canvas(2, 2);
    e.tool = Tool::Move;
    let press = PointerInput {
        pixel: Some((1, 1)), primary_down: true, secondary_down: false, clicked_primary: false, clicked_secondary: false,
        drag_started: true, drag_stopped: false, dragged_primary: false, dragged_secondary: false, pressed_on: true,
    };
    assert!(e.canvas_ready());
    e.canvas_input(press);
    assert_eq!(e.tabs[0].doc.sel, Some((0, 0, 1, 1)));
    assert_eq!((e.tabs[0].doc.sel_buf_w, e.tabs[0].doc.sel_buf_h), (2, 2));
}

#[test]
fn readiness_checks() {
    let mut e: Editor<()> = Editor::new((), false);
    assert!(e.canvas_ready());
    e.brush = usize::MAX;
    assert!(!e.canvas_ready());
    e.dialogs.show_settings = true;
    assert!(e.canvas_ready());
    e.resize_w = usize::MAX;
    e.resize_h = 2;
    assert!(!e.resize_ready());
    e.tabs[0].doc.sel = Some((20, 20, 30, 30));
    assert!(!e.crop_ready());
    e.tabs[0].doc.sel = Some((2, 2, 30, 30));
    assert!(e.crop_ready());
    assert!(e.tabs[0].doc.paste_ready());
    assert!(from_rgba_unmultiplied(1, 2, 3, 255) == Color { r: 1, g: 2, b: 3, a: 255 });
}

#[test]
fn wide_line_has_one_pixel_per_column() {
    let mut d = Document::new_sized("t", 8, 3);
    d.paint_line(0, 0, 7, 2, red(), 1);
    assert_eq!(d.layers[0].cels[0].iter().filter(|p| **p == red()).count(), 8);
    for x in 0..8 {
        let n = (0..3).filter(|y| d.layers[0].cels[0][y * 8 + x] == red()).count();
        assert_eq!(n, 1);
    }
}

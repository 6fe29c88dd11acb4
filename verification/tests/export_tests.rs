use pixesh::color::Color;
use pixesh::document::Document;
use pixesh::export::{export_pixel, export_plan, export_size, ExportBg, ExportPlan};
use pixesh::text::{file_safe_name, file_stem, frame_png_file, png_file, new_layer_name, copied_layer_name};

fn red() -> Color {
    Color { r: 255, g: 0, b: 0, a: 255 }
}

#[test]
fn export_pixel_backgrounds() {
    let c = Color { r: 10, g: 20, b: 30, a: 0 };
    assert_eq!(export_pixel(c, ExportBg::Transparent, 0, 0), (10, 20, 30, 0));
    assert_eq!(export_pixel(c, ExportBg::White, 0, 0), (255, 255, 255, 255));
    assert_eq!(export_pixel(c, ExportBg::Black, 0, 0), (0, 0, 0, 255));
    assert_eq!(export_pixel(c, ExportBg::Checker, 0, 0), (200, 200, 200, 255));
    assert_eq!(export_pixel(c, ExportBg::Checker, 1, 0), (180, 180, 180, 255));
    assert_eq!(export_pixel(red(), ExportBg::Checker, 1, 0), (255, 0, 0, 255));
}

#[test]
fn export_image_scaled() {
    let mut d = Document::new_sized("t", 2, 1);
    d.paint_pixel(0, 0, red(), 1);
    let bytes = d.export_image(2, ExportBg::Transparent);
    assert_eq!(bytes.len(), 4 * 4 * 2);
    // row 0: red red clear clear
    assert_eq!(&bytes[0..8], &[255, 0, 0, 255, 255, 0, 0, 255]);
    assert_eq!(&bytes[8..16], &[0, 0, 0, 0, 0, 0, 0, 0]);
    // row 1 repeats row 0
    assert_eq!(&bytes[16..32], &bytes[0..16]);
}

#[test]
fn export_scale_zero_counts_as_one() {
    let d = Document::new_sized("t", 3, 2);
    assert_eq!(d.export_image(0, ExportBg::White).len(), 4 * 3 * 2);
}

#[test]
fn export_sheet_puts_frames_side_by_side() {
    let mut d = Document::new_sized("t", 1, 1);
    d.add_frame_blank();
    d.paint_pixel(0, 0, red(), 1);
    let bytes = d.export_sheet(1, ExportBg::Black);
    assert_eq!(bytes, vec![0, 0, 0, 255, 255, 0, 0, 255]);
}

#[test]
fn export_layer_and_frame() {
    let mut d = Document::new_sized("t", 1, 1);
    d.paint_pixel(0, 0, red(), 1);
    d.add_layer();
    assert_eq!(d.export_layer(0, 1, ExportBg::Transparent), vec![255, 0, 0, 255]);
    assert_eq!(d.export_layer(1, 1, ExportBg::Transparent), vec![0, 0, 0, 0]);
    assert_eq!(d.export_frame(0, 1, ExportBg::Transparent), vec![255, 0, 0, 255]);
}

#[test]
fn plan_choices() {
    assert_eq!(export_plan(true, false, 3), ExportPlan::Sheet);
    assert_eq!(export_plan(false, true, 3), ExportPlan::Frames);
    assert_eq!(export_plan(true, true, 1), ExportPlan::Single { each_layer: true });
    assert_eq!(export_plan(false, false, 1), ExportPlan::Single { each_layer: false });
}

#[test]
fn out_sizes() {
    assert_eq!(export_size(16, 8, 3, true, 2), (96, 16));
    assert_eq!(export_size(16, 8, 3, false, 2), (32, 16));
    assert_eq!(export_size(16, 8, 1, true, 0), (16, 8));
}

#[test]
fn names_and_paths() {
    assert_eq!(file_stem("art.final.png"), "art.final");
    assert_eq!(file_stem("noext"), "noext");
    assert_eq!(file_stem(".hidden"), "");
    assert_eq!(png_file("/home/u", "art"), "/home/u/art.png");
    assert_eq!(frame_png_file("out", "walk", 12), "out/walk_12.png");
    assert_eq!(file_safe_name("a/b\\c:d"), "a-b-c-d");
    assert_eq!(new_layer_name(0), "Layer 0");
    assert_eq!(new_layer_name(105), "Layer 105");
    assert_eq!(copied_layer_name(&String::from("Sky")), "Sky copy");
}

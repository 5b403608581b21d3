//! Whole sessions, on fixed-point numbers.

use roi_selector::app::{Progress, RoiApp, Viewer};
use roi_selector::colormap::Colormap;
use roi_selector::editor::PointerReport;
use roi_selector::fixed::Fixed;
use roi_selector::handles::Placement;
use roi_selector::integrate::{data_range, integrate, Integration};
use roi_selector::loader::{load_paths, ImageStack};
use roi_selector::mask::{count, Mask};
use roi_selector::paths::{PathPart, SourcePath};
use roi_selector::picture::paint_mask;
use roi_selector::roi::{Geometry, SaveError, Tool};
use roi_selector::samples::Sample;
use roi_selector::scalar::Scalar;
use roi_selector::selection::load_initial_mask;

fn n(v: i32) -> Fixed {
    Fixed::whole(v)
}

fn file(index: usize, name: &str) -> SourcePath {
    let extension = name.rsplit_once('.').map(|(_, ext)| ext.to_owned());
    SourcePath {
        index,
        shown: format!("dir/{name}"),
        file_name: Some(name.to_owned()),
        extension,
        parts: vec![PathPart { rank: 4, name: name.as_bytes().to_vec() }],
    }
}

/// Two frames of 6 rows and 8 columns: the column, and ten times the row.
fn stack() -> ImageStack<Fixed> {
    let mut out = std::io::Cursor::new(Vec::new());
    {
        let mut enc = tiff::encoder::TiffEncoder::new(&mut out).unwrap();
        let a: Vec<u8> = (0..48).map(|i| (i % 8) as u8).collect();
        let b: Vec<u8> = (0..48).map(|i| (i / 8 * 10) as u8).collect();
        enc.write_image::<tiff::encoder::colortype::Gray8>(8, 6, &a).unwrap();
        enc.write_image::<tiff::encoder::colortype::Gray8>(8, 6, &b).unwrap();
    }
    load_paths(vec![file(0, "run.tif")], &vec![out.into_inner()]).unwrap()
}

fn opened() -> RoiApp<Fixed> {
    let mut app = RoiApp::new(None);
    assert!(app.start_load(1));
    app.poll_load(Ok(stack()));
    app
}

fn place() -> Placement<Fixed> {
    Placement { left: n(0), top: n(0), scale: n(100) }
}

fn report(x: i32, y: i32) -> PointerReport<Fixed> {
    PointerReport {
        hover: None,
        pointer: Some((n(x), n(y))),
        press: Some((n(x), n(y))),
        clicked: false,
        drag_started: false,
        dragged: false,
        drag_stopped: false,
        delete_key: false,
        typing: false,
    }
}

/// Draws from one corner to the other, in hundredths of a pixel.
fn draw(app: &mut RoiApp<Fixed>, a: (i32, i32), b: (i32, i32)) {
    app.handle_interaction(&place(), &PointerReport { drag_started: true, dragged: true, ..report(a.0, a.1) });
    app.handle_interaction(&place(), &PointerReport { dragged: true, ..report(b.0, b.1) });
    app.handle_interaction(&place(), &PointerReport { drag_stopped: true, ..report(b.0, b.1) });
}

#[test]
fn the_start_says_what_to_do() {
    let app: RoiApp<Fixed> = RoiApp::new(None);
    assert_eq!(app.status, "Open a TIFF stack or a .npy image to begin.");
    assert!(matches!(app.viewer(), Viewer::Empty));
    let bar = app.status_bar();
    assert!(!bar.can_save && bar.finish_label.is_none());
    assert_eq!((bar.selected_text.as_str(), bar.rois_text.as_str()), ("selected: 0 px", "ROIs: 0"));

    let app: RoiApp<Fixed> = RoiApp::new(Some(file(0, "m.tif")));
    assert_eq!(
        app.status,
        "Draw the region(s) of interest, then 'Save mask & quit' writes the mask to dir/m.tif"
    );
    assert_eq!(app.status_bar().finish_label.unwrap(), "✅ Save mask & quit");
    assert_eq!(app.status_bar().finish_hint.unwrap(), "Write the mask to dir/m.tif and close");

    let app: RoiApp<Fixed> =
        RoiApp::with_view(Some(file(0, "m.tif")), true, Some("Pick".to_owned()), None, true);
    assert_eq!(
        app.status,
        "Draw the region(s) of interest, then 'Return to main application' writes the mask to dir/m.tif"
    );
    assert_eq!(app.status_bar().finish_label.unwrap(), "⏎ Return to main application");
    assert!(app.show_instructions);
}

#[test]
fn loading_is_reported() {
    let mut app: RoiApp<Fixed> = RoiApp::new(None);
    app.note_progress(1, 2);
    assert_eq!(app.loading, None);
    assert!(!app.start_load(0));
    assert_eq!(app.status, "Open a TIFF stack or a .npy image to begin.");
    assert!(app.start_load(4));
    assert_eq!(app.status, "Loading 4 file(s)…");
    assert!(!app.toolbar().can_open);
    app.note_progress(1, 4);
    assert_eq!(app.loading, Some(Progress { done: 1, total: 4 }));
    match app.viewer() {
        Viewer::Loading { fraction, text } => {
            assert_eq!(fraction, Fixed { steps: 16384 });
            assert_eq!(text, "⏳ Loading 1 / 4 files");
        }
        _ => panic!("not loading"),
    }
    app.poll_load(Err("no such file".to_owned()));
    assert_eq!(app.status, "Load failed: no such file");
    assert!(app.loading.is_none() && app.toolbar().can_open);
}

#[test]
fn a_stack_is_shown() {
    let app = opened();
    assert_eq!(app.status, "Loaded 2 frame(s), 8×6 px (from run.tif …).");
    assert!(matches!(app.viewer(), Viewer::Image { width: 8, height: 6 }));
    assert_eq!((app.data_min, app.data_max), (n(0), n(57)));
    assert_eq!((app.vmin, app.vmax), (n(0), n(57)));
    assert!(app.fit_requested && app.img_dirty);
    let bar = app.toolbar();
    assert!(bar.can_open && bar.can_integrate && !bar.can_undo);
    assert_eq!(bar.integration_text, "Integrate: Sum");
    assert_eq!(bar.contrast_speed, Fixed { steps: 57 * 65536 / 200 });
}

#[test]
fn the_way_of_integrating_can_be_chosen() {
    let mut app = opened();
    app.set_integration(Integration::Max);
    assert_eq!(app.data_max, n(50));
    assert_eq!(app.image.as_ref().unwrap().get(0, 7), n(7));
    app.set_integration(Integration::Mean);
    assert_eq!(app.image.as_ref().unwrap().get(5, 7), Fixed { steps: 57 * 32768 });
    assert_eq!(app.toolbar().integration_text, "Integrate: Mean");
}

#[test]
fn a_single_frame_can_be_shown() {
    let mut app = RoiApp::with_view(None, false, None, None, false);
    app.poll_load(Ok(stack()));
    assert_eq!(app.data_max, n(7));
    app.set_view(false, 1);
    assert_eq!(app.data_max, n(50));
    app.set_view(true, 1);
    assert_eq!(app.data_max, n(57));
}

#[test]
fn contrast_can_be_set() {
    let mut app = opened();
    app.img_dirty = false;
    app.set_contrast(n(3), n(9));
    assert!(app.img_dirty);
    assert_eq!((app.vmin, app.vmax), (n(3), n(9)));
    app.auto_contrast();
    assert_eq!((app.vmin, app.vmax), (n(0), n(57)));
}

#[test]
fn zooming_stays_in_range() {
    let mut app = opened();
    app.zoom_in();
    assert_eq!(app.scale, Fixed { steps: 81920 });
    app.zoom_out();
    assert_eq!(app.scale, n(1));
    for _ in 0..100 {
        app.zoom_in();
    }
    assert_eq!(app.scale, n(64));
    for _ in 0..100 {
        app.zoom_out();
    }
    assert_eq!(app.scale, Fixed { steps: 1310 });
    app.fit((n(80), n(30)));
    assert_eq!(app.scale, n(5));
    app.fit((n(800), n(300)));
    assert_eq!(app.scale, n(5));
    app.request_fit();
    app.fit((n(8000), n(3000)));
    assert_eq!(app.scale, n(64));
}

#[test]
fn the_pixel_under_the_pointer_is_read() {
    let mut app = opened();
    let over = |x: i32, y: i32| PointerReport {
        hover: Some((n(x), n(y))),
        pointer: None,
        press: None,
        ..report(0, 0)
    };
    app.handle_interaction(&place(), &over(799, 199));
    assert_eq!(app.cursor, Some((7, 1, n(17))));
    app.handle_interaction(&place(), &over(800, 199));
    assert_eq!(app.cursor, None);
    app.handle_interaction(&place(), &over(-1, 199));
    assert_eq!(app.cursor, None);
}

#[test]
fn the_count_is_live() {
    let mut app = opened();
    assert_eq!(app.ensure_mask_texture(), Some(vec![0; 192]));
    draw(&mut app, (100, 100), (300, 400));
    let picture = app.ensure_mask_texture().unwrap();
    assert_eq!(app.selected_count, 6);
    assert_eq!(&picture[(8 + 1) * 4..(8 + 2) * 4], &[40, 220, 120, 100]);
    assert_eq!(app.ensure_mask_texture(), None);
    assert!(app.status_bar().can_save);
    assert_eq!(app.status_bar().selected_text, "selected: 6 px");
    app.undo();
    app.ensure_mask_texture();
    assert_eq!(app.selected_count, 0);
    assert!(!app.status_bar().can_save);
}

#[test]
fn a_region_that_is_dropped_is_not_counted() {
    let mut app = opened();
    app.handle_interaction(&place(), &PointerReport { drag_started: true, dragged: true, ..report(110, 110) });
    app.handle_interaction(&place(), &PointerReport { dragged: true, ..report(160, 160) });
    app.ensure_mask_texture();
    assert_eq!(app.selected_count, 1);
    app.handle_interaction(&place(), &PointerReport { drag_stopped: true, ..report(160, 160) });
    app.ensure_mask_texture();
    assert_eq!(app.selected_count, 0);
}

#[test]
fn the_image_is_painted_when_it_changed() {
    let mut app = opened();
    let picture = app.ensure_img_texture().unwrap();
    assert_eq!(picture.len(), 192);
    assert_eq!(&picture[0..4], &[68, 1, 84, 255]);
    assert_eq!(&picture[188..192], &[253, 231, 37, 255]);
    assert!(app.ensure_img_texture().is_none());
    app.set_colormap(Colormap::Gray);
    let picture = app.ensure_img_texture().unwrap();
    assert_eq!(&picture[4..8], &[4, 4, 4, 255]);
    assert_eq!(app.toolbar().colormap_text, "Colormap: Gray");
}

#[test]
fn the_mask_is_saved_with_the_regions() {
    let mut app = opened();
    draw(&mut app, (100, 100), (300, 400));
    let (bytes, ones) = app.write_mask(&file(0, "m.npy"));
    assert_eq!(ones, 6);
    let back = load_initial_mask::<Fixed>(file(0, "m.npy"), bytes.unwrap()).unwrap();
    assert_eq!(back.pixels(), app.composite_mask().pixels());
    assert!(back.get(1, 1) && back.get(3, 2) && !back.get(4, 1));
    app.mask_written(ones, &file(0, "m.npy"));
    assert_eq!(app.status, "Saved mask (6 px = 1) to dir/m.npy");
    let (refused, _) = app.write_mask(&file(0, "m.png"));
    assert!(matches!(refused, Err(SaveError::Unsupported { .. })));
    app.save_failed(&"disk full".to_owned());
    assert_eq!(app.status, "Save failed: disk full");
}

#[test]
fn saving_without_an_image_has_no_pixels() {
    let app: RoiApp<Fixed> = RoiApp::new(None);
    assert_eq!(app.composite_mask().dim(), (0, 0));
    let (bytes, ones) = app.write_mask(&file(0, "m.tif"));
    assert!(bytes.is_err() && ones == 0);
}

#[test]
fn a_starting_mask_is_part_of_the_selection() {
    let mut start = Mask::new(6, 8);
    start.set(5, 7, true);
    start.set(1, 1, true);
    let mut app = RoiApp::with_view(None, false, None, Some(start), true);
    app.poll_load(Ok(stack()));
    app.ensure_mask_texture();
    assert_eq!(app.selected_count, 2);
    app.editor.subtract = true;
    draw(&mut app, (0, 0), (300, 300));
    app.ensure_mask_texture();
    assert_eq!(app.selected_count, 1);
    assert!(app.composite_mask().get(5, 7));
}

#[test]
fn saving_under_a_name_needs_a_selection() {
    let mut app: RoiApp<Fixed> = RoiApp::new(None);
    assert_eq!(app.save_mask_dialog(), None);
    assert_eq!(app.status, "Nothing to save — load an image first.");
    let mut app = opened();
    app.ensure_mask_texture();
    assert_eq!(app.save_mask_dialog(), None);
    assert_eq!(app.status, "Nothing to save — draw at least one region first.");
    draw(&mut app, (100, 100), (300, 400));
    app.ensure_mask_texture();
    assert_eq!(app.save_mask_dialog(), Some("mask.tif".to_owned()));
    app.output_path = Some(file(0, "sample.npy"));
    assert_eq!(app.save_mask_dialog(), Some("sample.npy".to_owned()));
}

#[test]
fn a_new_stack_drops_the_regions() {
    let mut app = opened();
    draw(&mut app, (100, 100), (300, 400));
    app.ensure_mask_texture();
    app.apply_stack(stack());
    assert!(app.editor.rois.is_empty() && app.editor.snapshots.is_empty());
    assert_eq!(app.selected_count, 0);
    draw(&mut app, (100, 100), (300, 400));
    app.clear_rois();
    assert!(app.editor.rois.is_empty() && app.toolbar().can_undo);
    assert_eq!(app.editor.next_id, 2);
}

#[test]
fn integration_adds_and_compares() {
    let s = stack();
    let sum = integrate(&s, Integration::Sum);
    let mean = integrate(&s, Integration::Mean);
    assert_eq!(sum.get(3, 4), n(34));
    assert_eq!(mean.get(3, 4), n(17));
    assert_eq!(integrate(&s, Integration::Max).get(0, 4), n(4));
    assert_eq!(data_range(&sum.data), (n(0), n(57)));
    assert_eq!(data_range::<Fixed>(&Vec::new()), (n(0), n(1)));
}

#[test]
fn masks_are_counted_and_painted() {
    let pixels = vec![true, false, true];
    assert_eq!(count(&pixels), 2);
    let (picture, ones) = paint_mask(&pixels);
    assert_eq!(picture, vec![40, 220, 120, 100, 0, 0, 0, 0, 40, 220, 120, 100]);
    assert_eq!(ones, 2);
}

#[test]
fn stamps_can_be_repeated_and_overruled() {
    let g = Geometry::from_drag(Tool::Rectangle, (n(5), n(4)), (n(1), n(1)));
    let mut a = Mask::new(6, 6);
    g.stamp(&mut a, true);
    let mut b = a.duplicate();
    g.stamp(&mut b, true);
    assert_eq!(a.pixels(), b.pixels());
    assert_eq!(count(&a.pixels()), 12);
    g.stamp(&mut b, false);
    assert_eq!(count(&b.pixels()), 0);
}

#[test]
fn shapes_are_moved_exactly() {
    let mut g = Geometry::Circle { cx: n(3), cy: n(4), r: n(2) };
    assert!(g.contains(n(5), n(4)) && !g.contains(n(6), n(4)));
    g.translate(n(10), n(-1));
    assert_eq!(g.center(), (n(13), n(3)));
    assert!(g.contains(n(15), n(3)));
    g.translate(n(-10), n(1));
    assert_eq!(g.center(), (n(3), n(4)));
    assert_eq!(g.bbox(10, 10), (1, 2, 5, 6));
    assert_eq!(g.bbox(4, 4), (1, 2, 3, 3));
}

#[test]
fn fixed_point_numbers_calculate() {
    let half = Fixed { steps: 32768 };
    assert_eq!(n(7).over(n(2)), Fixed { steps: 7 * 32768 });
    assert_eq!(n(-7).over(n(2)), Fixed { steps: -7 * 32768 });
    assert_eq!(n(-7).over(n(2)).floor(), n(-4));
    assert_eq!(n(-7).over(n(2)).ceil(), n(-3));
    assert_eq!(n(-7).over(n(2)).round(), n(-4));
    assert_eq!(n(7).over(n(2)).round(), n(4));
    assert_eq!(n(-7).over(n(2)).truncated(), -3);
    assert_eq!(n(3).hypot(n(-4)), n(5));
    assert_eq!(n(2).root(), Fixed { steps: 92681 });
    assert_eq!(half.times(half), Fixed { steps: 16384 });
    assert_eq!(n(1).over(n(0)), Fixed { steps: i64::MAX });
    assert!(!n(1).over(n(0)).finite() && n(1).finite());
    assert_eq!(Fixed::highest().plus(n(1)), Fixed::highest());
    assert_eq!(n(5).clamped(n(0), n(3)), n(3));
    assert_eq!(n(-5).magnitude(), n(5));
    assert!(n(1).below(n(2)) && n(2).at_most(n(2)) && !n(2).below(n(2)));
}

#[test]
fn pixel_values_become_fixed_point_numbers() {
    let of = |s: Sample| Fixed::of_sample(s);
    assert_eq!(of(Sample::Unsigned(9)), n(9));
    assert_eq!(of(Sample::Signed(-9)), n(-9));
    assert_eq!(of(Sample::Unsigned(u64::MAX)), Fixed::highest());
    assert_eq!(of(Sample::Single(2.5f32.to_bits())), Fixed { steps: 163840 });
    assert_eq!(of(Sample::Single((-0.75f32).to_bits())), Fixed { steps: -49152 });
    assert_eq!(of(Sample::Single(1e-30f32.to_bits())), n(0));
    assert_eq!(of(Sample::Single(f32::from_bits(1).to_bits())), n(0));
    assert_eq!(of(Sample::Single(f32::INFINITY.to_bits())), Fixed::highest());
    assert_eq!(of(Sample::Single(f32::NEG_INFINITY.to_bits())), Fixed::lowest());
    assert_eq!(of(Sample::Single(f32::NAN.to_bits())), n(0));
    assert_eq!(of(Sample::Single(1e30f32.to_bits())), Fixed::highest());
    assert_eq!(of(Sample::Double(1234.5f64.to_bits())), Fixed { steps: 80904192 });
    assert_eq!(of(Sample::Double((-1e300f64).to_bits())), Fixed::lowest());
}

#[test]
fn colors_run_from_stop_to_stop() {
    let gray = Colormap::Gray.lut();
    assert_eq!(gray.len(), 256);
    assert_eq!((gray[0], gray[77], gray[255]), ((0, 0, 0), (77, 77, 77), (255, 255, 255)));
    let hot = Colormap::Hot.lut();
    assert_eq!((hot[85], hot[170]), ((255, 0, 0), (255, 255, 0)));
    assert_eq!(hot[1], (3, 0, 0));
    let names: Vec<&str> = Colormap::ALL.iter().map(|c| c.label()).collect();
    assert_eq!(names, vec!["Viridis", "Gray", "Hot"]);
}

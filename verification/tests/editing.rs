//! Editing regions, on fixed-point numbers.

use roi_selector::editor::{Editor, PointerReport, RowAction, UNDO_DEPTH};
use roi_selector::fixed::Fixed;
use roi_selector::handles::{
    apply_fields, cursor_for_handle, edit_geometry, resize_geom, shape_handles, CursorIcon, Fields,
    Handle, Placement,
};
use roi_selector::mask::Mask;
use roi_selector::picture::{draw_roi, Outline};
use roi_selector::roi::{Geometry, Tool};
use roi_selector::selection::composite;

fn n(v: i32) -> Fixed {
    Fixed::whole(v)
}

/// A number with a fraction, in halves.
fn halves(v: i64) -> Fixed {
    Fixed { steps: v * 32768 }
}

/// The image at the upper left of the screen, in its own size.
fn place() -> Placement<Fixed> {
    Placement { left: n(0), top: n(0), scale: n(1) }
}

fn nothing() -> PointerReport<Fixed> {
    PointerReport {
        hover: None,
        pointer: None,
        press: None,
        clicked: false,
        drag_started: false,
        dragged: false,
        drag_stopped: false,
        delete_key: false,
        typing: false,
    }
}

fn point(x: i32, y: i32) -> Option<(Fixed, Fixed)> {
    Some((n(x), n(y)))
}

/// A whole drag from one point to another.
fn drag(e: &mut Editor<Fixed>, a: (i32, i32), b: (i32, i32)) {
    let start = PointerReport {
        press: point(a.0, a.1),
        pointer: point(a.0, a.1),
        drag_started: true,
        dragged: true,
        ..nothing()
    };
    e.handle_interaction(&place(), &start);
    let on = PointerReport { pointer: point(b.0, b.1), dragged: true, ..nothing() };
    e.handle_interaction(&place(), &on);
    let end = PointerReport { pointer: point(b.0, b.1), drag_stopped: true, ..nothing() };
    e.handle_interaction(&place(), &end);
}

fn click(e: &mut Editor<Fixed>, x: i32, y: i32) {
    let report = PointerReport { pointer: point(x, y), clicked: true, ..nothing() };
    e.handle_interaction(&place(), &report);
}

fn rect(g: &Geometry<Fixed>) -> (Fixed, Fixed, Fixed, Fixed) {
    match *g {
        Geometry::Rect { x0, y0, x1, y1 } => (x0, y0, x1, y1),
        _ => panic!("no rectangle"),
    }
}

fn ids(e: &Editor<Fixed>) -> Vec<u32> {
    e.rois.iter().map(|r| r.id).collect()
}

#[test]
fn a_drag_draws_a_region() {
    let mut e = Editor::new();
    drag(&mut e, (10, 20), (40, 60));
    assert_eq!(ids(&e), vec![1]);
    assert_eq!(rect(&e.rois[0].geom), (n(10), n(20), n(40), n(60)));
    assert_eq!(e.rois[0].kind(), "Rectangle");
    assert!(e.rois[0].additive && e.mask_dirty);
    assert_eq!(e.selected, Some(1));
    assert!(!e.drawing && !e.moving && e.resizing.is_none());
}

#[test]
fn subtract_and_tool_shape_what_is_drawn() {
    let mut e = Editor::new();
    e.tool = Tool::Circle;
    e.subtract = true;
    drag(&mut e, (50, 50), (53, 54));
    match e.rois[0].geom {
        Geometry::Circle { cx, cy, r } => assert_eq!((cx, cy, r), (n(50), n(50), n(5))),
        _ => panic!("no circle"),
    }
    assert!(!e.rois[0].additive);
    assert_eq!(e.rois[0].kind(), "Circle");
}

#[test]
fn a_drag_inside_moves_the_region() {
    let mut e = Editor::new();
    drag(&mut e, (100, 100), (200, 200));
    click(&mut e, 300, 300);
    assert_eq!(e.selected, None);
    drag(&mut e, (150, 150), (160, 145));
    assert_eq!(ids(&e), vec![1]);
    assert_eq!(rect(&e.rois[0].geom), (n(110), n(95), n(210), n(195)));
    assert_eq!(e.selected, Some(1));
}

#[test]
fn a_drag_of_a_handle_resizes_the_region() {
    let mut e = Editor::new();
    drag(&mut e, (100, 100), (200, 200));
    drag(&mut e, (200, 200), (250, 80));
    assert_eq!(rect(&e.rois[0].geom), (n(100), n(80), n(250), n(100)));
    e.undo();
    assert_eq!(rect(&e.rois[0].geom), (n(100), n(100), n(200), n(200)));
}

#[test]
fn a_small_drag_draws_nothing() {
    let mut e = Editor::new();
    drag(&mut e, (10, 10), (10, 10));
    assert!(e.rois.is_empty() && e.snapshots.is_empty());
    assert_eq!(e.selected, None);
    assert!(e.mask_dirty);
}

#[test]
fn the_topmost_region_is_selected() {
    let mut e = Editor::new();
    drag(&mut e, (100, 100), (200, 200));
    click(&mut e, 500, 500);
    drag(&mut e, (300, 150), (150, 300));
    assert_eq!(ids(&e), vec![1, 2]);
    assert_eq!(e.roi_at((n(175), n(175))), Some(2));
    assert_eq!(e.roi_at((n(110), n(110))), Some(1));
    assert_eq!(e.roi_at((n(500), n(500))), None);
    click(&mut e, 110, 110);
    assert_eq!(e.selected, Some(1));
}

#[test]
fn deleting_needs_a_selection_and_the_keyboard() {
    let mut e = Editor::new();
    drag(&mut e, (100, 100), (200, 200));
    let typing = PointerReport { delete_key: true, typing: true, ..nothing() };
    e.handle_interaction(&place(), &typing);
    assert_eq!(ids(&e), vec![1]);
    let free = PointerReport { delete_key: true, ..nothing() };
    e.handle_interaction(&place(), &free);
    assert!(e.rois.is_empty());
    assert_eq!(e.selected, None);
    e.undo();
    assert_eq!(ids(&e), vec![1]);
}

#[test]
fn clearing_can_be_undone() {
    let mut e = Editor::new();
    e.clear_rois();
    assert!(e.snapshots.is_empty());
    drag(&mut e, (100, 100), (200, 200));
    drag(&mut e, (300, 300), (400, 400));
    e.clear_rois();
    assert!(e.rois.is_empty());
    e.undo();
    assert_eq!(ids(&e), vec![1, 2]);
    e.undo();
    assert_eq!(ids(&e), vec![1]);
    assert_eq!(e.selected, None);
    e.undo();
    e.undo();
    assert!(e.rois.is_empty());
}

#[test]
fn undo_goes_back_as_far_as_its_depth() {
    let mut e: Editor<Fixed> = Editor::new();
    for k in 0..UNDO_DEPTH as i32 + 6 {
        drag(&mut e, (k * 100, 0), (k * 100 + 50, 50));
    }
    assert_eq!(e.rois.len(), UNDO_DEPTH + 6);
    assert_eq!(e.snapshots.len(), UNDO_DEPTH);
    for _ in 0..UNDO_DEPTH + 3 {
        e.undo();
    }
    assert_eq!(e.rois.len(), 6);
}

#[test]
fn a_new_image_drops_the_regions() {
    let mut e = Editor::new();
    drag(&mut e, (100, 100), (200, 200));
    e.reset();
    assert!(e.rois.is_empty() && e.snapshots.is_empty() && e.mask_dirty);
    assert_eq!((e.next_id, e.selected), (1, None));
}

#[test]
fn the_pointer_shows_what_a_drag_would_do() {
    let mut e = Editor::new();
    drag(&mut e, (100, 100), (200, 200));
    let over = |x: i32, y: i32| PointerReport { hover: point(x, y), ..nothing() };
    assert_eq!(e.handle_interaction(&place(), &over(100, 100)), Some(CursorIcon::ResizeNwSe));
    assert_eq!(e.handle_interaction(&place(), &over(200, 103)), Some(CursorIcon::ResizeNeSw));
    assert_eq!(e.handle_interaction(&place(), &over(150, 200)), Some(CursorIcon::ResizeVertical));
    assert_eq!(e.handle_interaction(&place(), &over(195, 150)), Some(CursorIcon::ResizeHorizontal));
    assert_eq!(e.handle_interaction(&place(), &over(150, 150)), Some(CursorIcon::Grab));
    assert_eq!(e.handle_interaction(&place(), &over(400, 400)), None);
    let dragging = PointerReport { dragged: true, ..over(150, 150) };
    assert_eq!(e.handle_interaction(&place(), &dragging), None);
}

#[test]
fn magnified_images_are_edited_in_pixels() {
    let mut e = Editor::new();
    let zoomed = Placement { left: n(10), top: n(20), scale: n(4) };
    let start = PointerReport {
        press: point(50, 60),
        pointer: point(50, 60),
        drag_started: true,
        ..nothing()
    };
    e.handle_interaction(&zoomed, &start);
    let end = PointerReport { pointer: point(90, 140), dragged: true, drag_stopped: true, ..nothing() };
    e.handle_interaction(&zoomed, &end);
    assert_eq!(rect(&e.rois[0].geom), (n(10), n(10), n(20), n(30)));
}

#[test]
fn rows_of_the_panel_act() {
    let mut e = Editor::new();
    drag(&mut e, (0, 0), (50, 50));
    drag(&mut e, (100, 100), (200, 200));
    e.mask_dirty = false;
    let quiet = RowAction { select: false, toggle: false, delete: false, edit: None };
    e.roi_panel(&vec![RowAction { select: true, ..quiet }, quiet]);
    assert_eq!(e.selected, Some(1));
    assert!(!e.mask_dirty);

    e.roi_panel(&vec![quiet, RowAction { toggle: true, ..quiet }]);
    assert!(e.rois[0].additive && !e.rois[1].additive && e.mask_dirty);

    let edit = Some(Fields::Rect { x: n(5), y: n(6), width: n(7), height: n(-8) });
    e.roi_panel(&vec![RowAction { edit, ..quiet }, RowAction { edit, ..quiet }]);
    assert_eq!(rect(&e.rois[0].geom), (n(5), n(6), n(12), n(6)));
    assert_eq!(rect(&e.rois[1].geom), (n(100), n(100), n(200), n(200)));

    e.roi_panel(&vec![RowAction { delete: true, ..quiet }, quiet]);
    assert_eq!(ids(&e), vec![2]);
    assert_eq!(e.selected, None);
    e.undo();
    assert_eq!(ids(&e), vec![1, 2]);
}

#[test]
fn fields_show_and_change_a_region() {
    let g = Geometry::Rect { x0: n(9), y0: n(2), x1: n(3), y1: n(8) };
    match edit_geometry(&g) {
        Fields::Rect { x, y, width, height } => {
            assert_eq!((x, y, width, height), (n(3), n(2), n(6), n(6)));
        }
        _ => panic!("no rectangle"),
    }
    match apply_fields(&Fields::Ellipse { cx: n(1), cy: n(2), rx: n(-3), ry: n(4) }) {
        Geometry::Ellipse { cx, cy, rx, ry } => {
            assert_eq!((cx, cy, rx, ry), (n(1), n(2), n(0), n(4)));
        }
        _ => panic!("no ellipse"),
    }
    match apply_fields(&Fields::Circle { cx: n(1), cy: n(2), r: n(-3) }) {
        Geometry::Circle { r, .. } => assert_eq!(r, n(0)),
        _ => panic!("no circle"),
    }
}

#[test]
fn handles_stand_on_the_outline() {
    let g = Geometry::Rect { x0: n(0), y0: n(0), x1: n(4), y1: n(2) };
    let handles = shape_handles(&g);
    assert_eq!(handles.len(), 8);
    assert_eq!(handles[1], (Handle::Box { hx: 0, vy: -1 }, (n(2), n(0))));
    assert_eq!(handles[4], (Handle::Box { hx: 1, vy: 0 }, (n(4), n(1))));
    let c = Geometry::Circle { cx: n(5), cy: n(5), r: n(2) };
    let rim: Vec<(Fixed, Fixed)> = shape_handles(&c).into_iter().map(|(_, p)| p).collect();
    assert_eq!(rim, vec![(n(7), n(5)), (n(3), n(5)), (n(5), n(7)), (n(5), n(3))]);
    assert_eq!(cursor_for_handle(Handle::Radius), CursorIcon::ResizeHorizontal);
}

#[test]
fn circles_keep_half_a_pixel() {
    let mut g = Geometry::Circle { cx: n(5), cy: n(5), r: n(2) };
    resize_geom(&mut g, Handle::Radius, (n(5), n(5)));
    match g {
        Geometry::Circle { r, .. } => assert_eq!(r, halves(1)),
        _ => panic!("no circle"),
    }
    resize_geom(&mut g, Handle::Box { hx: 1, vy: 1 }, (n(50), n(50)));
    assert!(matches!(g, Geometry::Circle { .. }));
}

#[test]
fn ellipses_are_resized_by_their_box() {
    let mut g = Geometry::Ellipse { cx: n(10), cy: n(10), rx: n(4), ry: n(2) };
    resize_geom(&mut g, Handle::Box { hx: -1, vy: 0 }, (n(2), n(99)));
    match g {
        Geometry::Ellipse { cx, cy, rx, ry } => {
            assert_eq!((cx, cy, rx, ry), (n(8), n(10), n(6), n(2)));
        }
        _ => panic!("no ellipse"),
    }
}

#[test]
fn later_regions_decide() {
    let mut e = Editor::new();
    drag(&mut e, (0, 0), (60, 60));
    e.subtract = true;
    drag(&mut e, (100, 100), (20, 20));
    let mask = composite(&e.rois, &None, 80, 80);
    assert!(mask.get(10, 10) && !mask.get(30, 30) && !mask.get(70, 70));

    let mut start = Mask::new(80, 80);
    start.set(70, 5, true);
    start.set(30, 30, true);
    let mask = composite(&e.rois, &Some(start), 80, 80);
    assert!(mask.get(70, 5) && !mask.get(30, 30));

    let mask = composite(&e.rois, &Some(Mask::new(3, 3)), 80, 80);
    assert!(mask.get(10, 10));
}

#[test]
fn regions_are_painted() {
    let mut e = Editor::new();
    drag(&mut e, (0, 0), (60, 40));
    let zoomed = Placement { left: n(10), top: n(20), scale: n(2) };
    let plain = draw_roi(&e.rois[0], false, &zoomed);
    assert_eq!((plain.color, plain.fill, plain.stroke), ((0, 220, 160), None, 1));
    assert!(plain.center.is_none() && plain.handles.is_empty());
    match plain.outline {
        Outline::Rect { a, b } => assert_eq!((a, b), ((n(10), n(20)), (n(130), n(100)))),
        _ => panic!("no rectangle"),
    }
    e.rois[0].additive = false;
    let chosen = draw_roi(&e.rois[0], true, &zoomed);
    assert_eq!((chosen.color, chosen.fill, chosen.stroke), ((255, 150, 40), Some(60), 2));
    assert_eq!(chosen.center, Some((n(70), n(60))));
    assert_eq!(chosen.handles.len(), 8);
    assert_eq!(chosen.handles[0], (n(10), n(20)));
}

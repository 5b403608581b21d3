//! What each way of editing does to the regions, told by the regions themselves.

use vstd::prelude::*;

use crate::editor::{
    has_id, ids_ok, last_delete, last_select, place_of, topmost, without_id, EditorView,
    PointerReport, Roi, RowAction,
};
use crate::editor_laws::{
    drag_keeps_wf, drag_start_keeps_wf, dragged_along, idle, place_is_right, removal_is_right,
};
use crate::fixed::Fixed;
use crate::handles::{icon_of, resized, shape_of, CursorIcon, Handle, Placement};
use crate::raster_laws::{distance_is_by_squares, near, shape_moved};
use crate::roi::{distance_spec, Geometry};
use crate::scalar::Scalar;

verus! {

/// Where ids are unique, a region is found by its id.
pub proof fn an_id_leads_to_its_region<S>(rois: Seq<Roi<S>>, next_id: u32, k: int)
    requires
        ids_ok(rois, next_id),
        0 <= k < rois.len(),
    ensures
        place_of(rois, rois[k].id) == Some(k),
{
    place_is_right(rois, rois[k].id, 0);
    if let Some(j) = place_of(rois, rois[k].id) {
        if j < k {
            assert(rois[j].id != rois[k].id);
        } else if k < j {
            assert(rois[k].id != rois[j].id);
        }
    }
}

/// Removing an id takes the one region with that id out of the list, and keeps all
/// others in their order.
pub proof fn removal_takes_one_out<S>(rois: Seq<Roi<S>>, next_id: u32, k: int)
    requires
        ids_ok(rois, next_id),
        0 <= k < rois.len(),
    ensures
        without_id(rois, rois[k].id) == rois.remove(k),
    decreases rois.len(),
{
    let id = rois[k].id;
    let n = rois.len() - 1;
    let front = rois.drop_last();
    reveal(Seq::filter);
    assert forall|i: int| 0 <= i < front.len() implies 1 <= (#[trigger] front[i]).id < next_id by {
        assert(rois[i].id < next_id);
    }
    assert forall|i: int, j: int| 0 <= i < j < front.len() implies (#[trigger] front[i]).id != (
    #[trigger] front[j]).id by {
        assert(rois[i].id != rois[j].id);
    }
    if k == n {
        assert forall|i: int| 0 <= i < front.len() implies (#[trigger] front[i]).id != id by {
            assert(rois[i].id != rois[n].id);
        }
        lemma_nothing_to_remove(front, id);
        assert(rois.remove(k) =~= front);
    } else {
        removal_takes_one_out(front, next_id, k);
        assert(rois[k].id != rois[n].id);
        assert(rois.remove(k) =~= front.remove(k).push(rois[n]));
    }
}

/// Removing an id that no region has changes nothing.
proof fn lemma_nothing_to_remove<S>(rois: Seq<Roi<S>>, id: u32)
    requires
        forall|i: int| 0 <= i < rois.len() ==> (#[trigger] rois[i]).id != id,
    ensures
        without_id(rois, id) == rois,
    decreases rois.len(),
{
    reveal(Seq::filter);
    if rois.len() > 0 {
        let front = rois.drop_last();
        assert forall|i: int| 0 <= i < front.len() implies (#[trigger] front[i]).id != id by {
            assert(rois[i].id != id);
        }
        lemma_nothing_to_remove(front, id);
        assert(rois[rois.len() - 1].id != id);
        assert(front.push(rois.last()) =~= rois);
    }
}

/// Deleting takes the selected region out of the list, and no other: the rest stay as
/// they are and in their order. Nothing is selected then. Where nothing is selected,
/// nothing is deleted.
pub proof fn deleting_takes_the_selected_region<S: Scalar>(e: EditorView<S>, k: int)
    requires
        e.wf(),
        0 <= k < e.rois.len(),
    ensures
        e.selected == Some(e.rois[k].id) ==> {
            &&& e.deleted().rois == e.rois.remove(k)
            &&& e.deleted().selected is None
            &&& forall|r: Roi<S>| #[trigger]
                e.deleted().rois.contains(r) <==> e.rois.contains(r) && r.id != e.rois[k].id
            &&& e.deleted().undone().rois == e.rois
        },
        e.selected is None ==> e.deleted() == e,
        e.deleted().next_id == e.next_id,
{
    if e.selected == Some(e.rois[k].id) {
        removal_takes_one_out(e.rois, e.next_id, k);
        removal_is_right(e.rois, e.rois[k].id, e.next_id);
    }
}

/// Clearing leaves no region and nothing selected, and can be undone; where there is no
/// region it does nothing.
pub proof fn clearing_removes_all<S: Scalar>(e: EditorView<S>)
    ensures
        e.cleared().rois.len() == 0,
        e.rois.len() > 0 ==> e.cleared().selected is None && e.cleared().undone().rois == e.rois,
        e.rois.len() == 0 ==> e.cleared() == e,
        e.cleared().next_id == e.next_id,
{
}

/// Undo puts the regions back as they were when the last snapshot was taken, and drops
/// that snapshot. What was selected stays selected if it is still there. With no
/// snapshot it does nothing.
pub proof fn undo_goes_back_one_step<S: Scalar>(e: EditorView<S>)
    ensures
        e.snapshots.len() == 0 ==> e.undone() == e,
        e.snapshots.len() > 0 ==> {
            let n = e.snapshots.len() - 1;
            let u = e.undone();
            &&& u.rois == e.snapshots[n]
            &&& u.snapshots.len() == n
            &&& forall|i: int| 0 <= i < n ==> #[trigger] u.snapshots[i] == e.snapshots[i]
            &&& u.mask_dirty
            &&& u.selected is Some ==> u.selected == e.selected
            &&& forall|i: int|
                0 <= i < u.rois.len() && e.selected == Some((#[trigger] u.rois[i]).id)
                    ==> u.selected == e.selected
            &&& u.selected is Some ==> exists|i: int|
                0 <= i < u.rois.len() && (#[trigger] u.rois[i]).id == u.selected->0
        },
        e.undone().next_id == e.next_id,
        e.undone().tool == e.tool,
        e.undone().subtract == e.subtract,
{
}

/// A click selects the region that lies on top at the point: one that contains it, with
/// none that contains it later in the list. Where none contains it, nothing is
/// selected. The regions stay as they are.
pub proof fn a_click_selects_what_is_on_top<S: Scalar>(e: EditorView<S>, p: (S, S), k: int)
    requires
        -1 <= k < e.rois.len(),
        k >= 0 ==> e.rois[k].geom.contains_spec(p.0, p.1),
        forall|j: int|
            k < j < e.rois.len() ==> !(#[trigger] e.rois[j]).geom.contains_spec(p.0, p.1),
    ensures
        e.clicked(Some(p)).selected == if k >= 0 {
            Some(e.rois[k].id)
        } else {
            None
        },
        e.clicked(Some(p)).rois == e.rois,
        e.clicked(Some(p)).snapshots == e.snapshots,
        e.clicked(None) == e,
{
    lemma_topmost(e.rois, p, k);
}

/// The region on top is the last that contains the point.
proof fn lemma_topmost<S: Scalar>(rois: Seq<Roi<S>>, p: (S, S), k: int)
    requires
        -1 <= k < rois.len(),
        k >= 0 ==> rois[k].geom.contains_spec(p.0, p.1),
        forall|j: int| k < j < rois.len() ==> !(#[trigger] rois[j]).geom.contains_spec(p.0, p.1),
    ensures
        topmost(rois, p) == if k >= 0 {
            Some(rois[k].id)
        } else {
            None
        },
    decreases rois.len(),
{
    if rois.len() > 0 && k < rois.len() - 1 {
        let n = rois.len() - 1;
        let front = rois.drop_last();
        assert(!rois[n].geom.contains_spec(p.0, p.1));
        assert forall|j: int| k < j < front.len() implies !(#[trigger] front[j]).geom.contains_spec(
            p.0,
            p.1,
        ) by {
            assert(!rois[j].geom.contains_spec(p.0, p.1));
        }
        lemma_topmost(front, p, k);
    }
}

/// Another shape for the selected region replaces its shape, and changes nothing else
/// of it nor of any other region.
pub proof fn reshaping_changes_one_shape<S: Scalar>(e: EditorView<S>, geom: Geometry<S>, k: int)
    requires
        e.wf(),
        0 <= k < e.rois.len(),
        e.selected == Some(e.rois[k].id),
    ensures
        e.selected_geom_spec() == Some(e.rois[k].geom),
        e.reshaped(geom).rois == e.rois.update(
            k,
            Roi { id: e.rois[k].id, geom, additive: e.rois[k].additive },
        ),
        e.reshaped(geom).selected == e.selected,
        e.reshaped(geom).snapshots == e.snapshots,
        e.reshaped(geom).mask_dirty,
{
    an_id_leads_to_its_region(e.rois, e.next_id, k);
}

/// A handle of the selected region lies under the pointer.
pub open spec fn on_handle<S: Scalar>(e: EditorView<S>, place: Placement<S>, press: (S, S)) -> bool {
    exists|j: int|
        0 <= j < e.rois.len() && e.selected == Some((#[trigger] e.rois[j]).id)
            && place.handle_at_spec(e.rois[j].geom, press) is Some
}

/// The region that a drag from the point takes hold of: the selected one if it contains
/// the point, else the last that does.
pub open spec fn taken<S: Scalar>(e: EditorView<S>, start: (S, S), k: int) -> bool {
    &&& 0 <= k < e.rois.len()
    &&& e.rois[k].geom.contains_spec(start.0, start.1)
    &&& e.selected == Some(e.rois[k].id) || {
        &&& forall|j: int|
            0 <= j < e.rois.len() && e.selected == Some((#[trigger] e.rois[j]).id)
                ==> !e.rois[j].geom.contains_spec(start.0, start.1)
        &&& forall|j: int|
            k < j < e.rois.len() ==> !(#[trigger] e.rois[j]).geom.contains_spec(start.0, start.1)
    }
}

/// What is selected, if anything is, stands at a place of the list.
proof fn lemma_selected_stands<S: Scalar>(e: EditorView<S>) -> (j: int)
    requires
        e.wf(),
        e.selected is Some,
    ensures
        0 <= j < e.rois.len(),
        e.selected == Some(e.rois[j].id),
        e.selected_geom_spec() == Some(e.rois[j].geom),
{
    assert(has_id(e.rois, e.selected->0));
    let j = choose|j: int| 0 <= j < e.rois.len() && (#[trigger] e.rois[j]).id == e.selected->0;
    an_id_leads_to_its_region(e.rois, e.next_id, j);
    j
}

/// A drag that begins on a handle of the selected region takes that handle, and
/// changes no region yet.
pub proof fn a_drag_takes_a_handle_first<S: Scalar>(
    e: EditorView<S>,
    place: Placement<S>,
    press: (S, S),
    cur: Option<(S, S)>,
    k: int,
)
    requires
        e.wf(),
        idle(e),
        0 <= k < e.rois.len(),
        e.selected == Some(e.rois[k].id),
        place.handle_at_spec(e.rois[k].geom, press) is Some,
    ensures
        ({
            let b = e.drag_begun(place, Some(press), cur);
            &&& b.resizing == place.handle_at_spec(e.rois[k].geom, press)
            &&& !b.moving && !b.drawing
            &&& b.rois == e.rois
            &&& b.selected == e.selected
            &&& b.snapshots == e.snapshots
        }),
{
    an_id_leads_to_its_region(e.rois, e.next_id, k);
}

/// A drag that begins inside a region, and not on a handle, takes hold of the region and
/// selects it, and changes no region yet.
pub proof fn a_drag_takes_hold_of_a_region<S: Scalar>(
    e: EditorView<S>,
    place: Placement<S>,
    press: (S, S),
    cur: Option<(S, S)>,
    k: int,
)
    requires
        e.wf(),
        idle(e),
        !on_handle(e, place, press),
        taken(e, place.to_img_spec(press), k),
    ensures
        ({
            let b = e.drag_begun(place, Some(press), cur);
            &&& b.moving && !b.drawing && b.resizing is None
            &&& b.rois == e.rois
            &&& b.selected == Some(e.rois[k].id)
            &&& b.snapshots == e.snapshots
            &&& b.move_last == Some(
                match cur {
                    Some(c) => c,
                    None => place.to_img_spec(press),
                },
            )
            &&& !b.drag_changed
        }),
{
    let start = place.to_img_spec(press);
    if e.selected is Some {
        let j = lemma_selected_stands(e);
        if e.selected == Some(e.rois[k].id) {
            an_id_leads_to_its_region(e.rois, e.next_id, k);
        }
        assert(place.handle_at_spec(e.rois[j].geom, press) is None);
    }
    let n = EditorView { drag_changed: false, ..e };
    assert(n.selected_geom_spec() == e.selected_geom_spec());
    if e.selected != Some(e.rois[k].id) {
        lemma_topmost(e.rois, start, k);
    }
}

/// A drag that begins on no handle and inside no region starts a new one: at the end of
/// the list, with a new id, selected, adding or carving as is set, and with nothing
/// else changed. Its beginning can be undone.
pub proof fn a_drag_outside_starts_a_region<S: Scalar>(
    e: EditorView<S>,
    place: Placement<S>,
    press: (S, S),
    cur: Option<(S, S)>,
)
    requires
        e.wf(),
        idle(e),
        e.next_id < u32::MAX,
        !on_handle(e, place, press),
        forall|j: int|
            0 <= j < e.rois.len() ==> !(#[trigger] e.rois[j]).geom.contains_spec(
                place.to_img_spec(press).0,
                place.to_img_spec(press).1,
            ),
    ensures
        ({
            let start = place.to_img_spec(press);
            let b = e.drag_begun(place, Some(press), cur);
            &&& b.drawing && !b.moving && b.resizing is None
            &&& b.rois == e.rois.push(
                Roi {
                    id: e.next_id,
                    geom: Geometry::from_drag_spec(e.tool, start, start),
                    additive: !e.subtract,
                },
            )
            &&& b.selected == Some(e.next_id)
            &&& b.next_id == e.next_id + 1
            &&& b.drag_start == Some(start)
            &&& b.tool == e.tool
            &&& b.undone().rois == e.rois
        }),
{
    let start = place.to_img_spec(press);
    if e.selected is Some {
        let j = lemma_selected_stands(e);
        assert(place.handle_at_spec(e.rois[j].geom, press) is None);
    }
    let n = EditorView { drag_changed: false, ..e };
    assert(n.selected_geom_spec() == e.selected_geom_spec());
    lemma_topmost(e.rois, start, -1);
}

/// The points as they are reported.
pub open spec fn reported<S>(path: Seq<(S, S)>) -> Seq<Option<(S, S)>> {
    Seq::new(path.len(), |i: int| Some(path[i]))
}

/// Coordinates that can be moved by the difference of any two of their kind.
pub open spec fn movable(v: Fixed) -> bool {
    -0x400_0000_0000_0000 <= v.steps <= 0x400_0000_0000_0000
}

/// All coordinates of the shape are.
pub open spec fn movable_shape(geom: Geometry<Fixed>) -> bool {
    match geom {
        Geometry::Rect { x0, y0, x1, y1 } => movable(x0) && movable(y0) && movable(x1) && movable(y1),
        Geometry::Ellipse { cx, cy, .. } => movable(cx) && movable(cy),
        Geometry::Circle { cx, cy, .. } => movable(cx) && movable(cy),
    }
}

/// The last point of a path that began at `first`.
pub open spec fn last_of<S>(first: (S, S), path: Seq<(S, S)>) -> (S, S) {
    if path.len() == 0 {
        first
    } else {
        path.last()
    }
}

/// A region that is dragged follows the pointer. Whatever points the pointer passes
/// through, the region is then where it was, moved by the distance from the pointer's
/// first point to its last; its sign and its radii are as they were, and so are all
/// other regions. The end of the drag changes nothing more.
pub proof fn a_dragged_region_follows_the_pointer(
    e: EditorView<Fixed>,
    place: Placement<Fixed>,
    press: (Fixed, Fixed),
    cur: Option<(Fixed, Fixed)>,
    path: Seq<(Fixed, Fixed)>,
    end: Option<(Fixed, Fixed)>,
    k: int,
)
    requires
        e.wf(),
        idle(e),
        e.next_id < u32::MAX,
        !on_handle(e, place, press),
        taken(e, place.to_img_spec(press), k),
        movable_shape(e.rois[k].geom),
        cur matches Some(c) ==> movable(c.0) && movable(c.1),
        cur is None ==> movable(place.to_img_spec(press).0) && movable(place.to_img_spec(press).1),
        forall|i: int| 0 <= i < path.len() ==> movable((#[trigger] path[i]).0) && movable(path[i].1),
    ensures
        ({
            let first = match cur {
                Some(c) => c,
                None => place.to_img_spec(press),
            };
            let last = last_of(first, path);
            let d = dragged_along(e.drag_begun(place, Some(press), cur), reported(path));
            &&& d.rois == e.rois.update(
                k,
                Roi {
                    id: e.rois[k].id,
                    geom: shape_moved(
                        e.rois[k].geom,
                        last.0.steps - first.0.steps,
                        last.1.steps - first.1.steps,
                    ),
                    additive: e.rois[k].additive,
                },
            )
            &&& d.selected == Some(e.rois[k].id)
            &&& d.drag_ended(end).rois == d.rois
            &&& d.drag_ended(end).selected == d.selected
            &&& idle(d.drag_ended(end))
        }),
{
    let first = match cur {
        Some(c) => c,
        None => place.to_img_spec(press),
    };
    let b = e.drag_begun(place, Some(press), cur);
    a_drag_takes_hold_of_a_region(e, place, press, cur, k);
    drag_start_keeps_wf(e, place, Some(press), cur);
    assert(shape_moved(e.rois[k].geom, 0, 0) == e.rois[k].geom);
    assert(b.rois =~= b.rois.update(
        k,
        Roi { id: b.rois[k].id, geom: b.rois[k].geom, additive: b.rois[k].additive },
    ));
    assert(has_followed(b, b, k, first, first));
    lemma_following(b, path, k, first);
}

/// One step of a drag that moves a region.
pub proof fn a_step_of_a_move<S: Scalar>(p: EditorView<S>, was: (S, S), now: (S, S), k: int)
    requires
        p.wf(),
        p.moving,
        p.resizing is None,
        p.move_last == Some(was),
        0 <= k < p.rois.len(),
        p.selected == Some(p.rois[k].id),
    ensures
        ({
            let d = p.dragged(Some(now));
            &&& d.wf()
            &&& d.moving && d.resizing is None && d.drawing == p.drawing
            &&& d.move_last == Some(now)
            &&& d.selected == p.selected
            &&& d.rois == p.rois.update(
                k,
                Roi {
                    id: p.rois[k].id,
                    geom: p.rois[k].geom.translated(
                        now.0.minus_spec(was.0),
                        now.1.minus_spec(was.1),
                    ),
                    additive: p.rois[k].additive,
                },
            )
        }),
{
    drag_keeps_wf(p, Some(now));
    crate::editor_laws::snapshot_keeps_wf(p);
    let n = p.drag_noted();
    assert(n.wf());
    reshaping_changes_one_shape(
        n,
        p.rois[k].geom.translated(now.0.minus_spec(was.0), now.1.minus_spec(was.1)),
        k,
    );
}

/// Moves add up.
proof fn lemma_moves_add_up(geom: Geometry<Fixed>, ax: int, ay: int, bx: Fixed, by: Fixed)
    requires
        movable_shape(geom),
        -0x800_0000_0000_0000 <= ax <= 0x800_0000_0000_0000,
        -0x800_0000_0000_0000 <= ay <= 0x800_0000_0000_0000,
        -0x800_0000_0000_0000 <= bx.steps <= 0x800_0000_0000_0000,
        -0x800_0000_0000_0000 <= by.steps <= 0x800_0000_0000_0000,
    ensures
        shape_moved(geom, ax, ay).translated(bx, by) == shape_moved(
            geom,
            ax + bx.steps,
            ay + by.steps,
        ),
{
}

/// The state `d` is that of a drag that moves the `k`-th region, and has moved it from
/// where it is in `b` by the distance from one point to another.
spec fn has_followed(
    b: EditorView<Fixed>,
    d: EditorView<Fixed>,
    k: int,
    first: (Fixed, Fixed),
    last: (Fixed, Fixed),
) -> bool {
    &&& d.wf()
    &&& d.moving && !d.drawing && d.resizing is None
    &&& d.move_last == Some(last)
    &&& d.selected == b.selected
    &&& d.rois == b.rois.update(
        k,
        Roi {
            id: b.rois[k].id,
            geom: shape_moved(
                b.rois[k].geom,
                last.0.steps - first.0.steps,
                last.1.steps - first.1.steps,
            ),
            additive: b.rois[k].additive,
        },
    )
}

/// One step more of a drag that moves a region.
proof fn lemma_follows_on(
    b: EditorView<Fixed>,
    p: EditorView<Fixed>,
    k: int,
    first: (Fixed, Fixed),
    was: (Fixed, Fixed),
    now: (Fixed, Fixed),
)
    requires
        0 <= k < b.rois.len(),
        b.selected == Some(b.rois[k].id),
        movable_shape(b.rois[k].geom),
        movable(first.0) && movable(first.1),
        movable(was.0) && movable(was.1),
        movable(now.0) && movable(now.1),
        has_followed(b, p, k, first, was),
    ensures
        has_followed(b, p.dragged(Some(now)), k, first, now),
{
    a_step_of_a_move(p, was, now, k);
    lemma_moves_add_up(
        b.rois[k].geom,
        was.0.steps - first.0.steps,
        was.1.steps - first.1.steps,
        now.0.minus_spec(was.0),
        now.1.minus_spec(was.1),
    );
    let d = p.dragged(Some(now));
    assert(d.rois =~= b.rois.update(k, d.rois[k]));
}

/// How a region stands that is dragged along a path.
proof fn lemma_following(
    b: EditorView<Fixed>,
    path: Seq<(Fixed, Fixed)>,
    k: int,
    first: (Fixed, Fixed),
)
    requires
        0 <= k < b.rois.len(),
        b.selected == Some(b.rois[k].id),
        movable_shape(b.rois[k].geom),
        movable(first.0) && movable(first.1),
        forall|i: int| 0 <= i < path.len() ==> movable((#[trigger] path[i]).0) && movable(path[i].1),
        has_followed(b, b, k, first, first),
    ensures
        has_followed(b, dragged_along(b, reported(path)), k, first, last_of(first, path)),
    decreases path.len(),
{
    if path.len() == 0 {
        assert(reported(path) =~= Seq::empty());
    } else {
        let front = path.drop_last();
        assert forall|i: int| 0 <= i < front.len() implies movable((#[trigger] front[i]).0)
            && movable(front[i].1) by {
            assert(movable(path[i].0) && movable(path[i].1));
        }
        lemma_following(b, front, k, first);
        assert(reported(path).drop_last() =~= reported(front));
        let was = last_of(first, front);
        let now = path.last();
        assert(now == path[path.len() - 1]);
        if front.len() > 0 {
            assert(was == path[path.len() - 2]);
        }
        assert(reported(path).last() == Some(now));
        lemma_follows_on(b, dragged_along(b, reported(front)), k, first, was, now);
    }
}

/// The state `d` is that of a drag that draws a region on those of `e`, from one point to
/// another.
spec fn has_drawn<S: Scalar>(
    e: EditorView<S>,
    d: EditorView<S>,
    start: (S, S),
    last: (S, S),
) -> bool {
    &&& d.wf()
    &&& d.drawing && !d.moving && d.resizing is None
    &&& d.drag_start == Some(start)
    &&& d.tool == e.tool
    &&& d.selected == Some(e.next_id)
    &&& d.rois == e.rois.push(
        Roi {
            id: e.next_id,
            geom: Geometry::from_drag_spec(e.tool, start, last),
            additive: !e.subtract,
        },
    )
}

/// One step more of a drag that draws a region.
proof fn lemma_draws_on<S: Scalar>(
    e: EditorView<S>,
    p: EditorView<S>,
    start: (S, S),
    was: (S, S),
    now: (S, S),
)
    requires
        has_drawn(e, p, start, was),
    ensures
        has_drawn(e, p.dragged(Some(now)), start, now),
{
    let k = e.rois.len() as int;
    drag_keeps_wf(p, Some(now));
    assert(p.drag_noted() == p);
    assert(p.rois[k].id == e.next_id);
    reshaping_changes_one_shape(p, Geometry::from_drag_spec(e.tool, start, now), k);
    let d = p.dragged(Some(now));
    assert(d.rois =~= e.rois.push(d.rois[k]));
}

/// How a region stands that is drawn along a path.
proof fn lemma_drawing<S: Scalar>(
    e: EditorView<S>,
    b: EditorView<S>,
    start: (S, S),
    path: Seq<(S, S)>,
)
    requires
        has_drawn(e, b, start, start),
    ensures
        has_drawn(e, dragged_along(b, reported(path)), start, last_of(start, path)),
    decreases path.len(),
{
    if path.len() == 0 {
        assert(reported(path) =~= Seq::empty());
    } else {
        let front = path.drop_last();
        lemma_drawing(e, b, start, front);
        assert(reported(path).drop_last() =~= reported(front));
        assert(reported(path).last() == Some(path.last()));
        lemma_draws_on(
            e,
            dragged_along(b, reported(front)),
            start,
            last_of(start, front),
            path.last(),
        );
    }
}

/// A region that is drawn reaches from the point where the drag began to where the
/// pointer is, whatever it passed through. It is the last of the list, selected, and
/// adds or carves as is set; all others are as they were. It is kept if the drag ends at
/// least a pixel away from where it began, and dropped if not.
pub proof fn a_drawn_region_follows_the_pointer<S: Scalar>(
    e: EditorView<S>,
    place: Placement<S>,
    press: (S, S),
    cur: Option<(S, S)>,
    path: Seq<(S, S)>,
    end: Option<(S, S)>,
)
    requires
        e.wf(),
        idle(e),
        e.next_id < u32::MAX,
        !on_handle(e, place, press),
        forall|j: int|
            0 <= j < e.rois.len() ==> !(#[trigger] e.rois[j]).geom.contains_spec(
                place.to_img_spec(press).0,
                place.to_img_spec(press).1,
            ),
    ensures
        ({
            let start = place.to_img_spec(press);
            let d = dragged_along(e.drag_begun(place, Some(press), cur), reported(path));
            let away = match end {
                Some(p) => distance_spec(start, p),
                None => distance_spec(start, start),
            };
            let f = d.drag_ended(end);
            &&& d.rois == e.rois.push(
                Roi {
                    id: e.next_id,
                    geom: Geometry::from_drag_spec(e.tool, start, last_of(start, path)),
                    additive: !e.subtract,
                },
            )
            &&& d.selected == Some(e.next_id)
            &&& idle(f)
            &&& !away.below_spec(S::of_count_spec(1)) ==> f.rois == d.rois && f.selected == d.selected
            &&& away.below_spec(S::of_count_spec(1)) ==> f.rois == e.rois && f.selected is None
        }),
{
    let start = place.to_img_spec(press);
    let b = e.drag_begun(place, Some(press), cur);
    a_drag_outside_starts_a_region(e, place, press, cur);
    drag_start_keeps_wf(e, place, Some(press), cur);
    assert(has_drawn(e, b, start, start));
    lemma_drawing(e, b, start, path);
    lemma_drawing_ends(e, dragged_along(b, reported(path)), start, last_of(start, path), end);
}

/// The end of a drag that draws a region.
proof fn lemma_drawing_ends<S: Scalar>(
    e: EditorView<S>,
    d: EditorView<S>,
    start: (S, S),
    last: (S, S),
    end: Option<(S, S)>,
)
    requires
        has_drawn(e, d, start, last),
    ensures
        ({
            let away = match end {
                Some(p) => distance_spec(start, p),
                None => distance_spec(start, start),
            };
            let f = d.drag_ended(end);
            &&& idle(f)
            &&& !away.below_spec(S::of_count_spec(1)) ==> f.rois == d.rois && f.selected == d.selected
            &&& away.below_spec(S::of_count_spec(1)) ==> f.rois == e.rois && f.selected is None
        }),
{
    assert(without_id(d.rois, e.next_id) == e.rois) by {
        let n = e.rois.len() as int;
        assert(d.rois[n].id == e.next_id);
        removal_takes_one_out(d.rois, d.next_id, n);
        assert(d.rois.remove(n) =~= e.rois);
    }
    let away = match end {
        Some(p) => distance_spec(start, p),
        None => distance_spec(start, start),
    };
    if away.below_spec(S::of_count_spec(1)) {
        assert(d.draw_dropped(end).rois == without_id(d.rois, e.next_id));
    } else {
        assert(d.draw_dropped(end) == d);
    }
}

/// A drag on fixed-point numbers that are multiples of 1/256 draws a region if it ends
/// at a distance of at least one pixel, and none if it ends nearer.
pub proof fn a_pixel_is_far_enough(a: (Fixed, Fixed), b: (Fixed, Fixed))
    requires
        near(a.0) && near(a.1) && near(b.0) && near(b.1),
        (b.0.steps - a.0.steps) % 256 == 0,
        (b.1.steps - a.1.steps) % 256 == 0,
    ensures
        distance_spec(a, b).below_spec(Fixed::of_count_spec(1)) <==> {
            let dx = b.0.steps - a.0.steps;
            let dy = b.1.steps - a.1.steps;
            dx * dx + dy * dy < 65536 * 65536
        },
{
    distance_is_by_squares(a, b);
    let d = distance_spec(a, b).steps as int;
    assert(Fixed::of_count_spec(1).steps == 65536);
    if d >= 65536 {
        assert(d * d >= 65536 * 65536) by (nonlinear_arith)
            requires
                d >= 65536,
        ;
    } else {
        assert((d + 1) * (d + 1) <= 65536 * 65536) by (nonlinear_arith)
            requires
                0 <= d <= 65535,
        ;
    }
}

/// One step of a drag that holds a handle: the shape of the selected region is resized to
/// the point, and nothing else changes.
pub proof fn a_step_of_a_resize<S: Scalar>(p: EditorView<S>, handle: Handle, now: (S, S), k: int)
    requires
        p.wf(),
        p.resizing == Some(handle),
        0 <= k < p.rois.len(),
        p.selected == Some(p.rois[k].id),
    ensures
        ({
            let d = p.dragged(Some(now));
            &&& d.wf()
            &&& d.resizing == p.resizing
            &&& d.selected == p.selected
            &&& d.rois == p.rois.update(
                k,
                Roi {
                    id: p.rois[k].id,
                    geom: resized(p.rois[k].geom, handle, now),
                    additive: p.rois[k].additive,
                },
            )
        }),
{
    drag_keeps_wf(p, Some(now));
    crate::editor_laws::snapshot_keeps_wf(p);
    let n = p.drag_noted();
    assert(n.wf());
    reshaping_changes_one_shape(n, resized(p.rois[k].geom, handle, now), k);
}

/// Where the pointer is not known, a drag changes no region; and neither does the end of
/// a move or a resize.
pub proof fn a_lost_pointer_changes_nothing<S: Scalar>(e: EditorView<S>, end: Option<(S, S)>)
    ensures
        e.dragged(None).rois == e.rois,
        e.dragged(None).selected == e.selected,
        !e.drawing ==> e.drag_ended(end).rois == e.rois && e.drag_ended(end).selected == e.selected
            && e.drag_ended(end).snapshots == e.snapshots,
        idle(e.drag_ended(end)),
{
}

/// A row of the panel does to its region what was done in the row, and to no other
/// region anything: its sign is turned over where the sign was clicked, and its shape is
/// what the numbers say where it is selected and they were changed.
pub proof fn panel_rows_change_their_regions<S: Scalar>(
    e: EditorView<S>,
    rows: Seq<RowAction<S>>,
    i: int,
)
    requires
        rows.len() == e.rois.len(),
        0 <= i < rows.len(),
        forall|j: int| 0 <= j < rows.len() ==> !(#[trigger] rows[j]).delete,
    ensures
        ({
            let p = e.paneled(rows);
            &&& p.rois.len() == e.rois.len()
            &&& p.rois[i].id == e.rois[i].id
            &&& p.rois[i].additive == (e.rois[i].additive != rows[i].toggle)
            &&& rows[i].edit is Some && e.selected == Some(e.rois[i].id) ==> p.rois[i].geom
                == shape_of(rows[i].edit->0)
            &&& rows[i].edit is None || e.selected != Some(e.rois[i].id) ==> p.rois[i].geom
                == e.rois[i].geom
            &&& p.snapshots == e.snapshots
        }),
{
    lemma_no_delete(e.rois, rows, rows.len() as int);
}

/// Where no row is to be deleted, none is.
proof fn lemma_no_delete<S>(rois: Seq<Roi<S>>, rows: Seq<RowAction<S>>, n: int)
    requires
        n <= rows.len(),
        forall|j: int| 0 <= j < rows.len() ==> !(#[trigger] rows[j]).delete,
    ensures
        last_delete(rois, rows, n) is None,
    decreases n,
{
    if n > 0 {
        assert(!rows[n - 1].delete);
        lemma_no_delete(rois, rows, n - 1);
    }
}

/// Clicking the name of a row selects its region; where no name was clicked, what was
/// selected stays so.
pub proof fn a_panel_click_selects<S: Scalar>(e: EditorView<S>, rows: Seq<RowAction<S>>, k: int)
    requires
        rows.len() == e.rois.len(),
        -1 <= k < rows.len(),
        k >= 0 ==> rows[k].select,
        forall|j: int| k < j < rows.len() ==> !(#[trigger] rows[j]).select,
        forall|j: int| 0 <= j < rows.len() ==> !(#[trigger] rows[j]).delete,
    ensures
        e.paneled(rows).selected == if k >= 0 {
            Some(e.rois[k].id)
        } else {
            e.selected
        },
{
    lemma_no_delete(e.rois, rows, rows.len() as int);
    lemma_last_select(e.rois, rows, e.selected, rows.len() as int, k);
}

/// The last row whose name was clicked counts.
proof fn lemma_last_select<S>(
    rois: Seq<Roi<S>>,
    rows: Seq<RowAction<S>>,
    selected: Option<u32>,
    n: int,
    k: int,
)
    requires
        -1 <= k < n <= rows.len() || k == -1 && n == 0,
        k >= 0 ==> rows[k].select,
        forall|j: int| k < j < n ==> !(#[trigger] rows[j]).select,
    ensures
        last_select(rois, rows, selected, n) == if k >= 0 {
            Some(rois[k].id)
        } else {
            selected
        },
    decreases n,
{
    if n > 0 && k < n - 1 {
        assert(!rows[n - 1].select);
        lemma_last_select(rois, rows, selected, n - 1, k);
    }
}

/// Deleting a row of the panel takes its region out, and no other. Undo brings it back.
pub proof fn a_panel_delete_takes_one_out<S: Scalar>(
    e: EditorView<S>,
    rows: Seq<RowAction<S>>,
    k: int,
)
    requires
        e.wf(),
        rows.len() == e.rois.len(),
        0 <= k < rows.len(),
        forall|j: int|
            0 <= j < rows.len() ==> !(#[trigger] rows[j]).toggle && rows[j].edit is None
                && !rows[j].select && rows[j].delete == (j == k),
    ensures
        e.paneled(rows).rois == e.rois.remove(k),
        e.paneled(rows).selected == if e.selected == Some(e.rois[k].id) {
            None
        } else {
            e.selected
        },
        e.paneled(rows).undone().rois == e.rois,
        e.paneled(rows).mask_dirty,
{
    let n = rows.len() as int;
    lemma_one_delete(e.rois, rows, n, k);
    lemma_last_select(e.rois, rows, e.selected, n, -1);
    let rois = crate::editor::rows_applied(e.rois, rows, e.selected);
    assert forall|j: int| 0 <= j < n implies #[trigger] rois[j] == e.rois[j] by {
        assert(!rows[j].toggle && rows[j].edit is None);
    }
    assert(rois =~= e.rois);
    removal_takes_one_out(e.rois, e.next_id, k);
}

/// The one row that is to be deleted is found.
proof fn lemma_one_delete<S>(rois: Seq<Roi<S>>, rows: Seq<RowAction<S>>, n: int, k: int)
    requires
        0 <= k < n <= rows.len(),
        forall|j: int| 0 <= j < rows.len() ==> (#[trigger] rows[j]).delete == (j == k),
    ensures
        last_delete(rois, rows, n) == Some(rois[k].id),
    decreases n,
{
    assert(rows[n - 1].delete == (n - 1 == k));
    if k < n - 1 {
        lemma_one_delete(rois, rows, n - 1, k);
    }
}

/// A report in which nothing happened.
pub open spec fn quiet<S>(report: PointerReport<S>) -> bool {
    !report.clicked && !report.drag_started && !report.dragged && !report.drag_stopped
}

/// Where nothing is done with the pointer, the key for deleting deletes the selected
/// region, unless a text is being typed; else nothing happens.
pub proof fn the_delete_key_deletes<S: Scalar>(
    e: EditorView<S>,
    place: Placement<S>,
    report: PointerReport<S>,
    k: int,
)
    requires
        e.wf(),
        quiet(report),
        0 <= k < e.rois.len(),
    ensures
        report.delete_key && !report.typing && e.selected == Some(e.rois[k].id) ==> e.interacted(
            place,
            report,
        ).rois == e.rois.remove(k),
        !report.delete_key || report.typing || e.selected is None ==> e.interacted(place, report)
            == e,
{
    deleting_takes_the_selected_region(e, k);
}

/// While a text is being typed, the key for deleting does nothing to the regions.
pub proof fn typing_deletes_nothing<S: Scalar>(
    e: EditorView<S>,
    place: Placement<S>,
    report: PointerReport<S>,
    other: PointerReport<S>,
)
    requires
        report.typing,
        other == (PointerReport { delete_key: false, ..report }),
    ensures
        e.interacted(place, report) == e.interacted(place, other),
{
}

/// What the reports of one drag do: the first begins it at the point that was pressed, each
/// takes it to the point of the image under the pointer, and the last ends it there.
pub proof fn reports_make_a_drag<S: Scalar>(
    e: EditorView<S>,
    place: Placement<S>,
    report: PointerReport<S>,
    press: (S, S),
    p: (S, S),
)
    requires
        report.pointer == Some(p),
        report.press == Some(press),
        !report.clicked,
        !report.delete_key,
    ensures
        report.drag_started && report.dragged && !report.drag_stopped ==> e.interacted(place, report)
            == e.drag_begun(place, Some(press), Some(place.to_img_spec(p))).dragged(
            Some(place.to_img_spec(p)),
        ),
        !report.drag_started && report.dragged && !report.drag_stopped ==> e.interacted(
            place,
            report,
        ) == e.dragged(Some(place.to_img_spec(p))),
        !report.drag_started && !report.dragged && report.drag_stopped ==> e.interacted(
            place,
            report,
        ) == e.drag_ended(Some(place.to_img_spec(p))),
{
}

/// A click on the image selects what is on top there, and changes no region.
pub proof fn a_report_of_a_click_selects<S: Scalar>(
    e: EditorView<S>,
    place: Placement<S>,
    report: PointerReport<S>,
    p: (S, S),
    k: int,
)
    requires
        report.clicked,
        report.pointer == Some(p),
        !report.drag_started && !report.dragged && !report.drag_stopped && !report.delete_key,
        -1 <= k < e.rois.len(),
        k >= 0 ==> e.rois[k].geom.contains_spec(place.to_img_spec(p).0, place.to_img_spec(p).1),
        forall|j: int|
            k < j < e.rois.len() ==> !(#[trigger] e.rois[j]).geom.contains_spec(
                place.to_img_spec(p).0,
                place.to_img_spec(p).1,
            ),
    ensures
        e.interacted(place, report).rois == e.rois,
        e.interacted(place, report).selected == if k >= 0 {
            Some(e.rois[k].id)
        } else {
            None
        },
{
    a_click_selects_what_is_on_top(e, place.to_img_spec(p), k);
}

/// A new image begins with no region, nothing selected, nothing to undo and ids from one;
/// the tool and the sign stay as they are set.
pub proof fn a_new_image_has_no_regions<S: Scalar>(e: EditorView<S>)
    ensures
        e.emptied().rois.len() == 0,
        e.emptied().selected is None,
        e.emptied().snapshots.len() == 0,
        e.emptied().next_id == 1,
        idle(e.emptied()),
        e.emptied().mask_dirty,
        e.emptied().tool == e.tool,
        e.emptied().subtract == e.subtract,
{
}

/// Over a handle of the selected region the pointer shows how the handle moves, elsewhere
/// inside that region that it can be taken hold of, and outside nothing. Without a selected
/// region it shows nothing.
pub proof fn the_pointer_shows_what_can_be_done<S: Scalar>(
    e: EditorView<S>,
    place: Placement<S>,
    p: (S, S),
    k: int,
)
    requires
        e.wf(),
        0 <= k < e.rois.len(),
    ensures
        e.selected == Some(e.rois[k].id) ==> {
            let q = place.to_img_spec(p);
            let handle = place.handle_at_spec(e.rois[k].geom, p);
            &&& handle matches Some(h) ==> e.icon(place, Some(p)) == Some(icon_of(h))
            &&& handle is None && e.rois[k].geom.contains_spec(q.0, q.1) ==> e.icon(place, Some(p))
                == Some(CursorIcon::Grab)
            &&& handle is None && !e.rois[k].geom.contains_spec(q.0, q.1) ==> e.icon(
                place,
                Some(p),
            ) is None
        },
        e.selected is None ==> e.icon(place, Some(p)) is None,
        e.icon(place, None) is None,
{
    if e.selected == Some(e.rois[k].id) {
        an_id_leads_to_its_region(e.rois, e.next_id, k);
    }
}

/// The states after each of a number of steps back.
pub open spec fn undone_times<S: Scalar>(e: EditorView<S>, n: nat) -> EditorView<S>
    decreases n,
{
    if n == 0 {
        e
    } else {
        undone_times(e, (n - 1) as nat).undone()
    }
}

/// Twenty-four steps can be taken back, and no more: each step of undo gives the regions of one
/// snapshot earlier, and when all are used up it changes nothing.
pub proof fn undo_goes_back_step_by_step<S: Scalar>(e: EditorView<S>, n: nat)
    requires
        e.wf(),
    ensures
        e.snapshots.len() <= 24,
        e.snapshots.len() < 24 ==> e.snapshotted().snapshots == e.snapshots.push(e.rois),
        e.snapshots.len() == 24 ==> e.snapshotted().snapshots == e.snapshots.push(
            e.rois,
        ).drop_first(),
        0 < n <= e.snapshots.len() ==> undone_times(e, n).rois == e.snapshots[e.snapshots.len() - n],
        n <= e.snapshots.len() ==> undone_times(e, n).snapshots == e.snapshots.take(
            e.snapshots.len() - n,
        ),
    decreases n,
{
    if n > 0 {
        undo_goes_back_step_by_step(e, (n - 1) as nat);
        if n <= e.snapshots.len() {
            let m = e.snapshots.len() - n;
            assert(e.snapshots.take(m + 1).drop_last() =~= e.snapshots.take(m));
            assert(e.snapshots.take(m + 1).last() == e.snapshots[m]);
        }
    } else {
        assert(e.snapshots.take(e.snapshots.len() as int) =~= e.snapshots);
    }
}

/// The rows of the panel with no delete button clicked, and else the same.
pub open spec fn undeleted<S>(rows: Seq<RowAction<S>>) -> Seq<RowAction<S>> {
    Seq::new(rows.len(), |i: int| RowAction { delete: false, ..rows[i] })
}

/// Deleting a row of the panel comes after all else that was done in it: the regions are those
/// that the panel makes without the deletion, less the one. Undo brings it back as it was
/// edited.
pub proof fn a_panel_delete_comes_last<S: Scalar>(
    e: EditorView<S>,
    rows: Seq<RowAction<S>>,
    k: int,
)
    requires
        e.wf(),
        rows.len() == e.rois.len(),
        0 <= k < rows.len(),
        forall|j: int| 0 <= j < rows.len() ==> (#[trigger] rows[j]).delete == (j == k),
    ensures
        ({
            let p = e.paneled(rows);
            let q = e.paneled(undeleted(rows));
            &&& p.rois == q.rois.remove(k)
            &&& p.selected == if q.selected == Some(e.rois[k].id) {
                None
            } else {
                q.selected
            }
            &&& p.undone().rois == q.rois
        }),
{
    let n = rows.len() as int;
    let plain = undeleted(rows);
    lemma_one_delete(e.rois, rows, n, k);
    lemma_no_delete(e.rois, plain, n);
    lemma_same_select(e.rois, rows, plain, e.selected, n);
    let rois = crate::editor::rows_applied(e.rois, rows, e.selected);
    assert(rois =~= crate::editor::rows_applied(e.rois, plain, e.selected));
    assert forall|i: int| 0 <= i < rois.len() implies 1 <= (#[trigger] rois[i]).id < e.next_id by {
        assert(e.rois[i].id < e.next_id);
    }
    assert forall|i: int, j: int| 0 <= i < j < rois.len() implies (#[trigger] rois[i]).id != (
    #[trigger] rois[j]).id by {
        assert(e.rois[i].id != e.rois[j].id);
    }
    assert(rois[k].id == e.rois[k].id);
    removal_takes_one_out(rois, e.next_id, k);
}

/// What is selected does not depend on what is deleted.
proof fn lemma_same_select<S>(
    rois: Seq<Roi<S>>,
    rows: Seq<RowAction<S>>,
    plain: Seq<RowAction<S>>,
    selected: Option<u32>,
    n: int,
)
    requires
        n <= rows.len(),
        plain == undeleted(rows),
    ensures
        last_select(rois, rows, selected, n) == last_select(rois, plain, selected, n),
    decreases n,
{
    if n > 0 {
        lemma_same_select(rois, rows, plain, selected, n - 1);
    }
}

/// The key for deleting comes after all that the pointer does: the state is that without the
/// key, with the region that is then selected deleted.
pub proof fn the_delete_key_comes_last<S: Scalar>(
    e: EditorView<S>,
    place: Placement<S>,
    report: PointerReport<S>,
)
    requires
        report.delete_key,
        !report.typing,
    ensures
        e.interacted(place, report) == e.interacted(
            place,
            PointerReport { delete_key: false, ..report },
        ).deleted(),
{
    let other = PointerReport { delete_key: false, ..report };
    assert(e.pointed(place, other) == e.pointed(place, report));
}

/// A report that goes on with a drag and ends it takes it to the pointer first. A drag begins
/// where the button was pressed, and where that is not known, at the pointer.
pub proof fn a_drag_ends_where_the_pointer_is<S: Scalar>(
    e: EditorView<S>,
    place: Placement<S>,
    report: PointerReport<S>,
    p: (S, S),
)
    requires
        report.pointer == Some(p),
        !report.clicked,
        !report.delete_key,
    ensures
        !report.drag_started && report.dragged && report.drag_stopped ==> e.interacted(place, report)
            == e.dragged(Some(place.to_img_spec(p))).drag_ended(Some(place.to_img_spec(p))),
        report.drag_started && !report.dragged && !report.drag_stopped && report.press is None
            ==> e.interacted(place, report) == e.drag_begun(
            place,
            Some(p),
            Some(place.to_img_spec(p)),
        ),
{
}

} // verus!

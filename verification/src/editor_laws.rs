//! What holds of every editing session.

use vstd::prelude::*;

use crate::editor::{
    either, has_id, ids_ok, last_delete, last_select, place_from, row_changes, rows_applied, topmost, without_id,
    EditorView, PointerReport, Roi, RowAction, UNDO_DEPTH,
};
use crate::handles::{resized, Placement};
use crate::roi::{distance_spec, Geometry};
use crate::scalar::Scalar;

verus! {

/// A region found by its id has that id, and where none is found none has it.
pub proof fn place_is_right<S>(rois: Seq<Roi<S>>, id: u32, i: int)
    requires
        0 <= i <= rois.len(),
    ensures
        match place_from(rois, id, i) {
            Some(k) => i <= k < rois.len() && rois[k].id == id,
            None => forall|k: int| i <= k < rois.len() ==> (#[trigger] rois[k]).id != id,
        },
    decreases rois.len() - i,
{
    if i < rois.len() && rois[i].id != id {
        place_is_right(rois, id, i + 1);
    }
}

/// Removing an id removes it, keeps every other region, adds none, and leaves
/// the remaining ids unique.
pub proof fn removal_is_right<S>(rois: Seq<Roi<S>>, id: u32, next_id: u32)
    ensures
        !has_id(without_id(rois, id), id),
        forall|other: u32|
            other != id ==> (has_id(without_id(rois, id), other) <==> #[trigger] has_id(
                rois,
                other,
            )),
        forall|r: Roi<S>|
            #[trigger] without_id(rois, id).contains(r) <==> rois.contains(r) && r.id != id,
        ids_ok(rois, next_id) ==> ids_ok(without_id(rois, id), next_id),
    decreases rois.len(),
{
    let keep = |r: Roi<S>| r.id != id;
    let out = without_id(rois, id);
    reveal(Seq::filter);
    if rois.len() > 0 {
        let front = rois.drop_last();
        let last = rois.last();
        let out_front = without_id(front, id);
        removal_is_right(front, id, next_id);
        assert(out == if last.id != id {
            out_front.push(last)
        } else {
            out_front
        });
        assert forall|other: u32| other != id implies (has_id(out, other) <==> #[trigger] has_id(
            rois,
            other,
        )) by {
            assert(has_id(out_front, other) <==> has_id(front, other));
            if has_id(rois, other) {
                let k = choose|k: int| 0 <= k < rois.len() && (#[trigger] rois[k]).id == other;
                if k < front.len() {
                    assert(front[k].id == other);
                    let j = choose|j: int|
                        0 <= j < out_front.len() && (#[trigger] out_front[j]).id == other;
                    assert(out[j].id == other);
                } else {
                    assert(out[out.len() - 1].id == other);
                }
            }
            if has_id(out, other) {
                let j = choose|j: int| 0 <= j < out.len() && (#[trigger] out[j]).id == other;
                if j < out_front.len() {
                    assert(out_front[j].id == other);
                    let k = choose|k: int|
                        0 <= k < front.len() && (#[trigger] front[k]).id == other;
                    assert(rois[k].id == other);
                } else {
                    assert(rois[rois.len() - 1].id == other);
                }
            }
        }
        assert forall|r: Roi<S>| #[trigger] out.contains(r) <==> rois.contains(r) && r.id != id by {
            assert(out_front.contains(r) <==> front.contains(r) && r.id != id);
            if rois.contains(r) && r.id != id {
                let k = choose|k: int| 0 <= k < rois.len() && rois[k] == r;
                if k < front.len() {
                    assert(front[k] == r);
                    let j = choose|j: int| 0 <= j < out_front.len() && out_front[j] == r;
                    assert(out[j] == r);
                } else {
                    assert(out[out.len() - 1] == r);
                }
            }
            if out.contains(r) {
                let j = choose|j: int| 0 <= j < out.len() && out[j] == r;
                if j < out_front.len() {
                    assert(out_front[j] == r);
                    let k = choose|k: int| 0 <= k < front.len() && front[k] == r;
                    assert(rois[k] == r);
                } else {
                    assert(rois[rois.len() - 1] == r);
                }
            }
        }
        if has_id(out, id) {
            let j = choose|j: int| 0 <= j < out.len() && (#[trigger] out[j]).id == id;
            if j < out_front.len() {
                assert(out_front[j].id == id);
                assert(has_id(out_front, id));
            }
        }
        if ids_ok(rois, next_id) {
            assert forall|i: int| 0 <= i < front.len() implies 1 <= (#[trigger] front[i]).id
                < next_id by {
                assert(rois[i].id < next_id);
            }
            assert forall|i: int, j: int| 0 <= i < j < front.len() implies (
            #[trigger] front[i]).id != (#[trigger] front[j]).id by {
                assert(rois[i].id != rois[j].id);
            }
            assert(ids_ok(front, next_id));
            assert forall|i: int| 0 <= i < out_front.len() implies (#[trigger] out_front[i]).id
                != last.id by {
                assert(out_front.contains(out_front[i]));
                assert(front.contains(out_front[i]));
                let k = choose|k: int| 0 <= k < front.len() && front[k] == out_front[i];
                assert(rois[k].id != rois[rois.len() - 1].id);
            }
            assert(1 <= rois[rois.len() - 1].id < next_id);
        }
    }
}

/// The topmost region at a point contains it, and no later region does.
pub proof fn topmost_is_right<S: Scalar>(rois: Seq<Roi<S>>, p: (S, S))
    ensures
        match topmost(rois, p) {
            Some(id) => exists|k: int|
                0 <= k < rois.len() && (#[trigger] rois[k]).id == id && rois[k].geom.contains_spec(
                    p.0,
                    p.1,
                ) && forall|j: int|
                    k < j < rois.len() ==> !(#[trigger] rois[j]).geom.contains_spec(p.0, p.1),
            None => forall|j: int|
                0 <= j < rois.len() ==> !(#[trigger] rois[j]).geom.contains_spec(p.0, p.1),
        },
        topmost(rois, p) matches Some(id) ==> has_id(rois, id),
    decreases rois.len(),
{
    if rois.len() > 0 {
        let n = rois.len() - 1;
        if rois.last().geom.contains_spec(p.0, p.1) {
            assert(rois[n].id == rois.last().id);
        } else {
            let front = rois.drop_last();
            topmost_is_right(front, p);
            match topmost(front, p) {
                Some(id) => {
                    let k = choose|k: int|
                        0 <= k < front.len() && (#[trigger] front[k]).id == id
                            && front[k].geom.contains_spec(p.0, p.1) && forall|j: int|
                            k < j < front.len() ==> !(#[trigger] front[j]).geom.contains_spec(
                                p.0,
                                p.1,
                            );
                    assert(rois[k].id == id && rois[k].geom.contains_spec(p.0, p.1));
                    assert forall|j: int| k < j < rois.len() implies !(
                    #[trigger] rois[j]).geom.contains_spec(p.0, p.1) by {
                        if j < n {
                            assert(!front[j].geom.contains_spec(p.0, p.1));
                        }
                    }
                },
                None => {
                    assert forall|j: int| 0 <= j < rois.len() implies !(
                    #[trigger] rois[j]).geom.contains_spec(p.0, p.1) by {
                        if j < n {
                            assert(!front[j].geom.contains_spec(p.0, p.1));
                        }
                    }
                },
            }
        }
    }
}

/// A snapshot keeps the state well formed.
pub proof fn snapshot_keeps_wf<S: Scalar>(e: EditorView<S>)
    requires
        e.wf(),
    ensures
        e.snapshotted().wf(),
{
    let s = e.snapshotted();
    let all = e.snapshots.push(e.rois);
    assert forall|k: int| 0 <= k < s.snapshots.len() implies ids_ok(
        #[trigger] s.snapshots[k],
        e.next_id,
    ) by {
        let j = if all.len() > UNDO_DEPTH {
            k + 1
        } else {
            k
        };
        assert(s.snapshots[k] == all[j]);
        if j < e.snapshots.len() {
            assert(ids_ok(e.snapshots[j], e.next_id));
        }
    }
}

/// Undo keeps the state well formed.
pub proof fn undo_keeps_wf<S: Scalar>(e: EditorView<S>)
    requires
        e.wf(),
    ensures
        e.undone().wf(),
{
    if e.snapshots.len() > 0 {
        let u = e.undone();
        assert(ids_ok(e.snapshots[e.snapshots.len() - 1], e.next_id));
        assert forall|k: int| 0 <= k < u.snapshots.len() implies ids_ok(
            #[trigger] u.snapshots[k],
            e.next_id,
        ) by {
            assert(u.snapshots[k] == e.snapshots[k]);
        }
    }
}

/// Clearing keeps the state well formed.
pub proof fn clear_keeps_wf<S: Scalar>(e: EditorView<S>)
    requires
        e.wf(),
    ensures
        e.cleared().wf(),
{
    snapshot_keeps_wf(e);
}

/// Deleting the selected region keeps the state well formed.
pub proof fn delete_keeps_wf<S: Scalar>(e: EditorView<S>)
    requires
        e.wf(),
    ensures
        e.deleted().wf(),
{
    snapshot_keeps_wf(e);
    if let Some(id) = e.selected {
        removal_is_right(e.rois, id, e.next_id);
    }
}

/// Another shape for the selected region keeps the state well formed, and
/// changes no id.
pub proof fn reshape_keeps_wf<S: Scalar>(e: EditorView<S>, geom: Geometry<S>)
    ensures
        e.reshaped(geom).rois.len() == e.rois.len(),
        forall|i: int| 0 <= i < e.rois.len() ==> (#[trigger] e.reshaped(geom).rois[i]).id == e.rois[i].id,
        e.wf() ==> e.reshaped(geom).wf(),
{
    let r = e.reshaped(geom);
    if let Some(id) = e.selected {
        place_is_right(e.rois, id, 0);
        if has_id(e.rois, id) {
            let k = choose|k: int| 0 <= k < e.rois.len() && (#[trigger] e.rois[k]).id == id;
            assert(r.rois[k].id == id);
        }
    }
    if e.wf() {
        assert forall|i: int| 0 <= i < r.rois.len() implies 1 <= (#[trigger] r.rois[i]).id
            < e.next_id by {
            assert(e.rois[i].id < e.next_id);
        }
        assert forall|i: int, j: int| 0 <= i < j < r.rois.len() implies (#[trigger] r.rois[i]).id
            != (#[trigger] r.rois[j]).id by {
            assert(e.rois[i].id != e.rois[j].id);
        }
    }
}

/// A click keeps the state well formed.
pub proof fn click_keeps_wf<S: Scalar>(e: EditorView<S>, p: Option<(S, S)>)
    requires
        e.wf(),
    ensures
        e.clicked(p).wf(),
{
    if let Some(q) = p {
        topmost_is_right(e.rois, q);
    }
}

/// Beginning a new region keeps the state well formed.
pub proof fn draw_keeps_wf<S: Scalar>(e: EditorView<S>, start: (S, S))
    requires
        e.wf(),
        e.next_id < u32::MAX,
    ensures
        e.draw_begun(start).wf(),
{
    snapshot_keeps_wf(e);
    let s = e.snapshotted();
    let d = e.draw_begun(start);
    let n = e.rois.len() as int;
    assert(d.next_id == e.next_id + 1);
    assert(d.rois[n].id == e.next_id);
    assert(has_id(d.rois, e.next_id));
    assert forall|i: int| 0 <= i < d.rois.len() implies 1 <= (#[trigger] d.rois[i]).id
        < d.next_id by {
        if i < n {
            assert(d.rois[i] == e.rois[i]);
        }
    }
    assert forall|i: int, j: int| 0 <= i < j < d.rois.len() implies (#[trigger] d.rois[i]).id != (
    #[trigger] d.rois[j]).id by {
        assert(d.rois[i] == e.rois[i]);
        if j < n {
            assert(d.rois[j] == e.rois[j]);
        }
    }
    assert forall|k: int| 0 <= k < d.snapshots.len() implies ids_ok(
        #[trigger] d.snapshots[k],
        d.next_id,
    ) by {
        assert(ids_ok(s.snapshots[k], e.next_id));
    }
}

/// The start of a drag keeps the state well formed.
pub proof fn drag_start_keeps_wf<S: Scalar>(
    e: EditorView<S>,
    place: Placement<S>,
    press: Option<(S, S)>,
    cur: Option<(S, S)>,
)
    requires
        e.wf(),
        e.next_id < u32::MAX,
    ensures
        e.drag_begun(place, press, cur).wf(),
{
    let n = EditorView { drag_changed: false, ..e };
    assert(n.wf());
    if let Some(sp) = press {
        let start = place.to_img_spec(sp);
        topmost_is_right(n.rois, start);
        draw_keeps_wf(n, start);
    }
}

/// A drag that goes on keeps the state well formed.
pub proof fn drag_keeps_wf<S: Scalar>(e: EditorView<S>, cur: Option<(S, S)>)
    requires
        e.wf(),
    ensures
        e.dragged(cur).wf(),
{
    snapshot_keeps_wf(e);
    let n = e.drag_noted();
    assert(n.wf());
    if let Some(c) = cur {
        if let Some(g) = n.selected_geom_spec() {
            if let Some(handle) = n.resizing {
                reshape_keeps_wf(n, resized(g, handle, c));
            }
            if let Some(last) = n.move_last {
                let m = g.translated(c.0.minus_spec(last.0), c.1.minus_spec(last.1));
                reshape_keeps_wf(n, m);
                assert(EditorView { move_last: cur, ..n.reshaped(m) }.wf());
            }
        }
        if let Some(a) = n.drag_start {
            reshape_keeps_wf(n, Geometry::from_drag_spec(n.tool, a, c));
        }
    }
}

/// The end of a drag keeps the state well formed.
pub proof fn drag_end_keeps_wf<S: Scalar>(e: EditorView<S>, cur: Option<(S, S)>)
    requires
        e.wf(),
    ensures
        e.drag_ended(cur).wf(),
{
    if let Some(id) = e.selected {
        removal_is_right(e.rois, id, e.next_id);
    }
    let d = e.drag_ended(cur);
    assert forall|k: int| 0 <= k < d.snapshots.len() implies ids_ok(
        #[trigger] d.snapshots[k],
        e.next_id,
    ) by {
        assert(d.snapshots[k] == e.snapshots[k]);
    }
}

/// Whatever the pointer and the keyboard do, the state stays well formed.
pub proof fn interaction_keeps_wf<S: Scalar>(
    e: EditorView<S>,
    place: Placement<S>,
    report: PointerReport<S>,
)
    requires
        e.wf(),
        report.drag_started ==> e.next_id < u32::MAX,
    ensures
        e.interacted(place, report).wf(),
{
    let cur = place.to_img_opt_spec(report.pointer);
    let press = if report.press is Some {
        report.press
    } else {
        report.pointer
    };
    let a = if report.clicked {
        e.clicked(cur)
    } else {
        e
    };
    click_keeps_wf(e, cur);
    let b = if report.drag_started {
        a.drag_begun(place, press, cur)
    } else {
        a
    };
    if report.drag_started {
        drag_start_keeps_wf(a, place, press, cur);
    }
    let c = if report.dragged {
        b.dragged(cur)
    } else {
        b
    };
    drag_keeps_wf(b, cur);
    drag_end_keeps_wf(c, cur);
    delete_keeps_wf(e.pointed(place, report));
}

/// The clicked rows of the panel name regions of the list.
proof fn rows_name_regions<S>(
    rois: Seq<Roi<S>>,
    rows: Seq<RowAction<S>>,
    selected: Option<u32>,
    n: int,
)
    requires
        0 <= n <= rois.len(),
        selected matches Some(id) ==> has_id(rois, id),
    ensures
        last_select(rois, rows, selected, n) matches Some(id) ==> has_id(rois, id),
        last_delete(rois, rows, n) matches Some(id) ==> has_id(rois, id),
    decreases n,
{
    if n > 0 {
        rows_name_regions(rois, rows, selected, n - 1);
        assert(has_id(rois, rois[n - 1].id));
    }
}

/// Whatever is done in the panel, the state stays well formed.
pub proof fn panel_keeps_wf<S: Scalar>(e: EditorView<S>, rows: Seq<RowAction<S>>)
    requires
        e.wf(),
        rows.len() == e.rois.len(),
    ensures
        e.paneled(rows).wf(),
{
    let n = e.rois.len() as int;
    let rois = rows_applied(e.rois, rows, e.selected);
    let edited = EditorView {
        rois,
        selected: last_select(e.rois, rows, e.selected, n),
        ..e
    };
    rows_name_regions(e.rois, rows, e.selected, n);
    assert forall|id: u32| has_id(e.rois, id) implies #[trigger] has_id(rois, id) by {
        let k = choose|k: int| 0 <= k < e.rois.len() && (#[trigger] e.rois[k]).id == id;
        assert(rois[k].id == id);
    }
    assert forall|i: int| 0 <= i < rois.len() implies 1 <= (#[trigger] rois[i]).id < e.next_id by {
        assert(e.rois[i].id < e.next_id);
    }
    assert forall|i: int, j: int| 0 <= i < j < rois.len() implies (#[trigger] rois[i]).id != (
    #[trigger] rois[j]).id by {
        assert(e.rois[i].id != e.rois[j].id);
    }
    assert(edited.wf());
    snapshot_keeps_wf(edited);
    if let Some(id) = last_delete(e.rois, rows, n) {
        removal_is_right(rois, id, e.next_id);
    }
}

/// Whatever the pointer and the keyboard do, a change of the regions marks the
/// picture of the mask as out of date, and nothing unmarks it.
pub proof fn interaction_marks_changes<S: Scalar>(
    e: EditorView<S>,
    place: Placement<S>,
    report: PointerReport<S>,
)
    ensures
        e.mask_dirty ==> e.interacted(place, report).mask_dirty,
        e.interacted(place, report).rois != e.rois ==> e.interacted(place, report).mask_dirty,
{
}

/// Whatever is done in the panel, a change of the regions marks the picture of
/// the mask as out of date, and nothing unmarks it.
pub proof fn panel_marks_changes<S: Scalar>(e: EditorView<S>, rows: Seq<RowAction<S>>)
    requires
        rows.len() == e.rois.len(),
    ensures
        e.mask_dirty ==> e.paneled(rows).mask_dirty,
        e.paneled(rows).rois != e.rois ==> e.paneled(rows).mask_dirty,
{
    let n = e.rois.len() as int;
    if !e.paneled(rows).mask_dirty {
        assert forall|i: int| 0 <= i < n implies #[trigger] rows_applied(e.rois, rows, e.selected)[i]
            == e.rois[i] by {
            assert(!row_changes(e.rois[i], rows[i], e.selected));
        }
        assert(rows_applied(e.rois, rows, e.selected) =~= e.rois);
    }
}

/// Undoing, clearing and deleting mark the picture of the mask as out of date
/// where they change the regions.
pub proof fn commands_mark_changes<S: Scalar>(e: EditorView<S>)
    ensures
        e.undone().rois != e.rois ==> e.undone().mask_dirty,
        e.cleared().rois != e.rois ==> e.cleared().mask_dirty,
        e.deleted().rois != e.rois ==> e.deleted().mask_dirty,
        e.mask_dirty ==> e.undone().mask_dirty && e.cleared().mask_dirty && e.deleted().mask_dirty,
{
}

/// What was cleared comes back with undo.
pub proof fn undo_restores_cleared<S: Scalar>(e: EditorView<S>)
    requires
        e.rois.len() > 0,
    ensures
        e.cleared().undone().rois == e.rois,
{
}

/// What was deleted comes back with undo.
pub proof fn undo_restores_deleted<S: Scalar>(e: EditorView<S>)
    requires
        e.selected is Some,
    ensures
        e.deleted().undone().rois == e.rois,
{
}

/// A snapshot drops the oldest one beyond the depth, and nothing else: undo
/// gives back the last [`UNDO_DEPTH`] states, latest first.
pub proof fn snapshots_are_a_stack<S: Scalar>(e: EditorView<S>)
    requires
        e.snapshots.len() <= UNDO_DEPTH,
    ensures
        e.snapshotted().snapshots.len() == if e.snapshots.len() < UNDO_DEPTH {
            e.snapshots.len() + 1
        } else {
            UNDO_DEPTH as nat
        },
        e.snapshotted().undone().rois == e.rois,
        e.snapshotted().undone().snapshots == if e.snapshots.len() < UNDO_DEPTH {
            e.snapshots
        } else {
            e.snapshots.drop_first()
        },
{
    let all = e.snapshots.push(e.rois);
    if e.snapshots.len() < UNDO_DEPTH {
        assert(all.drop_last() =~= e.snapshots);
    } else {
        assert(all.drop_first().drop_last() =~= e.snapshots.drop_first());
    }
}

/// The state after a drag has passed through a sequence of points.
pub open spec fn dragged_along<S: Scalar>(
    e: EditorView<S>,
    path: Seq<Option<(S, S)>>,
) -> EditorView<S>
    decreases path.len(),
{
    if path.len() == 0 {
        e
    } else {
        dragged_along(e, path.drop_last()).dragged(path.last())
    }
}

/// No drag is going on.
pub open spec fn idle<S>(e: EditorView<S>) -> bool {
    !e.drawing && !e.moving && e.resizing is None
}

/// Once its snapshot is taken, a drag takes no other.
proof fn drag_takes_one_snapshot<S: Scalar>(e: EditorView<S>, path: Seq<Option<(S, S)>>)
    requires
        e.drag_changed || !(e.moving || e.resizing is Some),
    ensures
        ({
            let d = dragged_along(e, path);
            &&& d.snapshots == e.snapshots
            &&& d.drag_changed == e.drag_changed
            &&& d.moving == e.moving
            &&& d.resizing == e.resizing
            &&& d.drawing == e.drawing
            &&& d.drag_start == e.drag_start
            &&& d.selected == e.selected
            &&& d.next_id == e.next_id
        }),
    decreases path.len(),
{
    if path.len() > 0 {
        drag_takes_one_snapshot(e, path.drop_last());
    }
}

/// A region that is being drawn is the last of the list, and the others are as
/// they were.
proof fn drawing_changes_the_last<S: Scalar>(
    e: EditorView<S>,
    start: (S, S),
    path: Seq<Option<(S, S)>>,
)
    requires
        e.wf(),
        idle(e),
    ensures
        ({
            let d = dragged_along(e.draw_begun(start), path);
            &&& d.rois.len() == e.rois.len() + 1
            &&& d.rois.drop_last() == e.rois
            &&& d.rois.last().id == e.next_id
        }),
    decreases path.len(),
{
    let b = e.draw_begun(start);
    drag_takes_one_snapshot(b, path);
    if path.len() == 0 {
        assert(b.rois.drop_last() =~= e.rois);
    } else {
        let p = dragged_along(b, path.drop_last());
        drawing_changes_the_last(e, start, path.drop_last());
        drag_takes_one_snapshot(b, path.drop_last());
        place_is_right(p.rois, e.next_id, 0);
        let d = dragged_along(b, path);
        assert forall|k: int| 0 <= k < e.rois.len() implies (#[trigger] p.rois[k]).id
            != e.next_id by {
            assert(p.rois[k] == p.rois.drop_last()[k]);
            assert(e.rois[k].id < e.next_id);
        }
        assert(p.rois[e.rois.len() as int].id == e.next_id);
        assert(d.rois.drop_last() =~= e.rois);
    }
}

/// A whole drag is one step of undo. Wherever it began and whatever it did (a
/// region resized, moved or drawn), undo after its end gives back the regions
/// as they were before it. Left out is a drag that drops what it drew.
pub proof fn undo_reverts_a_drag<S: Scalar>(
    e: EditorView<S>,
    place: Placement<S>,
    press: (S, S),
    path: Seq<Option<(S, S)>>,
    end: Option<(S, S)>,
)
    requires
        e.wf(),
        idle(e),
        e.next_id < u32::MAX,
        path.len() > 0,
        ({
            let d = dragged_along(e.drag_begun(place, Some(press), path[0]), path);
            d.drawing ==> !distance_spec(
                place.to_img_spec(press),
                either(end, place.to_img_spec(press)),
            ).below_spec(S::of_count_spec(1))
        }),
    ensures
        dragged_along(e.drag_begun(place, Some(press), path[0]), path).drag_ended(
            end,
        ).undone().rois == e.rois,
{
    let b = e.drag_begun(place, Some(press), path[0]);
    let d = dragged_along(b, path);
    let first = b.dragged(path[0]);
    if b.drawing {
        drag_takes_one_snapshot(b, path);
        assert(d.snapshots.last() == e.rois);
    } else {
        drag_joins(b, path);
        assert(b.rois == e.rois);
        assert(b.drag_noted().snapshots.last() == e.rois);
        assert(first.snapshots == b.drag_noted().snapshots);
        drag_takes_one_snapshot(first, path.drop_first());
        assert(d.snapshots == first.snapshots);
    }
    assert(d.drag_ended(end).snapshots == d.snapshots);
}

/// Going along a path is its first step and then the rest.
proof fn drag_joins<S: Scalar>(e: EditorView<S>, path: Seq<Option<(S, S)>>)
    requires
        path.len() > 0,
    ensures
        dragged_along(e, path) == dragged_along(e.dragged(path[0]), path.drop_first()),
    decreases path.len(),
{
    if path.len() == 1 {
        assert(path.drop_last() =~= Seq::empty());
        assert(path.drop_first() =~= Seq::empty());
        reveal_with_fuel(dragged_along, 2);
    } else {
        drag_joins(e, path.drop_last());
        assert(path.drop_last().drop_first() =~= path.drop_first().drop_last());
        assert(path.drop_first().last() == path.last());
    }
}

/// A region that never grew beyond a click leaves no trace: the regions are as
/// before, and so is what can be undone, but for the oldest snapshot where as
/// many as the depth allows were kept.
pub proof fn a_click_draws_nothing<S: Scalar>(
    e: EditorView<S>,
    start: (S, S),
    path: Seq<Option<(S, S)>>,
    end: Option<(S, S)>,
)
    requires
        e.wf(),
        idle(e),
        distance_spec(start, either(end, start)).below_spec(S::of_count_spec(1)),
    ensures
        ({
            let d = dragged_along(e.draw_begun(start), path).drag_ended(end);
            &&& d.rois == e.rois
            &&& d.selected is None
            &&& idle(d)
            &&& d.snapshots == if e.snapshots.len() < UNDO_DEPTH {
                e.snapshots
            } else {
                e.snapshots.drop_first()
            }
        }),
{
    let b = e.draw_begun(start);
    let d = dragged_along(b, path);
    drawing_changes_the_last(e, start, path);
    drag_takes_one_snapshot(b, path);
    snapshots_are_a_stack(e);
    assert(without_id(d.rois, e.next_id) == e.rois) by {
        reveal(Seq::filter);
        removing_a_new_id(e.rois, e.next_id);
    }
}

/// Removing an id that no region has changes nothing.
proof fn removing_a_new_id<S>(rois: Seq<Roi<S>>, id: u32)
    requires
        forall|i: int| 0 <= i < rois.len() ==> (#[trigger] rois[i]).id < id,
    ensures
        without_id(rois, id) == rois,
    decreases rois.len(),
{
    reveal(Seq::filter);
    if rois.len() > 0 {
        let front = rois.drop_last();
        assert forall|i: int| 0 <= i < front.len() implies (#[trigger] front[i]).id < id by {
            assert(rois[i].id < id);
        }
        removing_a_new_id(front, id);
        assert(rois[rois.len() - 1].id < id);
        assert(front.push(rois.last()) =~= rois);
    }
}

} // verus!

//! What holds of the application whatever is done with it.

use vstd::prelude::*;

use crate::app::AppView;
use crate::editor::{PointerReport, RowAction};
use crate::editor_laws::{
    clear_keeps_wf, commands_mark_changes, interaction_keeps_wf, interaction_marks_changes,
    panel_keeps_wf, panel_marks_changes, undo_keeps_wf,
};
use crate::handles::Placement;
use crate::integrate::integrated;
use crate::loader::StackView;
use crate::mask::{count_selected, mask_bytes};
use crate::picture::{overlay_color, overlay_pixels};
use crate::scalar::Scalar;

verus! {

/// Editing that marks its changes keeps the count of selected pixels right.
proof fn lemma_live<S: Scalar>(a: AppView<S>, b: AppView<S>)
    requires
        a.wf(),
        b.image == a.image,
        b.initial_mask == a.initial_mask,
        b.selected_count == a.selected_count,
        b.editor.rois != a.editor.rois ==> b.editor.mask_dirty,
        a.editor.mask_dirty ==> b.editor.mask_dirty,
    ensures
        !b.editor.mask_dirty ==> b.selected_count == b.live_count(),
{
}

/// A new stack is shown well formed.
pub proof fn apply_keeps_wf<S: Scalar>(a: AppView<S>, stack: StackView<S>)
    requires
        a.wf(),
        stack.wf(),
    ensures
        a.stack_applied(stack).wf(),
{
    assert(integrated(stack, a.integration).wf());
    assert(stack.frames[0].wf());
}

/// Whatever the pointer and the keyboard do, the count of selected pixels is the
/// right one or is marked as out of date.
pub proof fn interaction_keeps_live<S: Scalar>(
    a: AppView<S>,
    place: Placement<S>,
    report: PointerReport<S>,
)
    requires
        a.wf(),
        report.drag_started ==> a.editor.next_id < u32::MAX,
    ensures
        a.interacted(place, report).wf(),
{
    interaction_keeps_wf(a.editor, place, report);
    interaction_marks_changes(a.editor, place, report);
    lemma_live(a, a.interacted(place, report));
}

/// Whatever is done in the panel, the count of selected pixels is the right one or
/// is marked as out of date.
pub proof fn panel_keeps_live<S: Scalar>(a: AppView<S>, rows: Seq<RowAction<S>>)
    requires
        a.wf(),
        rows.len() == a.editor.rois.len(),
    ensures
        (AppView { editor: a.editor.paneled(rows), ..a }).wf(),
{
    panel_keeps_wf(a.editor, rows);
    panel_marks_changes(a.editor, rows);
    lemma_live(a, AppView { editor: a.editor.paneled(rows), ..a });
}

/// After undo, the count of selected pixels is the right one or is marked as out of
/// date.
pub proof fn undo_keeps_live<S: Scalar>(a: AppView<S>)
    requires
        a.wf(),
    ensures
        (AppView { editor: a.editor.undone(), ..a }).wf(),
{
    undo_keeps_wf(a.editor);
    commands_mark_changes(a.editor);
    lemma_live(a, AppView { editor: a.editor.undone(), ..a });
}

/// After clearing, the count of selected pixels is the right one or is marked as
/// out of date.
pub proof fn clear_keeps_live<S: Scalar>(a: AppView<S>)
    requires
        a.wf(),
    ensures
        (AppView { editor: a.editor.cleared(), ..a }).wf(),
{
    clear_keeps_wf(a.editor);
    commands_mark_changes(a.editor);
    lemma_live(a, AppView { editor: a.editor.cleared(), ..a });
}

/// Once the picture of the mask is up to date, saving is offered if and only if a
/// pixel is selected.
pub proof fn saving_is_offered_for_a_selection<S: Scalar>(a: AppView<S>)
    requires
        a.wf(),
        !a.editor.mask_dirty,
    ensures
        a.can_save_spec() <==> a.live_count() > 0,
{
}

/// A new stack is shown without regions, with nothing to undo, with its whole range
/// as contrast, and in a size that fits.
pub proof fn a_new_stack_starts_afresh<S: Scalar>(a: AppView<S>, stack: StackView<S>)
    ensures
        ({
            let n = a.stack_applied(stack);
            &&& n.editor.rois.len() == 0
            &&& n.editor.snapshots.len() == 0
            &&& n.editor.selected is None
            &&& n.editor.next_id == 1
            &&& n.vmin == n.data_min && n.vmax == n.data_max
            &&& n.fit_requested
            &&& n.image == Some(AppView { frame: 0, ..a }.image_of(stack))
        }),
{
}

/// The number of ones among the values of a mask file.
pub open spec fn ones(bytes: Seq<u8>) -> nat
    decreases bytes.len(),
{
    if bytes.len() == 0 {
        0
    } else {
        ones(bytes.drop_last()) + if bytes.last() == 1 {
            1nat
        } else {
            0nat
        }
    }
}

/// The count of selected pixels is the number of ones in the file that is saved.
pub proof fn the_count_is_the_ones_in_the_file(pixels: Seq<bool>)
    ensures
        ones(mask_bytes(pixels)) == count_selected(pixels),
    decreases pixels.len(),
{
    if pixels.len() > 0 {
        the_count_is_the_ones_in_the_file(pixels.drop_last());
        assert(mask_bytes(pixels).drop_last() =~= mask_bytes(pixels.drop_last()));
    }
}

/// The picture of the mask shows what is saved: a pixel is green where the file
/// holds a 1, and clear where it holds a 0.
pub proof fn the_picture_shows_what_is_saved(pixels: Seq<bool>, i: int)
    requires
        0 <= i < pixels.len(),
    ensures
        overlay_pixels(pixels).subrange(4 * i, 4 * i + 4) == if mask_bytes(pixels)[i] == 1 {
            seq![40u8, 220u8, 120u8, 100u8]
        } else {
            seq![0u8, 0u8, 0u8, 0u8]
        },
        mask_bytes(pixels)[i] == 0 || mask_bytes(pixels)[i] == 1,
{
    let four = overlay_pixels(pixels).subrange(4 * i, 4 * i + 4);
    assert forall|k: int| 0 <= k < 4 implies #[trigger] four[k] == (if pixels[i] {
        overlay_color(k)
    } else {
        0
    }) by {
        assert((4 * i + k) / 4 == i && (4 * i + k) % 4 == k);
    }
    if pixels[i] {
        assert(four =~= seq![40u8, 220u8, 120u8, 100u8]);
    } else {
        assert(four =~= seq![0u8, 0u8, 0u8, 0u8]);
    }
}

} // verus!

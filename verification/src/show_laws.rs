//! How a stack becomes the image that is shown, and how that is shown, in whole steps of
//! fixed-point numbers.

use vstd::prelude::*;

use crate::app::{contrast_speed_of, fraction_of, AppView, Progress};
use crate::editor::PointerReport;
use crate::fixed::Fixed;
use crate::fixed_laws::modest;
use crate::frame::FrameView;
use crate::handle_laws::fair_scale;
use crate::handles::Placement;
use crate::integrate::{
    greatest, greatest_finite, integrated, least_finite, range_of, total, Integration,
};
use crate::loader::StackView;
use crate::mask::{count_selected, Mask};
use crate::raster_laws::size_of;
use crate::scalar::{ratio_spec, Scalar};
use crate::selection::{nonzero_spec, selects_nonzero};

verus! {

/// The steps at place `i` of all frames, added up.
pub open spec fn steps_of_all(frames: Seq<FrameView<Fixed>>, i: int) -> int
    decreases frames.len(),
{
    if frames.len() == 0 {
        0
    } else {
        steps_of_all(frames.drop_last(), i) + frames.last().data[i].steps
    }
}

/// No sum of the first frames leaves the range.
pub open spec fn sums_fit(frames: Seq<FrameView<Fixed>>, i: int) -> bool {
    forall|n: int|
        0 <= n <= frames.len() ==> i64::MIN <= #[trigger] steps_of_all(frames.take(n), i)
            <= i64::MAX
}

/// The value of the sum of the first frames.
proof fn lemma_total(frames: Seq<FrameView<Fixed>>, n: int, i: int)
    requires
        0 <= n <= frames.len(),
        sums_fit(frames, i),
    ensures
        total(frames, n, i).steps == steps_of_all(frames.take(n), i),
    decreases n,
{
    if n > 0 {
        lemma_total(frames, n - 1, i);
        assert(frames.take(n).drop_last() =~= frames.take(n - 1));
        assert(frames.take(n).last() == frames[n - 1]);
        assert(i64::MIN <= steps_of_all(frames.take(n), i) <= i64::MAX);
    }
}

/// The summed image adds up all frames of the stack, pixel by pixel.
pub proof fn the_sum_takes_all_frames(stack: StackView<Fixed>, i: int)
    requires
        0 <= i < stack.height * stack.width,
        sums_fit(stack.frames, i),
    ensures
        integrated(stack, Integration::Sum).data[i].steps == steps_of_all(stack.frames, i),
        integrated(stack, Integration::Sum).height == stack.height,
        integrated(stack, Integration::Sum).width == stack.width,
{
    let n = stack.frames.len() as int;
    lemma_total(stack.frames, n, i);
    assert(stack.frames.take(n) =~= stack.frames);
}

/// The mean image divides the sum of all frames by their number, pixel by pixel, and rounds
/// to a step towards zero.
pub proof fn the_mean_divides_by_all_frames(stack: StackView<Fixed>, i: int)
    requires
        0 <= i < stack.height * stack.width,
        sums_fit(stack.frames, i),
        0 < stack.frames.len() <= 0x7fff_ffff_ffff,
        stack.frames.len() <= usize::MAX,
    ensures
        ({
            let n = stack.frames.len() as int;
            let m = integrated(stack, Integration::Mean).data[i].steps as int;
            let s = steps_of_all(stack.frames, i);
            &&& n * size_of(m) <= size_of(s) < n * size_of(m) + n
            &&& m > 0 ==> s > 0
            &&& m < 0 ==> s < 0
        }),
        integrated(stack, Integration::Mean).height == stack.height,
        integrated(stack, Integration::Mean).width == stack.width,
{
    let n = stack.frames.len() as int;
    lemma_total(stack.frames, n, i);
    assert(stack.frames.take(n) =~= stack.frames);
    let s = steps_of_all(stack.frames, i);
    let b = n * 65536;
    assert(Fixed::of_count_spec(n as usize).steps == b);
    let q = (size_of(s) * 65536) / b;
    vstd::arithmetic::div_mod::lemma_fundamental_div_mod(size_of(s) * 65536, b);
    vstd::arithmetic::div_mod::lemma_mod_bound(size_of(s) * 65536, b);
    vstd::arithmetic::div_mod::lemma_div_pos_is_pos(size_of(s) * 65536, b);
    assert(b * q == 65536 * (n * q)) by (nonlinear_arith)
        requires
            b == n * 65536,
    ;
    assert(n * q <= size_of(s) < n * q + n);
    assert(q <= size_of(s)) by (nonlinear_arith)
        requires
            n * q <= size_of(s),
            n >= 1,
            q >= 0,
    ;
    let m = integrated(stack, Integration::Mean).data[i].steps as int;
    if s == i64::MIN && n == 1 {
        assert(q == size_of(s)) by (nonlinear_arith)
            requires
                n == 1,
                n * q <= size_of(s) < n * q + n,
        ;
    }
    assert(m == q || m == -q);
}

/// The maximum image holds, pixel by pixel, a value of one of the frames that none of the
/// frames exceeds.
pub proof fn the_maximum_is_over_all_frames(stack: StackView<Fixed>, i: int)
    requires
        0 <= i < stack.height * stack.width,
    ensures
        forall|k: int|
            0 <= k < stack.frames.len() ==> (#[trigger] stack.frames[k]).data[i].steps
                <= integrated(stack, Integration::Max).data[i].steps,
        stack.frames.len() > 0 ==> exists|k: int|
            0 <= k < stack.frames.len() && (#[trigger] stack.frames[k]).data[i] == integrated(
                stack,
                Integration::Max,
            ).data[i],
        integrated(stack, Integration::Max).height == stack.height,
        integrated(stack, Integration::Max).width == stack.width,
{
    lemma_greatest(stack.frames, stack.frames.len() as int, i);
}

/// The greatest value of the first frames.
proof fn lemma_greatest(frames: Seq<FrameView<Fixed>>, n: int, i: int)
    requires
        0 <= n <= frames.len(),
    ensures
        forall|k: int|
            0 <= k < n ==> (#[trigger] frames[k]).data[i].steps <= greatest(frames, n, i).steps,
        n > 0 ==> exists|k: int|
            0 <= k < n && (#[trigger] frames[k]).data[i] == greatest(frames, n, i),
        n <= 0 ==> greatest(frames, n, i).steps == i64::MIN,
    decreases n,
{
    if n > 0 {
        lemma_greatest(frames, n - 1, i);
        if greatest(frames, n, i) == frames[n - 1].data[i] {
            assert(frames[n - 1].data[i] == greatest(frames, n, i));
        } else {
            let k = choose|k: int|
                0 <= k < n - 1 && (#[trigger] frames[k]).data[i] == greatest(frames, n - 1, i);
            assert(frames[k].data[i] == greatest(frames, n, i));
        }
    }
}

/// The range of an image reaches from its least finite value to its greatest: every finite
/// value lies in it, and both ends are values of the image. Where no value is finite, it is
/// from zero to one.
pub proof fn the_range_is_that_of_the_values(data: Seq<Fixed>)
    ensures
        forall|k: int|
            0 <= k < data.len() && i64::MIN < (#[trigger] data[k]).steps < i64::MAX ==> range_of(
                data,
            ).0.steps <= data[k].steps <= range_of(data).1.steps,
        (exists|k: int| 0 <= k < data.len() && i64::MIN < (#[trigger] data[k]).steps < i64::MAX)
            ==> data.contains(range_of(data).0) && data.contains(range_of(data).1),
        (forall|k: int|
            0 <= k < data.len() ==> !(i64::MIN < (#[trigger] data[k]).steps < i64::MAX))
            ==> range_of(data).0.steps == 0 && range_of(data).1.steps == 65536,
{
    lemma_range(data, data.len() as int);
    crate::integrate::range_holds_all(data, data.len() as int);
    assert(Fixed::of_count_spec(0).steps == 0 && Fixed::of_count_spec(1).steps == 65536);
    if exists|k: int| 0 <= k < data.len() && i64::MIN < (#[trigger] data[k]).steps < i64::MAX {
        let k = choose|k: int| 0 <= k < data.len() && i64::MIN < (#[trigger] data[k]).steps < i64::MAX;
        assert(data[k].finite_spec());
    }
}

/// The least and the greatest finite value of the first ones are among them.
proof fn lemma_range(data: Seq<Fixed>, n: int)
    requires
        0 <= n <= data.len(),
    ensures
        least_finite(data, n).finite_spec() ==> data.contains(least_finite(data, n)),
        greatest_finite(data, n).finite_spec() ==> data.contains(greatest_finite(data, n)),
        (forall|k: int| 0 <= k < n ==> !(#[trigger] data[k]).finite_spec()) ==> !least_finite(
            data,
            n,
        ).finite_spec(),
    decreases n,
{
    if n > 0 {
        lemma_range(data, n - 1);
        assert(data.contains(data[n - 1]));
    }
}

/// The image that is shown is the integrated one or the chosen frame, and the contrast then
/// reaches over all its finite values.
pub proof fn the_chosen_image_is_shown(
    a: AppView<Fixed>,
    stack: StackView<Fixed>,
    whole: bool,
    frame: int,
)
    requires
        a.stack == Some(stack),
    ensures
        ({
            let v = a.view_chosen(whole, frame);
            &&& v.image == Some(
                if whole {
                    integrated(stack, a.integration)
                } else {
                    stack.frames[frame]
                },
            )
            &&& v.img_dirty
            &&& v.vmin == v.data_min && v.vmax == v.data_max
            &&& forall|k: int|
                0 <= k < v.image->0.data.len() && i64::MIN < (
                #[trigger] v.image->0.data[k]).steps < i64::MAX ==> v.vmin.steps
                    <= v.image->0.data[k].steps <= v.vmax.steps
            &&& v.editor == a.editor
            &&& v.stack == a.stack
        }),
        a.integrated_view ==> forall|method: Integration| #[trigger]
            a.integration_chosen(method).image == Some(integrated(stack, method)),
        !a.integrated_view ==> forall|method: Integration| #[trigger]
            a.integration_chosen(method).image == Some(stack.frames[a.frame]),
{
    let v = a.view_chosen(whole, frame);
    the_range_is_that_of_the_values(v.image->0.data);
}

/// Magnifying less makes everything four fifths as large, but not smaller than a fiftieth;
/// magnifying more makes it five fourths as large, but not larger than sixty-four times.
pub proof fn zooming_is_by_a_quarter(a: AppView<Fixed>)
    requires
        fair_scale(a.scale),
    ensures
        ({
            let s = a.scale.steps as int;
            let closer = a.zoomed_in().scale.steps as int;
            let farther = a.zoomed_out().scale.steps as int;
            &&& fair_scale(a.zoomed_in().scale) && fair_scale(a.zoomed_out().scale)
            &&& closer == 4194304 && 5 * s >= 4 * closer || 4 * closer <= 5 * s < 4 * closer + 4
            &&& farther == 1310 && 4 * s < 5 * farther + 5 || 5 * farther <= 4 * s < 5 * farther + 5
        }),
        a.zoomed_in() == (AppView { scale: a.zoomed_in().scale, ..a }),
        a.zoomed_out() == (AppView { scale: a.zoomed_out().scale, ..a }),
{
    assert(Fixed::of_count_spec(1).steps == 65536);
    assert(Fixed::of_count_spec(50).steps == 3276800);
    assert(Fixed::of_count_spec(5).steps == 327680);
    assert(Fixed::of_count_spec(4).steps == 262144);
    assert((327680int * 65536) / 262144 == 81920);
    assert(ratio_spec::<Fixed>(5, 4).steps == 81920);
    assert((65536int * 65536) / 3276800 == 1310);
    assert(ratio_spec::<Fixed>(1, 50).steps == 1310);
    assert(Fixed::of_count_spec(64).steps == 4194304);
    let s = a.scale.steps as int;
    let more = (s * 81920) / 65536;
    let less = (s * 65536) / 81920;
    lemma_quarter(s);
    assert(a.scale.times_spec(ratio_spec(5, 4)).steps == more);
    assert(a.scale.over_spec(ratio_spec(5, 4)).steps == less);
}

/// Five fourths and four fifths of a number, rounded down.
proof fn lemma_quarter(s: int)
    ensures
        4 * ((s * 81920) / 65536) <= 5 * s < 4 * ((s * 81920) / 65536) + 4,
        5 * ((s * 65536) / 81920) <= 4 * s < 5 * ((s * 65536) / 81920) + 5,
{
}

/// A fitted image is shown as large as the window allows: it is not wider nor higher than the
/// window, unless the magnification is the least one; and a step more would make it so, unless
/// the magnification is the greatest one.
pub proof fn a_fitted_image_fills_the_window(
    a: AppView<Fixed>,
    img: FrameView<Fixed>,
    avail: (Fixed, Fixed),
)
    requires
        a.image == Some(img),
        a.fit_requested,
        0 < img.width <= 0x1000_0000,
        0 < img.height <= 0x1000_0000,
        img.width <= usize::MAX,
        img.height <= usize::MAX,
        0 <= avail.0.steps <= 0x1_0000_0000_0000,
        0 <= avail.1.steps <= 0x1_0000_0000_0000,
    ensures
        ({
            let s = a.fitted(avail).scale.steps as int;
            &&& fair_scale(a.fitted(avail).scale)
            &&& s > 1310 ==> s * img.width <= avail.0.steps && s * img.height <= avail.1.steps
            &&& s < 4194304 ==> (s + 1) * img.width > avail.0.steps || (s + 1) * img.height
                > avail.1.steps
            &&& !a.fitted(avail).fit_requested
        }),
{
    assert(Fixed::of_count_spec(1).steps == 65536);
    assert(Fixed::of_count_spec(50).steps == 3276800);
    assert((65536int * 65536) / 3276800 == 1310);
    assert(ratio_spec::<Fixed>(1, 50).steps == 1310);
    assert(Fixed::of_count_spec(64).steps == 4194304);
    lemma_fits(avail.0, img.width);
    lemma_fits(avail.1, img.height);
    let p = avail.0.over_spec(Fixed::of_count_spec(img.width as usize)).steps as int;
    let q = avail.1.over_spec(Fixed::of_count_spec(img.height as usize)).steps as int;
    let s = a.fitted(avail).scale.steps as int;
    if s > 1310 {
        assert(s <= p && s <= q);
        assert(s * img.width <= p * img.width) by (nonlinear_arith)
            requires
                s <= p,
                img.width > 0,
        ;
        assert(s * img.height <= q * img.height) by (nonlinear_arith)
            requires
                s <= q,
                img.height > 0,
        ;
    }
    if s < 4194304 {
        assert(s >= p || s >= q);
        if s >= p {
            assert((s + 1) * img.width >= (p + 1) * img.width) by (nonlinear_arith)
                requires
                    s >= p,
                    img.width > 0,
            ;
        } else {
            assert((s + 1) * img.height >= (q + 1) * img.height) by (nonlinear_arith)
                requires
                    s >= q,
                    img.height > 0,
            ;
        }
    }
}

/// A length divided by a number of pixels.
proof fn lemma_fits(avail: Fixed, n: int)
    requires
        0 < n <= 0x1000_0000,
        n <= usize::MAX,
        0 <= avail.steps <= 0x1_0000_0000_0000,
    ensures
        ({
            let q = avail.over_spec(Fixed::of_count_spec(n as usize)).steps as int;
            0 <= q && q * n <= avail.steps < (q + 1) * n
        }),
{
    let b = n * 65536;
    let m = avail.steps * 65536;
    let q = m / b;
    vstd::arithmetic::div_mod::lemma_fundamental_div_mod(m, b);
    vstd::arithmetic::div_mod::lemma_mod_bound(m, b);
    vstd::arithmetic::div_mod::lemma_div_pos_is_pos(m, b);
    assert(b * q == 65536 * (q * n)) by (nonlinear_arith)
        requires
            b == n * 65536,
    ;
    assert((q + 1) * n == q * n + n) by (nonlinear_arith);
    assert(q * n <= avail.steps < q * n + n);
    assert(q <= avail.steps) by (nonlinear_arith)
        requires
            q * n <= avail.steps,
            n >= 1,
            q >= 0,
    ;
    assert(Fixed::of_count_spec(n as usize).steps == b);
    assert(avail.over_spec(Fixed::of_count_spec(n as usize)).steps == q);
}

/// What is told of the pointer is the pixel that it is over, and that pixel's value; outside
/// the image nothing is told.
pub proof fn the_pixel_under_the_pointer_is_told(
    a: AppView<Fixed>,
    img: FrameView<Fixed>,
    place: Placement<Fixed>,
    p: (Fixed, Fixed),
    x: int,
    y: int,
)
    requires
        a.image == Some(img),
        img.wf(),
        ({
            let q = place.to_img_spec(p);
            &&& x * 65536 <= q.0.steps < x * 65536 + 65536
            &&& y * 65536 <= q.1.steps < y * 65536 + 65536
        }),
        img.width <= usize::MAX,
        img.height <= usize::MAX,
    ensures
        0 <= x < img.width && 0 <= y < img.height ==> a.cursor_at(place, Some(p)) == Some(
            (x as usize, y as usize, img.data[y * img.width + x]),
        ),
        !(0 <= x < img.width && 0 <= y < img.height) ==> a.cursor_at(place, Some(p)) is None,
        a.cursor_at(place, None) is None,
{
    let q = place.to_img_spec(p);
    lemma_floor(q.0, x);
    lemma_floor(q.1, y);
}

/// A number rounded down to a whole one.
proof fn lemma_floor(q: Fixed, x: int)
    requires
        x * 65536 <= q.steps < x * 65536 + 65536,
    ensures
        q.floor_spec().truncated_spec() == x,
{
    assert(q.steps as int / 65536 == x);
}

/// As many pixels are counted as there are places with a selected one.
pub proof fn the_count_counts_places(pixels: Seq<bool>)
    ensures
        Set::new(|i: int| 0 <= i < pixels.len() && pixels[i]).finite(),
        Set::new(|i: int| 0 <= i < pixels.len() && pixels[i]).len() == count_selected(pixels),
    decreases pixels.len(),
{
    let all = Set::new(|i: int| 0 <= i < pixels.len() && pixels[i]);
    if pixels.len() == 0 {
        assert(all =~= Set::empty());
    } else {
        let front = pixels.drop_last();
        let n = pixels.len() - 1;
        let before = Set::new(|i: int| 0 <= i < front.len() && front[i]);
        the_count_counts_places(front);
        if pixels[n] {
            assert(all =~= before.insert(n));
        } else {
            assert(all =~= before);
        }
    }
}

/// The bar for loading shows the part of the files that are loaded: nothing at the start, all
/// of it at the end, and that part of one step's accuracy between.
pub proof fn the_bar_shows_the_part_loaded(p: Progress)
    requires
        p.done <= p.total <= 0x1000_0000,
    ensures
        ({
            let f = fraction_of::<Fixed>(p).steps as int;
            &&& p.total > 0 ==> f * p.total <= p.done * 65536 < (f + 1) * p.total
            &&& p.done == 0 ==> f == 0
            &&& p.total > 0 && p.done == p.total ==> f == 65536
        }),
{
    let n = p.total as int;
    let d = p.done as int;
    if n > 0 {
        let b = n * 65536;
        let m = d * 65536 * 65536;
        let q = m / b;
        vstd::arithmetic::div_mod::lemma_fundamental_div_mod(m, b);
        vstd::arithmetic::div_mod::lemma_mod_bound(m, b);
        vstd::arithmetic::div_mod::lemma_div_pos_is_pos(m, b);
        assert(b * q == 65536 * (q * n)) by (nonlinear_arith)
            requires
                b == n * 65536,
        ;
        assert((q + 1) * n == q * n + n) by (nonlinear_arith);
        assert(q <= m) by (nonlinear_arith)
            requires
                b * q <= m,
                b >= 1,
                q >= 0,
        ;
        assert(Fixed::of_count_spec(p.total).steps == b);
        assert(Fixed::of_count_spec(p.done).steps == d * 65536);
        assert(fraction_of::<Fixed>(p).steps == q);
        if d == 0 {
            assert(q == 0) by (nonlinear_arith)
                requires
                    q * n <= 0,
                    n > 0,
                    q >= 0,
            ;
        }
        if d == n {
            assert(q == 65536) by (nonlinear_arith)
                requires
                    q * n <= n * 65536 < (q + 1) * n,
                    n > 0,
            ;
        }
    }
}

/// Dragging a contrast value by two hundred points takes it through the range of the image, or
/// through one where that is less, up to the rounding.
pub proof fn contrast_moves_through_the_range(lo: Fixed, hi: Fixed)
    requires
        modest(lo) && modest(hi),
    ensures
        ({
            let v = contrast_speed_of(lo, hi).steps as int;
            let range = if hi.steps - lo.steps > 65536 {
                hi.steps - lo.steps
            } else {
                65536
            };
            200 * v <= range < 200 * v + 200
        }),
{
    assert(Fixed::of_count_spec(1).steps == 65536);
    assert(Fixed::of_count_spec(200).steps == 13107200);
}

/// Whatever is done over the image, only the regions and what is told of the pointer change:
/// the images, the contrast, the magnification and the file to write stay as they are.
pub proof fn editing_leaves_the_image<S: Scalar>(
    a: AppView<S>,
    place: Placement<S>,
    report: PointerReport<S>,
)
    ensures
        ({
            let n = a.interacted(place, report);
            &&& n.stack == a.stack && n.image == a.image
            &&& n.vmin == a.vmin && n.vmax == a.vmax && n.colormap == a.colormap
            &&& n.data_min == a.data_min && n.data_max == a.data_max
            &&& n.scale == a.scale && n.fit_requested == a.fit_requested
            &&& n.initial_mask == a.initial_mask
            &&& n.output_path == a.output_path
            &&& n.status == a.status && n.loading == a.loading
            &&& n.cursor == a.cursor_at(place, report.hover)
            &&& n.editor == a.editor.interacted(place, report)
        }),
{
}

/// A mask that is read selects the pixels whose values are not zero, of either sign.
pub proof fn a_mask_file_selects_by_zero(mask: Mask, frame: FrameView<Fixed>, y: int, x: int)
    requires
        selects_nonzero(mask, frame),
        0 <= y < frame.height,
        0 <= x < frame.width,
    ensures
        mask.rows().len() == frame.height,
        mask.width() == frame.width,
        mask.rows()[y][x] <==> frame.data[y * frame.width + x].steps != 0,
{
    assert(mask.at(y, x) == nonzero_spec(frame.at(y, x)));
    assert(Fixed::of_count_spec(0).steps == 0);
}

/// A failed load changes nothing but what is said; a load that goes on changes nothing but how
/// far it has come.
pub proof fn a_failed_load_changes_nothing<S: Scalar>(a: AppView<S>, text: Seq<char>, p: Progress)
    ensures
        ({
            let f = a.load_failed_spec(text);
            &&& f.stack == a.stack && f.image == a.image && f.editor == a.editor
            &&& f.initial_mask == a.initial_mask && f.scale == a.scale
            &&& f.vmin == a.vmin && f.vmax == a.vmax
            &&& f.loading is None
        }),
        a.loading is Some ==> a.load_progressed(p) == (AppView { loading: Some(p), ..a }),
        a.loading is None ==> a.load_progressed(p) == a,
        forall|n: usize| n > 0 ==> (#[trigger] a.load_started(n)).loading == Some(
            Progress { done: 0, total: n },
        ) && a.load_started(n).image == a.image && a.load_started(n).editor == a.editor,
        a.load_started(0) == a,
{
}

/// The magnification is fitted only where that was asked for and there is an image to fit.
pub proof fn fitting_is_asked_for<S: Scalar>(a: AppView<S>, avail: (S, S))
    ensures
        !a.fit_requested || a.image is None ==> a.fitted(avail) == a,
        a.fitted(avail) == (AppView {
            scale: a.fitted(avail).scale,
            fit_requested: a.fitted(avail).fit_requested,
            ..a
        }),
{
}

} // verus!

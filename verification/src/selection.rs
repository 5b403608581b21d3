//! The selection: what the regions, applied in order to a starting mask, select.

use vstd::prelude::*;

use crate::editor::Roi;
use crate::frame::{Fault, Frame, FrameView, LoadError};
use crate::loader::{load_paths, load_spec, StackView};
use crate::mask::{fits, Mask};
use crate::paths::SourcePath;
use crate::scalar::Scalar;

verus! {

/// Is the pixel in row `y` and column `x` selected by the regions, in an image
/// with the given size? The last region that covers it decides; where none does,
/// it is as it was at the start.
pub open spec fn selected_at<S: Scalar>(
    rois: Seq<Roi<S>>,
    height: int,
    width: int,
    y: int,
    x: int,
    start: bool,
) -> bool
    decreases rois.len(),
{
    if rois.len() == 0 {
        start
    } else if rois.last().geom.covers(height, width, y, x) {
        rois.last().additive
    } else {
        selected_at(rois.drop_last(), height, width, y, x, start)
    }
}

/// Is the pixel selected by the starting mask? Only a mask with the size of the
/// image counts.
pub open spec fn starts_selected(
    initial: Option<Mask>,
    height: int,
    width: int,
    y: int,
    x: int,
) -> bool {
    match initial {
        Some(m) => m.height() == height && m.width() == width && m.at(y, x),
        None => false,
    }
}

/// The rows of the mask that the regions select in an image with the given size.
pub open spec fn composite_rows<S: Scalar>(
    rois: Seq<Roi<S>>,
    initial: Option<Mask>,
    height: int,
    width: int,
) -> Seq<Seq<bool>> {
    Seq::new(
        height as nat,
        |y: int|
            Seq::new(
                width as nat,
                |x: int|
                    selected_at(
                        rois,
                        height,
                        width,
                        y,
                        x,
                        starts_selected(initial, height, width, y, x),
                    ),
            ),
    )
}

/// A mask is what the regions select if each of its pixels is.
proof fn lemma_composite<S: Scalar>(
    mask: Mask,
    rois: Seq<Roi<S>>,
    initial: Option<Mask>,
    height: int,
    width: int,
)
    requires
        mask.wf(),
        mask.height() == height,
        mask.width() == width,
        forall|y: int, x: int|
            0 <= y < height && 0 <= x < width ==> #[trigger] mask.at(y, x) == selected_at(
                rois,
                height,
                width,
                y,
                x,
                starts_selected(initial, height, width, y, x),
            ),
    ensures
        mask.rows() == composite_rows(rois, initial, height, width),
{
    let rows = composite_rows(rois, initial, height, width);
    assert forall|y: int| 0 <= y < height implies mask.rows()[y] == rows[y] by {
        assert forall|x: int| 0 <= x < width implies mask.rows()[y][x] == rows[y][x] by {
            assert(mask.at(y, x) == rows[y][x]);
        }
        assert(mask.rows()[y] =~= rows[y]);
    }
    assert(mask.rows() =~= rows);
}

/// Composite the regions, in order, into a mask of the given size.
pub fn composite<S: Scalar>(
    rois: &Vec<Roi<S>>,
    initial: &Option<Mask>,
    height: usize,
    width: usize,
) -> (r: Mask)
    requires
        fits(height as int, width as int),
        *initial matches Some(m) ==> m.wf(),
    ensures
        r.wf(),
        r.rows() == composite_rows(rois@, *initial, height as int, width as int),
        r.width() == width,
{
    let mut mask = Mask::new(height, width);
    if let Some(m) = initial {
        let (h, w) = m.dim();
        if h == height && w == width {
            mask = m.duplicate();
        }
    }
    let mut i: usize = 0;
    assert(rois@.take(0) =~= Seq::empty());
    while i < rois.len()
        invariant
            i <= rois@.len(),
            mask.wf(),
            mask.height() == height,
            mask.width() == width,
            forall|y: int, x: int|
                0 <= y < height && 0 <= x < width ==> #[trigger] mask.at(y, x) == selected_at(
                    rois@.take(i as int),
                    height as int,
                    width as int,
                    y,
                    x,
                    starts_selected(*initial, height as int, width as int, y, x),
                ),
        decreases rois@.len() - i,
    {
        let roi = &rois[i];
        let ghost before = mask;
        roi.geom.stamp(&mut mask, roi.additive);
        proof {
            let next = rois@.take(i + 1);
            assert(next.drop_last() =~= rois@.take(i as int));
            assert forall|y: int, x: int| 0 <= y < height && 0 <= x < width implies #[trigger] mask.at(
                y,
                x,
            ) == selected_at(
                next,
                height as int,
                width as int,
                y,
                x,
                starts_selected(*initial, height as int, width as int, y, x),
            ) by {
                assert(before.at(y, x) == before.at(y, x));
            }
        }
        i = i + 1;
    }
    assert(rois@.take(i as int) =~= rois@);
    proof {
        lemma_composite(mask, rois@, *initial, height as int, width as int);
    }
    mask
}

/// A region drawn last selects or carves out the pixels that it covers, and
/// leaves all others as they were.
pub proof fn the_last_region_decides<S: Scalar>(
    rois: Seq<Roi<S>>,
    roi: Roi<S>,
    height: int,
    width: int,
    y: int,
    x: int,
    start: bool,
)
    ensures
        roi.geom.covers(height, width, y, x) ==> selected_at(
            rois.push(roi),
            height,
            width,
            y,
            x,
            start,
        ) == roi.additive,
        !roi.geom.covers(height, width, y, x) ==> selected_at(
            rois.push(roi),
            height,
            width,
            y,
            x,
            start,
        ) == selected_at(rois, height, width, y, x, start),
{
    assert(rois.push(roi).drop_last() =~= rois);
}

/// Regions that only add select the pixels that one of them covers, and what was
/// selected at the start stays selected.
pub proof fn additive_regions_add<S: Scalar>(
    rois: Seq<Roi<S>>,
    height: int,
    width: int,
    y: int,
    x: int,
    start: bool,
)
    requires
        forall|i: int| 0 <= i < rois.len() ==> (#[trigger] rois[i]).additive,
    ensures
        selected_at(rois, height, width, y, x, start) <==> start || exists|i: int|
            0 <= i < rois.len() && (#[trigger] rois[i]).geom.covers(height, width, y, x),
    decreases rois.len(),
{
    if rois.len() > 0 {
        let front = rois.drop_last();
        assert forall|i: int| 0 <= i < front.len() implies (#[trigger] front[i]).additive by {
            assert(rois[i].additive);
        }
        additive_regions_add(front, height, width, y, x, start);
        let n = rois.len() - 1;
        assert(rois[n] == rois.last());
        if exists|i: int|
            0 <= i < front.len() && (#[trigger] front[i]).geom.covers(height, width, y, x) {
            let i = choose|i: int|
                0 <= i < front.len() && (#[trigger] front[i]).geom.covers(height, width, y, x);
            assert(rois[i].geom.covers(height, width, y, x));
        }
        if exists|i: int|
            0 <= i < rois.len() && (#[trigger] rois[i]).geom.covers(height, width, y, x) {
            let i = choose|i: int|
                0 <= i < rois.len() && (#[trigger] rois[i]).geom.covers(height, width, y, x);
            if i < n {
                assert(front[i].geom.covers(height, width, y, x));
            }
        }
    }
}

/// Regions that only carve select nothing that was not selected at the start.
pub proof fn carving_regions_select_nothing<S: Scalar>(
    rois: Seq<Roi<S>>,
    height: int,
    width: int,
    y: int,
    x: int,
    start: bool,
)
    requires
        forall|i: int| 0 <= i < rois.len() ==> !(#[trigger] rois[i]).additive,
    ensures
        selected_at(rois, height, width, y, x, start) ==> start,
    decreases rois.len(),
{
    if rois.len() > 0 {
        let front = rois.drop_last();
        assert forall|i: int| 0 <= i < front.len() implies !(#[trigger] front[i]).additive by {
            assert(!rois[i].additive);
        }
        carving_regions_select_nothing(front, height, width, y, x, start);
        assert(!rois[rois.len() - 1].additive);
    }
}

/// Is a value of a mask file other than zero?
pub open spec fn nonzero_spec<S: Scalar>(v: S) -> bool {
    !(v.at_most_spec(S::of_count_spec(0)) && S::of_count_spec(0).at_most_spec(v))
}

/// Is a value of a mask file other than zero?
fn nonzero<S: Scalar>(v: S) -> (r: bool)
    ensures
        r == nonzero_spec(v),
{
    !(v.at_most(S::of_count(0)) && S::of_count(0).at_most(v))
}

/// The mask selects the pixels of the image with a value other than zero.
pub open spec fn selects_nonzero<S: Scalar>(mask: Mask, frame: FrameView<S>) -> bool {
    &&& mask.height() == frame.height
    &&& mask.width() == frame.width
    &&& forall|y: int, x: int|
        0 <= y < frame.height && 0 <= x < frame.width ==> #[trigger] mask.at(y, x) == nonzero_spec(
            frame.at(y, x),
        )
}

/// The pixels of an image with a value other than zero.
pub fn mask_of_frame<S: Scalar>(frame: &Frame<S>) -> (r: Mask)
    requires
        frame@.wf(),
    ensures
        r.wf(),
        selects_nonzero(r, frame@),
{
    let mut mask = Mask::new(frame.height, frame.width);
    let mut y: usize = 0;
    while y < frame.height
        invariant
            frame@.wf(),
            y <= frame.height,
            mask.wf(),
            mask.height() == frame.height,
            mask.width() == frame.width,
            forall|py: int, px: int|
                0 <= py < y && 0 <= px < frame.width ==> #[trigger] mask.at(py, px) == nonzero_spec(
                    frame@.at(py, px),
                ),
        decreases frame.height - y,
    {
        let mut x: usize = 0;
        while x < frame.width
            invariant
                frame@.wf(),
                y < frame.height,
                x <= frame.width,
                mask.wf(),
                mask.height() == frame.height,
                mask.width() == frame.width,
                forall|py: int, px: int|
                    0 <= py <= y && 0 <= px < frame.width && (py < y || px < x)
                        ==> #[trigger] mask.at(py, px) == nonzero_spec(frame@.at(py, px)),
            decreases frame.width - x,
        {
            let v = frame.get(y, x);
            mask.set(y, x, nonzero(v));
            x = x + 1;
        }
        y = y + 1;
    }
    mask
}

/// The path alone, as the first of those that are asked for.
pub open spec fn alone(path: SourcePath) -> Seq<SourcePath> {
    seq![SourcePath { index: 0, ..path }]
}

/// Read an existing mask file into a mask (non-zero = selected), with the image
/// loader, so that the same formats are accepted. The first frame counts.
pub fn load_initial_mask<S: Scalar>(path: SourcePath, bytes: Vec<u8>) -> (r: Result<Mask, LoadError>)
    ensures
        match r {
            Ok(mask) => mask.wf() && load_spec::<S>(alone(path), seq![bytes]) is Ok && selects_nonzero(
                mask,
                load_spec::<S>(alone(path), seq![bytes])->Ok_0.frames[0],
            ),
            Err(e) => load_spec::<S>(alone(path), seq![bytes]) == Err::<StackView<S>, Fault>(e@),
        },
{
    let mut paths: Vec<SourcePath> = Vec::new();
    paths.push(SourcePath { index: 0, ..path });
    let mut contents: Vec<Vec<u8>> = Vec::new();
    contents.push(bytes);
    assert(paths@ =~= alone(path));
    assert(contents@ =~= seq![bytes]);
    match load_paths::<S>(paths, &contents) {
        Err(e) => Err(e),
        Ok(stack) => {
            assert(stack@.frames[0] == stack.frames@[0]@);
            Ok(mask_of_frame(&stack.frames[0]))
        },
    }
}

} // verus!

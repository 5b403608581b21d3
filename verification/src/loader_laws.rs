//! What holds of every stack that is loaded.

use vstd::prelude::*;

use crate::codec::{tiff_advances, tiff_has_more, tiff_samples, tiff_size};
use crate::directory::{page_is_countable, page_is_jpeg};
use crate::formats::{page_spec, pages_spec, planes_spec, tiff_frames, tiff_spec, Page};
use crate::frame::{frame_spec, pixel_is_inside, Fault, FrameView};
use crate::loader::{file_spec, joined_keeps_all, LoaderView};
use crate::samples::Sample;
use crate::scalar::Scalar;

verus! {

/// A buffer with one value for each pixel is shown as it is; of one with several
/// values for each pixel the first is shown.
pub proof fn frame_shows_first_values<S>(values: Seq<S>, per_pixel: int, w: int, h: int, y: int, x: int)
    requires
        0 <= y < h,
        0 <= x < w,
        per_pixel >= 1,
        values.len() == (w * h) * per_pixel,
    ensures
        frame_spec(values, w, h) matches Ok(frame) ==> frame.wf() && frame.at(y, x) == values[(y * w
            + x) * per_pixel],
        frame_spec(values, w, h) matches Err(fault) ==> fault is TooLarge,
{
    let expected = w * h;
    pixel_is_inside(h, w, y, x);
    assert(w * h == h * w) by (nonlinear_arith);
    assert(expected * per_pixel > 0) by (nonlinear_arith)
        requires
            expected > 0,
            per_pixel >= 1,
    ;
    vstd::arithmetic::div_mod::lemma_fundamental_div_mod_converse(
        expected * per_pixel,
        expected,
        per_pixel,
        0,
    );
    if values.len() == expected {
        assert(per_pixel == 1) by (nonlinear_arith)
            requires
                expected * per_pixel == expected,
                expected > 0,
        ;
        assert((y * w + x) * per_pixel == y * w + x) by (nonlinear_arith)
            requires
                per_pixel == 1,
        ;
    }
}

/// The frame is what the page holds, and the page points to another if `more`.
pub open spec fn page_shown<S: Scalar>(
    bytes: Seq<u8>,
    page: int,
    frame: FrameView<S>,
    more: bool,
) -> bool {
    &&& !page_is_jpeg(bytes, page as nat)
    &&& tiff_samples(bytes, page as nat) is Some
    &&& page_spec::<S>(
        tiff_samples(bytes, page as nat)->0,
        tiff_size(bytes, page as nat),
    ) == Ok::<FrameView<S>, Fault>(frame)
    &&& tiff_has_more(bytes, page as nat) == more
}

/// A TIFF file has one frame for each page, up to the first that points to no other.
pub proof fn tiff_has_a_frame_per_page<S: Scalar>(
    bytes: Seq<u8>,
    file: Seq<char>,
    page: nat,
    front: Seq<FrameView<S>>,
)
    ensures
        tiff_frames(bytes, file, page, front) matches Ok(frames) ==> {
            let f = front.len() as int;
            &&& frames.len() > f
            &&& frames.take(f) == front
            &&& forall|i: int|
                f <= i < frames.len() ==> page_shown(
                    bytes,
                    page + i - f,
                    #[trigger] frames[i],
                    i < frames.len() - 1,
                )
        },
    decreases bytes.len() - page,
{
    if page_is_jpeg(bytes, page) {
    } else if let Some(samples) = tiff_samples(bytes, page) {
        if let Ok(frame) = page_spec::<S>(samples, tiff_size(bytes, page)) {
            let next = front.push(frame);
            let f = front.len() as int;
            if !tiff_has_more(bytes, page) {
                assert(next.take(f) =~= front);
            } else if page_is_countable(bytes, page + 1) && tiff_advances(bytes, page) && page + 1
                < bytes.len() {
                tiff_has_a_frame_per_page(bytes, file, page + 1, next);
                if let Ok(frames) = tiff_frames(bytes, file, page + 1, next) {
                    assert forall|i: int| 0 <= i <= f implies frames[i] == next[i] by {
                        assert(frames.take(f + 1)[i] == next[i]);
                    }
                    assert(frames.take(f) =~= front);
                    assert forall|i: int| f <= i < frames.len() implies page_shown(
                        bytes,
                        page + i - f,
                        #[trigger] frames[i],
                        i < frames.len() - 1,
                    ) by {
                        if i > f {
                            assert(page_shown(
                                bytes,
                                (page + 1) + i - (f + 1),
                                frames[i],
                                i < frames.len() - 1,
                            ));
                        }
                    }
                }
            }
        }
    }
}

/// Pages that are decoded elsewhere give the frames that the file itself gives.
pub proof fn decoded_pages_give_the_same_frames<S: Scalar>(
    bytes: Seq<u8>,
    file: Seq<char>,
    pages: Seq<Page>,
)
    requires
        tiff_spec::<S>(bytes, file) matches Ok(frames) && frames.len() == pages.len(),
        forall|i: int|
            0 <= i < pages.len() ==> tiff_samples(bytes, i as nat) == Some(
                (#[trigger] pages[i]).samples@,
            ) && tiff_size(bytes, i as nat) == (pages[i].width, pages[i].height),
    ensures
        pages_spec::<S>(pages, pages.len() as int) == tiff_spec::<S>(bytes, file),
{
    let frames = tiff_spec::<S>(bytes, file)->Ok_0;
    tiff_has_a_frame_per_page::<S>(bytes, file, 0, Seq::empty());
    lemma_pages_one_by_one(bytes, pages, frames, pages.len() as int);
    assert(frames.take(pages.len() as int) =~= frames);
}

/// The first `n` pages give the first `n` frames.
proof fn lemma_pages_one_by_one<S: Scalar>(
    bytes: Seq<u8>,
    pages: Seq<Page>,
    frames: Seq<FrameView<S>>,
    n: int,
)
    requires
        0 <= n <= pages.len(),
        frames.len() == pages.len(),
        forall|i: int|
            0 <= i < pages.len() ==> tiff_samples(bytes, i as nat) == Some(
                (#[trigger] pages[i]).samples@,
            ) && tiff_size(bytes, i as nat) == (pages[i].width, pages[i].height),
        forall|i: int|
            0 <= i < frames.len() ==> page_shown(
                bytes,
                i,
                #[trigger] frames[i],
                i < frames.len() - 1,
            ),
    ensures
        pages_spec::<S>(pages, n) == Ok::<Seq<FrameView<S>>, Fault>(frames.take(n)),
    decreases n,
{
    if n > 0 {
        lemma_pages_one_by_one(bytes, pages, frames, n - 1);
        assert(page_shown(bytes, n - 1, frames[n - 1], n - 1 < frames.len() - 1));
        assert(frames.take(n) =~= frames.take(n - 1).push(frames[n - 1]));
    } else {
        assert(frames.take(n) =~= Seq::empty());
    }
}

/// The pixel in row `y` and column `x` of the plane `k` of a 3-D array is the
/// value with those indices.
pub proof fn planes_show_the_array<S: Scalar>(
    samples: Seq<Sample>,
    d: int,
    h: int,
    w: int,
    k: int,
    y: int,
    x: int,
)
    requires
        0 <= k < d,
        0 <= y < h,
        0 <= x < w,
        samples.len() == d * (h * w),
    ensures
        planes_spec::<S>(samples, d, h, w).len() == d,
        planes_spec::<S>(samples, d, h, w)[k].at(y, x) == S::of_sample_spec(
            samples[(k * h + y) * w + x],
        ),
{
    pixel_is_inside(h, w, y, x);
    let area = h * w;
    assert(k * area + area <= d * area && 0 <= k * area) by (nonlinear_arith)
        requires
            0 <= k < d,
            0 <= area,
    ;
    assert(k * area + (y * w + x) == (k * h + y) * w + x) by (nonlinear_arith)
        requires
            area == h * w,
    ;
    let plane = samples.subrange(k * area, k * area + area);
    assert(plane[y * w + x] == samples[k * area + (y * w + x)]);
}

/// Frames have sources, those are loaded files, and no frame comes before one
/// of an earlier file.
pub open spec fn in_order<S>(l: LoaderView<S>) -> bool {
    &&& 0 <= l.done <= l.files.len() <= usize::MAX
    &&& l.frames.len() == l.sources.len()
    &&& forall|i: int| 0 <= i < l.sources.len() ==> (#[trigger] l.sources[i]) < l.done
    &&& forall|i: int, j: int|
        0 <= i < j < l.sources.len() ==> #[trigger] l.sources[i] <= #[trigger] l.sources[j]
}

/// However many files are loaded, the frames come in the order of the files, and
/// those of earlier files stay as they are.
pub proof fn frames_follow_the_files<S: Scalar>(l: LoaderView<S>, contents: Seq<Vec<u8>>)
    requires
        in_order(l),
    ensures
        l.completed(contents) matches Ok(all) ==> {
            &&& in_order(all)
            &&& all.files == l.files
            &&& all.done == l.files.len()
            &&& l.frames.len() <= all.frames.len()
            &&& all.frames.take(l.frames.len() as int) == l.frames
        },
    decreases l.files.len() - l.done,
{
    if l.done < l.files.len() {
        let bytes = contents[l.files[l.done].index as int]@;
        if let Ok(loaded) = file_spec::<S>(l.files[l.done], bytes) {
            joined_keeps_all(l.frames, loaded, l.files[l.done].shown@, 0);
            assert(loaded.skip(0) =~= loaded);
            if let Ok(next) = l.fed(bytes) {
                assert(in_order(next));
                frames_follow_the_files(next, contents);
                if let Ok(all) = l.completed(contents) {
                    assert(all.frames.take(l.frames.len() as int) =~= l.frames) by {
                        assert forall|i: int| 0 <= i < l.frames.len() implies all.frames[i]
                            == l.frames[i] by {
                            assert(all.frames.take(next.frames.len() as int)[i] == next.frames[i]);
                        }
                    }
                }
            }
        }
    } else {
        assert(l.frames.take(l.frames.len() as int) =~= l.frames);
    }
}

/// Progress is told after every file, counts the files one by one, and reaches
/// their number when loading succeeds.
pub proof fn progress_counts_up<S: Scalar>(l: LoaderView<S>, contents: Seq<Vec<u8>>)
    requires
        0 <= l.done <= l.files.len() <= usize::MAX,
    ensures
        l.progress(contents).len() <= l.files.len() - l.done,
        l.completed(contents) is Ok ==> l.progress(contents).len() == l.files.len() - l.done,
        forall|i: int|
            0 <= i < l.progress(contents).len() ==> #[trigger] l.progress(contents)[i] == (
                (l.done + i + 1) as usize,
                l.files.len() as usize,
            ),
    decreases l.files.len() - l.done,
{
    if l.done < l.files.len() {
        if let Ok(next) = l.fed(contents[l.files[l.done].index as int]@) {
            progress_counts_up(next, contents);
            let rest = next.progress(contents);
            assert forall|i: int| 0 <= i < l.progress(contents).len() implies #[trigger] l.progress(
                contents,
            )[i] == ((l.done + i + 1) as usize, l.files.len() as usize) by {
                if i > 0 {
                    assert(l.progress(contents)[i] == rest[i - 1]);
                }
            }
        }
    }
}

} // verus!

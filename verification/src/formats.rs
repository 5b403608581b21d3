//! The images in a TIFF file and in a NumPy `.npy` file.

use vstd::prelude::*;

use crate::codec::{
    extent_product, npy_is_tame, npy_shape, npy_values, read_npy, read_npy_shape, shape_fits,
    shape_len, tiff_advances, tiff_has_more, tiff_opens, tiff_samples, tiff_size, Element, TiffPages,
};
use crate::directory::{page_is_countable, page_is_jpeg, Walk};
use crate::frame::{frame_spec, to_frame, values_of, values_spec, views, Fault, Frame, FrameView, LoadError};
use crate::header::{header_is_flat, npy_header_is_flat};
use crate::mask::fits;
use crate::samples::{Sample, Samples};
use crate::scalar::Scalar;

verus! {

/// The image on a page of a TIFF file, which has this size and these values.
pub open spec fn page_spec<S: Scalar>(samples: Seq<Sample>, size: (u32, u32)) -> Result<
    FrameView<S>,
    Fault,
> {
    frame_spec(values_spec::<S>(samples), size.0 as int, size.1 as int)
}

/// The frames of a TIFF file from the given page on, after those of `front`.
pub open spec fn tiff_frames<S: Scalar>(
    bytes: Seq<u8>,
    file: Seq<char>,
    page: nat,
    front: Seq<FrameView<S>>,
) -> Result<Seq<FrameView<S>>, Fault>
    decreases bytes.len() - page,
{
    if page_is_jpeg(bytes, page) {
        Err(Fault::TiffUnsupported { file })
    } else {
        match tiff_samples(bytes, page) {
            None => Err(Fault::TiffPage),
            Some(samples) => match page_spec::<S>(samples, tiff_size(bytes, page)) {
                Err(fault) => Err(fault),
                Ok(frame) => if !tiff_has_more(bytes, page) {
                    Ok(front.push(frame))
                } else if !page_is_countable(bytes, page + 1) {
                    Err(Fault::TiffUnsupported { file })
                } else if !tiff_advances(bytes, page) || page + 1 >= bytes.len() {
                    Err(Fault::TiffPage)
                } else {
                    tiff_frames(bytes, file, page + 1, front.push(frame))
                },
            },
        }
    }
}

/// The frames of a TIFF file, one per page.
pub open spec fn tiff_spec<S: Scalar>(bytes: Seq<u8>, file: Seq<char>) -> Result<
    Seq<FrameView<S>>,
    Fault,
> {
    if !page_is_countable(bytes, 0) {
        Err(Fault::TiffUnsupported { file })
    } else if tiff_opens(bytes) {
        tiff_frames(bytes, file, 0, Seq::empty())
    } else {
        Err(Fault::TiffOpen { file })
    }
}

/// The outcome of loading frames is the one that is specified.
pub open spec fn frames_agree<S>(
    r: Result<Vec<Frame<S>>, LoadError>,
    spec: Result<Seq<FrameView<S>>, Fault>,
) -> bool {
    match r {
        Ok(frames) => spec == Ok::<Seq<FrameView<S>>, Fault>(views(frames@)) && forall|i: int|
            0 <= i < frames@.len() ==> (#[trigger] frames@[i])@.wf(),
        Err(e) => spec == Err::<Seq<FrameView<S>>, Fault>(e@),
    }
}

/// The image on a page of a TIFF file, which has this size and these values. There
/// is one value for each pixel, or several, of which the first is shown.
pub fn page_frame<S: Scalar>(samples: &Samples, width: u32, height: u32) -> (r: Result<
    Frame<S>,
    LoadError,
>)
    ensures
        match r {
            Ok(frame) => page_spec::<S>(samples@, (width, height)) == Ok::<FrameView<S>, Fault>(
                frame@,
            ) && frame@.wf(),
            Err(e) => page_spec::<S>(samples@, (width, height)) == Err::<FrameView<S>, Fault>(e@),
        },
{
    let n: usize = samples.len();
    let values = values_of::<S>(samples, 0, n);
    assert(samples@.subrange(0, n as int) =~= samples@);
    to_frame(values, width as usize, height as usize)
}

/// Read every page of a (possibly multi-page) TIFF file.
pub fn load_tiff<S: Scalar>(bytes: &Vec<u8>, file: &String) -> (r: Result<Vec<Frame<S>>, LoadError>)
    ensures
        frames_agree(r, tiff_spec::<S>(bytes@, file@)),
{
    let mut walk = Walk::new(bytes);
    if !walk.is_countable(Ghost(bytes@), Ghost(0)) {
        return Err(LoadError::TiffUnsupported { file: file.as_str().to_owned() });
    }
    let mut pages = match TiffPages::open(bytes) {
        Ok(pages) => pages,
        Err(error) => {
            return Err(LoadError::TiffOpen { file: file.as_str().to_owned(), error });
        },
    };
    let mut out: Vec<Frame<S>> = Vec::new();
    assert(views(out@) =~= Seq::<FrameView<S>>::empty());
    loop
        invariant
            pages.source() == bytes@,
            walk.is_at(bytes@, pages.page()),
            tiff_spec::<S>(bytes@, file@) == tiff_frames(
                bytes@,
                file@,
                pages.page(),
                views(out@),
            ),
            forall|i: int| 0 <= i < out@.len() ==> (#[trigger] out@[i])@.wf(),
        decreases bytes@.len() - pages.page(),
    {
        let ghost page = pages.page();
        if walk.is_jpeg(Ghost(bytes@), Ghost(page)) {
            return Err(LoadError::TiffUnsupported { file: file.as_str().to_owned() });
        }
        let (w, h) = match pages.size() {
            Ok(size) => size,
            Err(error) => {
                return Err(LoadError::TiffPage { error });
            },
        };
        let samples = match pages.read() {
            Ok(samples) => samples,
            Err(error) => {
                return Err(LoadError::TiffPage { error });
            },
        };
        let ghost before = out@;
        match page_frame(&samples, w, h) {
            Err(e) => {
                return Err(e);
            },
            Ok(frame) => {
                out.push(frame);
                assert(views(out@) =~= views(before).push(frame@));
            },
        }
        if !pages.more() {
            return Ok(out);
        }
        walk.advance(bytes, Ghost(page));
        if !walk.is_countable(Ghost(bytes@), Ghost(page + 1)) {
            return Err(LoadError::TiffUnsupported { file: file.as_str().to_owned() });
        }
        match pages.advance() {
            Ok(()) => {},
            Err(error) => {
                return Err(LoadError::TiffPage { error });
            },
        }
    }
}

/// A page of a TIFF file: its size, and its values row by row.
#[derive(Debug)]
pub struct Page {
    pub width: u32,
    pub height: u32,
    pub samples: Samples,
}

/// The frames of the first `n` pages.
pub open spec fn pages_spec<S: Scalar>(pages: Seq<Page>, n: int) -> Result<Seq<FrameView<S>>, Fault>
    decreases n,
{
    if n <= 0 {
        Ok(Seq::empty())
    } else {
        match pages_spec::<S>(pages, n - 1) {
            Err(fault) => Err(fault),
            Ok(front) => match page_spec::<S>(
                pages[n - 1].samples@,
                (pages[n - 1].width, pages[n - 1].height),
            ) {
                Err(fault) => Err(fault),
                Ok(frame) => Ok(front.push(frame)),
            },
        }
    }
}

/// The first page without a frame decides.
proof fn lemma_pages_fail<S: Scalar>(pages: Seq<Page>, n: int, m: int)
    requires
        n <= m,
        pages_spec::<S>(pages, n) is Err,
    ensures
        pages_spec::<S>(pages, m) == pages_spec::<S>(pages, n),
    decreases m - n,
{
    if n < m {
        lemma_pages_fail::<S>(pages, n, m - 1);
    }
}

/// The frames of pages that are decoded already, one for each.
pub fn pages_frames<S: Scalar>(pages: &Vec<Page>) -> (r: Result<Vec<Frame<S>>, LoadError>)
    ensures
        frames_agree(r, pages_spec::<S>(pages@, pages@.len() as int)),
{
    let mut out: Vec<Frame<S>> = Vec::new();
    let mut i: usize = 0;
    assert(views(out@) =~= Seq::<FrameView<S>>::empty());
    while i < pages.len()
        invariant
            i <= pages@.len(),
            frames_agree(Ok(out), pages_spec::<S>(pages@, i as int)),
        decreases pages@.len() - i,
    {
        let page = &pages[i];
        let ghost before = out@;
        match page_frame::<S>(&page.samples, page.width, page.height) {
            Err(e) => {
                proof {
                    lemma_pages_fail::<S>(pages@, i + 1, pages@.len() as int);
                }
                return Err(e);
            },
            Ok(frame) => {
                out.push(frame);
                assert(views(out@) =~= views(before).push(frame@));
            },
        }
        i = i + 1;
    }
    Ok(out)
}

/// The kinds of values that a 2-D array is tried for, in this order.
pub open spec fn flat_kinds() -> Seq<Element> {
    seq![
        Element::Single,
        Element::Double,
        Element::U8,
        Element::U16,
        Element::I16,
        Element::U32,
        Element::I32,
        Element::U64,
        Element::I64,
        Element::Bool,
    ]
}

/// The kinds of values that a 3-D array is tried for, in this order.
pub open spec fn deep_kinds() -> Seq<Element> {
    flat_kinds().drop_last()
}

/// The values of the first kind, from the `i`-th on, that the file can be read as.
pub open spec fn first_values(bytes: Seq<u8>, kinds: Seq<Element>, i: int) -> Option<Seq<Sample>>
    decreases kinds.len() - i,
{
    if i < 0 || i >= kinds.len() {
        None
    } else if npy_values(bytes, kinds[i]) is Some {
        npy_values(bytes, kinds[i])
    } else {
        first_values(bytes, kinds, i + 1)
    }
}

/// The planes of a 3-D array with the given numbers of planes, rows and columns.
pub open spec fn planes_spec<S: Scalar>(samples: Seq<Sample>, d: int, h: int, w: int) -> Seq<
    FrameView<S>,
> {
    Seq::new(
        d as nat,
        |k: int| FrameView {
            height: h,
            width: w,
            data: values_spec::<S>(samples.subrange(k * (h * w), k * (h * w) + h * w)),
        },
    )
}

/// The frames of an array: a 2-D array is one frame, a 3-D array has one frame per
/// plane along axis 0, and no other array has frames.
pub open spec fn array_spec<S: Scalar>(shape: Seq<usize>, samples: Seq<Sample>) -> Option<
    Seq<FrameView<S>>,
> {
    if shape.len() == 2 {
        Some(
            seq![
                FrameView {
                    height: shape[0] as int,
                    width: shape[1] as int,
                    data: values_spec::<S>(samples),
                },
            ],
        )
    } else if shape.len() == 3 {
        Some(planes_spec(samples, shape[0] as int, shape[1] as int, shape[2] as int))
    } else {
        None
    }
}

/// The kinds of values that an array with that many axes is tried for.
pub open spec fn kinds_for(axes: nat) -> Seq<Element> {
    if axes == 2 {
        flat_kinds()
    } else if axes == 3 {
        deep_kinds()
    } else {
        Seq::empty()
    }
}

/// The frames of a `.npy` file: those of the array in it, if it is 2-D or 3-D and
/// holds values of one of the kinds that are tried.
pub open spec fn npy_spec<S: Scalar>(bytes: Seq<u8>, file: Seq<char>) -> Result<
    Seq<FrameView<S>>,
    Fault,
> {
    let refused = Err(Fault::Npy { file });
    if !npy_header_is_flat(bytes) {
        refused
    } else {
        match npy_shape(bytes) {
            None => refused,
            Some(shape) => if !shape_fits(shape, bytes.len()) {
                refused
            } else {
                match first_values(bytes, kinds_for(shape.len()), 0) {
                    None => refused,
                    Some(samples) => match array_spec::<S>(shape, samples) {
                        None => refused,
                        Some(frames) => Ok(frames),
                    },
                }
            },
        }
    }
}

/// The product of further axis lengths is not smaller.
proof fn lemma_extent_grows(shape: Seq<usize>, n: int)
    requires
        0 <= n <= shape.len(),
    ensures
        1 <= extent_product(shape.take(n)) <= extent_product(shape),
    decreases shape.len() - n,
{
    lemma_extent_positive(shape.take(n));
    if n < shape.len() {
        lemma_extent_grows(shape, n + 1);
        assert(shape.take(n + 1).drop_last() =~= shape.take(n));
        let a = extent_product(shape.take(n));
        let b = if shape[n] == 0 {
            1
        } else {
            shape[n] as int
        };
        assert(a <= a * b) by (nonlinear_arith)
            requires
                a >= 1,
                b >= 1,
        ;
    } else {
        assert(shape.take(n) =~= shape);
    }
}

/// The product of the axis lengths that are not zero is positive.
proof fn lemma_extent_positive(shape: Seq<usize>)
    ensures
        extent_product(shape) >= 1,
    decreases shape.len(),
{
    if shape.len() > 0 {
        lemma_extent_positive(shape.drop_last());
        let a = extent_product(shape.drop_last());
        let b = if shape.last() == 0 {
            1
        } else {
            shape.last() as int
        };
        assert(a * b >= 1) by (nonlinear_arith)
            requires
                a >= 1,
                b >= 1,
        ;
    }
}

/// The product of the axis lengths is not larger than that of those that are not zero.
proof fn lemma_len_within_extent(shape: Seq<usize>)
    ensures
        0 <= shape_len(shape) <= extent_product(shape),
    decreases shape.len(),
{
    if shape.len() > 0 {
        lemma_len_within_extent(shape.drop_last());
        lemma_extent_positive(shape.drop_last());
        let a = shape_len(shape.drop_last());
        let b = extent_product(shape.drop_last());
        let axis = shape.last() as int;
        assert(0 <= a * axis <= b * axis) by (nonlinear_arith)
            requires
                0 <= a <= b,
                0 <= axis,
        ;
    }
}

/// Can an array have these axis lengths, and a file of this many bytes hold it?
fn shape_can_be(shape: &Vec<usize>, bytes: usize) -> (r: bool)
    ensures
        r == shape_fits(shape@, bytes as nat),
{
    if !shape_can_exist(shape) {
        return false;
    }
    let mut product: usize = 1;
    let mut i: usize = 0;
    assert(shape@.take(0) =~= Seq::empty());
    while i < shape.len()
        invariant
            i <= shape@.len(),
            extent_product(shape@) <= isize::MAX,
            product == shape_len(shape@.take(i as int)),
        decreases shape@.len() - i,
    {
        proof {
            assert(shape@.take(i + 1).drop_last() =~= shape@.take(i as int));
            lemma_extent_grows(shape@, i + 1);
            lemma_len_within_extent(shape@.take(i + 1));
        }
        product = product * shape[i];
        i = i + 1;
    }
    assert(shape@.take(i as int) =~= shape@);
    product <= bytes
}

/// Can an array have these axis lengths?
fn shape_can_exist(shape: &Vec<usize>) -> (r: bool)
    ensures
        r == (extent_product(shape@) <= isize::MAX),
{
    let most: usize = isize::MAX as usize;
    let mut product: usize = 1;
    let mut i: usize = 0;
    assert(shape@.take(0) =~= Seq::empty());
    while i < shape.len()
        invariant
            i <= shape@.len(),
            most == isize::MAX,
            1 <= product <= most,
            product == extent_product(shape@.take(i as int)),
        decreases shape@.len() - i,
    {
        let axis: usize = if shape[i] == 0 {
            1
        } else {
            shape[i]
        };
        proof {
            assert(shape@.take(i + 1).drop_last() =~= shape@.take(i as int));
            lemma_extent_grows(shape@, i + 1);
        }
        match product.checked_mul(axis) {
            None => {
                return false;
            },
            Some(p) => {
                if p > most {
                    return false;
                }
                proof {
                    assert(p >= 1) by (nonlinear_arith)
                        requires
                            p == product * axis,
                            product >= 1,
                            axis >= 1,
                    ;
                }
                product = p;
            },
        }
        i = i + 1;
    }
    assert(shape@.take(i as int) =~= shape@);
    true
}

/// The first kind, from the beginning, that the file can be read as.
fn probe(bytes: &Vec<u8>, kinds: &Vec<Element>) -> (r: Option<Samples>)
    requires
        npy_is_tame(bytes@),
    ensures
        match r {
            Some(s) => first_values(bytes@, kinds@, 0) == Some(s@) && npy_shape(bytes@) is Some
                && s@.len() == shape_len(npy_shape(bytes@)->0),
            None => first_values(bytes@, kinds@, 0) is None,
        },
{
    let mut i: usize = 0;
    while i < kinds.len()
        invariant
            npy_is_tame(bytes@),
            i <= kinds@.len(),
            first_values(bytes@, kinds@, 0) == first_values(bytes@, kinds@, i as int),
        decreases kinds@.len() - i,
    {
        if let Some(samples) = read_npy(bytes, kinds[i]) {
            return Some(samples);
        }
        i = i + 1;
    }
    None
}

/// The size of a 2-D array: its shape can exist, and the values are as many.
proof fn lemma_flat_shape(shape: Seq<usize>)
    requires
        shape.len() == 2,
        extent_product(shape) <= isize::MAX,
    ensures
        shape_len(shape) == shape[0] * shape[1],
        fits(shape[0] as int, shape[1] as int),
{
    reveal_with_fuel(extent_product, 3);
    reveal_with_fuel(shape_len, 3);
    let h = shape[0] as int;
    let w = shape[1] as int;
    let front = shape.drop_last();
    assert(front.drop_last() =~= Seq::empty());
    assert(front.last() == shape[0]);
    let a = if h == 0 {
        1
    } else {
        h
    };
    let b = if w == 0 {
        1
    } else {
        w
    };
    assert(extent_product(shape) == a * b);
    assert(h <= a * b && w <= a * b && h * w <= a * b) by (nonlinear_arith)
        requires
            h >= 0,
            w >= 0,
            a == (if h == 0 {
                1
            } else {
                h
            }),
            b == (if w == 0 {
                1
            } else {
                w
            }),
    ;
}

/// The size of a 3-D array: each plane can exist, and the values are as many.
proof fn lemma_deep_shape(shape: Seq<usize>)
    requires
        shape.len() == 3,
        extent_product(shape) <= isize::MAX,
    ensures
        shape_len(shape) == shape[0] * (shape[1] * shape[2]),
        fits(shape[1] as int, shape[2] as int),
{
    reveal_with_fuel(extent_product, 4);
    reveal_with_fuel(shape_len, 4);
    let d = shape[0] as int;
    let h = shape[1] as int;
    let w = shape[2] as int;
    let front = shape.drop_last();
    let head = front.drop_last();
    assert(head.drop_last() =~= Seq::empty());
    assert(head.last() == shape[0]);
    assert(front.last() == shape[1]);
    let c = if d == 0 {
        1
    } else {
        d
    };
    let a = if h == 0 {
        1
    } else {
        h
    };
    let b = if w == 0 {
        1
    } else {
        w
    };
    assert(extent_product(shape) == c * a * b);
    assert((d * h) * w == d * (h * w)) by (nonlinear_arith);
    assert(a * b <= c * a * b) by (nonlinear_arith)
        requires
            a >= 1,
            b >= 1,
            c >= 1,
    ;
    assert(h <= a * b && w <= a * b && h * w <= a * b) by (nonlinear_arith)
        requires
            h >= 0,
            w >= 0,
            a == (if h == 0 {
                1
            } else {
                h
            }),
            b == (if w == 0 {
                1
            } else {
                w
            }),
    ;
}

/// The planes of a 3-D array, one image each.
fn planes<S: Scalar>(samples: &Samples, d: usize, h: usize, w: usize) -> (r: Vec<Frame<S>>)
    requires
        fits(h as int, w as int),
        samples@.len() == d * (h * w),
    ensures
        views(r@) == planes_spec::<S>(samples@, d as int, h as int, w as int),
        forall|i: int| 0 <= i < r@.len() ==> (#[trigger] r@[i])@.wf(),
{
    let ghost spec = planes_spec::<S>(samples@, d as int, h as int, w as int);
    let mut out: Vec<Frame<S>> = Vec::new();
    assert(0 <= h * w) by (nonlinear_arith);
    let area: usize = h * w;
    let total: usize = samples.len();
    let mut from: usize = 0;
    let mut k: usize = 0;
    assert(0int * area == 0) by (nonlinear_arith);
    while k < d
        invariant
            k <= d,
            area == h * w,
            fits(h as int, w as int),
            total == samples@.len(),
            total == d * area,
            from == k * area,
            spec == planes_spec::<S>(samples@, d as int, h as int, w as int),
            views(out@) == spec.take(k as int),
            out@.len() == k,
            forall|i: int| 0 <= i < out@.len() ==> (#[trigger] out@[i])@.wf(),
        decreases d - k,
    {
        assert(k * area + area == (k + 1) * area && (k + 1) * area <= d * area) by (nonlinear_arith)
            requires
                0 <= k < d,
                0 <= area,
        ;
        let ghost before = out@;
        let data = values_of::<S>(samples, from, from + area);
        let frame = Frame { height: h, width: w, data };
        out.push(frame);
        proof {
            assert(frame@ == spec[k as int]);
            assert(views(out@) =~= views(before).push(frame@));
            assert(spec.take(k + 1) =~= spec.take(k as int).push(spec[k as int]));
        }
        from = from + area;
        k = k + 1;
    }
    assert(spec.take(k as int) =~= spec);
    out
}

/// The frames of an array: a 2-D array is one frame, a 3-D array has one frame per
/// plane along axis 0, and no other array has frames.
pub fn array_frames<S: Scalar>(shape: &Vec<usize>, samples: &Samples) -> (r: Option<Vec<Frame<S>>>)
    requires
        extent_product(shape@) <= isize::MAX,
        samples@.len() == shape_len(shape@),
    ensures
        match r {
            Some(frames) => array_spec::<S>(shape@, samples@) == Some(views(frames@)) && forall|
                i: int,
            |
                0 <= i < frames@.len() ==> (#[trigger] frames@[i])@.wf(),
            None => array_spec::<S>(shape@, samples@) is None,
        },
{
    if shape.len() == 2 {
        proof {
            lemma_flat_shape(shape@);
        }
        let n: usize = samples.len();
        let data = values_of::<S>(samples, 0, n);
        let mut out: Vec<Frame<S>> = Vec::new();
        out.push(Frame { height: shape[0], width: shape[1], data });
        proof {
            assert(samples@.subrange(0, n as int) =~= samples@);
            assert(views(out@) =~= array_spec::<S>(shape@, samples@)->0);
        }
        Some(out)
    } else if shape.len() == 3 {
        proof {
            lemma_deep_shape(shape@);
        }
        Some(planes::<S>(samples, shape[0], shape[1], shape[2]))
    } else {
        None
    }
}

/// The kinds of values that an array with that many axes is tried for.
fn kinds_to_try(axes: usize) -> (r: Vec<Element>)
    ensures
        r@ == kinds_for(axes as nat),
{
    let mut kinds: Vec<Element> = Vec::new();
    if axes == 2 || axes == 3 {
        kinds.push(Element::Single);
        kinds.push(Element::Double);
        kinds.push(Element::U8);
        kinds.push(Element::U16);
        kinds.push(Element::I16);
        kinds.push(Element::U32);
        kinds.push(Element::I32);
        kinds.push(Element::U64);
        kinds.push(Element::I64);
        if axes == 2 {
            kinds.push(Element::Bool);
        }
    }
    assert(kinds@ =~= kinds_for(axes as nat));
    kinds
}

/// Read a `.npy` file: a 2-D array becomes one frame, a 3-D array one frame per
/// plane along axis 0. The kind of value is probed among the common ones.
pub fn load_npy<S: Scalar>(bytes: &Vec<u8>, file: &String) -> (r: Result<Vec<Frame<S>>, LoadError>)
    ensures
        frames_agree(r, npy_spec::<S>(bytes@, file@)),
{
    if header_is_flat(bytes) {
        if let Some(shape) = read_npy_shape(bytes) {
            if shape_can_be(&shape, bytes.len()) {
                let kinds = kinds_to_try(shape.len());
                if let Some(samples) = probe(bytes, &kinds) {
                    if let Some(frames) = array_frames::<S>(&shape, &samples) {
                        return Ok(frames);
                    }
                }
            }
        }
    }
    Err(LoadError::Npy { file: file.as_str().to_owned() })
}

} // verus!

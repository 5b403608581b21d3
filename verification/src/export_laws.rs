//! What is saved can be loaded again.

use vstd::prelude::*;

use crate::codec::{
    byte_samples, extent_product, npy_shape, npy_values, shape_len, tiff_has_more, tiff_readable,
    tiff_samples, tiff_size, tiff_strips, tiff_writable, Element,
};
use crate::fixed::Fixed;
use crate::formats::{first_values, flat_kinds, npy_spec, tiff_spec};
use crate::frame::{pixel_is_inside, values_spec, Fault, FrameView};
use crate::loader::{load_spec, LoaderView, StackView};
use crate::mask::{flattened, flattened_is_row_by_row, mask_bytes, pixel_byte, Mask};
use crate::paths::{ext_spec, inserted, sorted, supported_spec, SourcePath};
use crate::roi::{npy_holds, save_spec, tiff_holds, SaveError};
use crate::samples::Sample;
use crate::scalar::Scalar;
use crate::selection::{alone, nonzero_spec, selects_nonzero};

verus! {

/// A mask as an image: 1 where a pixel is selected, 0 elsewhere.
pub open spec fn mask_frame<S: Scalar>(mask: Mask) -> FrameView<S> {
    FrameView {
        height: mask.height() as int,
        width: mask.width() as int,
        data: values_spec::<S>(byte_samples(mask_bytes(flattened(mask.rows())))),
    }
}

/// The image of a mask is whole, and each of its pixels is 1 or 0 as the mask says.
pub proof fn mask_frame_is_ones_and_zeros<S: Scalar>(mask: Mask)
    requires
        mask.wf(),
    ensures
        mask_frame::<S>(mask).wf(),
        forall|y: int, x: int|
            0 <= y < mask.height() && 0 <= x < mask.width() ==> #[trigger] mask_frame::<S>(mask).at(
                y,
                x,
            ) == S::of_sample_spec(Sample::Unsigned(pixel_byte(mask.at(y, x)) as u64)),
{
    let w = mask.width() as int;
    flattened_is_row_by_row(mask.rows(), w);
    assert forall|y: int, x: int| 0 <= y < mask.height() && 0 <= x < mask.width() implies #[trigger] mask_frame::<
        S,
    >(mask).at(y, x) == S::of_sample_spec(Sample::Unsigned(pixel_byte(mask.at(y, x)) as u64)) by {
        pixel_is_inside(mask.height() as int, w, y, x);
        assert(flattened(mask.rows())[y * w + x] == mask.rows()[y][x]);
    }
}

/// A `.npy` file that holds a mask loads as one frame, which is the mask's image.
pub proof fn a_saved_npy_loads<S: Scalar>(bytes: Seq<u8>, mask: Mask, file: Seq<char>)
    requires
        mask.wf(),
        npy_holds(bytes, mask.rows(), mask.width()),
    ensures
        npy_spec::<S>(bytes, file) == Ok::<Seq<FrameView<S>>, Fault>(seq![mask_frame(mask)]),
{
    let h = mask.height() as usize;
    let w = mask.width() as usize;
    let shape = seq![h, w];
    reveal_with_fuel(extent_product, 3);
    reveal_with_fuel(shape_len, 3);
    assert(shape.drop_last() =~= seq![h]);
    assert(seq![h].drop_last() =~= Seq::empty());
    let a = if h == 0 {
        1
    } else {
        h as int
    };
    let b = if w == 0 {
        1
    } else {
        w as int
    };
    assert(extent_product(shape) == a * b);
    assert(shape_len(shape) == h * w);
    assert(a * b <= isize::MAX) by (nonlinear_arith)
        requires
            a == 1 || a == h,
            b == 1 || b == w,
            h <= isize::MAX,
            w <= isize::MAX,
            h * w <= isize::MAX,
            1 <= isize::MAX,
    ;
    let kinds = flat_kinds();
    assert(kinds[0] == Element::Single && kinds[1] == Element::Double && kinds[2] == Element::U8);
    reveal_with_fuel(first_values, 4);
}

/// A TIFF file that holds a mask loads as one frame, which is the mask's image, as
/// long as it is within the limits of the decoder, and is refused beyond them.
pub proof fn a_saved_tiff_loads<S: Scalar>(bytes: Seq<u8>, mask: Mask, file: Seq<char>)
    requires
        mask.wf(),
        mask.height() <= u32::MAX,
        mask.width() <= u32::MAX,
        tiff_holds(bytes, mask.rows(), mask.width()),
    ensures
        tiff_spec::<S>(bytes, file) == if tiff_readable(
            mask.width() as int,
            mask.height() as int,
        ) {
            Ok::<Seq<FrameView<S>>, Fault>(seq![mask_frame(mask)])
        } else {
            Err(Fault::TiffPage)
        },
{
    flattened_is_row_by_row(mask.rows(), mask.width() as int);
    assert(mask.height() * mask.width() == mask.width() * mask.height()) by (nonlinear_arith);
    assert(Seq::<FrameView<S>>::empty().push(mask_frame(mask)) =~= seq![mask_frame::<S>(mask)]);
}

/// A mask of up to four thousand million pixels has a TIFF file.
pub proof fn a_mask_has_a_tiff(width: int, height: int)
    requires
        width > 0,
        height > 0,
        width * height <= 4_000_000_000,
    ensures
        tiff_writable(width, height),
{
    let rows = (999_999 + width) / width;
    vstd::arithmetic::div_mod::lemma_fundamental_div_mod(999_999 + width, width);
    vstd::arithmetic::div_mod::lemma_mod_bound(999_999 + width, width);
    assert(rows * width == width * rows) by (nonlinear_arith);
    assert(rows * width >= 1_000_000);
    assert(rows >= 1) by (nonlinear_arith)
        requires
            rows * width >= 1_000_000,
            width > 0,
    ;
    let strips = tiff_strips(width, height);
    vstd::arithmetic::div_mod::lemma_fundamental_div_mod(height + rows - 1, rows);
    vstd::arithmetic::div_mod::lemma_mod_bound(height + rows - 1, rows);
    assert(rows * (strips - 1) < height) by (nonlinear_arith)
        requires
            rows * strips <= height + rows - 1,
    ;
    assert((strips - 1) * 1_000_000 <= height * width) by (nonlinear_arith)
        requires
            rows * (strips - 1) < height,
            rows * width >= 1_000_000,
            rows >= 1,
            width > 0,
            height > 0,
    ;
    assert(height * width == width * height) by (nonlinear_arith);
}

/// A mask that was saved, and is then read as a starting mask, is the same mask; but
/// a TIFF file beyond the limits of the decoder is refused. All that is asked of the
/// numbers is that they tell 1 from 0.
pub proof fn a_saved_mask_comes_back<S: Scalar>(
    path: SourcePath,
    bytes: Vec<u8>,
    mask: Mask,
    back: Mask,
)
    requires
        mask.wf(),
        back.wf(),
        nonzero_spec(S::of_sample_spec(Sample::Unsigned(1))),
        !nonzero_spec(S::of_sample_spec(Sample::Unsigned(0))),
        save_spec(
            ext_spec(path),
            mask.rows(),
            mask.width(),
            Ok::<Vec<u8>, SaveError>(bytes),
        ),
    ensures
        if ext_spec(path) == "npy"@ || tiff_readable(mask.width() as int, mask.height() as int) {
            load_spec::<S>(alone(path), seq![bytes]) matches Ok(stack) && stack.frames == seq![
                mask_frame::<S>(mask),
            ]
        } else {
            load_spec::<S>(alone(path), seq![bytes]) == Err::<StackView<S>, Fault>(Fault::TiffPage)
        },
        selects_nonzero(back, mask_frame::<S>(mask)) ==> back.rows() == mask.rows() && back.width()
            == mask.width(),
{
    reveal_strlit("npy");
    reveal_strlit("tif");
    reveal_strlit("tiff");
    assert("npy"@[0] != "tif"@[0] && "npy"@[0] != "tiff"@[0]);
    let file = SourcePath { index: 0, ..path };
    let paths = alone(path);
    assert(paths.drop_first() =~= Seq::empty());
    assert(sorted(paths.drop_first()) =~= Seq::empty());
    assert(inserted(Seq::empty(), file, 0) =~= paths);
    assert(sorted(paths) == paths);
    if ext_spec(path) == "npy"@ {
        a_saved_npy_loads::<S>(bytes@, mask, path.shown@);
    } else {
        a_saved_tiff_loads::<S>(bytes@, mask, path.shown@);
    }
    let l = LoaderView::<S>::started(paths);
    let loaded = seq![mask_frame::<S>(mask)];
    let contents = seq![bytes];
    reveal_with_fuel(crate::loader::joined, 2);
    assert(l.frames.push(loaded[0]) =~= loaded);
    if ext_spec(path) == "npy"@ || tiff_readable(mask.width() as int, mask.height() as int) {
        let next = l.fed(bytes@)->Ok_0;
        assert(l.fed(bytes@) == Ok::<LoaderView<S>, Fault>(next));
        assert(next.completed(contents) == Ok::<LoaderView<S>, Fault>(next));
        assert(l.completed(contents) == Ok::<LoaderView<S>, Fault>(next));
    } else {
        assert(l.fed(bytes@) == Err::<LoaderView<S>, Fault>(Fault::TiffPage));
        assert(l.completed(contents) == Err::<LoaderView<S>, Fault>(Fault::TiffPage));
    }
    if selects_nonzero(back, mask_frame::<S>(mask)) {
        mask_frame_is_ones_and_zeros::<S>(mask);
        assert forall|y: int| 0 <= y < mask.height() implies back.rows()[y] == mask.rows()[y] by {
            assert forall|x: int| 0 <= x < mask.width() implies back.rows()[y][x]
                == mask.rows()[y][x] by {
                assert(back.at(y, x) == nonzero_spec(mask_frame::<S>(mask).at(y, x)));
            }
            assert(back.rows()[y] =~= mask.rows()[y]);
        }
        assert(back.rows() =~= mask.rows());
    }
}

/// Fixed-point numbers tell 1 from 0.
pub proof fn fixed_tells_one_from_zero()
    ensures
        nonzero_spec(Fixed::of_sample_spec(Sample::Unsigned(1))),
        !nonzero_spec(Fixed::of_sample_spec(Sample::Unsigned(0))),
{
}

/// A mask can be saved under exactly the extensions that can be opened: under any other it is
/// refused by its extension, and under none of these.
pub proof fn what_can_be_opened_can_be_saved(
    ext: Seq<char>,
    rows: Seq<Seq<bool>>,
    width: nat,
    r: Result<Vec<u8>, SaveError>,
)
    requires
        save_spec(ext, rows, width, r),
    ensures
        r matches Err(SaveError::Unsupported { .. }) <==> !supported_spec(ext),
        ext == "npy"@ ==> r is Ok,
{
}

/// The `.npy` file of a mask holds one byte for each pixel, row by row: one where the pixel is
/// selected, and zero elsewhere.
pub proof fn a_saved_npy_holds_the_pixels(
    bytes: Seq<u8>,
    mask: Mask,
    y: int,
    x: int,
)
    requires
        mask.wf(),
        npy_holds(bytes, mask.rows(), mask.width()),
        0 <= y < mask.height(),
        0 <= x < mask.width(),
    ensures
        npy_shape(bytes) matches Some(shape) && shape.len() == 2 && shape[0] == mask.height()
            && shape[1] == mask.width(),
        npy_values(bytes, Element::U8) matches Some(values) && values.len() == mask.height()
            * mask.width() && values[y * mask.width() + x] == Sample::Unsigned(
            if mask.rows()[y][x] {
                1
            } else {
                0
            },
        ),
{
    flattened_is_row_by_row(mask.rows(), mask.width() as int);
    pixel_is_inside(mask.height() as int, mask.width() as int, y, x);
    assert(flattened(mask.rows())[y * mask.width() + x] == mask.rows()[y][x]);
}

/// The TIFF file of a mask, within the limits of the decoder, holds one page of the mask's size
/// with one value for each pixel, row by row: one where the pixel is selected, and zero
/// elsewhere.
pub proof fn a_saved_tiff_holds_the_pixels(
    bytes: Seq<u8>,
    mask: Mask,
    y: int,
    x: int,
)
    requires
        mask.wf(),
        mask.height() <= u32::MAX,
        mask.width() <= u32::MAX,
        tiff_holds(bytes, mask.rows(), mask.width()),
        tiff_readable(mask.width() as int, mask.height() as int),
        0 <= y < mask.height(),
        0 <= x < mask.width(),
    ensures
        tiff_size(bytes, 0).0 == mask.width(),
        tiff_size(bytes, 0).1 == mask.height(),
        !tiff_has_more(bytes, 0),
        tiff_samples(bytes, 0) matches Some(values) && values.len() == mask.height() * mask.width()
            && values[y * mask.width() + x] == Sample::Unsigned(
            if mask.rows()[y][x] {
                1
            } else {
                0
            },
        ),
{
    flattened_is_row_by_row(mask.rows(), mask.width() as int);
    pixel_is_inside(mask.height() as int, mask.width() as int, y, x);
    assert(flattened(mask.rows())[y * mask.width() + x] == mask.rows()[y][x]);
}

} // verus!

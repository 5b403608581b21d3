//! Single images, and why they could not be had.

use vstd::prelude::*;

use crate::mask::fits;
use crate::samples::{Sample, Samples};
use crate::scalar::Scalar;

verus! {

/// One image: its pixel values row by row.
#[derive(Debug)]
pub struct Frame<S> {
    pub height: usize,
    pub width: usize,
    pub data: Vec<S>,
}

/// One image as mathematics sees it.
#[verifier::ext_equal]
pub ghost struct FrameView<S> {
    pub height: int,
    pub width: int,
    pub data: Seq<S>,
}

impl<S> FrameView<S> {
    /// There is one value for each pixel, and the whole fits into an array.
    pub open spec fn wf(self) -> bool {
        &&& 0 <= self.height
        &&& 0 <= self.width
        &&& fits(self.height, self.width)
        &&& self.data.len() == self.height * self.width
    }

    /// The value of the pixel in row `y` and column `x`.
    pub open spec fn at(self, y: int, x: int) -> S {
        self.data[y * self.width + x]
    }
}

impl<S> View for Frame<S> {
    type V = FrameView<S>;

    open spec fn view(&self) -> FrameView<S> {
        FrameView { height: self.height as int, width: self.width as int, data: self.data@ }
    }
}

/// A pixel's place in an image is inside it.
pub proof fn pixel_is_inside(height: int, width: int, y: int, x: int)
    requires
        0 <= y < height,
        0 <= x < width,
    ensures
        0 <= y * width + x < height * width,
{
    assert(0 <= y * width) by (nonlinear_arith)
        requires
            0 <= y,
            0 < width,
    ;
    assert(y * width + width <= height * width) by (nonlinear_arith)
        requires
            0 <= y < height,
            0 < width,
    ;
}

impl<S: Scalar> Frame<S> {
    /// The value of the pixel in row `y` and column `x`.
    pub fn get(&self, y: usize, x: usize) -> (r: S)
        requires
            self@.wf(),
            y < self.height,
            x < self.width,
        ensures
            r == self@.at(y as int, x as int),
    {
        proof {
            pixel_is_inside(self.height as int, self.width as int, y as int, x as int);
            assert(y * self.width <= y * self.width + x);
            assert(0 <= y * self.width) by (nonlinear_arith);
        }
        self.data[y * self.width + x]
    }
}

/// The images of a sequence.
pub open spec fn views<S>(frames: Seq<Frame<S>>) -> Seq<FrameView<S>> {
    frames.map_values(|f: Frame<S>| f@)
}

/// Why images could not be loaded.
#[derive(Debug)]
pub enum LoadError {
    /// No file was given.
    NoFiles,
    /// The extension of a file is not one that can be opened.
    Unsupported { extension: String, file: String },
    /// A file is not a TIFF file.
    TiffOpen { file: String, error: tiff::TiffError },
    /// A page of a TIFF file cannot be read.
    TiffPage { error: tiff::TiffError },
    /// A page of a TIFF file is JPEG-compressed, or in more pieces than can be counted.
    TiffUnsupported { file: String },
    /// The values of a page are neither one nor several for each pixel.
    PixelCount { count: usize, width: usize, height: usize },
    /// A page has more pixels than an array can have.
    TooLarge,
    /// A `.npy` file holds no array that can be shown.
    Npy { file: String },
    /// A frame has not the size of those before it.
    SizeMismatch { width: usize, height: usize, file: String, first_width: usize, first_height: usize },
    /// The files hold no frame.
    NoFrames,
    /// A folder holds no image file.
    NothingFound { folder: String },
}

/// Why images could not be loaded, without what the `tiff` crate says of it.
#[verifier::ext_equal]
pub ghost enum Fault {
    NoFiles,
    Unsupported { extension: Seq<char>, file: Seq<char> },
    TiffOpen { file: Seq<char> },
    TiffPage,
    TiffUnsupported { file: Seq<char> },
    PixelCount { count: int, width: int, height: int },
    TooLarge,
    Npy { file: Seq<char> },
    SizeMismatch { width: int, height: int, file: Seq<char>, first_width: int, first_height: int },
    NoFrames,
    NothingFound { folder: Seq<char> },
}

impl View for LoadError {
    type V = Fault;

    open spec fn view(&self) -> Fault {
        match self {
            LoadError::NoFiles => Fault::NoFiles,
            LoadError::Unsupported { extension, file } => Fault::Unsupported {
                extension: extension@,
                file: file@,
            },
            LoadError::TiffOpen { file, .. } => Fault::TiffOpen { file: file@ },
            LoadError::TiffPage { .. } => Fault::TiffPage,
            LoadError::TiffUnsupported { file } => Fault::TiffUnsupported { file: file@ },
            LoadError::PixelCount { count, width, height } => Fault::PixelCount {
                count: *count as int,
                width: *width as int,
                height: *height as int,
            },
            LoadError::TooLarge => Fault::TooLarge,
            LoadError::Npy { file } => Fault::Npy { file: file@ },
            LoadError::SizeMismatch { width, height, file, first_width, first_height } => {
                Fault::SizeMismatch {
                    width: *width as int,
                    height: *height as int,
                    file: file@,
                    first_width: *first_width as int,
                    first_height: *first_height as int,
                }
            },
            LoadError::NoFrames => Fault::NoFrames,
            LoadError::NothingFound { folder } => Fault::NothingFound { folder: folder@ },
        }
    }
}

/// The pixel values as numbers.
pub open spec fn values_spec<S: Scalar>(samples: Seq<Sample>) -> Seq<S> {
    Seq::new(samples.len(), |i: int| S::of_sample_spec(samples[i]))
}

/// The pixel values from the place `from` up to the place `to` as numbers.
pub(crate) fn values_of<S: Scalar>(samples: &Samples, from: usize, to: usize) -> (r: Vec<S>)
    requires
        from <= to <= samples@.len(),
    ensures
        r@ == values_spec::<S>(samples@.subrange(from as int, to as int)),
{
    let ghost part = samples@.subrange(from as int, to as int);
    let mut out: Vec<S> = Vec::new();
    let mut i: usize = from;
    while i < to
        invariant
            from <= i <= to <= samples@.len(),
            part == samples@.subrange(from as int, to as int),
            out@ == values_spec::<S>(part).take(i - from),
        decreases to - i,
    {
        out.push(S::of_sample(samples.get(i)));
        i = i + 1;
        assert(out@ =~= values_spec::<S>(part).take(i - from));
    }
    assert(values_spec::<S>(part).take(i - from) =~= values_spec::<S>(part));
    out
}

/// The image that a flat buffer holds, row by row. If there are several values
/// for each pixel, the first of them counts.
pub open spec fn frame_spec<S>(values: Seq<S>, w: int, h: int) -> Result<FrameView<S>, Fault> {
    let expected = w * h;
    if values.len() == expected {
        if fits(h, w) {
            Ok(FrameView { height: h, width: w, data: values })
        } else {
            Err(Fault::TooLarge)
        }
    } else if expected > 0 && values.len() > 0 && values.len() as int % expected == 0 {
        let per_pixel = values.len() as int / expected;
        if fits(h, w) {
            Ok(
                FrameView {
                    height: h,
                    width: w,
                    data: Seq::new(expected as nat, |i: int| values[i * per_pixel]),
                },
            )
        } else {
            Err(Fault::TooLarge)
        }
    } else {
        Err(Fault::PixelCount { count: values.len() as int, width: w, height: h })
    }
}

/// Can an array have this many rows and columns?
pub fn can_fit(height: usize, width: usize) -> (r: bool)
    ensures
        r == fits(height as int, width as int),
{
    let most: usize = isize::MAX as usize;
    if height > most || width > most {
        return false;
    }
    match height.checked_mul(width) {
        Some(n) => n <= most,
        None => false,
    }
}

/// Turn a flat, row-major buffer into an image of the given width and height.
/// If the buffer carries several values per pixel (e.g. an RGB image) only the
/// first of them is kept.
pub fn to_frame<S: Scalar>(values: Vec<S>, w: usize, h: usize) -> (r: Result<Frame<S>, LoadError>)
    ensures
        match r {
            Ok(frame) => frame_spec(values@, w as int, h as int) == Ok::<FrameView<S>, Fault>(frame@)
                && frame@.wf(),
            Err(e) => frame_spec(values@, w as int, h as int) == Err::<FrameView<S>, Fault>(e@),
        },
{
    let n: usize = values.len();
    proof {
        assert(w * h == h * w) by (nonlinear_arith);
        assert(0 <= w * h) by (nonlinear_arith);
    }
    match w.checked_mul(h) {
        None => {
            proof {
                vstd::arithmetic::div_mod::lemma_small_mod(n as nat, (w * h) as nat);
            }
            Err(LoadError::PixelCount { count: n, width: w, height: h })
        },
        Some(expected) => {
            if n == expected {
                if !can_fit(h, w) {
                    return Err(LoadError::TooLarge);
                }
                return Ok(Frame { height: h, width: w, data: values });
            }
            if expected > 0 && n > 0 && n % expected == 0 {
                if !can_fit(h, w) {
                    return Err(LoadError::TooLarge);
                }
                let per_pixel: usize = n / expected;
                proof {
                    vstd::arithmetic::div_mod::lemma_fundamental_div_mod(n as int, expected as int);
                }
                let mut first: Vec<S> = Vec::new();
                let mut i: usize = 0;
                let ghost picked = Seq::new(expected as nat, |i: int| values@[i * per_pixel]);
                while i < expected
                    invariant
                        i <= expected,
                        n > 0,
                        n == values@.len(),
                        n == expected * per_pixel,
                        picked == Seq::new(expected as nat, |i: int| values@[i * per_pixel]),
                        first@ == picked.take(i as int),
                    decreases expected - i,
                {
                    assert(0 <= i * per_pixel < expected * per_pixel) by (nonlinear_arith)
                        requires
                            0 <= i < expected,
                            0 < expected * per_pixel,
                    ;
                    first.push(values[i * per_pixel]);
                    i = i + 1;
                    assert(first@ =~= picked.take(i as int));
                }
                assert(picked.take(i as int) =~= picked);
                return Ok(Frame { height: h, width: w, data: first });
            }
            Err(LoadError::PixelCount { count: n, width: w, height: h })
        },
    }
}

} // verus!

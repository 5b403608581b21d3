//! Loading, stamping and saving on single-precision numbers.

use ndarray::ShapeBuilder;
use ndarray_npy::{ReadNpyExt, WriteNpyExt};
use roi_selector::formats::{array_frames, page_frame, Page};
use roi_selector::frame::{to_frame, LoadError};
use roi_selector::integrate::{integrate, Integration};
use roi_selector::loader::{
    list_supported_in_dir, load_paths, load_paths_with_progress, FolderEntry, ImageStack, Loader,
};
use roi_selector::mask::Mask;
use roi_selector::paths::{ext_of, PathPart, SourcePath};
use roi_selector::picture::{lut_index, paint_image};
use roi_selector::roi::{save_mask, Geometry, SaveError, Tool};
use roi_selector::samples::{Sample, Samples};
use roi_selector::scalar::Scalar;
use roi_selector::selection::load_initial_mask;

/// A single-precision number.
#[derive(Clone, Copy, Debug, PartialEq)]
struct Num(f32);

impl Scalar for Num {
    fn of_count_spec(n: usize) -> Num {
        Num::of_count(n)
    }

    fn of_sample_spec(sample: Sample) -> Num {
        Num::of_sample(sample)
    }

    fn lowest_spec() -> Num {
        Num::lowest()
    }

    fn highest_spec() -> Num {
        Num::highest()
    }

    fn hairline_spec() -> Num {
        Num::hairline()
    }

    fn plus_spec(self, rhs: Num) -> Num {
        self.plus(rhs)
    }

    fn minus_spec(self, rhs: Num) -> Num {
        self.minus(rhs)
    }

    fn times_spec(self, rhs: Num) -> Num {
        self.times(rhs)
    }

    fn over_spec(self, rhs: Num) -> Num {
        self.over(rhs)
    }

    fn smaller_spec(self, rhs: Num) -> Num {
        self.smaller(rhs)
    }

    fn larger_spec(self, rhs: Num) -> Num {
        self.larger(rhs)
    }

    fn hypot_spec(self, rhs: Num) -> Num {
        self.hypot(rhs)
    }

    fn squared_spec(self) -> Num {
        self.squared()
    }

    fn root_spec(self) -> Num {
        self.root()
    }

    fn magnitude_spec(self) -> Num {
        self.magnitude()
    }

    fn floor_spec(self) -> Num {
        self.floor()
    }

    fn ceil_spec(self) -> Num {
        self.ceil()
    }

    fn round_spec(self) -> Num {
        self.round()
    }

    fn clamped_spec(self, lo: Num, hi: Num) -> Num {
        self.clamped(lo, hi)
    }

    fn at_most_spec(self, rhs: Num) -> bool {
        self.at_most(rhs)
    }

    fn below_spec(self, rhs: Num) -> bool {
        self.below(rhs)
    }

    fn finite_spec(self) -> bool {
        self.finite()
    }

    fn truncated_spec(self) -> i64 {
        self.truncated()
    }

    fn of_count(n: usize) -> Num {
        Num(n as f32)
    }

    fn of_sample(sample: Sample) -> Num {
        match sample {
            Sample::Unsigned(v) => Num(v as f32),
            Sample::Signed(v) => Num(v as f32),
            Sample::Single(bits) => Num(f32::from_bits(bits)),
            Sample::Double(bits) => Num(f64::from_bits(bits) as f32),
        }
    }

    fn lowest() -> Num {
        Num(f32::NEG_INFINITY)
    }

    fn highest() -> Num {
        Num(f32::INFINITY)
    }

    fn hairline() -> Num {
        Num(1e-12)
    }

    fn plus(self, rhs: Num) -> Num {
        Num(self.0 + rhs.0)
    }

    fn minus(self, rhs: Num) -> Num {
        Num(self.0 - rhs.0)
    }

    fn times(self, rhs: Num) -> Num {
        Num(self.0 * rhs.0)
    }

    fn over(self, rhs: Num) -> Num {
        Num(self.0 / rhs.0)
    }

    fn smaller(self, rhs: Num) -> Num {
        Num(self.0.min(rhs.0))
    }

    fn larger(self, rhs: Num) -> Num {
        Num(self.0.max(rhs.0))
    }

    fn hypot(self, rhs: Num) -> Num {
        Num(self.0.hypot(rhs.0))
    }

    fn squared(self) -> Num {
        Num(self.0.powi(2))
    }

    fn root(self) -> Num {
        Num(self.0.sqrt())
    }

    fn magnitude(self) -> Num {
        Num(self.0.abs())
    }

    fn floor(self) -> Num {
        Num(self.0.floor())
    }

    fn ceil(self) -> Num {
        Num(self.0.ceil())
    }

    fn round(self) -> Num {
        Num(self.0.round())
    }

    fn clamped(self, lo: Num, hi: Num) -> Num {
        Num(self.0.clamp(lo.0, hi.0))
    }

    fn at_most(self, rhs: Num) -> bool {
        self.0 <= rhs.0
    }

    fn below(self, rhs: Num) -> bool {
        self.0 < rhs.0
    }

    fn finite(self) -> bool {
        self.0.is_finite()
    }

    fn truncated(self) -> i64 {
        self.0 as i64
    }
}

/// A file in the folder that everything happens in.
fn file(index: usize, name: &str) -> SourcePath {
    let extension = match name.rsplit_once('.') {
        Some((stem, ext)) if !stem.is_empty() => Some(ext.to_owned()),
        _ => None,
    };
    SourcePath {
        index,
        shown: name.to_owned(),
        file_name: Some(name.to_owned()),
        extension,
        parts: vec![PathPart { rank: 4, name: name.as_bytes().to_vec() }],
    }
}

fn load(name: &str, bytes: Vec<u8>) -> Result<ImageStack<Num>, LoadError> {
    load_paths(vec![file(0, name)], &vec![bytes])
}

fn npy_bytes<A: WriteNpyExt>(array: &A) -> Vec<u8> {
    let mut bytes = Vec::new();
    array.write_npy(&mut bytes).unwrap();
    bytes
}

fn tiff_bytes(w: u32, h: u32, pages: &[&[u8]]) -> Vec<u8> {
    let mut out = std::io::Cursor::new(Vec::new());
    {
        let mut enc = tiff::encoder::TiffEncoder::new(&mut out).unwrap();
        for page in pages {
            enc.write_image::<tiff::encoder::colortype::Gray8>(w, h, page).unwrap();
        }
    }
    out.into_inner()
}

/// A number as a TIFF file writes it.
fn number(little: bool, size: usize, v: u64) -> Vec<u8> {
    let big = v.to_be_bytes();
    let mut bytes = big[8 - size..].to_vec();
    if little {
        bytes.reverse();
    }
    bytes
}

/// A TIFF file with a directory for each list of entries. An entry is a tag, a type
/// (1 for a byte, 3 for 16 bits, 4 for 32, 16 for 64) and one value. The byte 7 stands
/// at the place 16.
fn raw_tiff(little: bool, wide: bool, pages: &[Vec<(u64, u64, u64)>]) -> Vec<u8> {
    let n = |size: usize, v: u64| number(little, size, v);
    let offset = if wide { 8 } else { 4 };
    let start = 20;
    let mut out = if little { b"II".to_vec() } else { b"MM".to_vec() };
    if wide {
        out.extend(n(2, 43));
        out.extend(n(2, 8));
        out.extend(n(2, 0));
    } else {
        out.extend(n(2, 42));
    }
    out.extend(n(offset, start));
    out.resize(16, 0);
    out.extend([7, 0, 0, 0]);
    for (i, entries) in pages.iter().enumerate() {
        out.extend(n(if wide { 8 } else { 2 }, entries.len() as u64));
        for (tag, kind, value) in entries {
            let size = match kind {
                1 => 1,
                3 => 2,
                16 | 18 => 8,
                _ => 4,
            };
            let mut field = n(size, *value);
            field.resize(offset, 0);
            out.extend(n(2, *tag));
            out.extend(n(2, *kind));
            out.extend(n(offset, 1));
            out.extend(field);
        }
        let next = if i + 1 < pages.len() { (out.len() + offset) as u64 } else { 0 };
        out.extend(n(offset, next));
    }
    out
}

/// The entries of a page with one pixel, whose value is 7.
fn one_pixel(compression: u64) -> Vec<(u64, u64, u64)> {
    vec![
        (256, 4, 1),
        (257, 4, 1),
        (258, 3, 8),
        (259, 3, compression),
        (262, 3, 1),
        (273, 4, 16),
        (277, 3, 1),
        (278, 4, 1),
        (279, 4, 1),
    ]
}

/// The entries of a page with two pixels in one tile, whose values are 7 and 0.
fn one_tile() -> Vec<(u64, u64, u64)> {
    vec![
        (256, 4, 1),
        (257, 4, 2),
        (259, 3, 1),
        (258, 3, 8),
        (262, 3, 1),
        (324, 4, 16),
        (277, 3, 1),
        (322, 4, 1),
        (323, 4, 2),
        (325, 4, 2),
    ]
}

/// A `.npy` file with the given header.
fn raw_npy(version: u8, header: &str, data: &[u8]) -> Vec<u8> {
    let mut out = vec![0x93, b'N', b'U', b'M', b'P', b'Y', version, 0];
    if version == 1 {
        out.extend((header.len() as u16).to_le_bytes());
    } else {
        out.extend((header.len() as u32).to_le_bytes());
    }
    out.extend(header.as_bytes());
    out.extend(data);
    out
}

fn at(stack: &ImageStack<Num>, frame: usize, y: usize, x: usize) -> f32 {
    stack.frames[frame].get(y, x).0
}

fn selected(mask: &Mask) -> usize {
    mask.pixels().iter().filter(|&&b| b).count()
}

fn rect(x0: f32, y0: f32, x1: f32, y1: f32) -> Geometry<Num> {
    Geometry::Rect { x0: Num(x0), y0: Num(y0), x1: Num(x1), y1: Num(y1) }
}

fn circle(cx: f32, cy: f32, r: f32) -> Geometry<Num> {
    Geometry::Circle { cx: Num(cx), cy: Num(cy), r: Num(r) }
}

#[test]
fn npy_2d_f64_loads_as_one_frame() {
    let a = ndarray::Array2::<f64>::from_shape_fn((3, 4), |(y, x)| (y * 4 + x) as f64);

    let stack = load("img.npy", npy_bytes(&a)).unwrap();
    assert_eq!(stack.n_frames(), 1);
    assert_eq!((stack.height, stack.width), (3, 4));
    assert_eq!(at(&stack, 0, 2, 3), 11.0);
}

#[test]
fn npy_3d_u16_loads_one_frame_per_plane() {
    let a = ndarray::Array3::<u16>::from_shape_fn((2, 3, 4), |(k, y, x)| {
        (100 * k + y * 4 + x) as u16
    });

    let stack = load("cube.npy", npy_bytes(&a)).unwrap();
    assert_eq!(stack.n_frames(), 2);
    assert_eq!((stack.height, stack.width), (3, 4));
    assert_eq!(at(&stack, 1, 0, 0), 100.0);
}

#[test]
fn rect_stamp_covers_expected_pixels() {
    let mut m = Mask::new(10, 10);
    rect(2.0, 3.0, 5.0, 6.0).stamp(&mut m, true);
    assert!(m.get(3, 2) && m.get(5, 4));
    assert!(!m.get(3, 6) && !m.get(7, 2));
    assert_eq!(selected(&m), 9, "3x3 pixel centers");
}

#[test]
fn circle_and_ellipse_stamp_are_symmetric() {
    let mut c = Mask::new(20, 20);
    circle(10.0, 10.0, 5.0).stamp(&mut c, true);
    assert!(c.get(10, 10) && c.get(10, 14) && c.get(14, 10));
    assert!(!c.get(10, 16));

    let mut e = Mask::new(20, 20);
    Geometry::Ellipse { cx: Num(10.0), cy: Num(10.0), rx: Num(6.0), ry: Num(3.0) }.stamp(&mut e, true);
    assert!(e.get(10, 15) && !e.get(15, 10), "wide but not tall");
}

#[test]
fn subtract_carves_out_of_the_mask() {
    let mut m = Mask::new(10, 10);
    rect(0.0, 0.0, 9.0, 9.0).stamp(&mut m, true);
    circle(5.0, 5.0, 2.0).stamp(&mut m, false);
    assert!(!m.get(5, 5) && m.get(0, 0));
}

#[test]
fn save_mask_npy_roundtrips_as_u8_ones_and_zeros() {
    let mut m = Mask::new(4, 5);
    m.set(1, 2, true);
    let bytes = save_mask(&file(0, "mask.npy"), &m).unwrap();

    let back = ndarray::Array2::<u8>::read_npy(std::io::Cursor::new(bytes)).unwrap();
    assert_eq!(back.shape(), &[4, 5]);
    assert_eq!(back[(1, 2)], 1);
    assert_eq!(back.iter().map(|&v| v as usize).sum::<usize>(), 1);
}

#[test]
fn save_mask_tiff_roundtrips_as_ones_and_zeros() {
    let mut m = Mask::new(4, 5);
    m.set(3, 4, true);
    m.set(0, 0, true);
    let bytes = save_mask(&file(0, "mask.tif"), &m).unwrap();

    let stack = load("mask.tif", bytes).unwrap();
    assert_eq!((stack.height, stack.width), (4, 5));
    assert_eq!(at(&stack, 0, 3, 4), 1.0);
    assert_eq!(at(&stack, 0, 0, 0), 1.0);
    assert_eq!(stack.frames[0].data.iter().map(|v| v.0).sum::<f32>(), 2.0);
}

#[test]
fn save_mask_rejects_unknown_extension() {
    let m = Mask::new(2, 2);
    assert!(save_mask(&file(0, "mask.png"), &m).is_err());
}

#[test]
fn unknown_extension_is_named() {
    let m = Mask::new(2, 2);
    match save_mask(&file(0, "mask.PNG"), &m) {
        Err(e @ SaveError::Unsupported { .. }) => {
            assert_eq!(
                e.message().unwrap(),
                "Unsupported mask extension '.png' — use .tif, .tiff or .npy"
            );
        }
        _ => panic!("saved"),
    }
}

#[test]
fn a_mask_without_pixels_has_no_tiff() {
    let m = Mask::new(0, 0);
    assert!(matches!(save_mask(&file(0, "mask.tiff"), &m), Err(SaveError::Tiff { .. })));
    assert!(save_mask(&file(0, "mask.npy"), &m).is_ok());
}

#[test]
fn extensions_are_read_in_any_case() {
    let m = Mask::new(2, 2);
    let bytes = save_mask(&file(0, "mask.TIF"), &m).unwrap();
    assert_eq!(load("MASK.TiFF", bytes).unwrap().n_frames(), 1);
}

#[test]
fn a_saved_mask_is_a_starting_mask() {
    let mut m = Mask::new(3, 4);
    m.set(0, 3, true);
    m.set(2, 1, true);
    for name in ["m.npy", "m.tif", "m.tiff"] {
        let bytes = save_mask(&file(0, name), &m).unwrap();
        let back = load_initial_mask::<Num>(file(7, name), bytes).unwrap();
        assert_eq!(back.dim(), (3, 4));
        assert_eq!(back.pixels(), m.pixels());
    }
}

#[test]
fn a_starting_mask_is_where_values_are_not_zero() {
    let a = ndarray::Array2::<f32>::from_shape_vec((1, 4), vec![0.0, 0.25, -1.0, 255.0]).unwrap();
    let m = load_initial_mask::<Num>(file(0, "m.npy"), npy_bytes(&a)).unwrap();
    assert_eq!(m.pixels(), vec![false, true, true, true]);
}

#[test]
fn every_kind_of_npy_value_is_read() {
    let s = (1, 2);
    let kinds: Vec<Vec<u8>> = vec![
        npy_bytes(&ndarray::Array2::<f32>::from_shape_vec(s, vec![3.5, 1.0]).unwrap()),
        npy_bytes(&ndarray::Array2::<f64>::from_shape_vec(s, vec![3.5, 1.0]).unwrap()),
    ];
    for bytes in kinds {
        assert_eq!(at(&load("a.npy", bytes).unwrap(), 0, 0, 0), 3.5);
    }
    let kinds: Vec<Vec<u8>> = vec![
        npy_bytes(&ndarray::Array2::<u8>::from_shape_vec(s, vec![7, 1]).unwrap()),
        npy_bytes(&ndarray::Array2::<u16>::from_shape_vec(s, vec![7, 1]).unwrap()),
        npy_bytes(&ndarray::Array2::<i16>::from_shape_vec(s, vec![7, 1]).unwrap()),
        npy_bytes(&ndarray::Array2::<u32>::from_shape_vec(s, vec![7, 1]).unwrap()),
        npy_bytes(&ndarray::Array2::<i32>::from_shape_vec(s, vec![7, 1]).unwrap()),
        npy_bytes(&ndarray::Array2::<u64>::from_shape_vec(s, vec![7, 1]).unwrap()),
        npy_bytes(&ndarray::Array2::<i64>::from_shape_vec(s, vec![7, 1]).unwrap()),
    ];
    for bytes in kinds {
        let stack = load("a.npy", bytes).unwrap();
        assert_eq!(at(&stack, 0, 0, 0), 7.0);
        assert_eq!(at(&stack, 0, 0, 1), 1.0);
    }
    let bools = ndarray::Array2::<bool>::from_shape_vec(s, vec![true, false]).unwrap();
    let stack = load("a.npy", npy_bytes(&bools)).unwrap();
    assert_eq!((at(&stack, 0, 0, 0), at(&stack, 0, 0, 1)), (1.0, 0.0));
}

#[test]
fn negative_npy_values_keep_their_sign() {
    let a = ndarray::Array2::<i16>::from_shape_vec((1, 1), vec![-5]).unwrap();
    assert_eq!(at(&load("a.npy", npy_bytes(&a)).unwrap(), 0, 0, 0), -5.0);
    let b = ndarray::Array3::<i64>::from_shape_vec((1, 1, 1), vec![-6]).unwrap();
    assert_eq!(at(&load("b.npy", npy_bytes(&b)).unwrap(), 0, 0, 0), -6.0);
}

#[test]
fn npy_in_column_order_is_read_by_rows() {
    let a = ndarray::Array2::<u8>::from_shape_fn((2, 3).f(), |(y, x)| (y * 3 + x) as u8);
    let stack = load("a.npy", npy_bytes(&a)).unwrap();
    assert_eq!(at(&stack, 0, 0, 1), 1.0);
    assert_eq!(at(&stack, 0, 1, 0), 3.0);
}

#[test]
fn npy_that_is_no_image_is_refused() {
    let flat = ndarray::Array1::<f32>::zeros(3);
    let deep = ndarray::Array4::<f32>::zeros((1, 1, 1, 1));
    let planes = ndarray::Array3::<bool>::from_elem((1, 1, 1), true);
    for bytes in [npy_bytes(&flat), npy_bytes(&deep), npy_bytes(&planes), vec![1, 2, 3]] {
        match load("a.npy", bytes) {
            Err(e @ LoadError::Npy { .. }) => assert_eq!(
                e.message().unwrap(),
                "Unsupported .npy dtype or shape (need a 2-D or 3-D numeric array): a.npy"
            ),
            _ => panic!("not refused"),
        }
    }
}

#[test]
fn a_cube_without_planes_has_no_frames() {
    let a = ndarray::Array3::<u8>::zeros((0, 2, 2));
    match load("a.npy", npy_bytes(&a)) {
        Err(e @ LoadError::NoFrames) => assert_eq!(e.message().unwrap(), "No frames were loaded"),
        _ => panic!("loaded"),
    }
}

#[test]
fn tiff_pages_are_frames() {
    let bytes = tiff_bytes(2, 1, &[&[1, 2], &[3, 4], &[5, 6]]);
    let stack = load("a.tif", bytes).unwrap();
    assert_eq!(stack.n_frames(), 3);
    assert_eq!((stack.height, stack.width), (1, 2));
    assert_eq!(at(&stack, 2, 0, 1), 6.0);
    assert_eq!(stack.sources, vec![0, 0, 0]);
}

#[test]
fn of_a_color_tiff_the_first_sample_counts() {
    let mut out = std::io::Cursor::new(Vec::new());
    tiff::encoder::TiffEncoder::new(&mut out)
        .unwrap()
        .write_image::<tiff::encoder::colortype::RGB8>(2, 1, &[10, 20, 30, 40, 50, 60])
        .unwrap();
    let stack = load("a.tif", out.into_inner()).unwrap();
    assert_eq!((at(&stack, 0, 0, 0), at(&stack, 0, 0, 1)), (10.0, 40.0));
}

#[test]
fn float_tiff_values_are_kept() {
    let mut out = std::io::Cursor::new(Vec::new());
    tiff::encoder::TiffEncoder::new(&mut out)
        .unwrap()
        .write_image::<tiff::encoder::colortype::Gray32Float>(2, 1, &[0.5, -2.25])
        .unwrap();
    let stack = load("a.tif", out.into_inner()).unwrap();
    assert_eq!((at(&stack, 0, 0, 0), at(&stack, 0, 0, 1)), (0.5, -2.25));
}

#[test]
fn signed_and_wide_tiff_values_are_kept() {
    let mut out = std::io::Cursor::new(Vec::new());
    tiff::encoder::TiffEncoder::new(&mut out)
        .unwrap()
        .write_image::<tiff::encoder::colortype::GrayI32>(2, 1, &[-70000, 70000])
        .unwrap();
    let stack = load("a.tif", out.into_inner()).unwrap();
    assert_eq!((at(&stack, 0, 0, 0), at(&stack, 0, 0, 1)), (-70000.0, 70000.0));
}

#[test]
fn what_is_no_tiff_is_refused() {
    assert!(matches!(load("a.tif", vec![0; 16]), Err(LoadError::TiffOpen { .. })));
    let whole = tiff_bytes(8, 8, &[&[1; 64]]);
    let cut = whole[..whole.len() - 20].to_vec();
    assert!(load("a.tif", cut).is_err());
}

#[test]
fn buffers_become_frames() {
    let f = to_frame(vec![Num(1.0), Num(2.0)], 2, 1).unwrap();
    assert_eq!((f.height, f.width), (1, 2));
    assert_eq!(f.get(0, 1), Num(2.0));
    let f = to_frame(vec![Num(1.0), Num(2.0), Num(3.0), Num(4.0)], 2, 1).unwrap();
    assert_eq!((f.get(0, 0), f.get(0, 1)), (Num(1.0), Num(3.0)));
    match to_frame(vec![Num(1.0), Num(2.0), Num(3.0)], 2, 1) {
        Err(e @ LoadError::PixelCount { .. }) => {
            assert_eq!(e.message().unwrap(), "Pixel count 3 is not compatible with 2x1");
        }
        _ => panic!("made a frame"),
    }
    assert!(matches!(to_frame(Vec::<Num>::new(), 2, 1), Err(LoadError::PixelCount { .. })));
    let big = to_frame(Vec::<Num>::new(), 0, usize::MAX);
    match big {
        Err(e @ LoadError::TooLarge) => {
            assert_eq!(e.message().unwrap(), "ShapeError/Overflow: arithmetic overflow");
        }
        _ => panic!("made a frame"),
    }
}

#[test]
fn files_are_loaded_in_sorted_order() {
    let paths = vec![file(0, "b.tif"), file(1, "a.npy")];
    let contents = vec![
        tiff_bytes(1, 1, &[&[20]]),
        npy_bytes(&ndarray::Array2::<u8>::from_elem((1, 1), 10)),
    ];
    let (stack, progress) = load_paths_with_progress::<Num>(paths, &contents);
    let stack = stack.unwrap();
    assert_eq!((at(&stack, 0, 0, 0), at(&stack, 1, 0, 0)), (10.0, 20.0));
    assert_eq!(stack.sources, vec![0, 1]);
    assert_eq!(stack.files[0].shown, "a.npy");
    assert_eq!(progress, vec![(1, 2), (2, 2)]);
}

#[test]
fn frames_of_different_sizes_are_refused() {
    let paths = vec![file(0, "a.tif"), file(1, "b.tif")];
    let contents = vec![tiff_bytes(1, 1, &[&[20]]), tiff_bytes(2, 3, &[&[1; 6]])];
    let (stack, progress) = load_paths_with_progress::<Num>(paths, &contents);
    match stack {
        Err(e @ LoadError::SizeMismatch { .. }) => assert_eq!(
            e.message().unwrap(),
            "Frame size mismatch: 2x3 in b.tif does not match 1x1"
        ),
        _ => panic!("loaded"),
    }
    assert_eq!(progress, vec![(1, 2)]);
}

#[test]
fn nothing_to_load_is_refused() {
    match load_paths::<Num>(Vec::new(), &Vec::new()) {
        Err(e @ LoadError::NoFiles) => assert_eq!(e.message().unwrap(), "No files selected"),
        _ => panic!("loaded"),
    }
}

#[test]
fn other_files_are_refused_unread() {
    let loader = Loader::<Num>::new(vec![file(0, "a.jpg")]).unwrap();
    match loader.next_file() {
        Err(e @ LoadError::Unsupported { .. }) => {
            assert_eq!(e.message().unwrap(), "Unsupported file type '.jpg': a.jpg");
        }
        _ => panic!("asked for"),
    }
    assert!(matches!(load("a.jpg", Vec::new()), Err(LoadError::Unsupported { .. })));
    assert!(matches!(load("noextension", Vec::new()), Err(LoadError::Unsupported { .. })));
}

#[test]
fn a_loader_asks_for_one_file_after_the_other() {
    let mut loader = Loader::<Num>::new(vec![file(0, "z.tif"), file(1, "y.tif")]).unwrap();
    assert_eq!(loader.next_file().unwrap(), Some(1));
    assert_eq!(loader.feed(&tiff_bytes(1, 1, &[&[1]])).unwrap(), (1, 2));
    assert_eq!(loader.next_file().unwrap(), Some(0));
    assert_eq!(loader.feed(&tiff_bytes(1, 1, &[&[2]])).unwrap(), (2, 2));
    assert_eq!(loader.next_file().unwrap(), None);
    let stack = loader.finish().unwrap();
    assert_eq!((at(&stack, 0, 0, 0), at(&stack, 1, 0, 0)), (1.0, 2.0));
}

#[test]
fn folders_are_searched_for_images() {
    let entry = |index: usize, name: &str, is_file: bool| FolderEntry { path: file(index, name), is_file };
    let entries = vec![
        entry(0, "a.TIFF", true),
        entry(1, "notes.txt", true),
        entry(2, "folder.tif", false),
        entry(3, "b.npy", true),
    ];
    assert_eq!(list_supported_in_dir(&entries, &"dir".to_owned()).unwrap(), vec![0, 3]);
    match list_supported_in_dir(&vec![entry(0, "notes.txt", true)], &"dir".to_owned()) {
        Err(e) => assert_eq!(e.message().unwrap(), "No TIFF or .npy files found in dir"),
        Ok(_) => panic!("found"),
    }
}

#[test]
fn frames_are_integrated() {
    let bytes = tiff_bytes(2, 1, &[&[1, 9], &[3, 4]]);
    let stack = load("a.tif", bytes).unwrap();
    let sum = integrate(&stack, Integration::Sum);
    let mean = integrate(&stack, Integration::Mean);
    let max = integrate(&stack, Integration::Max);
    assert_eq!(sum.data, vec![Num(4.0), Num(13.0)]);
    assert_eq!(mean.data, vec![Num(2.0), Num(6.5)]);
    assert_eq!(max.data, vec![Num(3.0), Num(9.0)]);
}

#[test]
fn no_number_is_skipped_by_the_maximum() {
    let a = ndarray::Array3::<f32>::from_shape_vec((2, 1, 1), vec![f32::NAN, 2.0]).unwrap();
    let stack = load("a.npy", npy_bytes(&a)).unwrap();
    assert_eq!(integrate(&stack, Integration::Max).data, vec![Num(2.0)]);
}

#[test]
fn circles_are_drawn_from_their_center() {
    match Geometry::from_drag(Tool::Circle, (Num(1.0), Num(2.0)), (Num(4.0), Num(6.0))) {
        Geometry::Circle { cx, cy, r } => {
            assert_eq!((cx, cy, r), (Num(1.0), Num(2.0), Num(5.0)));
        }
        _ => panic!("no circle"),
    }
    match Geometry::from_drag(Tool::Ellipse, (Num(4.0), Num(6.0)), (Num(1.0), Num(2.0))) {
        Geometry::Ellipse { cx, cy, rx, ry } => {
            assert_eq!((cx, cy, rx, ry), (Num(2.5), Num(4.0), Num(1.5), Num(2.0)));
        }
        _ => panic!("no ellipse"),
    }
}

#[test]
fn shapes_beyond_the_image_are_cut() {
    let mut m = Mask::new(4, 4);
    rect(-10.0, -10.0, 2.0, 2.0).stamp(&mut m, true);
    assert_eq!(selected(&m), 4);
    let mut m = Mask::new(4, 4);
    rect(10.0, 10.0, 20.0, 20.0).stamp(&mut m, true);
    assert_eq!(selected(&m), 0);
    let mut m = Mask::new(0, 4);
    rect(0.0, 0.0, 4.0, 4.0).stamp(&mut m, true);
    assert_eq!(m.dim(), (0, 4));
}

#[test]
fn shapes_without_radius_cover_nothing() {
    let mut m = Mask::new(4, 4);
    circle(1.5, 1.5, 0.0).stamp(&mut m, true);
    Geometry::Ellipse { cx: Num(1.5), cy: Num(1.5), rx: Num(0.0), ry: Num(2.0) }.stamp(&mut m, true);
    assert_eq!(selected(&m), 0);
}

#[test]
fn values_find_their_color() {
    let index = |v: f32| lut_index(Num(v), Num(0.0), Num(2.0));
    assert_eq!((index(0.0), index(1.0), index(2.0)), (0, 128, 255));
    assert_eq!((index(-5.0), index(7.0), index(f32::NAN)), (0, 255, 0));
    assert_eq!(lut_index(Num(1.0), Num(1.0), Num(1.0)), 0);

    let lut: Vec<(u8, u8, u8)> = (0..256).map(|i| (i as u8, 255 - i as u8, 7)).collect();
    let picture = paint_image(&vec![Num(2.0), Num(0.0)], Num(0.0), Num(2.0), &lut);
    assert_eq!(picture, vec![255, 0, 7, 255, 0, 255, 7, 255]);
}

#[test]
fn tiff_files_are_read_in_every_layout() {
    for little in [true, false] {
        for wide in [true, false] {
            let bytes = raw_tiff(little, wide, &[one_pixel(1), one_pixel(1)]);
            let stack = load("a.tif", bytes).unwrap();
            assert_eq!(stack.n_frames(), 2);
            assert_eq!((at(&stack, 0, 0, 0), at(&stack, 1, 0, 0)), (7.0, 7.0));
        }
    }
}

#[test]
fn a_jpeg_page_is_refused_wherever_it_stands() {
    for little in [true, false] {
        for wide in [true, false] {
            for pages in [vec![one_pixel(7)], vec![one_pixel(1), one_pixel(7)]] {
                match load("a.tif", raw_tiff(little, wide, &pages)) {
                    Err(e @ LoadError::TiffUnsupported { .. }) => assert_eq!(
                        e.message().unwrap(),
                        "Unsupported TIFF page (JPEG-compressed or in too many pieces): a.tif"
                    ),
                    _ => panic!("loaded"),
                }
            }
        }
    }
}

#[test]
fn a_page_in_too_many_pieces_is_refused() {
    let refused = |pages: &[Vec<(u64, u64, u64)>]| {
        matches!(load("a.tif", raw_tiff(true, false, pages)), Err(LoadError::TiffUnsupported { .. }))
    };
    let mut planar = one_pixel(1);
    planar.push((284, 3, 2));
    assert_eq!(at(&load("a.tif", raw_tiff(true, false, &[planar.clone()])).unwrap(), 0, 0, 0), 7.0);
    planar[1] = (257, 4, 0x1_0001);
    planar[6] = (277, 3, 0xFFFF);
    assert!(!refused(&[planar.clone()]));
    planar[1] = (257, 4, 0x1_0002);
    assert!(refused(&[planar.clone()]));
    assert!(refused(&[one_pixel(1), planar.clone()]));
    planar[7] = (278, 4, 2);
    assert!(!refused(&[planar.clone()]));
    planar[7] = (278, 4, 1);
    planar.push((257, 4, 1));
    assert!(!refused(&[planar]));
    let mut tiled = one_tile();
    tiled[0] = (256, 4, 0xFFFF_FFFF);
    tiled[1] = (257, 4, 0xFFFF_FFFF);
    assert!(!refused(&[tiled.clone()]));
    tiled[6] = (277, 3, 3);
    tiled.push((284, 3, 2));
    tiled[7] = (322, 4, 1);
    tiled[8] = (323, 4, 1);
    assert!(refused(&[tiled]));
}

#[test]
fn numbers_of_every_width_are_understood() {
    let mut strip = one_pixel(1);
    strip[0] = (256, 1, 1);
    strip[1] = (257, 13, 1);
    strip[6] = (277, 1, 1);
    strip.push((284, 1, 2));
    for wide in [true, false] {
        let stack = load("a.tif", raw_tiff(true, wide, &[strip.clone()])).unwrap();
        assert_eq!(at(&stack, 0, 0, 0), 7.0);
    }
    let mut tile = one_tile();
    tile[0] = (256, 16, 1);
    tile[1] = (257, 18, 2);
    tile.push((284, 16, 2));
    for little in [true, false] {
        let stack = load("a.tif", raw_tiff(little, true, &[tile.clone()])).unwrap();
        assert_eq!((stack.width, stack.height), (1, 2));
        assert_eq!((at(&stack, 0, 0, 0), at(&stack, 0, 1, 0)), (7.0, 0.0));
    }
    tile[2] = (259, 16, 7);
    let jpeg = load("a.tif", raw_tiff(true, true, &[tile]));
    assert!(matches!(jpeg, Err(LoadError::TiffUnsupported { .. })));
}

#[test]
fn a_number_that_an_entry_points_to_is_found() {
    // The place 24 holds a number of 64 bits, which the compression is read from.
    let file = |compression: u64| {
        let mut entries = one_pixel(1);
        entries[3] = (259, 16, 24);
        let mut bytes = raw_tiff(true, false, &[]);
        bytes[4] = 32;
        bytes.truncate(20);
        bytes.resize(24, 0);
        bytes.extend(compression.to_le_bytes());
        bytes.extend((entries.len() as u16).to_le_bytes());
        for (tag, kind, value) in entries {
            bytes.extend((tag as u16).to_le_bytes());
            bytes.extend((kind as u16).to_le_bytes());
            bytes.extend(1u32.to_le_bytes());
            bytes.extend((value as u32).to_le_bytes());
        }
        bytes.extend(0u32.to_le_bytes());
        bytes
    };
    assert_eq!(at(&load("a.tif", file(1)).unwrap(), 0, 0, 0), 7.0);
    assert!(matches!(load("a.tif", file(7)), Err(LoadError::TiffUnsupported { .. })));
}

#[test]
fn a_nested_npy_header_is_refused() {
    let deep = format!("{{'descr': {}{}, }}\n", "[".repeat(40), "]".repeat(40));
    let plain = "{'descr': '|u1', 'fortran_order': False, 'shape': (1, 2), }\n";
    for version in [1, 2, 3] {
        assert!(matches!(load("a.npy", raw_npy(version, &deep, &[])), Err(LoadError::Npy { .. })));
        let stack = load("a.npy", raw_npy(version, plain, &[5, 6])).unwrap();
        assert_eq!((at(&stack, 0, 0, 0), at(&stack, 0, 0, 1)), (5.0, 6.0));
    }
}

#[test]
fn an_npy_header_may_have_many_brackets() {
    let two = [5, 6];
    let shapes = "'shape': (7, 8), ".repeat(30);
    let repeated = format!("{{'descr': '|u1', 'fortran_order': False, {shapes}'shape': (1, 2), }}\n");
    let texts = format!("{{'descr': '{}', {}", "([{".repeat(30), &repeated[1..]);
    let escaped = format!("{{'descr': 'a\\'b', {}", &repeated.replace("descr", "des\\x63r")[1..]);
    for header in [&repeated, &texts, &escaped] {
        let stack = load("a.npy", raw_npy(1, header, &two)).unwrap();
        assert_eq!((at(&stack, 0, 0, 0), at(&stack, 0, 0, 1)), (5.0, 6.0));
    }
    // Closing brackets in a text close nothing.
    let hidden = format!("{{'descr': {}\n", "[']', ".repeat(40));
    assert!(matches!(load("a.npy", raw_npy(1, &hidden, &two)), Err(LoadError::Npy { .. })));
    let hidden = format!("{{'descr': {}\n", "['\\N{'}]', ".repeat(40));
    assert!(matches!(load("a.npy", raw_npy(1, &hidden, &two)), Err(LoadError::Npy { .. })));
}

#[test]
fn an_npy_file_that_is_too_short_is_refused() {
    let large = "{'descr': '<f8', 'fortran_order': False, 'shape': (1048576, 1048576), }\n";
    assert!(matches!(load("a.npy", raw_npy(1, large, &[0; 64])), Err(LoadError::Npy { .. })));
    let whole = raw_npy(1, "{'descr': '|u1', 'fortran_order': False, 'shape': (1, 2), }\n", &[5, 6]);
    for n in 0..whole.len() {
        assert!(matches!(load("a.npy", whole[..n].to_vec()), Err(LoadError::Npy { .. })));
    }
}

#[test]
fn arrays_become_frames() {
    let samples = Samples::U16(vec![1, 2, 3, 4, 5, 6]);
    let flat = array_frames::<Num>(&vec![2, 3], &samples).unwrap();
    assert_eq!(flat.len(), 1);
    assert_eq!((flat[0].height, flat[0].width, flat[0].get(1, 0)), (2, 3, Num(4.0)));
    let deep = array_frames::<Num>(&vec![3, 1, 2], &samples).unwrap();
    assert_eq!(deep.len(), 3);
    assert_eq!((deep[2].height, deep[2].width), (1, 2));
    assert_eq!((deep[2].get(0, 0), deep[2].get(0, 1)), (Num(5.0), Num(6.0)));
    assert!(array_frames::<Num>(&vec![6], &samples).is_none());
    assert!(array_frames::<Num>(&vec![1, 1, 2, 3], &samples).is_none());
}

#[test]
fn pages_become_frames() {
    let gray = page_frame::<Num>(&Samples::U8(vec![1, 2]), 2, 1).unwrap();
    assert_eq!((gray.get(0, 0), gray.get(0, 1)), (Num(1.0), Num(2.0)));
    let color = page_frame::<Num>(&Samples::U8(vec![1, 2, 3, 4, 5, 6]), 2, 1).unwrap();
    assert_eq!((color.get(0, 0), color.get(0, 1)), (Num(1.0), Num(4.0)));
    assert!(page_frame::<Num>(&Samples::U8(vec![1, 2, 3]), 2, 1).is_err());
}

#[test]
fn a_loader_takes_pages_that_are_decoded_already() {
    let page = |v: u8| Page { width: 1, height: 1, samples: Samples::U8(vec![v]) };
    let paths = || vec![file(0, "a.tif"), file(1, "b.tif")];
    let mut loader = Loader::<Num>::new(paths()).unwrap();
    let jpeg = raw_tiff(true, false, &[one_pixel(7)]);
    assert!(matches!(loader.feed(&jpeg), Err(LoadError::TiffUnsupported { .. })));
    assert_eq!(loader.feed_pages(&vec![page(3), page(4)]).unwrap(), (1, 2));
    let wide = Page { width: 2, height: 1, samples: Samples::U8(vec![1, 2]) };
    assert!(matches!(loader.feed_pages(&vec![wide]), Err(LoadError::SizeMismatch { .. })));
    let bad = Page { width: 1, height: 2, samples: Samples::U8(vec![1, 2, 3]) };
    assert!(matches!(loader.feed_pages(&vec![bad]), Err(LoadError::PixelCount { .. })));
    assert_eq!(loader.feed(&tiff_bytes(1, 1, &[&[5]])).unwrap(), (2, 2));
    let stack = loader.finish().unwrap();
    assert_eq!(stack.sources, vec![0, 0, 1]);
    assert_eq!((at(&stack, 0, 0, 0), at(&stack, 1, 0, 0), at(&stack, 2, 0, 0)), (3.0, 4.0, 5.0));
}

#[test]
fn the_order_of_the_arguments_does_not_matter() {
    let names = ["c.tif", "a.npy", "b.tif"];
    let array = ndarray::Array2::<u8>::from_shape_vec((1, 1), vec![9]).unwrap();
    let mut contents =
        vec![tiff_bytes(1, 1, &[&[1], &[2]]), npy_bytes(&array), tiff_bytes(1, 1, &[&[5]])];
    let orders = [[0, 1, 2], [0, 2, 1], [1, 0, 2], [1, 2, 0], [2, 0, 1], [2, 1, 0]];
    for order in orders {
        let paths = order.iter().map(|&i| file(i, names[i])).collect();
        let (stack, progress) = load_paths_with_progress::<Num>(paths, &contents);
        let stack = stack.unwrap();
        let values: Vec<f32> = (0..4).map(|k| at(&stack, k, 0, 0)).collect();
        assert_eq!(values, vec![9.0, 5.0, 1.0, 2.0]);
        assert_eq!(stack.sources, vec![0, 1, 2, 2]);
        assert_eq!(progress, vec![(1, 3), (2, 3), (3, 3)]);
    }
    contents[2] = tiff_bytes(2, 1, &[&[5, 5]]);
    for order in orders {
        let paths = order.iter().map(|&i| file(i, names[i])).collect();
        let (stack, progress) = load_paths_with_progress::<Num>(paths, &contents);
        assert_eq!(
            stack.unwrap_err().message().unwrap(),
            "Frame size mismatch: 2x1 in b.tif does not match 1x1"
        );
        assert_eq!(progress, vec![(1, 3)]);
    }
}

#[test]
fn shapes_are_drawn_in_any_direction() {
    let (a, b) = ((Num(1.0), Num(2.0)), (Num(8.0), Num(7.0)));
    let (c, d) = ((a.0, b.1), (b.0, a.1));
    for tool in [Tool::Rectangle, Tool::Ellipse] {
        let drawn = |from: (Num, Num), to: (Num, Num)| {
            let mut m = Mask::new(10, 10);
            Geometry::from_drag(tool, from, to).stamp(&mut m, true);
            m.pixels()
        };
        let pixels = drawn(a, b);
        assert!(pixels.contains(&true));
        assert_eq!(drawn(b, a), pixels);
        assert_eq!(drawn(c, d), pixels);
        assert_eq!(drawn(d, c), pixels);
    }
}

#[test]
fn the_center_of_a_shape_moves_with_it() {
    let ellipse = Geometry::Ellipse { cx: Num(2.0), cy: Num(3.0), rx: Num(4.0), ry: Num(5.0) };
    for mut shape in [rect(1.0, 2.0, 5.0, 3.0), circle(2.0, 3.0, 4.0), ellipse] {
        let (x, y) = shape.center();
        shape.translate(Num(1.5), Num(-2.0));
        assert_eq!(shape.center(), (Num(x.0 + 1.5), Num(y.0 - 2.0)));
    }
}

#[test]
fn a_stamp_covers_the_centers_inside() {
    let ellipse = Geometry::Ellipse { cx: Num(4.3), cy: Num(5.1), rx: Num(3.7), ry: Num(2.2) };
    for shape in [rect(7.6, 1.2, 2.4, 6.5), circle(4.1, 4.9, 3.3), ellipse] {
        let mut m = Mask::new(10, 10);
        shape.stamp(&mut m, true);
        for y in 0..10 {
            for x in 0..10 {
                let inside = shape.contains(Num(x as f32 + 0.5), Num(y as f32 + 0.5));
                assert_eq!(m.get(y, x), inside);
            }
        }
    }
}

#[test]
fn extensions_are_lowered() {
    assert_eq!(ext_of(&file(0, "a.TiFf")), "tiff");
    assert_eq!(ext_of(&file(0, "a.b.NPY")), "npy");
    assert_eq!(ext_of(&file(0, "noextension")), "");
}

#[test]
fn a_tiff_ends_with_its_directory() {
    for (w, h, strips) in [(5usize, 4usize, 1usize), (1200, 1000, 2), (600_000, 3, 2), (1_000_001, 3, 3)] {
        let bytes = save_mask(&file(0, "m.tif"), &Mask::new(h, w)).unwrap();
        let place = u32::from_le_bytes([bytes[4], bytes[5], bytes[6], bytes[7]]) as usize;
        let lists = if strips > 1 { 8 * strips } else { 0 };
        assert_eq!(place, 24 + w * h + lists);
    }
}

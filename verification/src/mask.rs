//! Masks: which pixels of an image are selected.

use vstd::prelude::*;

verus! {

/// A grid of selected and unselected pixels, held in an `ndarray::Array2`.
#[verifier::external_body]
pub struct Mask {
    grid: ndarray::Array2<bool>,
}

/// The rows of a mask from top to bottom, each from left to right.
pub uninterp spec fn mask_rows(mask: Mask) -> Seq<Seq<bool>>;

/// The width of a mask, which it has also where it has no row.
pub uninterp spec fn mask_width(mask: Mask) -> nat;

/// The largest number of pixels in an array.
pub open spec fn fits(height: int, width: int) -> bool {
    height <= isize::MAX && width <= isize::MAX && height * width <= isize::MAX
}

/// The rows put one after the other.
pub open spec fn flattened<T>(rows: Seq<Seq<T>>) -> Seq<T>
    decreases rows.len(),
{
    if rows.len() == 0 {
        Seq::empty()
    } else {
        flattened(rows.drop_last()) + rows.last()
    }
}

/// Rows of one width, put one after the other: as many values as pixels, and each
/// at the place that its row and column give.
pub proof fn flattened_is_row_by_row<T>(rows: Seq<Seq<T>>, width: int)
    requires
        forall|y: int| 0 <= y < rows.len() ==> (#[trigger] rows[y]).len() == width,
        width >= 0,
    ensures
        flattened(rows).len() == rows.len() * width,
        forall|y: int, x: int|
            0 <= y < rows.len() && 0 <= x < width ==> #[trigger] flattened(rows)[y * width + x]
                == rows[y][x],
    decreases rows.len(),
{
    if rows.len() == 0 {
        assert(0int * width == 0) by (nonlinear_arith);
    } else {
        let front = rows.drop_last();
        let n = front.len() as int;
        assert forall|y: int| 0 <= y < n implies (#[trigger] front[y]).len() == width by {
            assert(rows[y].len() == width);
        }
        flattened_is_row_by_row(front, width);
        assert(rows[n].len() == width);
        assert(n * width + width == (n + 1) * width) by (nonlinear_arith);
        assert forall|y: int, x: int|
            0 <= y < rows.len() && 0 <= x < width implies #[trigger] flattened(rows)[y * width + x]
            == rows[y][x] by {
            if y < n {
                assert(0 <= y * width && y * width + width <= n * width) by (nonlinear_arith)
                    requires
                        0 <= y < n,
                        0 <= width,
                ;
                assert(flattened(front)[y * width + x] == front[y][x]);
            } else {
                assert(flattened(rows)[n * width + x] == rows.last()[x]);
            }
        }
    }
}

impl Mask {
    pub open spec fn rows(self) -> Seq<Seq<bool>> {
        mask_rows(self)
    }

    pub open spec fn height(self) -> nat {
        self.rows().len()
    }

    pub open spec fn width(self) -> nat {
        mask_width(self)
    }

    /// Is the pixel in row `y` and column `x` selected?
    pub open spec fn at(self, y: int, x: int) -> bool {
        self.rows()[y][x]
    }

    /// Every row has the mask's width, and the whole fits into an array.
    pub open spec fn wf(self) -> bool {
        &&& forall|y: int|
            0 <= y < self.height() ==> (#[trigger] self.rows()[y]).len() == self.width()
        &&& fits(self.height() as int, self.width() as int)
    }

    /// `ArrayBase::default`: an array of the given shape with `false` everywhere.
    #[verifier::external_body]
    fn falses(height: usize, width: usize) -> (r: Mask)
        requires
            fits(height as int, width as int),
        ensures
            mask_rows(r) == Seq::new(height as nat, |y: int| Seq::new(width as nat, |x: int| false)),
            mask_width(r) == width,
    {
        Mask { grid: ndarray::Array2::<bool>::default((height, width)) }
    }

    /// `ArrayRef::shape`: the lengths of the two axes, rows first.
    #[verifier::external_body]
    fn shape(&self) -> (r: (usize, usize))
        ensures
            r.0 == mask_rows(*self).len(),
            r.1 == mask_width(*self),
    {
        (self.grid.shape()[0], self.grid.shape()[1])
    }

    /// Indexing of the array: the value in row `y` and column `x`.
    #[verifier::external_body]
    fn read(&self, y: usize, x: usize) -> (r: bool)
        requires
            y < mask_rows(*self).len(),
            x < mask_width(*self),
        ensures
            r == mask_rows(*self)[y as int][x as int],
    {
        self.grid[(y, x)]
    }

    /// Assignment through an index of the array: one value changes, and nothing else.
    #[verifier::external_body]
    fn write(&mut self, y: usize, x: usize, value: bool)
        requires
            y < mask_rows(*old(self)).len(),
            x < mask_width(*old(self)),
        ensures
            mask_rows(*final(self)) == mask_rows(*old(self)).update(
                y as int,
                mask_rows(*old(self))[y as int].update(x as int, value),
            ),
            mask_width(*final(self)) == mask_width(*old(self)),
    {
        self.grid[(y, x)] = value;
    }

    /// `ArrayRef::iter`: the values in logical order, which is row by row.
    #[verifier::external_body]
    fn values(&self) -> (r: Vec<bool>)
        ensures
            r@ == flattened(mask_rows(*self)),
    {
        self.grid.iter().copied().collect()
    }

    /// A mask of the given size with no pixel selected.
    pub fn new(height: usize, width: usize) -> (r: Mask)
        requires
            fits(height as int, width as int),
        ensures
            r.wf(),
            r.height() == height,
            r.width() == width,
            forall|y: int, x: int| 0 <= y < height && 0 <= x < width ==> !#[trigger] r.at(y, x),
    {
        Mask::falses(height, width)
    }

    /// The height and the width.
    pub fn dim(&self) -> (r: (usize, usize))
        ensures
            r.0 == self.height(),
            r.1 == self.width(),
    {
        self.shape()
    }

    /// Is the pixel in row `y` and column `x` selected?
    pub fn get(&self, y: usize, x: usize) -> (r: bool)
        requires
            y < self.height(),
            x < self.width(),
        ensures
            r == self.at(y as int, x as int),
    {
        self.read(y, x)
    }

    /// Selects or unselects the pixel in row `y` and column `x`.
    pub fn set(&mut self, y: usize, x: usize, value: bool)
        requires
            old(self).wf(),
            y < old(self).height(),
            x < old(self).width(),
        ensures
            final(self).wf(),
            final(self).height() == old(self).height(),
            final(self).width() == old(self).width(),
            forall|py: int, px: int|
                0 <= py < old(self).height() && 0 <= px < old(self).width()
                    ==> #[trigger] final(self).at(py, px) == if py == y && px == x {
                    value
                } else {
                    old(self).at(py, px)
                },
    {
        self.write(y, x, value);
    }

    /// The pixels row by row.
    pub fn pixels(&self) -> (r: Vec<bool>)
        ensures
            r@ == flattened(self.rows()),
    {
        self.values()
    }

    /// A mask with the same pixels.
    pub fn duplicate(&self) -> (r: Mask)
        requires
            self.wf(),
        ensures
            r.wf(),
            r.rows() == self.rows(),
            r.width() == self.width(),
    {
        let (height, width) = self.dim();
        let mut r = Mask::new(height, width);
        let mut y: usize = 0;
        while y < height
            invariant
                self.wf(),
                height == self.height(),
                width == self.width(),
                y <= height,
                r.wf(),
                r.height() == height,
                r.width() == width,
                forall|py: int, px: int|
                    0 <= py < y && 0 <= px < width ==> #[trigger] r.at(py, px) == self.at(py, px),
            decreases height - y,
        {
            let mut x: usize = 0;
            while x < width
                invariant
                    self.wf(),
                    height == self.height(),
                    width == self.width(),
                    y < height,
                    x <= width,
                    r.wf(),
                    r.height() == height,
                    r.width() == width,
                    forall|py: int, px: int|
                        0 <= py < height && 0 <= px < width && (py < y || py == y && px < x)
                            ==> #[trigger] r.at(py, px) == self.at(py, px),
                decreases width - x,
            {
                let value = self.get(y, x);
                r.set(y, x, value);
                x = x + 1;
            }
            y = y + 1;
        }
        proof {
            assert forall|py: int| 0 <= py < height implies r.rows()[py] == self.rows()[py] by {
                assert forall|px: int| 0 <= px < width implies r.rows()[py][px]
                    == self.rows()[py][px] by {
                    assert(r.at(py, px) == self.at(py, px));
                }
                assert(r.rows()[py] =~= self.rows()[py]);
            }
            assert(r.rows() =~= self.rows());
        }
        r
    }
}

/// The number of selected pixels among `pixels`.
pub open spec fn count_selected(pixels: Seq<bool>) -> nat
    decreases pixels.len(),
{
    if pixels.len() == 0 {
        0
    } else {
        count_selected(pixels.drop_last()) + if pixels.last() {
            1nat
        } else {
            0nat
        }
    }
}

/// How many of the pixels are selected.
pub fn count(pixels: &Vec<bool>) -> (r: usize)
    ensures
        r == count_selected(pixels@),
        r <= pixels@.len(),
{
    let mut n: usize = 0;
    let mut i: usize = 0;
    while i < pixels.len()
        invariant
            i <= pixels@.len(),
            n <= i,
            n == count_selected(pixels@.take(i as int)),
        decreases pixels@.len() - i,
    {
        assert(pixels@.take(i + 1).drop_last() =~= pixels@.take(i as int));
        if pixels[i] {
            n = n + 1;
        }
        i = i + 1;
    }
    assert(pixels@.take(i as int) =~= pixels@);
    n
}

/// The value that stands for a pixel in a mask file: 1 if it is selected, else 0.
pub open spec fn pixel_byte(selected: bool) -> u8 {
    if selected {
        1
    } else {
        0
    }
}

/// The values that stand for the pixels of a mask in its file.
pub open spec fn mask_bytes(pixels: Seq<bool>) -> Seq<u8> {
    Seq::new(pixels.len(), |i: int| pixel_byte(pixels[i]))
}

/// The values that stand for the pixels of a mask in its file.
pub fn bytes_of(pixels: &Vec<bool>) -> (r: Vec<u8>)
    ensures
        r@ == mask_bytes(pixels@),
{
    let mut r: Vec<u8> = Vec::new();
    let mut i: usize = 0;
    while i < pixels.len()
        invariant
            i <= pixels@.len(),
            r@ == mask_bytes(pixels@).take(i as int),
        decreases pixels@.len() - i,
    {
        r.push(if pixels[i] { 1 } else { 0 });
        i = i + 1;
        assert(r@ =~= mask_bytes(pixels@).take(i as int));
    }
    assert(mask_bytes(pixels@).take(i as int) =~= mask_bytes(pixels@));
    r
}

} // verus!

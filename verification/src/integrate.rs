//! Combine a stack of frames into a single 2-D "integrated" image.

use vstd::prelude::*;

use crate::fixed::Fixed;
use crate::frame::{views, Frame, FrameView};
use crate::loader::{ImageStack, StackView};
use crate::scalar::Scalar;

verus! {

#[derive(Clone, Copy, PartialEq, Eq, Structural, Debug)]
pub enum Integration {
    Sum,
    Mean,
    Max,
}

impl Integration {
    pub const ALL: [Integration; 3] = [Integration::Sum, Integration::Mean, Integration::Max];

    pub open spec fn label_spec(self) -> Seq<char> {
        match self {
            Integration::Sum => "Sum"@,
            Integration::Mean => "Mean"@,
            Integration::Max => "Max"@,
        }
    }

    pub fn label(self) -> (r: &'static str)
        ensures
            r@ == self.label_spec(),
    {
        match self {
            Integration::Sum => "Sum",
            Integration::Mean => "Mean",
            Integration::Max => "Max",
        }
    }
}

/// The values at place `i` of the first `n` frames, added up in this order.
pub open spec fn total<S: Scalar>(frames: Seq<FrameView<S>>, n: int, i: int) -> S
    decreases n,
{
    if n <= 0 {
        S::of_count_spec(0)
    } else {
        total(frames, n - 1, i).plus_spec(frames[n - 1].data[i])
    }
}

/// The greatest of the values at place `i` of the first `n` frames. A value counts
/// if what was found before is below it.
pub open spec fn greatest<S: Scalar>(frames: Seq<FrameView<S>>, n: int, i: int) -> S
    decreases n,
{
    if n <= 0 {
        S::lowest_spec()
    } else if greatest(frames, n - 1, i).below_spec(frames[n - 1].data[i]) {
        frames[n - 1].data[i]
    } else {
        greatest(frames, n - 1, i)
    }
}

/// The value at place `i` of the integrated image.
pub open spec fn integrated_value<S: Scalar>(
    frames: Seq<FrameView<S>>,
    method: Integration,
    i: int,
) -> S {
    let n = frames.len() as int;
    match method {
        Integration::Sum => total(frames, n, i),
        Integration::Mean => if n > 0 {
            total(frames, n, i).over_spec(S::of_count_spec(n as usize))
        } else {
            total(frames, n, i)
        },
        Integration::Max => greatest(frames, n, i),
    }
}

/// The integrated image of a stack.
pub open spec fn integrated<S: Scalar>(stack: StackView<S>, method: Integration) -> FrameView<S> {
    FrameView {
        height: stack.height,
        width: stack.width,
        data: Seq::new(
            (stack.height * stack.width) as nat,
            |i: int| integrated_value(stack.frames, method, i),
        ),
    }
}

/// Collapse the stack into one image using the chosen reduction.
pub fn integrate<S: Scalar>(stack: &ImageStack<S>, method: Integration) -> (r: Frame<S>)
    requires
        stack@.uniform(),
    ensures
        r@ == integrated(stack@, method),
        r@.wf(),
{
    let ghost frames = stack@.frames;
    assert(0 <= stack.height * stack.width) by (nonlinear_arith);
    let area: usize = stack.height * stack.width;
    let n: usize = stack.frames.len();
    let maximum = matches!(method, Integration::Max);
    let start = if maximum {
        S::lowest()
    } else {
        S::of_count(0)
    };
    let mut acc: Vec<S> = Vec::new();
    let mut i: usize = 0;
    while i < area
        invariant
            i <= area,
            acc@ == Seq::new(i as nat, |k: int| start),
        decreases area - i,
    {
        acc.push(start);
        i = i + 1;
        assert(acc@ =~= Seq::new(i as nat, |k: int| start));
    }
    let ghost found = |k: int, i: int|
        if maximum {
            greatest(frames, k, i)
        } else {
            total(frames, k, i)
        };
    let mut k: usize = 0;
    while k < n
        invariant
            k <= n,
            n == frames.len(),
            frames == views(stack.frames@),
            stack@.uniform(),
            stack@.frames == frames,
            area == stack.height * stack.width,
            acc@.len() == area,
            found == |k: int, i: int|
                if maximum {
                    greatest(frames, k, i)
                } else {
                    total(frames, k, i)
                },
            forall|i: int| 0 <= i < area ==> #[trigger] acc@[i] == found(k as int, i),
        decreases n - k,
    {
        let frame = &stack.frames[k];
        assert(frames[k as int] == frame@);
        assert(frame@.data.len() == area);
        let mut i: usize = 0;
        while i < area
            invariant
                i <= area,
                k < n,
                n == frames.len(),
                frames[k as int] == frame@,
                frame@.data.len() == area,
                acc@.len() == area,
                found == |k: int, i: int|
                    if maximum {
                        greatest(frames, k, i)
                    } else {
                        total(frames, k, i)
                    },
                forall|j: int|
                    0 <= j < area ==> #[trigger] acc@[j] == found(
                        if j < i {
                            k + 1
                        } else {
                            k as int
                        },
                        j,
                    ),
            decreases area - i,
        {
            let a = acc[i];
            let v = frame.data[i];
            assert(a == found(k as int, i as int));
            if maximum {
                if a.below(v) {
                    acc.set(i, v);
                }
            } else {
                acc.set(i, a.plus(v));
            }
            assert(acc@[i as int] == found(k + 1, i as int));
            i = i + 1;
        }
        k = k + 1;
    }
    if matches!(method, Integration::Mean) && n > 0 {
        let count = S::of_count(n);
        let mut i: usize = 0;
        while i < area
            invariant
                i <= area,
                acc@.len() == area,
                count == S::of_count_spec(n),
                forall|j: int|
                    0 <= j < area ==> #[trigger] acc@[j] == if j < i {
                        total(frames, n as int, j).over_spec(count)
                    } else {
                        total(frames, n as int, j)
                    },
            decreases area - i,
        {
            let a = acc[i];
            acc.set(i, a.over(count));
            i = i + 1;
        }
    }
    let r = Frame { height: stack.height, width: stack.width, data: acc };
    assert(r@ =~= integrated(stack@, method));
    r
}

/// The least finite value of the first `n`, or what is above all of them.
pub open spec fn least_finite<S: Scalar>(data: Seq<S>, n: int) -> S
    decreases n,
{
    if n <= 0 {
        S::highest_spec()
    } else if data[n - 1].finite_spec() {
        least_finite(data, n - 1).smaller_spec(data[n - 1])
    } else {
        least_finite(data, n - 1)
    }
}

/// The greatest finite value of the first `n`, or what is below all of them.
pub open spec fn greatest_finite<S: Scalar>(data: Seq<S>, n: int) -> S
    decreases n,
{
    if n <= 0 {
        S::lowest_spec()
    } else if data[n - 1].finite_spec() {
        greatest_finite(data, n - 1).larger_spec(data[n - 1])
    } else {
        greatest_finite(data, n - 1)
    }
}

/// The least and the greatest finite value of an image; 0 and 1 where it has none.
pub open spec fn range_of<S: Scalar>(data: Seq<S>) -> (S, S) {
    let lo = least_finite(data, data.len() as int);
    let hi = greatest_finite(data, data.len() as int);
    if lo.finite_spec() && hi.finite_spec() {
        (lo, hi)
    } else {
        (S::of_count_spec(0), S::of_count_spec(1))
    }
}

/// The least and the greatest finite value of an image; 0 and 1 where it has none.
pub fn data_range<S: Scalar>(data: &Vec<S>) -> (r: (S, S))
    ensures
        r == range_of(data@),
{
    let mut lo = S::highest();
    let mut hi = S::lowest();
    let mut i: usize = 0;
    while i < data.len()
        invariant
            i <= data@.len(),
            lo == least_finite(data@, i as int),
            hi == greatest_finite(data@, i as int),
        decreases data@.len() - i,
    {
        let v = data[i];
        if v.finite() {
            lo = lo.smaller(v);
            hi = hi.larger(v);
        }
        i = i + 1;
    }
    if !lo.finite() || !hi.finite() {
        return (S::of_count(0), S::of_count(1));
    }
    (lo, hi)
}

/// The mean is the sum divided by the number of frames.
pub proof fn mean_is_sum_over_count<S: Scalar>(stack: StackView<S>, i: int)
    requires
        stack.frames.len() > 0,
        0 <= i < stack.height * stack.width,
    ensures
        integrated(stack, Integration::Mean).data[i] == integrated(
            stack,
            Integration::Sum,
        ).data[i].over_spec(S::of_count_spec(stack.frames.len() as usize)),
{
}

/// The maximum is a value of one of the frames, or what the search starts from.
pub proof fn maximum_is_a_value<S: Scalar>(frames: Seq<FrameView<S>>, n: int, i: int)
    ensures
        greatest(frames, n, i) == S::lowest_spec() || exists|k: int|
            0 <= k < n && greatest(frames, n, i) == (#[trigger] frames[k]).data[i],
    decreases n,
{
    if n > 0 {
        maximum_is_a_value(frames, n - 1, i);
        if !greatest(frames, n - 1, i).below_spec(frames[n - 1].data[i]) {
            if greatest(frames, n - 1, i) != S::lowest_spec() {
                let k = choose|k: int|
                    0 <= k < n - 1 && greatest(frames, n - 1, i) == (#[trigger] frames[k]).data[i];
                assert(greatest(frames, n, i) == frames[k].data[i]);
            }
        } else {
            assert(greatest(frames, n, i) == frames[n - 1].data[i]);
        }
    }
}

/// On fixed-point numbers, no value of a frame is above the maximum.
pub proof fn maximum_is_not_exceeded(frames: Seq<FrameView<Fixed>>, n: int, i: int)
    ensures
        forall|k: int|
            0 <= k < n ==> (#[trigger] frames[k]).data[i].steps <= greatest(frames, n, i).steps,
    decreases n,
{
    if n > 0 {
        maximum_is_not_exceeded(frames, n - 1, i);
    }
}

/// On fixed-point numbers, the sum is exact as long as no partial sum leaves
/// their range.
pub proof fn sum_is_exact(frames: Seq<FrameView<Fixed>>, n: int, i: int)
    requires
        forall|k: int| 0 <= k <= n ==> i64::MIN <= #[trigger] exact_total(frames, k, i) <= i64::MAX,
    ensures
        total(frames, n, i).steps == exact_total(frames, n, i),
    decreases n,
{
    if n > 0 {
        assert(i64::MIN <= exact_total(frames, n, i) <= i64::MAX);
        sum_is_exact(frames, n - 1, i);
    }
}

/// The steps at place `i` of the first `n` frames added up as integers.
pub open spec fn exact_total(frames: Seq<FrameView<Fixed>>, n: int, i: int) -> int
    decreases n,
{
    if n <= 0 {
        0
    } else {
        exact_total(frames, n - 1, i) + frames[n - 1].data[i].steps
    }
}

/// On fixed-point numbers, every finite value of an image lies in its range.
pub proof fn range_holds_all(data: Seq<Fixed>, n: int)
    ensures
        forall|k: int|
            0 <= k < n && (#[trigger] data[k]).finite_spec() ==> least_finite(data, n).steps
                <= data[k].steps <= greatest_finite(data, n).steps,
        least_finite(data, n).finite_spec() == greatest_finite(data, n).finite_spec(),
        (exists|k: int| 0 <= k < n && (#[trigger] data[k]).finite_spec()) ==> least_finite(
            data,
            n,
        ).finite_spec(),
        !least_finite(data, n).finite_spec() ==> least_finite(data, n) == Fixed::highest_spec()
            && greatest_finite(data, n) == Fixed::lowest_spec(),
    decreases n,
{
    if n > 0 {
        range_holds_all(data, n - 1);
    }
}

} // verus!

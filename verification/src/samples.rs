//! Pixel values as they stand in an image file.

use vstd::prelude::*;

verus! {

/// One pixel value of an image file: a whole number, or the bit pattern of a
/// floating-point number.
#[derive(Clone, Copy, PartialEq, Eq, Structural, Debug)]
pub enum Sample {
    Unsigned(u64),
    Signed(i64),
    /// A single-precision number.
    Single(u32),
    /// A double-precision number.
    Double(u64),
}

/// The pixel values of an image, all of one kind.
#[derive(Debug)]
pub enum Samples {
    U8(Vec<u8>),
    U16(Vec<u16>),
    U32(Vec<u32>),
    U64(Vec<u64>),
    I8(Vec<i8>),
    I16(Vec<i16>),
    I32(Vec<i32>),
    I64(Vec<i64>),
    Bool(Vec<bool>),
    Single(Vec<u32>),
    Double(Vec<u64>),
}

impl View for Samples {
    type V = Seq<Sample>;

    open spec fn view(&self) -> Seq<Sample> {
        match self {
            Samples::U8(v) => Seq::new(v@.len(), |i: int| Sample::Unsigned(v@[i] as u64)),
            Samples::U16(v) => Seq::new(v@.len(), |i: int| Sample::Unsigned(v@[i] as u64)),
            Samples::U32(v) => Seq::new(v@.len(), |i: int| Sample::Unsigned(v@[i] as u64)),
            Samples::U64(v) => Seq::new(v@.len(), |i: int| Sample::Unsigned(v@[i])),
            Samples::I8(v) => Seq::new(v@.len(), |i: int| Sample::Signed(v@[i] as i64)),
            Samples::I16(v) => Seq::new(v@.len(), |i: int| Sample::Signed(v@[i] as i64)),
            Samples::I32(v) => Seq::new(v@.len(), |i: int| Sample::Signed(v@[i] as i64)),
            Samples::I64(v) => Seq::new(v@.len(), |i: int| Sample::Signed(v@[i])),
            Samples::Bool(v) => Seq::new(
                v@.len(),
                |i: int| Sample::Unsigned(if v@[i] { 1 } else { 0 }),
            ),
            Samples::Single(v) => Seq::new(v@.len(), |i: int| Sample::Single(v@[i])),
            Samples::Double(v) => Seq::new(v@.len(), |i: int| Sample::Double(v@[i])),
        }
    }
}

impl Samples {
    /// The number of values.
    pub fn len(&self) -> (r: usize)
        ensures
            r == self@.len(),
    {
        match self {
            Samples::U8(v) => v.len(),
            Samples::U16(v) => v.len(),
            Samples::U32(v) => v.len(),
            Samples::U64(v) => v.len(),
            Samples::I8(v) => v.len(),
            Samples::I16(v) => v.len(),
            Samples::I32(v) => v.len(),
            Samples::I64(v) => v.len(),
            Samples::Bool(v) => v.len(),
            Samples::Single(v) => v.len(),
            Samples::Double(v) => v.len(),
        }
    }

    /// The value at place `i`. A truth value counts as 1 or 0.
    pub fn get(&self, i: usize) -> (r: Sample)
        requires
            i < self@.len(),
        ensures
            r == self@[i as int],
    {
        match self {
            Samples::U8(v) => Sample::Unsigned(v[i] as u64),
            Samples::U16(v) => Sample::Unsigned(v[i] as u64),
            Samples::U32(v) => Sample::Unsigned(v[i] as u64),
            Samples::U64(v) => Sample::Unsigned(v[i]),
            Samples::I8(v) => Sample::Signed(v[i] as i64),
            Samples::I16(v) => Sample::Signed(v[i] as i64),
            Samples::I32(v) => Sample::Signed(v[i] as i64),
            Samples::I64(v) => Sample::Signed(v[i]),
            Samples::Bool(v) => Sample::Unsigned(if v[i] { 1 } else { 0 }),
            Samples::Single(v) => Sample::Single(v[i]),
            Samples::Double(v) => Sample::Double(v[i]),
        }
    }
}

} // verus!

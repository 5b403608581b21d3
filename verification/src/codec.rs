//! Image files as bytes: what the `tiff` and `ndarray-npy` crates read and write.
//!
//! Everything here that calls those crates is trusted: its contract is taken
//! from their sources, not proved.

use tiff::decoder::DecodingResult;
use vstd::prelude::*;

use crate::directory::{page_is_countable, page_is_jpeg};
use crate::header::npy_header_is_flat;
use crate::mask::fits;
use crate::samples::{Sample, Samples};

verus! {

/// The error of the `tiff` crate.
#[verifier::external_type_specification]
#[verifier::external_body]
pub struct ExTiffError(tiff::TiffError);

/// The error of the `ndarray-npy` crate's writer.
#[verifier::external_type_specification]
#[verifier::external_body]
pub struct ExWriteNpyError(ndarray_npy::WriteNpyError);

/// The values of a TIFF page as the `tiff` crate hands them out: a vector of
/// numbers of one of several types.
#[verifier::external_type_specification]
#[verifier::external_body]
pub struct ExDecodingResult(DecodingResult);

/// The values in a vector that the `tiff` crate hands out.
pub uninterp spec fn decoded_values(d: DecodingResult) -> Seq<Sample>;

/// The values in a vector that the `tiff` crate hands out are whole numbers.
pub uninterp spec fn decoded_is_whole(d: DecodingResult) -> bool;

/// The variants of `DecodingResult` with whole numbers: the vector that is in one.
#[verifier::external_body]
fn whole_samples(d: DecodingResult) -> (r: Option<Samples>)
    ensures
        r is Some <==> decoded_is_whole(d),
        r matches Some(s) ==> s@ == decoded_values(d),
{
    match d {
        DecodingResult::U8(v) => Some(Samples::U8(v)),
        DecodingResult::U16(v) => Some(Samples::U16(v)),
        DecodingResult::U32(v) => Some(Samples::U32(v)),
        DecodingResult::U64(v) => Some(Samples::U64(v)),
        DecodingResult::I8(v) => Some(Samples::I8(v)),
        DecodingResult::I16(v) => Some(Samples::I16(v)),
        DecodingResult::I32(v) => Some(Samples::I32(v)),
        DecodingResult::I64(v) => Some(Samples::I64(v)),
        _ => None,
    }
}

/// The variants of `DecodingResult` with floating-point numbers: the bit patterns
/// of the vector that is in one. A 16-bit number is widened to a single-precision
/// one, which holds it exactly.
#[verifier::external_body]
fn floating_samples(d: &DecodingResult) -> (r: Option<Samples>)
    ensures
        r is None <==> decoded_is_whole(*d),
        r matches Some(s) ==> s@ == decoded_values(*d),
{
    match d {
        DecodingResult::F16(v) => Some(Samples::Single(v.iter().map(|x| x.to_f32().to_bits()).collect())),
        DecodingResult::F32(v) => Some(Samples::Single(v.iter().map(|x| x.to_bits()).collect())),
        DecodingResult::F64(v) => Some(Samples::Double(v.iter().map(|x| x.to_bits()).collect())),
        _ => None,
    }
}

/// The pages of a TIFF file, read one after the other: a `tiff::decoder::Decoder`
/// over the bytes of the file.
#[verifier::external_body]
pub struct TiffPages {
    decoder: tiff::decoder::Decoder<std::io::Cursor<Vec<u8>>>,
}

/// The bytes of the file that the pages come from.
pub uninterp spec fn tiff_source(pages: TiffPages) -> Seq<u8>;

/// The number of the current page, from 0.
pub uninterp spec fn tiff_page(pages: TiffPages) -> nat;

/// The bytes begin as a TIFF file does, and have a first page.
pub uninterp spec fn tiff_opens(bytes: Seq<u8>) -> bool;

/// The width and the height of a page of a TIFF file.
pub uninterp spec fn tiff_size(bytes: Seq<u8>, page: nat) -> (u32, u32);

/// The values of a page of a TIFF file, row by row, if they can be decoded.
pub uninterp spec fn tiff_samples(bytes: Seq<u8>, page: nat) -> Option<Seq<Sample>>;

/// A page of a TIFF file points to a further one.
pub uninterp spec fn tiff_has_more(bytes: Seq<u8>, page: nat) -> bool;

/// The page that a page of a TIFF file points to is there and in order.
pub uninterp spec fn tiff_advances(bytes: Seq<u8>, page: nat) -> bool;

impl TiffPages {
    pub open spec fn source(self) -> Seq<u8> {
        tiff_source(self)
    }

    pub open spec fn page(self) -> nat {
        tiff_page(self)
    }

    /// `Decoder::new`: reads the header and the first page's directory. Whether
    /// that succeeds depends on the bytes alone. The number of strips or tiles of a
    /// first page that is not countable would overflow.
    #[verifier::external_body]
    pub(crate) fn open(bytes: &Vec<u8>) -> (r: Result<TiffPages, tiff::TiffError>)
        requires
            page_is_countable(bytes@, 0),
        ensures
            r is Ok <==> tiff_opens(bytes@),
            r matches Ok(pages) ==> tiff_source(pages) == bytes@ && tiff_page(pages) == 0,
    {
        match tiff::decoder::Decoder::new(std::io::Cursor::new(bytes.to_vec())) {
            Ok(decoder) => Ok(TiffPages { decoder }),
            Err(e) => Err(e),
        }
    }

    /// `Decoder::dimensions`: the width and height from the directory that was
    /// read, which does not fail.
    #[verifier::external_body]
    pub(crate) fn size(&mut self) -> (r: Result<(u32, u32), tiff::TiffError>)
        ensures
            r matches Ok(d) && d == tiff_size(tiff_source(*old(self)), tiff_page(*old(self))),
            tiff_source(*final(self)) == tiff_source(*old(self)),
            tiff_page(*final(self)) == tiff_page(*old(self)),
    {
        self.decoder.dimensions()
    }

    /// `Decoder::read_image`: decodes the current page. The values, and whether
    /// there are any, depend on the bytes and the page alone. On some
    /// JPEG-compressed pages the JPEG decoder panics.
    #[verifier::external_body]
    fn decode(&mut self) -> (r: Result<DecodingResult, tiff::TiffError>)
        requires
            !page_is_jpeg(tiff_source(*old(self)), tiff_page(*old(self))),
        ensures
            match r {
                Ok(d) => tiff_samples(tiff_source(*old(self)), tiff_page(*old(self))) == Some(
                    decoded_values(d),
                ),
                Err(_) => tiff_samples(tiff_source(*old(self)), tiff_page(*old(self))) is None,
            },
            tiff_source(*final(self)) == tiff_source(*old(self)),
            tiff_page(*final(self)) == tiff_page(*old(self)),
    {
        self.decoder.read_image()
    }

    /// The values of the current page.
    pub(crate) fn read(&mut self) -> (r: Result<Samples, tiff::TiffError>)
        requires
            !page_is_jpeg(old(self).source(), old(self).page()),
        ensures
            match r {
                Ok(s) => tiff_samples(old(self).source(), old(self).page()) == Some(s@),
                Err(_) => tiff_samples(old(self).source(), old(self).page()) is None,
            },
            final(self).source() == old(self).source(),
            final(self).page() == old(self).page(),
    {
        let d = match self.decode() {
            Ok(d) => d,
            Err(e) => {
                return Err(e);
            },
        };
        if let Some(samples) = floating_samples(&d) {
            return Ok(samples);
        }
        // What is not floating is whole, so there are samples.
        match whole_samples(d) {
            Some(samples) => Ok(samples),
            None => Ok(Samples::U8(Vec::new())),
        }
    }

    /// `Decoder::more_images`: whether the current page points to a further one.
    #[verifier::external_body]
    pub(crate) fn more(&self) -> (r: bool)
        ensures
            r == tiff_has_more(tiff_source(*self), tiff_page(*self)),
    {
        self.decoder.more_images()
    }

    /// `Decoder::next_image`: goes to the next page. It refuses to come to a page
    /// twice, and every page begins at an offset of its own inside the file, so
    /// there are not more pages than bytes. The number of strips or tiles of a next
    /// page that is not countable would overflow.
    #[verifier::external_body]
    pub(crate) fn advance(&mut self) -> (r: Result<(), tiff::TiffError>)
        requires
            page_is_countable(tiff_source(*old(self)), tiff_page(*old(self)) + 1),
        ensures
            r is Ok <==> tiff_advances(tiff_source(*old(self)), tiff_page(*old(self))),
            r is Ok ==> tiff_source(*final(self)) == tiff_source(*old(self)) && tiff_page(
                *final(self),
            ) == tiff_page(*old(self)) + 1 && tiff_page(*final(self)) < tiff_source(
                *final(self),
            ).len(),
    {
        self.decoder.next_image()
    }
}

/// The bytes as one grayscale page of unsigned bytes, row by row.
pub open spec fn byte_samples(data: Seq<u8>) -> Seq<Sample> {
    Seq::new(data.len(), |i: int| Sample::Unsigned(data[i] as u64))
}

/// The most bytes of one strip that the TIFF decoder takes.
pub const TIFF_STRIP_LIMIT: u64 = 0x800_0000;

/// The most bytes of one image that the TIFF decoder takes.
pub const TIFF_IMAGE_LIMIT: u64 = 0x1000_0000;

/// An image with one byte per pixel is within the limits of the TIFF decoder. The
/// encoder makes strips of about a million bytes, and of at least one row.
pub open spec fn tiff_readable(width: int, height: int) -> bool {
    width <= TIFF_STRIP_LIMIT && width * height <= TIFF_IMAGE_LIMIT
}

/// The number of strips of an image with one byte per pixel: the encoder makes them
/// of a million bytes, rounded up to whole rows.
pub open spec fn tiff_strips(width: int, height: int) -> int {
    let rows = (999_999 + width) / width;
    (height + rows - 1) / rows
}

/// Where the encoder puts the directory of an image with one byte per pixel: behind
/// the header, the resolution, the pixels, and the place and size of each strip if
/// there are several.
pub open spec fn tiff_directory_place(width: int, height: int) -> int {
    let strips = tiff_strips(width, height);
    24 + width * height + if strips > 1 {
        8 * strips
    } else {
        0
    }
}

/// An image with one byte per pixel can be written: it has a pixel, and the place of
/// its directory fits into 32 bits.
pub open spec fn tiff_writable(width: int, height: int) -> bool {
    width > 0 && height > 0 && tiff_directory_place(width, height) <= u32::MAX
}

/// `TiffEncoder::new` and `TiffEncoder::write_image` with `Gray8`: one grayscale
/// page of one byte per pixel. An image without a pixel is refused, and one for
/// which offsets in the file would not fit into 32 bits. Writing any other to memory
/// succeeds. What is written is opened again, as one page of this size in
/// uncompressed strips. Within the decoder's limits it has these values; beyond them
/// the decoder refuses to decode it.
#[verifier::external_body]
pub(crate) fn write_tiff(width: u32, height: u32, data: &Vec<u8>) -> (r: Result<
    Vec<u8>,
    tiff::TiffError,
>)
    requires
        data@.len() == width * height,
    ensures
        r is Ok <==> tiff_writable(width as int, height as int),
        r matches Ok(bytes) ==> {
            &&& page_is_countable(bytes@, 0)
            &&& !page_is_jpeg(bytes@, 0)
            &&& tiff_opens(bytes@)
            &&& tiff_size(bytes@, 0) == (width, height)
            &&& tiff_samples(bytes@, 0) == if tiff_readable(width as int, height as int) {
                Some(byte_samples(data@))
            } else {
                None
            }
            &&& !tiff_has_more(bytes@, 0)
        },
{
    let mut out = std::io::Cursor::new(Vec::new());
    tiff::encoder::TiffEncoder::new(&mut out)?.write_image::<tiff::encoder::colortype::Gray8>(
        width,
        height,
        data,
    )?;
    Ok(out.into_inner())
}

/// The kinds of values that a `.npy` file is tried for.
#[derive(Clone, Copy, PartialEq, Eq, Structural, Debug)]
pub enum Element {
    /// Single-precision floating-point numbers.
    Single,
    /// Double-precision floating-point numbers.
    Double,
    U8,
    U16,
    I16,
    U32,
    I32,
    U64,
    I64,
    Bool,
}

/// The product of those axis lengths that are not zero.
pub open spec fn extent_product(shape: Seq<usize>) -> int
    decreases shape.len(),
{
    if shape.len() == 0 {
        1
    } else {
        extent_product(shape.drop_last()) * if shape.last() == 0 {
            1
        } else {
            shape.last() as int
        }
    }
}

/// The product of the axis lengths.
pub open spec fn shape_len(shape: Seq<usize>) -> int
    decreases shape.len(),
{
    if shape.len() == 0 {
        1
    } else {
        shape_len(shape.drop_last()) * shape.last()
    }
}

/// The axis lengths that the header of a `.npy` file gives, if it has one.
pub uninterp spec fn npy_shape(bytes: Seq<u8>) -> Option<Seq<usize>>;

/// The values of a `.npy` file, in logical order (the last axis runs fastest),
/// if it holds an array of the given kind.
pub uninterp spec fn npy_values(bytes: Seq<u8>, element: Element) -> Option<Seq<Sample>>;

/// An array can have these axis lengths, and a file of this many bytes can hold
/// that many values.
pub open spec fn shape_fits(shape: Seq<usize>, bytes: nat) -> bool {
    extent_product(shape) <= isize::MAX && shape_len(shape) <= bytes
}

/// The reader can be given the file: its header is flat, and the header's shape, if
/// there is one, makes an array that can exist and that the file can hold.
pub open spec fn npy_is_tame(bytes: Seq<u8>) -> bool {
    &&& npy_header_is_flat(bytes)
    &&& npy_shape(bytes) matches Some(shape) ==> shape_fits(shape, bytes.len())
}

/// What a reader returned is the named result.
pub open spec fn npy_agrees(r: Option<Samples>, bytes: Seq<u8>, element: Element) -> bool {
    match r {
        Some(s) => npy_values(bytes, element) == Some(s@) && npy_shape(bytes) is Some && s@.len()
            == shape_len(npy_shape(bytes)->0),
        None => npy_values(bytes, element) is None,
    }
}

/// `Header::from_reader`: the shape in the header, which depends on the bytes
/// alone. On a header with deeply nested brackets it would not return in any
/// reasonable time, or run out of stack; on a flat one it needs the stack of a few
/// calls, which every thread is taken to have.
#[verifier::external_body]
pub(crate) fn read_npy_shape(bytes: &Vec<u8>) -> (r: Option<Vec<usize>>)
    requires
        npy_header_is_flat(bytes@),
    ensures
        match r {
            Some(shape) => npy_shape(bytes@) == Some(shape@),
            None => npy_shape(bytes@) is None,
        },
{
    let mut reader = std::io::Cursor::new(bytes);
    ndarray_npy::npy::header::Header::from_reader(&mut reader).ok().map(|h| h.shape)
}

/// `ReadNpyExt::read_npy` for an array of `u8` of any dimension: the values are
/// there if the file's type is this one and its data are complete, and they are
/// as many as the header's shape asks for. Of the header it asks what
/// [`read_npy_shape`] does. A shape that is too large to exist, but for an axis
/// of length zero, would make it panic, and one that asks for more values than the
/// file can hold would make it set aside the memory for them first.
#[verifier::external_body]
pub(crate) fn read_npy_u8(bytes: &Vec<u8>) -> (r: Option<Samples>)
    requires
        npy_is_tame(bytes@),
    ensures
        npy_agrees(r, bytes@, Element::U8),
{
    let read: Result<ndarray::ArrayD<u8>, _> = ndarray_npy::ReadNpyExt::read_npy(
        std::io::Cursor::new(bytes),
    );
    read.ok().map(|a| Samples::U8(a.iter().copied().collect()))
}

/// `ReadNpyExt::read_npy` for an array of `u16`; see [`read_npy_u8`].
#[verifier::external_body]
pub(crate) fn read_npy_u16(bytes: &Vec<u8>) -> (r: Option<Samples>)
    requires
        npy_is_tame(bytes@),
    ensures
        npy_agrees(r, bytes@, Element::U16),
{
    let read: Result<ndarray::ArrayD<u16>, _> = ndarray_npy::ReadNpyExt::read_npy(
        std::io::Cursor::new(bytes),
    );
    read.ok().map(|a| Samples::U16(a.iter().copied().collect()))
}

/// `ReadNpyExt::read_npy` for an array of `i16`; see [`read_npy_u8`].
#[verifier::external_body]
pub(crate) fn read_npy_i16(bytes: &Vec<u8>) -> (r: Option<Samples>)
    requires
        npy_is_tame(bytes@),
    ensures
        npy_agrees(r, bytes@, Element::I16),
{
    let read: Result<ndarray::ArrayD<i16>, _> = ndarray_npy::ReadNpyExt::read_npy(
        std::io::Cursor::new(bytes),
    );
    read.ok().map(|a| Samples::I16(a.iter().copied().collect()))
}

/// `ReadNpyExt::read_npy` for an array of `u32`; see [`read_npy_u8`].
#[verifier::external_body]
pub(crate) fn read_npy_u32(bytes: &Vec<u8>) -> (r: Option<Samples>)
    requires
        npy_is_tame(bytes@),
    ensures
        npy_agrees(r, bytes@, Element::U32),
{
    let read: Result<ndarray::ArrayD<u32>, _> = ndarray_npy::ReadNpyExt::read_npy(
        std::io::Cursor::new(bytes),
    );
    read.ok().map(|a| Samples::U32(a.iter().copied().collect()))
}

/// `ReadNpyExt::read_npy` for an array of `i32`; see [`read_npy_u8`].
#[verifier::external_body]
pub(crate) fn read_npy_i32(bytes: &Vec<u8>) -> (r: Option<Samples>)
    requires
        npy_is_tame(bytes@),
    ensures
        npy_agrees(r, bytes@, Element::I32),
{
    let read: Result<ndarray::ArrayD<i32>, _> = ndarray_npy::ReadNpyExt::read_npy(
        std::io::Cursor::new(bytes),
    );
    read.ok().map(|a| Samples::I32(a.iter().copied().collect()))
}

/// `ReadNpyExt::read_npy` for an array of `u64`; see [`read_npy_u8`].
#[verifier::external_body]
pub(crate) fn read_npy_u64(bytes: &Vec<u8>) -> (r: Option<Samples>)
    requires
        npy_is_tame(bytes@),
    ensures
        npy_agrees(r, bytes@, Element::U64),
{
    let read: Result<ndarray::ArrayD<u64>, _> = ndarray_npy::ReadNpyExt::read_npy(
        std::io::Cursor::new(bytes),
    );
    read.ok().map(|a| Samples::U64(a.iter().copied().collect()))
}

/// `ReadNpyExt::read_npy` for an array of `i64`; see [`read_npy_u8`].
#[verifier::external_body]
pub(crate) fn read_npy_i64(bytes: &Vec<u8>) -> (r: Option<Samples>)
    requires
        npy_is_tame(bytes@),
    ensures
        npy_agrees(r, bytes@, Element::I64),
{
    let read: Result<ndarray::ArrayD<i64>, _> = ndarray_npy::ReadNpyExt::read_npy(
        std::io::Cursor::new(bytes),
    );
    read.ok().map(|a| Samples::I64(a.iter().copied().collect()))
}

/// `ReadNpyExt::read_npy` for an array of `bool`; see [`read_npy_u8`].
#[verifier::external_body]
pub(crate) fn read_npy_bool(bytes: &Vec<u8>) -> (r: Option<Samples>)
    requires
        npy_is_tame(bytes@),
    ensures
        npy_agrees(r, bytes@, Element::Bool),
{
    let read: Result<ndarray::ArrayD<bool>, _> = ndarray_npy::ReadNpyExt::read_npy(
        std::io::Cursor::new(bytes),
    );
    read.ok().map(|a| Samples::Bool(a.iter().copied().collect()))
}

/// `ReadNpyExt::read_npy` for an array of single-precision numbers, which come
/// out as bit patterns; see [`read_npy_u8`]. The numbers pass through a
/// `DecodingResult`, whose variant fixes their type.
#[verifier::external_body]
pub(crate) fn read_npy_single(bytes: &Vec<u8>) -> (r: Option<Samples>)
    requires
        npy_is_tame(bytes@),
    ensures
        npy_agrees(r, bytes@, Element::Single),
{
    let read: Result<ndarray::ArrayD<_>, _> = ndarray_npy::ReadNpyExt::read_npy(
        std::io::Cursor::new(bytes),
    );
    match read.map(|a| DecodingResult::F32(a.iter().copied().collect())) {
        Ok(DecodingResult::F32(v)) => Some(Samples::Single(v.iter().map(|x| x.to_bits()).collect())),
        _ => None,
    }
}

/// `ReadNpyExt::read_npy` for an array of double-precision numbers, which come
/// out as bit patterns; see [`read_npy_u8`]. The numbers pass through a
/// `DecodingResult`, whose variant fixes their type.
#[verifier::external_body]
pub(crate) fn read_npy_double(bytes: &Vec<u8>) -> (r: Option<Samples>)
    requires
        npy_is_tame(bytes@),
    ensures
        npy_agrees(r, bytes@, Element::Double),
{
    let read: Result<ndarray::ArrayD<_>, _> = ndarray_npy::ReadNpyExt::read_npy(
        std::io::Cursor::new(bytes),
    );
    match read.map(|a| DecodingResult::F64(a.iter().copied().collect())) {
        Ok(DecodingResult::F64(v)) => Some(Samples::Double(v.iter().map(|x| x.to_bits()).collect())),
        _ => None,
    }
}

/// The values of a `.npy` file, if it holds an array of the given kind.
pub(crate) fn read_npy(bytes: &Vec<u8>, element: Element) -> (r: Option<Samples>)
    requires
        npy_is_tame(bytes@),
    ensures
        npy_agrees(r, bytes@, element),
{
    match element {
        Element::Single => read_npy_single(bytes),
        Element::Double => read_npy_double(bytes),
        Element::U8 => read_npy_u8(bytes),
        Element::U16 => read_npy_u16(bytes),
        Element::I16 => read_npy_i16(bytes),
        Element::U32 => read_npy_u32(bytes),
        Element::I32 => read_npy_i32(bytes),
        Element::U64 => read_npy_u64(bytes),
        Element::I64 => read_npy_i64(bytes),
        Element::Bool => read_npy_bool(bytes),
    }
}

/// `WriteNpyExt::write_npy` for a two-dimensional array of `u8`, made by
/// `Array2::from_shape_vec`: writing to memory succeeds, and what is written is
/// read back as an array of `u8` with this shape and these values, and not as one
/// of any other type, since the header names the type. That header has one
/// dictionary with one tuple in it.
#[verifier::external_body]
pub(crate) fn write_npy(height: usize, width: usize, data: Vec<u8>) -> (r: Result<
    Vec<u8>,
    ndarray_npy::WriteNpyError,
>)
    requires
        data@.len() == height * width,
        fits(height as int, width as int),
    ensures
        r is Ok,
        r matches Ok(bytes) ==> {
            &&& npy_header_is_flat(bytes@)
            &&& bytes@.len() >= data@.len()
            &&& npy_shape(bytes@) == Some(seq![height, width])
            &&& npy_values(bytes@, Element::U8) == Some(byte_samples(data@))
            &&& forall|e: Element|
                e != Element::U8 ==> #[trigger] npy_values(bytes@, e) is None
        },
{
    let array = ndarray::Array2::from_shape_vec((height, width), data).expect("shape");
    let mut out = Vec::new();
    ndarray_npy::WriteNpyExt::write_npy(&array, &mut out)?;
    Ok(out)
}

} // verus!

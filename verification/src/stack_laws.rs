//! What a stack holds of the files that it was loaded from.

use vstd::arithmetic::power2::pow2;
use vstd::prelude::*;

use crate::codec::{npy_shape, npy_values, shape_fits, shape_len, Element};
use crate::fixed::{scaled, Fixed};
use crate::formats::{array_spec, first_values, kinds_for, npy_spec};
use crate::frame::{frame_spec, pixel_is_inside, Fault, FrameView};
use crate::header::npy_header_is_flat;
use crate::loader::{
    file_spec, joined, joined_keeps_all, listed, listed_places, load_spec, FolderEntry, LoaderView,
    StackView,
};
use crate::loader_laws::planes_show_the_array;
use crate::paths::{
    bytes_precede, ext_spec, key_precedes, sorted, supported_spec, SourcePath,
};
use crate::raster_laws::size_of;
use crate::samples::Sample;
use crate::scalar::Scalar;
use crate::text::{decimal, digit};

verus! {

/// Of two names, the first byte that differs decides which comes first, and the smaller byte
/// does; a name comes before those that it begins.
pub proof fn names_are_ordered_by_the_first_difference(a: Seq<u8>, b: Seq<u8>, k: int)
    requires
        0 <= k <= a.len(),
        k <= b.len(),
        forall|i: int| 0 <= i < k ==> #[trigger] a[i] == b[i],
    ensures
        k < a.len() && k < b.len() && a[k] != b[k] ==> bytes_precede(a, b) == (a[k] < b[k]),
        k == a.len() ==> bytes_precede(a, b) == (a.len() < b.len()),
        k == b.len() ==> !bytes_precede(a, b),
    decreases k,
{
    if k > 0 {
        let x = a.drop_first();
        let y = b.drop_first();
        assert(a[0] == b[0]);
        assert forall|i: int| 0 <= i < k - 1 implies #[trigger] x[i] == y[i] by {
            assert(a[i + 1] == b[i + 1]);
        }
        names_are_ordered_by_the_first_difference(x, y, k - 1);
    }
}

/// Of two paths, the first component that differs decides which comes first: by its kind, and
/// among ordinary names by the name. A folder comes before what is in it.
pub proof fn paths_are_ordered_by_the_first_difference(
    a: Seq<(u8, Seq<u8>)>,
    b: Seq<(u8, Seq<u8>)>,
    k: int,
)
    requires
        0 <= k <= a.len(),
        k <= b.len(),
        forall|i: int| 0 <= i < k ==> #[trigger] a[i] == b[i],
    ensures
        k < a.len() && k < b.len() && a[k].0 != b[k].0 ==> key_precedes(a, b) == (a[k].0 < b[k].0),
        k < a.len() && k < b.len() && a[k].0 == b[k].0 && a[k].1 != b[k].1 ==> key_precedes(a, b)
            == bytes_precede(a[k].1, b[k].1),
        k == a.len() ==> key_precedes(a, b) == (a.len() < b.len()),
        k == b.len() ==> !key_precedes(a, b),
    decreases k,
{
    if k > 0 {
        let x = a.drop_first();
        let y = b.drop_first();
        assert(a[0] == b[0]);
        assert forall|i: int| 0 <= i < k - 1 implies #[trigger] x[i] == y[i] by {
            assert(a[i + 1] == b[i + 1]);
        }
        paths_are_ordered_by_the_first_difference(x, y, k - 1);
    }
}

/// The frame has the size of the first of `frames`, or else of the first of `loaded`.
pub open spec fn fits_in<S>(
    frames: Seq<FrameView<S>>,
    loaded: Seq<FrameView<S>>,
    frame: FrameView<S>,
) -> bool {
    let first = if frames.len() > 0 {
        frames[0]
    } else {
        loaded[0]
    };
    frame.height == first.height && frame.width == first.width
}

/// Frames are put behind others if and only if all have one size; else the first that has
/// another is refused.
pub proof fn frames_must_have_one_size<S>(
    frames: Seq<FrameView<S>>,
    loaded: Seq<FrameView<S>>,
    file: Seq<char>,
)
    ensures
        joined(frames, loaded, file, 0) is Ok <==> forall|i: int|
            0 <= i < loaded.len() ==> fits_in(frames, loaded, #[trigger] loaded[i]),
        joined(frames, loaded, file, 0) matches Ok(all) ==> all == frames + loaded,
        joined(frames, loaded, file, 0) matches Err(fault) ==> exists|i: int|
            0 <= i < loaded.len() && !fits_in(frames, loaded, #[trigger] loaded[i]) && fault == (
            Fault::SizeMismatch {
                width: loaded[i].width,
                height: loaded[i].height,
                file,
                first_width: if frames.len() > 0 {
                    frames[0].width
                } else {
                    loaded[0].width
                },
                first_height: if frames.len() > 0 {
                    frames[0].height
                } else {
                    loaded[0].height
                },
            }),
{
    lemma_joined(frames, loaded, file, frames, 0);
    assert(loaded.skip(0) =~= loaded);
    joined_keeps_all(frames, loaded, file, 0);
}

/// Joining the frames from the `i`-th on.
proof fn lemma_joined<S>(
    frames: Seq<FrameView<S>>,
    loaded: Seq<FrameView<S>>,
    file: Seq<char>,
    have: Seq<FrameView<S>>,
    i: int,
)
    requires
        0 <= i <= loaded.len(),
        have == frames + loaded.take(i),
    ensures
        joined(have, loaded, file, i) is Ok <==> forall|j: int|
            i <= j < loaded.len() ==> fits_in(frames, loaded, #[trigger] loaded[j]),
        joined(have, loaded, file, i) matches Err(fault) ==> exists|j: int|
            i <= j < loaded.len() && !fits_in(frames, loaded, #[trigger] loaded[j]) && fault == (
            Fault::SizeMismatch {
                width: loaded[j].width,
                height: loaded[j].height,
                file,
                first_width: if frames.len() > 0 {
                    frames[0].width
                } else {
                    loaded[0].width
                },
                first_height: if frames.len() > 0 {
                    frames[0].height
                } else {
                    loaded[0].height
                },
            }),
    decreases loaded.len() - i,
{
    if i < loaded.len() {
        let next = have.push(loaded[i]);
        assert(next =~= frames + loaded.take(i + 1));
        if have.len() > 0 {
            assert(have[0] == if frames.len() > 0 {
                frames[0]
            } else {
                loaded[0]
            });
        } else {
            assert(i == 0 && frames.len() == 0);
        }
        if fits_in(frames, loaded, loaded[i]) {
            lemma_joined(frames, loaded, file, next, i + 1);
            if joined(have, loaded, file, i) is Err {
                let fault = joined(next, loaded, file, i + 1)->Err_0;
                let j = choose|j: int|
                    i + 1 <= j < loaded.len() && !fits_in(frames, loaded, #[trigger] loaded[j])
                        && fault == (Fault::SizeMismatch {
                        width: loaded[j].width,
                        height: loaded[j].height,
                        file,
                        first_width: if frames.len() > 0 {
                            frames[0].width
                        } else {
                            loaded[0].width
                        },
                        first_height: if frames.len() > 0 {
                            frames[0].height
                        } else {
                            loaded[0].height
                        },
                    });
                assert(!fits_in(frames, loaded, loaded[j]));
            }
        }
    }
}

/// The frames of a file, where it has any.
pub open spec fn frames_in<S: Scalar>(file: SourcePath, contents: Seq<Vec<u8>>) -> Seq<FrameView<S>> {
    match file_spec::<S>(file, contents[file.index as int]@) {
        Ok(frames) => frames,
        Err(_) => Seq::empty(),
    }
}

/// The frames of the files from the `i`-th on, one file after the other.
pub open spec fn frames_from<S: Scalar>(
    files: Seq<SourcePath>,
    contents: Seq<Vec<u8>>,
    i: int,
) -> Seq<FrameView<S>>
    decreases files.len() - i,
{
    if i < 0 || i >= files.len() {
        Seq::empty()
    } else {
        frames_in(files[i], contents) + frames_from(files, contents, i + 1)
    }
}

/// For each frame of the files from the `i`-th on, the place of its file.
pub open spec fn places_from<S: Scalar>(
    files: Seq<SourcePath>,
    contents: Seq<Vec<u8>>,
    i: int,
) -> Seq<usize>
    decreases files.len() - i,
{
    if i < 0 || i >= files.len() {
        Seq::empty()
    } else {
        Seq::new(frames_in::<S>(files[i], contents).len(), |k: int| i as usize) + places_from::<S>(
            files,
            contents,
            i + 1,
        )
    }
}

/// What loading the files that are left adds.
proof fn lemma_completed<S: Scalar>(l: LoaderView<S>, contents: Seq<Vec<u8>>)
    requires
        0 <= l.done <= l.files.len(),
    ensures
        l.completed(contents) matches Ok(all) ==> {
            &&& all.frames == l.frames + frames_from::<S>(l.files, contents, l.done)
            &&& all.sources == l.sources + places_from::<S>(l.files, contents, l.done)
            &&& all.files == l.files
            &&& forall|i: int|
                l.done <= i < l.files.len() ==> file_spec::<S>(
                    #[trigger] l.files[i],
                    contents[l.files[i].index as int]@,
                ) is Ok
        },
    decreases l.files.len() - l.done,
{
    if l.done < l.files.len() {
        let file = l.files[l.done];
        let bytes = contents[file.index as int]@;
        if let Ok(loaded) = file_spec::<S>(file, bytes) {
            if let Ok(next) = l.fed(bytes) {
                joined_keeps_all(l.frames, loaded, file.shown@, 0);
                assert(loaded.skip(0) =~= loaded);
                lemma_completed(next, contents);
                if let Ok(all) = l.completed(contents) {
                    assert(all.frames =~= l.frames + frames_from::<S>(l.files, contents, l.done));
                    assert(all.sources =~= l.sources + places_from::<S>(
                        l.files,
                        contents,
                        l.done,
                    ));
                }
            }
        }
    } else {
        assert(l.frames + frames_from::<S>(l.files, contents, l.done) =~= l.frames);
        assert(l.sources + places_from::<S>(l.files, contents, l.done) =~= l.sources);
    }
}

/// A stack that was loaded holds all frames of all files, in the sorted order of the files and
/// each file's in its own order, and tells for each frame the file that it is from. Its size
/// is that of its first frame, and there is one.
pub proof fn a_stack_holds_all_frames<S: Scalar>(paths: Seq<SourcePath>, contents: Seq<Vec<u8>>)
    ensures
        load_spec::<S>(paths, contents) matches Ok(stack) ==> {
            &&& stack.frames == frames_from::<S>(sorted(paths), contents, 0)
            &&& stack.sources == places_from::<S>(sorted(paths), contents, 0)
            &&& stack.files == sorted(paths)
            &&& stack.frames.len() > 0
            &&& stack.width == stack.frames[0].width
            &&& stack.height == stack.frames[0].height
            &&& forall|i: int|
                0 <= i < paths.len() ==> file_spec::<S>(
                    #[trigger] sorted(paths)[i],
                    contents[sorted(paths)[i].index as int]@,
                ) is Ok
        },
{
    crate::paths::sorted_holds_the_same(paths);
    let l = LoaderView::<S>::started(paths);
    lemma_completed(l, contents);
    if let Ok(all) = l.completed(contents) {
        assert(all.frames =~= frames_from::<S>(sorted(paths), contents, 0));
        assert(all.sources =~= places_from::<S>(sorted(paths), contents, 0));
    }
}

/// Loading succeeds if every file does, there is a frame, and all frames have one size.
pub proof fn even_files_make_a_stack<S: Scalar>(paths: Seq<SourcePath>, contents: Seq<Vec<u8>>)
    requires
        paths.len() > 0,
        forall|i: int|
            0 <= i < sorted(paths).len() ==> file_spec::<S>(
                #[trigger] sorted(paths)[i],
                contents[sorted(paths)[i].index as int]@,
            ) is Ok,
        ({
            let all = frames_from::<S>(sorted(paths), contents, 0);
            all.len() > 0 && forall|k: int|
                0 <= k < all.len() ==> (#[trigger] all[k]).height == all[0].height && all[k].width
                    == all[0].width
        }),
    ensures
        load_spec::<S>(paths, contents) is Ok,
{
    let l = LoaderView::<S>::started(paths);
    let all = frames_from::<S>(sorted(paths), contents, 0);
    assert(l.frames + frames_from::<S>(l.files, contents, 0) =~= all);
    lemma_even_completes(l, contents, all);
    lemma_completed(l, contents);
}

/// Files that load and have frames of one size are all loaded.
proof fn lemma_even_completes<S: Scalar>(
    l: LoaderView<S>,
    contents: Seq<Vec<u8>>,
    all: Seq<FrameView<S>>,
)
    requires
        0 <= l.done <= l.files.len(),
        all == l.frames + frames_from::<S>(l.files, contents, l.done),
        forall|i: int|
            l.done <= i < l.files.len() ==> file_spec::<S>(
                #[trigger] l.files[i],
                contents[l.files[i].index as int]@,
            ) is Ok,
        forall|k: int|
            0 <= k < all.len() ==> (#[trigger] all[k]).height == all[0].height && all[k].width
                == all[0].width,
    ensures
        l.completed(contents) is Ok,
    decreases l.files.len() - l.done,
{
    if l.done < l.files.len() {
        let file = l.files[l.done];
        let bytes = contents[file.index as int]@;
        let loaded = file_spec::<S>(file, bytes)->Ok_0;
        assert(file_spec::<S>(l.files[l.done], bytes) is Ok);
        let n = l.frames.len() as int;
        let rest = frames_from::<S>(l.files, contents, l.done + 1);
        assert(frames_from::<S>(l.files, contents, l.done) == loaded + rest);
        assert forall|i: int| 0 <= i < loaded.len() implies fits_in(
            l.frames,
            loaded,
            #[trigger] loaded[i],
        ) by {
            assert(all[n + i] == loaded[i]);
            if n > 0 {
                assert(all[0] == l.frames[0]);
            } else {
                assert(all[0] == loaded[0]);
            }
        }
        frames_must_have_one_size(l.frames, loaded, file.shown@);
        let next = l.fed(bytes)->Ok_0;
        assert(next.frames + rest =~= all);
        lemma_even_completes(next, contents, all);
    }
}

/// A file is read as its extension says: what can be opened is read as a TIFF file or as a
/// `.npy` file, `.tif` and `.tiff` alike, and every other file is refused by its extension.
pub proof fn extensions_tell_the_format<S: Scalar>(
    a: SourcePath,
    b: SourcePath,
    bytes: Seq<u8>,
)
    requires
        a.shown@ == b.shown@,
        ext_spec(a) == "tif"@,
        ext_spec(b) == "tiff"@,
    ensures
        file_spec::<S>(a, bytes) == file_spec::<S>(b, bytes),
        supported_spec(ext_spec(a)) && supported_spec(ext_spec(b)) && supported_spec("npy"@),
{
}

/// A file that cannot be opened for its extension is refused as such, and no other is.
pub proof fn other_extensions_are_refused<S: Scalar>(file: SourcePath, bytes: Seq<u8>)
    ensures
        !supported_spec(ext_spec(file)) ==> file_spec::<S>(file, bytes) == Err::<
            Seq<FrameView<S>>,
            Fault,
        >(Fault::Unsupported { extension: ext_spec(file), file: file.shown@ }),
        supported_spec(ext_spec(file)) <==> ext_spec(file) == "tif"@ || ext_spec(file) == "tiff"@
            || ext_spec(file) == "npy"@,
{
}

/// Listing a folder finds the files in it that can be opened, each once and in the order in
/// which they are listed, and nothing else.
pub proof fn a_folder_is_searched_for_images(entries: Seq<FolderEntry>, n: int)
    requires
        0 <= n <= entries.len(),
        n <= usize::MAX,
    ensures
        forall|i: int|
            0 <= i < n ==> (#[trigger] listed_places(entries, n).contains(i as usize) <==> entries[i].is_file
                && supported_spec(ext_spec(entries[i].path))),
        forall|k: int| 0 <= k < listed_places(entries, n).len() ==> #[trigger] listed_places(
            entries,
            n,
        )[k] < n,
        forall|j: int, k: int|
            0 <= j < k < listed_places(entries, n).len() ==> #[trigger] listed_places(entries, n)[j]
                < #[trigger] listed_places(entries, n)[k],
    decreases n,
{
    if n > 0 {
        a_folder_is_searched_for_images(entries, n - 1);
        let front = listed_places(entries, n - 1);
        let all = listed_places(entries, n);
        assert forall|i: int| 0 <= i < n implies (#[trigger] all.contains(i as usize)
            <==> entries[i].is_file && supported_spec(ext_spec(entries[i].path))) by {
            if i < n - 1 {
                assert(front.contains(i as usize) <==> listed(entries[i]));
                if front.contains(i as usize) {
                    let k = choose|k: int| 0 <= k < front.len() && front[k] == i as usize;
                    assert(all[k] == i as usize);
                }
                if all.contains(i as usize) {
                    let k = choose|k: int| 0 <= k < all.len() && all[k] == i as usize;
                    assert(front[k] == i as usize);
                }
            } else {
                if listed(entries[i]) {
                    assert(all[all.len() - 1] == i as usize);
                }
                if all.contains(i as usize) && !listed(entries[i]) {
                    let k = choose|k: int| 0 <= k < all.len() && all[k] == i as usize;
                    assert(front[k] < n - 1);
                }
            }
        }
    }
}

/// The pixel in row `y` and column `x` of a 2-D array is the value with those indices, and of
/// the `k`-th frame of a 3-D array the one in the `k`-th plane.
pub proof fn frames_show_the_array<S: Scalar>(
    shape: Seq<usize>,
    samples: Seq<Sample>,
    k: int,
    y: int,
    x: int,
)
    requires
        samples.len() == shape_len(shape),
        0 <= k,
        0 <= y,
        0 <= x,
    ensures
        shape.len() == 2 && y < shape[0] && x < shape[1] ==> {
            let frames = array_spec::<S>(shape, samples)->0;
            &&& array_spec::<S>(shape, samples) is Some
            &&& frames.len() == 1
            &&& frames[0].height == shape[0] && frames[0].width == shape[1]
            &&& frames[0].at(y, x) == S::of_sample_spec(samples[y * shape[1] + x])
        },
        shape.len() == 3 && k < shape[0] && y < shape[1] && x < shape[2] ==> {
            let frames = array_spec::<S>(shape, samples)->0;
            &&& array_spec::<S>(shape, samples) is Some
            &&& frames.len() == shape[0]
            &&& frames[k].height == shape[1] && frames[k].width == shape[2]
            &&& frames[k].at(y, x) == S::of_sample_spec(samples[(k * shape[1] + y) * shape[2] + x])
        },
        shape.len() != 2 && shape.len() != 3 ==> array_spec::<S>(shape, samples) is None,
{
    if shape.len() == 2 && y < shape[0] && x < shape[1] {
        reveal_with_fuel(shape_len, 3);
        let front = shape.drop_last();
        assert(front.drop_last() =~= Seq::empty());
        assert(front.last() == shape[0] && shape.last() == shape[1]);
        assert(shape_len(front) == shape[0]);
        assert(shape_len(shape) == shape[0] * shape[1]);
        pixel_is_inside(shape[0] as int, shape[1] as int, y, x);
    }
    if shape.len() == 3 && k < shape[0] && y < shape[1] && x < shape[2] {
        reveal_with_fuel(shape_len, 4);
        let (d, h, w) = (shape[0] as int, shape[1] as int, shape[2] as int);
        let front = shape.drop_last();
        let head = front.drop_last();
        assert(head.drop_last() =~= Seq::empty());
        assert(head.last() == shape[0] && front.last() == shape[1] && shape.last() == shape[2]);
        assert(shape_len(head) == d);
        assert(shape_len(front) == d * h);
        assert(shape_len(shape) == (d * h) * w);
        assert((d * h) * w == d * (h * w)) by (nonlinear_arith);
        planes_show_the_array::<S>(samples, d, h, w, k, y, x);
    }
}

/// A buffer that holds neither one value for each pixel nor the same number of several is
/// refused, and the reason tells how many it holds.
pub proof fn odd_buffers_are_refused<S>(values: Seq<S>, w: int, h: int)
    requires
        w > 0,
        h > 0,
        values.len() as int % (w * h) != 0,
    ensures
        frame_spec(values, w, h) == Err::<FrameView<S>, Fault>(
            Fault::PixelCount { count: values.len() as int, width: w, height: h },
        ),
{
    assert(w * h > 0) by (nonlinear_arith)
        requires
            w > 0,
            h > 0,
    ;
    if values.len() == w * h {
        vstd::arithmetic::div_mod::lemma_mod_self_0(w * h);
    }
}

/// A whole value of an image file is the number that it says.
pub proof fn whole_values_are_kept(v: u64, s: i64)
    requires
        v <= 0x7fff_ffff_ffff,
        -0x7fff_ffff_ffff <= s <= 0x7fff_ffff_ffff,
    ensures
        Fixed::of_sample_spec(Sample::Unsigned(v)).steps == v * 65536,
        Fixed::of_sample_spec(Sample::Signed(s)).steps == s * 65536,
{
}

/// The number that decimal digits stand for.
pub open spec fn number_of(text: Seq<char>) -> int
    decreases text.len(),
{
    if text.len() == 0 {
        0
    } else {
        10 * number_of(text.drop_last()) + (text.last() as u32 - 48)
    }
}

/// A number that is written out reads as the number, and is written with digits only.
pub proof fn a_written_number_reads_as_itself(n: nat)
    ensures
        number_of(decimal(n)) == n,
        decimal(n).len() > 0,
        forall|i: int| 0 <= i < decimal(n).len() ==> '0' <= #[trigger] decimal(n)[i] <= '9',
    decreases n,
{
    if n < 10 {
        assert(decimal(n).drop_last() =~= Seq::empty());
        reveal_with_fuel(number_of, 2);
    } else {
        a_written_number_reads_as_itself(n / 10);
        assert(decimal(n).drop_last() =~= decimal(n / 10));
        assert(decimal(n).last() == digit((n % 10) as int));
    }
}

/// A `.npy` file that holds values of one of the common kinds is read as these: a 2-D array of any
/// of the ten, a 3-D array of any but truth values.
pub proof fn every_common_kind_is_read<S: Scalar>(
    bytes: Seq<u8>,
    file: Seq<char>,
    shape: Seq<usize>,
    kind: Element,
    samples: Seq<Sample>,
)
    requires
        npy_header_is_flat(bytes),
        npy_shape(bytes) == Some(shape),
        shape_fits(shape, bytes.len()),
        shape.len() == 2 || shape.len() == 3 && kind !is Bool,
        npy_values(bytes, kind) == Some(samples),
        forall|other: Element| other != kind ==> #[trigger] npy_values(bytes, other) is None,
    ensures
        npy_spec::<S>(bytes, file) == Ok::<Seq<FrameView<S>>, Fault>(
            array_spec::<S>(shape, samples)->0,
        ),
{
    let kinds = kinds_for(shape.len());
    let k: int = match kind {
        Element::Single => 0,
        Element::Double => 1,
        Element::U8 => 2,
        Element::U16 => 3,
        Element::I16 => 4,
        Element::U32 => 5,
        Element::I32 => 6,
        Element::U64 => 7,
        Element::I64 => 8,
        Element::Bool => 9,
    };
    assert(kinds[k] == kind);
    assert forall|i: int| 0 <= i < k implies #[trigger] kinds[i] != kind by {
    }
    lemma_first_values(bytes, kinds, 0, k);
}

/// The first kind that the file can be read as is found.
proof fn lemma_first_values(bytes: Seq<u8>, kinds: Seq<Element>, i: int, k: int)
    requires
        0 <= i <= k < kinds.len(),
        npy_values(bytes, kinds[k]) is Some,
        forall|j: int| i <= j < k ==> npy_values(bytes, #[trigger] kinds[j]) is None,
    ensures
        first_values(bytes, kinds, i) == npy_values(bytes, kinds[k]),
    decreases k - i,
{
    if i < k {
        assert(npy_values(bytes, kinds[i]) is None);
        lemma_first_values(bytes, kinds, i + 1, k);
    }
}

/// With no file there is nothing to load, and files without a frame make no stack.
pub proof fn a_stack_needs_a_frame<S: Scalar>(paths: Seq<SourcePath>, contents: Seq<Vec<u8>>)
    ensures
        paths.len() == 0 ==> load_spec::<S>(paths, contents) == Err::<StackView<S>, Fault>(
            Fault::NoFiles,
        ),
        paths.len() > 0 && (forall|i: int|
            0 <= i < sorted(paths).len() ==> file_spec::<S>(
                #[trigger] sorted(paths)[i],
                contents[sorted(paths)[i].index as int]@,
            ) is Ok) && frames_from::<S>(sorted(paths), contents, 0).len() == 0 ==> load_spec::<S>(
            paths,
            contents,
        ) == Err::<StackView<S>, Fault>(Fault::NoFrames),
{
    let l = LoaderView::<S>::started(paths);
    if paths.len() > 0 && (forall|i: int|
        0 <= i < sorted(paths).len() ==> file_spec::<S>(
            #[trigger] sorted(paths)[i],
            contents[sorted(paths)[i].index as int]@,
        ) is Ok) && frames_from::<S>(sorted(paths), contents, 0).len() == 0 {
        assert(l.frames + frames_from::<S>(l.files, contents, 0) =~= Seq::empty());
        lemma_even_completes(l, contents, Seq::empty());
        lemma_completed(l, contents);
    }
}

/// A number doubled a number of times is it times a power of two, and halved it is that power's
/// quotient, rounded down.
proof fn lemma_scaled(m: int, shift: int)
    requires
        0 <= m,
        shift >= 0 ==> m * pow2(shift as nat) <= i64::MAX,
        shift < 0 ==> m <= i64::MAX,
    ensures
        shift >= 0 ==> scaled(m, shift) == m * pow2(shift as nat),
        shift < 0 ==> ({
            let p = pow2((-shift) as nat);
            scaled(m, shift) * p <= m < scaled(m, shift) * p + p
        }),
        scaled(m, shift) >= 0,
    decreases
            if shift < 0 {
                -shift
            } else {
                shift
            },
{
    vstd::arithmetic::power2::lemma2_to64();
    if shift > 0 {
        vstd::arithmetic::power2::lemma_pow2_unfold(shift as nat);
        vstd::arithmetic::power2::lemma_pow2_pos((shift - 1) as nat);
        let p = pow2((shift - 1) as nat) as int;
        assert(m * (2 * p) == (2 * m) * p) by (nonlinear_arith);
        assert(m <= (2 * m) * p) by (nonlinear_arith)
            requires
                m >= 0,
                p >= 1,
        ;
        lemma_scaled(2 * m, shift - 1);
    } else if shift < 0 {
        let p = pow2((-shift - 1) as nat) as int;
        vstd::arithmetic::power2::lemma_pow2_unfold((-shift) as nat);
        vstd::arithmetic::power2::lemma_pow2_pos((-shift - 1) as nat);
        if shift == -1 {
            assert((m / 2) * pow2(0) == m / 2) by (nonlinear_arith)
                requires
                    pow2(0) == 1,
            ;
        }
        lemma_scaled(m / 2, shift + 1);
        let s = scaled(m / 2, shift + 1);
        assert(scaled(m, shift) == s);
        assert(s * (2 * p) == 2 * (s * p)) by (nonlinear_arith);
        if shift == -1 {
            assert(s == m / 2);
            assert(s * 2 <= m < s * 2 + 2);
        }
    } else {
        assert(m * 1 == m);
    }
}

/// A single-precision value of an image file is the number that it says: its fraction with a
/// leading one, times a power of two, where that is in range; what is finer than a step is cut
/// off towards zero.
pub proof fn single_precision_values_are_kept(negative: bool, exponent: int, fraction: int)
    requires
        0 < exponent < 255,
        0 <= fraction < 0x80_0000,
        exponent >= 134 ==> (0x80_0000 + fraction) * pow2((exponent - 134) as nat) <= i64::MAX,
    ensures
        ({
            let sign: int = if negative {
                0x8000_0000
            } else {
                0
            };
            let bits = (sign + exponent * 0x80_0000 + fraction) as u32;
            let v = Fixed::of_sample_spec(Sample::Single(bits)).steps as int;
            let m = 0x80_0000 + fraction;
            &&& exponent >= 134 ==> size_of(v) == m * pow2((exponent - 134) as nat)
            &&& exponent < 134 ==> {
                let p = pow2((134 - exponent) as nat);
                size_of(v) * p <= m < size_of(v) * p + p
            }
            &&& v < 0 ==> negative
            &&& v > 0 ==> !negative
        }),
{
    let sign: int = if negative {
        0x8000_0000
    } else {
        0
    };
    let n = sign + exponent * 0x80_0000 + fraction;
    assert(0 <= n <= u32::MAX);
    let bits = n as u32;
    assert((bits / 0x80_0000) as int % 0x100 == exponent);
    assert(bits as int % 0x80_0000 == fraction);
    lemma_scaled(0x80_0000 + fraction, exponent - 134);
    let s = scaled(0x80_0000 + fraction, exponent - 134);
    if exponent < 134 {
        let p = pow2((134 - exponent) as nat) as int;
        vstd::arithmetic::power2::lemma_pow2_pos((134 - exponent) as nat);
        assert(s <= s * p) by (nonlinear_arith)
            requires
                s >= 0,
                p >= 1,
        ;
    }
}

} // verus!

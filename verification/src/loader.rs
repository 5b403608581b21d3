//! Loading a stack of images from TIFF and NumPy `.npy` files.
//!
//! A stack can come from several single-image files, from a multi-page TIFF
//! (each page is a frame), from a 2-D `.npy` array (one frame) or from a 3-D
//! `.npy` array (one frame per plane along axis 0). Every frame becomes a grid
//! of numbers, row by row, whatever the file held.
//!
//! [`Loader`] takes the files one after the other, so that the caller reads
//! each of them only when its turn comes.

use vstd::prelude::*;

use crate::formats::{
    frames_agree, load_npy, load_tiff, npy_spec, pages_frames, pages_spec, tiff_spec, Page,
};
use crate::frame::{views, Fault, Frame, FrameView, LoadError};
use crate::mask::fits;
use crate::paths::{
    ext_of, ext_spec, sort_paths, sorted, sorted_holds_the_same, supported, supported_spec, SourcePath,
};
use crate::scalar::Scalar;
use crate::text::text_is;

verus! {

/// The frames of a file, as its extension tells it to be read.
pub open spec fn file_spec<S: Scalar>(file: SourcePath, bytes: Seq<u8>) -> Result<
    Seq<FrameView<S>>,
    Fault,
> {
    let ext = ext_spec(file);
    if ext == "tif"@ || ext == "tiff"@ {
        tiff_spec(bytes, file.shown@)
    } else if ext == "npy"@ {
        npy_spec(bytes, file.shown@)
    } else {
        Err(Fault::Unsupported { extension: ext, file: file.shown@ })
    }
}

/// The frames of a file, as its extension tells it to be read.
fn load_file<S: Scalar>(file: &SourcePath, bytes: &Vec<u8>) -> (r: Result<Vec<Frame<S>>, LoadError>)
    ensures
        frames_agree(r, file_spec::<S>(*file, bytes@)),
{
    let ext = ext_of(file);
    if text_is(&ext, "tif") || text_is(&ext, "tiff") {
        load_tiff(bytes, &file.shown)
    } else if text_is(&ext, "npy") {
        load_npy(bytes, &file.shown)
    } else {
        Err(LoadError::Unsupported { extension: ext, file: file.shown.as_str().to_owned() })
    }
}

/// The frames with those of a file, from the `i`-th on, behind them. All must
/// have the size of the first.
pub open spec fn joined<S>(
    frames: Seq<FrameView<S>>,
    loaded: Seq<FrameView<S>>,
    file: Seq<char>,
    i: int,
) -> Result<Seq<FrameView<S>>, Fault>
    decreases loaded.len() - i,
{
    if i < 0 || i >= loaded.len() {
        Ok(frames)
    } else if frames.len() > 0 && (loaded[i].height != frames[0].height || loaded[i].width
        != frames[0].width) {
        Err(
            Fault::SizeMismatch {
                width: loaded[i].width,
                height: loaded[i].height,
                file,
                first_width: frames[0].width,
                first_height: frames[0].height,
            },
        )
    } else {
        joined(frames.push(loaded[i]), loaded, file, i + 1)
    }
}

/// All frames are whole and of one size.
pub open spec fn even<S>(frames: Seq<FrameView<S>>) -> bool {
    forall|i: int|
        0 <= i < frames.len() ==> (#[trigger] frames[i]).wf() && frames[i].height
            == frames[0].height && frames[i].width == frames[0].width
}

/// A stack of images that is being loaded, file by file.
pub struct Loader<S> {
    /// The files in the order in which they are loaded.
    pub files: Vec<SourcePath>,
    /// How many of them are loaded.
    pub done: usize,
    pub frames: Vec<Frame<S>>,
    /// The place in `files` that each frame came from.
    pub sources: Vec<usize>,
}

/// The state of a [`Loader`].
#[verifier::ext_equal]
pub ghost struct LoaderView<S> {
    pub files: Seq<SourcePath>,
    pub done: int,
    pub frames: Seq<FrameView<S>>,
    pub sources: Seq<usize>,
}

impl<S: Scalar> LoaderView<S> {
    /// The frames are whole and of one size; each has a source, which is loaded;
    /// and they stand in the order of the files.
    pub open spec fn wf(self) -> bool {
        &&& 0 <= self.done <= self.files.len()
        &&& self.frames.len() == self.sources.len()
        &&& even(self.frames)
        &&& forall|i: int| 0 <= i < self.sources.len() ==> (#[trigger] self.sources[i]) < self.done
        &&& forall|i: int, j: int|
            0 <= i < j < self.sources.len() ==> #[trigger] self.sources[i]
                <= #[trigger] self.sources[j]
    }

    /// Nothing loaded yet of the given files.
    pub open spec fn started(paths: Seq<SourcePath>) -> LoaderView<S> {
        LoaderView { files: sorted(paths), done: 0, frames: Seq::empty(), sources: Seq::empty() }
    }

    /// The next file loaded, which holds the given frames.
    pub open spec fn with_frames(self, loaded: Seq<FrameView<S>>) -> Result<LoaderView<S>, Fault> {
        match joined(self.frames, loaded, self.files[self.done].shown@, 0) {
            Err(fault) => Err(fault),
            Ok(frames) => Ok(
                LoaderView {
                    files: self.files,
                    done: self.done + 1,
                    frames,
                    sources: self.sources + Seq::new(loaded.len(), |i: int| self.done as usize),
                },
            ),
        }
    }

    /// The next file loaded, which holds the given bytes.
    pub open spec fn fed(self, bytes: Seq<u8>) -> Result<LoaderView<S>, Fault> {
        match file_spec::<S>(self.files[self.done], bytes) {
            Err(fault) => Err(fault),
            Ok(loaded) => self.with_frames(loaded),
        }
    }

    /// The next file loaded, which holds the given pages.
    pub open spec fn fed_pages(self, pages: Seq<Page>) -> Result<LoaderView<S>, Fault> {
        match pages_spec::<S>(pages, pages.len() as int) {
            Err(fault) => Err(fault),
            Ok(loaded) => self.with_frames(loaded),
        }
    }

    /// The stack, if there is a frame.
    pub open spec fn finished(self) -> Result<StackView<S>, Fault> {
        if self.frames.len() == 0 {
            Err(Fault::NoFrames)
        } else {
            Ok(
                StackView {
                    frames: self.frames,
                    width: self.frames[0].width,
                    height: self.frames[0].height,
                    sources: self.sources,
                    files: self.files,
                },
            )
        }
    }

    /// All files loaded that are left, which hold the bytes in `contents`.
    pub open spec fn completed(self, contents: Seq<Vec<u8>>) -> Result<LoaderView<S>, Fault>
        decreases self.files.len() - self.done,
    {
        if self.done < 0 || self.done >= self.files.len() {
            Ok(self)
        } else {
            match self.fed(contents[self.files[self.done].index as int]@) {
                Err(fault) => Err(fault),
                Ok(next) => next.completed(contents),
            }
        }
    }

    /// How far loading has come after each file: the number of files loaded, and
    /// the number of all.
    pub open spec fn progress(self, contents: Seq<Vec<u8>>) -> Seq<(usize, usize)>
        decreases self.files.len() - self.done,
    {
        if self.done < 0 || self.done >= self.files.len() {
            Seq::empty()
        } else {
            match self.fed(contents[self.files[self.done].index as int]@) {
                Err(fault) => Seq::empty(),
                Ok(next) => seq![(next.done as usize, self.files.len() as usize)] + next.progress(
                    contents,
                ),
            }
        }
    }
}

impl<S: Scalar> View for Loader<S> {
    type V = LoaderView<S>;

    open spec fn view(&self) -> LoaderView<S> {
        LoaderView {
            files: self.files@,
            done: self.done as int,
            frames: views(self.frames@),
            sources: self.sources@,
        }
    }
}

/// An in-memory stack of equally-sized frames.
#[derive(Debug)]
pub struct ImageStack<S> {
    pub frames: Vec<Frame<S>>,
    pub width: usize,
    pub height: usize,
    /// For each frame, the place in `files` of the file that it came from.
    pub sources: Vec<usize>,
    /// The files, in the order in which they were loaded.
    pub files: Vec<SourcePath>,
}

/// An [`ImageStack`] as mathematics sees it.
#[verifier::ext_equal]
pub ghost struct StackView<S> {
    pub frames: Seq<FrameView<S>>,
    pub width: int,
    pub height: int,
    pub sources: Seq<usize>,
    pub files: Seq<SourcePath>,
}

impl<S: Scalar> StackView<S> {
    /// All frames are whole and of the stack's size, which an array can have.
    pub open spec fn uniform(self) -> bool {
        &&& 0 <= self.height
        &&& 0 <= self.width
        &&& fits(self.height, self.width)
        &&& forall|i: int|
            0 <= i < self.frames.len() ==> (#[trigger] self.frames[i]).wf() && self.frames[i].height
                == self.height && self.frames[i].width == self.width
    }

    /// There is a frame; all are whole and of the stack's size; each has a source.
    pub open spec fn wf(self) -> bool {
        &&& self.uniform()
        &&& self.frames.len() > 0
        &&& self.sources.len() == self.frames.len()
        &&& forall|i: int|
            0 <= i < self.sources.len() ==> (#[trigger] self.sources[i]) < self.files.len()
    }
}

impl<S: Scalar> View for ImageStack<S> {
    type V = StackView<S>;

    open spec fn view(&self) -> StackView<S> {
        StackView {
            frames: views(self.frames@),
            width: self.width as int,
            height: self.height as int,
            sources: self.sources@,
            files: self.files@,
        }
    }
}

impl<S: Scalar> ImageStack<S> {
    /// The number of frames.
    pub fn n_frames(&self) -> (r: usize)
        ensures
            r == self@.frames.len(),
    {
        self.frames.len()
    }
}

/// Frames that are joined are those of both, in this order.
pub proof fn joined_keeps_all<S>(
    frames: Seq<FrameView<S>>,
    loaded: Seq<FrameView<S>>,
    file: Seq<char>,
    i: int,
)
    requires
        0 <= i <= loaded.len(),
    ensures
        match joined(frames, loaded, file, i) {
            Ok(all) => all == frames + loaded.skip(i),
            Err(fault) => fault is SizeMismatch,
        },
        joined(frames, loaded, file, i) is Ok && even(frames) && (forall|k: int|
            0 <= k < loaded.len() ==> (#[trigger] loaded[k]).wf()) ==> even(
            joined(frames, loaded, file, i)->Ok_0,
        ),
    decreases loaded.len() - i,
{
    if i < loaded.len() {
        let next = frames.push(loaded[i]);
        joined_keeps_all(next, loaded, file, i + 1);
        assert(next + loaded.skip(i + 1) =~= frames + loaded.skip(i));
    } else {
        assert(frames + loaded.skip(i) =~= frames);
    }
}

/// Loading a file keeps the state well formed.
pub proof fn loading_keeps_wf<S: Scalar>(l: LoaderView<S>, loaded: Seq<FrameView<S>>)
    requires
        l.wf(),
        l.done < l.files.len(),
        l.files.len() <= usize::MAX,
        forall|k: int| 0 <= k < loaded.len() ==> (#[trigger] loaded[k]).wf(),
    ensures
        l.with_frames(loaded) matches Ok(next) ==> next.wf(),
{
    joined_keeps_all(l.frames, loaded, l.files[l.done].shown@, 0);
    assert(loaded.skip(0) =~= loaded);
}

impl<S: Scalar> Loader<S> {
    /// Starts to load the files, in sorted order.
    pub fn new(paths: Vec<SourcePath>) -> (r: Result<Loader<S>, LoadError>)
        ensures
            match r {
                Ok(l) => paths@.len() > 0 && l@ == LoaderView::<S>::started(paths@) && l@.wf(),
                Err(e) => paths@.len() == 0 && e@ == Fault::NoFiles,
            },
    {
        if paths.len() == 0 {
            return Err(LoadError::NoFiles);
        }
        let l = Loader { files: sort_paths(paths), done: 0, frames: Vec::new(), sources: Vec::new() };
        assert(l@ =~= LoaderView::<S>::started(paths@));
        Ok(l)
    }

    /// The place, among the paths that were asked for, of the file to read next.
    /// There is none when all are loaded. A file that cannot be opened for its
    /// extension is not read at all.
    pub fn next_file(&self) -> (r: Result<Option<usize>, LoadError>)
        ensures
            match r {
                Ok(None) => self@.done >= self@.files.len(),
                Ok(Some(i)) => self@.done < self@.files.len() && supported_spec(
                    ext_spec(self@.files[self@.done]),
                ) && i == self@.files[self@.done].index,
                Err(e) => self@.done < self@.files.len() && !supported_spec(
                    ext_spec(self@.files[self@.done]),
                ) && forall|bytes: Seq<u8>| #[trigger]
                    self@.fed(bytes) == Err::<LoaderView<S>, Fault>(e@),
            },
    {
        if self.done >= self.files.len() {
            return Ok(None);
        }
        let file = &self.files[self.done];
        let ext = ext_of(file);
        if supported(&ext) {
            Ok(Some(file.index))
        } else {
            Err(LoadError::Unsupported { extension: ext, file: file.shown.as_str().to_owned() })
        }
    }

    /// Loads the next file, which holds the given bytes. Returns the number of
    /// files loaded and the number of all.
    pub fn feed(&mut self, bytes: &Vec<u8>) -> (r: Result<(usize, usize), LoadError>)
        requires
            old(self)@.wf(),
            old(self)@.done < old(self)@.files.len(),
        ensures
            final(self)@.wf(),
            match r {
                Ok(n) => old(self)@.fed(bytes@) == Ok::<LoaderView<S>, Fault>(final(self)@) && n.0
                    == final(self)@.done && n.1 == final(self)@.files.len(),
                Err(e) => old(self)@.fed(bytes@) == Err::<LoaderView<S>, Fault>(e@) && final(self)@
                    == old(self)@,
            },
    {
        match load_file::<S>(&self.files[self.done], bytes) {
            Ok(loaded) => self.join(loaded),
            Err(e) => Err(e),
        }
    }

    /// Loads the next file, which holds the given pages. This is for a TIFF file
    /// that [`Loader::feed`] refuses as unsupported, and that the caller decodes.
    /// Returns the number of files loaded and the number of all.
    pub fn feed_pages(&mut self, pages: &Vec<Page>) -> (r: Result<(usize, usize), LoadError>)
        requires
            old(self)@.wf(),
            old(self)@.done < old(self)@.files.len(),
        ensures
            final(self)@.wf(),
            match r {
                Ok(n) => old(self)@.fed_pages(pages@) == Ok::<LoaderView<S>, Fault>(final(self)@)
                    && n.0 == final(self)@.done && n.1 == final(self)@.files.len(),
                Err(e) => old(self)@.fed_pages(pages@) == Err::<LoaderView<S>, Fault>(e@)
                    && final(self)@ == old(self)@,
            },
    {
        match pages_frames::<S>(pages) {
            Ok(loaded) => self.join(loaded),
            Err(e) => Err(e),
        }
    }

    /// Puts the frames of the next file behind those that are there.
    fn join(&mut self, loaded: Vec<Frame<S>>) -> (r: Result<(usize, usize), LoadError>)
        requires
            old(self)@.wf(),
            old(self)@.done < old(self)@.files.len(),
            forall|i: int| 0 <= i < loaded@.len() ==> (#[trigger] loaded@[i])@.wf(),
        ensures
            final(self)@.wf(),
            match r {
                Ok(n) => old(self)@.with_frames(views(loaded@)) == Ok::<LoaderView<S>, Fault>(
                    final(self)@,
                ) && n.0 == final(self)@.done && n.1 == final(self)@.files.len(),
                Err(e) => old(self)@.with_frames(views(loaded@)) == Err::<LoaderView<S>, Fault>(e@)
                    && final(self)@ == old(self)@,
            },
    {
        let mut added = loaded;
        let ghost before = self@;
        let total: usize = self.files.len();
        let file = &self.files[self.done];
        let ghost name = file.shown@;
        let ghost new = views(loaded@);
        proof {
            assert forall|k: int| 0 <= k < new.len() implies (#[trigger] new[k]).wf() by {
                assert(loaded@[k]@.wf());
            }
            loading_keeps_wf(before, new);
        }
        let n: usize = added.len();
        let mut i: usize = 0;
        assert(before.frames + new.take(0) =~= before.frames);
        while i < n
            invariant
                self@ == before,
                before.wf(),
                before.done < before.files.len(),
                file == before.files[before.done],
                name == file.shown@,
                new == views(added@),
                new == views(loaded@),
                n == new.len(),
                i <= n,
                joined(before.frames, new, name, 0) == joined(
                    before.frames + new.take(i as int),
                    new,
                    name,
                    i as int,
                ),
            decreases n - i,
        {
            let first = if self.frames.len() > 0 {
                &self.frames[0]
            } else {
                &added[0]
            };
            let frame = &added[i];
            proof {
                assert(frame@ == new[i as int]);
                let have = before.frames + new.take(i as int);
                if have.len() > 0 {
                    assert(have[0] == first@);
                } else {
                    assert(frame@ == first@);
                }
                assert(have.push(new[i as int]) =~= before.frames + new.take(i + 1));
            }
            if frame.height != first.height || frame.width != first.width {
                return Err(
                    LoadError::SizeMismatch {
                        width: frame.width,
                        height: frame.height,
                        file: file.shown.as_str().to_owned(),
                        first_width: first.width,
                        first_height: first.height,
                    },
                );
            }
            i = i + 1;
        }
        assert(new.take(n as int) =~= new);
        let mut k: usize = 0;
        while k < n
            invariant
                k <= n,
                self.files@ == before.files,
                self.done == before.done,
                views(self.frames@) == before.frames,
                self.sources@ == before.sources + Seq::new(k as nat, |i: int| before.done as usize),
            decreases n - k,
        {
            self.sources.push(self.done);
            k = k + 1;
            assert(self.sources@ =~= before.sources + Seq::new(
                k as nat,
                |i: int| before.done as usize,
            ));
        }
        self.frames.append(&mut added);
        assert(views(self.frames@) =~= before.frames + new);
        self.done = self.done + 1;
        Ok((self.done, total))
    }

    /// The stack of all frames that were loaded.
    pub fn finish(self) -> (r: Result<ImageStack<S>, LoadError>)
        requires
            self@.wf(),
        ensures
            match r {
                Ok(stack) => self@.finished() == Ok::<StackView<S>, Fault>(stack@) && stack@.wf(),
                Err(e) => self@.finished() == Err::<StackView<S>, Fault>(e@),
            },
    {
        if self.frames.len() == 0 {
            return Err(LoadError::NoFrames);
        }
        let width: usize = self.frames[0].width;
        let height: usize = self.frames[0].height;
        assert(self@.frames[0] == self.frames@[0]@);
        assert(self@.frames[0].wf());
        let ghost l = self@;
        let stack = ImageStack {
            frames: self.frames,
            width,
            height,
            sources: self.sources,
            files: self.files,
        };
        assert(stack@ =~= l.finished()->Ok_0);
        Ok(stack)
    }
}

/// The outcome of loading files that hold the bytes in `contents`.
pub open spec fn load_spec<S: Scalar>(paths: Seq<SourcePath>, contents: Seq<Vec<u8>>) -> Result<
    StackView<S>,
    Fault,
> {
    if paths.len() == 0 {
        Err(Fault::NoFiles)
    } else {
        match LoaderView::<S>::started(paths).completed(contents) {
            Ok(l) => l.finished(),
            Err(fault) => Err(fault),
        }
    }
}

/// Load and concatenate every frame contained in the files, in sorted order.
/// `contents` holds the bytes of each file, at its index.
pub fn load_paths<S: Scalar>(paths: Vec<SourcePath>, contents: &Vec<Vec<u8>>) -> (r: Result<
    ImageStack<S>,
    LoadError,
>)
    requires
        forall|i: int| 0 <= i < paths@.len() ==> (#[trigger] paths@[i]).index < contents@.len(),
    ensures
        match r {
            Ok(stack) => load_spec::<S>(paths@, contents@) == Ok::<StackView<S>, Fault>(stack@)
                && stack@.wf(),
            Err(e) => load_spec::<S>(paths@, contents@) == Err::<StackView<S>, Fault>(e@),
        },
{
    let (stack, _) = load_paths_with_progress(paths, contents);
    stack
}

/// Like [`load_paths`], and returns too how far loading had come after each file:
/// the number of files loaded, and the number of all.
pub fn load_paths_with_progress<S: Scalar>(paths: Vec<SourcePath>, contents: &Vec<Vec<u8>>) -> (r: (
    Result<ImageStack<S>, LoadError>,
    Vec<(usize, usize)>,
))
    requires
        forall|i: int| 0 <= i < paths@.len() ==> (#[trigger] paths@[i]).index < contents@.len(),
    ensures
        match r.0 {
            Ok(stack) => load_spec::<S>(paths@, contents@) == Ok::<StackView<S>, Fault>(stack@)
                && stack@.wf(),
            Err(e) => load_spec::<S>(paths@, contents@) == Err::<StackView<S>, Fault>(e@),
        },
        r.1@ == LoaderView::<S>::started(paths@).progress(contents@),
{
    let mut reports: Vec<(usize, usize)> = Vec::new();
    let ghost start = LoaderView::<S>::started(paths@);
    let mut loader = match Loader::<S>::new(paths) {
        Ok(loader) => loader,
        Err(e) => {
            return (Err(e), reports);
        },
    };
    proof {
        sorted_holds_the_same(paths@);
        assert forall|i: int| 0 <= i < start.files.len() implies (#[trigger] start.files[i]).index
            < contents@.len() by {
            assert(start.files.contains(start.files[i]));
        }
        assert(reports@ + loader@.progress(contents@) =~= start.progress(contents@));
    }
    while loader.done < loader.files.len()
        invariant
            loader@.wf(),
            loader@.files == start.files,
            forall|i: int|
                0 <= i < start.files.len() ==> (#[trigger] start.files[i]).index < contents@.len(),
            loader@.completed(contents@) == start.completed(contents@),
            reports@ + loader@.progress(contents@) == start.progress(contents@),
            start == LoaderView::<S>::started(paths@),
            paths@.len() > 0,
        decreases loader@.files.len() - loader@.done,
    {
        let at: usize = loader.files[loader.done].index;
        let ghost before = loader@;
        match loader.feed(&contents[at]) {
            Err(e) => {
                proof {
                    assert(before.progress(contents@) =~= Seq::empty());
                    assert(reports@ + Seq::<(usize, usize)>::empty() =~= reports@);
                }
                return (Err(e), reports);
            },
            Ok(n) => {
                let ghost made = reports@;
                reports.push(n);
                assert(reports@ + loader@.progress(contents@) =~= made + before.progress(contents@));
            },
        }
    }
    assert(reports@ + loader@.progress(contents@) =~= reports@);
    (loader.finish(), reports)
}

/// What is listed of a folder.
#[derive(Debug)]
pub struct FolderEntry {
    pub path: SourcePath,
    pub is_file: bool,
}

/// The entry is a file that can be opened.
pub open spec fn listed(entry: FolderEntry) -> bool {
    entry.is_file && supported_spec(ext_spec(entry.path))
}

/// The places of the files that can be opened, among the first `n` entries.
pub open spec fn listed_places(entries: Seq<FolderEntry>, n: int) -> Seq<usize>
    decreases n,
{
    if n <= 0 {
        Seq::empty()
    } else if listed(entries[n - 1]) {
        listed_places(entries, n - 1).push((n - 1) as usize)
    } else {
        listed_places(entries, n - 1)
    }
}

/// Collect every supported image file directly inside a folder: the places of
/// those files among its entries, of which there must be one.
pub fn list_supported_in_dir(entries: &Vec<FolderEntry>, folder: &String) -> (r: Result<
    Vec<usize>,
    LoadError,
>)
    ensures
        match r {
            Ok(places) => places@ == listed_places(entries@, entries@.len() as int) && places@.len()
                > 0,
            Err(e) => listed_places(entries@, entries@.len() as int).len() == 0 && e@
                == (Fault::NothingFound { folder: folder@ }),
        },
{
    let mut out: Vec<usize> = Vec::new();
    let mut i: usize = 0;
    while i < entries.len()
        invariant
            i <= entries@.len(),
            out@ == listed_places(entries@, i as int),
        decreases entries@.len() - i,
    {
        let entry = &entries[i];
        if entry.is_file && supported(&ext_of(&entry.path)) {
            out.push(i);
        }
        i = i + 1;
    }
    if out.len() == 0 {
        return Err(LoadError::NothingFound { folder: folder.as_str().to_owned() });
    }
    Ok(out)
}

} // verus!

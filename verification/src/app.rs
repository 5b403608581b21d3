//! The state of the application, and what each command does to it.
//!
//! [`AppView`] is that state as mathematics sees it, with one specification
//! function per command. The executable [`RoiApp`] is proved to do what those
//! say. Windows, files and threads are the caller's.

use vstd::prelude::*;

use crate::app_laws::{
    apply_keeps_wf, clear_keeps_live, interaction_keeps_live, panel_keeps_live, undo_keeps_live,
};
use crate::colormap::Colormap;
use crate::editor::{Editor, EditorView, PointerReport, RowAction};
use crate::handles::{CursorIcon, Placement};
use crate::integrate::{data_range, integrate, integrated, range_of, Integration};
use crate::frame::{Frame, FrameView};
use crate::loader::{ImageStack, StackView};
use crate::mask::{count, count_selected, flattened, Mask};
use crate::paths::{ext_spec, SourcePath};
use crate::picture::{image_pixels, overlay_pixels, paint_image, paint_mask};
use crate::roi::{save_mask, save_spec, SaveError};
use crate::scalar::{ratio, ratio_spec, Scalar};
use crate::selection::{composite, composite_rows};
use crate::text::{decimal, decimal_text};

verus! {

/// How far loading has come.
#[derive(Clone, Copy, PartialEq, Eq, Structural, Debug)]
pub struct Progress {
    pub done: usize,
    pub total: usize,
}

/// The application: the images, how they are shown, and the regions.
pub struct RoiApp<S> {
    pub stack: Option<ImageStack<S>>,
    pub loading: Option<Progress>,
    /// Where the mask goes; with it, saving and leaving is one click.
    pub output_path: Option<SourcePath>,
    /// Another application waits for the mask.
    pub called_from_python: bool,
    pub instructions: Option<String>,
    pub show_instructions: bool,
    /// The mask that the regions are applied to.
    pub initial_mask: Option<Mask>,
    /// The integrated image is shown, and not a single frame.
    pub integrated_view: bool,
    /// The frame that is shown by itself.
    pub frame: usize,
    pub integration: Integration,
    /// The image that is shown.
    pub image: Option<Frame<S>>,
    pub data_min: S,
    pub data_max: S,
    pub vmin: S,
    pub vmax: S,
    pub colormap: Colormap,
    /// The picture of the image is out of date.
    pub img_dirty: bool,
    pub editor: Editor<S>,
    /// The number of selected pixels in the last picture of the mask.
    pub selected_count: usize,
    pub scale: S,
    pub fit_requested: bool,
    /// The pixel under the pointer: column, row and value.
    pub cursor: Option<(usize, usize, S)>,
    pub status: String,
}

/// The state of a [`RoiApp`].
#[verifier::ext_equal]
pub ghost struct AppView<S> {
    pub stack: Option<StackView<S>>,
    pub loading: Option<Progress>,
    pub output_path: Option<SourcePath>,
    pub called_from_python: bool,
    pub instructions: Option<Seq<char>>,
    pub show_instructions: bool,
    pub initial_mask: Option<Mask>,
    pub integrated_view: bool,
    pub frame: int,
    pub integration: Integration,
    pub image: Option<FrameView<S>>,
    pub data_min: S,
    pub data_max: S,
    pub vmin: S,
    pub vmax: S,
    pub colormap: Colormap,
    pub img_dirty: bool,
    pub editor: EditorView<S>,
    pub selected_count: int,
    pub scale: S,
    pub fit_requested: bool,
    pub cursor: Option<(usize, usize, S)>,
    pub status: Seq<char>,
}

/// What the status bar says at the start.
pub open spec fn opening_text(output: Option<SourcePath>, called_from_python: bool) -> Seq<char> {
    match output {
        Some(p) => if called_from_python {
            "Draw the region(s) of interest, then 'Return to main application' writes the mask to "@
                + p.shown@
        } else {
            "Draw the region(s) of interest, then 'Save mask & quit' writes the mask to "@
                + p.shown@
        },
        None => "Open a TIFF stack or a .npy image to begin."@,
    }
}

/// The name of the file that the first frame came from.
pub open spec fn first_name<S>(stack: StackView<S>) -> Seq<char> {
    match stack.files[stack.sources[0] as int].file_name {
        Some(name) => name@,
        None => ""@,
    }
}

/// What the status bar says of a stack that was loaded.
pub open spec fn loaded_text<S>(stack: StackView<S>) -> Seq<char> {
    "Loaded "@ + decimal(stack.frames.len()) + " frame(s), "@ + decimal(stack.width as nat) + "×"@
        + decimal(stack.height as nat) + " px (from "@ + first_name(stack) + " …)."@
}

/// The text, if there is one.
pub open spec fn text_view(text: Option<String>) -> Option<Seq<char>> {
    match text {
        Some(t) => Some(t@),
        None => None,
    }
}

/// The least magnification.
pub open spec fn least_scale<S: Scalar>() -> S {
    ratio_spec::<S>(1, 50)
}

/// The greatest magnification.
pub open spec fn greatest_scale<S: Scalar>() -> S {
    S::of_count_spec(64)
}

/// How much of the loading is done.
pub open spec fn fraction_of<S: Scalar>(p: Progress) -> S {
    if p.total > 0 {
        S::of_count_spec(p.done).over_spec(S::of_count_spec(p.total))
    } else {
        S::of_count_spec(0)
    }
}

/// How much a contrast value changes per point that it is dragged: a two hundredth of the
/// range of the image, and of one where that is less.
pub open spec fn contrast_speed_of<S: Scalar>(lo: S, hi: S) -> S {
    hi.minus_spec(lo).larger_spec(S::of_count_spec(1)).over_spec(S::of_count_spec(200))
}

impl<S: Scalar> AppView<S> {
    /// The number of pixels that the regions select in the image that is shown.
    pub open spec fn live_count(self) -> nat {
        match self.image {
            Some(img) => count_selected(
                flattened(
                    composite_rows(self.editor.rois, self.initial_mask, img.height, img.width),
                ),
            ),
            None => 0,
        }
    }

    /// The parts are well formed; the image that is shown has the size of the
    /// stack; and the count of selected pixels is right unless the picture of the
    /// mask is out of date.
    pub open spec fn wf(self) -> bool {
        &&& self.editor.wf()
        &&& self.stack is Some <==> self.image is Some
        &&& self.stack matches Some(st) ==> st.wf() && 0 <= self.frame < st.frames.len()
        &&& self.image matches Some(img) ==> img.wf() && img.height == self.stack->0.height
            && img.width == self.stack->0.width
        &&& self.initial_mask matches Some(m) ==> m.wf()
        &&& !self.editor.mask_dirty ==> self.selected_count == self.live_count()
    }

    /// The application at its start.
    pub open spec fn opened(
        output_path: Option<SourcePath>,
        called_from_python: bool,
        instructions: Option<Seq<char>>,
        initial_mask: Option<Mask>,
        integrated_view: bool,
    ) -> AppView<S> {
        AppView {
            stack: None,
            loading: None,
            output_path,
            called_from_python,
            instructions,
            show_instructions: instructions is Some,
            initial_mask,
            integrated_view,
            frame: 0,
            integration: Integration::Sum,
            image: None,
            data_min: S::of_count_spec(0),
            data_max: S::of_count_spec(1),
            vmin: S::of_count_spec(0),
            vmax: S::of_count_spec(1),
            colormap: Colormap::Viridis,
            img_dirty: false,
            editor: EditorView::started(),
            selected_count: 0,
            scale: S::of_count_spec(1),
            fit_requested: false,
            cursor: None,
            status: opening_text(output_path, called_from_python),
        }
    }

    /// Loading begun, of `total` files.
    pub open spec fn load_started(self, total: usize) -> AppView<S> {
        if total == 0 {
            self
        } else {
            AppView {
                loading: Some(Progress { done: 0, total }),
                status: "Loading "@ + decimal(total as nat) + " file(s)…"@,
                ..self
            }
        }
    }

    /// Loading gone on.
    pub open spec fn load_progressed(self, progress: Progress) -> AppView<S> {
        AppView {
            loading: if self.loading is Some {
                Some(progress)
            } else {
                None
            },
            ..self
        }
    }

    /// Loading given up.
    pub open spec fn load_failed_spec(self, text: Seq<char>) -> AppView<S> {
        AppView { loading: None, status: "Load failed: "@ + text, ..self }
    }

    /// The image to show of the stack.
    pub open spec fn image_of(self, stack: StackView<S>) -> FrameView<S> {
        if self.integrated_view {
            integrated(stack, self.integration)
        } else {
            stack.frames[self.frame]
        }
    }

    /// The image computed again, and the contrast set to its whole range.
    pub open spec fn recomputed(self) -> AppView<S> {
        match self.stack {
            None => self,
            Some(stack) => {
                let img = self.image_of(stack);
                let (lo, hi) = range_of(img.data);
                AppView {
                    image: Some(img),
                    data_min: lo,
                    data_max: hi,
                    vmin: lo,
                    vmax: hi,
                    img_dirty: true,
                    ..self
                }
            },
        }
    }

    /// A new stack shown, with no region on it.
    pub open spec fn stack_applied(self, stack: StackView<S>) -> AppView<S> {
        AppView {
            fit_requested: true,
            status: loaded_text(stack),
            ..AppView {
                stack: Some(stack),
                frame: 0,
                editor: self.editor.emptied(),
                selected_count: 0,
                ..self
            }.recomputed()
        }
    }

    /// Another way to integrate.
    pub open spec fn integration_chosen(self, method: Integration) -> AppView<S> {
        AppView { integration: method, ..self }.recomputed()
    }

    /// The integrated image shown, or a single frame.
    pub open spec fn view_chosen(self, integrated_view: bool, frame: int) -> AppView<S> {
        AppView { integrated_view, frame, ..self }.recomputed()
    }

    /// Magnified less.
    pub open spec fn zoomed_out(self) -> AppView<S> {
        AppView {
            scale: self.scale.over_spec(ratio_spec(5, 4)).larger_spec(least_scale()),
            ..self
        }
    }

    /// Magnified more.
    pub open spec fn zoomed_in(self) -> AppView<S> {
        AppView {
            scale: self.scale.times_spec(ratio_spec(5, 4)).smaller_spec(greatest_scale()),
            ..self
        }
    }

    /// The magnification that shows the whole image in a window with the given size.
    pub open spec fn fitted(self, avail: (S, S)) -> AppView<S> {
        match self.image {
            Some(img) => if self.fit_requested && img.width > 0 && img.height > 0 {
                AppView {
                    scale: avail.0.over_spec(S::of_count_spec(img.width as usize)).smaller_spec(
                        avail.1.over_spec(S::of_count_spec(img.height as usize)),
                    ).clamped_spec(least_scale(), greatest_scale()),
                    fit_requested: false,
                    ..self
                }
            } else {
                self
            },
            None => self,
        }
    }

    /// The pixel of the image at a screen position.
    pub open spec fn cursor_at(self, place: Placement<S>, hover: Option<(S, S)>) -> Option<
        (usize, usize, S),
    > {
        match (self.image, hover) {
            (Some(img), Some(p)) => {
                let q = place.to_img_spec(p);
                let x = q.0.floor_spec().truncated_spec();
                let y = q.1.floor_spec().truncated_spec();
                if 0 <= x < img.width && 0 <= y < img.height {
                    Some((x as usize, y as usize, img.at(y as int, x as int)))
                } else {
                    None
                }
            },
            _ => None,
        }
    }

    /// Everything that the pointer and the keyboard do over the image.
    pub open spec fn interacted(self, place: Placement<S>, report: PointerReport<S>) -> AppView<S> {
        AppView {
            cursor: self.cursor_at(place, report.hover),
            editor: self.editor.interacted(place, report),
            ..self
        }
    }

    /// There is something to save.
    pub open spec fn can_save_spec(self) -> bool {
        self.image is Some && self.selected_count > 0
    }
}

/// What the toolbar shows.
#[derive(Debug)]
pub struct Toolbar<S> {
    /// Files can be opened.
    pub can_open: bool,
    /// There is more than one frame to integrate.
    pub can_integrate: bool,
    pub integration_text: String,
    pub colormap_text: String,
    /// How much a contrast value changes per point that it is dragged.
    pub contrast_speed: S,
    pub can_undo: bool,
}

/// What the status bar shows besides the status itself.
#[derive(Debug)]
pub struct StatusBar {
    pub can_save: bool,
    /// The button that saves the mask where it is expected, and closes.
    pub finish_label: Option<String>,
    pub finish_hint: Option<String>,
    pub selected_text: String,
    pub rois_text: String,
}

/// What the middle of the window shows.
#[derive(Debug)]
pub enum Viewer<S> {
    Loading { fraction: S, text: String },
    Empty,
    Image { width: usize, height: usize },
}

impl<S: Scalar> View for RoiApp<S> {
    type V = AppView<S>;

    open spec fn view(&self) -> AppView<S> {
        AppView {
            stack: match self.stack {
                Some(st) => Some(st@),
                None => None,
            },
            loading: self.loading,
            output_path: self.output_path,
            called_from_python: self.called_from_python,
            instructions: text_view(self.instructions),
            show_instructions: self.show_instructions,
            initial_mask: self.initial_mask,
            integrated_view: self.integrated_view,
            frame: self.frame as int,
            integration: self.integration,
            image: match self.image {
                Some(img) => Some(img@),
                None => None,
            },
            data_min: self.data_min,
            data_max: self.data_max,
            vmin: self.vmin,
            vmax: self.vmax,
            colormap: self.colormap,
            img_dirty: self.img_dirty,
            editor: self.editor@,
            selected_count: self.selected_count as int,
            scale: self.scale,
            fit_requested: self.fit_requested,
            cursor: self.cursor,
            status: self.status@,
        }
    }
}

/// A copy of an image.
fn copied_frame<S: Scalar>(frame: &Frame<S>) -> (r: Frame<S>)
    ensures
        r@ == frame@,
{
    let mut data: Vec<S> = Vec::new();
    let mut i: usize = 0;
    while i < frame.data.len()
        invariant
            i <= frame.data@.len(),
            data@ == frame.data@.take(i as int),
        decreases frame.data@.len() - i,
    {
        data.push(frame.data[i]);
        i = i + 1;
        assert(data@ =~= frame.data@.take(i as int));
    }
    assert(frame.data@.take(i as int) =~= frame.data@);
    Frame { height: frame.height, width: frame.width, data }
}

impl<S: Scalar> RoiApp<S> {
    /// The application at its start, with the file that the mask goes to, if there is one.
    pub fn new(output_path: Option<SourcePath>) -> (r: RoiApp<S>)
        ensures
            r@ == AppView::<S>::opened(output_path, false, None, None, true),
            r@.wf(),
    {
        Self::with_view(output_path, false, None, None, true)
    }

    /// The application at its start: the file that the mask goes to, whether
    /// another application waits for it, what the user is told, the mask to begin
    /// with, and whether the integrated image is shown or a single frame.
    pub fn with_view(
        output_path: Option<SourcePath>,
        called_from_python: bool,
        instructions: Option<String>,
        initial_mask: Option<Mask>,
        integrated_view: bool,
    ) -> (r: RoiApp<S>)
        requires
            initial_mask matches Some(m) ==> m.wf(),
        ensures
            r@ == AppView::<S>::opened(
                output_path,
                called_from_python,
                text_view(instructions),
                initial_mask,
                integrated_view,
            ),
            r@.wf(),
    {
        let mut status;
        match &output_path {
            Some(p) => {
                status = if called_from_python {
                    "Draw the region(s) of interest, then 'Return to main application' writes the mask to ".to_owned()
                } else {
                    "Draw the region(s) of interest, then 'Save mask & quit' writes the mask to ".to_owned()
                };
                status.append(p.shown.as_str());
            },
            None => {
                status = "Open a TIFF stack or a .npy image to begin.".to_owned();
            },
        }
        let show_instructions = instructions.is_some();
        let r = RoiApp {
            stack: None,
            loading: None,
            output_path,
            called_from_python,
            instructions,
            show_instructions,
            initial_mask,
            integrated_view,
            frame: 0,
            integration: Integration::Sum,
            image: None,
            data_min: S::of_count(0),
            data_max: S::of_count(1),
            vmin: S::of_count(0),
            vmax: S::of_count(1),
            colormap: Colormap::Viridis,
            img_dirty: false,
            editor: Editor::new(),
            selected_count: 0,
            scale: S::of_count(1),
            fit_requested: false,
            cursor: None,
            status,
        };
        assert(r@ =~= AppView::<S>::opened(
            output_path,
            called_from_python,
            text_view(instructions),
            initial_mask,
            integrated_view,
        ));
        r
    }

    /// Notes that loading has begun, of `total` files. Returns whether there is
    /// anything to load.
    pub fn start_load(&mut self, total: usize) -> (r: bool)
        ensures
            final(self)@ == old(self)@.load_started(total),
            r == (total > 0),
            old(self)@.wf() ==> final(self)@.wf(),
    {
        if total == 0 {
            return false;
        }
        self.loading = Some(Progress { done: 0, total });
        let mut status = "Loading ".to_owned();
        status.append(decimal_text(total as u64).as_str());
        status.append(" file(s)…");
        self.status = status;
        assert(self@ =~= old(self)@.load_started(total));
        true
    }

    /// Notes how far loading has come.
    pub fn note_progress(&mut self, done: usize, total: usize)
        ensures
            final(self)@ == old(self)@.load_progressed(Progress { done, total }),
            old(self)@.wf() ==> final(self)@.wf(),
    {
        if self.loading.is_some() {
            self.loading = Some(Progress { done, total });
        }
        assert(self@ =~= old(self)@.load_progressed(Progress { done, total }));
    }

    /// Takes the outcome of loading: a stack, or what is said of the failure.
    pub fn poll_load(&mut self, outcome: Result<ImageStack<S>, String>)
        requires
            outcome matches Ok(stack) ==> stack@.wf(),
        ensures
            match outcome {
                Ok(stack) => final(self)@ == (AppView { loading: None, ..old(self)@ }).stack_applied(
                    stack@,
                ),
                Err(text) => final(self)@ == old(self)@.load_failed_spec(text@),
            },
            old(self)@.wf() ==> final(self)@.wf(),
    {
        let ghost before = self@;
        self.loading = None;
        assert(self@ =~= (AppView { loading: None, ..before }));
        match outcome {
            Ok(stack) => {
                self.apply_stack(stack);
            },
            Err(text) => {
                let mut status = "Load failed: ".to_owned();
                status.append(text.as_str());
                self.status = status;
                assert(self@ =~= before.load_failed_spec(text@));
            },
        }
    }

    /// Shows a new stack, with no region on it.
    pub fn apply_stack(&mut self, stack: ImageStack<S>)
        requires
            stack@.wf(),
        ensures
            final(self)@ == old(self)@.stack_applied(stack@),
            old(self)@.wf() ==> final(self)@.wf(),
    {
        let ghost before = self@;
        let ghost st = stack@;
        let mut status = "Loaded ".to_owned();
        status.append(decimal_text(stack.n_frames() as u64).as_str());
        status.append(" frame(s), ");
        status.append(decimal_text(stack.width as u64).as_str());
        status.append("×");
        status.append(decimal_text(stack.height as u64).as_str());
        status.append(" px (from ");
        assert(stack@.sources[0] < stack@.files.len());
        match &stack.files[stack.sources[0]].file_name {
            Some(name) => {
                status.append(name.as_str());
            },
            None => {
                status.append("");
            },
        }
        status.append(" …).");
        assert(status@ == loaded_text(st));
        self.editor.reset();
        self.selected_count = 0;
        self.stack = Some(stack);
        self.frame = 0;
        let ghost emptied = AppView {
            stack: Some(st),
            frame: 0,
            editor: before.editor.emptied(),
            selected_count: 0,
            ..before
        };
        assert(self@ =~= emptied);
        self.recompute_integration();
        self.fit_requested = true;
        self.status = status;
        assert(self@ =~= before.stack_applied(st));
        proof {
            if before.wf() {
                apply_keeps_wf(before, st);
            }
        }
    }

    /// Computes the image again, and sets the contrast to its whole range.
    pub fn recompute_integration(&mut self)
        requires
            old(self)@.stack matches Some(st) ==> st.wf() && old(self)@.frame < st.frames.len(),
        ensures
            final(self)@ == old(self)@.recomputed(),
            old(self)@.wf() ==> final(self)@.wf(),
    {
        let ghost before = self@;
        let img = match &self.stack {
            None => {
                return ;
            },
            Some(stack) => if self.integrated_view {
                integrate(stack, self.integration)
            } else {
                assert(stack@.frames[self.frame as int] == stack.frames@[self.frame as int]@);
                copied_frame(&stack.frames[self.frame])
            },
        };
        let (lo, hi) = data_range(&img.data);
        self.data_min = lo;
        self.data_max = hi;
        self.vmin = lo;
        self.vmax = hi;
        self.image = Some(img);
        self.img_dirty = true;
        assert(self@ =~= before.recomputed());
        assert(before.wf() ==> before.recomputed().live_count() == before.live_count());
    }

    /// Chooses how frames are integrated.
    pub fn set_integration(&mut self, method: Integration)
        requires
            old(self)@.wf(),
        ensures
            final(self)@ == old(self)@.integration_chosen(method),
            final(self)@.wf(),
    {
        let ghost before = self@;
        self.integration = method;
        assert(self@ =~= (AppView { integration: method, ..before }));
        self.recompute_integration();
    }

    /// Chooses whether the integrated image is shown, or the single frame `frame`.
    pub fn set_view(&mut self, integrated_view: bool, frame: usize)
        requires
            old(self)@.wf(),
            old(self)@.stack matches Some(st) ==> frame < st.frames.len(),
        ensures
            final(self)@ == old(self)@.view_chosen(integrated_view, frame as int),
            final(self)@.wf(),
    {
        let ghost before = self@;
        self.integrated_view = integrated_view;
        self.frame = frame;
        assert(self@ =~= (AppView { integrated_view, frame: frame as int, ..before }));
        self.recompute_integration();
    }

    /// Sets the contrast range.
    pub fn set_contrast(&mut self, vmin: S, vmax: S)
        ensures
            final(self)@ == (AppView { vmin, vmax, img_dirty: true, ..old(self)@ }),
            old(self)@.wf() ==> final(self)@.wf(),
    {
        self.vmin = vmin;
        self.vmax = vmax;
        self.img_dirty = true;
        assert(self@ =~= (AppView { vmin, vmax, img_dirty: true, ..old(self)@ }));
    }

    /// Sets the contrast range to that of the image.
    pub fn auto_contrast(&mut self)
        ensures
            final(self)@ == (AppView {
                vmin: old(self)@.data_min,
                vmax: old(self)@.data_max,
                img_dirty: true,
                ..old(self)@
            }),
            old(self)@.wf() ==> final(self)@.wf(),
    {
        self.set_contrast(self.data_min, self.data_max);
    }

    /// Chooses the colors that the image is shown in.
    pub fn set_colormap(&mut self, colormap: Colormap)
        ensures
            final(self)@ == (AppView { colormap, img_dirty: true, ..old(self)@ }),
            old(self)@.wf() ==> final(self)@.wf(),
    {
        self.colormap = colormap;
        self.img_dirty = true;
        assert(self@ =~= (AppView { colormap, img_dirty: true, ..old(self)@ }));
    }

    /// Magnifies less, down to the least magnification.
    pub fn zoom_out(&mut self)
        ensures
            final(self)@ == old(self)@.zoomed_out(),
            old(self)@.wf() ==> final(self)@.wf(),
    {
        self.scale = self.scale.over(ratio(5, 4)).larger(ratio(1, 50));
        assert(self@ =~= (AppView { scale: self.scale, ..old(self)@ }));
    }

    /// Magnifies more, up to the greatest magnification.
    pub fn zoom_in(&mut self)
        ensures
            final(self)@ == old(self)@.zoomed_in(),
            old(self)@.wf() ==> final(self)@.wf(),
    {
        self.scale = self.scale.times(ratio(5, 4)).smaller(S::of_count(64));
        assert(self@ =~= (AppView { scale: self.scale, ..old(self)@ }));
    }

    /// Asks for the magnification that shows the whole image.
    pub fn request_fit(&mut self)
        ensures
            final(self)@ == (AppView { fit_requested: true, ..old(self)@ }),
            old(self)@.wf() ==> final(self)@.wf(),
    {
        self.fit_requested = true;
        assert(self@ =~= (AppView { fit_requested: true, ..old(self)@ }));
    }

    /// Shows the whole image in a window with the given size, where that was asked for.
    pub fn fit(&mut self, avail: (S, S))
        ensures
            final(self)@ == old(self)@.fitted(avail),
            old(self)@.wf() ==> final(self)@.wf(),
    {
        let ghost before = self@;
        if let Some(img) = &self.image {
            if self.fit_requested && img.width > 0 && img.height > 0 {
                let s = avail.0.over(S::of_count(img.width)).smaller(
                    avail.1.over(S::of_count(img.height)),
                );
                self.scale = s.clamped(ratio(1, 50), S::of_count(64));
                self.fit_requested = false;
            }
        }
        assert(self@ =~= before.fitted(avail));
    }

    /// Composite the regions (in order) into a mask with the size of the image;
    /// without an image, into one without a pixel.
    pub fn composite_mask(&self) -> (r: Mask)
        requires
            self@.wf(),
        ensures
            r.wf(),
            match self@.image {
                Some(img) => r.rows() == composite_rows(
                    self@.editor.rois,
                    self@.initial_mask,
                    img.height,
                    img.width,
                ) && r.width() == img.width,
                None => r.height() == 0 && r.width() == 0,
            },
            count_selected(flattened(r.rows())) == self@.live_count(),
    {
        match &self.image {
            None => {
                let r = Mask::new(0, 0);
                assert(r.rows() =~= Seq::empty());
                r
            },
            Some(img) => composite(&self.editor.rois, &self.initial_mask, img.height, img.width),
        }
    }

    /// Brings the picture of the image up to date. Returns it if it changed.
    pub fn ensure_img_texture(&mut self) -> (r: Option<Vec<u8>>)
        ensures
            match r {
                Some(pixels) => old(self)@.img_dirty && old(self)@.image is Some && pixels@
                    == image_pixels(
                    old(self)@.image->0.data,
                    old(self)@.vmin,
                    old(self)@.vmax,
                    old(self)@.colormap.lut_spec(),
                ) && final(self)@ == (AppView { img_dirty: false, ..old(self)@ }),
                None => (!old(self)@.img_dirty || old(self)@.image is None) && final(self)@ == old(
                    self,
                )@,
            },
            old(self)@.wf() ==> final(self)@.wf(),
    {
        let ghost before = self@;
        if !self.img_dirty {
            return None;
        }
        let pixels = match &self.image {
            None => {
                return None;
            },
            Some(img) => paint_image(&img.data, self.vmin, self.vmax, &self.colormap.lut()),
        };
        self.img_dirty = false;
        assert(self@ =~= (AppView { img_dirty: false, ..before }));
        Some(pixels)
    }

    /// Brings the picture of the mask and the count of selected pixels up to date.
    /// Returns the picture if there is a new one.
    pub fn ensure_mask_texture(&mut self) -> (r: Option<Vec<u8>>)
        requires
            old(self)@.wf(),
        ensures
            final(self)@.wf(),
            !final(self)@.editor.mask_dirty,
            final(self)@ == (AppView {
                selected_count: old(self)@.live_count() as int,
                editor: EditorView { mask_dirty: false, ..old(self)@.editor },
                ..old(self)@
            }),
            match r {
                Some(pixels) => old(self)@.editor.mask_dirty && old(self)@.image is Some && pixels@
                    == overlay_pixels(
                    flattened(
                        composite_rows(
                            old(self)@.editor.rois,
                            old(self)@.initial_mask,
                            old(self)@.image->0.height,
                            old(self)@.image->0.width,
                        ),
                    ),
                ),
                None => !old(self)@.editor.mask_dirty || old(self)@.image is None,
            },
    {
        let ghost before = self@;
        if !self.editor.mask_dirty {
            assert(self@ =~= (AppView {
                selected_count: before.live_count() as int,
                editor: EditorView { mask_dirty: false, ..before.editor },
                ..before
            }));
            return None;
        }
        let mut picture = None;
        if self.image.is_some() {
            let mask = self.composite_mask();
            let (pixels, n) = paint_mask(&mask.pixels());
            self.selected_count = n;
            picture = Some(pixels);
        } else {
            self.selected_count = 0;
        }
        self.editor.mask_dirty = false;
        assert(self@.editor =~= (EditorView { mask_dirty: false, ..before.editor }));
        assert(self@ =~= (AppView {
            selected_count: before.live_count() as int,
            editor: EditorView { mask_dirty: false, ..before.editor },
            ..before
        }));
        picture
    }

    /// The bytes of the file that holds the mask, and the number of pixels in it
    /// that are 1.
    pub fn write_mask(&self, path: &SourcePath) -> (r: (Result<Vec<u8>, SaveError>, usize))
        requires
            self@.wf(),
        ensures
            r.1 == self@.live_count(),
            match self@.image {
                Some(img) => save_spec(
                    ext_spec(*path),
                    composite_rows(
                        self@.editor.rois,
                        self@.initial_mask,
                        img.height,
                        img.width,
                    ),
                    img.width as nat,
                    r.0,
                ),
                None => save_spec(ext_spec(*path), Seq::empty(), 0, r.0),
            },
    {
        let mask = self.composite_mask();
        let n: usize = count(&mask.pixels());
        assert(self@.image is None ==> mask.rows() =~= Seq::empty());
        (save_mask(path, &mask), n)
    }

    /// Notes that the mask was written.
    pub fn mask_written(&mut self, count: usize, path: &SourcePath)
        ensures
            final(self)@ == (AppView {
                status: "Saved mask ("@ + decimal(count as nat) + " px = 1) to "@ + path.shown@,
                ..old(self)@
            }),
            old(self)@.wf() ==> final(self)@.wf(),
    {
        let mut status = "Saved mask (".to_owned();
        status.append(decimal_text(count as u64).as_str());
        status.append(" px = 1) to ");
        status.append(path.shown.as_str());
        self.status = status;
        assert(self@ =~= (AppView { status: self.status@, ..old(self)@ }));
    }

    /// Notes that the mask was not written, and why.
    pub fn save_failed(&mut self, text: &String)
        ensures
            final(self)@ == (AppView { status: "Save failed: "@ + text@, ..old(self)@ }),
            old(self)@.wf() ==> final(self)@.wf(),
    {
        let mut status = "Save failed: ".to_owned();
        status.append(text.as_str());
        self.status = status;
        assert(self@ =~= (AppView { status: self.status@, ..old(self)@ }));
    }

    /// Asks whether the mask can be saved under a name to choose. Returns the name
    /// to begin with, or says what is missing.
    pub fn save_mask_dialog(&mut self) -> (r: Option<String>)
        ensures
            match r {
                Some(name) => old(self)@.can_save_spec() && final(self)@ == old(self)@ && name@
                    == match old(self)@.output_path {
                    Some(p) => match p.file_name {
                        Some(n) => n@,
                        None => "mask.tif"@,
                    },
                    None => "mask.tif"@,
                },
                None => !old(self)@.can_save_spec() && final(self)@ == (AppView {
                    status: if old(self)@.image is None {
                        "Nothing to save — load an image first."@
                    } else {
                        "Nothing to save — draw at least one region first."@
                    },
                    ..old(self)@
                }),
            },
            old(self)@.wf() ==> final(self)@.wf(),
    {
        if self.image.is_none() {
            self.status = "Nothing to save — load an image first.".to_owned();
            assert(self@ =~= (AppView { status: self.status@, ..old(self)@ }));
            return None;
        }
        if self.selected_count == 0 {
            self.status = "Nothing to save — draw at least one region first.".to_owned();
            assert(self@ =~= (AppView { status: self.status@, ..old(self)@ }));
            return None;
        }
        if let Some(p) = &self.output_path {
            if let Some(name) = &p.file_name {
                return Some(name.as_str().to_owned());
            }
        }
        Some("mask.tif".to_owned())
    }

    /// What the toolbar shows.
    pub fn toolbar(&self) -> (r: Toolbar<S>)
        ensures
            r.can_open == (self@.loading is None),
            r.can_integrate == (self@.stack matches Some(st) && st.frames.len() > 1),
            r.integration_text@ == "Integrate: "@ + self@.integration.label_spec(),
            r.colormap_text@ == "Colormap: "@ + self@.colormap.label_spec(),
            r.contrast_speed == contrast_speed_of(self@.data_min, self@.data_max),
            r.can_undo == (self@.editor.snapshots.len() > 0),
    {
        let can_integrate = match &self.stack {
            Some(stack) => stack.n_frames() > 1,
            None => false,
        };
        let mut integration_text = "Integrate: ".to_owned();
        integration_text.append(self.integration.label());
        let mut colormap_text = "Colormap: ".to_owned();
        colormap_text.append(self.colormap.label());
        Toolbar {
            can_open: self.loading.is_none(),
            can_integrate,
            integration_text,
            colormap_text,
            contrast_speed: self.data_max.minus(self.data_min).larger(S::of_count(1)).over(
                S::of_count(200),
            ),
            can_undo: self.editor.snapshots.len() > 0,
        }
    }

    /// What the status bar shows besides the status itself.
    pub fn status_bar(&self) -> (r: StatusBar)
        ensures
            r.can_save == self@.can_save_spec(),
            text_view(r.finish_label) == match self@.output_path {
                Some(_) => Some(
                    if self@.called_from_python {
                        "⏎ Return to main application"@
                    } else {
                        "✅ Save mask & quit"@
                    },
                ),
                None => None,
            },
            text_view(r.finish_hint) == match self@.output_path {
                Some(p) => Some("Write the mask to "@ + p.shown@ + " and close"@),
                None => None,
            },
            r.selected_text@ == "selected: "@ + decimal(self@.selected_count as nat) + " px"@,
            r.rois_text@ == "ROIs: "@ + decimal(self@.editor.rois.len()),
    {
        let mut finish_label = None;
        let mut finish_hint = None;
        if let Some(p) = &self.output_path {
            finish_label =
            Some(
                if self.called_from_python {
                    "⏎ Return to main application".to_owned()
                } else {
                    "✅ Save mask & quit".to_owned()
                },
            );
            let mut hint = "Write the mask to ".to_owned();
            hint.append(p.shown.as_str());
            hint.append(" and close");
            finish_hint = Some(hint);
        }
        let mut selected_text = "selected: ".to_owned();
        selected_text.append(decimal_text(self.selected_count as u64).as_str());
        selected_text.append(" px");
        let mut rois_text = "ROIs: ".to_owned();
        rois_text.append(decimal_text(self.editor.rois.len() as u64).as_str());
        StatusBar {
            can_save: self.image.is_some() && self.selected_count > 0,
            finish_label,
            finish_hint,
            selected_text,
            rois_text,
        }
    }

    /// What the middle of the window shows: how far loading has come, or the image.
    pub fn viewer(&self) -> (r: Viewer<S>)
        ensures
            match self@.loading {
                Some(p) => r matches Viewer::Loading { fraction, text } && fraction == fraction_of::<S>(
                    p,
                ) && text@ == "⏳ Loading "@ + decimal(p.done as nat) + " / "@ + decimal(
                    p.total as nat,
                ) + " files"@,
                None => match self@.image {
                    Some(img) => r matches Viewer::Image { width, height } && width == img.width
                        && height == img.height,
                    None => r is Empty,
                },
            },
    {
        if let Some(p) = self.loading {
            let fraction = if p.total > 0 {
                S::of_count(p.done).over(S::of_count(p.total))
            } else {
                S::of_count(0)
            };
            let mut text = "⏳ Loading ".to_owned();
            text.append(decimal_text(p.done as u64).as_str());
            text.append(" / ");
            text.append(decimal_text(p.total as u64).as_str());
            text.append(" files");
            return Viewer::Loading { fraction, text };
        }
        match &self.image {
            Some(img) => Viewer::Image { width: img.width, height: img.height },
            None => Viewer::Empty,
        }
    }

    /// The pixel of the image at a screen position.
    pub fn read_cursor(&self, place: &Placement<S>, hover: Option<(S, S)>) -> (r: Option<
        (usize, usize, S),
    >)
        requires
            self@.wf(),
        ensures
            r == self@.cursor_at(*place, hover),
    {
        if let Some(img) = &self.image {
            if let Some(p) = hover {
                let q = place.to_img(p);
                let x: i64 = q.0.floor().truncated();
                let y: i64 = q.1.floor().truncated();
                if x >= 0 && y >= 0 && (x as u64) < img.width as u64 && (y as u64)
                    < img.height as u64 {
                    return Some((x as usize, y as usize, img.get(y as usize, x as usize)));
                }
            }
        }
        None
    }

    /// Does what the pointer and the keyboard ask for over the image, and returns
    /// the pointer's new appearance.
    pub fn handle_interaction(&mut self, place: &Placement<S>, report: &PointerReport<S>) -> (r:
        Option<CursorIcon>)
        requires
            old(self)@.wf(),
            report.drag_started ==> old(self)@.editor.next_id < u32::MAX,
        ensures
            final(self)@ == old(self)@.interacted(*place, *report),
            r == if report.dragged {
                None
            } else {
                old(self)@.editor.pointed(*place, *report).icon(*place, report.hover)
            },
            final(self)@.wf(),
    {
        let ghost before = self@;
        self.cursor = self.read_cursor(place, report.hover);
        let icon = self.editor.handle_interaction(place, report);
        assert(self@ =~= before.interacted(*place, *report));
        proof {
            interaction_keeps_live(before, *place, *report);
        }
        icon
    }

    /// Does what was asked for in the rows of the panel, one row per region.
    pub fn roi_panel(&mut self, rows: &Vec<RowAction<S>>)
        requires
            old(self)@.wf(),
            rows@.len() == old(self)@.editor.rois.len(),
        ensures
            final(self)@ == (AppView { editor: old(self)@.editor.paneled(rows@), ..old(self)@ }),
            final(self)@.wf(),
    {
        let ghost before = self@;
        self.editor.roi_panel(rows);
        assert(self@ =~= (AppView { editor: before.editor.paneled(rows@), ..before }));
        proof {
            panel_keeps_live(before, rows@);
        }
    }

    /// Puts the last snapshot of the regions back.
    pub fn undo(&mut self)
        requires
            old(self)@.wf(),
        ensures
            final(self)@ == (AppView { editor: old(self)@.editor.undone(), ..old(self)@ }),
            final(self)@.wf(),
    {
        let ghost before = self@;
        self.editor.undo();
        assert(self@ =~= (AppView { editor: before.editor.undone(), ..before }));
        proof {
            undo_keeps_live(before);
        }
    }

    /// Removes all regions.
    pub fn clear_rois(&mut self)
        requires
            old(self)@.wf(),
        ensures
            final(self)@ == (AppView { editor: old(self)@.editor.cleared(), ..old(self)@ }),
            final(self)@.wf(),
    {
        let ghost before = self@;
        self.editor.clear_rois();
        assert(self@ =~= (AppView { editor: before.editor.cleared(), ..before }));
        proof {
            clear_keeps_live(before);
        }
    }
}

} // verus!

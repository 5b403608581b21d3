# ROI Selector

Select regions of interest (rectangles, ellipses, circles) on the integrated image
of a stack of TIFF or NumPy files, and export them as a mask: selected pixels are 1,
everything else is 0.

- `src/` is the library. Everything that decides or computes is here, written and
  verified with [Verus](https://github.com/verus-lang/verus): reading stacks, integrating
  frames, the geometry of regions, editing with undo, the mask, its file, the command
  line, and the state of the application.
- `app/` is the program around it: the window (egui), the file dialogs, threads and
  file access.
- `tests/` runs the library.

## Numbers

Coordinates and pixel values are of any type that implements `scalar::Scalar`, whose
operations each come with a specification function. The contracts of the library say
which operations are done on which values, in which order. `fixed::Fixed` implements the
trait on fixed-point integers, and for it more is proved (`fixed_laws`). The program runs
on single-precision numbers (`app/number.rs`): that these operations are functions of
their operands is all that the library relies on.

## What is trusted

The contracts of the functions marked `#[verifier::external_body]` in `codec` and `mask`,
and that of `str::to_lowercase` in `text`, are taken from the sources and documentation
of the `tiff`, `ndarray` and `ndarray-npy` crates and of the standard library. They are
not proved.

The verified functions do not panic, and some files would make those crates do so, or keep
them busy for ever. `directory` and `header` look at a file first, and the library refuses
it if it is one of these: a TIFF page in more pieces than can be counted, a `.npy` header
with nested brackets. JPEG-compressed TIFF pages are refused as well, since nothing short
of decoding one tells whether the decoder gets through; the program decodes these itself
and hands the pages to the library.

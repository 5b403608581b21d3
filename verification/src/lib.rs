//! Selecting regions of interest on an image and exporting them as a mask.
//!
//! - [`loader`], [`formats`], [`frame`]: stacks of images from TIFF and `.npy` files
//! - [`integrate`]: a stack as one image
//! - [`roi`], [`handles`]: the geometry of regions
//! - [`editor`]: drawing, moving, resizing, deleting and undoing
//! - [`mask`], [`selection`]: what the regions select, and its file
//! - [`app`], [`picture`], [`colormap`], [`messages`]: the application's state and what it shows
//! - [`args`], [`paths`]: the command line and the names of files
//! - [`codec`], [`directory`], [`header`]: the outside crates that read and write files, and
//!   which files they are given
//! - [`scalar`], [`fixed`]: the numbers that all of this is calculated with
//!
//! The modules whose names end in `_laws` state what holds across operations.

pub mod app;
pub mod app_laws;
pub mod args;
pub mod args_laws;
pub mod codec;
pub mod colormap;
pub mod directory;
pub mod edit_laws;
pub mod editor;
pub mod editor_laws;
pub mod export_laws;
pub mod fixed;
pub mod fixed_laws;
pub mod formats;
pub mod frame;
pub mod handle_laws;
pub mod handles;
pub mod header;
pub mod integrate;
pub mod loader;
pub mod loader_laws;
pub mod mask;
pub mod messages;
pub mod order_laws;
pub mod paths;
pub mod picture;
pub mod picture_laws;
pub mod raster_laws;
pub mod roi;
pub mod samples;
pub mod scalar;
pub mod selection;
pub mod shape_laws;
pub mod show_laws;
pub mod stack_laws;
pub mod text;

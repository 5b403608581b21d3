//! What the user is told when something goes wrong.

use vstd::prelude::*;

use crate::frame::{Fault, LoadError};
use crate::roi::SaveError;
use crate::text::{decimal, decimal_text};

verus! {

/// What is said of a fault, unless the `tiff` crate has to say it.
pub open spec fn fault_text(fault: Fault) -> Option<Seq<char>> {
    match fault {
        Fault::NoFiles => Some("No files selected"@),
        Fault::Unsupported { extension, file } => Some(
            "Unsupported file type '."@ + extension + "': "@ + file,
        ),
        Fault::TiffOpen { .. } => None,
        Fault::TiffPage => None,
        Fault::TiffUnsupported { file } => Some(
            "Unsupported TIFF page (JPEG-compressed or in too many pieces): "@ + file,
        ),
        Fault::PixelCount { count, width, height } => Some(
            "Pixel count "@ + decimal(count as nat) + " is not compatible with "@ + decimal(
                width as nat,
            ) + "x"@ + decimal(height as nat),
        ),
        Fault::TooLarge => Some("ShapeError/Overflow: arithmetic overflow"@),
        Fault::Npy { file } => Some(
            "Unsupported .npy dtype or shape (need a 2-D or 3-D numeric array): "@ + file,
        ),
        Fault::SizeMismatch { width, height, file, first_width, first_height } => Some(
            "Frame size mismatch: "@ + decimal(width as nat) + "x"@ + decimal(height as nat)
                + " in "@ + file + " does not match "@ + decimal(first_width as nat) + "x"@
                + decimal(first_height as nat),
        ),
        Fault::NoFrames => Some("No frames were loaded"@),
        Fault::NothingFound { folder } => Some("No TIFF or .npy files found in "@ + folder),
    }
}

impl LoadError {
    /// What is said of the error. There is nothing where it came from the `tiff`
    /// crate: what that says belongs there.
    pub fn message(&self) -> (r: Option<String>)
        ensures
            match r {
                Some(text) => fault_text(self@) == Some(text@),
                None => fault_text(self@) is None,
            },
    {
        let mut text;
        match self {
            LoadError::NoFiles => {
                text = "No files selected".to_owned();
            },
            LoadError::Unsupported { extension, file } => {
                text = "Unsupported file type '.".to_owned();
                text.append(extension.as_str());
                text.append("': ");
                text.append(file.as_str());
            },
            LoadError::TiffOpen { .. } => {
                return None;
            },
            LoadError::TiffPage { .. } => {
                return None;
            },
            LoadError::TiffUnsupported { file } => {
                text = "Unsupported TIFF page (JPEG-compressed or in too many pieces): ".to_owned();
                text.append(file.as_str());
            },
            LoadError::PixelCount { count, width, height } => {
                text = "Pixel count ".to_owned();
                text.append(decimal_text(*count as u64).as_str());
                text.append(" is not compatible with ");
                text.append(decimal_text(*width as u64).as_str());
                text.append("x");
                text.append(decimal_text(*height as u64).as_str());
            },
            LoadError::TooLarge => {
                text = "ShapeError/Overflow: arithmetic overflow".to_owned();
            },
            LoadError::Npy { file } => {
                text =
                "Unsupported .npy dtype or shape (need a 2-D or 3-D numeric array): ".to_owned();
                text.append(file.as_str());
            },
            LoadError::SizeMismatch { width, height, file, first_width, first_height } => {
                text = "Frame size mismatch: ".to_owned();
                text.append(decimal_text(*width as u64).as_str());
                text.append("x");
                text.append(decimal_text(*height as u64).as_str());
                text.append(" in ");
                text.append(file.as_str());
                text.append(" does not match ");
                text.append(decimal_text(*first_width as u64).as_str());
                text.append("x");
                text.append(decimal_text(*first_height as u64).as_str());
            },
            LoadError::NoFrames => {
                text = "No frames were loaded".to_owned();
            },
            LoadError::NothingFound { folder } => {
                text = "No TIFF or .npy files found in ".to_owned();
                text.append(folder.as_str());
            },
        }
        Some(text)
    }
}

/// What is said of a failure to save, unless an outside crate has to say it.
pub open spec fn save_error_text(error: SaveError) -> Option<Seq<char>> {
    match error {
        SaveError::Unsupported { extension } => Some(
            "Unsupported mask extension '."@ + extension@ + "' — use .tif, .tiff or .npy"@,
        ),
        SaveError::TooLarge => Some("The mask is too large for a TIFF file"@),
        SaveError::Tiff { .. } => None,
        SaveError::Npy { .. } => None,
    }
}

impl SaveError {
    /// What is said of the error. There is nothing where it came from an outside
    /// crate: what that says belongs there.
    pub fn message(&self) -> (r: Option<String>)
        ensures
            match r {
                Some(text) => save_error_text(*self) == Some(text@),
                None => save_error_text(*self) is None,
            },
    {
        match self {
            SaveError::Unsupported { extension } => {
                let mut text = "Unsupported mask extension '.".to_owned();
                text.append(extension.as_str());
                text.append("' — use .tif, .tiff or .npy");
                Some(text)
            },
            SaveError::TooLarge => Some("The mask is too large for a TIFF file".to_owned()),
            SaveError::Tiff { .. } => None,
            SaveError::Npy { .. } => None,
        }
    }
}

} // verus!

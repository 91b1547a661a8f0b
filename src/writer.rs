//! The settings for writing a disk image out: where to, and in which format.

use vstd::prelude::*;

use crate::error::DiskImageError;

verus! {

#[verifier::external_type_specification]
#[verifier::external_body]
pub struct ExPathBuf(std::path::PathBuf);

/// The container formats a disk image can be written in.
#[derive(Clone, Copy, Debug, PartialEq, Eq, Structural, Hash)]
pub enum DiskImageFormat {
    RawSectorImage,
    ImageDisk,
    TeleDisk,
    PceSectorImage,
    PceBitstreamImage,
    MfmBitstreamImage,
    HfeImage,
    F86Image,
    TransCopyImage,
    KryofluxStream,
}

/// Where and how to write an image; both must be set before writing.
#[derive(Debug)]
pub struct ImageWriter {
    pub path: Option<std::path::PathBuf>,
    pub format: Option<DiskImageFormat>,
}

impl Default for ImageWriter {
    fn default() -> (r: ImageWriter)
        ensures
            r.path is None,
            r.format is None,
    {
        ImageWriter { path: None, format: None }
    }
}

impl ImageWriter {
    /// A writer with neither path nor format.
    pub fn new() -> (r: ImageWriter)
        ensures
            r.path is None,
            r.format is None,
    {
        ImageWriter { path: None, format: None }
    }

    /// The same writer, writing in `format`.
    pub fn with_format(self, format: DiskImageFormat) -> (r: ImageWriter)
        ensures
            r.format == Some(format),
            r.path == self.path,
    {
        ImageWriter { format: Some(format), ..self }
    }

    /// The same writer, writing to `path`.
    pub fn with_path(self, path: std::path::PathBuf) -> (r: ImageWriter)
        ensures
            r.path == Some(path),
            r.format == self.format,
    {
        ImageWriter { path: Some(path), ..self }
    }

    /// The path and format to write with; a parameter error if either is
    /// missing.
    pub fn target(self) -> (r: Result<(std::path::PathBuf, DiskImageFormat), DiskImageError>)
        ensures
            match (self.path, self.format) {
                (Some(p), Some(f)) => r == Ok::<(std::path::PathBuf, DiskImageFormat), DiskImageError>((p, f)),
                _ => r == Err::<(std::path::PathBuf, DiskImageFormat), DiskImageError>(
                    DiskImageError::ParameterError,
                ),
            },
    {
        match (self.path, self.format) {
            (Some(p), Some(f)) => Ok((p, f)),
            _ => Err(DiskImageError::ParameterError),
        }
    }
}

} // verus!

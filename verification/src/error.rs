//! The errors that image processing reports.
use vstd::prelude::*;

verus! {

/// `image::ImageError`, carried through the library unopened.
#[verifier::external_type_specification]
#[verifier::external_body]
pub struct ExImageError(image::ImageError);

/// `libloading::Error`, carried through the library unopened.
#[verifier::external_type_specification]
#[verifier::external_body]
pub struct ExLibloadingError(libloading::Error);

/// What kind of input or output failure happened.
#[derive(Debug, Clone, Copy, PartialEq, Eq, Structural)]
pub enum IoErrorKind {
    /// A file or directory that was needed does not exist.
    NotFound,
    /// The request itself is unusable.
    InvalidInput,
    /// Any other failure of the operating system.
    Other,
}

/// An input or output failure, with its kind and a description.
#[derive(Debug)]
pub struct IoError {
    pub kind: IoErrorKind,
    pub message: String,
}

/// Everything that can go wrong while processing an image.
#[derive(Debug)]
pub enum ProcessorError {
    /// The input image could not be opened or decoded.
    ImageOpen(image::ImageError),
    /// The output image could not be encoded or written.
    ImageSave(image::ImageError),
    /// A path given on the command line is unusable, or the parameter file
    /// could not be read.
    ParamsRead(IoError),
    /// The plugin library or its directory does not exist.
    PluginNotFound(String),
    /// The plugin library could not be loaded.
    PluginLoad(libloading::Error),
    /// The plugin library has no `process_image` function.
    PluginSymbol(libloading::Error),
    /// An image side is 0 or the image is too large to address.
    InvalidDimensions(u32, u32),
    /// The pixel buffer does not hold `expected` bytes but `actual`.
    BufferSizeMismatch(usize, usize),
    /// The plugin could not be called with the given parameters.
    PluginExecution,
}

/// `r` is the input/output error of the kind and with the message given.
pub open spec fn is_io_error<T>(r: Result<T, ProcessorError>, kind: IoErrorKind, message: Seq<char>) -> bool {
    &&& r matches Err(ProcessorError::ParamsRead(e))
    &&& e.kind == kind
    &&& e.message@ == message
}

} // verus!

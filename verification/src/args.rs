//! The command line of the processor and its checks.
use vstd::prelude::*;

use crate::error::{is_io_error, IoError, IoErrorKind, ProcessorError};
use crate::paths::{debug_path, path_debug, paths_equal, same_path, Platform};

verus! {

/// The command line: input image, output image, plugin name, parameter file
/// and plugin directory, each path as text.
pub struct Args {
    /// Path of the source PNG image.
    pub input: String,
    /// Path where the processed image is saved.
    pub output: String,
    /// Name of the plugin without prefix or extension (for example `mirror`).
    pub plugin: String,
    /// Path of the file that holds the plugin parameters.
    pub params: String,
    /// Directory that holds the plugin libraries.
    pub plugin_path: String,
}

/// Which of the paths of the command line exist on disk.
pub struct PathChecks {
    pub input_exists: bool,
    pub params_exists: bool,
    pub plugin_path_exists: bool,
}

/// `r` is a `PluginNotFound` error with the message given.
pub open spec fn is_plugin_not_found<T>(r: Result<T, ProcessorError>, message: Seq<char>) -> bool {
    r matches Err(ProcessorError::PluginNotFound(m)) && m@ == message
}

/// `prefix` followed by the debugging form of `path`, as a `String`.
fn message_with_path(prefix: &str, path: &str) -> (r: String)
    ensures
        r@ == prefix@ + path_debug(path@),
{
    let shown = debug_path(path);
    let mut message = String::from_str(prefix);
    message.append(shown.as_str());
    message
}

impl Args {
    /// Checks the command line against what exists on disk, in this order:
    /// the input file must exist, then the parameter file, then the plugin
    /// directory, and the output must not be the input, paths being compared
    /// as `Path` compares them on `platform`.
    pub fn validate(&self, checks: &PathChecks, platform: Platform) -> (r: Result<
        (),
        ProcessorError,
    >)
        ensures
            !checks.input_exists ==> is_io_error(
                r,
                IoErrorKind::NotFound,
                "Input file not found: "@ + path_debug(self.input@),
            ),
            checks.input_exists && !checks.params_exists ==> is_io_error(
                r,
                IoErrorKind::NotFound,
                "Params file not found: "@ + path_debug(self.params@),
            ),
            checks.input_exists && checks.params_exists && !checks.plugin_path_exists
                ==> is_plugin_not_found(
                r,
                "Plugin directory not found: "@ + path_debug(self.plugin_path@),
            ),
            checks.input_exists && checks.params_exists && checks.plugin_path_exists && same_path(
                platform,
                self.input@,
                self.output@,
            ) ==> is_io_error(
                r,
                IoErrorKind::InvalidInput,
                "Input and output paths cannot be the same"@,
            ),
            checks.input_exists && checks.params_exists && checks.plugin_path_exists && self.input@
                == self.output@ ==> is_io_error(
                r,
                IoErrorKind::InvalidInput,
                "Input and output paths cannot be the same"@,
            ),
            checks.input_exists && checks.params_exists && checks.plugin_path_exists && !same_path(
                platform,
                self.input@,
                self.output@,
            ) ==> r is Ok,
    {
        if !checks.input_exists {
            let message = message_with_path("Input file not found: ", self.input.as_str());
            return Err(ProcessorError::ParamsRead(IoError { kind: IoErrorKind::NotFound, message }));
        }
        if !checks.params_exists {
            let message = message_with_path("Params file not found: ", self.params.as_str());
            return Err(ProcessorError::ParamsRead(IoError { kind: IoErrorKind::NotFound, message }));
        }
        if !checks.plugin_path_exists {
            let message = message_with_path(
                "Plugin directory not found: ",
                self.plugin_path.as_str(),
            );
            return Err(ProcessorError::PluginNotFound(message));
        }
        if paths_equal(self.input.as_str(), self.output.as_str(), platform) {
            let message = String::from_str("Input and output paths cannot be the same");
            return Err(
                ProcessorError::ParamsRead(IoError { kind: IoErrorKind::InvalidInput, message }),
            );
        }
        Ok(())
    }
}

} // verus!

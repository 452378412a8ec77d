//! Where a plugin library is looked for, and what a plugin can be handed.
use vstd::prelude::*;

use crate::args::is_plugin_not_found;
use crate::error::ProcessorError;
pub use crate::paths::Platform;
use crate::paths::{debug_path, join_path, joined_path, path_debug};
use crate::text::{chars_of, contains_char};

verus! {

/// The file name of the library of the plugin `name` on `platform`.
pub open spec fn lib_file_name(name: Seq<char>, platform: Platform) -> Seq<char> {
    match platform {
        Platform::Linux => "lib"@ + name + ".so"@,
        Platform::Windows => name + ".dll"@,
    }
}

/// The file name of the library of the plugin `plugin_name` on `platform`.
pub fn platform_lib_name(plugin_name: &str, platform: Platform) -> (r: String)
    ensures
        r@ == lib_file_name(plugin_name@, platform),
{
    match platform {
        Platform::Linux => {
            let mut name = String::from_str("lib");
            name.append(plugin_name);
            name.append(".so");
            name
        },
        Platform::Windows => {
            let mut name = String::from_str(plugin_name);
            name.append(".dll");
            name
        },
    }
}

/// The path at which the library of plugin `plugin_name` is expected: its
/// file name inside the directory `plugin_path`, joined as `Path::join` joins
/// them on `platform`.
pub fn library_candidate(plugin_path: &str, plugin_name: &str, platform: Platform) -> (r: String)
    ensures
        r@ == joined_path(platform, plugin_path@, lib_file_name(plugin_name@, platform)),
{
    let file_name = platform_lib_name(plugin_name, platform);
    join_path(plugin_path, file_name.as_str(), platform)
}

/// The library path to load, given whether the expected path exists:
/// the path itself when it does, `PluginNotFound` naming it when not.
pub fn find_library_path(candidate: String, exists: bool) -> (r: Result<String, ProcessorError>)
    ensures
        exists ==> (r matches Ok(p) && p@ == candidate@),
        !exists ==> is_plugin_not_found(r, "Expected: "@ + path_debug(candidate@)),
{
    if !exists {
        let shown = debug_path(candidate.as_str());
        let mut message = String::from_str("Expected: ");
        message.append(shown.as_str());
        return Err(ProcessorError::PluginNotFound(message));
    }
    Ok(candidate)
}

/// Whether parameter text can be handed to a plugin as a C string: it
/// cannot when it holds a NUL character, and that is `PluginExecution`.
pub fn check_plugin_params(params: &str) -> (r: Result<(), ProcessorError>)
    ensures
        !params@.contains('\0') ==> r is Ok,
        params@.contains('\0') ==> r == Err::<(), ProcessorError>(ProcessorError::PluginExecution),
{
    let chars = chars_of(params);
    if contains_char(&chars, '\0') {
        return Err(ProcessorError::PluginExecution);
    }
    Ok(())
}

} // verus!

//! Helpers of the build tool: where the artifacts are, how the tools
//! are called, and the text of what is generated and sent.

use crate::text::owned;
use crate::xtask::cli::Profile;
use vstd::prelude::*;
use vstd::string::StringSliceAdditionalSpecFns;

pub mod bindgen;
pub mod cli;
pub mod rpc_types;

verus! {

/// The byte of a full stop.
pub const FULL_STOP: u8 = 46;

/// The exit code of a failure.
pub const EXIT_FAILURE: u8 = 1;

/// The directories below the project's root that lead to the compiled
/// modules of a profile: `target`, `wasm32-unknown-unknown`, and the
/// profile's own.
pub fn artifact_path(profile: Profile) -> (path: Vec<String>)
    ensures
        path@.len() == 3,
        path@[0]@ == "target"@,
        path@[1]@ == "wasm32-unknown-unknown"@,
        path@[2]@ == profile.stem(),
{
    let mut path: Vec<String> = Vec::new();
    path.push("target".to_owned());
    path.push("wasm32-unknown-unknown".to_owned());
    path.push(profile.artifact_stem());
    path
}

/// The directories below the project's root that lead to the generated
/// scripts: `target` and `wasm_output`.
pub fn js_output_path() -> (path: Vec<String>)
    ensures
        path@.len() == 2,
        path@[0]@ == "target"@,
        path@[1]@ == "wasm_output"@,
{
    let mut path: Vec<String> = Vec::new();
    path.push("target".to_owned());
    path.push("wasm_output".to_owned());
    path
}

/// Whether a file name is a non-empty stem, a full stop, and the
/// extension. For an extension that holds no full stop itself, these
/// are the file names whose extension it is.
pub open spec fn ends_with_extension(file_name: Seq<u8>, extension: Seq<u8>) -> bool {
    &&& file_name.len() > extension.len() + 1
    &&& file_name[file_name.len() - extension.len() - 1] == FULL_STOP
    &&& file_name.skip(file_name.len() - extension.len()) == extension
}

/// Computes [`ends_with_extension`] on the bytes of the two texts.
pub fn has_extension(file_name: &str, extension: &str) -> (has: bool)
    ensures
        has == ends_with_extension(file_name.spec_bytes(), extension.spec_bytes()),
{
    let name = file_name.as_bytes();
    let ext = extension.as_bytes();
    if name.len() < 2 || ext.len() > name.len() - 2 {
        return false;
    }
    let name_len: usize = name.len();
    let start: usize = name_len - ext.len();
    if name[start - 1] != FULL_STOP {
        return false;
    }
    let mut i: usize = 0;
    while i < ext.len() && name[start + i] == ext[i]
        invariant
            name_len == name@.len(),
            start == name@.len() - ext@.len(),
            i <= ext@.len(),
            forall|j: int| 0 <= j < i ==> name@[start + j] == ext@[j],
        decreases ext@.len() - i,
    {
        i += 1;
    }
    proof {
        if i == ext@.len() {
            assert(name@.skip(start as int) =~= ext@);
        } else {
            assert(name@.skip(start as int)[i as int] == name@[start + i]);
        }
    }
    i == ext.len()
}

/// Whether a file of that name is a compiled module: one named
/// `<stem>.wasm`.
pub fn is_wasm_artifact(file_name: &str) -> (is: bool)
    ensures
        is == ends_with_extension(file_name.spec_bytes(), "wasm".spec_bytes()),
{
    has_extension(file_name, "wasm")
}

/// Whether a file of that name is a script to upload: one named
/// `<stem>.js`.
pub fn is_js_script(file_name: &str) -> (is: bool)
    ensures
        is == ends_with_extension(file_name.spec_bytes(), "js".spec_bytes()),
{
    has_extension(file_name, "js")
}

/// The code with which a tool ended, as an exit code: the code where
/// it lies between 0 and 255, and none where the tool gave a code
/// outside that range or ended without one.
pub open spec fn exit_byte_of(code: Option<i32>) -> Option<u8> {
    match code {
        Some(code) => if 0 <= code <= 255 {
            Some(code as u8)
        } else {
            None
        },
        None => None,
    }
}

/// The exit code to end with after a tool ended with `code`: that code
/// where it is an exit code, and the code of a failure where it is not.
pub open spec fn exit_code(code: Option<i32>) -> u8 {
    match exit_byte_of(code) {
        Some(code) => code,
        None => EXIT_FAILURE,
    }
}

/// Computes [`exit_byte_of`].
pub fn exit_byte(code: Option<i32>) -> (exit: Option<u8>)
    ensures
        exit == exit_byte_of(code),
{
    match code {
        Some(code) => if 0 <= code && code <= 255 {
            Some(code as u8)
        } else {
            None
        },
        None => None,
    }
}

/// Computes [`exit_code`].
pub fn exit_code_from_status(code: Option<i32>) -> (exit: u8)
    ensures
        exit == exit_code(code),
{
    match exit_byte(code) {
        Some(code) => code,
        None => EXIT_FAILURE,
    }
}

/// The name of the compiled module that the binding tool writes for a
/// crate: `<crate>_bg.wasm`.
pub fn wasm_file_name(crate_name: &str) -> (name: String)
    ensures
        name@ == crate_name@ + "_bg.wasm"@,
{
    let mut name = crate_name.to_owned();
    name.append("_bg.wasm");
    name
}

/// The name of the script that the binding tool writes for a crate:
/// `<crate>.js`.
pub fn js_file_name(crate_name: &str) -> (name: String)
    ensures
        name@ == crate_name@ + ".js"@,
{
    let mut name = crate_name.to_owned();
    name.append(".js");
    name
}

/// The arguments with which the packages of the workspace are
/// compiled: a build for `wasm32-unknown-unknown` with the given
/// profile, of the whole workspace but the packages that are no
/// scripts.
pub fn compile_wasm_args(profile: Profile) -> (args: Vec<String>)
    ensures
        args@.len() == 12,
        args@[0]@ == "build"@,
        args@[1]@ == "--target"@,
        args@[2]@ == "wasm32-unknown-unknown"@,
        args@[3]@ == "--profile"@,
        args@[4]@ == profile.name(),
        args@[5]@ == "--workspace"@,
        args@[6]@ == "--exclude"@,
        args@[7]@ == "bitoxide"@,
        args@[8]@ == "--exclude"@,
        args@[9]@ == "xtask"@,
        args@[10]@ == "--exclude"@,
        args@[11]@ == "bitburner_api"@,
{
    let mut args = owned(&["build", "--target", "wasm32-unknown-unknown", "--profile"]);
    args.push(profile.profile_name());
    let mut rest = owned(
        &["--workspace", "--exclude", "bitoxide", "--exclude", "xtask", "--exclude", "bitburner_api"],
    );
    args.append(&mut rest);
    args
}

/// The arguments with which the binding tool is called on a compiled
/// module: for the web, without type declarations, into `out_dir`; with
/// debug information kept where `debug` is set.
pub fn bindgen_args(wasm_path: &str, out_dir: &str, debug: bool) -> (args: Vec<String>)
    ensures
        args@.len() == if debug {
            8int
        } else {
            6int
        },
        args@[0]@ == "--target"@,
        args@[1]@ == "web"@,
        args@[2]@ == "--no-typescript"@,
        args@[3]@ == wasm_path@,
        args@[4]@ == "--out-dir"@,
        args@[5]@ == out_dir@,
        debug ==> args@[6]@ == "--debug"@ && args@[7]@ == "--keep-debug"@,
{
    let mut args = owned(&["--target", "web", "--no-typescript", wasm_path, "--out-dir", out_dir]);
    if debug {
        args.push("--debug".to_owned());
        args.push("--keep-debug".to_owned());
    }
    args
}

} // verus!

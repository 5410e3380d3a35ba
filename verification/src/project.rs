use vstd::prelude::*;

use crate::text::{seq_contains, str_contains, str_equal};

verus! {

/// The manifest text declares a dependency on the Soroban SDK.
pub open spec fn names_soroban_sdk(manifest: Seq<char>) -> bool {
    seq_contains(manifest, "soroban-sdk"@)
}

/// Whether a manifest's text mentions the `soroban-sdk` dependency.
pub fn declares_soroban_sdk(manifest: &str) -> (r: bool)
    ensures
        r == names_soroban_sdk(manifest@),
{
    str_contains(manifest, "soroban-sdk")
}

/// Whether a path's extension marks a Rust source file.
pub fn is_rust_source(extension: Option<&str>) -> (r: bool)
    ensures
        r == (extension matches Some(e) && e@ == "rs"@),
{
    match extension {
        Some(e) => str_equal(e, "rs"),
        None => false,
    }
}

/// Whether a path is a Soroban project to analyze: a Rust source file; a file named
/// `Cargo.toml` whose text names `soroban-sdk`; or a directory whose `Cargo.toml` names it.
/// `manifest` is the text of that `Cargo.toml` (the file itself, or the one in the
/// directory), or `None` when it does not exist or cannot be read.
pub fn is_soroban_project_from(
    is_file: bool,
    is_dir: bool,
    extension: Option<&str>,
    file_name: Option<&str>,
    manifest: Option<&str>,
) -> (r: bool)
    ensures
        r == if is_file && (extension matches Some(e) && e@ == "rs"@) {
            true
        } else if is_file && (file_name matches Some(n) && n@ == "Cargo.toml"@) {
            manifest matches Some(m) && names_soroban_sdk(m@)
        } else if is_dir {
            manifest matches Some(m) && names_soroban_sdk(m@)
        } else {
            false
        },
{
    if is_file {
        if is_rust_source(extension) {
            return true;
        }
        let is_manifest = match file_name {
            Some(n) => str_equal(n, "Cargo.toml"),
            None => false,
        };
        if is_manifest {
            return match manifest {
                Some(m) => declares_soroban_sdk(m),
                None => false,
            };
        }
    }
    if is_dir {
        return match manifest {
            Some(m) => declares_soroban_sdk(m),
            None => false,
        };
    }
    false
}

} // verus!

//! Locating executables along a search path, over a file system model.
//!
//! A search (`which_all_fs`, `which_fs`) runs against anything that
//! implements `FileSystem`: an in-memory `VirtualFileSystem`, a
//! `NativeFileSystem` holding what the host reported, or the empty
//! `WasmFileSystem`.
use vstd::prelude::*;

pub mod filesystem;
pub mod laws;
pub mod options;
pub mod pattern;
pub mod report;
pub mod search;
pub mod text;

pub use filesystem::{
    FileSystem, FsError, HostEntry, Metadata, NativeFileSystem, VirtualFileSystem, WasmFileSystem,
    executable_extensions, mode_is_executable,
};
pub use options::{Options, Platform, check_option};
pub use search::{WhichError, which_all_fs, which_fs};

verus! {

/// The version of this library.
pub const VERSION: &'static str = "0.1.0";

} // verus!

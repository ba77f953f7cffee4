//! The errors the library's own logic produces.

use vstd::prelude::*;

verus! {

#[derive(Clone, Debug)]
pub enum Error {
    InvalidTimezone { name: String },
    InvalidConfig { reason: String },
    NoBackupFound { settings: String },
    /// The tokenwatch wrap pointer already references another command.
    WrapConflict { path: String, existing_command: String },
    /// Neither a settings backup nor a wrap pointer of ours was found.
    NoInstallTraces { settings: String, prev_path: String },
    /// The wrap pointer is ours but `statusLine.command` is no longer
    /// tokenwatch.
    StaleWrapPointer { prev_path: String, settings_command: String },
    /// The wrap pointer file is not valid JSON.
    InvalidPrev { path: String },
}

} // verus!

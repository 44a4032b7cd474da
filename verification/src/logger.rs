//! Configuration of the engine's logger; the logger itself does file
//! and console output and lives outside the library.

use vstd::prelude::*;

verus! {

/// How the logger should behave.
#[derive(Clone, Copy, PartialEq, Eq, Structural, Debug)]
pub struct LoggerConfiguration {
    pub is_write_to_file: bool,
}

} // verus!

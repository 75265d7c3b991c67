//! A command to run outside the editor, as configuration names it.
use vstd::prelude::*;

use crate::vec_map::VecMap;

verus! {

/// An external command: the executable, its arguments, and its
/// environment.
pub struct ExternalCommand {
    /// Path of the executable.
    pub command: String,
    /// Command line arguments.
    pub args: Vec<String>,
    /// Environment variables to set.
    pub envs: VecMap<String, String>,
}

} // verus!

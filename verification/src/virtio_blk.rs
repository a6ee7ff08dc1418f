//! Block devices.

use vstd::prelude::*;

verus! {

/// A block device of a VM.
#[derive(Debug, Clone)]
pub struct VirtioBlockConfig {
    /// The image behind it.
    pub path: String,
    pub read_only: bool,
}

} // verus!

//! The plain argument records the command layer hands to the library's
//! operations.

use vstd::prelude::*;

verus! {

/// Arguments for hiding a message: the target tag and the text to store.
#[derive(Debug)]
pub struct EncodeArgs {
    pub chunk_type: String,
    pub msg: String,
}

/// Arguments for recovering a message: the tag to look up.
#[derive(Debug)]
pub struct DecodeArgs {
    pub chunk_type: String,
}

/// Arguments for removing a chunk: the tag to remove.
#[derive(Debug)]
pub struct RemoveArgs {
    pub chunk_type: String,
}

} // verus!

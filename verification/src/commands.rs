//! The commands the tool supports, as plain data: encode a message into a
//! chunk, decode one back out, remove a chunk, or print the chunk list.

use vstd::prelude::*;

use crate::args::{DecodeArgs, EncodeArgs, RemoveArgs};

verus! {

/// One requested operation on a container.
#[derive(Debug)]
pub enum Commands {
    Encode(EncodeArgs),
    Decode(DecodeArgs),
    Remove(RemoveArgs),
    Print,
}

} // verus!

//! Limits that hold where nothing else is configured.
use vstd::prelude::*;

verus! {

/// The largest payload of a frame other than DATA that is buffered: 64 KiB.
pub const DEFAULT_MAX_NON_DATA_FRAME_SIZE: usize = 65536;

} // verus!

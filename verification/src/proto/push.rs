//! The identifier of a server push.
use crate::varint::VarInt;
use vstd::prelude::*;

verus! {

/// The identifier of a server push.
#[derive(Clone, Copy, Debug, PartialEq, Eq, Structural)]
pub struct PushId(pub VarInt);

/// A number that cannot be the identifier of a push.
#[derive(Clone, Copy, Debug, PartialEq, Eq, Structural)]
pub struct InvalidPushId(pub u64);

} // verus!

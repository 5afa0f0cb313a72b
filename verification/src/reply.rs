use vstd::prelude::*;

verus! {

/// A reply under a confession.
#[derive(Clone, Debug)]
pub struct Reply {
    pub text: String,
    pub name: String,
    pub replied_at: String,
}

/// Longest reply, in bytes.
pub const MAX_LENGTH: usize = 100;

} // verus!

use vstd::prelude::*;

verus! {

/// The domain failures of watch registration.
#[derive(Debug, Clone, Copy, PartialEq, Eq, Structural)]
pub enum Error {
    /// The path is already watched.
    AlreadyWatched,
    /// The path is not watched.
    NotWatched,
}

} // verus!

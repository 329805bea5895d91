use vstd::prelude::*;

pub mod corpus;
pub mod graph;
pub mod index;
pub mod minhash;
pub mod record;
pub mod search;
pub mod session;
pub mod text;

verus! {

/// Why a request to the engine could not be served.
#[derive(Clone, Copy, Debug, PartialEq, Eq, Structural)]
pub enum SearchError {
    /// A query token, a session or a result that was asked for does not exist.
    NotFound,
    /// A page number out of range, or signatures of different lengths.
    InvalidArgument,
}

} // verus!

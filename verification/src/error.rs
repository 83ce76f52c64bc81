//! The ways in which a search can fail.

use vstd::prelude::*;

verus! {

/// Why a search gave no hits. A failed search gives none at all: there is no
/// partial page.
#[derive(Clone, Copy, Debug, PartialEq, Eq, Structural)]
pub enum ElasticsearchError {
    /// The source of a hit is not an object.
    MalformedDocument,
    /// The answer of the search engine is not of the expected shape.
    BackendProtocolError,
    /// The search engine could not be reached, or the transport failed.
    BackendUnavailable,
}

} // verus!

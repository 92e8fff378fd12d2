//! Document-retrieval data shared with the caller: the per-file summary the
//! store reports, and the reranking service handle.  Embeddings, similarity
//! scores and the store itself work on floating-point vectors and stay with
//! the caller.

use vstd::prelude::*;

verus! {

/// What the document store reports about one ingested file: its chunks are
/// summarized by count rather than carried along.
pub struct FileInfoSummary {
    pub file_path: String,
    pub file_name: String,
    pub file_type: String,
    pub chunk_count: usize,
    pub created_at: i64,
}

/// A handle for the reranking step of a search.  The scoring itself is the
/// caller's: it mixes floating-point similarity scores.
pub struct RerankerService {}

impl RerankerService {
    /// A reranker needs no state of its own.
    pub fn new() -> (s: RerankerService)
        ensures
            s == (RerankerService {  }),
    {
        RerankerService {  }
    }
}

} // verus!

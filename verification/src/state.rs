//! Settings shared by the request handlers.
use std::sync::Arc;
use vstd::prelude::*;

verus! {

/// The limits the service judges with.
#[derive(Clone)]
pub struct AppState {
    pub max_line_len: usize,
    pub max_body_bytes: usize,
}

impl AppState {
    /// Shared settings holding the two limits.
    pub fn new(max_line_len: usize, max_body_bytes: usize) -> (r: Arc<Self>)
        ensures
            r.max_line_len == max_line_len,
            r.max_body_bytes == max_body_bytes,
    {
        Arc::new(Self { max_line_len, max_body_bytes })
    }
}

} // verus!

//! Index lifecycle status, surfaced to the UI.

use vstd::prelude::*;

verus! {

/// A snapshot of the index's state for the status bar.
#[derive(Debug)]
pub struct IndexStatus {
    /// One of `"indexing"`, `"ready"`, `"error"`.
    pub state: String,
    pub count: usize,
    pub volume: String,
    pub message: String,
}

/// What an [`IndexStatus`] holds.
#[verifier::ext_equal]
pub struct StatusView {
    pub state: Seq<char>,
    pub count: usize,
    pub volume: Seq<char>,
    pub message: Seq<char>,
}

impl View for IndexStatus {
    type V = StatusView;

    open spec fn view(&self) -> StatusView {
        StatusView {
            state: self.state@,
            count: self.count,
            volume: self.volume@,
            message: self.message@,
        }
    }
}

/// The status while `volume` is being indexed.
pub open spec fn indexing_of(volume: Seq<char>, count: usize) -> StatusView {
    StatusView { state: "indexing"@, count, volume, message: Seq::empty() }
}

/// The status of an index that is ready.
pub open spec fn ready_of(volume: Seq<char>, count: usize) -> StatusView {
    StatusView { state: "ready"@, count, volume, message: Seq::empty() }
}

/// The status of an index that failed.
pub open spec fn error_of(volume: Seq<char>, message: Seq<char>) -> StatusView {
    StatusView { state: "error"@, count: 0, volume, message }
}

impl IndexStatus {
    /// The status while `volume` is being indexed.
    pub fn indexing(volume: String, count: usize) -> (r: Self)
        ensures
            r@ == indexing_of(volume@, count),
    {
        IndexStatus { state: "indexing".to_string(), count, volume, message: String::new() }
    }

    /// The status of an index that is ready.
    pub fn ready(volume: String, count: usize) -> (r: Self)
        ensures
            r@ == ready_of(volume@, count),
    {
        IndexStatus { state: "ready".to_string(), count, volume, message: String::new() }
    }

    /// The status of an index that failed.
    pub fn error(volume: String, message: String) -> (r: Self)
        ensures
            r@ == error_of(volume@, message@),
    {
        IndexStatus { state: "error".to_string(), count: 0, volume, message }
    }
}

} // verus!

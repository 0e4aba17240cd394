//! Search result rows.

use vstd::prelude::*;

verus! {

/// One search result row.
#[derive(Debug)]
pub struct Hit {
    pub name: String,
    pub path: String,
    /// Size in bytes; `-1` for directories or unknown.
    pub size: i64,
    /// Last-modified Unix milliseconds; `0` when unknown.
    pub modified: i64,
    /// Creation Unix milliseconds; `0` when unknown.
    pub created: i64,
    /// Last-accessed Unix milliseconds; `0` when unknown.
    pub accessed: i64,
    /// Windows DOS file attributes bitmask.
    pub attributes: u32,
    pub is_dir: bool,
}

/// What a [`Hit`] holds.
#[verifier::ext_equal]
pub struct HitView {
    pub name: Seq<char>,
    pub path: Seq<char>,
    pub size: i64,
    pub modified: i64,
    pub created: i64,
    pub accessed: i64,
    pub attributes: u32,
    pub is_dir: bool,
}

impl View for Hit {
    type V = HitView;

    open spec fn view(&self) -> HitView {
        HitView {
            name: self.name@,
            path: self.path@,
            size: self.size,
            modified: self.modified,
            created: self.created,
            accessed: self.accessed,
            attributes: self.attributes,
            is_dir: self.is_dir,
        }
    }
}

impl Clone for Hit {
    fn clone(&self) -> (r: Self)
        ensures
            r == *self,
    {
        Hit {
            name: self.name.clone(),
            path: self.path.clone(),
            size: self.size,
            modified: self.modified,
            created: self.created,
            accessed: self.accessed,
            attributes: self.attributes,
            is_dir: self.is_dir,
        }
    }
}

/// What the rows hold, in order.
pub open spec fn rows(hits: Seq<Hit>) -> Seq<HitView> {
    hits.map_values(|h: Hit| h@)
}

/// The full response for one search.
#[derive(Debug)]
pub struct SearchResult {
    pub total: usize,
    pub took_ms: u128,
    pub hits: Vec<Hit>,
    pub error: Option<String>,
    /// The result set was truncated (more matched than were returned/scanned).
    /// Set by content search when the candidate pool hit its cap.
    pub capped: bool,
}

impl Default for SearchResult {
    fn default() -> (r: Self)
        ensures
            r.total == 0,
            r.took_ms == 0,
            r.hits@ == Seq::<Hit>::empty(),
            r.error is None,
            !r.capped,
    {
        SearchResult { total: 0, took_ms: 0, hits: Vec::new(), error: None, capped: false }
    }
}

impl SearchResult {
    /// A response without rows that carries a message.
    pub fn error(message: String, took_ms: u128) -> (r: Self)
        ensures
            r.total == 0,
            r.took_ms == took_ms,
            r.hits@ == Seq::<Hit>::empty(),
            r.error == Some(message),
            !r.capped,
    {
        SearchResult { total: 0, took_ms, hits: Vec::new(), error: Some(message), capped: false }
    }
}

} // verus!

//! What the UI's search and export commands ask of the index, and what they make of
//! the answer.

use crate::catalog;
use crate::catalog::Catalog;
use crate::content;
use crate::content::{content_scope_ok, extract_content, filter_by_content};
use crate::export;
use crate::export::ExportFormat;
use crate::hit::{Hit, SearchResult};
use crate::matcher::Matcher;
use crate::query;
use crate::search::SearchOptions;
use vstd::prelude::*;
use vstd::string::*;

verus! {

/// Shown when `content:` is combined with a top-level OR, which can't be scoped.
pub const CONTENT_OR_ERR: &'static str =
    "content: applies to every result and can't be combined with a top-level OR (|). Put the alternation in parentheses, e.g. content:foo (a | b).";

/// Candidate cap for content search: the index narrows to this many files, whose
/// bodies are then searched. A bare `content:` scans the first of all files.
pub const CONTENT_CANDIDATE_CAP: usize = 50_000;

/// Upper bound on rows written by a single export: a guardrail, not a normal limit.
pub const EXPORT_CAP: usize = 1_000_000;

/// How a search whose query may hold `content:` terms proceeds.
#[derive(Debug)]
pub enum ContentPlan {
    /// It holds none: a plain search with these options.
    Plain(SearchOptions),
    /// Search for candidates with these options, and keep those whose bodies hold
    /// every term.
    Scan { options: SearchOptions, terms: Vec<String> },
}

/// The options with the `content:` terms taken out of the query.
pub open spec fn without_content(from: SearchOptions, to: SearchOptions, limit: usize) -> bool {
    to == (SearchOptions { query: to.query, limit, ..from }) && to.query@ == content::content_rest(
        from.query@,
    )
}

/// Whether the terms are the `content:` terms of a query.
pub open spec fn terms_of(query: Seq<char>, terms: Seq<String>) -> bool {
    terms.map_values(|t: String| t@) == content::content_terms(query)
}

/// Whether a query holds `content:` terms that cannot apply to every result of it.
pub open spec fn out_of_scope(query: Seq<char>) -> bool {
    content::content_terms(query).len() > 0 && !content::scope_ok(query::tokens_of(query))
}

/// Plan a search inside files. Without a content term (mid-typing a bare `content:`)
/// it is a plain search on the cleaned query: the raw query would look for a literal
/// `content:` and wrongly give nothing.
pub fn search_content(options: &SearchOptions) -> (r: Result<ContentPlan, String>)
    ensures
        match r {
            Err(message) => out_of_scope(options.query@) && message@ == CONTENT_OR_ERR@,
            Ok(ContentPlan::Plain(o)) => {
                &&& content::content_terms(options.query@).len() == 0
                &&& without_content(*options, o, options.limit)
            },
            Ok(ContentPlan::Scan { options: o, terms }) => {
                &&& content::content_terms(options.query@).len() > 0
                &&& !out_of_scope(options.query@)
                &&& without_content(*options, o, CONTENT_CANDIDATE_CAP)
                &&& terms_of(options.query@, terms@)
            },
        },
{
    let (clean_query, terms) = extract_content(options.query.as_str());
    let mut opts = options.clone();
    opts.query = clean_query;
    assert(terms@.len() == content::content_terms(options.query@).len());
    if terms.len() == 0 {
        return Ok(ContentPlan::Plain(opts));
    }
    if !content_scope_ok(options.query.as_str()) {
        return Err(CONTENT_OR_ERR.to_string());
    }
    opts.limit = CONTENT_CANDIDATE_CAP;
    Ok(ContentPlan::Scan { options: opts, terms })
}

/// The result of a content search, given the candidates, which of them stay, how many
/// rows are shown and how long it took. A failed search for candidates is passed on.
/// The total is the true match count; a pool of candidates over the cap makes the
/// scan partial, which the result says.
pub fn content_result(
    candidates: SearchResult,
    matched: &Vec<bool>,
    display_limit: usize,
    took_ms: u128,
) -> (r: SearchResult)
    ensures
        candidates.error is Some ==> r == candidates,
        candidates.error is None ==> {
            let kept = content::picked(candidates.hits@, matched@);
            &&& r.total == kept.len()
            &&& r.took_ms == took_ms
            &&& r.hits@ == catalog::first_of(kept, display_limit as int)
            &&& r.error is None
            &&& r.capped == (candidates.total > CONTENT_CANDIDATE_CAP)
        },
{
    if candidates.error.is_some() {
        return candidates;
    }
    let capped = candidates.total > CONTENT_CANDIDATE_CAP;
    let mut hits = filter_by_content(candidates.hits, matched);
    let total: usize = hits.len();
    if display_limit < hits.len() {
        hits.truncate(display_limit);
    }
    SearchResult { total, took_ms, hits, error: None, capped }
}

/// How an export proceeds: the format, the search for its rows, and the content terms
/// that the rows' bodies must hold.
#[derive(Debug)]
pub struct ExportPlan {
    pub format: ExportFormat,
    pub options: SearchOptions,
    pub terms: Vec<String>,
}

/// What the user is told of a format that is not known.
pub open spec fn unknown_format(format: Seq<char>) -> Seq<char> {
    "unknown format '"@ + format + "'"@
}

/// Plan an export of the full result set as `format` (`csv`/`txt`/`efu`). A content
/// export is bounded by the candidate cap (each file is read), not the much larger
/// row cap of a pure index export.
pub fn export_results(options: &SearchOptions, format: &str) -> (r: Result<ExportPlan, String>)
    ensures
        match r {
            Err(message) => if export::format_of(format@) is None {
                message@ == unknown_format(format@)
            } else {
                out_of_scope(options.query@) && message@ == CONTENT_OR_ERR@
            },
            Ok(plan) => {
                &&& export::format_of(format@) == Some(plan.format)
                &&& !out_of_scope(options.query@)
                &&& terms_of(options.query@, plan.terms@)
                &&& without_content(
                    *options,
                    plan.options,
                    if plan.terms@.len() > 0 {
                        CONTENT_CANDIDATE_CAP
                    } else {
                        EXPORT_CAP
                    },
                )
            },
        },
{
    let fmt = match ExportFormat::parse(format) {
        Some(f) => f,
        None => {
            let mut message = String::new();
            message.append("unknown format '");
            message.append(format);
            message.append("'");
            assert(message@ =~= unknown_format(format@));
            return Err(message);
        },
    };
    let (clean_query, terms) = extract_content(options.query.as_str());
    assert(terms@.len() == content::content_terms(options.query@).len());
    if terms.len() > 0 && !content_scope_ok(options.query.as_str()) {
        return Err(CONTENT_OR_ERR.to_string());
    }
    let mut opts = options.clone();
    opts.query = clean_query;
    opts.limit = if terms.len() > 0 {
        CONTENT_CANDIDATE_CAP
    } else {
        EXPORT_CAP
    };
    Ok(ExportPlan { format: fmt, options: opts, terms })
}

/// Outcome of an export: rows actually `written` and the `total` that matched. They
/// differ only when more rows matched than an export writes, letting the UI flag a
/// capped (incomplete) export instead of reporting it as complete.
#[derive(Debug, Clone, Copy, PartialEq, Eq, Structural)]
pub struct ExportSummary {
    pub written: usize,
    pub total: usize,
    /// A content export whose candidate pool was truncated (incomplete scan).
    pub capped: bool,
}

/// The rows that an export writes and its summary, given the answer of the index and,
/// for a content export, which of the rows stay. A failed search is passed on.
pub fn export_rows(result: SearchResult, matched: Option<&Vec<bool>>) -> (r: Result<
    (Vec<Hit>, ExportSummary),
    String,
>)
    ensures
        match r {
            Err(e) => result.error == Some(e),
            Ok((rows, summary)) => {
                &&& result.error is None
                &&& rows@ == match matched {
                    Some(m) => content::picked(result.hits@, m@),
                    None => result.hits@,
                }
                &&& summary.written == rows@.len()
                &&& summary.total == match matched {
                    Some(_) => rows@.len(),
                    None => result.total as nat,
                }
                &&& summary.capped == (matched is Some && result.total > CONTENT_CANDIDATE_CAP)
            },
        },
{
    if let Some(e) = result.error {
        return Err(e);
    }
    match matched {
        Some(m) => {
            let capped = result.total > CONTENT_CANDIDATE_CAP;
            let rows = filter_by_content(result.hits, m);
            let written: usize = rows.len();
            Ok((rows, ExportSummary { written, total: written, capped }))
        },
        None => {
            let written: usize = result.hits.len();
            let total: usize = result.total;
            Ok((result.hits, ExportSummary { written, total, capped: false }))
        },
    }
}

/// An export of an index is complete exactly when no more rows matched than an export
/// writes: what is written is what matched, up to the cap.
pub proof fn law_export_complete(
    index: Catalog,
    opts: SearchOptions,
    m: Matcher,
    result: SearchResult,
)
    requires
        opts.limit == EXPORT_CAP,
        index.answered(opts, m, result),
    ensures
        (result.hits@.len() == result.total) == (result.total <= EXPORT_CAP),
        result.hits@.len() <= EXPORT_CAP,
{
    catalog::law_row_count(index, opts, m, result);
}

} // verus!

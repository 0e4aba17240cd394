//! Laws of searches by content and of what commands make of them.

use crate::commands;
use crate::commands::{ContentPlan, ExportPlan, ExportSummary};
use crate::content;
use crate::export;
use crate::export::ExportFormat;
use crate::hit::{Hit, SearchResult};
use crate::query;
use crate::search::SearchOptions;
use crate::text;
use crate::wide;
use crate::word_laws;
use vstd::prelude::*;

verus! {

/// The bytes of the units, the low one of each first or last.
pub open spec fn unit_bytes(units: Seq<u16>, low_first: bool) -> Seq<u8>
    decreases units.len(),
{
    if units.len() == 0 {
        Seq::empty()
    } else {
        let low = (units[0] % 256) as u8;
        let high = (units[0] / 256) as u8;
        (if low_first {
            seq![low, high]
        } else {
            seq![high, low]
        }) + unit_bytes(units.drop_first(), low_first)
    }
}

proof fn lemma_unit_bytes(units: Seq<u16>, low_first: bool)
    ensures
        content::units(unit_bytes(units, low_first), low_first) == units,
    decreases units.len(),
{
    let b = unit_bytes(units, low_first);
    if units.len() == 0 {
        assert(units =~= Seq::empty());
    } else {
        let rest = units.drop_first();
        lemma_unit_bytes(rest, low_first);
        let low = (units[0] % 256) as u8;
        let high = (units[0] / 256) as u8;
        assert(low + high * 256 == units[0]);
        assert(b.skip(2) =~= unit_bytes(rest, low_first));
        if low_first {
            assert(b[0] == low && b[1] == high);
        } else {
            assert(b[0] == high && b[1] == low);
        }
        assert(seq![units[0]] + rest =~= units);
    }
}

/// A file that starts with a byte order mark is read in UTF-16 by that mark.
pub proof fn law_decode_marked(s: Seq<char>)
    ensures
        content::decoded(seq![0xFFu8, 0xFEu8] + unit_bytes(wide::utf16_of(s), true)) == Some(s),
        content::decoded(seq![0xFEu8, 0xFFu8] + unit_bytes(wide::utf16_of(s), false)) == Some(s),
{
    let little = unit_bytes(wide::utf16_of(s), true);
    let big = unit_bytes(wide::utf16_of(s), false);
    lemma_unit_bytes(wide::utf16_of(s), true);
    lemma_unit_bytes(wide::utf16_of(s), false);
    wide::law_utf16_round_trip(s);
    assert((seq![0xFFu8, 0xFEu8] + little).skip(2) =~= little);
    assert((seq![0xFEu8, 0xFFu8] + big).skip(2) =~= big);
}

/// Another file is binary exactly where a zero stands among its first 8192 bytes; the text
/// of one that is not and is valid UTF-8 is read as that.
pub proof fn law_decode_plain(bytes: &[u8], r: Option<String>)
    requires
        bytes@.len() >= 2 ==> !(bytes@[0] == 0xFF && bytes@[1] == 0xFE) && !(bytes@[0] == 0xFE
            && bytes@[1] == 0xFF),
        call_ensures(content::decode, (bytes,), r),
    ensures
        r is None <==> exists|i: int| 0 <= i < 8192 && i < bytes@.len() && #[trigger] bytes@[i] == 0,
        r is Some && vstd::utf8::valid_utf8(bytes@) ==> (r->0)@ == vstd::utf8::decode_utf8(bytes@),
{
}

/// A row stays where it is a file and no link, could be read, and its text has every
/// needle somewhere; folded where letter case does not matter.
pub proof fn law_keeps(hit: Hit, body: &[u8], needles: Vec<String>, match_case: bool, r: bool)
    requires
        call_ensures(content::keeps, (&hit, Some(body), &needles, match_case), r),
    ensures
        r ==> !hit.is_dir && hit.attributes & 0x400 == 0 && content::decoded(body@) is Some,
        !hit.is_dir && hit.attributes & 0x400 == 0 ==> (content::decoded(body@) matches Some(t)
            ==> (r <==> forall|i: int|
            0 <= i < needles@.len() ==> text::has_text(
                if match_case {
                    t
                } else {
                    text::lower(t)
                },
                (#[trigger] needles@[i])@,
            ))),
{
}

/// A row whose file could not be read does not stay.
pub proof fn law_unread(hit: Hit, needles: Vec<String>, match_case: bool, r: bool)
    requires
        call_ensures(content::keeps, (&hit, None::<&[u8]>, &needles, match_case), r),
    ensures
        !r,
{
}

/// The body of a file is wanted, and not that of a folder or of a link.
pub proof fn law_wants_body(hit: Hit, r: bool)
    requires
        call_ensures(content::wants_body, (&hit,), r),
    ensures
        r <==> !hit.is_dir && hit.attributes & 0x400 == 0,
{
}

/// The needles are the terms, folded where letter case does not matter.
pub proof fn law_needles(terms: Vec<String>, match_case: bool, r: Vec<String>, i: int)
    requires
        call_ensures(content::content_needles, (&terms, match_case), r),
        0 <= i < terms@.len(),
    ensures
        r@.len() == terms@.len(),
        r@[i]@ == if match_case {
            terms@[i]@
        } else {
            text::lower(terms@[i]@)
        },
{
}

/// The rows that stay are picked one by one, in their order.
pub proof fn law_picked_parts<T>(a: Seq<T>, x: Seq<bool>, b: Seq<T>, y: Seq<bool>)
    requires
        a.len() == x.len(),
    ensures
        content::picked(a + b, x + y) == content::picked(a, x) + content::picked(b, y),
        a.len() == 1 ==> content::picked(a, x) == if x[0] {
            a
        } else {
            Seq::empty()
        },
    decreases a.len(),
{
    if a.len() == 0 {
        assert(a + b =~= b);
        assert(x + y =~= y);
        assert(content::picked(a, x) + content::picked(b, y) =~= content::picked(b, y));
    } else {
        let (c, z) = (a.drop_first(), x.drop_first());
        law_picked_parts(c, z, b, y);
        assert((a + b).drop_first() =~= c + b);
        assert((x + y).drop_first() =~= z + y);
        assert((a + b)[0] == a[0] && (x + y)[0] == x[0]);
        assert(content::picked(a + b, x + y) =~= content::picked(a, x) + content::picked(b, y));
    }
    if a.len() == 1 {
        let none = Seq::<T>::empty();
        assert(a.drop_first() =~= none);
        assert(content::picked(a.drop_first(), x.drop_first()) =~= none);
        assert(content::picked(a, x) =~= if x[0] {
            a
        } else {
            none
        });
    }
}

/// How many of the marks are set.
pub open spec fn set_marks(x: Seq<bool>) -> nat
    decreases x.len(),
{
    if x.len() == 0 {
        0
    } else {
        set_marks(x.drop_first()) + if x[0] {
            1nat
        } else {
            0
        }
    }
}

proof fn lemma_picked_count<T>(a: Seq<T>, x: Seq<bool>)
    requires
        a.len() == x.len(),
    ensures
        content::picked(a, x).len() == set_marks(x),
    decreases a.len(),
{
    if a.len() > 0 {
        lemma_picked_count(a.drop_first(), x.drop_first());
    }
}

/// Whether a row is one of those whose mark is set.
pub open spec fn stayed(rows: Seq<Hit>, marks: Seq<bool>, row: Hit) -> bool {
    exists|i: int| 0 <= i < rows.len() && i < marks.len() && marks[i] && #[trigger] rows[i] == row
}

/// A search by content says how many rows stayed, shows as many of them as asked for, and
/// says that it is incomplete where more than 50000 files came into question. A failed
/// search is passed on.
pub proof fn law_content_result(
    candidates: SearchResult,
    matched: Vec<bool>,
    limit: usize,
    took_ms: u128,
    r: SearchResult,
)
    requires
        call_ensures(commands::content_result, (candidates, &matched, limit, took_ms), r),
        matched@.len() == candidates.hits@.len(),
    ensures
        candidates.error is Some ==> r == candidates,
        candidates.error is None ==> {
            &&& r.error is None
            &&& r.total == set_marks(matched@)
            &&& r.hits@.len() == if r.total < limit {
                r.total
            } else {
                limit
            }
            &&& r.capped <==> candidates.total > 50_000
            &&& r.took_ms == took_ms
            &&& forall|k: int|
                0 <= k < r.hits@.len() ==> stayed(candidates.hits@, matched@, #[trigger] r.hits@[k])
        },
{
    if candidates.error is None {
        let kept = content::picked(candidates.hits@, matched@);
        lemma_picked_count(candidates.hits@, matched@);
        assert forall|k: int| 0 <= k < r.hits@.len() implies stayed(
            candidates.hits@,
            matched@,
            #[trigger] r.hits@[k],
        ) by {
            assert(r.hits@[k] == kept[k]);
            content::law_picked(candidates.hits@, matched@, k);
            let i = choose|i: int|
                0 <= i < candidates.hits@.len() && i < matched@.len() && matched@[i] && #[trigger]
                    candidates.hits@[i] == kept[k];
            assert(candidates.hits@[i] == r.hits@[k]);
        }
    }
}

/// Whether two sets of options ask the same of the index but for the query and the limit.
pub open spec fn asks_alike(a: SearchOptions, b: SearchOptions) -> bool {
    &&& a.regex == b.regex
    &&& a.match_case == b.match_case
    &&& a.whole_word == b.whole_word
    &&& a.match_path == b.match_path
    &&& a.sort == b.sort
    &&& a.ascending == b.ascending
    &&& a.folders_first == b.folders_first
}

/// A search without content terms goes to the index as it is, but for the spaces between
/// its words; one with content terms asks it for up to 50000 files without them.
pub proof fn law_content_plan(options: SearchOptions, r: Result<ContentPlan, String>)
    requires
        call_ensures(commands::search_content, (&options,), r),
    ensures
        r matches Ok(ContentPlan::Plain(o)) ==> asks_alike(o, options) && o.limit == options.limit
            && content::content_terms(options.query@).len() == 0,
        r matches Ok(ContentPlan::Scan { options: o, terms }) ==> asks_alike(o, options) && o.limit
            == 50_000 && terms@.len() == content::content_terms(options.query@).len() && terms@.len()
            > 0,
        content::content_terms(options.query@).len() == 0 ==> r is Ok,
{
    if let Ok(ContentPlan::Scan { options: o, terms }) = r {
        assert(terms@.map_values(|t: String| t@).len() == terms@.len());
    }
}

/// The format that each name stands for.
pub proof fn law_formats(name: &str, r: Option<ExportFormat>)
    requires
        call_ensures(ExportFormat::parse, (name,), r),
    ensures
        r == Some(ExportFormat::Csv) <==> name@ == seq!['c', 's', 'v'],
        r == Some(ExportFormat::Txt) <==> name@ == seq!['t', 'x', 't'],
        r == Some(ExportFormat::Efu) <==> name@ == seq!['e', 'f', 'u'],
{
    reveal_strlit("csv");
    reveal_strlit("txt");
    reveal_strlit("efu");
    assert("csv"@ =~= seq!['c', 's', 'v']);
    assert("txt"@ =~= seq!['t', 'x', 't']);
    assert("efu"@ =~= seq!['e', 'f', 'u']);
    assert(seq!['c', 's', 'v'][0] == 'c' && seq!['t', 'x', 't'][0] == 't');
    assert(seq!['e', 'f', 'u'][0] == 'e');
}

/// An export asks the index for up to a million rows, and for one by content for as many
/// files as any search by content.
pub proof fn law_export_plan(options: SearchOptions, format: &str, r: Result<ExportPlan, String>)
    requires
        call_ensures(commands::export_results, (&options, format), r),
    ensures
        r matches Ok(plan) ==> {
            &&& asks_alike(plan.options, options)
            &&& export::format_of(format@) == Some(plan.format)
            &&& plan.terms@.len() == content::content_terms(options.query@).len()
            &&& plan.options.limit == if plan.terms@.len() == 0 {
                1_000_000usize
            } else {
                50_000usize
            }
        },
        export::format_of(format@) is None ==> r is Err,
{
    if let Ok(plan) = r {
        assert(plan.terms@.map_values(|t: String| t@).len() == plan.terms@.len());
    }
}

/// An export says how many rows it wrote and how many there are; by content it writes the
/// rows that stayed, and is incomplete where more than 50000 files came into question.
pub proof fn law_export_rows(
    result: SearchResult,
    plain: Result<(Vec<Hit>, ExportSummary), String>,
    matched: Vec<bool>,
    by_content: Result<(Vec<Hit>, ExportSummary), String>,
)
    requires
        call_ensures(commands::export_rows, (result, None::<&Vec<bool>>), plain),
        call_ensures(commands::export_rows, (result, Some(&matched)), by_content),
        matched@.len() == result.hits@.len(),
    ensures
        plain is Ok <==> result.error is None,
        by_content is Ok <==> result.error is None,
        plain matches Ok(p) ==> p.0@ == result.hits@ && p.1.written == result.hits@.len()
            && p.1.total == result.total && !p.1.capped,
        by_content matches Ok(p) ==> p.0@.len() == set_marks(matched@) && p.1.written
            == set_marks(matched@) && p.1.total == set_marks(matched@) && (p.1.capped
            <==> result.total > 50_000),
{
    lemma_picked_count(result.hits@, matched@);
}

/// A content term in quotes is what stands between them, spaces and all.
#[verifier::rlimit(40)]
pub proof fn law_quoted_term(body: Seq<char>)
    requires
        body.len() > 0,
        forall|i: int| 0 <= i < body.len() ==> #[trigger] body[i] != '"',
    ensures
        content::content_terms("content:"@ + seq!['"'] + body + seq!['"']) == seq![body],
        content::content_rest("content:"@ + seq!['"'] + body + seq!['"']) == Seq::<char>::empty(),
{
    let none = Seq::<char>::empty();
    let word = "content:"@;
    let q = word + seq!['"'] + body + seq!['"'];
    reveal_strlit("content:");
    assert(q.take(8) =~= word);
    let s = q.skip(8);
    assert(s =~= seq!['"'] + body + seq!['"']);
    let inside = s.drop_first();
    assert(inside =~= body + seq!['"'] + none);
    word_laws::lemma_until_quote(body, none);
    assert(inside.take(body.len() as int) =~= body);
    assert(query::after_quote(inside) =~= none);
    assert(content::content_term(s) == body);
    assert(content::after_term(s) == none);
    assert(content::split_content(none, false) == (none, Seq::<Seq<char>>::empty()));
    assert(content::split_content(q, true) == (
        none,
        seq![body] + Seq::<Seq<char>>::empty(),
    ));
    assert(seq![body] + Seq::<Seq<char>>::empty() =~= seq![body]);
    assert(text::words_from(none, none) =~= Seq::empty());
    assert(text::spaced(Seq::empty()) =~= none);
}

/// A content term starts with `content:`, in any letter case.
#[verifier::rlimit(40)]
pub proof fn law_content_prefix(s: Seq<char>)
    ensures
        content::starts_content(s) <==> s.len() >= 8 && (s[0] == 'c' || s[0] == 'C') && (s[1] == 'o'
            || s[1] == 'O') && (s[2] == 'n' || s[2] == 'N') && (s[3] == 't' || s[3] == 'T') && (s[4]
            == 'e' || s[4] == 'E') && (s[5] == 'n' || s[5] == 'N') && (s[6] == 't' || s[6] == 'T')
            && s[7] == ':',
{
    reveal_strlit("content:");
    let word = text::ascii_lowered("content:"@);
    assert(word =~= "content:"@);
    if s.len() >= 8 {
        let head = text::ascii_lowered(s.take(8));
        assert(head.len() == 8);
        assert forall|i: int| 0 <= i < 8 implies #[trigger] head[i] == text::ascii_lower(s[i]) by {
            assert(s.take(8)[i] == s[i]);
        }
        if content::starts_content(s) {
            assert(head[0] == 'c' && head[1] == 'o' && head[2] == 'n' && head[3] == 't' && head[4]
                == 'e' && head[5] == 'n' && head[6] == 't' && head[7] == ':');
        }
        if head[0] == 'c' && head[1] == 'o' && head[2] == 'n' && head[3] == 't' && head[4] == 'e'
            && head[5] == 'n' && head[6] == 't' && head[7] == ':' {
            assert(head =~= word);
        }
    }
}

} // verus!

//! Search options, the single tests that a query is made of, and what a word of
//! a query becomes.
//!
//! The query language mirrors voidtools Everything: space-separated terms are
//! AND-combined, `|` is OR, `!` negates the following term, parentheses group,
//! and `"quoted"` text is a literal phrase. `*`/`?` wildcards, whole-word and
//! regex modes, case sensitivity, full-path matching, and the `ext:`, `path:`,
//! `file:`, `folder:`, `size:`, `dm:`/`dc:`/`da:` (modified / created / accessed
//! dates) and `attrib:` functions are all terms, so e.g. `ext:dll | ext:exe`,
//! `report !draft`, `"my file" size:>1mb`, `dm:today` and `attrib:h` all work.

use crate::dates;
use crate::dates::{date_within, parse_date_filter, DateFilter};
use crate::pattern;
use crate::pattern::{build_regex, glob_pattern, regex_is_match, word_pattern};
use crate::query;
use crate::query::TokenView;
use crate::size;
use crate::size::{parse_size_filter, size_within, SizeFilter};
use crate::text;
use crate::text::{
    chars_of, contains_char, contains_text, copy_range, is_text_ignore_case, lowercase,
    string_of, strip_prefix, to_ascii_lower,
};
use regex::Regex;
use vstd::prelude::*;

verus! {

/// Which column results are ordered by.
#[derive(Debug, Clone, Copy, PartialEq, Eq, Structural)]
pub enum SortKey {
    Name,
    Path,
    Size,
    Modified,
    Created,
    Accessed,
    Ext,
    Attributes,
}

impl Default for SortKey {
    fn default() -> (r: Self)
        ensures
            r == SortKey::Name,
    {
        SortKey::Name
    }
}

/// The entry fields a matcher inspects. `path` / `path_lower` may be empty
/// strings when the matcher needs no path. Borrowed, so building one per
/// candidate entry allocates nothing.
pub struct EntryView<'a> {
    pub name: &'a str,
    pub name_lower: &'a str,
    pub path: &'a str,
    pub path_lower: &'a str,
    pub is_dir: bool,
    pub size: Option<u64>,
    pub modified_ms: Option<i64>,
    pub created_ms: Option<i64>,
    pub accessed_ms: Option<i64>,
    pub attributes: u32,
}

/// What an [`EntryView`] holds.
#[verifier::ext_equal]
pub struct Facts {
    pub name: Seq<char>,
    pub name_lower: Seq<char>,
    pub path: Seq<char>,
    pub path_lower: Seq<char>,
    pub is_dir: bool,
    pub size: Option<u64>,
    pub modified_ms: Option<i64>,
    pub created_ms: Option<i64>,
    pub accessed_ms: Option<i64>,
    pub attributes: u32,
}

impl<'a> View for EntryView<'a> {
    type V = Facts;

    open spec fn view(&self) -> Facts {
        Facts {
            name: self.name@,
            name_lower: self.name_lower@,
            path: self.path@,
            path_lower: self.path_lower@,
            is_dir: self.is_dir,
            size: self.size,
            modified_ms: self.modified_ms,
            created_ms: self.created_ms,
            accessed_ms: self.accessed_ms,
            attributes: self.attributes,
        }
    }
}

/// Everything-style search options sent from the UI (or a service client).
#[derive(Debug)]
pub struct SearchOptions {
    pub query: String,
    pub limit: usize,
    pub match_case: bool,
    pub whole_word: bool,
    pub regex: bool,
    pub match_path: bool,
    pub sort: SortKey,
    pub ascending: bool,
    /// Group directories ahead of files, regardless of the sort column/direction.
    pub folders_first: bool,
}

impl Default for SearchOptions {
    fn default() -> (r: Self)
        ensures
            r.query@ == Seq::<char>::empty(),
            r.limit == 5000,
            !r.match_case,
            !r.whole_word,
            !r.regex,
            !r.match_path,
            r.sort == SortKey::Name,
            r.ascending,
            !r.folders_first,
    {
        SearchOptions {
            query: String::new(),
            limit: 5000,
            match_case: false,
            whole_word: false,
            regex: false,
            match_path: false,
            sort: SortKey::Name,
            ascending: true,
            folders_first: false,
        }
    }
}

impl Clone for SearchOptions {
    fn clone(&self) -> (r: Self)
        ensures
            r == *self,
    {
        SearchOptions {
            query: self.query.clone(),
            limit: self.limit,
            match_case: self.match_case,
            whole_word: self.whole_word,
            regex: self.regex,
            match_path: self.match_path,
            sort: self.sort,
            ascending: self.ascending,
            folders_first: self.folders_first,
        }
    }
}

/// Which timestamp a date predicate tests.
#[derive(Clone, Copy, PartialEq, Eq, Structural)]
pub enum DateField {
    Modified,
    Created,
    Accessed,
}

/// Whether a text predicate matches the file name or the full path.
#[derive(Clone, Copy, PartialEq, Eq, Structural)]
pub enum TextTarget {
    Name,
    Path,
}

/// How a text predicate matches.
pub enum TextKind {
    /// Substring; pre-cased to match the haystack casing.
    Plain(String),
    /// Compiled wildcard / whole-word / regex pattern (case flag baked in).
    Re(Regex),
}

/// What a [`TextKind`] stands for.
#[verifier::ext_equal]
pub enum TextView {
    Plain(Seq<char>),
    /// A pattern and whether it ignores letter case.
    Re(Seq<char>, bool),
}

impl View for TextKind {
    type V = TextView;

    open spec fn view(&self) -> TextView {
        match self {
            TextKind::Plain(s) => TextView::Plain(s@),
            TextKind::Re(re) => TextView::Re(
                pattern::regex_source(*re).0,
                pattern::regex_source(*re).1,
            ),
        }
    }
}

/// A single test against one entry.
pub enum Pred {
    Text { target: TextTarget, kind: TextKind },
    /// The name's extension is one of these.
    Ext(Vec<String>),
    Size(SizeFilter),
    Date { field: DateField, filter: DateFilter },
    /// All bits in the mask must be set in the entry's attributes.
    Attrib(u32),
    File,
    Folder,
}

/// What a [`Pred`] stands for.
#[verifier::ext_equal]
pub enum PredView {
    Text { target: TextTarget, kind: TextView },
    Ext(Seq<Seq<char>>),
    Size(SizeFilter),
    Date { field: DateField, filter: DateFilter },
    Attrib(u32),
    File,
    Folder,
}

impl View for Pred {
    type V = PredView;

    open spec fn view(&self) -> PredView {
        match self {
            Pred::Text { target, kind } => PredView::Text { target: *target, kind: kind@ },
            Pred::Ext(list) => PredView::Ext(list@.map_values(|s: String| s@)),
            Pred::Size(f) => PredView::Size(*f),
            Pred::Date { field, filter } => PredView::Date { field: *field, filter: *filter },
            Pred::Attrib(mask) => PredView::Attrib(*mask),
            Pred::File => PredView::File,
            Pred::Folder => PredView::Folder,
        }
    }
}

/// What follows the last dot of `s`, when it has one.
pub open spec fn after_last_dot(s: Seq<char>) -> Option<Seq<char>>
    decreases s.len(),
{
    if s.len() == 0 {
        None
    } else if s.last() == '.' {
        Some(Seq::empty())
    } else {
        match after_last_dot(s.drop_last()) {
            Some(x) => Some(x.push(s.last())),
            None => None,
        }
    }
}

/// Whether the extension of a name is on the list.
pub open spec fn has_ext(name: Seq<char>, list: Seq<Seq<char>>) -> bool {
    after_last_dot(name) matches Some(ext) && list.contains(ext)
}

impl PredView {
    /// Whether the test accepts an entry. `case` says whether a plain text is held
    /// against the text as it is or against its lowercase.
    pub open spec fn holds(self, case: bool, e: Facts) -> bool {
        match self {
            PredView::File => !e.is_dir,
            PredView::Folder => e.is_dir,
            PredView::Ext(list) => has_ext(e.name_lower, list),
            PredView::Size(filter) => !e.is_dir && size::in_size(e.size, filter),
            PredView::Date { field, filter } => dates::in_date(
                match field {
                    DateField::Modified => e.modified_ms,
                    DateField::Created => e.created_ms,
                    DateField::Accessed => e.accessed_ms,
                },
                filter,
            ),
            PredView::Attrib(mask) => e.attributes & mask == mask,
            PredView::Text { target, kind } => {
                let plain = match target {
                    TextTarget::Name => e.name,
                    TextTarget::Path => e.path,
                };
                let lower = match target {
                    TextTarget::Name => e.name_lower,
                    TextTarget::Path => e.path_lower,
                };
                match kind {
                    TextView::Plain(needle) => text::has_text(
                        if case {
                            plain
                        } else {
                            lower
                        },
                        needle,
                    ),
                    TextView::Re(p, ignore_case) => pattern::regex_matches(p, ignore_case, plain),
                }
            },
        }
    }
}

/// What follows the last dot of a name, when it has one.
pub(crate) fn extension(name: &Vec<char>) -> (r: Option<Vec<char>>)
    ensures
        r is Some <==> after_last_dot(name@) is Some,
        r matches Some(x) ==> Some(x@) == after_last_dot(name@),
        r matches Some(x) ==> x@.len() < name@.len(),
{
    let mut i: usize = name.len();
    assert(name@.take(i as int) =~= name@);
    assert(name@.skip(i as int) =~= Seq::empty());
    while i > 0
        invariant
            i <= name@.len(),
            after_last_dot(name@) == match after_last_dot(name@.take(i as int)) {
                Some(x) => Some(x + name@.skip(i as int)),
                None => None,
            },
        decreases i,
    {
        let ghost head = name@.take(i as int);
        assert(head.drop_last() =~= name@.take(i - 1));
        if name[i - 1] == '.' {
            let x = copy_range(name.as_slice(), i, name.len());
            assert(x@ =~= Seq::empty() + name@.skip(i as int));
            return Some(x);
        }
        proof {
            if let Some(x) = after_last_dot(name@.take(i - 1)) {
                assert(x.push(head.last()) + name@.skip(i as int) =~= x + name@.skip(i - 1));
            }
        }
        i -= 1;
    }
    None
}

/// Whether the extension of a name is on the list.
fn ext_allows(name_lower: &str, exts: &Vec<String>) -> (r: bool)
    ensures
        r == has_ext(name_lower@, exts@.map_values(|s: String| s@)),
{
    let ghost list = exts@.map_values(|s: String| s@);
    let name = chars_of(name_lower);
    match extension(&name) {
        None => false,
        Some(ext) => {
            let mut i: usize = 0;
            while i < exts.len()
                invariant
                    i <= exts@.len(),
                    list == exts@.map_values(|s: String| s@),
                    after_last_dot(name_lower@) == Some(ext@),
                    forall|j: int| 0 <= j < i ==> list[j] != ext@,
                decreases exts@.len() - i,
            {
                if text::is_text(ext.as_slice(), exts[i].as_str()) {
                    assert(list[i as int] == ext@);
                    return true;
                }
                i += 1;
            }
            assert(!list.contains(ext@));
            false
        },
    }
}

impl Pred {
    /// Test one entry.
    pub fn eval(&self, case: bool, e: &EntryView) -> (r: bool)
        ensures
            r == self@.holds(case, e@),
    {
        match self {
            Pred::File => !e.is_dir,
            Pred::Folder => e.is_dir,
            Pred::Ext(list) => ext_allows(e.name_lower, list),
            Pred::Size(filter) => !e.is_dir && size_within(e.size, filter),
            Pred::Date { field, filter } => {
                let value = match field {
                    DateField::Modified => e.modified_ms,
                    DateField::Created => e.created_ms,
                    DateField::Accessed => e.accessed_ms,
                };
                date_within(value, filter)
            },
            Pred::Attrib(mask) => e.attributes & *mask == *mask,
            Pred::Text { target, kind } => {
                let (plain, lower) = match target {
                    TextTarget::Name => (e.name, e.name_lower),
                    TextTarget::Path => (e.path, e.path_lower),
                };
                match kind {
                    TextKind::Plain(needle) => contains_text(
                        if case {
                            plain
                        } else {
                            lower
                        },
                        needle.as_str(),
                    ),
                    TextKind::Re(re) => regex_is_match(re, plain),
                }
            },
        }
    }
}

/// The attribute bit of a letter; 0 for a letter without one.
pub open spec fn attrib_bit(c: char) -> u32 {
    match c {
        'r' => 0x0000_0001,
        'h' => 0x0000_0002,
        's' => 0x0000_0004,
        'd' => 0x0000_0010,
        'a' => 0x0000_0020,
        'n' => 0x0000_0080,
        't' => 0x0000_0100,
        'p' => 0x0000_0200,
        'l' => 0x0000_0400,
        'c' => 0x0000_0800,
        'o' => 0x0000_1000,
        'i' => 0x0000_2000,
        'e' => 0x0000_4000,
        'v' => 0x0001_0000,
        _ => 0,
    }
}

/// The attribute bits of all the letters, in either case.
pub open spec fn attrib_mask(s: Seq<char>) -> u32
    decreases s.len(),
{
    if s.len() == 0 {
        0
    } else {
        attrib_mask(s.drop_last()) | attrib_bit(text::ascii_lower(s.last()))
    }
}

/// The attribute bit of a letter; 0 for a letter without one.
fn letter_bit(c: char) -> (r: u32)
    ensures
        r == attrib_bit(c),
{
    match c {
        'r' => 0x0000_0001,  // readonly
        'h' => 0x0000_0002,  // hidden
        's' => 0x0000_0004,  // system
        'd' => 0x0000_0010,  // directory
        'a' => 0x0000_0020,  // archive
        'n' => 0x0000_0080,  // normal
        't' => 0x0000_0100,  // temporary
        'p' => 0x0000_0200,  // sparse file
        'l' => 0x0000_0400,  // reparse point
        'c' => 0x0000_0800,  // compressed
        'o' => 0x0000_1000,  // offline
        'i' => 0x0000_2000,  // not content indexed
        'e' => 0x0000_4000,  // encrypted
        'v' => 0x0001_0000,  // virtual
        _ => 0,
    }
}

/// Parse an `attrib:` value (a run of attribute letters) into a bitmask that the
/// entry must have fully set. Unknown letters are ignored; an empty mask yields
/// `None` so the predicate is dropped rather than matching everything.
pub fn parse_attrib(value: &str) -> (r: Option<u32>)
    ensures
        r == if attrib_mask(value@) == 0 {
            None
        } else {
            Some(attrib_mask(value@))
        },
{
    let chars = chars_of(value);
    let mut mask: u32 = 0;
    let mut i: usize = 0;
    while i < chars.len()
        invariant
            i <= chars@.len(),
            mask == attrib_mask(chars@.take(i as int)),
        decreases chars@.len() - i,
    {
        assert(chars@.take(i + 1).drop_last() =~= chars@.take(i as int));
        mask = mask | letter_bit(to_ascii_lower(chars[i]));
        i += 1;
    }
    assert(chars@.take(i as int) =~= chars@);
    if mask != 0 {
        Some(mask)
    } else {
        None
    }
}

/// An `attrib:` test accepts exactly the attributes that have the bit of every
/// listed letter.
pub proof fn law_attrib(value: Seq<char>, case: bool, e: Facts)
    ensures
        PredView::Attrib(attrib_mask(value)).holds(case, e) <==> (forall|i: int|
            0 <= i < value.len() ==> {
                let bit = attrib_bit(text::ascii_lower(#[trigger] value[i]));
                e.attributes & bit == bit
            }),
    decreases value.len(),
{
    let a = e.attributes;
    if value.len() == 0 {
        assert(a & 0 == 0) by (bit_vector);
    } else {
        let front = value.drop_last();
        law_attrib(front, case, e);
        let m = attrib_mask(front);
        let b = attrib_bit(text::ascii_lower(value.last()));
        assert(a & (m | b) == (m | b) <==> a & m == m && a & b == b) by (bit_vector);
        if PredView::Attrib(attrib_mask(value)).holds(case, e) {
            assert forall|i: int| 0 <= i < value.len() implies {
                let bit = attrib_bit(text::ascii_lower(#[trigger] value[i]));
                a & bit == bit
            } by {
                if i < front.len() {
                    assert(front[i] == value[i]);
                }
            }
        } else if a & b == b {
            assert(exists|i: int|
                0 <= i < front.len() && {
                    let bit = attrib_bit(text::ascii_lower(#[trigger] front[i]));
                    a & bit != bit
                });
            let i = choose|i: int|
                0 <= i < front.len() && {
                    let bit = attrib_bit(text::ascii_lower(#[trigger] front[i]));
                    a & bit != bit
                };
            assert(value[i] == front[i]);
        } else {
            assert(value[value.len() - 1] == value.last());
        }
    }
}

/// The extensions of `cur + s`, where `cur` is the one under way: the parts
/// between `;` and `,` that are not empty, with their ASCII capitals folded.
pub open spec fn exts_from(s: Seq<char>, cur: Seq<char>) -> Seq<Seq<char>>
    decreases s.len(),
{
    if s.len() == 0 {
        text::flushed(text::ascii_lowered(cur))
    } else if s[0] == ';' || s[0] == ',' {
        text::flushed(text::ascii_lowered(cur)) + exts_from(s.drop_first(), Seq::empty())
    } else {
        exts_from(s.drop_first(), cur.push(s[0]))
    }
}

/// Append the extension under way, when there is one, and start the next.
fn flush_ext(cur: &mut Vec<char>, list: &mut Vec<String>)
    ensures
        final(cur)@ == Seq::<char>::empty(),
        final(list)@.map_values(|s: String| s@) == old(list)@.map_values(|s: String| s@)
            + text::flushed(text::ascii_lowered(old(cur)@)),
{
    let ghost before = list@.map_values(|s: String| s@);
    let ghost part = text::ascii_lowered(cur@);
    if cur.len() > 0 {
        let lowered = text::ascii_lower_chars(cur.as_slice());
        let ext = string_of(lowered.as_slice());
        list.push(ext);
        cur.clear();
    }
    assert(list@.map_values(|s: String| s@) =~= before + text::flushed(part));
}

/// The extensions of an `ext:` value.
fn parse_exts(value: &Vec<char>) -> (r: Vec<String>)
    ensures
        r@.map_values(|s: String| s@) == exts_from(value@, Seq::empty()),
{
    let mut list: Vec<String> = Vec::new();
    let mut cur: Vec<char> = Vec::new();
    let mut i: usize = 0;
    assert(value@.skip(0) =~= value@);
    assert(list@.map_values(|s: String| s@) + exts_from(value@, Seq::empty()) =~= exts_from(
        value@,
        Seq::empty(),
    ));
    while i < value.len()
        invariant
            i <= value@.len(),
            list@.map_values(|s: String| s@) + exts_from(value@.skip(i as int), cur@) == exts_from(
                value@,
                Seq::empty(),
            ),
        decreases value@.len() - i,
    {
        let ghost before = list@.map_values(|s: String| s@);
        let ghost part = text::flushed(text::ascii_lowered(cur@));
        let ghost rest = value@.skip(i as int).drop_first();
        assert(rest =~= value@.skip(i + 1));
        let c = value[i];
        if c == ';' || c == ',' {
            flush_ext(&mut cur, &mut list);
            assert(list@.map_values(|s: String| s@) + exts_from(rest, Seq::empty()) =~= before + (
            part + exts_from(rest, Seq::empty())));
        } else {
            cur.push(c);
        }
        i += 1;
    }
    flush_ext(&mut cur, &mut list);
    list
}

/// What the predicate stands for, if there is one.
pub open spec fn shown(p: Option<Pred>) -> Option<PredView> {
    match p {
        Some(q) => Some(q@),
        None => None,
    }
}

/// A text test on a pattern.
pub open spec fn pattern_view(target: TextTarget, p: Seq<char>, match_case: bool) -> PredView {
    PredView::Text { target, kind: TextView::Re(p, !match_case) }
}

/// Whether `p` is what a term with the given pattern becomes: a test on the pattern
/// only where the engine accepts it, and nothing only where the engine refuses it.
pub open spec fn pattern_yields(
    target: TextTarget,
    pattern: Seq<char>,
    match_case: bool,
    p: Option<PredView>,
) -> bool {
    match p {
        Some(q) => q == pattern_view(target, pattern, match_case) && pattern::accepts(
            pattern,
            !match_case,
        ),
        None => pattern::refuses(pattern, !match_case),
    }
}

/// Whether `p` is what a text term becomes: nothing when it is empty, a whole
/// match when it has wildcards, a match between word boundaries in whole-word
/// mode, and a substring test otherwise.
pub open spec fn text_yields(
    s: Seq<char>,
    target: TextTarget,
    opts: SearchOptions,
    p: Option<PredView>,
) -> bool {
    if s.len() == 0 {
        p is None
    } else if s.contains('*') || s.contains('?') {
        pattern_yields(target, pattern::globbed(s), opts.match_case, p)
    } else if opts.whole_word {
        pattern_yields(target, pattern::bounded(s), opts.match_case, p)
    } else if opts.match_case {
        p == Some(PredView::Text { target, kind: TextView::Plain(s) })
    } else {
        p == Some(PredView::Text { target, kind: TextView::Plain(text::lower(s)) })
    }
}

/// Whether two texts are the same up to ASCII case.
pub open spec fn same_folded(a: Seq<char>, b: Seq<char>) -> bool {
    text::ascii_lowered(a) == text::ascii_lowered(b)
}

/// Whether a word asks for files.
pub open spec fn asks_file(word: Seq<char>) -> bool {
    same_folded(word, "file:"@) || same_folded(word, "files:"@)
}

/// Whether a word asks for folders.
pub open spec fn asks_folder(word: Seq<char>) -> bool {
    same_folded(word, "folder:"@) || same_folded(word, "folders:"@) || same_folded(word, "dir:"@)
}

/// The timestamp that a word asks for, and the text that follows.
pub open spec fn date_word(word: Seq<char>) -> Option<(DateField, Seq<char>)> {
    if text::has_prefix(word, "dm:"@) {
        Some((DateField::Modified, word.skip(3)))
    } else if text::has_prefix(word, "dc:"@) {
        Some((DateField::Created, word.skip(3)))
    } else if text::has_prefix(word, "da:"@) {
        Some((DateField::Accessed, word.skip(3)))
    } else {
        None
    }
}

/// Whether `p` is what a date function becomes: a test on the filter that the local
/// clock makes of its value, and nothing only where that makes none.
pub open spec fn date_yields(field: DateField, value: Seq<char>, p: Option<PredView>) -> bool {
    match p {
        Some(PredView::Date { field: g, filter }) => g == field && dates::filter_read(
            value,
            Some(filter),
        ) && dates::filter_from(value, filter),
        Some(_) => false,
        None => dates::filter_read(value, None),
    }
}

/// What a text term is held against by default.
pub open spec fn default_target(opts: SearchOptions) -> TextTarget {
    if opts.match_path {
        TextTarget::Path
    } else {
        TextTarget::Name
    }
}

/// Whether `p` is what a word becomes: a function, or a text test. A function
/// without a usable value becomes nothing.
pub open spec fn word_yields(word: Seq<char>, opts: SearchOptions, p: Option<PredView>) -> bool {
    if asks_file(word) {
        p == Some(PredView::File)
    } else if asks_folder(word) {
        p == Some(PredView::Folder)
    } else if text::has_prefix(word, "ext:"@) {
        let list = exts_from(word.skip(4), Seq::empty());
        p == if list.len() == 0 {
            None
        } else {
            Some(PredView::Ext(list))
        }
    } else if text::has_prefix(word, "size:"@) {
        p == match size::size_filter(word.skip(5)) {
            Some(f) => Some(PredView::Size(f)),
            None => None,
        }
    } else if date_word(word) is Some {
        let (field, value) = date_word(word)->0;
        date_yields(field, value, p)
    } else if text::has_prefix(word, "attrib:"@) {
        let mask = attrib_mask(word.skip(7));
        p == if mask == 0 {
            None
        } else {
            Some(PredView::Attrib(mask))
        }
    } else if text::has_prefix(word, "path:"@) {
        text_yields(word.skip(5), TextTarget::Path, opts, p)
    } else {
        text_yields(word, default_target(opts), opts, p)
    }
}

/// Whether a word is a function that looks at no text.
pub open spec fn is_metadata(word: Seq<char>) -> bool {
    ||| asks_file(word)
    ||| asks_folder(word)
    ||| text::has_prefix(word, "ext:"@)
    ||| text::has_prefix(word, "size:"@)
    ||| date_word(word) is Some
    ||| text::has_prefix(word, "attrib:"@)
}

/// Whether a token makes the query look at paths.
pub open spec fn token_needs_path(token: TokenView, opts: SearchOptions) -> bool {
    match token {
        TokenView::Word(w) => !is_metadata(w) && (text::has_prefix(w, "path:"@) || opts.match_path),
        TokenView::Phrase(_) => opts.match_path,
        _ => false,
    }
}

/// Whether `p` is what a token becomes. A phrase is always a literal substring;
/// an operator is no test.
pub open spec fn token_yields(token: TokenView, opts: SearchOptions, p: Option<PredView>) -> bool {
    match token {
        TokenView::Word(w) => word_yields(w, opts, p),
        TokenView::Phrase(s) => p == Some(
            PredView::Text {
                target: default_target(opts),
                kind: TextView::Plain(
                    if opts.match_case {
                        s
                    } else {
                        text::lower(s)
                    },
                ),
            },
        ),
        _ => p is None,
    }
}

/// The test on a compiled pattern; nothing when it did not compile.
pub fn pattern_pred(target: TextTarget, built: Option<Regex>) -> (r: Option<Pred>)
    ensures
        r is Some <==> built is Some,
        r matches Some(p) ==> p@ == (PredView::Text {
            target,
            kind: TextView::Re(
                pattern::regex_source(built->0).0,
                pattern::regex_source(built->0).1,
            ),
        }),
{
    let re = built?;
    Some(Pred::Text { target, kind: TextKind::Re(re) })
}

/// Build a text predicate from `text`, honouring wildcards, whole-word and case.
fn text_pred(s: &str, target: TextTarget, opts: &SearchOptions) -> (r: Option<Pred>)
    ensures
        text_yields(s@, target, *opts, shown(r)),
{
    let chars = chars_of(s);
    if chars.len() == 0 {
        return None;
    }
    if contains_char(chars.as_slice(), '*') || contains_char(chars.as_slice(), '?') {
        let glob = glob_pattern(s);
        let built = build_regex(glob.as_str(), opts.match_case);
        assert(built is Ok ==> pattern::accepts(pattern::globbed(s@), !opts.match_case));
        assert(built is Err ==> pattern::refuses(pattern::globbed(s@), !opts.match_case));
        return pattern_pred(target, built.ok());
    }
    if opts.whole_word {
        let word = word_pattern(s);
        let built = build_regex(word.as_str(), opts.match_case);
        assert(built is Ok ==> pattern::accepts(pattern::bounded(s@), !opts.match_case));
        assert(built is Err ==> pattern::refuses(pattern::bounded(s@), !opts.match_case));
        return pattern_pred(target, built.ok());
    }
    let needle = if opts.match_case {
        string_of(chars.as_slice())
    } else {
        lowercase(s)
    };
    Some(Pred::Text { target, kind: TextKind::Plain(needle) })
}

/// The timestamp that a word asks for, and the text that follows.
fn split_date_word(word: &Vec<char>) -> (r: Option<(DateField, String)>)
    ensures
        r is Some <==> date_word(word@) is Some,
        r matches Some(p) ==> date_word(word@) == Some((p.0, p.1@)),
{
    proof {
        reveal_strlit("dm:");
        reveal_strlit("dc:");
        reveal_strlit("da:");
    }
    let w = word.as_slice();
    if let Some(v) = strip_prefix(w, "dm:") {
        Some((DateField::Modified, string_of(v.as_slice())))
    } else if let Some(v) = strip_prefix(w, "dc:") {
        Some((DateField::Created, string_of(v.as_slice())))
    } else if let Some(v) = strip_prefix(w, "da:") {
        Some((DateField::Accessed, string_of(v.as_slice())))
    } else {
        None
    }
}

/// Build a date predicate, or `None` if the value is unparseable.
fn date_pred(value: &str, field: DateField) -> (r: Option<Pred>)
    ensures
        date_yields(field, value@, shown(r)),
{
    let filter = parse_date_filter(value)?;
    Some(Pred::Date { field, filter })
}

/// What a text term is held against by default.
fn text_target(opts: &SearchOptions) -> (r: TextTarget)
    ensures
        r == default_target(*opts),
{
    if opts.match_path {
        TextTarget::Path
    } else {
        TextTarget::Name
    }
}

/// Parse a bare word into a predicate, a function (`ext:`/`size:`/`dm:`/`dc:`/
/// `da:`/`attrib:`/`file:`/`folder:`/`path:`) or a text match, and say whether it
/// looks at the path.
pub fn parse_word(word: &str, opts: &SearchOptions) -> (r: (Option<Pred>, bool))
    ensures
        word_yields(word@, *opts, shown(r.0)),
        r.1 == token_needs_path(TokenView::Word(word@), *opts),
{
    proof {
        reveal_strlit("ext:");
        reveal_strlit("size:");
        reveal_strlit("attrib:");
        reveal_strlit("path:");
    }
    let chars = chars_of(word);
    let w = chars.as_slice();
    if is_text_ignore_case(w, "file:") || is_text_ignore_case(w, "files:") {
        return (Some(Pred::File), false);
    }
    if is_text_ignore_case(w, "folder:") || is_text_ignore_case(w, "folders:")
        || is_text_ignore_case(w, "dir:") {
        return (Some(Pred::Folder), false);
    }
    if let Some(v) = strip_prefix(w, "ext:") {
        let exts = parse_exts(&v);
        assert(exts@.map_values(|s: String| s@).len() == exts@.len());
        return if exts.len() == 0 {
            (None, false)
        } else {
            (Some(Pred::Ext(exts)), false)
        };
    }
    if let Some(v) = strip_prefix(w, "size:") {
        let value = string_of(v.as_slice());
        return match parse_size_filter(value.as_str()) {
            Some(f) => (Some(Pred::Size(f)), false),
            None => (None, false),
        };
    }
    if let Some((field, value)) = split_date_word(&chars) {
        return (date_pred(value.as_str(), field), false);
    }
    if let Some(v) = strip_prefix(w, "attrib:") {
        let value = string_of(v.as_slice());
        return match parse_attrib(value.as_str()) {
            Some(mask) => (Some(Pred::Attrib(mask)), false),
            None => (None, false),
        };
    }
    if let Some(v) = strip_prefix(w, "path:") {
        let value = string_of(v.as_slice());
        return (text_pred(value.as_str(), TextTarget::Path, opts), true);
    }
    (text_pred(word, text_target(opts), opts), opts.match_path)
}

/// A quoted phrase is always a literal substring (no functions or wildcards).
pub fn phrase_pred(phrase: &str, opts: &SearchOptions) -> (r: Pred)
    ensures
        token_yields(TokenView::Phrase(phrase@), *opts, Some(r@)),
{
    let needle = if opts.match_case {
        let chars = chars_of(phrase);
        string_of(chars.as_slice())
    } else {
        lowercase(phrase)
    };
    Pred::Text { target: text_target(opts), kind: TextKind::Plain(needle) }
}

} // verus!

//! The columns that results are ordered by.

use crate::entry::FileEntry;
use crate::order;
use crate::order::{order_turned, signed_order, text_order, unsigned_order};
use crate::search;
use crate::search::{extension, SortKey};
use crate::text;
use crate::text::{chars_of, string_of};
use std::cmp::Ordering;
use vstd::prelude::*;

verus! {

/// A size as a signed number, by its bits.
pub open spec fn signed_size(size: u64) -> int {
    if size > i64::MAX {
        size - 0x1_0000_0000_0000_0000
    } else {
        size as int
    }
}

/// Size as a sort/display key: `-1` for directories or unknown size.
pub open spec fn size_of(e: FileEntry) -> int {
    match e.size {
        Some(s) => if e.is_dir {
            -1
        } else {
            signed_size(s)
        },
        None => -1,
    }
}

/// A timestamp as a sort/display key: 0 when unknown.
pub open spec fn time_of(t: Option<i64>) -> int {
    match t {
        Some(ms) => ms as int,
        None => 0,
    }
}

/// The extension that a name shows: what follows its last dot. A leading dot is
/// that of a dotfile (`.gitignore`), not of an extension.
pub open spec fn shown_ext(name: Seq<char>) -> Seq<char> {
    match search::after_last_dot(name) {
        Some(x) => if x.len() + 1 < name.len() {
            x
        } else {
            Seq::empty()
        },
        None => Seq::empty(),
    }
}

/// The extension key of an entry: blank for directories.
pub open spec fn ext_of(e: FileEntry) -> Seq<char> {
    if e.is_dir {
        Seq::empty()
    } else {
        shown_ext(e.name_lower@)
    }
}

/// Whether `a` comes before `b` by a column, ascending. By path neither does: that
/// is ranked apart.
pub open spec fn column_lt(a: FileEntry, b: FileEntry, sort: SortKey) -> bool {
    match sort {
        SortKey::Name => text::text_lt(a.name_lower@, b.name_lower@),
        SortKey::Size => size_of(a) < size_of(b),
        SortKey::Modified => time_of(a.modified_ms) < time_of(b.modified_ms),
        SortKey::Created => time_of(a.created_ms) < time_of(b.created_ms),
        SortKey::Accessed => time_of(a.accessed_ms) < time_of(b.accessed_ms),
        SortKey::Ext => text::text_lt(ext_of(a), ext_of(b)),
        SortKey::Attributes => a.attributes < b.attributes,
        SortKey::Path => false,
    }
}

/// Whether a row comes before another, where `before` and `after` say it by the
/// column both ways: directories first when they are grouped, then by the column
/// in the asked direction.
pub open spec fn grouped_lt(
    a_dir: bool,
    b_dir: bool,
    before: bool,
    after: bool,
    ascending: bool,
    folders_first: bool,
) -> bool {
    if folders_first && a_dir != b_dir {
        a_dir
    } else if ascending {
        before
    } else {
        after
    }
}

/// Size as a sort/display key: `-1` for directories or unknown size.
pub(crate) fn size_key(e: &FileEntry) -> (r: i64)
    ensures
        r == size_of(*e),
{
    match e.size {
        Some(s) => if e.is_dir {
            -1
        } else if s > i64::MAX as u64 {
            (s as i128 - 0x1_0000_0000_0000_0000) as i64
        } else {
            s as i64
        },
        None => -1,
    }
}

/// A timestamp as a sort/display key: 0 when unknown.
pub(crate) fn time_key(t: Option<i64>) -> (r: i64)
    ensures
        r == time_of(t),
{
    match t {
        Some(ms) => ms,
        None => 0,
    }
}

/// The extension that a name shows.
pub(crate) fn ext_shown(name: &str) -> (r: String)
    ensures
        r@ == shown_ext(name@),
{
    let chars = chars_of(name);
    match extension(&chars) {
        Some(x) => if x.len() < chars.len() - 1 {
            string_of(x.as_slice())
        } else {
            String::new()
        },
        None => String::new(),
    }
}

/// The extension key of an entry: blank for directories.
fn ext_key(e: &FileEntry) -> (r: String)
    ensures
        r@ == ext_of(*e),
{
    if e.is_dir {
        String::new()
    } else {
        ext_shown(e.name_lower.as_str())
    }
}

/// Compare two entries by a sort column, ascending. `Path` is ranked separately.
pub(crate) fn column_order(a: &FileEntry, b: &FileEntry, sort: SortKey) -> (o: Ordering)
    ensures
        order::order_agrees(o, column_lt(*a, *b, sort), column_lt(*b, *a, sort)),
{
    match sort {
        SortKey::Name => text_order(a.name_lower.as_str(), b.name_lower.as_str()),
        SortKey::Size => signed_order(size_key(a), size_key(b)),
        SortKey::Modified => signed_order(time_key(a.modified_ms), time_key(b.modified_ms)),
        SortKey::Created => signed_order(time_key(a.created_ms), time_key(b.created_ms)),
        SortKey::Accessed => signed_order(time_key(a.accessed_ms), time_key(b.accessed_ms)),
        SortKey::Ext => {
            let x = ext_key(a);
            let y = ext_key(b);
            text_order(x.as_str(), y.as_str())
        },
        SortKey::Attributes => unsigned_order(a.attributes, b.attributes),
        SortKey::Path => Ordering::Equal,
    }
}

/// The comparison of two rows, given that of the column: directories first when
/// they are grouped, then by the column in the asked direction.
pub(crate) fn grouped_order(
    a_dir: bool,
    b_dir: bool,
    column: Ordering,
    ascending: bool,
    folders_first: bool,
) -> (o: Ordering)
    ensures
        order::order_agrees(
            o,
            grouped_lt(a_dir, b_dir, column is Less, column is Greater, ascending, folders_first),
            grouped_lt(b_dir, a_dir, column is Greater, column is Less, ascending, folders_first),
        ),
{
    if folders_first && a_dir != b_dir {
        if a_dir {
            Ordering::Less
        } else {
            Ordering::Greater
        }
    } else if ascending {
        column
    } else {
        order_turned(column)
    }
}

/// A column orders entries: two of them not both ways, and not coming after is
/// transitive.
pub proof fn lemma_column(a: FileEntry, b: FileEntry, c: FileEntry, sort: SortKey)
    ensures
        !(column_lt(a, b, sort) && column_lt(b, a, sort)),
        !column_lt(b, a, sort) && !column_lt(c, b, sort) ==> !column_lt(c, a, sort),
{
    match sort {
        SortKey::Name => {
            lemma_text_order(a.name_lower@, b.name_lower@, c.name_lower@);
        },
        SortKey::Ext => {
            lemma_text_order(ext_of(a), ext_of(b), ext_of(c));
        },
        _ => {},
    }
}

/// Texts are ordered: two of them not both ways, and not coming after is
/// transitive.
pub proof fn lemma_text_order(a: Seq<char>, b: Seq<char>, c: Seq<char>)
    ensures
        !(text::text_lt(a, b) && text::text_lt(b, a)),
        !text::text_lt(b, a) && !text::text_lt(c, b) ==> !text::text_lt(c, a),
{
    text::lemma_text_lt_total(a, b);
    text::lemma_text_lt_total(b, c);
    text::lemma_text_lt_total(a, c);
    if !text::text_lt(b, a) && !text::text_lt(c, b) && a != b && b != c {
        text::lemma_text_lt_trans(a, b, c);
    }
}

} // verus!

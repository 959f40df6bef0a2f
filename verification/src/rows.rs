//! The rendered rows of the node table: filtering them, and going to an
//! address. Both need nothing but the rows at hand.

use crate::node::{NodeKind, PathSeg};
use crate::text;
use vstd::prelude::*;

verus! {

/// One rendered row.
#[derive(Debug)]
pub struct Row {
    /// Indent: how deep below its view's class the field lies.
    pub depth: u32,
    /// Position of the view.
    pub root: usize,
    pub offset: usize,
    pub address: u64,
    pub type_label: String,
    pub name: String,
    pub value: String,
    pub hex: String,
    pub kind: NodeKind,
    pub comment: String,
    pub expandable: bool,
    pub expanded: bool,
    pub path: Vec<PathSeg>,
    pub readable: bool,
}

/// What a [`Row`] says.
pub struct RowV {
    pub depth: u32,
    pub root: usize,
    pub offset: usize,
    pub address: u64,
    pub type_label: Seq<char>,
    pub name: Seq<char>,
    pub value: Seq<char>,
    pub hex: Seq<char>,
    pub kind: NodeKind,
    pub comment: Seq<char>,
    pub expandable: bool,
    pub expanded: bool,
    pub path: Seq<PathSeg>,
    pub readable: bool,
}

impl View for Row {
    type V = RowV;

    open spec fn view(&self) -> RowV {
        RowV {
            depth: self.depth,
            root: self.root,
            offset: self.offset,
            address: self.address,
            type_label: self.type_label@,
            name: self.name@,
            value: self.value@,
            hex: self.hex@,
            kind: self.kind,
            comment: self.comment@,
            expandable: self.expandable,
            expanded: self.expanded,
            path: self.path@,
            readable: self.readable,
        }
    }
}

/// `0x` and a number in small hexadecimal.
pub open spec fn hex_label(n: nat) -> Seq<char> {
    seq!['0', 'x'] + text::written(n, 16, false)
}

/// Whether `s`, its capitals made small, holds `needle`.
pub open spec fn holds(s: Seq<char>, needle: Seq<char>) -> bool {
    text::occurs(text::ascii_lower_seq(s), needle)
}

/// Whether a row matches `needle`, which is in small letters already: by its
/// name, type, value or comment, or by its offset or address as text.
pub open spec fn row_matches(row: RowV, needle: Seq<char>) -> bool {
    ||| holds(row.name, needle)
    ||| holds(row.type_label, needle)
    ||| holds(row.value, needle)
    ||| holds(row.comment, needle)
    ||| text::occurs(hex_label(row.offset as nat), needle)
    ||| text::occurs(hex_label(row.address as nat), needle)
}

/// `0x` and `n` in small hexadecimal.
fn hex_chars(n: u64) -> (r: Vec<char>)
    ensures
        r@ == hex_label(n as nat),
{
    let mut v: Vec<char> = Vec::new();
    v.push('0');
    v.push('x');
    let mut d = text::write_number(n, 16, false);
    v.append(&mut d);
    proof {
        assert(v@ =~= hex_label(n as nat));
    }
    v
}

/// [`holds`] of `s`.
fn text_holds(s: &String, needle: &Vec<char>) -> (r: bool)
    ensures
        r == holds(s@, needle@),
{
    let low = text::lower_chars(&text::chars_of(s.as_str()));
    text::contains(&low, needle)
}

/// Whether `row` matches `needle`, which the caller has already lowercased.
///
/// Every column the table shows is searchable, including the rendered value.
pub fn matches(row: &Row, needle: &Vec<char>) -> (r: bool)
    ensures
        r == row_matches(row@, needle@),
{
    if text_holds(&row.name, needle) || text_holds(&row.type_label, needle) || text_holds(
        &row.value,
        needle,
    ) || text_holds(&row.comment, needle) {
        return true;
    }
    // Offset and address are rendered, not stored, as text: searching for
    // "0x1c" should find the field at that offset.
    text::contains(&hex_chars(row.offset as u64), needle) || text::contains(
        &hex_chars(row.address),
        needle,
    )
}

/// Whether row `i` lies above row `j` in the tree: everything from below `i`
/// down to `j` is indented deeper than `i`.
pub open spec fn is_above(rows: Seq<&Row>, i: int, j: int) -> bool {
    i < j && forall|k: int| i < k <= j ==> (#[trigger] rows[k]).depth > rows[i].depth
}

/// Whether a filter for `needle` shows row `i`: it matches, or lies above a row
/// that does.
pub open spec fn shown(rows: Seq<&Row>, needle: Seq<char>, i: int) -> bool {
    row_matches(rows[i]@, needle) || exists|j: int|
        i < j < rows.len() && row_matches((#[trigger] rows[j])@, needle) && is_above(rows, i, j)
}

/// The first `n` rows, those that the filter shows.
pub open spec fn shown_rows<'a>(rows: Seq<&'a Row>, needle: Seq<char>, n: int) -> Seq<&'a Row>
    decreases n,
{
    if n <= 0 {
        Seq::empty()
    } else if shown(rows, needle, n - 1) {
        shown_rows(rows, needle, n - 1).push(rows[n - 1])
    } else {
        shown_rows(rows, needle, n - 1)
    }
}

/// What a query is matched with: trimmed, in small letters.
pub open spec fn needle_of(query: Seq<char>) -> Seq<char> {
    text::ascii_lower_seq(text::trim(query))
}

/// The rows that a query leaves.
pub open spec fn filtered<'a>(rows: Seq<&'a Row>, query: Seq<char>) -> Seq<&'a Row> {
    if needle_of(query).len() == 0 {
        rows
    } else {
        shown_rows(rows, needle_of(query), rows.len() as int)
    }
}

/// The depth that the row before row `i` has to lie under to be owed to a row
/// shown from `i` on: that of the first one shown.
spec fn owed(rows: Seq<&Row>, needle: Seq<char>, i: int) -> u32
    decreases rows.len() - i,
{
    if i >= rows.len() {
        0
    } else if shown(rows, needle, i) {
        rows[i].depth
    } else {
        owed(rows, needle, i + 1)
    }
}

/// From row `from` on: the first row shown is at depth `owed`, and the rows
/// before it are no shallower.
proof fn lemma_owed(rows: Seq<&Row>, needle: Seq<char>, from: int) -> (first: int)
    requires
        0 <= from <= rows.len(),
    ensures
        from <= first <= rows.len(),
        first < rows.len() ==> shown(rows, needle, first) && owed(rows, needle, from)
            == rows[first].depth,
        first == rows.len() ==> owed(rows, needle, from) == 0,
        forall|k: int| from <= k < first ==> !shown(rows, needle, k),
    decreases rows.len() - from,
{
    if from >= rows.len() || shown(rows, needle, from) {
        from
    } else {
        lemma_owed(rows, needle, from + 1)
    }
}

/// Rows before the first one shown are no shallower than it.
proof fn lemma_hidden_rows_are_deep(rows: Seq<&Row>, needle: Seq<char>, k: int, first: int)
    requires
        0 <= k < first < rows.len(),
        shown(rows, needle, first),
        forall|m: int| k <= m < first ==> !shown(rows, needle, m),
    ensures
        rows[k].depth >= rows[first].depth,
    decreases first - k,
{
    if rows[k].depth < rows[first].depth {
        assert forall|m: int| k < m <= first implies (#[trigger] rows[m]).depth > rows[k].depth by {
            if m < first {
                lemma_hidden_rows_are_deep(rows, needle, m, first);
            }
        }
        if row_matches(rows[first]@, needle) {
            assert(is_above(rows, k, first));
        } else {
            let j = choose|j: int|
                first < j < rows.len() && row_matches((#[trigger] rows[j])@, needle) && is_above(
                    rows,
                    first,
                    j,
                );
            assert forall|m: int| k < m <= j implies (#[trigger] rows[m]).depth > rows[k].depth by {
                if m > first {
                    assert(rows[m].depth > rows[first].depth);
                }
            }
            assert(is_above(rows, k, j));
        }
        assert(shown(rows, needle, k));
    }
}

/// A row is shown exactly when it matches or is shallower than what is owed.
proof fn lemma_shown_step(rows: Seq<&Row>, needle: Seq<char>, i: int)
    requires
        0 <= i < rows.len(),
    ensures
        shown(rows, needle, i) == (row_matches(rows[i]@, needle) || rows[i].depth < owed(
            rows,
            needle,
            i + 1,
        )),
{
    let first = lemma_owed(rows, needle, i + 1);
    if !row_matches(rows[i]@, needle) {
        if shown(rows, needle, i) {
            let j = choose|j: int|
                i < j < rows.len() && row_matches((#[trigger] rows[j])@, needle) && is_above(
                    rows,
                    i,
                    j,
                );
            assert(shown(rows, needle, j));
            assert(first <= j);
            assert(rows[first].depth > rows[i].depth);
        }
        if rows[i].depth < owed(rows, needle, i + 1) && first < rows.len() {
            assert forall|m: int| i < m <= first implies (#[trigger] rows[m]).depth
                > rows[i].depth by {
                if m < first {
                    lemma_hidden_rows_are_deep(rows, needle, m, first);
                }
            }
            if row_matches(rows[first]@, needle) {
                assert(is_above(rows, i, first));
            } else {
                let j = choose|j: int|
                    first < j < rows.len() && row_matches((#[trigger] rows[j])@, needle)
                        && is_above(rows, first, j);
                assert forall|m: int| i < m <= j implies (#[trigger] rows[m]).depth
                    > rows[i].depth by {
                    if m > first {
                        assert(rows[m].depth > rows[first].depth);
                    }
                }
                assert(is_above(rows, i, j));
            }
        }
    }
}

/// Rows matching `query`, each preceded by its ancestors.
///
/// Ancestors are kept because the table is a tree rendered flat: a matching
/// field shown without its parent row is a nameless value at an unexplained
/// indent. An empty or whitespace-only query returns everything.
pub fn filter_rows<'a>(rows: &Vec<&'a Row>, query: &str) -> (r: Vec<&'a Row>)
    ensures
        r@ == filtered(rows@, query@),
{
    let needle = text::lower_chars(&text::trim_chars(&text::chars_of(query)));
    let ghost all = rows@;
    let mut out: Vec<&'a Row> = Vec::new();
    if needle.len() == 0 {
        let mut i: usize = 0;
        while i < rows.len()
            invariant
                i <= rows@.len(),
                out@ =~= rows@.take(i as int),
            decreases rows@.len() - i,
        {
            out.push(rows[i]);
            i = i + 1;
        }
        return out;
    }
    let mut keep: Vec<bool> = Vec::new();
    let mut i: usize = rows.len();
    // Walk backwards: `needed` is the depth of the nearest row kept so far, so
    // each shallower row before it is owed as its ancestor.
    let mut needed: u32 = 0;
    while i > 0
        invariant
            all == rows@,
            i <= rows@.len(),
            keep@.len() == rows@.len() - i,
            needed == owed(all, needle@, i as int),
            forall|k: int|
                0 <= k < keep@.len() ==> #[trigger] keep@[k] == shown(
                    all,
                    needle@,
                    all.len() - 1 - k,
                ),
        decreases i,
    {
        i = i - 1;
        proof {
            lemma_shown_step(all, needle@, i as int);
        }
        if matches(rows[i], &needle) || rows[i].depth < needed {
            keep.push(true);
            needed = rows[i].depth;
        } else {
            keep.push(false);
        }
    }
    let n: usize = rows.len();
    let mut j: usize = 0;
    while j < n
        invariant
            all == rows@,
            n == rows@.len(),
            j <= n,
            keep@.len() == n,
            out@ == shown_rows(all, needle@, j as int),
            forall|k: int|
                0 <= k < keep@.len() ==> #[trigger] keep@[k] == shown(
                    all,
                    needle@,
                    all.len() - 1 - k,
                ),
        decreases n - j,
    {
        if keep[n - 1 - j] {
            out.push(rows[j]);
        }
        proof {
            assert(keep@[n - 1 - j] == shown(all, needle@, j as int));
        }
        j = j + 1;
    }
    out
}

/// A filter without a query keeps every row.
pub proof fn law_blank_query_keeps_everything(rows: Seq<&Row>, query: Seq<char>)
    requires
        text::trim(query).len() == 0,
    ensures
        filtered(rows, query) == rows,
{
}

/// A filter keeps a matching row, and with it every row that lies above it.
pub proof fn law_match_brings_its_ancestors(rows: Seq<&Row>, needle: Seq<char>, i: int, j: int)
    requires
        0 <= i <= j < rows.len(),
        row_matches(rows[j]@, needle),
        i == j || is_above(rows, i, j),
    ensures
        shown(rows, needle, i),
        shown_rows(rows, needle, rows.len() as int).contains(rows[i]),
{
    lemma_shown_is_kept(rows, needle, i, rows.len() as int);
}

proof fn lemma_shown_is_kept(rows: Seq<&Row>, needle: Seq<char>, i: int, n: int)
    requires
        0 <= i < n <= rows.len(),
        shown(rows, needle, i),
    ensures
        shown_rows(rows, needle, n).contains(rows[i]),
    decreases n,
{
    let r = shown_rows(rows, needle, n);
    if i == n - 1 {
        assert(r[r.len() - 1] == rows[i]);
    } else {
        lemma_shown_is_kept(rows, needle, i, n - 1);
        let s = shown_rows(rows, needle, n - 1);
        let k = choose|k: int| 0 <= k < s.len() && s[k] == rows[i];
        assert(r[k] == rows[i]);
    }
}

/// Where the rows that the filter shows stand among the first `n`.
spec fn shown_at(rows: Seq<&Row>, needle: Seq<char>, n: int) -> Seq<int>
    decreases n,
{
    if n <= 0 {
        Seq::empty()
    } else if shown(rows, needle, n - 1) {
        shown_at(rows, needle, n - 1).push(n - 1)
    } else {
        shown_at(rows, needle, n - 1)
    }
}

/// The rows kept are those at [`shown_at`], which ascends and misses none.
proof fn lemma_shown_at(rows: Seq<&Row>, needle: Seq<char>, n: int)
    requires
        0 <= n <= rows.len(),
    ensures
        shown_at(rows, needle, n).len() == shown_rows(rows, needle, n).len(),
        forall|a: int|
            0 <= a < shown_at(rows, needle, n).len() ==> {
                let i = #[trigger] shown_at(rows, needle, n)[a];
                &&& 0 <= i < n
                &&& shown(rows, needle, i)
                &&& shown_rows(rows, needle, n)[a] == rows[i]
            },
        forall|a: int, b: int|
            0 <= a < b < shown_at(rows, needle, n).len() ==> #[trigger] shown_at(
                rows,
                needle,
                n,
            )[a] < #[trigger] shown_at(rows, needle, n)[b],
        forall|i: int|
            0 <= i < n && #[trigger] shown(rows, needle, i) ==> shown_at(
                rows,
                needle,
                n,
            ).contains(i),
    decreases n,
{
    if n > 0 {
        lemma_shown_at(rows, needle, n - 1);
        let head = shown_at(rows, needle, n - 1);
        let at = shown_at(rows, needle, n);
        assert forall|i: int| 0 <= i < n && #[trigger] shown(rows, needle, i) implies at.contains(
            i,
        ) by {
            if i == n - 1 {
                assert(at[head.len() as int] == i);
            } else {
                let a = choose|a: int| 0 <= a < head.len() && head[a] == i;
                assert(at[a] == i);
            }
        }
    }
}

/// Where every row is shown, the filter keeps all.
proof fn lemma_all_shown(rows: Seq<&Row>, needle: Seq<char>, n: int)
    requires
        0 <= n <= rows.len(),
        forall|i: int| 0 <= i < n ==> #[trigger] shown(rows, needle, i),
    ensures
        shown_rows(rows, needle, n) == rows.take(n),
    decreases n,
{
    if n > 0 {
        lemma_all_shown(rows, needle, n - 1);
        assert(shown(rows, needle, n - 1));
        assert(rows.take(n - 1).push(rows[n - 1]) =~= rows.take(n));
    } else {
        assert(rows.take(0) =~= Seq::<&Row>::empty());
    }
}

/// Filtering what a query left with the same query leaves it as it is.
pub proof fn law_filtering_again_changes_nothing(rows: Seq<&Row>, query: Seq<char>)
    ensures
        filtered(filtered(rows, query), query) == filtered(rows, query),
{
    let needle = needle_of(query);
    if needle.len() > 0 {
        let n = rows.len() as int;
        let kept = shown_rows(rows, needle, n);
        let at = shown_at(rows, needle, n);
        lemma_shown_at(rows, needle, n);
        assert forall|a: int| 0 <= a < kept.len() implies #[trigger] shown(kept, needle, a) by {
            let i = at[a];
            if !row_matches(rows[i]@, needle) {
                let j = choose|j: int|
                    i < j < rows.len() && row_matches((#[trigger] rows[j])@, needle) && is_above(
                        rows,
                        i,
                        j,
                    );
                assert(shown(rows, needle, j));
                let b = choose|b: int| 0 <= b < at.len() && at[b] == j;
                assert(a < b) by {
                    if b < a {
                        assert(at[b] < at[a]);
                    }
                }
                assert forall|c: int| a < c <= b implies (#[trigger] kept[c]).depth
                    > kept[a].depth by {
                    let m = at[c];
                    assert(at[a] < m);
                    if c < b {
                        assert(m < at[b]);
                    }
                    assert(rows[m].depth > rows[i].depth);
                }
                assert(kept[b] == rows[j]);
                assert(is_above(kept, a, b));
            }
        }
        lemma_all_shown(kept, needle, kept.len() as int);
        assert(kept.take(kept.len() as int) =~= kept);
    }
}

/// Queries that are matched with the same text leave the same rows.
pub proof fn law_needle_decides(rows: Seq<&Row>, p: Seq<char>, q: Seq<char>)
    requires
        needle_of(p) == needle_of(q),
    ensures
        filtered(rows, p) == filtered(rows, q),
{
}

/// Neither capitals in a query nor white space around it change what it leaves.
pub proof fn law_case_and_spaces_do_not_matter(
    rows: Seq<&Row>,
    query: Seq<char>,
    before: Seq<char>,
    after: Seq<char>,
)
    requires
        text::all_white(before),
        text::all_white(after),
    ensures
        filtered(rows, text::ascii_upper_seq(query)) == filtered(rows, query),
        filtered(rows, text::ascii_lower_seq(query)) == filtered(rows, query),
        filtered(rows, text::trim(query)) == filtered(rows, query),
        filtered(rows, before + text::trim(query) + after) == filtered(rows, query),
{
    let t = text::trim(query);
    text::lemma_trim_start_upper(query);
    text::lemma_trim_end_upper(text::trim_start(query));
    assert(needle_of(text::ascii_upper_seq(query)) =~= needle_of(query));
    text::lemma_trim_start_lower(query);
    text::lemma_trim_end_lower(text::trim_start(query));
    assert(needle_of(text::ascii_lower_seq(query)) =~= needle_of(query));
    text::lemma_trim_ends(query);
    text::lemma_trim_padded(before, t, after);
    text::lemma_trim_padded(Seq::empty(), t, Seq::empty());
    assert(Seq::<char>::empty() + t + Seq::<char>::empty() =~= t);
    law_needle_decides(rows, text::ascii_upper_seq(query), query);
    law_needle_decides(rows, text::ascii_lower_seq(query), query);
    law_needle_decides(rows, t, query);
    law_needle_decides(rows, before + t + after, query);
}

/// A part of a text, whatever its case, is held by the text.
proof fn lemma_part_is_held(before: Seq<char>, part: Seq<char>, after: Seq<char>)
    ensures
        holds(before + part + after, text::ascii_lower_seq(part)),
{
    let low = text::ascii_lower_seq(before + part + after);
    let needle = text::ascii_lower_seq(part);
    let at = before.len() as int;
    assert(low.subrange(at, at + needle.len()) =~= needle);
    assert(text::occurs_at(low, needle, at));
}

/// A row that matches what the query is matched with is kept.
proof fn lemma_match_is_kept(rows: Seq<&Row>, query: Seq<char>, i: int)
    requires
        0 <= i < rows.len(),
        row_matches(rows[i]@, needle_of(query)),
    ensures
        filtered(rows, query).contains(rows[i]),
{
    if needle_of(query).len() == 0 {
        assert(rows[i] == filtered(rows, query)[i]);
    } else {
        law_match_brings_its_ancestors(rows, needle_of(query), i, i);
    }
}

/// A row whose name holds the query, in capitals or small letters, is kept.
pub proof fn law_names_are_searched(
    rows: Seq<&Row>,
    query: Seq<char>,
    i: int,
    before: Seq<char>,
    part: Seq<char>,
    after: Seq<char>,
)
    requires
        0 <= i < rows.len(),
        rows[i]@.name == before + part + after,
        text::ascii_lower_seq(part) == text::ascii_lower_seq(text::trim(query)),
    ensures
        filtered(rows, query).contains(rows[i]),
{
    lemma_part_is_held(before, part, after);
    lemma_match_is_kept(rows, query, i);
}

/// A row whose type holds the query, in capitals or small letters, is kept.
pub proof fn law_types_are_searched(
    rows: Seq<&Row>,
    query: Seq<char>,
    i: int,
    before: Seq<char>,
    part: Seq<char>,
    after: Seq<char>,
)
    requires
        0 <= i < rows.len(),
        rows[i]@.type_label == before + part + after,
        text::ascii_lower_seq(part) == text::ascii_lower_seq(text::trim(query)),
    ensures
        filtered(rows, query).contains(rows[i]),
{
    lemma_part_is_held(before, part, after);
    lemma_match_is_kept(rows, query, i);
}

/// A row whose rendered value holds the query, in capitals or small letters, is
/// kept.
pub proof fn law_values_are_searched(
    rows: Seq<&Row>,
    query: Seq<char>,
    i: int,
    before: Seq<char>,
    part: Seq<char>,
    after: Seq<char>,
)
    requires
        0 <= i < rows.len(),
        rows[i]@.value == before + part + after,
        text::ascii_lower_seq(part) == text::ascii_lower_seq(text::trim(query)),
    ensures
        filtered(rows, query).contains(rows[i]),
{
    lemma_part_is_held(before, part, after);
    lemma_match_is_kept(rows, query, i);
}

/// A row whose comment holds the query, in capitals or small letters, is kept.
pub proof fn law_comments_are_searched(
    rows: Seq<&Row>,
    query: Seq<char>,
    i: int,
    before: Seq<char>,
    part: Seq<char>,
    after: Seq<char>,
)
    requires
        0 <= i < rows.len(),
        rows[i]@.comment == before + part + after,
        text::ascii_lower_seq(part) == text::ascii_lower_seq(text::trim(query)),
    ensures
        filtered(rows, query).contains(rows[i]),
{
    lemma_part_is_held(before, part, after);
    lemma_match_is_kept(rows, query, i);
}

/// A row whose offset, written as `0x` and hexadecimal digits, holds the query is
/// kept.
pub proof fn law_offsets_are_searched(
    rows: Seq<&Row>,
    query: Seq<char>,
    i: int,
    before: Seq<char>,
    after: Seq<char>,
)
    requires
        0 <= i < rows.len(),
        seq!['0', 'x'] + text::written(rows[i]@.offset as nat, 16, false) == before
            + text::ascii_lower_seq(text::trim(query)) + after,
    ensures
        filtered(rows, query).contains(rows[i]),
{
    let needle = text::ascii_lower_seq(text::trim(query));
    let label = before + needle + after;
    let at = before.len() as int;
    assert(label.subrange(at, at + needle.len()) =~= needle);
    assert(text::occurs_at(label, needle, at));
    lemma_match_is_kept(rows, query, i);
}

/// A row whose address, written as `0x` and hexadecimal digits, holds the query
/// is kept.
pub proof fn law_addresses_are_searched(
    rows: Seq<&Row>,
    query: Seq<char>,
    i: int,
    before: Seq<char>,
    after: Seq<char>,
)
    requires
        0 <= i < rows.len(),
        seq!['0', 'x'] + text::written(rows[i]@.address as nat, 16, false) == before
            + text::ascii_lower_seq(text::trim(query)) + after,
    ensures
        filtered(rows, query).contains(rows[i]),
{
    let needle = text::ascii_lower_seq(text::trim(query));
    let label = before + needle + after;
    let at = before.len() as int;
    assert(label.subrange(at, at + needle.len()) =~= needle);
    assert(text::occurs_at(label, needle, at));
    lemma_match_is_kept(rows, query, i);
}

/// A filter keeps nothing without a reason and does not rearrange: the rows kept
/// are rows of the table, in its order. Each of them holds the query in one of
/// its columns, or has a row that does below it, with nothing as shallow as
/// itself in between. No row that holds the query is left out.
///
/// `at` says where in the table the rows kept stand.
pub proof fn law_filter_keeps_nothing_else(rows: Seq<&Row>, query: Seq<char>) -> (at: Seq<int>)
    requires
        text::trim(query).len() > 0,
    ensures
        at.len() == filtered(rows, query).len(),
        forall|a: int|
            0 <= a < at.len() ==> 0 <= #[trigger] at[a] < rows.len() && filtered(rows, query)[a]
                == rows[at[a]],
        forall|a: int, b: int| 0 <= a < b < at.len() ==> #[trigger] at[a] < #[trigger] at[b],
        forall|a: int|
            0 <= a < at.len() ==> exists|j: int|
                #[trigger] at[a] <= j < rows.len() && in_a_column(
                    (#[trigger] rows[j])@,
                    text::ascii_lower_seq(text::trim(query)),
                ) && forall|k: int|
                    at[a] < k <= j ==> (#[trigger] rows[k]).depth > rows[at[a]].depth,
        forall|i: int|
            0 <= i < rows.len() && in_a_column(
                (#[trigger] rows[i])@,
                text::ascii_lower_seq(text::trim(query)),
            ) ==> at.contains(i),
{
    let needle = needle_of(query);
    let n = rows.len() as int;
    let at = shown_at(rows, needle, n);
    lemma_shown_at(rows, needle, n);
    assert forall|i: int|
        0 <= i < rows.len() && in_a_column((#[trigger] rows[i])@, needle) implies at.contains(
        i,
    ) by {
        assert(shown(rows, needle, i));
    }
    assert forall|a: int| 0 <= a < at.len() implies exists|j: int|
        #[trigger] at[a] <= j < rows.len() && in_a_column((#[trigger] rows[j])@, needle) && forall|
            k: int,
        |
            at[a] < k <= j ==> (#[trigger] rows[k]).depth > rows[at[a]].depth by {
        let i = at[a];
        assert(shown(rows, needle, i));
        if row_matches(rows[i]@, needle) {
            assert(in_a_column(rows[i]@, needle));
        } else {
            let j = choose|j: int|
                i < j < rows.len() && row_matches((#[trigger] rows[j])@, needle) && is_above(
                    rows,
                    i,
                    j,
                );
            assert(in_a_column(rows[j]@, needle));
        }
    }
    at
}

/// Whether a column of the table shows `needle`, whatever the case of its
/// letters.
pub open spec fn in_a_column(row: RowV, needle: Seq<char>) -> bool {
    ||| text::occurs(text::ascii_lower_seq(row.name), needle)
    ||| text::occurs(text::ascii_lower_seq(row.type_label), needle)
    ||| text::occurs(text::ascii_lower_seq(row.value), needle)
    ||| text::occurs(text::ascii_lower_seq(row.comment), needle)
    ||| text::occurs(seq!['0', 'x'] + text::written(row.offset as nat, 16, false), needle)
    ||| text::occurs(seq!['0', 'x'] + text::written(row.address as nat, 16, false), needle)
}

// ---------------------------------------------------------------------------
// Going to an address
// ---------------------------------------------------------------------------

/// The number that a goto input writes: hexadecimal after `0x`; else `123d` in
/// decimal, and anything without the `d` in hexadecimal.
pub open spec fn goto_of(input: Seq<char>) -> Option<u64> {
    let s = text::trim(input);
    if s.len() == 0 {
        None
    } else if without_0x(s).len() == s.len() && (s.last() == 'd' || s.last() == 'D') {
        text::u64_number(text::trim(s.drop_last()), 10)
    } else {
        text::u64_number(without_0x(s), 16)
    }
}

/// `s` without a `0x` or `0X` before it.
pub open spec fn without_0x(s: Seq<char>) -> Seq<char> {
    if s.len() >= 2 && s[0] == '0' && (s[1] == 'x' || s[1] == 'X') {
        s.skip(2)
    } else {
        s
    }
}

/// [`without_0x`] of `s`.
pub fn strip_0x(s: &Vec<char>) -> (r: Vec<char>)
    ensures
        r@ == without_0x(s@),
{
    if s.len() >= 2 && s[0] == '0' && (s[1] == 'x' || s[1] == 'X') {
        let r = text::part(s, 2, s.len());
        proof {
            assert(r@ =~= s@.skip(2));
        }
        r
    } else {
        let r = text::part(s, 0, s.len());
        proof {
            assert(r@ =~= s@);
        }
        r
    }
}

/// Parse a goto target: `0x`-prefixed or bare hex, or `123d` decimal.
///
/// Bare digits are hex, matching the address bar; the `d` suffix is the escape
/// hatch for the rare decimal offset. After `0x` a `d` is a digit like any other.
pub fn parse_goto(input: &str) -> (r: Option<u64>)
    ensures
        r == goto_of(input@),
{
    let s = text::trim_chars(&text::chars_of(input));
    let n: usize = s.len();
    if n == 0 {
        return None;
    }
    let hex = strip_0x(&s);
    if hex.len() == n && (s[n - 1] == 'd' || s[n - 1] == 'D') {
        let dec = text::part(&s, 0, n - 1);
        proof {
            assert(dec@ =~= s@.drop_last());
        }
        return text::parse_u64_radix(&text::trim_chars(&dec), 10);
    }
    text::parse_u64_radix(&hex, 16)
}

/// Whether some row has an address.
pub open spec fn addressed(rows: Seq<&Row>) -> bool {
    exists|i: int| 0 <= i < rows.len() && (#[trigger] rows[i]).address != 0
}

/// What a row is found by: its address, or its offset where no row has one.
pub open spec fn goto_key(rows: Seq<&Row>, i: int) -> nat {
    if addressed(rows) {
        rows[i].address as nat
    } else {
        rows[i].offset as nat
    }
}

/// Whether `target` lands in row `i`: of the rows at or before it the nearest,
/// the last of those at one place; the first row where there is none.
pub open spec fn found_at(rows: Seq<&Row>, target: u64, i: int) -> bool {
    &&& goto_key(rows, i) > target ==> i == 0 && forall|k: int|
        0 <= k < rows.len() ==> #[trigger] goto_key(rows, k) > target
    &&& goto_key(rows, i) <= target ==> forall|k: int|
        0 <= k < rows.len() && #[trigger] goto_key(rows, k) <= target ==> goto_key(rows, k)
            < goto_key(rows, i) || (goto_key(rows, k) == goto_key(rows, i) && k <= i)
}

/// Index of the row `target` lands in, matching absolute address first and
/// falling back to class-relative offset.
///
/// "Lands in" means the row nearest before `target` or at it, not an exact hit:
/// an address usually points into the middle of a field. A tree shows rows of
/// other places in between, so the nearest need not be the last one in the
/// table; of several at one place the last is taken. A target below every row
/// lands on the first.
pub fn find_row(rows: &Vec<&Row>, target: u64) -> (r: Option<usize>)
    ensures
        r is None == (rows@.len() == 0),
        r is Some ==> 0 <= r->0 < rows@.len() && found_at(rows@, target, r->0 as int),
{
    if rows.len() == 0 {
        return None;
    }
    let mut by_address: bool = false;
    let mut i: usize = 0;
    while i < rows.len()
        invariant
            i <= rows@.len(),
            by_address == exists|k: int| 0 <= k < i && (#[trigger] rows@[k]).address != 0,
        decreases rows@.len() - i,
    {
        if rows[i].address != 0 {
            by_address = true;
        }
        i = i + 1;
    }
    let mut best: usize = 0;
    let mut best_key: u64 = 0;
    let mut found: bool = false;
    let mut j: usize = 0;
    while j < rows.len()
        invariant
            j <= rows@.len(),
            rows@.len() > 0,
            by_address == addressed(rows@),
            !found ==> best == 0 && forall|k: int|
                0 <= k < j ==> #[trigger] goto_key(rows@, k) > target,
            found ==> best < j && best_key == goto_key(rows@, best as int) && best_key <= target,
            found ==> forall|k: int|
                0 <= k < j && #[trigger] goto_key(rows@, k) <= target ==> goto_key(rows@, k)
                    < best_key || (goto_key(rows@, k) == best_key && k <= best),
        decreases rows@.len() - j,
    {
        let key: u64 = if by_address {
            rows[j].address
        } else {
            rows[j].offset as u64
        };
        assert(key == goto_key(rows@, j as int));
        if key <= target && (!found || best_key <= key) {
            best = j;
            best_key = key;
            found = true;
        }
        j = j + 1;
    }
    Some(best)
}

/// The field that contains an address is found: a row that begins at the target
/// or before it, where none begins between the two and none further down begins
/// at the same place.
pub proof fn law_goto_finds_the_field(rows: Seq<&Row>, target: u64, field: int, found: int)
    requires
        0 <= field < rows.len(),
        0 <= found < rows.len(),
        goto_key(rows, field) <= target,
        forall|k: int|
            0 <= k < rows.len() && #[trigger] goto_key(rows, k) <= target ==> goto_key(rows, k)
                <= goto_key(rows, field),
        forall|k: int|
            field < k < rows.len() ==> #[trigger] goto_key(rows, k) != goto_key(rows, field),
        found_at(rows, target, found),
    ensures
        found == field,
{
}

/// A number is gone to however it is written: after `0x`, in capital or small
/// hexadecimal, or in decimal with a `d` behind it. Bare digits are hexadecimal,
/// unless they end in that `d`.
pub proof fn law_goto_reads_numbers(n: u64, upper: bool)
    ensures
        goto_of(seq!['0', 'x'] + text::written(n as nat, 16, upper)) == Some(n),
        goto_of(seq!['0', 'X'] + text::written(n as nat, 16, upper)) == Some(n),
        n % 16 != 13 ==> goto_of(text::written(n as nat, 16, upper)) == Some(n),
        goto_of(text::written(n as nat, 10, false).push('d')) == Some(n),
        goto_of(text::written(n as nat, 10, false).push('D')) == Some(n),
{
    let h = text::written(n as nat, 16, upper);
    let d = text::written(n as nat, 10, false);
    text::lemma_written_reads_back(n as nat, 16, upper);
    text::lemma_written_reads_back(n as nat, 10, false);
    assert forall|k: int| 0 <= k < h.len() implies !text::is_white(#[trigger] h[k]) && h[k] != '+'
        && h[k] != 'x' && h[k] != 'X' by {
        assert(text::is_digit(h[k], 16));
    }
    assert forall|k: int| 0 <= k < d.len() implies !text::is_white(#[trigger] d[k]) && d[k] != '+'
        && d[k] != 'x' && d[k] != 'X' by {
        assert(text::is_digit(d[k], 10));
    }
    assert(h.last() == h[h.len() - 1]);
    assert(h.last() == text::digit_char((n % 16) as nat, upper));
    let a = seq!['0', 'x'] + h;
    let b = seq!['0', 'X'] + h;
    let p = d.push('d');
    let q = d.push('D');
    assert(a.last() == h.last() && b.last() == h.last());
    assert(a.skip(2) =~= h);
    assert(b.skip(2) =~= h);
    assert(p[0] == d[0] && q[0] == d[0]);
    assert(d.len() > 1 ==> p[1] == d[1] && q[1] == d[1]);
    assert(p.drop_last() =~= d);
    assert(q.drop_last() =~= d);
    assert(d.last() == d[d.len() - 1]);
    assert(h.len() > 1 ==> !text::is_white(h[1]) && h[1] != 'x');
    assert(text::trim(a) == a);
    assert(text::trim(b) == b);
    assert(text::trim(h) == h);
    assert(text::trim(p) == p);
    assert(text::trim(q) == q);
    assert(text::trim(d) == d);
}

/// Going to an address lands on the field that contains it, by the addresses
/// where the rows have any, else by the offsets; before every row, on the first.
pub proof fn law_goto_goes_by_address_first(
    rows: Seq<&Row>,
    target: u64,
    field: int,
    found: int,
)
    requires
        0 <= field < rows.len(),
        0 <= found < rows.len(),
        found_at(rows, target, found),
    ensures
        (exists|i: int| 0 <= i < rows.len() && (#[trigger] rows[i]).address != 0)
            && rows[field].address <= target && (forall|k: int|
            0 <= k < rows.len() && k != field ==> (#[trigger] rows[k]).address > target
                || rows[k].address < rows[field].address || (rows[k].address
                == rows[field].address && k < field)) ==> found == field,
        (forall|i: int| 0 <= i < rows.len() ==> (#[trigger] rows[i]).address == 0)
            && rows[field].offset <= target && (forall|k: int|
            0 <= k < rows.len() && k != field ==> (#[trigger] rows[k]).offset > target
                || rows[k].offset < rows[field].offset || (rows[k].offset == rows[field].offset && k
                < field)) ==> found == field,
        (forall|i: int| 0 <= i < rows.len() ==> (#[trigger] rows[i]).address > target) ==> found
            == 0,
{
    let here = goto_key(rows, field);
    let there = goto_key(rows, found);
    assert(here <= target ==> there <= target);
    assert(here <= target ==> here < there || (here == there && field <= found));
    if forall|i: int| 0 <= i < rows.len() ==> (#[trigger] rows[i]).address == 0 {
        assert(!addressed(rows));
    } else {
        let i = choose|i: int| 0 <= i < rows.len() && (#[trigger] rows[i]).address != 0;
        assert(addressed(rows));
    }
}

} // verus!

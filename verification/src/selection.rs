//! Selecting rows and classes with the mouse: a plain click replaces the
//! selection, Ctrl/Cmd toggles one item, Shift takes a range from the anchor.

use crate::expand::{dup_path, same_path};
use crate::node::{ClassId, PathSeg};
use crate::rows::Row;
use vstd::prelude::*;

verus! {

/// The modifier keys held during a click.
#[derive(Clone, Copy, Debug, PartialEq, Eq, Structural)]
pub struct Mods {
    pub shift: bool,
    /// Ctrl, or Cmd on a Mac.
    pub command: bool,
}

/// `s` with `t` in it.
pub open spec fn with_item<T>(s: Seq<T>, t: T) -> Seq<T> {
    if s.contains(t) {
        s
    } else {
        s.push(t)
    }
}

/// `s` without `t`.
pub open spec fn without_item<T>(s: Seq<T>, t: T) -> Seq<T>
    decreases s.len(),
{
    if s.len() == 0 {
        s
    } else if s.last() == t {
        without_item(s.drop_last(), t)
    } else {
        without_item(s.drop_last(), t).push(s.last())
    }
}

/// The items of `s`, each once.
pub open spec fn gathered<T>(s: Seq<T>) -> Seq<T>
    decreases s.len(),
{
    if s.len() == 0 {
        s
    } else {
        with_item(gathered(s.drop_last()), s.last())
    }
}

/// The items from one of two positions up to the other.
pub open spec fn between<T>(items: Seq<T>, a: int, b: int) -> Seq<T> {
    if a <= b {
        items.subrange(a, b + 1)
    } else {
        items.subrange(b, a + 1)
    }
}

/// The selection and its anchor after a click on item `i`.
pub open spec fn clicked<T>(
    sel: Seq<T>,
    anchor: Option<usize>,
    items: Seq<T>,
    i: usize,
    mods: Mods,
) -> (Seq<T>, Option<usize>) {
    let t = items[i as int];
    if mods.shift {
        match anchor {
            Some(a) => if a < items.len() {
                (gathered(between(items, a as int, i as int)), anchor)
            } else {
                (with_item(sel, t), Some(i))
            },
            None => (with_item(sel, t), Some(i)),
        }
    } else if mods.command {
        (
            if sel.contains(t) {
                without_item(sel, t)
            } else {
                sel.push(t)
            },
            Some(i),
        )
    } else {
        (seq![t], Some(i))
    }
}

// ---------------------------------------------------------------------------
// Classes
// ---------------------------------------------------------------------------

/// Whether `id` is selected.
pub fn has_class(v: &Vec<ClassId>, id: ClassId) -> (r: bool)
    ensures
        r == v@.contains(id),
{
    let mut i: usize = 0;
    while i < v.len()
        invariant
            i <= v@.len(),
            forall|k: int| 0 <= k < i ==> v@[k] != id,
        decreases v@.len() - i,
    {
        if v[i] == id {
            return true;
        }
        i = i + 1;
    }
    false
}

/// The selection without `id`.
pub fn drop_class(v: &Vec<ClassId>, id: ClassId) -> (r: Vec<ClassId>)
    ensures
        r@ == without_item(v@, id),
{
    let mut out: Vec<ClassId> = Vec::new();
    let mut i: usize = 0;
    proof {
        assert(v@.take(0) =~= Seq::<ClassId>::empty());
    }
    while i < v.len()
        invariant
            i <= v@.len(),
            out@ == without_item(v@.take(i as int), id),
        decreases v@.len() - i,
    {
        proof {
            let k = v@.take(i as int + 1);
            assert(k.drop_last() =~= v@.take(i as int));
            assert(k.last() == v@[i as int]);
        }
        if v[i] != id {
            out.push(v[i]);
        }
        i = i + 1;
    }
    proof {
        assert(v@.take(i as int) =~= v@);
    }
    out
}

/// Click on class `i` of `items`.
pub fn click_class(
    sel: &mut Vec<ClassId>,
    anchor: &mut Option<usize>,
    items: &Vec<ClassId>,
    i: usize,
    mods: Mods,
)
    requires
        i < items@.len(),
    ensures
        (final(sel)@, *final(anchor)) == clicked(old(sel)@, *old(anchor), items@, i, mods),
{
    let id: ClassId = items[i];
    if mods.shift {
        let from: usize = match *anchor {
            Some(a) => a,
            None => items.len(),
        };
        if from < items.len() {
            let lo: usize = if from <= i { from } else { i };
            let hi: usize = if from <= i { i } else { from };
            let ghost part = between(items@, from as int, i as int);
            let mut out: Vec<ClassId> = Vec::new();
            let mut n: usize = lo;
            proof {
                assert(part.take(0) =~= Seq::<ClassId>::empty());
            }
            let end: usize = hi + 1;
            while n < end
                invariant
                    lo <= n <= end,
                    end <= items@.len(),
                    part == items@.subrange(lo as int, end as int),
                    out@ == gathered(part.take(n - lo)),
                decreases end - n,
            {
                proof {
                    let k = part.take(n - lo + 1);
                    assert(k.drop_last() =~= part.take(n - lo));
                    assert(k.last() == items@[n as int]);
                }
                if !has_class(&out, items[n]) {
                    out.push(items[n]);
                }
                n = n + 1;
            }
            proof {
                assert(part.take(n - lo) =~= part);
            }
            *sel = out;
        } else {
            if !has_class(&*sel, id) {
                sel.push(id);
            }
            *anchor = Some(i);
        }
    } else if mods.command {
        if has_class(&*sel, id) {
            *sel = drop_class(&*sel, id);
        } else {
            sel.push(id);
        }
        *anchor = Some(i);
    } else {
        let mut out: Vec<ClassId> = Vec::new();
        out.push(id);
        proof {
            assert(out@ =~= seq![id]);
        }
        *sel = out;
        *anchor = Some(i);
    }
}

// ---------------------------------------------------------------------------
// Rows
// ---------------------------------------------------------------------------

/// What a list of paths says.
pub open spec fn paths_view(v: Seq<Vec<PathSeg>>) -> Seq<Seq<PathSeg>> {
    Seq::new(v.len(), |i: int| v[i]@)
}

/// The paths of the rows.
pub open spec fn row_paths(rows: Seq<&Row>) -> Seq<Seq<PathSeg>> {
    Seq::new(rows.len(), |i: int| rows[i].path@)
}

/// Whether `path` is selected.
pub fn has_path(v: &Vec<Vec<PathSeg>>, path: &Vec<PathSeg>) -> (r: bool)
    ensures
        r == paths_view(v@).contains(path@),
{
    let ghost s = paths_view(v@);
    let mut i: usize = 0;
    while i < v.len()
        invariant
            i <= v@.len(),
            s == paths_view(v@),
            forall|k: int| 0 <= k < i ==> s[k] != path@,
        decreases v@.len() - i,
    {
        if same_path(&v[i], path) {
            proof {
                assert(s[i as int] == path@);
            }
            return true;
        }
        i = i + 1;
    }
    false
}

/// Append a copy of `path`.
fn push_path(v: &mut Vec<Vec<PathSeg>>, path: &Vec<PathSeg>)
    ensures
        paths_view(final(v)@) == paths_view(old(v)@).push(path@),
{
    let ghost before = paths_view(v@);
    v.push(dup_path(path));
    proof {
        assert(paths_view(v@) =~= before.push(path@));
    }
}

/// The selection without `path`.
fn drop_path(v: &Vec<Vec<PathSeg>>, path: &Vec<PathSeg>) -> (r: Vec<Vec<PathSeg>>)
    ensures
        paths_view(r@) == without_item(paths_view(v@), path@),
{
    let ghost s = paths_view(v@);
    let mut out: Vec<Vec<PathSeg>> = Vec::new();
    let mut i: usize = 0;
    proof {
        assert(s.take(0) =~= Seq::<Seq<PathSeg>>::empty());
        assert(paths_view(out@) =~= Seq::<Seq<PathSeg>>::empty());
    }
    while i < v.len()
        invariant
            i <= v@.len(),
            s == paths_view(v@),
            paths_view(out@) == without_item(s.take(i as int), path@),
        decreases v@.len() - i,
    {
        proof {
            let k = s.take(i as int + 1);
            assert(k.drop_last() =~= s.take(i as int));
            assert(k.last() == v@[i as int]@);
        }
        if !same_path(&v[i], path) {
            push_path(&mut out, &v[i]);
        }
        i = i + 1;
    }
    proof {
        assert(s.take(i as int) =~= s);
    }
    out
}

/// The paths of the rows `lo..=hi`, each once.
fn gather_rows(visible: &Vec<&Row>, lo: usize, hi: usize) -> (r: Vec<Vec<PathSeg>>)
    requires
        lo <= hi < visible@.len(),
    ensures
        paths_view(r@) == gathered(row_paths(visible@).subrange(lo as int, hi + 1)),
{
    let ghost part = row_paths(visible@).subrange(lo as int, hi + 1);
    let mut out: Vec<Vec<PathSeg>> = Vec::new();
    let mut n: usize = lo;
    proof {
        assert(part.take(0) =~= Seq::<Seq<PathSeg>>::empty());
        assert(paths_view(out@) =~= Seq::<Seq<PathSeg>>::empty());
    }
    assert(hi < visible.len());
    let end: usize = hi + 1;
    while n < end
        invariant
            lo <= n <= end,
            end <= visible@.len(),
            part == row_paths(visible@).subrange(lo as int, end as int),
            paths_view(out@) == gathered(part.take(n - lo)),
        decreases end - n,
    {
        let row: &Row = visible[n];
        proof {
            let k = part.take(n - lo + 1);
            assert(k.drop_last() =~= part.take(n - lo));
            assert(k.last() == row.path@);
        }
        if !has_path(&out, &row.path) {
            push_path(&mut out, &row.path);
        }
        n = n + 1;
    }
    proof {
        assert(part.take(n - lo) =~= part);
    }
    out
}

/// Update the selection from a click on row `idx` (plain = replace, Ctrl/Cmd =
/// toggle, Shift = range from the anchor).
pub fn select_row(
    sel: &mut Vec<Vec<PathSeg>>,
    anchor: &mut Option<usize>,
    visible: &Vec<&Row>,
    idx: usize,
    mods: Mods,
)
    requires
        idx < visible@.len(),
    ensures
        (paths_view(final(sel)@), *final(anchor)) == clicked(
            paths_view(old(sel)@),
            *old(anchor),
            row_paths(visible@),
            idx,
            mods,
        ),
{
    let row: &Row = visible[idx];
    if mods.shift {
        let from: usize = match *anchor {
            Some(a) => a,
            None => visible.len(),
        };
        if from < visible.len() {
            *sel = if from <= idx {
                gather_rows(visible, from, idx)
            } else {
                gather_rows(visible, idx, from)
            };
        } else {
            if !has_path(&*sel, &row.path) {
                push_path(sel, &row.path);
            }
            *anchor = Some(idx);
        }
    } else if mods.command {
        if has_path(&*sel, &row.path) {
            *sel = drop_path(&*sel, &row.path);
        } else {
            push_path(sel, &row.path);
        }
        *anchor = Some(idx);
    } else {
        let mut out: Vec<Vec<PathSeg>> = Vec::new();
        push_path(&mut out, &row.path);
        proof {
            assert(paths_view(out@) =~= seq![row.path@]);
        }
        *sel = out;
        *anchor = Some(idx);
    }
}

// ---------------------------------------------------------------------------
// Laws
// ---------------------------------------------------------------------------

proof fn lemma_without<T>(s: Seq<T>, t: T)
    requires
        s.no_duplicates(),
    ensures
        without_item(s, t).no_duplicates(),
        forall|x: T| #[trigger] without_item(s, t).contains(x) == (s.contains(x) && x != t),
    decreases s.len(),
{
    let w = without_item(s, t);
    if s.len() > 0 {
        let head = s.drop_last();
        lemma_without(head, t);
        assert(!head.contains(s.last()));
        assert forall|x: T| #[trigger] w.contains(x) == (s.contains(x) && x != t) by {
            let h = without_item(head, t);
            if w.contains(x) {
                let k = choose|k: int| 0 <= k < w.len() && w[k] == x;
                if k < h.len() {
                    assert(h[k] == x);
                    assert(h.contains(x));
                    let j = choose|j: int| 0 <= j < head.len() && head[j] == x;
                    assert(s[j] == x);
                } else {
                    assert(s[s.len() - 1] == x);
                }
            }
            if s.contains(x) && x != t {
                let k = choose|k: int| 0 <= k < s.len() && s[k] == x;
                if k < head.len() {
                    assert(head[k] == x);
                    assert(h.contains(x));
                    let j = choose|j: int| 0 <= j < h.len() && h[j] == x;
                    assert(w[j] == x);
                } else {
                    assert(w[w.len() - 1] == x);
                }
            }
        }
        assert(w.no_duplicates()) by {
            let h = without_item(head, t);
            if s.last() != t {
                assert(!h.contains(s.last()));
            }
        }
    }
}

proof fn lemma_gathered<T>(s: Seq<T>)
    ensures
        gathered(s).no_duplicates(),
        forall|x: T| #[trigger] gathered(s).contains(x) == s.contains(x),
    decreases s.len(),
{
    if s.len() > 0 {
        let head = s.drop_last();
        lemma_gathered(head);
        let g = gathered(head);
        let w = with_item(g, s.last());
        assert forall|x: T| #[trigger] w.contains(x) == s.contains(x) by {
            if w.contains(x) {
                if g.contains(x) {
                    let k = choose|k: int| 0 <= k < head.len() && head[k] == x;
                    assert(s[k] == x);
                } else {
                    assert(s[s.len() - 1] == x);
                }
            }
            if s.contains(x) {
                let k = choose|k: int| 0 <= k < s.len() && s[k] == x;
                if k < head.len() {
                    assert(head[k] == x);
                    assert(g.contains(x));
                    let j = choose|j: int| 0 <= j < g.len() && g[j] == x;
                    assert(w[j] == x);
                } else if !g.contains(x) {
                    assert(w[g.len() as int] == x);
                }
            }
        }
    }
}

/// A selection holds no item twice, whatever is clicked.
pub proof fn law_selection_has_no_duplicates<T>(
    sel: Seq<T>,
    anchor: Option<usize>,
    items: Seq<T>,
    i: usize,
    mods: Mods,
)
    requires
        sel.no_duplicates(),
        i < items.len(),
    ensures
        clicked(sel, anchor, items, i, mods).0.no_duplicates(),
{
    lemma_without(sel, items[i as int]);
    match anchor {
        Some(a) => {
            lemma_gathered(between(items, a as int, i as int));
        },
        None => {},
    }
}

/// A plain click selects one item; a second click with Ctrl/Cmd takes back what
/// the first one did; a Shift click selects exactly the items from the anchor to
/// the one clicked.
pub proof fn law_clicks<T>(sel: Seq<T>, anchor: usize, items: Seq<T>, i: usize, x: T)
    requires
        sel.no_duplicates(),
        i < items.len(),
        anchor < items.len(),
    ensures
        clicked(sel, Some(anchor), items, i, Mods { shift: false, command: false }).0 == seq![
            items[i as int],
        ],
        ({
            let m = Mods { shift: false, command: true };
            let once = clicked(sel, Some(anchor), items, i, m);
            clicked(once.0, once.1, items, i, m).0.contains(x) == sel.contains(x)
        }),
        clicked(sel, Some(anchor), items, i, Mods { shift: true, command: false }).0.contains(x) == (
        exists|k: int|
            (anchor <= k <= i || i <= k <= anchor) && #[trigger] items[k] == x),
{
    let t = items[i as int];
    lemma_without(sel, t);
    let pushed = sel.push(t);
    if !sel.contains(t) {
        assert(pushed[sel.len() as int] == t);
        assert(pushed.contains(t));
        lemma_without(pushed, t);
        if sel.contains(x) {
            let k = choose|k: int| 0 <= k < sel.len() && sel[k] == x;
            assert(pushed[k] == x);
        }
        if pushed.contains(x) && x != t {
            let k = choose|k: int| 0 <= k < pushed.len() && pushed[k] == x;
            assert(sel[k] == x);
        }
    } else {
        let w = without_item(sel, t);
        let again = w.push(t);
        assert(!w.contains(t));
        if sel.contains(x) {
            if x == t {
                assert(again[w.len() as int] == x);
            } else {
                assert(w.contains(x));
                let k = choose|k: int| 0 <= k < w.len() && w[k] == x;
                assert(again[k] == x);
            }
        }
        if again.contains(x) {
            let k = choose|k: int| 0 <= k < again.len() && again[k] == x;
            if k < w.len() {
                assert(w[k] == x);
                assert(w.contains(x));
            }
        }
    }
    let part = between(items, anchor as int, i as int);
    lemma_gathered(part);
    let lo = if anchor <= i { anchor as int } else { i as int };
    if part.contains(x) {
        let k = choose|k: int| 0 <= k < part.len() && part[k] == x;
        assert(items[lo + k] == x);
    }
    if exists|k: int| (anchor <= k <= i || i <= k <= anchor) && #[trigger] items[k] == x {
        let k = choose|k: int|
            (anchor <= k <= i || i <= k <= anchor) && #[trigger] items[k] == x;
        assert(part[k - lo] == x);
    }
}

/// A click with Ctrl/Cmd turns the item clicked and no other: selected if it was
/// not, and no longer if it was.
pub proof fn law_ctrl_click_turns_one_item<T>(
    sel: Seq<T>,
    anchor: Option<usize>,
    items: Seq<T>,
    i: usize,
    x: T,
)
    requires
        sel.no_duplicates(),
        i < items.len(),
    ensures
        ({
            let after = clicked(sel, anchor, items, i, Mods { shift: false, command: true }).0;
            &&& after.contains(items[i as int]) == !sel.contains(items[i as int])
            &&& x != items[i as int] ==> after.contains(x) == sel.contains(x)
        }),
{
    let t = items[i as int];
    lemma_without(sel, t);
    if !sel.contains(t) {
        let w = sel.push(t);
        assert(w[sel.len() as int] == t);
        if sel.contains(x) {
            let k = choose|k: int| 0 <= k < sel.len() && sel[k] == x;
            assert(w[k] == x);
        }
        if w.contains(x) && x != t {
            let k = choose|k: int| 0 <= k < w.len() && w[k] == x;
            assert(sel[k] == x);
        }
    }
}

/// The anchor of a range is the item last clicked without Shift: a click without
/// it moves the anchor there, one with it leaves the anchor where it is. Without
/// an anchor a Shift click adds the item clicked and sets the anchor there.
pub proof fn law_anchor_follows_plain_clicks<T>(
    sel: Seq<T>,
    anchor: Option<usize>,
    items: Seq<T>,
    i: usize,
    mods: Mods,
)
    requires
        i < items.len(),
    ensures
        !mods.shift ==> clicked(sel, anchor, items, i, mods).1 == Some(i),
        mods.shift && (anchor matches Some(a) && a < items.len()) ==> clicked(
            sel,
            anchor,
            items,
            i,
            mods,
        ).1 == anchor,
        mods.shift && anchor is None ==> {
            let after = clicked(sel, anchor, items, i, mods);
            &&& after.1 == Some(i)
            &&& after.0.contains(items[i as int])
            &&& forall|x: T| #[trigger] sel.contains(x) ==> after.0.contains(x)
            &&& after.0.len() <= sel.len() + 1
        },
{
    let t = items[i as int];
    let w = with_item(sel, t);
    if !sel.contains(t) {
        assert(w[sel.len() as int] == t);
    }
    assert forall|x: T| #[trigger] sel.contains(x) implies w.contains(x) by {
        let k = choose|k: int| 0 <= k < sel.len() && sel[k] == x;
        assert(w[k] == x);
    }
}

/// A range runs in the order of the items, whichever end was clicked first.
pub proof fn law_ranges_run_both_ways<T>(
    sel: Seq<T>,
    items: Seq<T>,
    a: usize,
    b: usize,
)
    requires
        a <= b < items.len(),
    ensures
        ({
            let m = Mods { shift: true, command: false };
            clicked(sel, Some(a), items, b, m).0 == clicked(sel, Some(b), items, a, m).0
        }),
        items.no_duplicates() ==> clicked(
            sel,
            Some(a),
            items,
            b,
            Mods { shift: true, command: false },
        ).0 == items.subrange(a as int, b + 1),
{
    let part = items.subrange(a as int, b + 1);
    assert(between(items, a as int, b as int) =~= between(items, b as int, a as int));
    if items.no_duplicates() {
        lemma_gathers_distinct(part);
    }
}

/// Items that are distinct are gathered as they are.
proof fn lemma_gathers_distinct<T>(s: Seq<T>)
    requires
        s.no_duplicates(),
    ensures
        gathered(s) == s,
    decreases s.len(),
{
    if s.len() > 0 {
        let head = s.drop_last();
        lemma_gathers_distinct(head);
        assert(!head.contains(s.last()));
        assert(head.push(s.last()) =~= s);
    }
}

} // verus!

//! Value-change flash tracking: which rows just changed, so that the table can
//! highlight them and fade the highlight out.
//!
//! A moment is a number that this module only ever passes on: the caller reads
//! its clock, and works out how far a highlight has faded.

use crate::expand::{dup_path, same_path, Spot};
use crate::node::PathSeg;
use crate::text;
use vstd::prelude::*;

verus! {

/// What is remembered of a row: its signature when last seen, and the moment
/// from which its highlight fades.
#[derive(Debug)]
pub struct Seen {
    pub root: usize,
    pub path: Vec<PathSeg>,
    pub sig: String,
    pub at: u64,
}

/// What a [`Seen`] says.
pub struct SeenV {
    pub spot: Spot,
    pub sig: Seq<char>,
    pub at: u64,
}

impl View for Seen {
    type V = SeenV;

    open spec fn view(&self) -> SeenV {
        SeenV { spot: (self.root as int, self.path@), sig: self.sig@, at: self.at }
    }
}

/// What a list of rows says.
pub open spec fn seen_view(s: Seq<Seen>) -> Seq<SeenV> {
    Seq::new(s.len(), |i: int| s[i]@)
}

/// A row as it is shown now.
#[derive(Debug)]
pub struct Shown {
    pub root: usize,
    pub path: Vec<PathSeg>,
    pub sig: String,
}

/// What a [`Shown`] says.
pub struct ShownV {
    pub spot: Spot,
    pub sig: Seq<char>,
}

impl View for Shown {
    type V = ShownV;

    open spec fn view(&self) -> ShownV {
        ShownV { spot: (self.root as int, self.path@), sig: self.sig@ }
    }
}

/// What a list of shown rows says.
pub open spec fn shown_view(s: Seq<Shown>) -> Seq<ShownV> {
    Seq::new(s.len(), |i: int| s[i]@)
}

/// Where `spot` stands in `s`; the length of `s` where it does not.
pub open spec fn seat(s: Seq<SeenV>, spot: Spot) -> int
    decreases s.len(),
{
    if s.len() == 0 || s[0].spot == spot {
        0
    } else {
        1 + seat(s.skip(1), spot)
    }
}

/// What is remembered of `spot`, if anything.
pub open spec fn recalled(s: Seq<SeenV>, spot: Spot) -> Option<SeenV> {
    if seat(s, spot) < s.len() {
        Some(s[seat(s, spot)])
    } else {
        None
    }
}

/// `s` without what it remembers of `spot`.
pub open spec fn forgotten(s: Seq<SeenV>, spot: Spot) -> Seq<SeenV> {
    if seat(s, spot) < s.len() {
        s.remove(seat(s, spot))
    } else {
        s
    }
}

/// `s` with `e` in place of what it remembers of the same spot.
pub open spec fn noted(s: Seq<SeenV>, e: SeenV) -> Seq<SeenV> {
    if seat(s, e.spot) < s.len() {
        s.update(seat(s, e.spot), e)
    } else {
        s.push(e)
    }
}

/// From when the highlight of a row shown now fades: unchanged rows keep
/// fading, changed rows flash now, and rows seen for the first time have
/// `faded` out already.
pub open spec fn flash_from(was: Option<SeenV>, sig: Seq<char>, now: u64, faded: u64) -> u64 {
    match was {
        Some(e) => if e.sig == sig {
            e.at
        } else {
            now
        },
        None => faded,
    }
}

/// What is remembered once `rows` were shown, where `before` was remembered
/// earlier and `after` already of this time.
pub open spec fn updated(
    before: Seq<SeenV>,
    after: Seq<SeenV>,
    rows: Seq<ShownV>,
    now: u64,
    faded: u64,
) -> Seq<SeenV>
    decreases rows.len(),
{
    if rows.len() == 0 {
        after
    } else {
        let r = rows[0];
        let at = flash_from(recalled(before, r.spot), r.sig, now, faded);
        updated(
            forgotten(before, r.spot),
            noted(after, SeenV { spot: r.spot, sig: r.sig, at }),
            rows.skip(1),
            now,
            faded,
        )
    }
}

proof fn lemma_seat(s: Seq<SeenV>, spot: Spot, i: int)
    requires
        0 <= i <= s.len(),
        i < s.len() ==> s[i].spot == spot,
        forall|k: int| 0 <= k < i ==> (#[trigger] s[k]).spot != spot,
    ensures
        seat(s, spot) == i,
    decreases s.len(),
{
    if i > 0 {
        assert(s[0].spot != spot);
        assert forall|k: int| 0 <= k < i - 1 implies (#[trigger] s.skip(1)[k]).spot != spot by {
            assert(s.skip(1)[k] == s[k + 1]);
        }
        lemma_seat(s.skip(1), spot, i - 1);
    }
}

proof fn lemma_seat_is_found(s: Seq<SeenV>, spot: Spot)
    ensures
        0 <= seat(s, spot) <= s.len(),
        seat(s, spot) < s.len() ==> s[seat(s, spot)].spot == spot,
        forall|k: int| 0 <= k < seat(s, spot) ==> (#[trigger] s[k]).spot != spot,
    decreases s.len(),
{
    if s.len() > 0 && s[0].spot != spot {
        lemma_seat_is_found(s.skip(1), spot);
        assert forall|k: int| 0 <= k < seat(s, spot) implies (#[trigger] s[k]).spot != spot by {
            if k > 0 {
                assert(s.skip(1)[k - 1] == s[k]);
            }
        }
    }
}

/// [`seat`] in `v`.
fn find(v: &Vec<Seen>, root: usize, path: &Vec<PathSeg>) -> (r: usize)
    ensures
        r == seat(seen_view(v@), (root as int, path@)),
        r <= v@.len(),
{
    let ghost s = seen_view(v@);
    let mut i: usize = 0;
    while i < v.len() && !(v[i].root == root && same_path(&v[i].path, path))
        invariant
            i <= v@.len(),
            s == seen_view(v@),
            forall|k: int| 0 <= k < i ==> (#[trigger] s[k]).spot != (root as int, path@),
        decreases v@.len() - i,
    {
        i = i + 1;
    }
    proof {
        lemma_seat(s, (root as int, path@), i as int);
    }
    i
}

/// Tracks which rows' values just changed.
#[derive(Debug)]
pub struct FlashTracker {
    pub seen: Vec<Seen>,
}

impl View for FlashTracker {
    type V = Seq<SeenV>;

    open spec fn view(&self) -> Seq<SeenV> {
        seen_view(self.seen@)
    }
}

impl FlashTracker {
    /// Nothing was seen yet.
    pub fn new() -> (r: FlashTracker)
        ensures
            r@ == Seq::<SeenV>::empty(),
    {
        let r = FlashTracker { seen: Vec::new() };
        proof {
            assert(r@ =~= Seq::<SeenV>::empty());
        }
        r
    }

    /// Reconcile against the current rows: rows whose signature changed since
    /// last time flash from `now`; brand-new rows do not, their highlight has
    /// `faded`; rows no longer present are dropped.
    pub fn update(&mut self, rows: &Vec<Shown>, now: u64, faded: u64)
        ensures
            final(self)@ == updated(
                old(self)@,
                Seq::empty(),
                shown_view(rows@),
                now,
                faded,
            ),
    {
        let ghost start = self@;
        let ghost all = shown_view(rows@);
        let mut next: Vec<Seen> = Vec::new();
        let mut i: usize = 0;
        proof {
            assert(all.skip(0) =~= all);
            assert(seen_view(next@) =~= Seq::<SeenV>::empty());
        }
        while i < rows.len()
            invariant
                i <= rows@.len(),
                all == shown_view(rows@),
                updated(self@, seen_view(next@), all.skip(i as int), now, faded) == updated(
                    start,
                    Seq::empty(),
                    all,
                    now,
                    faded,
                ),
            decreases rows@.len() - i,
        {
            let row = &rows[i];
            let ghost before = self@;
            let ghost after = seen_view(next@);
            let ghost spot = row@.spot;
            proof {
                assert(all.skip(i as int)[0] == row@);
                assert(all.skip(i as int).skip(1) =~= all.skip(i as int + 1));
            }
            let n: usize = find(&self.seen, row.root, &row.path);
            let at: u64 = if n < self.seen.len() {
                let e = self.seen.remove(n);
                proof {
                    assert(self@ =~= before.remove(n as int));
                }
                if text::str_eq(e.sig.as_str(), row.sig.as_str()) {
                    e.at
                } else {
                    now
                }
            } else {
                faded
            };
            let m: usize = find(&next, row.root, &row.path);
            let e = Seen { root: row.root, path: dup_path(&row.path), sig: row.sig.clone(), at };
            let ghost ev = e@;
            if m < next.len() {
                next.set(m, e);
                proof {
                    assert(seen_view(next@) =~= after.update(m as int, ev));
                }
            } else {
                next.push(e);
                proof {
                    assert(seen_view(next@) =~= after.push(ev));
                }
            }
            proof {
                assert(self@ == forgotten(before, spot));
                assert(seen_view(next@) == noted(after, ev));
            }
            i = i + 1;
        }
        proof {
            assert(all.skip(i as int) =~= Seq::<ShownV>::empty());
        }
        self.seen = next;
    }

    /// The moment from which the highlight of a row fades, if the row was seen.
    pub fn since(&self, root: usize, path: &Vec<PathSeg>) -> (r: Option<u64>)
        ensures
            r == match recalled(self@, (root as int, path@)) {
                Some(e) => Some(e.at),
                None => None,
            },
    {
        let n: usize = find(&self.seen, root, path);
        if n < self.seen.len() {
            Some(self.seen[n].at)
        } else {
            None
        }
    }

    /// The moments from which the highlights of all rows fade.
    pub fn moments(&self) -> (r: Vec<u64>)
        ensures
            r@ == Seq::new(self@.len(), |i: int| self@[i].at),
    {
        let mut out: Vec<u64> = Vec::new();
        let mut i: usize = 0;
        while i < self.seen.len()
            invariant
                i <= self.seen@.len(),
                out@ =~= Seq::new(i as nat, |k: int| self@[k].at),
            decreases self.seen@.len() - i,
        {
            out.push(self.seen[i].at);
            i = i + 1;
        }
        out
    }
}

// ---------------------------------------------------------------------------
// Laws
// ---------------------------------------------------------------------------

proof fn lemma_noted(s: Seq<SeenV>, e: SeenV)
    ensures
        recalled(noted(s, e), e.spot) == Some(e),
        forall|o: Spot| o != e.spot ==> #[trigger] recalled(noted(s, e), o) == recalled(s, o),
{
    lemma_seat_is_found(s, e.spot);
    let n = noted(s, e);
    let i = seat(s, e.spot);
    assert forall|k: int| 0 <= k < i implies (#[trigger] n[k]).spot != e.spot by {
        assert(n[k] == s[k]);
    }
    lemma_seat(n, e.spot, i);
    assert forall|o: Spot| o != e.spot implies #[trigger] recalled(n, o) == recalled(s, o) by {
        lemma_seat_is_found(s, o);
        let j = seat(s, o);
        assert forall|k: int| 0 <= k < j implies (#[trigger] n[k]).spot != o by {
            if k < s.len() && k != i {
                assert(n[k] == s[k]);
            }
        }
        if j < s.len() {
            assert(j != i);
            assert(n[j] == s[j]);
            lemma_seat(n, o, j);
        } else {
            assert forall|k: int| 0 <= k < n.len() implies (#[trigger] n[k]).spot != o by {
                if k < s.len() && k != i {
                    assert(n[k] == s[k]);
                }
            }
            lemma_seat(n, o, n.len() as int);
        }
    }
}

/// Whether the rows have a spot each.
pub open spec fn distinct(rows: Seq<ShownV>) -> bool {
    forall|i: int, j: int|
        0 <= i < j < rows.len() ==> (#[trigger] rows[i]).spot != (#[trigger] rows[j]).spot
}

/// Whether no two entries of `s` are of one spot.
pub open spec fn tidy(s: Seq<SeenV>) -> bool {
    forall|i: int, j: int|
        0 <= i < j < s.len() ==> (#[trigger] s[i]).spot != (#[trigger] s[j]).spot
}

proof fn lemma_forgotten(s: Seq<SeenV>, spot: Spot)
    requires
        tidy(s),
    ensures
        tidy(forgotten(s, spot)),
        forall|o: Spot| o != spot ==> #[trigger] recalled(forgotten(s, spot), o) == recalled(s, o),
{
    lemma_seat_is_found(s, spot);
    let i = seat(s, spot);
    if i < s.len() {
        let f = s.remove(i);
        assert forall|a: int, b: int| 0 <= a < b < f.len() implies (#[trigger] f[a]).spot != (
        #[trigger] f[b]).spot by {
            let x = if a < i { a } else { a + 1 };
            let y = if b < i { b } else { b + 1 };
            assert(f[a] == s[x] && f[b] == s[y]);
        }
        assert forall|o: Spot| o != spot implies #[trigger] recalled(f, o) == recalled(s, o) by {
            lemma_seat_is_found(s, o);
            let j = seat(s, o);
            if j < s.len() {
                let m = if j < i { j } else { j - 1 };
                assert(f[m] == s[j]);
                assert forall|k: int| 0 <= k < m implies (#[trigger] f[k]).spot != o by {
                    let x = if k < i { k } else { k + 1 };
                    assert(f[k] == s[x]);
                }
                lemma_seat(f, o, m);
            } else {
                assert forall|k: int| 0 <= k < f.len() implies (#[trigger] f[k]).spot != o by {
                    let x = if k < i { k } else { k + 1 };
                    assert(f[k] == s[x]);
                }
                lemma_seat(f, o, f.len() as int);
            }
        }
    }
}

proof fn lemma_updated(
    before: Seq<SeenV>,
    after: Seq<SeenV>,
    rows: Seq<ShownV>,
    now: u64,
    faded: u64,
    spot: Spot,
)
    requires
        tidy(before),
        distinct(rows),
    ensures
        recalled(updated(before, after, rows, now, faded), spot) == match find_row(rows, spot) {
            Some(r) => Some(
                SeenV {
                    spot,
                    sig: r.sig,
                    at: flash_from(recalled(before, spot), r.sig, now, faded),
                },
            ),
            None => recalled(after, spot),
        },
    decreases rows.len(),
{
    if rows.len() > 0 {
        let r = rows[0];
        let at = flash_from(recalled(before, r.spot), r.sig, now, faded);
        let e = SeenV { spot: r.spot, sig: r.sig, at };
        lemma_forgotten(before, r.spot);
        lemma_noted(after, e);
        let rest = rows.skip(1);
        assert forall|i: int, j: int| 0 <= i < j < rest.len() implies (#[trigger] rest[i]).spot
            != (#[trigger] rest[j]).spot by {
            assert(rest[i] == rows[i + 1] && rest[j] == rows[j + 1]);
        }
        lemma_updated(forgotten(before, r.spot), noted(after, e), rest, now, faded, spot);
        if r.spot == spot {
            lemma_not_in_rest(rest, spot, rows);
        }
    }
}

/// The first of `rows` at `spot`.
pub open spec fn find_row(rows: Seq<ShownV>, spot: Spot) -> Option<ShownV>
    decreases rows.len(),
{
    if rows.len() == 0 {
        None
    } else if rows[0].spot == spot {
        Some(rows[0])
    } else {
        find_row(rows.skip(1), spot)
    }
}

proof fn lemma_not_found(rows: Seq<ShownV>, spot: Spot)
    requires
        forall|i: int| 0 <= i < rows.len() ==> (#[trigger] rows[i]).spot != spot,
    ensures
        find_row(rows, spot) is None,
    decreases rows.len(),
{
    if rows.len() > 0 {
        assert(rows[0].spot != spot);
        assert forall|i: int| 0 <= i < rows.skip(1).len() implies (#[trigger] rows.skip(1)[i]).spot
            != spot by {
            assert(rows.skip(1)[i] == rows[i + 1]);
        }
        lemma_not_found(rows.skip(1), spot);
    }
}

proof fn lemma_not_in_rest(rest: Seq<ShownV>, spot: Spot, rows: Seq<ShownV>)
    requires
        rows.len() > 0,
        rest == rows.skip(1),
        rows[0].spot == spot,
        distinct(rows),
    ensures
        find_row(rest, spot) is None,
{
    assert forall|i: int| 0 <= i < rest.len() implies (#[trigger] rest[i]).spot != spot by {
        assert(rest[i] == rows[i + 1]);
        assert(rows[0].spot != rows[i + 1].spot);
    }
    lemma_not_found(rest, spot);
}

/// The tracker never holds two entries of one row.
pub proof fn law_tracker_is_tidy(
    before: Seq<SeenV>,
    after: Seq<SeenV>,
    rows: Seq<ShownV>,
    now: u64,
    faded: u64,
)
    requires
        tidy(after),
    ensures
        tidy(updated(before, after, rows, now, faded)),
    decreases rows.len(),
{
    if rows.len() > 0 {
        let r = rows[0];
        let at = flash_from(recalled(before, r.spot), r.sig, now, faded);
        let e = SeenV { spot: r.spot, sig: r.sig, at };
        lemma_seat_is_found(after, r.spot);
        let n = noted(after, e);
        assert forall|i: int, j: int| 0 <= i < j < n.len() implies (#[trigger] n[i]).spot != (
        #[trigger] n[j]).spot by {
            if i < after.len() && j < after.len() {
                assert(after[i].spot != after[j].spot);
            } else {
                assert(after[i].spot != r.spot);
            }
        }
        law_tracker_is_tidy(forgotten(before, r.spot), n, rows.skip(1), now, faded);
    }
}

/// A row that is shown flashes from now exactly when its signature changed; a
/// brand-new row does not flash, an unchanged one keeps fading, and a row that
/// is no longer shown is forgotten.
pub proof fn law_flash(before: Seq<SeenV>, rows: Seq<ShownV>, now: u64, faded: u64, spot: Spot)
    requires
        tidy(before),
        distinct(rows),
    ensures
        recalled(updated(before, Seq::empty(), rows, now, faded), spot) == match find_row(
            rows,
            spot,
        ) {
            Some(r) => Some(
                SeenV {
                    spot,
                    sig: r.sig,
                    at: match recalled(before, spot) {
                        Some(e) => if e.sig == r.sig {
                            e.at
                        } else {
                            now
                        },
                        None => faded,
                    },
                },
            ),
            None => None,
        },
{
    lemma_updated(before, Seq::empty(), rows, now, faded, spot);
}

} // verus!

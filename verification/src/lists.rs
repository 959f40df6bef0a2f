//! Lists of texts: their lines, putting them together, and sorting them.

use crate::text;
use vstd::prelude::*;

verus! {

// ---------------------------------------------------------------------------
// Lines
// ---------------------------------------------------------------------------

/// The texts of `s` trimmed, without those that are blank.
pub open spec fn trimmed_all(s: Seq<Seq<char>>) -> Seq<Seq<char>>
    decreases s.len(),
{
    if s.len() == 0 {
        Seq::empty()
    } else {
        let head = trimmed_all(s.drop_last());
        let t = text::trim(s.last());
        if t.len() == 0 {
            head
        } else {
            head.push(t)
        }
    }
}

/// The lines of `s`, trimmed, without blank ones.
pub open spec fn lines(s: Seq<char>) -> Seq<Seq<char>> {
    trimmed_all(text::split(s, '\n'))
}

/// The lines of `s`, trimmed, without blank ones.
pub fn trimmed_lines(s: &str) -> (r: Vec<String>)
    ensures
        text::texts(r@) == lines(s@),
{
    let parts = text::split_chars(&text::chars_of(s), '\n');
    let ghost all = text::pieces(parts@);
    let mut out: Vec<String> = Vec::new();
    let mut i: usize = 0;
    proof {
        assert(all.take(0) =~= Seq::<Seq<char>>::empty());
        assert(text::texts(out@) =~= Seq::<Seq<char>>::empty());
    }
    while i < parts.len()
        invariant
            i <= parts@.len(),
            all == text::pieces(parts@),
            text::texts(out@) == trimmed_all(all.take(i as int)),
        decreases parts@.len() - i,
    {
        proof {
            let k = all.take(i as int + 1);
            assert(k.drop_last() =~= all.take(i as int));
            assert(k.last() == parts@[i as int]@);
        }
        let t = text::trim_chars(&parts[i]);
        if t.len() > 0 {
            let line = text::string_of(&t);
            text::push_text(&mut out, line.as_str());
        }
        i = i + 1;
    }
    proof {
        assert(all.take(i as int) =~= all);
    }
    out
}

// ---------------------------------------------------------------------------
// Putting together
// ---------------------------------------------------------------------------

/// The texts of `s` one behind the other, with `sep` between each two.
pub open spec fn joined(s: Seq<Seq<char>>, sep: Seq<char>) -> Seq<char>
    decreases s.len(),
{
    if s.len() == 0 {
        Seq::empty()
    } else if s.len() == 1 {
        s[0]
    } else {
        joined(s.drop_last(), sep) + sep + s.last()
    }
}

/// The texts of `v` one behind the other, with `sep` between each two.
pub fn join(v: &Vec<String>, sep: &str) -> (r: String)
    ensures
        r@ == joined(text::texts(v@), sep@),
{
    let ghost all = text::texts(v@);
    let mut out = String::new();
    let mut i: usize = 0;
    proof {
        assert(all.take(0) =~= Seq::<Seq<char>>::empty());
        assert(out@ =~= Seq::<char>::empty());
    }
    while i < v.len()
        invariant
            i <= v@.len(),
            all == text::texts(v@),
            out@ == joined(all.take(i as int), sep@),
        decreases v@.len() - i,
    {
        proof {
            let k = all.take(i as int + 1);
            assert(k.drop_last() =~= all.take(i as int));
            assert(k.last() == v@[i as int]@);
        }
        if i > 0 {
            out.append(sep);
            out.append(v[i].as_str());
        } else {
            out = v[i].clone();
        }
        i = i + 1;
    }
    proof {
        assert(all.take(i as int) =~= all);
    }
    out
}

/// `s` with spaces before it up to `width` characters.
pub open spec fn right_aligned(s: Seq<char>, width: nat) -> Seq<char> {
    if s.len() < width {
        Seq::new((width - s.len()) as nat, |i: int| ' ') + s
    } else {
        s
    }
}

/// `s` with spaces behind it up to `width` characters.
pub open spec fn left_aligned(s: Seq<char>, width: nat) -> Seq<char> {
    if s.len() < width {
        s + Seq::new((width - s.len()) as nat, |i: int| ' ')
    } else {
        s
    }
}

/// `n` spaces.
fn spaces(n: usize) -> (r: String)
    ensures
        r@ == Seq::new(n as nat, |i: int| ' '),
{
    let mut out = String::new();
    let mut i: usize = 0;
    while i < n
        invariant
            i <= n,
            out@ =~= Seq::new(i as nat, |k: int| ' '),
        decreases n - i,
    {
        out.push(' ');
        i = i + 1;
    }
    out
}

/// `s` with spaces before it up to `width` characters.
pub fn align_right(s: &str, width: usize) -> (r: String)
    ensures
        r@ == right_aligned(s@, width as nat),
{
    let n: usize = text::chars_of(s).len();
    if n < width {
        text::join2(spaces(width - n).as_str(), s)
    } else {
        s.to_owned()
    }
}

/// `s` with spaces behind it up to `width` characters.
pub fn align_left(s: &str, width: usize) -> (r: String)
    ensures
        r@ == left_aligned(s@, width as nat),
{
    let n: usize = text::chars_of(s).len();
    if n < width {
        text::join2(s, spaces(width - n).as_str())
    } else {
        s.to_owned()
    }
}

// ---------------------------------------------------------------------------
// Order
// ---------------------------------------------------------------------------

/// Whether `a` is `b` or stands before it in a dictionary of characters.
pub open spec fn not_behind(a: Seq<char>, b: Seq<char>) -> bool
    decreases a.len(),
{
    if a.len() == 0 {
        true
    } else if b.len() == 0 {
        false
    } else if a[0] == b[0] {
        not_behind(a.skip(1), b.skip(1))
    } else {
        a[0] < b[0]
    }
}

proof fn lemma_total(a: Seq<char>, b: Seq<char>)
    ensures
        not_behind(a, b) || not_behind(b, a),
    decreases a.len(),
{
    if a.len() > 0 && b.len() > 0 && a[0] == b[0] {
        lemma_total(a.skip(1), b.skip(1));
    }
}

proof fn lemma_transitive(a: Seq<char>, b: Seq<char>, c: Seq<char>)
    requires
        not_behind(a, b),
        not_behind(b, c),
    ensures
        not_behind(a, c),
    decreases a.len(),
{
    if a.len() > 0 && b.len() > 0 && c.len() > 0 && a[0] == b[0] && b[0] == c[0] {
        lemma_transitive(a.skip(1), b.skip(1), c.skip(1));
    }
}

/// Whether `a` is `b` or stands before it.
fn in_order(a: &Vec<char>, b: &Vec<char>) -> (r: bool)
    ensures
        r == not_behind(a@, b@),
{
    let mut i: usize = 0;
    proof {
        assert(a@.skip(0) =~= a@);
        assert(b@.skip(0) =~= b@);
    }
    while i < a.len() && i < b.len() && a[i] == b[i]
        invariant
            i <= a@.len(),
            i <= b@.len(),
            not_behind(a@.skip(i as int), b@.skip(i as int)) == not_behind(a@, b@),
        decreases a@.len() - i,
    {
        proof {
            assert(a@.skip(i as int).skip(1) =~= a@.skip(i as int + 1));
            assert(b@.skip(i as int).skip(1) =~= b@.skip(i as int + 1));
            assert(a@.skip(i as int)[0] == a@[i as int]);
            assert(b@.skip(i as int)[0] == b@[i as int]);
        }
        i = i + 1;
    }
    if i == a.len() {
        return true;
    }
    if i == b.len() {
        return false;
    }
    proof {
        assert(a@.skip(i as int)[0] == a@[i as int]);
        assert(b@.skip(i as int)[0] == b@[i as int]);
    }
    a[i] < b[i]
}

/// Whether no text stands before the one in front of it.
pub open spec fn ascends(s: Seq<Seq<char>>) -> bool {
    forall|i: int, j: int|
        0 <= i < j < s.len() ==> not_behind(#[trigger] s[i], #[trigger] s[j])
}

/// `t` put behind every text that it does not stand before.
pub open spec fn filed(s: Seq<Seq<char>>, t: Seq<char>) -> Seq<Seq<char>>
    decreases s.len(),
{
    if s.len() == 0 || not_behind(s.last(), t) {
        s.push(t)
    } else {
        filed(s.drop_last(), t).push(s.last())
    }
}

/// The texts of `s` in ascending order.
pub open spec fn sorted(s: Seq<Seq<char>>) -> Seq<Seq<char>>
    decreases s.len(),
{
    if s.len() == 0 {
        s
    } else {
        filed(sorted(s.drop_last()), s.last())
    }
}

proof fn lemma_filed(s: Seq<Seq<char>>, t: Seq<char>)
    requires
        ascends(s),
    ensures
        ascends(filed(s, t)),
        filed(s, t).to_multiset() =~= s.to_multiset().insert(t),
        filed(s, t).len() == s.len() + 1,
    decreases s.len(),
{
    broadcast use vstd::seq_lib::group_to_multiset_ensures;

    if s.len() == 0 || not_behind(s.last(), t) {
        let r = s.push(t);
        assert forall|i: int, j: int| 0 <= i < j < r.len() implies not_behind(
            #[trigger] r[i],
            #[trigger] r[j],
        ) by {
            if j == s.len() {
                if i < s.len() - 1 {
                    assert(not_behind(s[i], s[s.len() - 1]));
                    lemma_transitive(s[i], s.last(), t);
                }
            } else {
                assert(not_behind(s[i], s[j]));
            }
        }
    } else {
        let head = s.drop_last();
        assert forall|i: int, j: int| 0 <= i < j < head.len() implies not_behind(
            #[trigger] head[i],
            #[trigger] head[j],
        ) by {
            assert(not_behind(s[i], s[j]));
        }
        lemma_filed(head, t);
        lemma_total(s.last(), t);
        let f = filed(head, t);
        let r = f.push(s.last());
        assert forall|i: int, j: int| 0 <= i < j < r.len() implies not_behind(
            #[trigger] r[i],
            #[trigger] r[j],
        ) by {
            if j < f.len() {
                assert(not_behind(f[i], f[j]));
            } else {
                assert(f.to_multiset().count(f[i]) > 0) by {
                    assert(f.contains(f[i]));
                }
                if f[i] != t {
                    assert(head.to_multiset().count(f[i]) > 0);
                    assert(head.contains(f[i]));
                    let k = choose|k: int| 0 <= k < head.len() && head[k] == f[i];
                    assert(s[k] == f[i]);
                    assert(not_behind(s[k], s[s.len() - 1]));
                }
            }
        }
        assert(s =~= head.push(s.last()));
        assert(s.to_multiset() =~= head.to_multiset().insert(s.last()));
        assert(r.to_multiset() =~= f.to_multiset().insert(s.last()));
    }
}

/// Sorting brings every text into its place, and neither adds nor loses one.
pub proof fn law_sorted(s: Seq<Seq<char>>)
    ensures
        ascends(sorted(s)),
        sorted(s).to_multiset() =~= s.to_multiset(),
    decreases s.len(),
{
    broadcast use vstd::seq_lib::group_to_multiset_ensures;

    if s.len() > 0 {
        law_sorted(s.drop_last());
        lemma_filed(sorted(s.drop_last()), s.last());
        assert(s =~= s.drop_last().push(s.last()));
        assert(s.to_multiset() =~= s.drop_last().to_multiset().insert(s.last()));
    }
}

proof fn lemma_filed_at(s: Seq<Seq<char>>, t: Seq<char>, n: int)
    requires
        0 <= n <= s.len(),
        n > 0 ==> not_behind(s[n - 1], t),
        forall|k: int| n <= k < s.len() ==> !not_behind(#[trigger] s[k], t),
    ensures
        filed(s, t) == s.insert(n, t),
    decreases s.len(),
{
    if n == s.len() {
        assert(filed(s, t) =~= s.insert(n, t));
    } else {
        assert(!not_behind(s[s.len() - 1], t));
        let head = s.drop_last();
        assert forall|k: int| n <= k < head.len() implies !not_behind(#[trigger] head[k], t) by {
            assert(!not_behind(s[k], t));
        }
        lemma_filed_at(head, t, n);
        assert(filed(s, t) =~= s.insert(n, t));
    }
}

/// The texts of `v` in ascending order.
pub fn sort(v: &Vec<String>) -> (r: Vec<String>)
    ensures
        text::texts(r@) == sorted(text::texts(v@)),
{
    let ghost all = text::texts(v@);
    let mut out: Vec<String> = Vec::new();
    let mut i: usize = 0;
    proof {
        assert(all.take(0) =~= Seq::<Seq<char>>::empty());
        assert(text::texts(out@) =~= Seq::<Seq<char>>::empty());
    }
    while i < v.len()
        invariant
            i <= v@.len(),
            all == text::texts(v@),
            text::texts(out@) == sorted(all.take(i as int)),
        decreases v@.len() - i,
    {
        let ghost before = text::texts(out@);
        let t = text::chars_of(v[i].as_str());
        let mut n: usize = out.len();
        while n > 0 && !in_order(&text::chars_of(out[n - 1].as_str()), &t)
            invariant
                n <= out@.len(),
                before == text::texts(out@),
                forall|k: int| n <= k < before.len() ==> !not_behind(#[trigger] before[k], t@),
            decreases n,
        {
            n = n - 1;
        }
        proof {
            let k = all.take(i as int + 1);
            assert(k.drop_last() =~= all.take(i as int));
            assert(k.last() == v@[i as int]@);
            lemma_filed_at(before, t@, n as int);
        }
        out.insert(n, v[i].clone());
        proof {
            assert(text::texts(out@) =~= before.insert(n as int, t@));
        }
        i = i + 1;
    }
    proof {
        assert(all.take(i as int) =~= all);
    }
    out
}

/// A copy of a list of texts.
pub fn dup(v: &Vec<String>) -> (r: Vec<String>)
    ensures
        text::texts(r@) == text::texts(v@),
{
    let mut out: Vec<String> = Vec::new();
    let mut i: usize = 0;
    while i < v.len()
        invariant
            i <= v@.len(),
            text::texts(out@) =~= text::texts(v@).take(i as int),
        decreases v@.len() - i,
    {
        text::push_text(&mut out, v[i].as_str());
        i = i + 1;
    }
    proof {
        assert(text::texts(v@).take(i as int) =~= text::texts(v@));
    }
    out
}

/// One text comes before another exactly when it is where the other goes on, or
/// the first character in which they differ is the smaller one in it.
pub proof fn law_texts_go_by_characters(
    head: Seq<char>,
    a: char,
    b: char,
    s: Seq<char>,
    t: Seq<char>,
)
    ensures
        not_behind(head, head + s),
        s.len() > 0 ==> !not_behind(head + s, head),
        a < b ==> not_behind(head + seq![a] + s, head + seq![b] + t),
        a < b ==> !not_behind(head + seq![b] + t, head + seq![a] + s),
    decreases head.len(),
{
    if head.len() == 0 {
        assert(head + s =~= s);
        assert((head + seq![a] + s)[0] == a);
        assert((head + seq![b] + t)[0] == b);
    } else {
        let rest = head.skip(1);
        law_texts_go_by_characters(rest, a, b, s, t);
        assert((head + s).skip(1) =~= rest + s);
        assert((head + seq![a] + s).skip(1) =~= rest + seq![a] + s);
        assert((head + seq![b] + t).skip(1) =~= rest + seq![b] + t);
        assert((head + s)[0] == head[0]);
        assert((head + seq![a] + s)[0] == head[0]);
        assert((head + seq![b] + t)[0] == head[0]);
    }
}

/// The lines of a text are trimmed and none of them is blank; a line that is not
/// blank is among them, trimmed.
pub proof fn law_lines_are_trimmed(pieces: Seq<Seq<char>>, k: int)
    ensures
        forall|i: int|
            0 <= i < trimmed_all(pieces).len() ==> (#[trigger] trimmed_all(pieces)[i]).len() > 0,
        0 <= k < pieces.len() && text::trim(pieces[k]).len() > 0 ==> trimmed_all(pieces).contains(
            text::trim(pieces[k]),
        ),
        trimmed_all(pieces).len() <= pieces.len(),
    decreases pieces.len(),
{
    if pieces.len() > 0 {
        let head = pieces.drop_last();
        law_lines_are_trimmed(head, k);
        let a = trimmed_all(head);
        let b = trimmed_all(pieces);
        if 0 <= k < pieces.len() && text::trim(pieces[k]).len() > 0 {
            if k < head.len() {
                assert(head[k] == pieces[k]);
                let m = choose|m: int| 0 <= m < a.len() && a[m] == text::trim(pieces[k]);
                assert(b[m] == a[m]);
            } else {
                assert(b[a.len() as int] == text::trim(pieces[k]));
            }
        }
    }
}

/// Texts are joined one after the other with the separator between each two.
pub proof fn law_joining_puts_separators_between(s: Seq<Seq<char>>, t: Seq<char>, sep: Seq<char>)
    ensures
        joined(seq![t], sep) == t,
        s.len() > 0 ==> joined(s.push(t), sep) == joined(s, sep) + sep + t,
{
    assert(s.push(t).drop_last() =~= s);
}

/// A text is filled up with spaces to the width asked for, on the side away from
/// which it is aligned; a longer one is left as it is.
pub proof fn law_alignment_fills_up(s: Seq<char>, width: nat, k: int)
    ensures
        s.len() >= width ==> right_aligned(s, width) == s && left_aligned(s, width) == s,
        s.len() < width ==> {
            &&& right_aligned(s, width).len() == width
            &&& left_aligned(s, width).len() == width
            &&& right_aligned(s, width).skip(width - s.len()) == s
            &&& left_aligned(s, width).take(s.len() as int) == s
            &&& 0 <= k < width - s.len() ==> right_aligned(s, width)[k] == ' '
            &&& s.len() <= k < width ==> left_aligned(s, width)[k] == ' '
        },
{
    if s.len() < width {
        assert(right_aligned(s, width).skip(width - s.len()) =~= s);
        assert(left_aligned(s, width).take(s.len() as int) =~= s);
    }
}

} // verus!

//! Text routines over character sequences: trimming, searching, splitting,
//! number parsing and number formatting.
use vstd::prelude::*;

verus! {

/// `String::push` appends one character and changes nothing else.
pub assume_specification[ String::push ](s: &mut String, c: char)
    ensures
        final(s)@ == old(s)@.push(c),
;

// ---------------------------------------------------------------------------
// Conversions
// ---------------------------------------------------------------------------

/// The characters of `s`.
pub fn chars_of(s: &str) -> (r: Vec<char>)
    ensures
        r@ == s@,
{
    let mut v: Vec<char> = Vec::new();
    for c in it: s.chars()
        invariant
            v@ =~= it.seq().take(it.index() as int),
            it.seq() == s@,
    {
        v.push(c);
    }
    v
}

/// The string made of the characters `v`.
pub fn string_of(v: &Vec<char>) -> (r: String)
    ensures
        r@ == v@,
{
    let mut s = String::new();
    let mut i: usize = 0;
    while i < v.len()
        invariant
            i <= v.len(),
            s@ =~= v@.take(i as int),
        decreases v.len() - i,
    {
        s.push(v[i]);
        i = i + 1;
    }
    s
}

/// Whether two texts hold the same characters.
pub fn str_eq(a: &str, b: &str) -> (r: bool)
    ensures
        r == (a@ == b@),
{
    a.to_owned() == b.to_owned()
}

// ---------------------------------------------------------------------------
// White space
// ---------------------------------------------------------------------------

/// Whether `c` has the Unicode `White_Space` property.
pub open spec fn is_white(c: char) -> bool {
    let n = c as u32;
    ||| 0x09 <= n <= 0x0D
    ||| n == 0x20
    ||| n == 0x85
    ||| n == 0xA0
    ||| n == 0x1680
    ||| 0x2000 <= n <= 0x200A
    ||| n == 0x2028
    ||| n == 0x2029
    ||| n == 0x202F
    ||| n == 0x205F
    ||| n == 0x3000
}

/// Whether `c` is white space.
pub fn char_is_white(c: char) -> (r: bool)
    ensures
        r == is_white(c),
{
    let n: u32 = c as u32;
    (0x09 <= n && n <= 0x0D) || n == 0x20 || n == 0x85 || n == 0xA0 || n == 0x1680 || (0x2000 <= n
        && n <= 0x200A) || n == 0x2028 || n == 0x2029 || n == 0x202F || n == 0x205F || n == 0x3000
}

/// `s` without its leading white space.
pub open spec fn trim_start(s: Seq<char>) -> Seq<char>
    decreases s.len(),
{
    if s.len() > 0 && is_white(s[0]) {
        trim_start(s.skip(1))
    } else {
        s
    }
}

/// `s` without its trailing white space.
pub open spec fn trim_end(s: Seq<char>) -> Seq<char>
    decreases s.len(),
{
    if s.len() > 0 && is_white(s.last()) {
        trim_end(s.drop_last())
    } else {
        s
    }
}

/// `s` without white space at either end.
pub open spec fn trim(s: Seq<char>) -> Seq<char> {
    trim_end(trim_start(s))
}

/// Whether `s` is white space throughout.
pub open spec fn all_white(s: Seq<char>) -> bool {
    forall|i: int| 0 <= i < s.len() ==> is_white(#[trigger] s[i])
}

/// White space before a text is trimmed off it.
pub proof fn lemma_trim_start_padded(before: Seq<char>, s: Seq<char>)
    requires
        all_white(before),
    ensures
        trim_start(before + s) == trim_start(s),
    decreases before.len(),
{
    let all = before + s;
    if before.len() == 0 {
        assert(all =~= s);
    } else {
        assert(all[0] == before[0]);
        assert(all.skip(1) =~= before.skip(1) + s);
        lemma_trim_start_padded(before.skip(1), s);
    }
}

/// White space behind a text is trimmed off it.
pub proof fn lemma_trim_end_padded(s: Seq<char>, after: Seq<char>)
    requires
        all_white(after),
    ensures
        trim_end(s + after) == trim_end(s),
    decreases after.len(),
{
    let all = s + after;
    if after.len() == 0 {
        assert(all =~= s);
    } else {
        assert(all.last() == after[after.len() - 1]);
        assert(all.drop_last() =~= s + after.drop_last());
        lemma_trim_end_padded(s, after.drop_last());
    }
}

/// Trimming takes the white space around a text, and nothing of a text that
/// begins and ends with none.
pub proof fn lemma_trim_padded(before: Seq<char>, s: Seq<char>, after: Seq<char>)
    requires
        all_white(before),
        all_white(after),
        s.len() == 0 || (!is_white(s[0]) && !is_white(s.last())),
    ensures
        trim(before + s + after) == s,
{
    assert(before + s + after =~= before + (s + after));
    lemma_trim_start_padded(before, s + after);
    if s.len() == 0 {
        assert(s + after =~= after + Seq::<char>::empty());
        lemma_trim_start_padded(after, Seq::empty());
    } else {
        assert((s + after)[0] == s[0]);
        lemma_trim_end_padded(s, after);
    }
}

/// What is left of a text at its end is the text up to white space.
proof fn lemma_trim_end(s: Seq<char>)
    ensures
        trim_end(s).len() <= s.len(),
        trim_end(s) == s.take(trim_end(s).len() as int),
        trim_end(s).len() == 0 || !is_white(trim_end(s).last()),
    decreases s.len(),
{
    if s.len() > 0 && is_white(s.last()) {
        lemma_trim_end(s.drop_last());
        let n = trim_end(s).len() as int;
        assert(s.drop_last().take(n) =~= s.take(n));
    } else {
        assert(s.take(s.len() as int) =~= s);
    }
}

/// A trimmed text begins and ends with no white space.
pub proof fn lemma_trim_ends(s: Seq<char>)
    ensures
        trim(s).len() == 0 || (!is_white(trim(s)[0]) && !is_white(trim(s).last())),
    decreases s.len(),
{
    if s.len() > 0 && is_white(s[0]) {
        lemma_trim_ends(s.skip(1));
    } else {
        lemma_trim_end(s);
    }
}

/// The part `lo..hi` of `v`.
pub fn part(v: &Vec<char>, lo: usize, hi: usize) -> (r: Vec<char>)
    requires
        lo <= hi <= v@.len(),
    ensures
        r@ == v@.subrange(lo as int, hi as int),
{
    let mut out: Vec<char> = Vec::new();
    let mut i: usize = lo;
    while i < hi
        invariant
            lo <= i <= hi <= v@.len(),
            out@ =~= v@.subrange(lo as int, i as int),
        decreases hi - i,
    {
        out.push(v[i]);
        i = i + 1;
    }
    out
}

/// [`trim`] of `v`.
pub fn trim_chars(v: &Vec<char>) -> (r: Vec<char>)
    ensures
        r@ == trim(v@),
{
    let mut lo: usize = 0;
    proof {
        assert(v@.skip(0) =~= v@);
    }
    while lo < v.len() && char_is_white(v[lo])
        invariant
            lo <= v@.len(),
            trim_start(v@) == trim_start(v@.skip(lo as int)),
        decreases v@.len() - lo,
    {
        proof {
            assert(v@.skip(lo as int).skip(1) =~= v@.skip(lo + 1));
        }
        lo = lo + 1;
    }
    let mut hi: usize = v.len();
    proof {
        assert(v@.skip(lo as int) =~= v@.subrange(lo as int, hi as int));
        assert(trim_start(v@) == v@.subrange(lo as int, hi as int));
    }
    while lo < hi && char_is_white(v[hi - 1])
        invariant
            lo <= hi <= v@.len(),
            trim_end(trim_start(v@)) == trim_end(v@.subrange(lo as int, hi as int)),
        decreases hi,
    {
        proof {
            assert(v@.subrange(lo as int, hi as int).drop_last() =~= v@.subrange(
                lo as int,
                hi - 1,
            ));
        }
        hi = hi - 1;
    }
    part(v, lo, hi)
}

/// `s` without white space at either end.
pub fn trimmed(s: &str) -> (r: String)
    ensures
        r@ == trim(s@),
{
    string_of(&trim_chars(&chars_of(s)))
}

/// Whether `s` holds nothing but white space.
pub fn is_blank(s: &str) -> (r: bool)
    ensures
        r == (trim(s@).len() == 0),
{
    trim_chars(&chars_of(s)).len() == 0
}

// ---------------------------------------------------------------------------
// Prefixes, suffixes, searching, splitting
// ---------------------------------------------------------------------------

/// Whether `s` begins with `p`.
pub open spec fn begins_with(s: Seq<char>, p: Seq<char>) -> bool {
    p.len() <= s.len() && s.take(p.len() as int) == p
}

/// Whether `s` ends with `p`.
pub open spec fn finishes_with(s: Seq<char>, p: Seq<char>) -> bool {
    p.len() <= s.len() && s.skip(s.len() - p.len()) == p
}

/// Whether `needle` occurs in `hay`.
pub open spec fn occurs(hay: Seq<char>, needle: Seq<char>) -> bool {
    exists|i: int| #[trigger] occurs_at(hay, needle, i)
}

/// Whether `needle` occurs in `hay` at position `i`.
pub open spec fn occurs_at(hay: Seq<char>, needle: Seq<char>, i: int) -> bool {
    0 <= i && i + needle.len() <= hay.len() && hay.subrange(i, i + needle.len()) == needle
}

/// Whether `needle` stands in `hay` at position `at`.
pub fn match_at(hay: &Vec<char>, needle: &Vec<char>, at: usize) -> (r: bool)
    ensures
        r == occurs_at(hay@, needle@, at as int),
{
    if at > hay.len() || needle.len() > hay.len() - at {
        return false;
    }
    let mut k: usize = 0;
    while k < needle.len()
        invariant
            at <= hay@.len(),
            at + needle.len() <= hay.len(),
            k <= needle@.len(),
            forall|j: int| 0 <= j < k ==> hay@[at + j] == needle@[j],
        decreases needle@.len() - k,
    {
        if hay[at + k] != needle[k] {
            proof {
                assert(hay@.subrange(at as int, at + needle@.len())[k as int] != needle@[k as int]);
            }
            return false;
        }
        k = k + 1;
    }
    proof {
        assert(hay@.subrange(at as int, at + needle@.len()) =~= needle@);
    }
    true
}

/// Whether `s` begins with `p`.
pub fn starts_with(s: &Vec<char>, p: &Vec<char>) -> (r: bool)
    ensures
        r == begins_with(s@, p@),
{
    let r = match_at(s, p, 0);
    proof {
        if p@.len() <= s@.len() {
            assert(s@.take(p@.len() as int) =~= s@.subrange(0, p@.len() as int));
        }
    }
    r
}

/// Whether `s` ends with `p`.
pub fn ends_with(s: &Vec<char>, p: &Vec<char>) -> (r: bool)
    ensures
        r == finishes_with(s@, p@),
{
    if p.len() > s.len() {
        return false;
    }
    let at: usize = s.len() - p.len();
    proof {
        assert(s@.skip(at as int) =~= s@.subrange(at as int, at + p@.len()));
    }
    match_at(s, p, at)
}

/// Whether `needle` occurs in `hay`.
pub fn contains(hay: &Vec<char>, needle: &Vec<char>) -> (r: bool)
    ensures
        r == occurs(hay@, needle@),
{
    let mut i: usize = 0;
    while i <= hay.len()
        invariant
            i <= hay@.len() + 1,
            forall|j: int| 0 <= j < i ==> !#[trigger] occurs_at(hay@, needle@, j),
        decreases hay@.len() + 1 - i,
    {
        if match_at(hay, needle, i) {
            return true;
        }
        if i == hay.len() {
            return false;
        }
        i = i + 1;
    }
    false
}

/// The position of the first `c` in `s`, or the length of `s`.
pub open spec fn first_of(s: Seq<char>, c: char) -> int
    decreases s.len(),
{
    if s.len() == 0 || s[0] == c {
        0
    } else {
        1 + first_of(s.skip(1), c)
    }
}

/// `first_of` lies within the text, at a `c`, with no `c` before it.
pub proof fn lemma_first_of(s: Seq<char>, c: char)
    ensures
        0 <= first_of(s, c) <= s.len(),
        first_of(s, c) < s.len() ==> s[first_of(s, c)] == c,
        forall|k: int| 0 <= k < first_of(s, c) ==> s[k] != c,
    decreases s.len(),
{
    if s.len() > 0 && s[0] != c {
        lemma_first_of(s.skip(1), c);
        assert forall|k: int| 0 <= k < first_of(s, c) implies s[k] != c by {
            if k > 0 {
                assert(s.skip(1)[k - 1] == s[k]);
            }
        }
    }
}

/// `first_of` is the only position with that property.
pub proof fn lemma_first_of_unique(s: Seq<char>, c: char, i: int)
    requires
        0 <= i <= s.len(),
        i < s.len() ==> s[i] == c,
        forall|k: int| 0 <= k < i ==> s[k] != c,
    ensures
        first_of(s, c) == i,
{
    lemma_first_of(s, c);
    let f = first_of(s, c);
    if f < i {
        assert(s[f] != c);
    } else if i < f {
        assert(s[i] != c);
    }
}

/// [`first_of`] of `v`.
pub fn find_char(v: &Vec<char>, c: char) -> (r: usize)
    ensures
        r as int == first_of(v@, c),
        r <= v@.len(),
{
    let mut i: usize = 0;
    while i < v.len() && v[i] != c
        invariant
            i <= v@.len(),
            forall|k: int| 0 <= k < i ==> v@[k] != c,
        decreases v@.len() - i,
    {
        i = i + 1;
    }
    proof {
        lemma_first_of_unique(v@, c, i as int);
    }
    i
}

/// The pieces of `s` between the occurrences of `c`: one more than there are
/// occurrences.
pub open spec fn split(s: Seq<char>, c: char) -> Seq<Seq<char>>
    decreases s.len(),
{
    let i = first_of(s, c);
    if 0 <= i < s.len() {
        seq![s.take(i)] + split(s.skip(i + 1), c)
    } else {
        seq![s]
    }
}

/// The texts that a list of texts holds.
pub open spec fn pieces(v: Seq<Vec<char>>) -> Seq<Seq<char>> {
    Seq::new(v.len(), |i: int| v[i]@)
}

/// [`split`] of `v`.
pub fn split_chars(v: &Vec<char>, c: char) -> (r: Vec<Vec<char>>)
    ensures
        pieces(r@) == split(v@, c),
{
    let mut out: Vec<Vec<char>> = Vec::new();
    let mut rest: Vec<char> = part(v, 0, v.len());
    proof {
        assert(rest@ =~= v@);
        assert(pieces(out@) + split(rest@, c) =~= split(v@, c));
    }
    loop
        invariant_except_break
            pieces(out@) + split(rest@, c) == split(v@, c),
        ensures
            pieces(out@) == split(v@, c),
        decreases rest@.len(),
    {
        let i: usize = find_char(&rest, c);
        let ghost before = pieces(out@);
        let ghost whole = rest@;
        if i == rest.len() {
            out.push(rest);
            proof {
                assert(pieces(out@) =~= before + seq![whole]);
            }
            break;
        }
        let head = part(&rest, 0, i);
        let tail = part(&rest, i + 1, rest.len());
        out.push(head);
        rest = tail;
        proof {
            assert(head@ =~= whole.take(i as int));
            assert(tail@ =~= whole.skip(i + 1));
            assert(pieces(out@) =~= before.push(whole.take(i as int)));
            assert(pieces(out@) + split(rest@, c) =~= before + (seq![whole.take(i as int)] + split(
                whole.skip(i + 1),
                c,
            )));
        }
    }
    out
}

/// The text after the last `c`, all of it when there is none.
pub open spec fn after_last(s: Seq<char>, c: char) -> Seq<char>
    decreases s.len(),
{
    if s.len() == 0 || s.last() == c {
        Seq::empty()
    } else {
        after_last(s.drop_last(), c).push(s.last())
    }
}

/// [`after_last`] of `v`.
pub fn tail_after(v: &Vec<char>, c: char) -> (r: Vec<char>)
    ensures
        r@ == after_last(v@, c),
{
    let mut i: usize = v.len();
    while i > 0 && v[i - 1] != c
        invariant
            i <= v@.len(),
            forall|k: int| i <= k < v@.len() ==> v@[k] != c,
        decreases i,
    {
        i = i - 1;
    }
    proof {
        lemma_after_last(v@, c, i as int);
    }
    part(v, i, v.len())
}

proof fn lemma_after_last(s: Seq<char>, c: char, i: int)
    requires
        0 <= i <= s.len(),
        i > 0 ==> s[i - 1] == c,
        forall|k: int| i <= k < s.len() ==> s[k] != c,
    ensures
        after_last(s, c) == s.subrange(i, s.len() as int),
    decreases s.len(),
{
    if i == s.len() {
        assert(s.subrange(i, s.len() as int) =~= Seq::<char>::empty());
    } else {
        let t = s.drop_last();
        assert forall|k: int| i <= k < t.len() implies t[k] != c by {
            assert(t[k] == s[k]);
        }
        if i > 0 {
            assert(t[i - 1] == s[i - 1]);
        }
        lemma_after_last(t, c, i);
        assert(s.last() != c);
        assert(t.subrange(i, t.len() as int).push(s.last()) =~= s.subrange(i, s.len() as int));
    }
}

/// What a list of texts says.
pub open spec fn texts(v: Seq<String>) -> Seq<Seq<char>> {
    Seq::new(v.len(), |i: int| v[i]@)
}

/// Append `s` to a list of texts.
pub fn push_text(v: &mut Vec<String>, s: &str)
    ensures
        texts(final(v)@) == texts(old(v)@).push(s@),
{
    let ghost before = texts(v@);
    v.push(s.to_owned());
    proof {
        assert(texts(v@) =~= before.push(s@));
    }
}

/// Three texts, one after the other.
pub fn join3(a: &str, b: &str, c: &str) -> (r: String)
    ensures
        r@ == a@ + b@ + c@,
{
    let mut s = a.to_owned();
    s.append(b);
    s.append(c);
    s
}

/// Two texts, one after the other.
pub fn join2(a: &str, b: &str) -> (r: String)
    ensures
        r@ == a@ + b@,
{
    let mut s = a.to_owned();
    s.append(b);
    s
}

/// What an optional text says.
pub open spec fn opt_view(s: Option<String>) -> Option<Seq<char>> {
    match s {
        Some(t) => Some(t@),
        None => None,
    }
}

// ---------------------------------------------------------------------------
// Letter case
// ---------------------------------------------------------------------------

/// `c` with an ASCII capital made small.
pub open spec fn ascii_lower(c: char) -> char {
    if 'A' <= c && c <= 'Z' {
        ((c as u32) + 32) as char
    } else {
        c
    }
}

/// `s` with every ASCII capital made small.
pub open spec fn ascii_lower_seq(s: Seq<char>) -> Seq<char> {
    Seq::new(s.len(), |i: int| ascii_lower(s[i]))
}

/// `c` with a small ASCII letter made capital.
pub open spec fn ascii_upper(c: char) -> char {
    if 'a' <= c && c <= 'z' {
        ((c as u32) - 32) as char
    } else {
        c
    }
}

/// `s` with every small ASCII letter made capital.
pub open spec fn ascii_upper_seq(s: Seq<char>) -> Seq<char> {
    Seq::new(s.len(), |i: int| ascii_upper(s[i]))
}

/// Capitals are trimmed as small letters are.
pub proof fn lemma_trim_start_upper(s: Seq<char>)
    ensures
        trim_start(ascii_upper_seq(s)) == ascii_upper_seq(trim_start(s)),
    decreases s.len(),
{
    let u = ascii_upper_seq(s);
    if s.len() > 0 {
        assert(is_white(u[0]) == is_white(s[0]));
        if is_white(s[0]) {
            assert(u.skip(1) =~= ascii_upper_seq(s.skip(1)));
            lemma_trim_start_upper(s.skip(1));
        }
    }
}

/// Capitals are trimmed as small letters are.
pub proof fn lemma_trim_end_upper(s: Seq<char>)
    ensures
        trim_end(ascii_upper_seq(s)) == ascii_upper_seq(trim_end(s)),
    decreases s.len(),
{
    let u = ascii_upper_seq(s);
    if s.len() > 0 {
        assert(is_white(u.last()) == is_white(s.last()));
        if is_white(s.last()) {
            assert(u.drop_last() =~= ascii_upper_seq(s.drop_last()));
            lemma_trim_end_upper(s.drop_last());
        }
    }
}

/// Small letters are trimmed as capitals are.
pub proof fn lemma_trim_start_lower(s: Seq<char>)
    ensures
        trim_start(ascii_lower_seq(s)) == ascii_lower_seq(trim_start(s)),
    decreases s.len(),
{
    let u = ascii_lower_seq(s);
    if s.len() > 0 {
        assert(is_white(u[0]) == is_white(s[0]));
        if is_white(s[0]) {
            assert(u.skip(1) =~= ascii_lower_seq(s.skip(1)));
            lemma_trim_start_lower(s.skip(1));
        }
    }
}

/// Small letters are trimmed as capitals are.
pub proof fn lemma_trim_end_lower(s: Seq<char>)
    ensures
        trim_end(ascii_lower_seq(s)) == ascii_lower_seq(trim_end(s)),
    decreases s.len(),
{
    let u = ascii_lower_seq(s);
    if s.len() > 0 {
        assert(is_white(u.last()) == is_white(s.last()));
        if is_white(s.last()) {
            assert(u.drop_last() =~= ascii_lower_seq(s.drop_last()));
            lemma_trim_end_lower(s.drop_last());
        }
    }
}

/// [`ascii_lower`] of one character.
pub fn lower_char(c: char) -> (r: char)
    ensures
        r == ascii_lower(c),
{
    if 'A' <= c && c <= 'Z' {
        ((c as u8) + 32) as char
    } else {
        c
    }
}

/// `v` with every ASCII capital made small.
pub fn lower_chars(v: &Vec<char>) -> (r: Vec<char>)
    ensures
        r@ == ascii_lower_seq(v@),
{
    let mut out: Vec<char> = Vec::new();
    let mut i: usize = 0;
    while i < v.len()
        invariant
            i <= v@.len(),
            out@ =~= ascii_lower_seq(v@).take(i as int),
        decreases v@.len() - i,
    {
        out.push(lower_char(v[i]));
        i = i + 1;
    }
    out
}

// ---------------------------------------------------------------------------
// Numbers
// ---------------------------------------------------------------------------

/// The value of `c` as a digit, whatever the radix: `0`-`9`, then the letters
/// of either case from ten on. Anything else has no value.
pub open spec fn digit(c: char) -> Option<nat> {
    if '0' <= c && c <= '9' {
        Some((c as u32 - 0x30) as nat)
    } else if 'a' <= c && c <= 'z' {
        Some((c as u32 - 0x61 + 10) as nat)
    } else if 'A' <= c && c <= 'Z' {
        Some((c as u32 - 0x41 + 10) as nat)
    } else {
        None
    }
}

/// Whether `c` is a digit of `radix`.
pub open spec fn is_digit(c: char, radix: nat) -> bool {
    digit(c) is Some && digit(c)->0 < radix
}

/// Whether `s` holds only digits of `radix`.
pub open spec fn all_digits(s: Seq<char>, radix: nat) -> bool {
    forall|i: int| 0 <= i < s.len() ==> is_digit(#[trigger] s[i], radix)
}

/// The number that the digits `s` write in `radix`.
pub open spec fn digits_value(s: Seq<char>, radix: nat) -> nat
    decreases s.len(),
{
    if s.len() == 0 {
        0
    } else {
        digits_value(s.drop_last(), radix) * radix + digit(s.last())->0
    }
}

/// The number written by `s`: an optional `+`, then at least one digit of
/// `radix` and nothing else.
pub open spec fn unsigned_number(s: Seq<char>, radix: nat) -> Option<nat> {
    let t = if s.len() > 0 && s[0] == '+' {
        s.skip(1)
    } else {
        s
    };
    if t.len() > 0 && all_digits(t, radix) {
        Some(digits_value(t, radix))
    } else {
        None
    }
}

/// The number written by `s`: an optional sign, then at least one decimal
/// digit and nothing else.
pub open spec fn signed_number(s: Seq<char>) -> Option<int> {
    if s.len() > 0 && s[0] == '-' {
        let t = s.skip(1);
        if t.len() > 0 && all_digits(t, 10) {
            Some(-(digits_value(t, 10) as int))
        } else {
            None
        }
    } else {
        match unsigned_number(s, 10) {
            Some(v) => Some(v as int),
            None => None,
        }
    }
}

/// The part of [`unsigned_number`] that a `u64` can hold.
pub open spec fn u64_number(s: Seq<char>, radix: nat) -> Option<u64> {
    match unsigned_number(s, radix) {
        Some(v) => if v <= u64::MAX {
            Some(v as u64)
        } else {
            None
        },
        None => None,
    }
}

/// The part of [`unsigned_number`] that a `u32` can hold.
pub open spec fn u32_number(s: Seq<char>) -> Option<u32> {
    match unsigned_number(s, 10) {
        Some(v) => if v <= u32::MAX {
            Some(v as u32)
        } else {
            None
        },
        None => None,
    }
}

/// The part of [`signed_number`] that an `i32` can hold.
pub open spec fn i32_number(s: Seq<char>) -> Option<i32> {
    match signed_number(s) {
        Some(v) => if i32::MIN <= v <= i32::MAX {
            Some(v as i32)
        } else {
            None
        },
        None => None,
    }
}

/// [`digit`] of `c`.
pub fn digit_of(c: char) -> (r: Option<u32>)
    ensures
        r is Some == digit(c) is Some,
        r is Some ==> r->0 == digit(c)->0 && r->0 < 36,
{
    if '0' <= c && c <= '9' {
        Some(c as u32 - 0x30)
    } else if 'a' <= c && c <= 'z' {
        Some(c as u32 - 0x61 + 10)
    } else if 'A' <= c && c <= 'Z' {
        Some(c as u32 - 0x41 + 10)
    } else {
        None
    }
}

/// Appending digits never makes the number smaller.
proof fn lemma_digits_value_grows(s: Seq<char>, i: int, radix: nat)
    requires
        0 <= i <= s.len(),
        radix >= 1,
    ensures
        digits_value(s.take(i), radix) <= digits_value(s, radix),
    decreases s.len(),
{
    if i == s.len() {
        assert(s.take(i) =~= s);
    } else {
        lemma_digits_value_grows(s.drop_last(), i, radix);
        assert(s.drop_last().take(i) =~= s.take(i));
        let a = digits_value(s.drop_last(), radix);
        assert(a <= a * radix) by (nonlinear_arith)
            requires
                radix >= 1,
        ;
    }
}

/// The number that the digits of `v` from `from` on write in `radix`, when
/// there is at least one, all are digits, and a `u64` holds it.
fn digits_from(v: &Vec<char>, from: usize, radix: u32) -> (r: Option<u64>)
    requires
        from <= v@.len(),
        2 <= radix <= 36,
    ensures
        ({
            let t = v@.skip(from as int);
            r == if t.len() > 0 && all_digits(t, radix as nat) && digits_value(t, radix as nat)
                <= u64::MAX {
                Some(digits_value(t, radix as nat) as u64)
            } else {
                None
            }
        }),
{
    let ghost t = v@.skip(from as int);
    if from == v.len() {
        return None;
    }
    let mut acc: u64 = 0;
    let mut i: usize = from;
    while i < v.len()
        invariant
            from <= i <= v@.len(),
            from < v@.len(),
            2 <= radix <= 36,
            t == v@.skip(from as int),
            all_digits(t.take(i - from), radix as nat),
            acc == digits_value(t.take(i - from), radix as nat),
        decreases v@.len() - i,
    {
        let ghost k = i - from;
        proof {
            assert(t[k] == v@[i as int]);
            assert(t.take(k + 1).drop_last() =~= t.take(k));
            assert(t.take(k + 1).last() == t[k]);
        }
        let d: u32 = match digit_of(v[i]) {
            Some(d) => d,
            None => {
                proof {
                    assert(!is_digit(t[k], radix as nat));
                }
                return None;
            },
        };
        if d >= radix {
            proof {
                assert(!is_digit(t[k], radix as nat));
            }
            return None;
        }
        proof {
            assert(0 <= acc * radix <= u64::MAX * 36) by (nonlinear_arith)
                requires
                    0 <= acc <= u64::MAX,
                    0 <= radix <= 36,
            ;
        }
        let wide: u128 = (acc as u128) * (radix as u128) + (d as u128);
        proof {
            assert(wide == digits_value(t.take(k + 1), radix as nat));
        }
        if wide > u64::MAX as u128 {
            proof {
                lemma_digits_value_grows(t, k + 1, radix as nat);
            }
            return None;
        }
        acc = wide as u64;
        i = i + 1;
        proof {
            assert forall|j: int| 0 <= j < t.take(k + 1).len() implies is_digit(
                #[trigger] t.take(k + 1)[j],
                radix as nat,
            ) by {
                if j < k {
                    assert(t.take(k)[j] == t.take(k + 1)[j]);
                }
            }
        }
    }
    proof {
        assert(t.take(i - from) =~= t);
    }
    Some(acc)
}

/// [`u64_number`] of `v`.
pub fn parse_u64_radix(v: &Vec<char>, radix: u32) -> (r: Option<u64>)
    requires
        2 <= radix <= 36,
    ensures
        r == u64_number(v@, radix as nat),
{
    if v.len() > 0 && v[0] == '+' {
        digits_from(v, 1, radix)
    } else {
        proof {
            assert(v@.skip(0) =~= v@);
        }
        digits_from(v, 0, radix)
    }
}

/// [`u32_number`] of `v`.
pub fn parse_u32(v: &Vec<char>) -> (r: Option<u32>)
    ensures
        r == u32_number(v@),
{
    match parse_u64_radix(v, 10) {
        Some(n) => if n <= u32::MAX as u64 {
            Some(n as u32)
        } else {
            None
        },
        None => None,
    }
}

/// [`i32_number`] of `v`.
pub fn parse_i32(v: &Vec<char>) -> (r: Option<i32>)
    ensures
        r == i32_number(v@),
{
    if v.len() > 0 && v[0] == '-' {
        match digits_from(v, 1, 10) {
            Some(n) => if n <= 0x8000_0000u64 {
                Some((-(n as i64)) as i32)
            } else {
                None
            },
            None => None,
        }
    } else {
        match parse_u64_radix(v, 10) {
            Some(n) => if n <= i32::MAX as u64 {
                Some(n as i32)
            } else {
                None
            },
            None => None,
        }
    }
}

/// The digit character of `d`, letters small or capital.
pub open spec fn digit_char(d: nat, upper: bool) -> char {
    if d < 10 {
        (0x30 + d) as char
    } else if upper {
        (0x41 + d - 10) as char
    } else {
        (0x61 + d - 10) as char
    }
}

/// `n` written in `radix`, without leading zeros.
pub open spec fn written(n: nat, radix: nat, upper: bool) -> Seq<char>
    decreases n,
{
    if radix < 2 {
        Seq::empty()
    } else if n < radix {
        seq![digit_char(n, upper)]
    } else {
        proof {
            assert(n / radix < n) by (nonlinear_arith)
                requires
                    n >= radix,
                    radix >= 2,
            ;
        }
        written(n / radix, radix, upper).push(digit_char(n % radix, upper))
    }
}

/// `s` filled up with zeros on the left to at least `width` characters.
pub open spec fn zero_padded(s: Seq<char>, width: nat) -> Seq<char> {
    if s.len() < width {
        Seq::new((width - s.len()) as nat, |i: int| '0') + s
    } else {
        s
    }
}

/// The digit character of `d`.
pub fn char_of_digit(d: u32, upper: bool) -> (r: char)
    requires
        d < 36,
    ensures
        r == digit_char(d as nat, upper),
{
    if d < 10 {
        (0x30u8 + d as u8) as char
    } else if upper {
        (0x41u8 + (d as u8 - 10)) as char
    } else {
        (0x61u8 + (d as u8 - 10)) as char
    }
}

/// `n` written in `radix`.
pub fn write_number(n: u64, radix: u64, upper: bool) -> (r: Vec<char>)
    requires
        2 <= radix <= 36,
    ensures
        r@ == written(n as nat, radix as nat, upper),
    decreases n,
{
    if n < radix {
        let mut v: Vec<char> = Vec::new();
        v.push(char_of_digit(n as u32, upper));
        proof {
            assert(v@ =~= seq![digit_char(n as nat, upper)]);
        }
        v
    } else {
        proof {
            assert(n / radix < n) by (nonlinear_arith)
                requires
                    n >= radix,
                    radix >= 2,
            ;
        }
        let mut v: Vec<char> = write_number(n / radix, radix, upper);
        v.push(char_of_digit((n % radix) as u32, upper));
        v
    }
}

/// `n` in decimal.
pub fn dec(n: u64) -> (r: String)
    ensures
        r@ == written(n as nat, 10, false),
{
    string_of(&write_number(n, 10, false))
}

/// `n` in hexadecimal with capital letters.
pub fn hex_upper(n: u64) -> (r: String)
    ensures
        r@ == written(n as nat, 16, true),
{
    string_of(&write_number(n, 16, true))
}

/// `n` in hexadecimal with small letters.
pub fn hex_lower(n: u64) -> (r: String)
    ensures
        r@ == written(n as nat, 16, false),
{
    string_of(&write_number(n, 16, false))
}

/// A signed number in decimal, with `-` before a negative one.
pub open spec fn written_signed(n: int) -> Seq<char> {
    if n < 0 {
        seq!['-'] + written((-n) as nat, 10, false)
    } else {
        written(n as nat, 10, false)
    }
}

/// `n` in decimal.
pub fn dec_signed(n: i64) -> (r: String)
    ensures
        r@ == written_signed(n as int),
{
    if n < 0 {
        let m: u64 = (-(n as i128)) as u64;
        let mut s = String::new();
        s.push('-');
        s.append(dec(m).as_str());
        proof {
            assert(s@ =~= seq!['-'] + written((-n) as nat, 10, false));
        }
        s
    } else {
        dec(n as u64)
    }
}

/// `n` in capital hexadecimal, at least `width` digits wide.
pub fn hex_upper_padded(n: u64, width: usize) -> (r: String)
    ensures
        r@ == zero_padded(written(n as nat, 16, true), width as nat),
{
    let v: Vec<char> = write_number(n, 16, true);
    let mut s = String::new();
    let mut k: usize = v.len();
    while k < width
        invariant
            v@.len() <= k,
            k <= width || k == v@.len(),
            s@ =~= Seq::new((k - v@.len()) as nat, |i: int| '0'),
        decreases width - k,
    {
        s.push('0');
        k = k + 1;
    }
    s.append(string_of(&v).as_str());
    proof {
        assert(s@ =~= zero_padded(v@, width as nat));
    }
    s
}

/// What a number writes, it reads back.
pub proof fn lemma_written_reads_back(n: nat, radix: nat, upper: bool)
    requires
        2 <= radix <= 36,
    ensures
        written(n, radix, upper).len() > 0,
        all_digits(written(n, radix, upper), radix),
        digits_value(written(n, radix, upper), radix) == n,
    decreases n,
{
    if n < radix {
        let s = seq![digit_char(n, upper)];
        assert(s.drop_last() =~= Seq::<char>::empty());
        assert(s.last() == digit_char(n, upper));
        assert(digits_value(s.drop_last(), radix) == 0);
        assert(0 * radix == 0) by (nonlinear_arith);
        assert(digits_value(s, radix) == 0 * radix + digit(s.last())->0);
    } else {
        assert(n / radix < n) by (nonlinear_arith)
            requires
                n >= radix,
                radix >= 2,
        ;
        lemma_written_reads_back(n / radix, radix, upper);
        let p = written(n / radix, radix, upper);
        let s = p.push(digit_char(n % radix, upper));
        assert(s.drop_last() =~= p);
        assert(n % radix < radix) by (nonlinear_arith)
            requires
                radix >= 2,
        ;
        assert((n / radix) * radix + n % radix == n) by (nonlinear_arith)
            requires
                radix >= 2,
        ;
        assert forall|j: int| 0 <= j < s.len() implies is_digit(#[trigger] s[j], radix) by {
            if j < p.len() {
                assert(s[j] == p[j]);
            }
        }
    }
}

// ---------------------------------------------------------------------------
// Laws
// ---------------------------------------------------------------------------

/// Trimming takes white space off both ends and nothing else: what is left is a
/// stretch of the text, white space is all that stood before and behind it, and
/// it neither begins nor ends with any. `at` says where the stretch begins.
pub proof fn law_trimming_takes_white_space_only(s: Seq<char>) -> (at: int)
    ensures
        0 <= at <= at + trim(s).len() <= s.len(),
        trim(s) == s.subrange(at, at + trim(s).len()),
        forall|k: int| 0 <= k < at ==> is_white(#[trigger] s[k]),
        forall|k: int| at + trim(s).len() <= k < s.len() ==> is_white(#[trigger] s[k]),
        trim(s).len() > 0 ==> !is_white(trim(s)[0]) && !is_white(trim(s).last()),
    decreases s.len(),
{
    lemma_trim_ends(s);
    if s.len() > 0 && is_white(s[0]) {
        let rest = s.skip(1);
        let at = law_trimming_takes_white_space_only(rest) + 1;
        assert(trim(s) =~= s.subrange(at, at + trim(s).len()));
        assert forall|k: int| 0 <= k < at implies is_white(#[trigger] s[k]) by {
            if k > 0 {
                assert(rest[k - 1] == s[k]);
            }
        }
        assert forall|k: int| at + trim(s).len() <= k < s.len() implies is_white(
            #[trigger] s[k],
        ) by {
            assert(rest[k - 1] == s[k]);
        }
        at
    } else {
        lemma_trim_end_rest(s);
        assert(trim(s) =~= s.subrange(0, trim(s).len() as int));
        0
    }
}

proof fn lemma_trim_end_rest(s: Seq<char>)
    ensures
        trim_end(s).len() <= s.len(),
        trim_end(s) == s.take(trim_end(s).len() as int),
        forall|k: int| trim_end(s).len() <= k < s.len() ==> is_white(#[trigger] s[k]),
    decreases s.len(),
{
    lemma_trim_end(s);
    if s.len() > 0 && is_white(s.last()) {
        let head = s.drop_last();
        lemma_trim_end_rest(head);
        assert forall|k: int| trim_end(s).len() <= k < s.len() implies is_white(#[trigger] s[k]) by {
            if k < head.len() {
                assert(head[k] == s[k]);
            }
        }
    }
}

/// Making letters small changes the capitals from `A` to `Z`, each into the
/// letter that is thirty-two places on, and no other character; making them
/// capital goes the other way.
pub proof fn law_letters_change_case(c: char)
    ensures
        'A' <= c <= 'Z' ==> ascii_lower(c) as u32 == c as u32 + 32,
        !('A' <= c <= 'Z') ==> ascii_lower(c) == c,
        'a' <= c <= 'z' ==> ascii_upper(c) as u32 + 32 == c as u32,
        !('a' <= c <= 'z') ==> ascii_upper(c) == c,
        ascii_lower(ascii_upper(c)) == ascii_lower(c),
{
}

/// The pieces of a text that is cut at a character hold none of it, and stand in
/// the text one after the other: the first one before its first occurrence, the
/// rest in what follows.
pub proof fn law_pieces_hold_no_separator(s: Seq<char>, c: char, i: int, k: int)
    requires
        0 <= i < split(s, c).len(),
        0 <= k < split(s, c)[i].len(),
    ensures
        split(s, c)[i][k] != c,
    decreases s.len(),
{
    lemma_first_of(s, c);
    let n = first_of(s, c);
    if n < s.len() {
        if i > 0 {
            law_pieces_hold_no_separator(s.skip(n + 1), c, i - 1, k);
        }
    }
}

/// Cutting a text made of pieces and separators gives the pieces back.
pub proof fn law_split_takes_pieces_apart(head: Seq<char>, rest: Seq<char>, c: char)
    requires
        forall|k: int| 0 <= k < head.len() ==> #[trigger] head[k] != c,
    ensures
        split(head, c) == seq![head],
        split(head + seq![c] + rest, c) == seq![head] + split(rest, c),
{
    lemma_first_of_unique(head, c, head.len() as int);
    let s = head + seq![c] + rest;
    assert forall|k: int| 0 <= k < head.len() implies s[k] != c by {
        assert(s[k] == head[k]);
    }
    lemma_first_of_unique(s, c, head.len() as int);
    assert(s.take(head.len() as int) =~= head);
    assert(s.skip(head.len() as int + 1) =~= rest);
}

/// What stands behind the last occurrence of a character is the rest of a text
/// from there on; without an occurrence it is the whole text.
pub proof fn law_after_last_is_the_rest(head: Seq<char>, tail: Seq<char>, c: char)
    requires
        forall|k: int| 0 <= k < tail.len() ==> #[trigger] tail[k] != c,
    ensures
        after_last(tail, c) == tail,
        after_last(head + seq![c] + tail, c) == tail,
{
    let s = head + seq![c] + tail;
    let n = head.len() as int + 1;
    lemma_after_last(tail, c, 0);
    assert(tail.subrange(0, tail.len() as int) =~= tail);
    assert forall|k: int| n <= k < s.len() implies s[k] != c by {
        assert(s[k] == tail[k - n]);
    }
    lemma_after_last(s, c, n);
    assert(s.subrange(n, s.len() as int) =~= tail);
}

/// Digits are written from the most significant on, without zeros before them;
/// those past nine are the letters from `a` or `A` on.
pub proof fn law_digits_are_written_in_order(n: nat, radix: nat, upper: bool)
    requires
        2 <= radix <= 36,
    ensures
        written(n, radix, upper).len() > 0,
        digit(written(n, radix, upper).last()) == Some(n % radix),
        n >= radix ==> written(n, radix, upper).drop_last() == written(n / radix, radix, upper),
        n < radix ==> written(n, radix, upper).len() == 1,
        n > 0 ==> written(n, radix, upper)[0] != '0',
        forall|k: int|
            0 <= k < written(n, radix, upper).len() ==> if upper {
                !('a' <= #[trigger] written(n, radix, upper)[k] <= 'z')
            } else {
                !('A' <= written(n, radix, upper)[k] <= 'Z')
            },
    decreases n,
{
    let s = written(n, radix, upper);
    if n >= radix {
        assert(n / radix < n && n / radix > 0) by (nonlinear_arith)
            requires
                n >= radix,
                radix >= 2,
        ;
        law_digits_are_written_in_order(n / radix, radix, upper);
        let p = written(n / radix, radix, upper);
        assert(s.drop_last() =~= p);
        assert(s[0] == p[0]);
        assert forall|k: int| 0 <= k < s.len() implies if upper {
            !('a' <= #[trigger] s[k] <= 'z')
        } else {
            !('A' <= s[k] <= 'Z')
        } by {
            if k < p.len() {
                assert(s[k] == p[k]);
            }
        }
    } else {
        assert(n % radix == n) by (nonlinear_arith)
            requires
                n < radix,
        ;
    }
}

/// A signed number that is written is read back as itself, its sign with it; a
/// number that does not fit is not read.
pub proof fn law_signed_numbers_read_back(n: i32, big: nat)
    ensures
        i32_number(written_signed(n as int)) == Some(n),
        n >= 0 ==> u32_number(written(n as nat, 10, false)) == Some(n as u32),
        big > u64::MAX ==> u64_number(written(big, 10, false), 10) is None,
        big <= u64::MAX ==> u64_number(written(big, 10, false), 10) == Some(big as u64),
        big > u32::MAX ==> u32_number(written(big, 10, false)) is None,
        big > i32::MAX ==> i32_number(written(big, 10, false)) is None,
{
    let m: nat = if n < 0 {
        (-n) as nat
    } else {
        n as nat
    };
    lemma_written_reads_back(m, 10, false);
    lemma_written_reads_back(big, 10, false);
    let d = written(m, 10, false);
    let b = written(big, 10, false);
    assert(is_digit(d[0], 10));
    assert(is_digit(b[0], 10));
    let s = seq!['-'] + d;
    assert(s.skip(1) =~= d);
}

/// A number is padded with zeros on its left to the width asked for, and keeps
/// its value.
pub proof fn law_padding_keeps_the_digits(s: Seq<char>, width: nat, k: int)
    ensures
        s.len() >= width ==> zero_padded(s, width) == s,
        s.len() < width ==> {
            &&& zero_padded(s, width).len() == width
            &&& zero_padded(s, width).skip(width - s.len()) == s
            &&& 0 <= k < width - s.len() ==> zero_padded(s, width)[k] == '0'
        },
{
    if s.len() < width {
        assert(zero_padded(s, width).skip(width - s.len()) =~= s);
    }
}

} // verus!

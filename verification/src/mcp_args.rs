//! What the remote agent sends as arguments: numbers, texts, bytes and kinds,
//! and the message where an argument is not what it should be.

use crate::json::{
    items_view, json_parsed, law_members_are_found_by_name, obj1, obj2, parse_json, Json, JsonV,
    NumeralV,
};
use crate::node::{width_bytes, IntWidth, NodeKind, TextEncoding};
use crate::rows::{strip_0x, without_0x};
use crate::text;
use vstd::prelude::*;

verus! {

// ---------------------------------------------------------------------------
// Messages of the standard library's number parsers
// ---------------------------------------------------------------------------

/// The message of the error that `u64::from_str_radix` returns for `s`.
pub uninterp spec fn u64_error_text(s: Seq<char>, radix: nat) -> Seq<char>;

/// The message of the error that `u8::from_str_radix` returns for `s`.
pub uninterp spec fn u8_error_text(s: Seq<char>, radix: nat) -> Seq<char>;

/// The message of the error that `i32::from_str_radix` returns for `s`.
pub uninterp spec fn i32_error_text(s: Seq<char>, radix: nat) -> Seq<char>;

/// `u64::from_str_radix` on a text that it refuses: the message depends on the
/// text and the radix alone. (It panics on a radix outside 2 to 36.)
#[verifier::external_body]
fn u64_error(s: &str, radix: u32) -> (r: String)
    requires
        2 <= radix <= 36,
    ensures
        r@ == u64_error_text(s@, radix as nat),
{
    u64::from_str_radix(s, radix).map_or_else(|e| e.to_string(), |n| n.to_string())
}

/// `u8::from_str_radix` on a text that it refuses: the message depends on the
/// text and the radix alone. (It panics on a radix outside 2 to 36.)
#[verifier::external_body]
fn u8_error(s: &str, radix: u32) -> (r: String)
    requires
        2 <= radix <= 36,
    ensures
        r@ == u8_error_text(s@, radix as nat),
{
    u8::from_str_radix(s, radix).map_or_else(|e| e.to_string(), |n| n.to_string())
}

/// `i32::from_str_radix` on a text that it refuses: the message depends on the
/// text and the radix alone. (It panics on a radix outside 2 to 36.)
#[verifier::external_body]
fn i32_error(s: &str, radix: u32) -> (r: String)
    requires
        2 <= radix <= 36,
    ensures
        r@ == i32_error_text(s@, radix as nat),
{
    i32::from_str_radix(s, radix).map_or_else(|e| e.to_string(), |n| n.to_string())
}

// ---------------------------------------------------------------------------
// Numbers and texts
// ---------------------------------------------------------------------------

/// A value, or the message that says why there is none.
pub type Arg<T> = Result<T, Seq<char>>;

/// What an argument of plain type says.
pub open spec fn arg_view<T>(r: Result<T, String>) -> Arg<T> {
    match r {
        Ok(v) => Ok(v),
        Err(e) => Err(e@),
    }
}

/// Whether `s` starts with `0x` or `0X`.
pub open spec fn has_0x(s: Seq<char>) -> bool {
    s.len() >= 2 && s[0] == '0' && (s[1] == 'x' || s[1] == 'X')
}

/// The number that `s` writes: hexadecimal after `0x`, else decimal.
pub open spec fn u64_of(s: Seq<char>) -> Arg<u64> {
    let t = text::trim(s);
    let radix: nat = if has_0x(t) {
        16
    } else {
        10
    };
    match text::u64_number(without_0x(t), radix) {
        Some(n) => Ok(n),
        None => Err(u64_error_text(without_0x(t), radix)),
    }
}

/// Parse a number: hexadecimal after `0x`, else decimal.
pub fn parse_u64(s: &str) -> (r: Result<u64, String>)
    ensures
        arg_view(r) == u64_of(s@),
{
    let t = text::trim_chars(&text::chars_of(s));
    let radix: u32 = if t.len() >= 2 && t[0] == '0' && (t[1] == 'x' || t[1] == 'X') {
        16
    } else {
        10
    };
    let digits = strip_0x(&t);
    match text::parse_u64_radix(&digits, radix) {
        Some(n) => Ok(n),
        None => Err(u64_error(text::string_of(&digits).as_str(), radix)),
    }
}

/// `missing '` key `'`.
pub open spec fn missing(key: Seq<char>) -> Seq<char> {
    "missing '"@ + key + "'"@
}

/// Member `key` as a text.
pub open spec fn str_arg(a: JsonV, key: Seq<char>) -> Arg<Seq<char>> {
    match a.str_at(key) {
        Some(s) => Ok(s),
        None => Err("missing string '"@ + key + "'"@),
    }
}

/// Member `key` as a number, which may be written as a text.
pub open spec fn u64_arg(a: JsonV, key: Seq<char>) -> Arg<u64> {
    match a.get(key) {
        None => Err(missing(key)),
        Some(v) => match v.as_u64() {
            Some(n) => Ok(n),
            None => match v.as_str() {
                Some(s) => u64_of(s),
                None => Err("'"@ + key + "' must be a number or numeric string"@),
            },
        },
    }
}

/// Member `key` as a number below 2^32.
pub open spec fn u32_arg(a: JsonV, key: Seq<char>) -> Arg<u32> {
    match u64_arg(a, key) {
        Ok(n) => if n <= u32::MAX {
            Ok(n as u32)
        } else {
            Err("'"@ + key + "' out of range for u32"@)
        },
        Err(e) => Err(e),
    }
}

/// Member `key` as a number that a `usize` holds.
pub open spec fn usize_arg(a: JsonV, key: Seq<char>) -> Arg<usize> {
    match u64_arg(a, key) {
        Ok(n) => if n <= usize::MAX {
            Ok(n as usize)
        } else {
            Err("'"@ + key + "' out of range"@)
        },
        Err(e) => Err(e),
    }
}

/// Member `key` as a signed 32-bit number, which may be written as a text.
pub open spec fn i32_arg(a: JsonV, key: Seq<char>) -> Arg<i32> {
    match a.get(key) {
        None => Err(missing(key)),
        Some(v) => match v.as_i64() {
            Some(n) => if i32::MIN <= n <= i32::MAX {
                Ok(n as i32)
            } else {
                Err("'"@ + key + "' out of range for i32"@)
            },
            None => match v.as_str() {
                Some(s) => match text::i32_number(text::trim(s)) {
                    Some(n) => Ok(n),
                    None => Err(i32_error_text(text::trim(s), 10)),
                },
                None => Err("'"@ + key + "' must be an integer"@),
            },
        },
    }
}

/// Member `key` as a text.
pub fn arg_str(a: &Json, key: &str) -> (r: Result<String, String>)
    ensures
        text_arg_view(r) == str_arg(a@, key@),
{
    match a.str_at(key) {
        Some(s) => Ok(s.to_owned()),
        None => Err(text::join3("missing string '", key, "'")),
    }
}

/// What an argument that is a text says.
pub open spec fn text_arg_view(r: Result<String, String>) -> Arg<Seq<char>> {
    match r {
        Ok(s) => Ok(s@),
        Err(e) => Err(e@),
    }
}

/// Member `key` as a number, which may be written as a text.
pub fn arg_u64(a: &Json, key: &str) -> (r: Result<u64, String>)
    ensures
        arg_view(r) == u64_arg(a@, key@),
{
    match a.get(key) {
        None => Err(text::join3("missing '", key, "'")),
        Some(v) => match v.as_u64() {
            Some(n) => Ok(n),
            None => match v.as_str() {
                Some(s) => parse_u64(s),
                None => Err(text::join3("'", key, "' must be a number or numeric string")),
            },
        },
    }
}

/// Member `key` as a number below 2^32.
pub fn arg_u32(a: &Json, key: &str) -> (r: Result<u32, String>)
    ensures
        arg_view(r) == u32_arg(a@, key@),
{
    match arg_u64(a, key) {
        Ok(n) => if n <= u32::MAX as u64 {
            Ok(n as u32)
        } else {
            Err(text::join3("'", key, "' out of range for u32"))
        },
        Err(e) => Err(e),
    }
}

/// Member `key` as a number that a `usize` holds.
pub fn arg_usize(a: &Json, key: &str) -> (r: Result<usize, String>)
    ensures
        arg_view(r) == usize_arg(a@, key@),
{
    match arg_u64(a, key) {
        Ok(n) => if n <= usize::MAX as u64 {
            Ok(n as usize)
        } else {
            Err(text::join3("'", key, "' out of range"))
        },
        Err(e) => Err(e),
    }
}

/// Member `key` as a signed 32-bit number, which may be written as a text.
pub fn arg_i32(a: &Json, key: &str) -> (r: Result<i32, String>)
    ensures
        arg_view(r) == i32_arg(a@, key@),
{
    match a.get(key) {
        None => Err(text::join3("missing '", key, "'")),
        Some(v) => match v.as_i64() {
            Some(n) => if i32::MIN as i64 <= n && n <= i32::MAX as i64 {
                Ok(n as i32)
            } else {
                Err(text::join3("'", key, "' out of range for i32"))
            },
            None => match v.as_str() {
                Some(s) => {
                    let t = text::trim_chars(&text::chars_of(s));
                    match text::parse_i32(&t) {
                        Some(n) => Ok(n),
                        None => Err(i32_error(text::string_of(&t).as_str(), 10)),
                    }
                },
                None => Err(text::join3("'", key, "' must be an integer")),
            },
        },
    }
}

// ---------------------------------------------------------------------------
// Bytes
// ---------------------------------------------------------------------------

/// Two small hexadecimal digits per byte.
pub open spec fn hex_text(bytes: Seq<u8>) -> Seq<char>
    decreases bytes.len(),
{
    if bytes.len() == 0 {
        Seq::empty()
    } else {
        hex_text(bytes.drop_last()) + byte_text(bytes.last())
    }
}

/// A byte in two small hexadecimal digits.
pub open spec fn byte_text(b: u8) -> Seq<char> {
    seq![text::digit_char(b as nat / 16, false), text::digit_char(b as nat % 16, false)]
}

/// Write bytes as small hexadecimal digits, two per byte.
pub fn hex_encode(bytes: &Vec<u8>) -> (r: String)
    ensures
        r@ == hex_text(bytes@),
{
    let mut s = String::new();
    let mut i: usize = 0;
    proof {
        assert(bytes@.take(0) =~= Seq::<u8>::empty());
    }
    while i < bytes.len()
        invariant
            i <= bytes@.len(),
            s@ == hex_text(bytes@.take(i as int)),
        decreases bytes@.len() - i,
    {
        let b: u32 = bytes[i] as u32;
        let ghost before = s@;
        s.push(text::char_of_digit(b / 16, false));
        s.push(text::char_of_digit(b % 16, false));
        proof {
            assert(bytes@.take(i as int + 1).drop_last() =~= bytes@.take(i as int));
            assert(bytes@.take(i as int + 1).last() == bytes@[i as int]);
            assert(s@ =~= before + byte_text(bytes@[i as int]));
        }
        i = i + 1;
    }
    proof {
        assert(bytes@.take(i as int) =~= bytes@);
    }
    s
}

/// The byte that two characters write in hexadecimal.
pub open spec fn byte_of(pair: Seq<char>) -> Arg<u8> {
    match text::u64_number(pair, 16) {
        Some(n) => if n <= 255 {
            Ok(n as u8)
        } else {
            Err(u8_error_text(pair, 16))
        },
        None => Err(u8_error_text(pair, 16)),
    }
}

/// How many bytes `c` takes in UTF-8.
pub open spec fn utf8_len(c: char) -> nat {
    if (c as u32) < 0x80 {
        1
    } else if (c as u32) < 0x800 {
        2
    } else if (c as u32) < 0x10000 {
        3
    } else {
        4
    }
}

/// How many bytes `s` takes in UTF-8.
pub open spec fn byte_count(s: Seq<char>) -> nat
    decreases s.len(),
{
    if s.len() == 0 {
        0
    } else {
        byte_count(s.drop_last()) + utf8_len(s.last())
    }
}

/// The text in the `i`-th two bytes of `s`, where one-byte characters come
/// before them.
pub open spec fn pair_at(s: Seq<char>, i: nat) -> Seq<char> {
    if utf8_len(s[2 * (i as int)]) == 2 {
        s.subrange(2 * (i as int), 2 * (i as int) + 1)
    } else {
        s.subrange(2 * (i as int), 2 * (i as int) + 2)
    }
}

/// The bytes that the characters from the `i`-th pair on write.
pub open spec fn pairs_from(s: Seq<char>, i: nat) -> Arg<Seq<u8>>
    decreases s.len() + 1 - 2 * i,
{
    if 2 * i >= s.len() {
        Ok(Seq::empty())
    } else {
        match byte_of(pair_at(s, i)) {
            Err(e) => Err(e),
            Ok(b) => match pairs_from(s, i + 1) {
                Err(e) => Err(e),
                Ok(rest) => Ok(seq![b] + rest),
            },
        }
    }
}

/// Whether two bytes at a time can be cut off `s` from the `i`-th pair on, up
/// to the first that are no byte, without parting a character.
pub open spec fn cuts_from(s: Seq<char>, i: nat) -> bool
    decreases s.len() - 2 * i,
{
    if 2 * i >= s.len() || utf8_len(s[2 * (i as int)]) == 2 {
        true
    } else {
        &&& 2 * i + 1 < s.len()
        &&& utf8_len(s[2 * (i as int)]) == 1
        &&& utf8_len(s[2 * (i as int) + 1]) == 1
        &&& byte_of(pair_at(s, i)) is Ok ==> cuts_from(s, i + 1)
    }
}

/// The bytes that `s` writes, with or without `0x` before them. The first pair
/// that is no byte decides the message.
pub open spec fn bytes_of(s: Seq<char>) -> Arg<Seq<u8>> {
    let t = without_0x(text::trim(s));
    if byte_count(t) % 2 != 0 {
        Err("hex string has odd length"@)
    } else {
        pairs_from(t, 0)
    }
}

/// Whether reading the digits of `s` parts no character.
pub open spec fn hex_readable(s: Seq<char>) -> bool {
    let t = without_0x(text::trim(s));
    byte_count(t) % 2 != 0 || cuts_from(t, 0)
}

/// Whether `v` takes an odd number of bytes.
fn odd_bytes(v: &Vec<char>) -> (r: bool)
    ensures
        r == (byte_count(v@) % 2 != 0),
{
    let mut odd = false;
    let mut i: usize = 0;
    proof {
        assert(v@.take(0) =~= Seq::<char>::empty());
    }
    while i < v.len()
        invariant
            i <= v@.len(),
            odd == (byte_count(v@.take(i as int)) % 2 != 0),
        decreases v@.len() - i,
    {
        let c: u32 = v[i] as u32;
        proof {
            let k = v@.take(i as int + 1);
            assert(k.drop_last() =~= v@.take(i as int));
            assert(k.last() == v@[i as int]);
        }
        if c < 0x80 || (0x800 <= c && c < 0x10000) {
            odd = !odd;
        }
        i = i + 1;
    }
    proof {
        assert(v@.take(i as int) =~= v@);
    }
    odd
}

/// A character that takes two bytes is no digit.
proof fn lemma_wide_is_no_byte(s: Seq<char>, i: nat)
    requires
        2 * i < s.len(),
        utf8_len(s[2 * (i as int)]) == 2,
    ensures
        byte_of(pair_at(s, i)) is Err,
{
    let p = pair_at(s, i);
    assert(p.len() == 1 && p[0] == s[2 * (i as int)]);
    assert(!text::all_digits(p, 16)) by {
        assert(text::digit(p[0]) is None);
    }
}

/// Where the bytes of `t` were read up to the `i`-th pair, one step more.
fn next_byte(t: &Vec<char>, i: usize) -> (r: Result<u8, String>)
    requires
        2 * i < t@.len(),
        cuts_from(t@, i as nat),
    ensures
        r matches Ok(b) ==> byte_of(pair_at(t@, i as nat)) == Ok::<u8, Seq<char>>(b),
        r matches Err(e) ==> byte_of(pair_at(t@, i as nat)) == Err::<u8, Seq<char>>(e@),
{
    let n: usize = t.len();
    assert(2 * i < n);
    let c: u32 = t[2 * i] as u32;
    let pair = if 0x80 <= c && c < 0x800 {
        text::part(t, 2 * i, 2 * i + 1)
    } else {
        text::part(t, 2 * i, 2 * i + 2)
    };
    match text::parse_u64_radix(&pair, 16) {
        Some(v) => if v > 255 {
            Err(u8_error(text::string_of(&pair).as_str(), 16))
        } else {
            Ok(v as u8)
        },
        None => Err(u8_error(text::string_of(&pair).as_str(), 16)),
    }
}

/// Whether reading the digits of `s` parts no character.
pub fn can_read_hex(s: &str) -> (r: bool)
    ensures
        r == hex_readable(s@),
{
    let t = strip_0x(&text::trim_chars(&text::chars_of(s)));
    if odd_bytes(&t) {
        return true;
    }
    let mut i: usize = 0;
    while i < t.len() / 2
        invariant
            i <= t@.len() / 2,
            t@ == without_0x(text::trim(s@)),
            byte_count(t@) % 2 == 0,
            cuts_from(t@, 0) == cuts_from(t@, i as nat),
        decreases t@.len() - i,
    {
        let c: u32 = t[2 * i] as u32;
        if 0x80 <= c && c < 0x800 {
            return true;
        }
        if c >= 0x800 || t[2 * i + 1] as u32 >= 0x80 {
            return false;
        }
        let pair = text::part(&t, 2 * i, 2 * i + 2);
        match text::parse_u64_radix(&pair, 16) {
            Some(v) => {
                if v > 255 {
                    return true;
                }
            },
            None => {
                return true;
            },
        }
        i = i + 1;
    }
    if t.len() % 2 == 0 {
        true
    } else {
        let c: u32 = t[2 * i] as u32;
        0x80 <= c && c < 0x800
    }
}

/// What an argument that is a list of bytes says.
pub open spec fn bytes_view(r: Result<Vec<u8>, String>) -> Arg<Seq<u8>> {
    match r {
        Ok(v) => Ok(v@),
        Err(e) => Err(e@),
    }
}

/// What the outcome for the first `i` pairs says of all of them.
proof fn lemma_pairs_split(s: Seq<char>, i: nat, done: Seq<u8>)
    requires
        2 * i <= s.len(),
        done.len() == i,
        forall|k: nat| k < i ==> byte_of(#[trigger] pair_at(s, k)) == Ok::<u8, Seq<char>>(
            done[k as int],
        ),
    ensures
        pairs_from(s, 0) == match pairs_from(s, i) {
            Ok(rest) => Ok(done + rest),
            Err(e) => Err(e),
        },
    decreases i,
{
    if i == 0 {
        if pairs_from(s, 0) is Ok {
            assert(done + pairs_from(s, 0)->Ok_0 =~= pairs_from(s, 0)->Ok_0);
        }
    } else {
        let p = (i - 1) as nat;
        assert forall|k: nat| k < p implies byte_of(#[trigger] pair_at(s, k)) == Ok::<
            u8,
            Seq<char>,
        >(done.drop_last()[k as int]) by {}
        lemma_pairs_split(s, p, done.drop_last());
        assert(byte_of(pair_at(s, p)) == Ok::<u8, Seq<char>>(done[p as int]));
        if pairs_from(s, i) is Ok {
            let rest = pairs_from(s, i)->Ok_0;
            assert(done.drop_last() + (seq![done[p as int]] + rest) =~= done + rest);
        }
    }
}

/// Read bytes from hexadecimal digits, two per byte, with or without `0x`
/// before them.
pub fn hex_decode(s: &str) -> (r: Result<Vec<u8>, String>)
    requires
        hex_readable(s@),
    ensures
        bytes_view(r) == bytes_of(s@),
{
    let t = strip_0x(&text::trim_chars(&text::chars_of(s)));
    if odd_bytes(&t) {
        return Err("hex string has odd length".to_owned());
    }
    let mut out: Vec<u8> = Vec::new();
    let mut i: usize = 0;
    while i < t.len() - i
        invariant
            2 * i <= t@.len(),
            cuts_from(t@, i as nat),
            out@.len() == i,
            byte_count(t@) % 2 == 0,
            t@ == without_0x(text::trim(s@)),
            forall|k: nat| k < i ==> byte_of(#[trigger] pair_at(t@, k)) == Ok::<u8, Seq<char>>(
                out@[k as int],
            ),
        decreases t@.len() - i,
    {
        proof {
            lemma_pairs_split(t@, i as nat, out@);
            if utf8_len(t@[2 * (i as int)]) == 2 {
                lemma_wide_is_no_byte(t@, i as nat);
            }
        }
        match next_byte(&t, i) {
            Ok(b) => {
                out.push(b);
            },
            Err(e) => {
                return Err(e);
            },
        }
        i = i + 1;
    }
    proof {
        lemma_pairs_split(t@, i as nat, out@);
        assert(pairs_from(t@, i as nat) == Ok::<Seq<u8>, Seq<char>>(Seq::empty()));
        assert(out@ + Seq::<u8>::empty() =~= out@);
    }
    Ok(out)
}

/// What the items write as bytes, from the `i`-th on.
pub open spec fn byte_items(items: Seq<JsonV>) -> Arg<Seq<u8>>
    decreases items.len(),
{
    if items.len() == 0 {
        Ok(Seq::empty())
    } else {
        match byte_items(items.drop_last()) {
            Err(e) => Err(e),
            Ok(head) => match items.last().as_u64() {
                Some(n) => if n <= 255 {
                    Ok(head.push(n as u8))
                } else {
                    Err("bytes must be integers 0..=255"@)
                },
                None => Err("bytes must be integers 0..=255"@),
            },
        }
    }
}

/// The bytes to write: `hex` as a text, else `bytes` as a list.
pub open spec fn bytes_arg(a: JsonV) -> Arg<Seq<u8>> {
    match a.str_at("hex"@) {
        Some(h) => bytes_of(h),
        None => match a.get("bytes"@) {
            Some(v) => match v.as_array() {
                Some(items) => byte_items(items),
                None => Err("provide 'hex' (string) or 'bytes' (array)"@),
            },
            None => Err("provide 'hex' (string) or 'bytes' (array)"@),
        },
    }
}

proof fn lemma_byte_items_stay_wrong(items: Seq<JsonV>, i: int)
    requires
        0 <= i <= items.len(),
        byte_items(items.take(i)) is Err,
    ensures
        byte_items(items) == byte_items(items.take(i)),
    decreases items.len(),
{
    if i == items.len() {
        assert(items.take(i) =~= items);
    } else {
        assert(items.drop_last().take(i) =~= items.take(i));
        lemma_byte_items_stay_wrong(items.drop_last(), i);
    }
}

/// [`byte_items`] of `items`.
fn item_bytes(items: &Vec<Json>) -> (r: Result<Vec<u8>, String>)
    ensures
        bytes_view(r) == byte_items(items_view(items@)),
{
    let ghost all = items_view(items@);
    let mut out: Vec<u8> = Vec::new();
    let mut i: usize = 0;
    proof {
        assert(all.take(0) =~= Seq::<JsonV>::empty());
        assert(out@ =~= Seq::<u8>::empty());
    }
    while i < items.len()
        invariant
            i <= items@.len(),
            all == items_view(items@),
            byte_items(all.take(i as int)) == Ok::<Seq<u8>, Seq<char>>(out@),
        decreases items@.len() - i,
    {
        proof {
            let k = all.take(i as int + 1);
            assert(k.drop_last() =~= all.take(i as int));
            assert(k.last() == items@[i as int]@);
            if byte_items(k) is Err {
                lemma_byte_items_stay_wrong(all, i as int + 1);
            }
        }
        match items[i].as_u64() {
            Some(n) => {
                if n > 255 {
                    return Err("bytes must be integers 0..=255".to_owned());
                }
                out.push(n as u8);
            },
            None => {
                return Err("bytes must be integers 0..=255".to_owned());
            },
        }
        i = i + 1;
    }
    proof {
        assert(all.take(i as int) =~= all);
    }
    Ok(out)
}

/// The bytes to write: `hex` as a text, else `bytes` as a list.
pub fn write_bytes(a: &Json) -> (r: Result<Vec<u8>, String>)
    requires
        a@.str_at("hex"@) is Some ==> hex_readable(a@.str_at("hex"@)->0),
    ensures
        bytes_view(r) == bytes_arg(a@),
{
    match a.str_at("hex") {
        Some(h) => hex_decode(h),
        None => match a.get("bytes") {
            Some(v) => match v.as_array() {
                Some(items) => item_bytes(items),
                None => Err("provide 'hex' (string) or 'bytes' (array)".to_owned()),
            },
            None => Err("provide 'hex' (string) or 'bytes' (array)".to_owned()),
        },
    }
}

/// A text of one-byte characters takes a byte for each.
proof fn lemma_narrow_text(s: Seq<char>)
    requires
        forall|k: int| 0 <= k < s.len() ==> (#[trigger] s[k] as u32) < 0x80,
    ensures
        byte_count(s) == s.len(),
    decreases s.len(),
{
    if s.len() > 0 {
        lemma_narrow_text(s.drop_last());
    }
}

/// A text of one-byte characters can be cut where it has pairs.
proof fn lemma_narrow_cuts(s: Seq<char>, i: nat)
    requires
        s.len() % 2 == 0,
        forall|k: int| 0 <= k < s.len() ==> (#[trigger] s[k] as u32) < 0x80,
    ensures
        cuts_from(s, i),
    decreases s.len() - 2 * i,
{
    if 2 * i < s.len() {
        lemma_narrow_cuts(s, i + 1);
    }
}

/// Digits that write `bytes`, in letters of either case, are plain and read as
/// the bytes.
proof fn lemma_digits_read_back(bytes: Seq<u8>, d: Seq<char>)
    requires
        text::ascii_lower_seq(d) == hex_text(bytes),
    ensures
        d.len() == 2 * bytes.len(),
        forall|k: int|
            0 <= k < d.len() ==> (#[trigger] d[k] as u32) < 0x80 && !text::is_white(d[k]) && d[k]
                != 'x' && d[k] != 'X',
        byte_count(d) == d.len(),
        cuts_from(d, 0),
        pairs_from(d, 0) == Ok::<Seq<u8>, Seq<char>>(bytes),
{
    let t = hex_text(bytes);
    lemma_hex_text(bytes);
    assert(d.len() == text::ascii_lower_seq(d).len());
    assert forall|k: int| 0 <= k < d.len() implies text::is_digit(#[trigger] d[k], 16)
        && text::digit(d[k]) == text::digit(t[k]) && text::ascii_lower(d[k]) == t[k] by {
        let b = bytes[k / 2];
        assert(t[2 * (k / 2)] == byte_text(b)[0]);
        assert(t[2 * (k / 2) + 1] == byte_text(b)[1]);
        assert(text::ascii_lower_seq(d)[k] == text::ascii_lower(d[k]));
        assert(text::is_digit(t[k], 16));
    }
    lemma_narrow_text(d);
    lemma_narrow_cuts(d, 0);
    assert forall|k: nat| k < bytes.len() implies byte_of(#[trigger] pair_at(d, k)) == Ok::<
        u8,
        Seq<char>,
    >(bytes[k as int]) by {
        let b = bytes[k as int];
        let i = 2 * (k as int);
        assert(text::is_digit(d[i], 16) && text::is_digit(d[i + 1], 16));
        assert(t[i] == byte_text(b)[0] && t[i + 1] == byte_text(b)[1]);
        lemma_pair_read_back(b, pair_at(d, k));
    }
    lemma_pairs_split(d, bytes.len(), bytes);
    assert(pairs_from(d, bytes.len()) == Ok::<Seq<u8>, Seq<char>>(Seq::empty()));
    assert(bytes + Seq::<u8>::empty() =~= bytes);
}

/// Bytes written as hexadecimal digits can be read, and are read back as
/// themselves: in small letters, as they are written, in capitals or in both,
/// with or without `0x` before them and with white space around.
pub proof fn law_hex_round_trip(
    bytes: Seq<u8>,
    digits: Seq<char>,
    before: Seq<char>,
    after: Seq<char>,
)
    requires
        text::ascii_lower_seq(digits) == hex_text(bytes),
        text::all_white(before),
        text::all_white(after),
    ensures
        hex_readable(before + digits + after),
        bytes_of(before + digits + after) == Ok::<Seq<u8>, Seq<char>>(bytes),
        hex_readable(before + (seq!['0', 'x'] + digits) + after),
        bytes_of(before + (seq!['0', 'x'] + digits) + after) == Ok::<Seq<u8>, Seq<char>>(bytes),
        hex_readable(before + (seq!['0', 'X'] + digits) + after),
        bytes_of(before + (seq!['0', 'X'] + digits) + after) == Ok::<Seq<u8>, Seq<char>>(bytes),
{
    lemma_digits_read_back(bytes, digits);
    if digits.len() > 0 {
        assert(digits.last() == digits[digits.len() - 1]);
        assert(!text::is_white(digits[digits.len() - 1]));
    }
    text::lemma_trim_padded(before, digits, after);
    assert(without_0x(digits) == digits);
    let small = seq!['0', 'x'] + digits;
    let large = seq!['0', 'X'] + digits;
    assert(small.last() == if digits.len() == 0 {
        'x'
    } else {
        digits.last()
    });
    assert(large.last() == if digits.len() == 0 {
        'X'
    } else {
        digits.last()
    });
    text::lemma_trim_padded(before, small, after);
    text::lemma_trim_padded(before, large, after);
    assert(small.skip(2) =~= digits);
    assert(large.skip(2) =~= digits);
}

/// What is written as hexadecimal digits is one of the spellings that are read
/// back.
pub proof fn law_written_digits_are_small(bytes: Seq<u8>)
    ensures
        text::ascii_lower_seq(hex_text(bytes)) == hex_text(bytes),
        text::ascii_lower_seq(text::ascii_upper_seq(hex_text(bytes))) == hex_text(bytes),
{
    let t = hex_text(bytes);
    lemma_hex_text(bytes);
    assert forall|k: int| 0 <= k < t.len() implies text::ascii_lower(#[trigger] t[k]) == t[k]
        && text::ascii_lower(text::ascii_upper(t[k])) == t[k] by {
        let b = bytes[k / 2];
        assert(t[2 * (k / 2)] == byte_text(b)[0]);
        assert(t[2 * (k / 2) + 1] == byte_text(b)[1]);
    }
    assert(text::ascii_lower_seq(t) =~= t);
    assert(text::ascii_lower_seq(text::ascii_upper_seq(t)) =~= t);
}

/// Where the digits of each byte stand.
proof fn lemma_hex_text(bytes: Seq<u8>)
    ensures
        hex_text(bytes).len() == 2 * bytes.len(),
        forall|k: int|
            0 <= k < bytes.len() ==> hex_text(bytes)[2 * k] == (#[trigger] byte_text(bytes[k]))[0]
                && hex_text(bytes)[2 * k + 1] == byte_text(bytes[k])[1],
    decreases bytes.len(),
{
    if bytes.len() > 0 {
        let head = bytes.drop_last();
        lemma_hex_text(head);
        assert forall|k: int| 0 <= k < bytes.len() implies hex_text(bytes)[2 * k]
            == (#[trigger] byte_text(bytes[k]))[0] && hex_text(bytes)[2 * k + 1] == byte_text(
            bytes[k],
        )[1] by {
            if k < head.len() {
                assert(byte_text(head[k]) == byte_text(bytes[k]));
            }
        }
    }
}

/// Two digits with the values of those of a byte are read as the byte.
proof fn lemma_pair_read_back(b: u8, s: Seq<char>)
    requires
        s.len() == 2,
        text::digit(s[0]) == text::digit(byte_text(b)[0]),
        text::digit(s[1]) == text::digit(byte_text(b)[1]),
    ensures
        byte_of(s) == Ok::<u8, Seq<char>>(b),
{
    let hi = b as nat / 16;
    let lo = b as nat % 16;
    assert(text::digit(s[0]) == Some(hi));
    assert(text::digit(s[1]) == Some(lo));
    assert(s.drop_last() =~= seq![s[0]]);
    assert(s.drop_last().drop_last() =~= Seq::<char>::empty());
    assert(text::digits_value(seq![s[0]], 16) == hi) by {
        assert(text::digits_value(Seq::<char>::empty(), 16) == 0);
    }
    assert(text::digits_value(s, 16) == hi * 16 + lo);
    assert(hi * 16 + lo == b);
    assert(text::all_digits(s, 16));
    assert(s[0] != '+');
}

// ---------------------------------------------------------------------------
// Kinds
// ---------------------------------------------------------------------------

/// The kind that a shorthand in small letters stands for.
pub open spec fn shorthand(s: Seq<char>) -> Option<NodeKind> {
    if s == "u8"@ {
        Some(NodeKind::UInt(IntWidth::W8))
    } else if s == "u16"@ {
        Some(NodeKind::UInt(IntWidth::W16))
    } else if s == "u32"@ {
        Some(NodeKind::UInt(IntWidth::W32))
    } else if s == "u64"@ {
        Some(NodeKind::UInt(IntWidth::W64))
    } else if s == "i8"@ {
        Some(NodeKind::Int(IntWidth::W8))
    } else if s == "i16"@ {
        Some(NodeKind::Int(IntWidth::W16))
    } else if s == "i32"@ {
        Some(NodeKind::Int(IntWidth::W32))
    } else if s == "i64"@ {
        Some(NodeKind::Int(IntWidth::W64))
    } else if s == "f32"@ {
        Some(NodeKind::Float32)
    } else if s == "f64"@ {
        Some(NodeKind::Float64)
    } else if s == "bool"@ {
        Some(NodeKind::Bool)
    } else if s == "ptr"@ || s == "pointer"@ {
        Some(NodeKind::Pointer)
    } else if s == "fnptr"@ || s == "functionptr"@ {
        Some(NodeKind::FunctionPtr)
    } else if s == "hex8"@ {
        Some(NodeKind::Hex(IntWidth::W8))
    } else if s == "hex16"@ {
        Some(NodeKind::Hex(IntWidth::W16))
    } else if s == "hex32"@ {
        Some(NodeKind::Hex(IntWidth::W32))
    } else if s == "hex64"@ || s == "hex"@ {
        Some(NodeKind::Hex(IntWidth::W64))
    } else if s == "vec2"@ {
        Some(NodeKind::Vec2)
    } else if s == "vec3"@ {
        Some(NodeKind::Vec3)
    } else if s == "vec4"@ {
        Some(NodeKind::Vec4)
    } else {
        None
    }
}

/// [`shorthand`] of `s`.
fn kind_shorthand(s: &str) -> (r: Option<NodeKind>)
    ensures
        r == shorthand(s@),
{
    if text::str_eq(s, "u8") {
        Some(NodeKind::UInt(IntWidth::W8))
    } else if text::str_eq(s, "u16") {
        Some(NodeKind::UInt(IntWidth::W16))
    } else if text::str_eq(s, "u32") {
        Some(NodeKind::UInt(IntWidth::W32))
    } else if text::str_eq(s, "u64") {
        Some(NodeKind::UInt(IntWidth::W64))
    } else if text::str_eq(s, "i8") {
        Some(NodeKind::Int(IntWidth::W8))
    } else if text::str_eq(s, "i16") {
        Some(NodeKind::Int(IntWidth::W16))
    } else if text::str_eq(s, "i32") {
        Some(NodeKind::Int(IntWidth::W32))
    } else if text::str_eq(s, "i64") {
        Some(NodeKind::Int(IntWidth::W64))
    } else if text::str_eq(s, "f32") {
        Some(NodeKind::Float32)
    } else if text::str_eq(s, "f64") {
        Some(NodeKind::Float64)
    } else if text::str_eq(s, "bool") {
        Some(NodeKind::Bool)
    } else if text::str_eq(s, "ptr") || text::str_eq(s, "pointer") {
        Some(NodeKind::Pointer)
    } else if text::str_eq(s, "fnptr") || text::str_eq(s, "functionptr") {
        Some(NodeKind::FunctionPtr)
    } else if text::str_eq(s, "hex8") {
        Some(NodeKind::Hex(IntWidth::W8))
    } else if text::str_eq(s, "hex16") {
        Some(NodeKind::Hex(IntWidth::W16))
    } else if text::str_eq(s, "hex32") {
        Some(NodeKind::Hex(IntWidth::W32))
    } else if text::str_eq(s, "hex64") || text::str_eq(s, "hex") {
        Some(NodeKind::Hex(IntWidth::W64))
    } else if text::str_eq(s, "vec2") {
        Some(NodeKind::Vec2)
    } else if text::str_eq(s, "vec3") {
        Some(NodeKind::Vec3)
    } else if text::str_eq(s, "vec4") {
        Some(NodeKind::Vec4)
    } else {
        None
    }
}

/// The kind that an argument names: a text by its shorthand, whatever its case;
/// anything else as it was decoded.
pub open spec fn kind_of(v: JsonV, decoded: Arg<NodeKind>) -> Arg<NodeKind> {
    match v.as_str() {
        Some(s) => match shorthand(text::ascii_lower_seq(s)) {
            Some(k) => Ok(k),
            None => Err("unknown kind shorthand '"@ + text::ascii_lower_seq(s) + "'"@),
        },
        None => match decoded {
            Ok(k) => Ok(k),
            Err(e) => Err("invalid kind object: "@ + e),
        },
    }
}

/// Parse the `kind` argument: a shorthand text for common scalars, or a full
/// kind object for complex types, which `decoded` is the outcome of decoding.
pub fn parse_kind(v: &Json, decoded: Result<NodeKind, String>) -> (r: Result<NodeKind, String>)
    ensures
        arg_view(r) == kind_of(v@, arg_view(decoded)),
{
    match v.as_str() {
        Some(s) => {
            let low = text::string_of(&text::lower_chars(&text::chars_of(s)));
            match kind_shorthand(low.as_str()) {
                Some(k) => Ok(k),
                None => Err(text::join3("unknown kind shorthand '", low.as_str(), "'")),
            }
        },
        None => match decoded {
            Ok(k) => Ok(k),
            Err(e) => Err(text::join2("invalid kind object: ", e.as_str())),
        },
    }
}

/// The name of an integer width.
pub open spec fn width_name(w: IntWidth) -> Seq<char> {
    match w {
        IntWidth::W8 => "W8"@,
        IntWidth::W16 => "W16"@,
        IntWidth::W32 => "W32"@,
        IntWidth::W64 => "W64"@,
    }
}

/// The name of a text encoding.
pub open spec fn encoding_name(e: TextEncoding) -> Seq<char> {
    match e {
        TextEncoding::Utf8 => "Utf8"@,
        TextEncoding::Utf16 => "Utf16"@,
    }
}

/// A kind that is carried, as JSON: what its text writes, or the text itself
/// where that is no JSON.
pub open spec fn carried_json(text: Seq<char>) -> JsonV {
    match json_parsed(text) {
        Ok(v) => v,
        Err(_) => JsonV::Str(text),
    }
}

/// [`carried_json`] of `text`.
fn carried_to_json(text: &str) -> (r: Json)
    ensures
        r@ == carried_json(text@),
{
    match parse_json(text) {
        Ok(v) => v,
        Err(_) => Json::text(text),
    }
}

/// A kind as JSON: its name, or an object with its name and what it holds.
pub open spec fn kind_json(kind: NodeKind) -> JsonV
    decreases kind,
{
    match kind {
        NodeKind::Hex(w) => JsonV::Obj(seq![("Hex"@, JsonV::Str(width_name(w)))]),
        NodeKind::Int(w) => JsonV::Obj(seq![("Int"@, JsonV::Str(width_name(w)))]),
        NodeKind::UInt(w) => JsonV::Obj(seq![("UInt"@, JsonV::Str(width_name(w)))]),
        NodeKind::Float32 => JsonV::Str("Float32"@),
        NodeKind::Float64 => JsonV::Str("Float64"@),
        NodeKind::Bool => JsonV::Str("Bool"@),
        NodeKind::Vec2 => JsonV::Str("Vec2"@),
        NodeKind::Vec3 => JsonV::Str("Vec3"@),
        NodeKind::Vec4 => JsonV::Str("Vec4"@),
        NodeKind::Text { encoding, len } => JsonV::Obj(
            seq![
                (
                    "Text"@,
                    JsonV::Obj(
                        seq![
                            ("encoding"@, JsonV::Str(encoding_name(encoding))),
                            ("len"@, JsonV::num(len as nat)),
                        ],
                    ),
                ),
            ],
        ),
        NodeKind::Pointer => JsonV::Str("Pointer"@),
        NodeKind::FunctionPtr => JsonV::Str("FunctionPtr"@),
        NodeKind::Array { element, count } => JsonV::Obj(
            seq![
                (
                    "Array"@,
                    JsonV::Obj(
                        seq![
                            ("element"@, kind_json(*element)),
                            ("count"@, JsonV::num(count as nat)),
                        ],
                    ),
                ),
            ],
        ),
        NodeKind::ClassInstance { class_id } => JsonV::Obj(
            seq![
                (
                    "ClassInstance"@,
                    JsonV::Obj(seq![("class_id"@, JsonV::num(class_id as nat))]),
                ),
            ],
        ),
        NodeKind::ClassPtr { class_id } => JsonV::Obj(
            seq![
                (
                    "ClassPtr"@,
                    JsonV::Obj(seq![("class_id"@, JsonV::num(class_id as nat))]),
                ),
            ],
        ),
        NodeKind::Padding(n) => JsonV::Obj(seq![("Padding"@, JsonV::num(n as nat))]),
        NodeKind::Unknown(n) => JsonV::Obj(seq![("Unknown"@, JsonV::num(n as nat))]),
        NodeKind::Other { size, text } => carried_json(text@),
    }
}

/// [`width_name`] as JSON.
fn width_json(w: IntWidth) -> (r: Json)
    ensures
        r@ == JsonV::Str(width_name(w)),
{
    match w {
        IntWidth::W8 => Json::text("W8"),
        IntWidth::W16 => Json::text("W16"),
        IntWidth::W32 => Json::text("W32"),
        IntWidth::W64 => Json::text("W64"),
    }
}

/// [`kind_json`] of `kind`.
pub fn kind_to_json(kind: &NodeKind) -> (r: Json)
    ensures
        r@ == kind_json(*kind),
    decreases kind,
{
    match kind {
        NodeKind::Hex(w) => obj1("Hex", width_json(*w)),
        NodeKind::Int(w) => obj1("Int", width_json(*w)),
        NodeKind::UInt(w) => obj1("UInt", width_json(*w)),
        NodeKind::Float32 => Json::text("Float32"),
        NodeKind::Float64 => Json::text("Float64"),
        NodeKind::Bool => Json::text("Bool"),
        NodeKind::Vec2 => Json::text("Vec2"),
        NodeKind::Vec3 => Json::text("Vec3"),
        NodeKind::Vec4 => Json::text("Vec4"),
        NodeKind::Text { encoding, len } => {
            let e = match encoding {
                TextEncoding::Utf8 => Json::text("Utf8"),
                TextEncoding::Utf16 => Json::text("Utf16"),
            };
            obj1("Text", obj2("encoding", e, "len", Json::num(*len as u64)))
        },
        NodeKind::Pointer => Json::text("Pointer"),
        NodeKind::FunctionPtr => Json::text("FunctionPtr"),
        NodeKind::Array { element, count } => obj1(
            "Array",
            obj2("element", kind_to_json(element), "count", Json::num(*count as u64)),
        ),
        NodeKind::ClassInstance { class_id } => obj1(
            "ClassInstance",
            obj1("class_id", Json::num(*class_id as u64)),
        ),
        NodeKind::ClassPtr { class_id } => obj1(
            "ClassPtr",
            obj1("class_id", Json::num(*class_id as u64)),
        ),
        NodeKind::Padding(n) => obj1("Padding", Json::num(*n as u64)),
        NodeKind::Unknown(n) => obj1("Unknown", Json::num(*n as u64)),
        NodeKind::Other { size: _, text } => carried_to_json(text.as_str()),
    }
}

/// A language that the classes can be written out in.
#[derive(Clone, Copy, Debug, PartialEq, Eq, Structural)]
pub enum Language {
    Rust,
    C,
    Cpp,
}

/// The language that a name in small letters stands for.
pub open spec fn language_named(s: Seq<char>) -> Option<Language> {
    if s == "rust"@ || s == "rs"@ {
        Some(Language::Rust)
    } else if s == "c"@ {
        Some(Language::C)
    } else if s == "cpp"@ || s == "c++"@ || s == "cxx"@ {
        Some(Language::Cpp)
    } else {
        None
    }
}

/// The language that an argument names, whatever its case.
pub open spec fn language_of(s: Seq<char>) -> Arg<Language> {
    match language_named(text::ascii_lower_seq(s)) {
        Some(l) => Ok(l),
        None => Err("unknown language '"@ + s + "' (use rust, c, or cpp)"@),
    }
}

/// Parse the `lang` argument.
pub fn parse_lang(s: &str) -> (r: Result<Language, String>)
    ensures
        arg_view(r) == language_of(s@),
{
    let low = text::string_of(&text::lower_chars(&text::chars_of(s)));
    let l = low.as_str();
    if text::str_eq(l, "rust") || text::str_eq(l, "rs") {
        Ok(Language::Rust)
    } else if text::str_eq(l, "c") {
        Ok(Language::C)
    } else if text::str_eq(l, "cpp") || text::str_eq(l, "c++") || text::str_eq(l, "cxx") {
        Ok(Language::Cpp)
    } else {
        Err(text::join3("unknown language '", s, "' (use rust, c, or cpp)"))
    }
}

/// A language goes by its names, whatever their case, and by no others.
pub proof fn law_languages_go_by_their_names(s: Seq<char>)
    ensures
        ({
            let low = text::ascii_lower_seq(s);
            &&& low == "rust"@ || low == "rs"@ ==> language_of(s) == Ok::<Language, Seq<char>>(
                Language::Rust,
            )
            &&& low == "c"@ ==> language_of(s) == Ok::<Language, Seq<char>>(Language::C)
            &&& low == "cpp"@ || low == "c++"@ || low == "cxx"@ ==> language_of(s) == Ok::<
                Language,
                Seq<char>,
            >(Language::Cpp)
            &&& language_of(s) is Ok ==> low == "rust"@ || low == "rs"@ || low == "c"@ || low
                == "cpp"@ || low == "c++"@ || low == "cxx"@
        }),
{
    reveal_strlit("rust");
    reveal_strlit("rs");
    reveal_strlit("c");
    reveal_strlit("cpp");
    reveal_strlit("c++");
    reveal_strlit("cxx");
    assert("rust"@.len() == 4 && "rs"@.len() == 2 && "c"@.len() == 1);
    assert("cpp"@.len() == 3 && "c++"@.len() == 3 && "cxx"@.len() == 3);
}

/// A number is taken from the member named, as it stands there or as a text that
/// writes it, in decimal or after `0x` in hexadecimal; it must fit.
pub proof fn law_number_arguments(a: JsonV, key: Seq<char>, n: u64, upper: bool)
    ensures
        a.get(key) == Some(JsonV::Num(NumeralV::Unsigned(n))) || a.get(key) == Some(
            JsonV::Str(text::written(n as nat, 10, false)),
        ) || a.get(key) == Some(JsonV::Str(seq!['0', 'x'] + text::written(n as nat, 16, upper)))
            ==> {
            &&& u64_arg(a, key) == Ok::<u64, Seq<char>>(n)
            &&& n <= u32::MAX ==> u32_arg(a, key) == Ok::<u32, Seq<char>>(n as u32)
            &&& n > u32::MAX ==> u32_arg(a, key) is Err
            &&& n <= usize::MAX ==> usize_arg(a, key) == Ok::<usize, Seq<char>>(n as usize)
        },
        a.get(key) is None ==> u64_arg(a, key) is Err && u32_arg(a, key) is Err && usize_arg(
            a,
            key,
        ) is Err && i32_arg(a, key) is Err && str_arg(a, key) is Err,
{
    let d = text::written(n as nat, 10, false);
    let h = text::written(n as nat, 16, upper);
    let x = seq!['0', 'x'] + h;
    text::lemma_written_reads_back(n as nat, 10, false);
    text::lemma_written_reads_back(n as nat, 16, upper);
    assert forall|k: int| 0 <= k < d.len() implies !text::is_white(#[trigger] d[k]) && d[k] != '+'
        && d[k] != 'x' && d[k] != 'X' by {
        assert(text::is_digit(d[k], 10));
    }
    assert forall|k: int| 0 <= k < h.len() implies !text::is_white(#[trigger] h[k]) && h[k]
        != '+' by {
        assert(text::is_digit(h[k], 16));
    }
    assert(d.last() == d[d.len() - 1]);
    assert(h.last() == h[h.len() - 1]);
    assert(x.last() == h.last());
    assert(x.skip(2) =~= h);
    assert(d.len() > 1 ==> d[1] != 'x' && d[1] != 'X');
    assert(text::trim(d) == d);
    assert(text::trim(x) == x);
}

/// A text is taken from the member named as it stands there.
pub proof fn law_text_arguments(a: JsonV, key: Seq<char>, s: Seq<char>)
    ensures
        a.get(key) == Some(JsonV::Str(s)) ==> str_arg(a, key) == Ok::<Seq<char>, Seq<char>>(s),
        a.get(key) matches Some(v) ==> !(v is Str) ==> str_arg(a, key) is Err,
{
}

/// Bytes are written in their order, each as two digits, the one for its upper
/// half first.
pub proof fn law_hex_keeps_the_order(bytes: Seq<u8>, i: int)
    requires
        0 <= i < bytes.len(),
    ensures
        hex_text(bytes).len() == 2 * bytes.len(),
        text::digit(hex_text(bytes)[2 * i]) == Some(bytes[i] as nat / 16),
        text::digit(hex_text(bytes)[2 * i + 1]) == Some(bytes[i] as nat % 16),
    decreases bytes.len(),
{
    let head = bytes.drop_last();
    let last = byte_text(bytes.last());
    lemma_hex_len(head);
    assert(last[0] == text::digit_char(bytes.last() as nat / 16, false));
    assert(last[1] == text::digit_char(bytes.last() as nat % 16, false));
    if i < head.len() {
        law_hex_keeps_the_order(head, i);
    }
}

proof fn lemma_hex_len(bytes: Seq<u8>)
    ensures
        hex_text(bytes).len() == 2 * bytes.len(),
    decreases bytes.len(),
{
    if bytes.len() > 0 {
        lemma_hex_len(bytes.drop_last());
    }
}

/// A list of numbers stands for the bytes that they are, in their order; one
/// that is no byte makes the whole list unfit.
pub proof fn law_lists_of_bytes_are_read(items: Seq<JsonV>, i: int)
    ensures
        byte_items(items) matches Ok(bytes) ==> bytes.len() == items.len() && (0 <= i < items.len()
            ==> items[i] == JsonV::Num(NumeralV::Unsigned(bytes[i] as u64))),
        byte_items(items) is Err <==> exists|k: int|
            0 <= k < items.len() && !((#[trigger] items[k]) matches JsonV::Num(
                NumeralV::Unsigned(n),
            ) && n <= 255),
    decreases items.len(),
{
    if items.len() > 0 {
        let head = items.drop_last();
        let n = items.len() - 1;
        law_lists_of_bytes_are_read(head, i);
        assert(items[n] == items.last());
        if exists|k: int|
            0 <= k < items.len() && !((#[trigger] items[k]) matches JsonV::Num(
                NumeralV::Unsigned(n),
            ) && n <= 255) {
            let k = choose|k: int|
                0 <= k < items.len() && !((#[trigger] items[k]) matches JsonV::Num(
                    NumeralV::Unsigned(n),
                ) && n <= 255);
            if k < n {
                assert(head[k] == items[k]);
            }
        }
        if byte_items(head) is Err {
            let k = choose|k: int|
                0 <= k < head.len() && !((#[trigger] head[k]) matches JsonV::Num(
                    NumeralV::Unsigned(n),
                ) && n <= 255);
            assert(items[k] == head[k]);
        }
    }
}

/// The bytes to write are taken from the digits, where there are any, else from
/// the list.
pub proof fn law_bytes_to_write(a: JsonV, digits: Seq<char>, items: Seq<JsonV>)
    ensures
        a.get("hex"@) == Some(JsonV::Str(digits)) ==> bytes_arg(a) == bytes_of(digits),
        a.get("hex"@) is None && a.get("bytes"@) == Some(JsonV::Arr(items)) ==> bytes_arg(a)
            == byte_items(items),
        a.get("hex"@) is None && a.get("bytes"@) is None ==> bytes_arg(a) is Err,
{
}

/// The shorthand of an integer tells its bits: `u`, `i` or `hex` and the number
/// of bits of its width, capital or small.
pub proof fn law_shorthands_tell_the_bits(w: IntWidth)
    ensures
        ({
            let bits = text::written(8 * width_bytes(w), 10, false);
            &&& shorthand(seq!['u'] + bits) == Some(NodeKind::UInt(w))
            &&& shorthand(seq!['i'] + bits) == Some(NodeKind::Int(w))
            &&& shorthand(seq!['h', 'e', 'x'] + bits) == Some(NodeKind::Hex(w))
        }),
{
    lemma_shorthand_literals();
    reveal_with_fuel(text::written, 3);
    let n = 8 * width_bytes(w);
    let bits = text::written(n, 10, false);
    match w {
        IntWidth::W8 => {
            assert(bits =~= seq!['8']);
            assert(seq!['u'] + bits =~= "u8"@);
            assert(seq!['i'] + bits =~= "i8"@);
            assert(seq!['h', 'e', 'x'] + bits =~= "hex8"@);
        },
        IntWidth::W16 => {
            assert(text::written(1, 10, false) =~= seq!['1']);
            assert(bits =~= seq!['1', '6']);
            assert(seq!['u'] + bits =~= "u16"@);
            assert(seq!['i'] + bits =~= "i16"@);
            assert(seq!['h', 'e', 'x'] + bits =~= "hex16"@);
        },
        IntWidth::W32 => {
            assert(text::written(3, 10, false) =~= seq!['3']);
            assert(bits =~= seq!['3', '2']);
            assert(seq!['u'] + bits =~= "u32"@);
            assert(seq!['i'] + bits =~= "i32"@);
            assert(seq!['h', 'e', 'x'] + bits =~= "hex32"@);
        },
        IntWidth::W64 => {
            assert(text::written(6, 10, false) =~= seq!['6']);
            assert(bits =~= seq!['6', '4']);
            assert(seq!['u'] + bits =~= "u64"@);
            assert(seq!['i'] + bits =~= "i64"@);
            assert(seq!['h', 'e', 'x'] + bits =~= "hex64"@);
        },
    }
}

/// The shorthands differ in their length or in one of their characters.
proof fn lemma_shorthand_literals()
    ensures
        "u8"@ == seq!['u', '8'],
        "u16"@ == seq!['u', '1', '6'],
        "u32"@ == seq!['u', '3', '2'],
        "u64"@ == seq!['u', '6', '4'],
        "i8"@ == seq!['i', '8'],
        "i16"@ == seq!['i', '1', '6'],
        "i32"@ == seq!['i', '3', '2'],
        "i64"@ == seq!['i', '6', '4'],
        "f32"@ == seq!['f', '3', '2'],
        "f64"@ == seq!['f', '6', '4'],
        "bool"@ == seq!['b', 'o', 'o', 'l'],
        "ptr"@ == seq!['p', 't', 'r'],
        "pointer"@.len() == 7,
        "fnptr"@ == seq!['f', 'n', 'p', 't', 'r'],
        "functionptr"@.len() == 11,
        "hex8"@ == seq!['h', 'e', 'x', '8'],
        "hex16"@ == seq!['h', 'e', 'x', '1', '6'],
        "hex32"@ == seq!['h', 'e', 'x', '3', '2'],
        "hex64"@ == seq!['h', 'e', 'x', '6', '4'],
        "hex"@ == seq!['h', 'e', 'x'],
        "vec2"@ == seq!['v', 'e', 'c', '2'],
        "vec3"@ == seq!['v', 'e', 'c', '3'],
        "vec4"@ == seq!['v', 'e', 'c', '4'],
{
    reveal_strlit("u8");
    reveal_strlit("u16");
    reveal_strlit("u32");
    reveal_strlit("u64");
    reveal_strlit("i8");
    reveal_strlit("i16");
    reveal_strlit("i32");
    reveal_strlit("i64");
    reveal_strlit("f32");
    reveal_strlit("f64");
    reveal_strlit("bool");
    reveal_strlit("ptr");
    reveal_strlit("pointer");
    reveal_strlit("fnptr");
    reveal_strlit("functionptr");
    reveal_strlit("hex8");
    reveal_strlit("hex16");
    reveal_strlit("hex32");
    reveal_strlit("hex64");
    reveal_strlit("hex");
    reveal_strlit("vec2");
    reveal_strlit("vec3");
    reveal_strlit("vec4");
}

/// A kind given by its shorthand does not depend on its case; any other value is
/// what it was decoded to.
pub proof fn law_kinds_are_taken_as_given(
    s: Seq<char>,
    kind: NodeKind,
    v: JsonV,
    decoded: Arg<NodeKind>,
)
    ensures
        shorthand(text::ascii_lower_seq(s)) == Some(kind) ==> kind_of(JsonV::Str(s), decoded) == Ok::<
            NodeKind,
            Seq<char>,
        >(kind),
        shorthand(text::ascii_lower_seq(s)) is None ==> kind_of(JsonV::Str(s), decoded) is Err,
        !(v is Str) && decoded == Ok::<NodeKind, Seq<char>>(kind) ==> kind_of(v, decoded) == Ok::<
            NodeKind,
            Seq<char>,
        >(kind),
        !(v is Str) && decoded is Err ==> kind_of(v, decoded) is Err,
{
}

/// A kind made of others tells its parts: an array its element and how many, a
/// field that leads to a class which one, a text how long it is; an integer tells
/// its width.
pub proof fn law_kinds_tell_their_parts(
    k: NodeKind,
    count: usize,
    id: u32,
    encoding: TextEncoding,
    w: IntWidth,
)
    ensures
        kind_json(NodeKind::Array { element: Box::new(k), count }).get("Array"@) matches Some(j)
            && j.get("element"@) == Some(kind_json(k)) && j.get("count"@) == Some(
            JsonV::num(count as nat),
        ),
        kind_json(NodeKind::ClassPtr { class_id: id }).get("ClassPtr"@) matches Some(j) && j.get(
            "class_id"@,
        ) == Some(JsonV::num(id as nat)),
        kind_json(NodeKind::ClassInstance { class_id: id }).get("ClassInstance"@) matches Some(j)
            && j.get("class_id"@) == Some(JsonV::num(id as nat)),
        kind_json(NodeKind::Text { encoding, len: count }).get("Text"@) matches Some(j) && j.get(
            "len"@,
        ) == Some(JsonV::num(count as nat)),
        kind_json(NodeKind::Padding(count)).get("Padding"@) == Some(JsonV::num(count as nat)),
        kind_json(NodeKind::Unknown(count)).get("Unknown"@) == Some(JsonV::num(count as nat)),
        kind_json(NodeKind::Int(w)).get("Int"@) == Some(JsonV::Str(width_name(w))),
        kind_json(NodeKind::UInt(w)).get("UInt"@) == Some(JsonV::Str(width_name(w))),
        kind_json(NodeKind::Hex(w)).get("Hex"@) == Some(JsonV::Str(width_name(w))),
{
    reveal_strlit("element");
    reveal_strlit("count");
    reveal_strlit("encoding");
    reveal_strlit("len");
    assert("element"@.len() == 7 && "count"@.len() == 5);
    assert("encoding"@.len() == 8 && "len"@.len() == 3);
    let inner = seq![
        ("element"@, kind_json(k)),
        ("count"@, JsonV::num(count as nat)),
    ];
    law_members_are_found_by_name(inner, "count"@, 1);
    let text = seq![
        ("encoding"@, JsonV::Str(encoding_name(encoding))),
        ("len"@, JsonV::num(count as nat)),
    ];
    law_members_are_found_by_name(text, "len"@, 1);
}

} // verus!

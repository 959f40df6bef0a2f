//! JSON values, and how they are read and written as text.

use crate::text;
use serde_json::Value;
use vstd::prelude::*;

verus! {

/// A JSON number: an integer where it is one, else the number as `serde_json`
/// holds it, which is carried and not looked into.
#[derive(Debug, PartialEq, Eq)]
pub enum Numeral {
    Unsigned(u64),
    Negative(i64),
    Real(serde_json::Number),
}

/// A JSON value. An object built here keeps its members in the order in which
/// they were put; one that was read from a text has them sorted by key, since
/// `serde_json` holds them so.
#[derive(Debug, PartialEq, Eq)]
pub enum Json {
    Null,
    Bool(bool),
    Num(Numeral),
    Str(String),
    Arr(Vec<Json>),
    Obj(Vec<(String, Json)>),
}

/// What a [`Numeral`] says.
pub enum NumeralV {
    Unsigned(u64),
    Negative(i64),
    Real(serde_json::Number),
}

/// What a [`Json`] says.
pub enum JsonV {
    Null,
    Bool(bool),
    Num(NumeralV),
    Str(Seq<char>),
    Arr(Seq<JsonV>),
    Obj(Seq<(Seq<char>, JsonV)>),
}

impl View for Numeral {
    type V = NumeralV;

    open spec fn view(&self) -> NumeralV {
        match self {
            Numeral::Unsigned(n) => NumeralV::Unsigned(*n),
            Numeral::Negative(n) => NumeralV::Negative(*n),
            Numeral::Real(n) => NumeralV::Real(*n),
        }
    }
}

impl View for Json {
    type V = JsonV;

    open spec fn view(&self) -> JsonV {
        json_view(*self)
    }
}

/// What a JSON value says.
pub open spec fn json_view(j: Json) -> JsonV
    decreases j,
{
    match j {
        Json::Null => JsonV::Null,
        Json::Bool(b) => JsonV::Bool(b),
        Json::Num(n) => JsonV::Num(n@),
        Json::Str(s) => JsonV::Str(s@),
        Json::Arr(v) => JsonV::Arr(
            Seq::new(
                v@.len(),
                |i: int|
                    if 0 <= i < v@.len() {
                        json_view(v@[i])
                    } else {
                        JsonV::Null
                    },
            ),
        ),
        Json::Obj(v) => JsonV::Obj(
            Seq::new(
                v@.len(),
                |i: int|
                    if 0 <= i < v@.len() {
                        (v@[i].0@, json_view(v@[i].1))
                    } else {
                        (Seq::empty(), JsonV::Null)
                    },
            ),
        ),
    }
}

/// What a list of JSON values says.
pub open spec fn items_view(s: Seq<Json>) -> Seq<JsonV> {
    Seq::new(s.len(), |i: int| s[i]@)
}

/// What the members of an object say.
pub open spec fn members_view(s: Seq<(String, Json)>) -> Seq<(Seq<char>, JsonV)> {
    Seq::new(s.len(), |i: int| (s[i].0@, s[i].1@))
}

// ---------------------------------------------------------------------------
// The model
// ---------------------------------------------------------------------------

/// The first of the members named `key`.
pub open spec fn member_of(ms: Seq<(Seq<char>, JsonV)>, key: Seq<char>) -> Option<JsonV>
    decreases ms.len(),
{
    if ms.len() == 0 {
        None
    } else if ms[0].0 == key {
        Some(ms[0].1)
    } else {
        member_of(ms.skip(1), key)
    }
}

impl JsonV {
    /// The member `key` of an object.
    pub open spec fn get(self, key: Seq<char>) -> Option<JsonV> {
        match self {
            JsonV::Obj(ms) => member_of(ms, key),
            _ => None,
        }
    }

    /// The text, where it is one.
    pub open spec fn as_str(self) -> Option<Seq<char>> {
        match self {
            JsonV::Str(s) => Some(s),
            _ => None,
        }
    }

    /// The number, where it is an integer that a `u64` holds.
    pub open spec fn as_u64(self) -> Option<u64> {
        match self {
            JsonV::Num(NumeralV::Unsigned(n)) => Some(n),
            _ => None,
        }
    }

    /// The number, where it is an integer that an `i64` holds.
    pub open spec fn as_i64(self) -> Option<i64> {
        match self {
            JsonV::Num(NumeralV::Unsigned(n)) => if n <= i64::MAX {
                Some(n as i64)
            } else {
                None
            },
            JsonV::Num(NumeralV::Negative(n)) => Some(n),
            _ => None,
        }
    }

    /// The items, where it is an array.
    pub open spec fn as_array(self) -> Option<Seq<JsonV>> {
        match self {
            JsonV::Arr(v) => Some(v),
            _ => None,
        }
    }

    /// The text of member `key`, where it is one.
    pub open spec fn str_at(self, key: Seq<char>) -> Option<Seq<char>> {
        match self.get(key) {
            Some(v) => v.as_str(),
            None => None,
        }
    }

    /// A number.
    pub open spec fn num(n: nat) -> JsonV {
        JsonV::Num(NumeralV::Unsigned(n as u64))
    }

    /// A number that may be negative.
    pub open spec fn whole(n: int) -> JsonV {
        if n >= 0 {
            JsonV::Num(NumeralV::Unsigned(n as u64))
        } else {
            JsonV::Num(NumeralV::Negative(n as i64))
        }
    }

    /// A text, or null.
    pub open spec fn text_or_null(s: Option<Seq<char>>) -> JsonV {
        match s {
            Some(t) => JsonV::Str(t),
            None => JsonV::Null,
        }
    }
}

// ---------------------------------------------------------------------------
// Reading and building
// ---------------------------------------------------------------------------

impl Numeral {
    /// A copy of the number.
    pub fn dup(&self) -> (r: Numeral)
        ensures
            r@ == self@,
    {
        match self {
            Numeral::Unsigned(n) => Numeral::Unsigned(*n),
            Numeral::Negative(n) => Numeral::Negative(*n),
            Numeral::Real(n) => Numeral::Real(n.clone()),
        }
    }
}

impl Json {
    /// An array.
    pub fn array(items: Vec<Json>) -> (r: Json)
        ensures
            r@ == JsonV::Arr(items_view(items@)),
    {
        let r = Json::Arr(items);
        proof {
            assert(r@->Arr_0 =~= items_view(items@));
        }
        r
    }

    /// An object.
    pub fn object(members: Vec<(String, Json)>) -> (r: Json)
        ensures
            r@ == JsonV::Obj(members_view(members@)),
    {
        let r = Json::Obj(members);
        proof {
            assert(r@->Obj_0 =~= members_view(members@));
        }
        r
    }

    /// A text.
    pub fn text(s: &str) -> (r: Json)
        ensures
            r@ == JsonV::Str(s@),
    {
        Json::Str(s.to_owned())
    }

    /// A number.
    pub fn num(n: u64) -> (r: Json)
        ensures
            r@ == JsonV::num(n as nat),
    {
        Json::Num(Numeral::Unsigned(n))
    }

    /// A number that may be negative.
    pub fn whole(n: i64) -> (r: Json)
        ensures
            r@ == JsonV::whole(n as int),
    {
        if n >= 0 {
            Json::Num(Numeral::Unsigned(n as u64))
        } else {
            Json::Num(Numeral::Negative(n))
        }
    }

    /// A text, or null.
    pub fn text_or_null(s: &Option<String>) -> (r: Json)
        ensures
            r@ == JsonV::text_or_null(text::opt_view(*s)),
    {
        match s {
            Some(t) => Json::Str(t.clone()),
            None => Json::Null,
        }
    }

    /// A copy of the value.
    pub fn dup(&self) -> (r: Json)
        ensures
            r@ == self@,
        decreases self,
    {
        match self {
            Json::Null => Json::Null,
            Json::Bool(b) => Json::Bool(*b),
            Json::Num(n) => Json::Num(n.dup()),
            Json::Str(s) => Json::Str(s.clone()),
            Json::Arr(v) => {
                let mut out: Vec<Json> = Vec::new();
                let mut i: usize = 0;
                while i < v.len()
                    invariant
                        *self == Json::Arr(*v),
                        i <= v@.len(),
                        out@.len() == i,
                        forall|j: int| 0 <= j < i ==> (#[trigger] out@[j])@ == v@[j]@,
                    decreases v@.len() - i,
                {
                    proof {
                        assert(decreases_to!(*self => self->Arr_0));
                        assert(decreases_to!(*v => v@));
                        assert(decreases_to!(v@ => v@[i as int]));
                    }
                    out.push(v[i].dup());
                    i = i + 1;
                }
                let r = Json::array(out);
                proof {
                    assert(r@->Arr_0 =~= self@->Arr_0);
                }
                r
            },
            Json::Obj(v) => {
                let mut out: Vec<(String, Json)> = Vec::new();
                let mut i: usize = 0;
                while i < v.len()
                    invariant
                        *self == Json::Obj(*v),
                        i <= v@.len(),
                        out@.len() == i,
                        forall|j: int|
                            0 <= j < i ==> (#[trigger] out@[j]).0@ == v@[j].0@ && out@[j].1@
                                == v@[j].1@,
                    decreases v@.len() - i,
                {
                    proof {
                        assert(decreases_to!(*self => self->Obj_0));
                        assert(decreases_to!(*v => v@));
                        assert(decreases_to!(v@ => v@[i as int]));
                        assert(decreases_to!(v@[i as int] => v@[i as int].1));
                    }
                    out.push((v[i].0.clone(), v[i].1.dup()));
                    i = i + 1;
                }
                let r = Json::object(out);
                proof {
                    assert(r@->Obj_0 =~= self@->Obj_0);
                }
                r
            },
        }
    }

    /// The member `key` of an object.
    pub fn get(&self, key: &str) -> (r: Option<&Json>)
        ensures
            r is Some == self@.get(key@) is Some,
            r is Some ==> (*r->0)@ == self@.get(key@)->0,
    {
        match self {
            Json::Obj(v) => {
                let ghost all = members_view(v@);
                proof {
                    assert(self@->Obj_0 =~= all);
                    assert(all.skip(0) =~= all);
                }
                let mut i: usize = 0;
                while i < v.len()
                    invariant
                        i <= v@.len(),
                        all == members_view(v@),
                        self@ == JsonV::Obj(all),
                        member_of(all.skip(i as int), key@) == member_of(all, key@),
                    decreases v@.len() - i,
                {
                    proof {
                        assert(all.skip(i as int)[0] == (v@[i as int].0@, v@[i as int].1@));
                        assert(all.skip(i as int).skip(1) =~= all.skip(i + 1));
                    }
                    if text::str_eq(v[i].0.as_str(), key) {
                        return Some(&v[i].1);
                    }
                    i = i + 1;
                }
                None
            },
            _ => None,
        }
    }

    /// The text, where it is one.
    pub fn as_str(&self) -> (r: Option<&str>)
        ensures
            r is Some == self@.as_str() is Some,
            r is Some ==> (r->0)@ == self@.as_str()->0,
    {
        match self {
            Json::Str(s) => Some(s.as_str()),
            _ => None,
        }
    }

    /// The text of member `key`, where it is one.
    pub fn str_at(&self, key: &str) -> (r: Option<&str>)
        ensures
            r is Some == self@.str_at(key@) is Some,
            r is Some ==> (r->0)@ == self@.str_at(key@)->0,
    {
        match self.get(key) {
            Some(v) => v.as_str(),
            None => None,
        }
    }

    /// The number, where it is an integer that a `u64` holds.
    pub fn as_u64(&self) -> (r: Option<u64>)
        ensures
            r == self@.as_u64(),
    {
        match self {
            Json::Num(Numeral::Unsigned(n)) => Some(*n),
            _ => None,
        }
    }

    /// The number, where it is an integer that an `i64` holds.
    pub fn as_i64(&self) -> (r: Option<i64>)
        ensures
            r == self@.as_i64(),
    {
        match self {
            Json::Num(Numeral::Unsigned(n)) => if *n <= i64::MAX as u64 {
                Some(*n as i64)
            } else {
                None
            },
            Json::Num(Numeral::Negative(n)) => Some(*n),
            _ => None,
        }
    }

    /// The items, where it is an array.
    pub fn as_array(&self) -> (r: Option<&Vec<Json>>)
        ensures
            r is Some == self@.as_array() is Some,
            r is Some ==> items_view((*r->0)@) == self@.as_array()->0,
    {
        match self {
            Json::Arr(v) => {
                proof {
                    assert(self@->Arr_0 =~= items_view(v@));
                }
                Some(v)
            },
            _ => None,
        }
    }
}

/// An object under construction.
pub struct Members {
    pub list: Vec<(String, Json)>,
}

impl View for Members {
    type V = Seq<(Seq<char>, JsonV)>;

    open spec fn view(&self) -> Seq<(Seq<char>, JsonV)> {
        members_view(self.list@)
    }
}

impl Members {
    /// No member.
    pub fn new() -> (r: Members)
        ensures
            r@ == Seq::<(Seq<char>, JsonV)>::empty(),
    {
        let r = Members { list: Vec::new() };
        proof {
            assert(r@ =~= Seq::<(Seq<char>, JsonV)>::empty());
        }
        r
    }

    /// One more member.
    pub fn put(&mut self, key: &str, value: Json)
        ensures
            final(self)@ == old(self)@.push((key@, value@)),
    {
        let ghost before = self@;
        self.list.push((key.to_owned(), value));
        proof {
            assert(self@ =~= before.push((key@, value@)));
        }
    }

    /// The object.
    pub fn done(self) -> (r: Json)
        ensures
            r@ == JsonV::Obj(self@),
    {
        Json::object(self.list)
    }
}

/// An object with one member.
pub fn obj1(k: &str, v: Json) -> (r: Json)
    ensures
        r@ == JsonV::Obj(seq![(k@, v@)]),
{
    let mut m = Members::new();
    m.put(k, v);
    proof {
        assert(m@ =~= seq![(k@, v@)]);
    }
    m.done()
}

/// An object with two members.
pub fn obj2(k1: &str, v1: Json, k2: &str, v2: Json) -> (r: Json)
    ensures
        r@ == JsonV::Obj(seq![(k1@, v1@), (k2@, v2@)]),
{
    let mut m = Members::new();
    m.put(k1, v1);
    m.put(k2, v2);
    proof {
        assert(m@ =~= seq![(k1@, v1@), (k2@, v2@)]);
    }
    m.done()
}

/// An object with three members.
pub fn obj3(k1: &str, v1: Json, k2: &str, v2: Json, k3: &str, v3: Json) -> (r: Json)
    ensures
        r@ == JsonV::Obj(seq![(k1@, v1@), (k2@, v2@), (k3@, v3@)]),
{
    let mut m = Members::new();
    m.put(k1, v1);
    m.put(k2, v2);
    m.put(k3, v3);
    proof {
        assert(m@ =~= seq![(k1@, v1@), (k2@, v2@), (k3@, v3@)]);
    }
    m.done()
}

// ---------------------------------------------------------------------------
// JSON text, which `serde_json` reads and writes
// ---------------------------------------------------------------------------

/// What `serde_json` makes of a text: the value that it writes, or the message
/// of the error.
pub uninterp spec fn json_parsed(s: Seq<char>) -> Result<JsonV, Seq<char>>;

/// The text that `serde_json` writes a value as, on one line.
pub uninterp spec fn json_line(j: JsonV) -> Seq<char>;

/// The text that `serde_json` writes a value as, indented.
pub uninterp spec fn json_page(j: JsonV) -> Seq<char>;

/// What an attempt to read JSON says.
pub open spec fn parsed_view(r: Result<Json, String>) -> Result<JsonV, Seq<char>> {
    match r {
        Ok(j) => Ok(j@),
        Err(e) => Err(e@),
    }
}

/// `serde_json::Number`: an integer or a finite real number.
#[verifier::external_type_specification]
#[verifier::external_body]
pub struct ExNumber(serde_json::Number);

/// The `Clone` of `serde_json::Number` copies the number.
pub assume_specification[ <serde_json::Number as Clone>::clone ](n: &serde_json::Number) -> (r:
    serde_json::Number)
    ensures
        r == *n,
;

/// `serde_json::Value`, the value that `serde_json` reads into and writes from;
/// it only passes through the conversions below.
#[verifier::external_type_specification]
#[verifier::external_body]
pub struct ExValue(serde_json::Value);

/// A `serde_json::Value`, member by member, as a [`Json`]. Nothing is claimed of
/// it here: it is the conversion inside [`parse_json`].
#[verifier::external_body]
fn from_value(v: Value) -> (r: Json) {
    match v {
        Value::Null => Json::Null,
        Value::Bool(b) => Json::Bool(b),
        Value::Number(n) => match (n.as_u64(), n.as_i64()) {
            (Some(u), _) => Json::Num(Numeral::Unsigned(u)),
            (None, Some(i)) => Json::Num(Numeral::Negative(i)),
            (None, None) => Json::Num(Numeral::Real(n)),
        },
        Value::String(s) => Json::Str(s),
        Value::Array(a) => Json::Arr(a.into_iter().map(from_value).collect()),
        Value::Object(m) => {
            Json::Obj(m.into_iter().map(|(k, x)| (k, from_value(x))).collect())
        },
    }
}

/// A [`Json`], member by member, as a `serde_json::Value`. Nothing is claimed of
/// it here: it is the conversion inside [`json_to_line`] and [`json_to_page`].
#[verifier::external_body]
fn to_value(j: &Json) -> (r: Value) {
    match j {
        Json::Null => Value::Null,
        Json::Bool(b) => Value::Bool(*b),
        Json::Num(Numeral::Unsigned(n)) => Value::from(*n),
        Json::Num(Numeral::Negative(n)) => Value::from(*n),
        Json::Num(Numeral::Real(n)) => Value::Number(n.clone()),
        Json::Str(s) => Value::from(s.as_str()),
        Json::Arr(v) => Value::Array(v.iter().map(to_value).collect()),
        Json::Obj(v) => Value::Object(
            v.iter().map(|(k, x)| (k.clone(), to_value(x))).collect(),
        ),
    }
}

/// `serde_json::from_str` into a `serde_json::Value`: whether the text is JSON,
/// which value it writes, and the message where it is none, all depend on the
/// text alone.
#[verifier::external_body]
pub(crate) fn parse_json(s: &str) -> (r: Result<Json, String>)
    ensures
        parsed_view(r) == json_parsed(s@),
{
    serde_json::from_str::<Value>(s).map(from_value).map_err(|e| e.to_string())
}

/// `serde_json::Value`'s `Display`: the value's text on one line depends on the
/// value alone.
#[verifier::external_body]
pub(crate) fn json_to_line(j: &Json) -> (r: String)
    ensures
        r@ == json_line(j@),
{
    to_value(j).to_string()
}

/// `serde_json::to_string_pretty` of a `serde_json::Value`: the value's indented
/// text depends on the value alone.
#[verifier::external_body]
pub(crate) fn json_to_page(j: &Json) -> (r: String)
    ensures
        r@ == json_page(j@),
{
    let v = to_value(j);
    serde_json::to_string_pretty(&v).unwrap_or_else(|_| v.to_string())
}

/// A member is found by its name: the first one of that name, wherever it
/// stands; without one there is nothing to find.
pub proof fn law_members_are_found_by_name(
    ms: Seq<(Seq<char>, JsonV)>,
    key: Seq<char>,
    i: int,
)
    ensures
        0 <= i < ms.len() && ms[i].0 == key && (forall|k: int|
            0 <= k < i ==> (#[trigger] ms[k]).0 != key) ==> JsonV::Obj(ms).get(key) == Some(
            ms[i].1,
        ),
        (forall|k: int| 0 <= k < ms.len() ==> (#[trigger] ms[k]).0 != key) ==> JsonV::Obj(
            ms,
        ).get(key) is None,
    decreases ms.len(),
{
    if ms.len() > 0 && ms[0].0 != key {
        let rest = ms.skip(1);
        law_members_are_found_by_name(rest, key, i - 1);
        if 0 <= i < ms.len() && ms[i].0 == key {
            assert(i > 0 && rest[i - 1] == ms[i]);
            if forall|k: int| 0 <= k < i ==> (#[trigger] ms[k]).0 != key {
                assert forall|k: int| 0 <= k < i - 1 implies (#[trigger] rest[k]).0 != key by {
                    assert(rest[k] == ms[k + 1]);
                }
            }
        }
        if forall|k: int| 0 <= k < ms.len() ==> (#[trigger] ms[k]).0 != key {
            assert forall|k: int| 0 <= k < rest.len() implies (#[trigger] rest[k]).0 != key by {
                assert(rest[k] == ms[k + 1]);
            }
        }
    }
}

/// An integer is read back as it was put in, with its sign; a text and a
/// truth are no numbers.
pub proof fn law_integers_are_read_back(n: int, s: Seq<char>, b: bool)
    requires
        i64::MIN <= n <= i64::MAX,
    ensures
        JsonV::whole(n).as_i64() == Some(n as i64),
        n >= 0 ==> JsonV::whole(n).as_u64() == Some(n as u64),
        n < 0 ==> JsonV::whole(n).as_u64() is None,
        JsonV::Str(s).as_i64() is None && JsonV::Str(s).as_u64() is None,
        JsonV::Bool(b).as_i64() is None && JsonV::Bool(b).as_u64() is None,
        JsonV::Str(s).as_str() == Some(s),
        JsonV::text_or_null(Some(s)) == JsonV::Str(s) && JsonV::text_or_null(None) is Null,
{
}

} // verus!

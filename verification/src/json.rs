//! JSON values.
//!
//! [`Json`] is a tree of plain values that the library's logic reads and builds; [`JsonSpec`] is its
//! mathematical value. Reading JSON text and printing it are `serde_json`'s work.

use crate::text;
use serde_json::Value;
use vstd::prelude::*;
use vstd::string::*;

verus! {

/// A JSON number. A number with a fraction or an exponent is kept as the text it prints as.
#[derive(Debug, PartialEq)]
pub enum Number {
    PosInt(u64),
    /// Below zero.
    NegInt(i64),
    Float(String),
}

/// A JSON value. An object holds its members in order.
#[derive(Debug, PartialEq)]
pub enum Json {
    Null,
    Bool(bool),
    Number(Number),
    Str(String),
    Array(Vec<Json>),
    Object(Vec<(String, Json)>),
}

/// The mathematical value of a [`Number`].
pub enum NumberSpec {
    PosInt(u64),
    NegInt(i64),
    Float(Seq<char>),
}

impl View for Number {
    type V = NumberSpec;

    open spec fn view(&self) -> NumberSpec {
        match self {
            Number::PosInt(n) => NumberSpec::PosInt(*n),
            Number::NegInt(n) => NumberSpec::NegInt(*n),
            Number::Float(t) => NumberSpec::Float(t@),
        }
    }
}

/// The mathematical value of a [`Json`].
pub enum JsonSpec {
    Null,
    Bool(bool),
    Number(NumberSpec),
    Str(Seq<char>),
    Array(Seq<JsonSpec>),
    Object(Seq<(Seq<char>, JsonSpec)>),
}

impl Json {
    /// The mathematical value.
    pub open spec fn model(&self) -> JsonSpec
        decreases self,
    {
        match self {
            Json::Null => JsonSpec::Null,
            Json::Bool(b) => JsonSpec::Bool(*b),
            Json::Number(n) => JsonSpec::Number(n@),
            Json::Str(s) => JsonSpec::Str(s@),
            Json::Array(v) => JsonSpec::Array(
                Seq::new(
                    v@.len(),
                    |i: int|
                        if 0 <= i < v@.len() {
                            v@[i].model()
                        } else {
                            JsonSpec::Null
                        },
                ),
            ),
            Json::Object(v) => JsonSpec::Object(
                Seq::new(
                    v@.len(),
                    |i: int|
                        if 0 <= i < v@.len() {
                            (v@[i].0@, v@[i].1.model())
                        } else {
                            (seq![], JsonSpec::Null)
                        },
                ),
            ),
        }
    }
}

/// The values of an array's items.
pub open spec fn items_model(v: Seq<Json>) -> Seq<JsonSpec> {
    Seq::new(v.len(), |i: int| v[i].model())
}

/// The values of an object's members.
pub open spec fn members_model(v: Seq<(String, Json)>) -> Seq<(Seq<char>, JsonSpec)> {
    Seq::new(v.len(), |i: int| (v[i].0@, v[i].1.model()))
}

// ---- reading values -------------------------------------------------------------------------

/// The first member called `key` among the members from `i` on.
pub open spec fn member_from(
    members: Seq<(Seq<char>, JsonSpec)>,
    key: Seq<char>,
    i: int,
) -> Option<JsonSpec>
    decreases members.len() - i,
{
    if i < 0 || i >= members.len() {
        None
    } else if members[i].0 == key {
        Some(members[i].1)
    } else {
        member_from(members, key, i + 1)
    }
}

/// The member called `key`, when the value is an object that has it.
pub open spec fn field(j: JsonSpec, key: Seq<char>) -> Option<JsonSpec> {
    match j {
        JsonSpec::Object(members) => member_from(members, key, 0),
        _ => None,
    }
}

/// The member called `key`, or null.
pub open spec fn field_or_null(j: JsonSpec, key: Seq<char>) -> JsonSpec {
    match field(j, key) {
        Some(v) => v,
        None => JsonSpec::Null,
    }
}

/// The text of a string.
pub open spec fn string_in(j: JsonSpec) -> Option<Seq<char>> {
    match j {
        JsonSpec::Str(s) => Some(s),
        _ => None,
    }
}

/// The value of a number that is a natural number below two to the 64.
pub open spec fn u64_in(j: JsonSpec) -> Option<u64> {
    match j {
        JsonSpec::Number(NumberSpec::PosInt(n)) => Some(n),
        _ => None,
    }
}

/// The value of a number that is an integer in the range of `i64`.
pub open spec fn i64_in(j: JsonSpec) -> Option<i64> {
    match j {
        JsonSpec::Number(NumberSpec::PosInt(n)) => if n <= i64::MAX {
            Some(n as i64)
        } else {
            None
        },
        JsonSpec::Number(NumberSpec::NegInt(n)) => Some(n),
        _ => None,
    }
}

pub open spec fn bool_in(j: JsonSpec) -> Option<bool> {
    match j {
        JsonSpec::Bool(b) => Some(b),
        _ => None,
    }
}

/// The items of an array.
pub open spec fn items_in(j: JsonSpec) -> Option<Seq<JsonSpec>> {
    match j {
        JsonSpec::Array(items) => Some(items),
        _ => None,
    }
}

/// The text of the string member called `key`.
pub open spec fn string_field(j: JsonSpec, key: Seq<char>) -> Option<Seq<char>> {
    string_in(field_or_null(j, key))
}

// A record is written as an object, or as an array that holds its fields in order.

/// The value can hold a record of `n` fields.
pub open spec fn is_record(j: JsonSpec, n: nat) -> bool {
    match j {
        JsonSpec::Object(_) => true,
        JsonSpec::Array(items) => items.len() <= n,
        _ => false,
    }
}

/// The record's field called `name`, the one at `pos`.
pub open spec fn slot(j: JsonSpec, name: Seq<char>, pos: int) -> Option<JsonSpec> {
    match j {
        JsonSpec::Object(_) => field(j, name),
        JsonSpec::Array(items) => if 0 <= pos < items.len() {
            Some(items[pos])
        } else {
            None
        },
        _ => None,
    }
}

/// An optional string in a field: absent or null is no string. A value of another type does not
/// fit.
pub open spec fn optional_string(v: Option<JsonSpec>) -> Option<Option<Seq<char>>> {
    match v {
        None => Some(None),
        Some(JsonSpec::Null) => Some(None),
        Some(JsonSpec::Str(s)) => Some(Some(s)),
        _ => None,
    }
}

impl Json {
    /// The member called `key`.
    pub fn get(&self, key: &str) -> (r: Option<&Json>)
        ensures
            match r {
                Some(v) => field(self.model(), key@) == Some(v.model()),
                None => field(self.model(), key@) is None,
            },
    {
        match self {
            Json::Object(members) => {
                let ghost ms = members_model(members@);
                proof {
                    assert(self.model()->Object_0 =~= ms);
                }
                let mut i: usize = 0;
                while i < members.len()
                    invariant
                        0 <= i <= members@.len(),
                        ms == members_model(members@),
                        self.model() == JsonSpec::Object(ms),
                        member_from(ms, key@, 0) == member_from(ms, key@, i as int),
                    decreases members@.len() - i,
                {
                    assert(ms[i as int] == (members@[i as int].0@, members@[i as int].1.model()));
                    if text::same(members[i].0.as_str(), key) {
                        return Some(&members[i].1);
                    }
                    i += 1;
                }
                None
            },
            _ => None,
        }
    }

    /// The text of a string.
    pub fn as_str(&self) -> (r: Option<&str>)
        ensures
            match r {
                Some(s) => string_in(self.model()) == Some(s@),
                None => string_in(self.model()) is None,
            },
    {
        match self {
            Json::Str(s) => Some(s.as_str()),
            _ => None,
        }
    }

    /// The value of a number that is a `u64`.
    pub fn as_u64(&self) -> (r: Option<u64>)
        ensures
            r == u64_in(self.model()),
    {
        match self {
            Json::Number(Number::PosInt(n)) => Some(*n),
            _ => None,
        }
    }

    /// The value of a number that is an `i64`.
    pub fn as_i64(&self) -> (r: Option<i64>)
        ensures
            r == i64_in(self.model()),
    {
        match self {
            Json::Number(Number::PosInt(n)) => if *n <= i64::MAX as u64 {
                Some(*n as i64)
            } else {
                None
            },
            Json::Number(Number::NegInt(n)) => Some(*n),
            _ => None,
        }
    }

    pub fn as_bool(&self) -> (r: Option<bool>)
        ensures
            r == bool_in(self.model()),
    {
        match self {
            Json::Bool(b) => Some(*b),
            _ => None,
        }
    }

    /// The items of an array.
    pub fn as_array(&self) -> (r: Option<&Vec<Json>>)
        ensures
            match r {
                Some(v) => items_in(self.model()) == Some(items_model(v@)),
                None => items_in(self.model()) is None,
            },
    {
        match self {
            Json::Array(v) => {
                proof {
                    assert(self.model()->Array_0 =~= items_model(v@));
                }
                Some(v)
            },
            _ => None,
        }
    }

    pub fn is_null(&self) -> (r: bool)
        ensures
            r == (self.model() is Null),
    {
        match self {
            Json::Null => true,
            _ => false,
        }
    }

    pub fn is_object(&self) -> (r: bool)
        ensures
            r == (self.model() is Object),
    {
        match self {
            Json::Object(_) => true,
            _ => false,
        }
    }

    /// The text of the string member called `key`.
    pub fn str_field(&self, key: &str) -> (r: Option<&str>)
        ensures
            match r {
                Some(s) => string_field(self.model(), key@) == Some(s@),
                None => string_field(self.model(), key@) is None,
            },
    {
        match self.get(key) {
            Some(v) => v.as_str(),
            None => None,
        }
    }

    /// The number member called `key`, as a `u64`.
    pub fn u64_field(&self, key: &str) -> (r: Option<u64>)
        ensures
            r == u64_in(field_or_null(self.model(), key@)),
    {
        match self.get(key) {
            Some(v) => v.as_u64(),
            None => None,
        }
    }

    /// The boolean member called `key`.
    pub fn bool_field(&self, key: &str) -> (r: Option<bool>)
        ensures
            r == bool_in(field_or_null(self.model(), key@)),
    {
        match self.get(key) {
            Some(v) => v.as_bool(),
            None => None,
        }
    }

    /// The array member called `key`.
    pub fn array_field(&self, key: &str) -> (r: Option<&Vec<Json>>)
        ensures
            match r {
                Some(v) => items_in(field_or_null(self.model(), key@)) == Some(items_model(v@)),
                None => items_in(field_or_null(self.model(), key@)) is None,
            },
    {
        match self.get(key) {
            Some(v) => v.as_array(),
            None => None,
        }
    }

    /// Whether the value can hold a record of `n` fields.
    pub fn is_record(&self, n: usize) -> (r: bool)
        ensures
            r == is_record(self.model(), n as nat),
    {
        match self {
            Json::Object(_) => true,
            Json::Array(v) => v.len() <= n,
            _ => false,
        }
    }

    /// The record's field called `name`, the one at `pos`.
    pub fn slot(&self, name: &str, pos: usize) -> (r: Option<&Json>)
        ensures
            match r {
                Some(v) => slot(self.model(), name@, pos as int) == Some(v.model()),
                None => slot(self.model(), name@, pos as int) is None,
            },
    {
        match self {
            Json::Object(_) => self.get(name),
            Json::Array(v) => if pos < v.len() {
                Some(&v[pos])
            } else {
                None
            },
            _ => None,
        }
    }

    /// The field's string, when it holds one; an error when it holds something else.
    pub fn optional_string(&self, name: &str, pos: usize) -> (r: Result<Option<String>, ()>)
        ensures
            match r {
                Ok(s) => optional_string(slot(self.model(), name@, pos as int)) == Some(
                    text::opt_view(s),
                ),
                Err(_) => optional_string(slot(self.model(), name@, pos as int)) is None,
            },
    {
        match self.slot(name, pos) {
            None => Ok(None),
            Some(Json::Null) => Ok(None),
            Some(Json::Str(s)) => Ok(Some(s.clone())),
            _ => Err(()),
        }
    }

    /// The value again.
    pub fn copy(&self) -> (r: Json)
        ensures
            r.model() == self.model(),
        decreases self,
    {
        match self {
            Json::Null => Json::Null,
            Json::Bool(b) => Json::Bool(*b),
            Json::Number(n) => Json::Number(n.copy()),
            Json::Str(s) => Json::Str(s.clone()),
            Json::Array(v) => {
                let mut out: Vec<Json> = Vec::new();
                let mut i: usize = 0;
                while i < v.len()
                    invariant
                        0 <= i <= v@.len(),
                        *self == Json::Array(*v),
                        out@.len() == i,
                        forall|k: int| 0 <= k < i ==> (#[trigger] out@[k]).model() == v@[k].model(),
                    decreases v@.len() - i,
                {
                    let item = &v[i];
                    assert(decreases_to!(*self => self->Array_0));
                    assert(decreases_to!(v => v@));
                    assert(decreases_to!(v@ => v@[i as int]));
                    out.push(item.copy());
                    i += 1;
                }
                let r = Json::Array(out);
                proof {
                    assert(r.model()->Array_0 =~= self.model()->Array_0);
                }
                r
            },
            Json::Object(v) => {
                let mut out: Vec<(String, Json)> = Vec::new();
                let mut i: usize = 0;
                while i < v.len()
                    invariant
                        0 <= i <= v@.len(),
                        *self == Json::Object(*v),
                        out@.len() == i,
                        forall|k: int|
                            0 <= k < i ==> (#[trigger] out@[k]).0@ == v@[k].0@ && out@[k].1.model()
                                == v@[k].1.model(),
                    decreases v@.len() - i,
                {
                    let item = &v[i].1;
                    assert(decreases_to!(*self => self->Object_0));
                    assert(decreases_to!(v => v@));
                    assert(decreases_to!(v@ => v@[i as int]));
                    assert(decreases_to!(v@[i as int] => v@[i as int].1));
                    out.push((v[i].0.clone(), item.copy()));
                    i += 1;
                }
                let r = Json::Object(out);
                proof {
                    assert(r.model()->Object_0 =~= self.model()->Object_0);
                }
                r
            },
        }
    }
}

impl Number {
    /// The number again.
    pub fn copy(&self) -> (r: Number)
        ensures
            r@ == self@,
    {
        match self {
            Number::PosInt(n) => Number::PosInt(*n),
            Number::NegInt(n) => Number::NegInt(*n),
            Number::Float(t) => Number::Float(t.clone()),
        }
    }
}

// ---- building values ------------------------------------------------------------------------

/// The string `s`.
pub fn string(s: &str) -> (r: Json)
    ensures
        r.model() == JsonSpec::Str(s@),
{
    Json::Str(s.to_string())
}

/// The boolean `b`.
pub fn boolean(b: bool) -> (r: Json)
    ensures
        r.model() == JsonSpec::Bool(b),
{
    Json::Bool(b)
}

/// The natural number `n`.
pub fn uint(n: u64) -> (r: Json)
    ensures
        r.model() == JsonSpec::Number(NumberSpec::PosInt(n)),
{
    Json::Number(Number::PosInt(n))
}

/// The members with `key` set to `value`: in its place when there is one, else at the end.
pub open spec fn with_key(
    members: Seq<(Seq<char>, JsonSpec)>,
    key: Seq<char>,
    value: JsonSpec,
) -> Seq<(Seq<char>, JsonSpec)> {
    let at = key_index(members, key, 0);
    if at < members.len() {
        members.update(at, (key, value))
    } else {
        members.push((key, value))
    }
}

/// The first position at or after `i` of a member called `key`, or the number of members.
pub open spec fn key_index(members: Seq<(Seq<char>, JsonSpec)>, key: Seq<char>, i: int) -> int
    decreases members.len() - i,
{
    if i < 0 || i >= members.len() {
        members.len() as int
    } else if members[i].0 == key {
        i
    } else {
        key_index(members, key, i + 1)
    }
}

/// Sets the member called `key`.
pub fn set(members: &mut Vec<(String, Json)>, key: &str, value: Json)
    ensures
        members_model(final(members)@) == with_key(
            members_model(old(members)@),
            key@,
            value.model(),
        ),
{
    let ghost before = members_model(members@);
    let ghost was = members@;
    let mut i: usize = 0;
    while i < members.len() && !text::same(members[i].0.as_str(), key)
        invariant
            0 <= i <= members@.len(),
            members@ == was,
            before == members_model(was),
            key_index(before, key@, 0) == key_index(before, key@, i as int),
        decreases members@.len() - i,
    {
        assert(before[i as int].0 == members@[i as int].0@);
        i += 1;
    }
    if i < members.len() {
        assert(before[i as int].0 == members@[i as int].0@);
        members.set(i, (key.to_string(), value));
        assert(members_model(members@) =~= before.update(i as int, (key@, value.model())));
    } else {
        put(members, key, value);
    }
}

// The members of an object, in order.

pub open spec fn pairs1(
    k1: Seq<char>,
    v1: JsonSpec,
) -> Seq<(Seq<char>, JsonSpec)> {
    Seq::empty().push((k1, v1))
}

pub open spec fn pairs2(
    k1: Seq<char>,
    v1: JsonSpec,
    k2: Seq<char>,
    v2: JsonSpec,
) -> Seq<(Seq<char>, JsonSpec)> {
    Seq::empty().push((k1, v1)).push((k2, v2))
}

pub open spec fn pairs3(
    k1: Seq<char>,
    v1: JsonSpec,
    k2: Seq<char>,
    v2: JsonSpec,
    k3: Seq<char>,
    v3: JsonSpec,
) -> Seq<(Seq<char>, JsonSpec)> {
    Seq::empty().push((k1, v1)).push((k2, v2)).push((k3, v3))
}

pub open spec fn pairs4(
    k1: Seq<char>,
    v1: JsonSpec,
    k2: Seq<char>,
    v2: JsonSpec,
    k3: Seq<char>,
    v3: JsonSpec,
    k4: Seq<char>,
    v4: JsonSpec,
) -> Seq<(Seq<char>, JsonSpec)> {
    Seq::empty().push((k1, v1)).push((k2, v2)).push((k3, v3)).push((k4, v4))
}

pub open spec fn pairs6(
    k1: Seq<char>,
    v1: JsonSpec,
    k2: Seq<char>,
    v2: JsonSpec,
    k3: Seq<char>,
    v3: JsonSpec,
    k4: Seq<char>,
    v4: JsonSpec,
    k5: Seq<char>,
    v5: JsonSpec,
    k6: Seq<char>,
    v6: JsonSpec,
) -> Seq<(Seq<char>, JsonSpec)> {
    Seq::empty().push((k1, v1)).push((k2, v2)).push((k3, v3)).push((k4, v4)).push((k5, v5)).push((k6, v6))
}

/// The value of the integer `n`.
pub open spec fn int_spec(n: i64) -> JsonSpec {
    if n >= 0 {
        JsonSpec::Number(NumberSpec::PosInt(n as u64))
    } else {
        JsonSpec::Number(NumberSpec::NegInt(n))
    }
}

/// The integer `n`.
pub fn sint(n: i64) -> (r: Json)
    ensures
        r.model() == int_spec(n),
{
    if n >= 0 {
        Json::Number(Number::PosInt(n as u64))
    } else {
        Json::Number(Number::NegInt(n))
    }
}

/// The array of `items`.
pub fn array(items: Vec<Json>) -> (r: Json)
    ensures
        r.model() == JsonSpec::Array(items_model(items@)),
{
    let r = Json::Array(items);
    proof {
        assert(r.model()->Array_0 =~= items_model(items@));
    }
    r
}

/// The object with these members.
pub fn object(members: Vec<(String, Json)>) -> (r: Json)
    ensures
        r.model() == JsonSpec::Object(members_model(members@)),
{
    let r = Json::Object(members);
    proof {
        assert(r.model()->Object_0 =~= members_model(members@));
    }
    r
}

/// No members.
pub fn members() -> (r: Vec<(String, Json)>)
    ensures
        members_model(r@) == Seq::<(Seq<char>, JsonSpec)>::empty(),
{
    let r: Vec<(String, Json)> = Vec::new();
    assert(members_model(r@) =~= Seq::empty());
    r
}

/// Appends a member.
pub fn put(members: &mut Vec<(String, Json)>, key: &str, value: Json)
    ensures
        members_model(final(members)@) == members_model(old(members)@).push((key@, value.model())),
{
    let ghost before = members@;
    members.push((key.to_string(), value));
    assert(members_model(members@) =~= members_model(before).push((key@, value.model())));
}

/// Appends an item.
pub fn add_item(items: &mut Vec<Json>, value: Json)
    ensures
        items_model(final(items)@) == items_model(old(items)@).push(value.model()),
{
    let ghost before = items@;
    items.push(value);
    assert(items_model(items@) =~= items_model(before).push(value.model()));
}

/// No items.
pub fn items() -> (r: Vec<Json>)
    ensures
        items_model(r@) == Seq::<JsonSpec>::empty(),
{
    let r: Vec<Json> = Vec::new();
    assert(items_model(r@) =~= Seq::empty());
    r
}

/// The values of an array of strings.
pub open spec fn strings_spec(v: Seq<Seq<char>>) -> JsonSpec {
    JsonSpec::Array(Seq::new(v.len(), |i: int| JsonSpec::Str(v[i])))
}

/// The array of the given strings.
pub fn strings(v: &Vec<String>) -> (r: Json)
    ensures
        r.model() == strings_spec(text::views(v@)),
{
    let mut out: Vec<Json> = Vec::new();
    let mut i: usize = 0;
    while i < v.len()
        invariant
            0 <= i <= v@.len(),
            out@.len() == i,
            forall|k: int| 0 <= k < i ==> (#[trigger] out@[k]).model() == JsonSpec::Str(v@[k]@),
        decreases v@.len() - i,
    {
        out.push(string(v[i].as_str()));
        i += 1;
    }
    proof {
        assert(items_model(out@) =~= strings_spec(text::views(v@))->Array_0);
    }
    array(out)
}

// ---- text -----------------------------------------------------------------------------------

/// A value that is nested at most `depth` deep, whose numbers are all integers, and whose objects
/// list their members in dictionary order of the keys, no key twice: a value in the form that
/// `serde_json` itself keeps.
pub open spec fn canonical(v: JsonSpec, depth: nat) -> bool
    decreases depth,
{
    match v {
        JsonSpec::Number(NumberSpec::NegInt(n)) => n < 0,
        JsonSpec::Number(NumberSpec::Float(_)) => false,
        JsonSpec::Array(items) => depth > 0 && forall|i: int|
            0 <= i < items.len() ==> canonical(#[trigger] items[i], (depth - 1) as nat),
        JsonSpec::Object(members) => {
            &&& depth > 0
            &&& forall|i: int|
                0 <= i < members.len() ==> canonical(
                    (#[trigger] members[i]).1,
                    (depth - 1) as nat,
                )
            &&& forall|i: int, j: int|
                0 <= i < j < members.len() ==> text::precedes(
                    (#[trigger] members[i]).0,
                    (#[trigger] members[j]).0,
                )
        },
        _ => true,
    }
}

/// An object that lists its members in dictionary order of the keys, no key twice; any other value.
pub open spec fn keys_increase(v: JsonSpec) -> bool {
    v matches JsonSpec::Object(members) ==> forall|i: int, j: int|
        0 <= i < j < members.len() ==> text::precedes(
            (#[trigger] members[i]).0,
            (#[trigger] members[j]).0,
        )
}

/// A text without line breaks.
pub open spec fn one_line(s: Seq<char>) -> bool {
    forall|i: int| 0 <= i < s.len() ==> s[i] != '\n' && s[i] != '\r'
}

/// A text in braces.
pub open spec fn braced(s: Seq<char>) -> bool {
    s.len() >= 2 && s[0] == '{' && s.last() == '}'
}

/// How deep `serde_json` reads: a value nested deeper is refused.
pub const MAX_DEPTH: u64 = 127;

/// What `serde_json` reads in a text: the value, or its error message.
pub uninterp spec fn json_parsed(text: Seq<char>) -> Result<JsonSpec, Seq<char>>;

/// A text reads as a value.
pub open spec fn reads_as(text: Seq<char>, value: JsonSpec) -> bool {
    json_parsed(text) == Ok::<JsonSpec, Seq<char>>(value)
}

/// The compact text of a value as `serde_json` prints it.
pub uninterp spec fn json_printed(value: JsonSpec) -> Seq<char>;

/// What `serde_json` makes of the text of a floating-point number as its own printed form, when
/// the number is finite.
pub uninterp spec fn float_printed(text: Seq<char>) -> Option<Seq<char>>;

/// A JSON value as `serde_json` holds it.
#[verifier::external_type_specification]
#[verifier::external_body]
pub struct ExValue(serde_json::Value);

/// A `serde_json::Value` as plain values, one variant for each. A number that is neither a `u64`
/// nor an `i64` becomes the text that the crate prints for it.
#[verifier::external_body]
fn from_value(value: &Value) -> Json {
    match value {
        Value::Null => Json::Null,
        Value::Bool(b) => Json::Bool(*b),
        Value::Number(n) => Json::Number(match (n.as_u64(), n.as_i64()) {
            (Some(u), _) => Number::PosInt(u),
            (_, Some(i)) => Number::NegInt(i),
            _ => Number::Float(n.to_string()),
        }),
        Value::String(s) => Json::Str(s.clone()),
        Value::Array(v) => Json::Array(v.iter().map(from_value).collect()),
        Value::Object(m) => Json::Object(
            m.iter().map(|(k, v)| (k.clone(), from_value(v))).collect()),
    }
}

/// Plain values as a `serde_json::Value`, one variant for each. The text of a number with a fraction
/// is read back as that number.
#[verifier::external_body]
fn to_value(value: &Json) -> Value {
    match value {
        Json::Null => Value::Null,
        Json::Bool(b) => (*b).into(),
        Json::Number(Number::PosInt(n)) => (*n).into(),
        Json::Number(Number::NegInt(n)) => (*n).into(),
        Json::Number(Number::Float(t)) => t.parse().ok().and_then(serde_json::Number::from_f64).into(),
        Json::Str(s) => s.clone().into(),
        Json::Array(v) => v.iter().map(to_value).collect(),
        Json::Object(m) => m.iter().map(|(k, v)| (k.clone(), to_value(v))).collect(),
    }
}

/// `serde_json::from_str` into a `serde_json::Value`, whose contents become plain values. Whether a
/// text is JSON, what it holds, and the error's message depend on the text alone. The crate keeps an
/// object's members in dictionary order of the keys, each key once.
#[verifier::external_body]
pub(crate) fn parse(text: &str) -> (r: Result<Json, String>)
    ensures
        match r {
            Ok(value) => json_parsed(text@) == Ok::<_, Seq<char>>(value.model()) && keys_increase(
                value.model(),
            ),
            Err(e) => json_parsed(text@) == Err::<JsonSpec, _>(e@),
        },
{
    match serde_json::from_str::<serde_json::Value>(text) {
        Ok(value) => Ok(from_value(&value)),
        Err(e) => Err(e.to_string()),
    }
}

/// The `Display` of the `serde_json::Value` with the same contents: compact JSON text, which
/// depends on the value alone. It holds no line break, an object's stands in braces, and reading it
/// gives back a value of the form that the crate keeps, as long as its depth stays within the
/// reader's limit. Of a number with a fraction nothing is said: the crate's reader may round it
/// otherwise.
#[verifier::external_body]
pub(crate) fn print(value: &Json) -> (r: String)
    ensures
        r@ == json_printed(value.model()),
        one_line(r@),
        value.model() is Object ==> braced(r@),
        canonical(value.model(), MAX_DEPTH as nat) ==> reads_as(r@, value.model()),
{
    to_value(value).to_string()
}

/// The indented text of a value as `serde_json` prints it.
pub uninterp spec fn json_pretty(value: JsonSpec) -> Seq<char>;

/// `serde_json::to_string_pretty` of the `serde_json::Value` with the same contents: indented JSON
/// text, which depends on the value alone. Reading it gives back a value of the form that the crate
/// keeps, as long as its depth stays within the reader's limit. Writing a value to memory does not
/// fail.
#[verifier::external_body]
pub(crate) fn print_pretty(value: &Json) -> (r: String)
    ensures
        r@ == json_pretty(value.model()),
        canonical(value.model(), MAX_DEPTH as nat) ==> reads_as(r@, value.model()),
{
    serde_json::to_string_pretty(&to_value(value)).unwrap_or_default()
}

/// `str::parse` of a floating-point number followed by `serde_json::Number::from_f64` and its
/// `Display`: the text that the number prints as, or nothing where the text is no finite number.
#[verifier::external_body]
pub(crate) fn print_float(text: &str) -> (r: Option<String>)
    ensures
        text::opt_view(r) == float_printed(text@),
{
    text.parse().ok().and_then(serde_json::Number::from_f64).map(|n| n.to_string())
}

proof fn lemma_member(members: Seq<(Seq<char>, JsonSpec)>, key: Seq<char>, i: int, at: int)
    requires
        0 <= i <= at <= members.len(),
        forall|k: int| i <= k < at ==> (#[trigger] members[k]).0 != key,
        at < members.len() ==> members[at].0 == key,
    ensures
        member_from(members, key, i) == (if at < members.len() {
            Some(members[at].1)
        } else {
            None
        }),
    decreases at - i,
{
    if i < at {
        assert(members[i].0 != key);
        lemma_member(members, key, i + 1, at);
    }
}

/// An object gives what stands under a name.
pub proof fn a_member_is_found(members: Seq<(Seq<char>, JsonSpec)>, at: int)
    requires
        0 <= at < members.len(),
        forall|k: int| 0 <= k < at ==> (#[trigger] members[k]).0 != members[at].0,
    ensures
        field(JsonSpec::Object(members), members[at].0) == Some(members[at].1),
{
    lemma_member(members, members[at].0, 0, at);
}

/// An object gives nothing under a name that none of its members has, nor does a value that is no
/// object.
pub proof fn an_absent_member_is_none(members: Seq<(Seq<char>, JsonSpec)>, key: Seq<char>)
    requires
        forall|k: int| 0 <= k < members.len() ==> (#[trigger] members[k]).0 != key,
    ensures
        field(JsonSpec::Object(members), key) is None,
        forall|v: JsonSpec| !(v is Object) ==> #[trigger] field(v, key) is None,
{
    lemma_member(members, key, 0, members.len() as int);
}

} // verus!

//! The library's model of a JSON document, and the reads and updates that
//! the protocol logic performs on it.

use vstd::prelude::*;
use crate::text::{chars_of, chars_eq};
use serde_json::Value;
use vstd::utf8::encode_utf8;

verus! {

broadcast use vstd::string::group_string_axioms;

/// A JSON value. Numbers are kept as the three kinds JSON readers produce:
/// non-negative integers, negative integers, and other numbers by their text.
#[derive(Debug, PartialEq)]
pub enum Json {
    Null,
    Bool(bool),
    UInt(u64),
    NegInt(i64),
    Float(String),
    Str(String),
    Array(Vec<Json>),
    /// Members in order; keys are distinct in well-formed documents.
    Object(Vec<(String, Json)>),
}

/// Mathematical view of a [`Json`] value.
pub enum JsonV {
    Null,
    Bool(bool),
    UInt(u64),
    NegInt(i64),
    Float(Seq<char>),
    Str(Seq<char>),
    Array(Seq<JsonV>),
    Object(Seq<(Seq<char>, JsonV)>),
}

pub open spec fn json_view(j: Json) -> JsonV
    decreases j,
{
    match j {
        Json::Null => JsonV::Null,
        Json::Bool(b) => JsonV::Bool(b),
        Json::UInt(n) => JsonV::UInt(n),
        Json::NegInt(n) => JsonV::NegInt(n),
        Json::Float(s) => JsonV::Float(s@),
        Json::Str(s) => JsonV::Str(s@),
        Json::Array(items) => JsonV::Array(items_view(items@)),
        Json::Object(fields) => JsonV::Object(fields_view(fields@)),
    }
}

pub open spec fn items_view(s: Seq<Json>) -> Seq<JsonV>
    decreases s,
{
    if s.len() == 0 {
        Seq::empty()
    } else {
        seq![json_view(s[0])] + items_view(s.drop_first())
    }
}

pub open spec fn fields_view(s: Seq<(String, Json)>) -> Seq<(Seq<char>, JsonV)>
    decreases s,
{
    if s.len() == 0 {
        Seq::empty()
    } else {
        seq![(s[0].0@, json_view(s[0].1))] + fields_view(s.drop_first())
    }
}

impl View for Json {
    type V = JsonV;

    open spec fn view(&self) -> JsonV {
        json_view(*self)
    }
}

pub proof fn lemma_items_view(s: Seq<Json>)
    ensures
        items_view(s).len() == s.len(),
        forall|i: int| 0 <= i < s.len() ==> #[trigger] items_view(s)[i] == json_view(s[i]),
    decreases s.len(),
{
    if s.len() > 0 {
        lemma_items_view(s.drop_first());
        assert forall|i: int| 0 <= i < s.len() implies #[trigger] items_view(s)[i] == json_view(s[i]) by {
            if i > 0 {
                assert(items_view(s)[i] == items_view(s.drop_first())[i - 1]);
            }
        }
    }
}

pub proof fn lemma_fields_view(s: Seq<(String, Json)>)
    ensures
        fields_view(s).len() == s.len(),
        forall|i: int| 0 <= i < s.len() ==> #[trigger] fields_view(s)[i] == (s[i].0@, json_view(s[i].1)),
    decreases s.len(),
{
    if s.len() > 0 {
        lemma_fields_view(s.drop_first());
        assert forall|i: int| 0 <= i < s.len() implies #[trigger] fields_view(s)[i] == (s[i].0@, json_view(s[i].1)) by {
            if i > 0 {
                assert(fields_view(s)[i] == fields_view(s.drop_first())[i - 1]);
            }
        }
    }
}

/// Views of items pushed one after another.
pub proof fn lemma_items_view_push(s: Seq<Json>, j: Json)
    ensures
        items_view(s.push(j)) == items_view(s).push(json_view(j)),
{
    lemma_items_view(s);
    lemma_items_view(s.push(j));
    assert(items_view(s.push(j)) =~= items_view(s).push(json_view(j)));
}

/// Views of members pushed one after another.
pub proof fn lemma_fields_view_push(s: Seq<(String, Json)>, f: (String, Json))
    ensures
        fields_view(s.push(f)) == fields_view(s).push((f.0@, json_view(f.1))),
{
    lemma_fields_view(s);
    lemma_fields_view(s.push(f));
    assert(fields_view(s.push(f)) =~= fields_view(s).push((f.0@, json_view(f.1))));
}

// ---------------------------------------------------------------------------
// Reads
// ---------------------------------------------------------------------------

/// Index of the first member named `key` from `i` on, or -1.
pub open spec fn field_index_from(fields: Seq<(Seq<char>, JsonV)>, key: Seq<char>, i: int) -> int
    decreases fields.len() - i,
{
    if i < 0 || i >= fields.len() {
        -1
    } else if fields[i].0 == key {
        i
    } else {
        field_index_from(fields, key, i + 1)
    }
}

/// Index of the first member named `key`, or -1.
pub open spec fn field_index(fields: Seq<(Seq<char>, JsonV)>, key: Seq<char>) -> int {
    field_index_from(fields, key, 0)
}

pub proof fn lemma_field_index_from(fields: Seq<(Seq<char>, JsonV)>, key: Seq<char>, i: int)
    requires
        0 <= i,
    ensures
        field_index_from(fields, key, i) == -1 || (i <= field_index_from(fields, key, i) < fields.len()
            && fields[field_index_from(fields, key, i)].0 == key),
        forall|k: int| i <= k < fields.len() && (field_index_from(fields, key, i) == -1 || k < field_index_from(fields, key, i))
            ==> #[trigger] fields[k].0 != key,
    decreases fields.len() - i,
{
    if i < fields.len() && fields[i].0 != key {
        lemma_field_index_from(fields, key, i + 1);
    }
}

/// The member named `key` of an object (the first one), if any.
pub open spec fn jget(v: JsonV, key: Seq<char>) -> Option<JsonV> {
    match v {
        JsonV::Object(fields) => {
            let i = field_index(fields, key);
            if i >= 0 {
                Some(fields[i].1)
            } else {
                None
            }
        },
        _ => None,
    }
}

/// `v[key]` as JSON indexing reads it: the member, or `null` when there is none.
pub open spec fn jidx(v: JsonV, key: Seq<char>) -> JsonV {
    match jget(v, key) {
        Some(x) => x,
        None => JsonV::Null,
    }
}

/// The string held by a value, if it is one.
pub open spec fn jstr(v: JsonV) -> Option<Seq<char>> {
    match v {
        JsonV::Str(s) => Some(s),
        _ => None,
    }
}

/// The value as an unsigned 64-bit integer, if it is one.
pub open spec fn ju64(v: JsonV) -> Option<u64> {
    match v {
        JsonV::UInt(n) => Some(n),
        _ => None,
    }
}

/// The value as a boolean, if it is one.
pub open spec fn jbool(v: JsonV) -> Option<bool> {
    match v {
        JsonV::Bool(b) => Some(b),
        _ => None,
    }
}

/// View of an optional reference to a value.
pub open spec fn opt_view(o: Option<&Json>) -> Option<JsonV> {
    match o {
        Some(j) => Some(j@),
        None => None,
    }
}

/// Whether two texts are equal.
pub fn str_eq(a: &str, b: &str) -> (r: bool)
    ensures
        r == (a@ == b@),
{
    let ac = chars_of(a);
    let bc = chars_of(b);
    chars_eq(&ac, &bc)
}

/// Position of the first member named `key`.
pub fn find_field(fields: &Vec<(String, Json)>, key: &str) -> (r: Option<usize>)
    ensures
        match r {
            Some(i) => i == field_index(fields_view(fields@), key@) && i < fields@.len(),
            None => field_index(fields_view(fields@), key@) == -1,
        },
{
    proof {
        lemma_fields_view(fields@);
        lemma_field_index_from(fields_view(fields@), key@, 0);
    }
    let mut i: usize = 0;
    while i < fields.len()
        invariant
            i <= fields@.len(),
            fields_view(fields@).len() == fields@.len(),
            forall|k: int| 0 <= k < fields@.len() ==> #[trigger] fields_view(fields@)[k] == (fields@[k].0@, json_view(fields@[k].1)),
            field_index(fields_view(fields@), key@) == field_index_from(fields_view(fields@), key@, i as int),
        decreases fields@.len() - i,
    {
        assert(fields_view(fields@)[i as int].0 == fields@[i as int].0@);
        if str_eq(fields[i].0.as_str(), key) {
            return Some(i);
        }
        i = i + 1;
    }
    None
}

impl Json {
    /// A string value.
    pub fn string(s: &str) -> (r: Json)
        ensures
            r@ == JsonV::Str(s@),
    {
        Json::Str(String::from_str(s))
    }

    /// The member `key` of an object (the first one so named).
    pub fn get(&self, key: &str) -> (r: Option<&Json>)
        ensures
            opt_view(r) == jget(self@, key@),
    {
        match self {
            Json::Object(fields) => {
                proof {
                    lemma_fields_view(fields@);
                    lemma_field_index_from(fields_view(fields@), key@, 0);
                }
                let mut i: usize = 0;
                while i < fields.len()
                    invariant
                        i <= fields@.len(),
                        self@ == JsonV::Object(fields_view(fields@)),
                        fields_view(fields@).len() == fields@.len(),
                        forall|k: int| 0 <= k < fields@.len() ==> #[trigger] fields_view(fields@)[k] == (fields@[k].0@, json_view(fields@[k].1)),
                        field_index(fields_view(fields@), key@) == field_index_from(fields_view(fields@), key@, i as int),
                    decreases fields@.len() - i,
                {
                    assert(fields_view(fields@)[i as int].0 == fields@[i as int].0@);
                    if str_eq(fields[i].0.as_str(), key) {
                        return Some(&fields[i].1);
                    }
                    i = i + 1;
                }
                None
            },
            _ => None,
        }
    }

    /// The text of a string value.
    pub fn as_str(&self) -> (r: Option<&str>)
        ensures
            match r {
                Some(s) => jstr(self@) == Some(s@),
                None => jstr(self@) is None,
            },
    {
        match self {
            Json::Str(s) => Some(s.as_str()),
            _ => None,
        }
    }

    /// The value as an unsigned 64-bit integer.
    pub fn as_u64(&self) -> (r: Option<u64>)
        ensures
            r == ju64(self@),
    {
        match self {
            Json::UInt(n) => Some(*n),
            _ => None,
        }
    }

    /// The value as a boolean.
    pub fn as_bool(&self) -> (r: Option<bool>)
        ensures
            r == jbool(self@),
    {
        match self {
            Json::Bool(b) => Some(*b),
            _ => None,
        }
    }

    /// Whether the value is `null`.
    pub fn is_null(&self) -> (r: bool)
        ensures
            r == (self@ == JsonV::Null),
    {
        match self {
            Json::Null => true,
            _ => false,
        }
    }

    /// A copy of the value.
    #[verifier::loop_isolation(false)]
    pub fn deep_clone(&self) -> (r: Json)
        ensures
            r@ == self@,
        decreases self,
    {
        match self {
            Json::Null => Json::Null,
            Json::Bool(b) => Json::Bool(*b),
            Json::UInt(n) => Json::UInt(*n),
            Json::NegInt(n) => Json::NegInt(*n),
            Json::Float(s) => Json::Float(s.clone()),
            Json::Str(s) => Json::Str(s.clone()),
            Json::Array(items) => {
                let mut out: Vec<Json> = Vec::new();
                let mut i: usize = 0;
                while i < items.len()
                    invariant
                        i <= items@.len(),
                        items_view(out@) == items_view(items@.take(i as int)),
                    decreases items@.len() - i,
                {
                    proof {
                        assert(decreases_to!(*self => *items));
                        assert(decreases_to!(*items => items@));
                        assert(decreases_to!(items@ => items@[i as int]));
                        assert(decreases_to!(*self => items@[i as int]));
                    }
                    let c = items[i].deep_clone();
                    proof {
                        lemma_items_view_push(out@, c);
                        lemma_items_view_push(items@.take(i as int), items@[i as int]);
                        assert(items@.take(i + 1) =~= items@.take(i as int).push(items@[i as int]));
                    }
                    out.push(c);
                    i = i + 1;
                }
                assert(items@.take(items@.len() as int) =~= items@);
                Json::Array(out)
            },
            Json::Object(fields) => {
                let mut out: Vec<(String, Json)> = Vec::new();
                let mut i: usize = 0;
                while i < fields.len()
                    invariant
                        i <= fields@.len(),
                        fields_view(out@) == fields_view(fields@.take(i as int)),
                    decreases fields@.len() - i,
                {
                    proof {
                        assert(decreases_to!(*self => *fields));
                        assert(decreases_to!(*fields => fields@));
                        assert(decreases_to!(fields@ => fields@[i as int]));
                        assert(decreases_to!(fields@[i as int] => fields@[i as int].1));
                        assert(decreases_to!(*self => fields@[i as int].1));
                    }
                    let c = fields[i].1.deep_clone();
                    let k = fields[i].0.clone();
                    proof {
                        lemma_fields_view_push(out@, (k, c));
                        lemma_fields_view_push(fields@.take(i as int), fields@[i as int]);
                        assert(fields@.take(i + 1) =~= fields@.take(i as int).push(fields@[i as int]));
                    }
                    out.push((k, c));
                    i = i + 1;
                }
                assert(fields@.take(fields@.len() as int) =~= fields@);
                Json::Object(out)
            },
        }
    }
}

// ---------------------------------------------------------------------------
// Reading and writing JSON text (serde_json)
// ---------------------------------------------------------------------------

#[verifier::external_type_specification]
#[verifier::external_body]
pub struct ExSerdeValue(serde_json::Value);

/// What `serde_json` reads from `bytes` (`None`: not a JSON document), in
/// the library's model, every number kept as the text `serde_json` prints
/// for it.
pub uninterp spec fn json_parse_of(bytes: Seq<u8>) -> Option<JsonV>;

/// What `serde_json` reads from `text`: the value as in [`json_parse_of`],
/// or the text of the error.
pub uninterp spec fn json_text_parse_of(text: Seq<char>) -> Result<JsonV, Seq<char>>;

/// The compact text `serde_json` prints for a value.
pub uninterp spec fn json_text(v: JsonV) -> Seq<char>;

/// The library's model of a `serde_json::Value`, numbers by their text.
#[verifier::external_body]
fn json_of_value(v: &Value) -> Json {
    match v {
        Value::Null => Json::Null,
        Value::Bool(b) => Json::Bool(*b),
        Value::Number(n) => Json::Float(n.to_string()),
        Value::String(s) => Json::Str(s.clone()),
        Value::Array(items) => Json::Array(items.iter().map(json_of_value).collect()),
        Value::Object(map) => Json::Object(map.iter().map(|(k, v)| (k.clone(), json_of_value(v))).collect()),
    }
}

/// The `serde_json::Value` of a library value.
#[verifier::external_body]
fn value_of_json(j: &Json) -> Value {
    match j {
        Json::Null => Value::Null,
        Json::Bool(b) => Value::Bool(*b),
        Json::UInt(n) => Value::from(*n),
        Json::NegInt(n) => Value::from(*n),
        Json::Float(t) => t.parse().map(Value::Number).unwrap_or(Value::Null),
        Json::Str(s) => Value::String(s.clone()),
        Json::Array(items) => items.iter().map(value_of_json).collect(),
        Json::Object(fields) => fields.iter().map(|(k, v)| (k.clone(), value_of_json(v))).collect(),
    }
}

/// `serde_json::from_slice::<Value>`: the contract claims only that the
/// outcome is a function of the bytes; the grammar is left unsaid.
#[verifier::external_body]
fn read_json_bytes(bytes: &[u8]) -> (r: Option<Json>)
    ensures
        opt_json_view(r) == json_parse_of(bytes@),
{
    serde_json::from_slice::<Value>(bytes).ok().map(|v| json_of_value(&v))
}

/// `serde_json::from_str::<Value>`, with the error's text: the contract
/// claims only that the outcome is a function of the text.
#[verifier::external_body]
fn read_json_text(text: &str) -> (r: Result<Json, String>)
    ensures
        json_outcome_view(r) == json_text_parse_of(text@),
{
    match serde_json::from_str::<Value>(text) {
        Ok(v) => Ok(json_of_value(&v)),
        Err(e) => Err(e.to_string()),
    }
}

/// `Display` of `serde_json::Value` (its compact text): the contract claims
/// only that the text is a function of the value.
#[verifier::external_body]
fn serde_text(v: &Json) -> (r: String)
    ensures
        r@ == json_text(v@),
{
    value_of_json(v).to_string()
}

/// The compact JSON text of `v`, as `serde_json` prints it.
pub fn to_json_text(v: &Json) -> (r: String)
    ensures
        r@ == json_text(v@),
{
    serde_text(v)
}

pub open spec fn opt_json_view(o: Option<Json>) -> Option<JsonV> {
    match o {
        Some(j) => Some(j@),
        None => None,
    }
}

pub open spec fn json_outcome_view(r: Result<Json, String>) -> Result<JsonV, Seq<char>> {
    match r {
        Ok(j) => Ok(j@),
        Err(e) => Err(e@),
    }
}

/// Non-empty and made of decimal digits alone.
pub open spec fn is_digits(t: Seq<char>) -> bool {
    t.len() > 0 && forall|i: int| 0 <= i < t.len() ==> '0' <= #[trigger] t[i] <= '9'
}

/// The number that the decimal digits `t` write.
pub open spec fn digits_value(t: Seq<char>) -> nat
    decreases t.len(),
{
    if t.len() == 0 {
        0
    } else {
        digits_value(t.drop_last()) * 10 + (t.last() as nat - 48) as nat
    }
}

/// A number read from its text: an integer that fits 64 bits becomes
/// `UInt` (non-negative) or `NegInt` (negative), any other number stays
/// text. These are the two integer kinds `serde_json` keeps.
pub open spec fn number_of_text(t: Seq<char>) -> JsonV {
    if is_digits(t) && digits_value(t) <= u64::MAX {
        JsonV::UInt(digits_value(t) as u64)
    } else if t.len() > 1 && t[0] == '-' && is_digits(t.drop_first()) && 0 < digits_value(t.drop_first())
        <= 0x8000_0000_0000_0000 {
        JsonV::NegInt((0 - digits_value(t.drop_first())) as i64)
    } else {
        JsonV::Float(t)
    }
}

/// The value with every number read from its text.
pub open spec fn numbers(v: JsonV) -> JsonV
    decreases v,
{
    match v {
        JsonV::Float(t) => number_of_text(t),
        JsonV::Array(items) => JsonV::Array(numbers_items(items)),
        JsonV::Object(fields) => JsonV::Object(numbers_fields(fields)),
        _ => v,
    }
}

pub open spec fn numbers_items(s: Seq<JsonV>) -> Seq<JsonV>
    decreases s,
{
    if s.len() == 0 {
        Seq::empty()
    } else {
        numbers_items(s.drop_last()).push(numbers(s.last()))
    }
}

pub open spec fn numbers_fields(s: Seq<(Seq<char>, JsonV)>) -> Seq<(Seq<char>, JsonV)>
    decreases s,
{
    if s.len() == 0 {
        Seq::empty()
    } else {
        numbers_fields(s.drop_last()).push((s.last().0, numbers(s.last().1)))
    }
}

/// What [`parse_json`] gives for `bytes`.
pub open spec fn parsed_json(bytes: Seq<u8>) -> Option<JsonV> {
    match json_parse_of(bytes) {
        Some(v) => Some(numbers(v)),
        None => None,
    }
}

/// What [`parse_json_text`] gives for `text`.
pub open spec fn parsed_json_text(text: Seq<char>) -> Result<JsonV, Seq<char>> {
    match json_text_parse_of(text) {
        Ok(v) => Ok(numbers(v)),
        Err(e) => Err(e),
    }
}

proof fn lemma_digits_prefix(t: Seq<char>, k: int)
    requires
        0 <= k <= t.len(),
    ensures
        digits_value(t.take(k)) <= digits_value(t),
    decreases t.len(),
{
    if k < t.len() {
        lemma_digits_prefix(t.drop_last(), k);
        assert(t.drop_last().take(k) =~= t.take(k));
    } else {
        assert(t.take(k) =~= t);
    }
}

/// The value of the decimal digits `cs[start..]`, when they are all digits
/// (at least one) and the value fits 64 bits.
fn digits_u64(cs: &Vec<char>, start: usize) -> (r: Option<u64>)
    requires
        start <= cs@.len(),
    ensures
        r is Some <==> is_digits(cs@.skip(start as int)) && digits_value(cs@.skip(start as int)) <= u64::MAX,
        r is Some ==> r->Some_0 == digits_value(cs@.skip(start as int)),
{
    let ghost t = cs@.skip(start as int);
    if start >= cs.len() {
        return None;
    }
    let mut acc: u64 = 0;
    let mut i: usize = start;
    while i < cs.len()
        invariant
            start <= i <= cs@.len(),
            t == cs@.skip(start as int),
            acc == digits_value(t.take(i - start)),
            forall|j: int| 0 <= j < i - start ==> '0' <= #[trigger] t[j] <= '9',
        decreases cs@.len() - i,
    {
        let c = cs[i];
        if c < '0' || c > '9' {
            assert(!('0' <= t[i - start] <= '9'));
            return None;
        }
        let d = (c as u32 - 48) as u64;
        proof {
            assert(t.take(i - start + 1).drop_last() =~= t.take(i - start));
            assert(t.take(i - start + 1).last() == c);
        }
        if acc > (u64::MAX - d) / 10 {
            proof {
                assert(digits_value(t.take(i - start + 1)) > u64::MAX) by (nonlinear_arith)
                    requires
                        digits_value(t.take(i - start + 1)) == acc * 10 + d,
                        acc > (u64::MAX - d) / 10,
                        d <= 9,
                ;
                if is_digits(t) {
                    lemma_digits_prefix(t, i - start + 1);
                }
            }
            return None;
        }
        acc = acc * 10 + d;
        i = i + 1;
    }
    assert(t.take(i - start) =~= t);
    Some(acc)
}

/// A number read from its text (see [`number_of_text`]).
fn number_from_text(t: String) -> (r: Json)
    ensures
        r@ == number_of_text(t@),
{
    let cs = chars_of(t.as_str());
    assert(cs@.skip(0) =~= t@);
    match digits_u64(&cs, 0) {
        Some(n) => return Json::UInt(n),
        None => {},
    }
    if cs.len() > 1 && cs[0] == '-' {
        assert(cs@.skip(1) =~= t@.drop_first());
        match digits_u64(&cs, 1) {
            Some(n) => {
                if 0 < n && n <= 0x8000_0000_0000_0000u64 {
                    let v: i64 = if n == 0x8000_0000_0000_0000u64 {
                        i64::MIN
                    } else {
                        0i64 - (n as i64)
                    };
                    return Json::NegInt(v);
                }
            },
            None => {},
        }
    }
    Json::Float(t)
}

/// The value with every number read from its text (see [`numbers`]).
#[verifier::loop_isolation(false)]
fn with_numbers(j: &Json) -> (r: Json)
    ensures
        r@ == numbers(j@),
    decreases j,
{
    match j {
        Json::Float(t) => number_from_text(t.clone()),
        Json::Array(items) => {
            let mut out: Vec<Json> = Vec::new();
            let mut i: usize = 0;
            while i < items.len()
                invariant
                    i <= items@.len(),
                    items_view(out@) == numbers_items(items_view(items@.take(i as int))),
                decreases items@.len() - i,
            {
                proof {
                    assert(decreases_to!(*j => *items));
                    assert(decreases_to!(*items => items@));
                    assert(decreases_to!(items@ => items@[i as int]));
                    assert(decreases_to!(*j => items@[i as int]));
                }
                let y = with_numbers(&items[i]);
                proof {
                    lemma_items_view_push(out@, y);
                    lemma_items_view_push(items@.take(i as int), items@[i as int]);
                    assert(items@.take(i + 1) =~= items@.take(i as int).push(items@[i as int]));
                    let pv = items_view(items@.take(i as int));
                    assert(pv.push(items@[i as int]@).drop_last() =~= pv);
                }
                out.push(y);
                i = i + 1;
            }
            assert(items@.take(items@.len() as int) =~= items@);
            Json::Array(out)
        },
        Json::Object(fields) => {
            let mut out: Vec<(String, Json)> = Vec::new();
            let mut i: usize = 0;
            while i < fields.len()
                invariant
                    i <= fields@.len(),
                    fields_view(out@) == numbers_fields(fields_view(fields@.take(i as int))),
                decreases fields@.len() - i,
            {
                proof {
                    assert(decreases_to!(*j => *fields));
                    assert(decreases_to!(*fields => fields@));
                    assert(decreases_to!(fields@ => fields@[i as int]));
                    assert(decreases_to!(fields@[i as int] => fields@[i as int].1));
                    assert(decreases_to!(*j => fields@[i as int].1));
                }
                let y = with_numbers(&fields[i].1);
                let k = fields[i].0.clone();
                proof {
                    lemma_fields_view_push(out@, (k, y));
                    lemma_fields_view_push(fields@.take(i as int), fields@[i as int]);
                    assert(fields@.take(i + 1) =~= fields@.take(i as int).push(fields@[i as int]));
                    let pv = fields_view(fields@.take(i as int));
                    assert(pv.push((k@, fields@[i as int].1@)).drop_last() =~= pv);
                }
                out.push((k, y));
                i = i + 1;
            }
            assert(fields@.take(fields@.len() as int) =~= fields@);
            Json::Object(out)
        },
        Json::Null => Json::Null,
        Json::Bool(b) => Json::Bool(*b),
        Json::UInt(n) => Json::UInt(*n),
        Json::NegInt(n) => Json::NegInt(*n),
        Json::Str(s) => Json::Str(s.clone()),
    }
}

/// Reads a message: the JSON document in `bytes`, or `None` when they hold
/// none.
pub fn parse_json(bytes: &[u8]) -> (r: Option<Json>)
    ensures
        opt_json_view(r) == parsed_json(bytes@),
{
    match read_json_bytes(bytes) {
        Some(v) => Some(with_numbers(&v)),
        None => None,
    }
}

/// Reads a line of text: the JSON document, or why it is none.
pub fn parse_json_text(text: &str) -> (r: Result<Json, String>)
    ensures
        json_outcome_view(r) == parsed_json_text(text@),
{
    match read_json_text(text) {
        Ok(v) => Ok(with_numbers(&v)),
        Err(e) => Err(e),
    }
}

/// The bytes of a message: the UTF-8 of its compact text.
pub fn to_json_bytes(v: &Json) -> (r: Vec<u8>)
    ensures
        r@ == encode_utf8(json_text(v@)),
{
    let t = to_json_text(v);
    t.as_str().as_bytes_vec()
}
// ---------------------------------------------------------------------------
// Updates
// ---------------------------------------------------------------------------

/// The members with `key` set to `v`: the first member so named is
/// replaced in place, or the member is appended.
pub open spec fn set_member(fields: Seq<(Seq<char>, JsonV)>, key: Seq<char>, v: JsonV) -> Seq<(Seq<char>, JsonV)> {
    let i = field_index(fields, key);
    if i >= 0 {
        fields.update(i, (key, v))
    } else {
        fields.push((key, v))
    }
}

/// `obj[key] = v` as JSON indexing does it: objects get the member, `null`
/// becomes an object holding it; other values are left alone.
pub open spec fn with_member(obj: JsonV, key: Seq<char>, v: JsonV) -> JsonV {
    match obj {
        JsonV::Object(fields) => JsonV::Object(set_member(fields, key, v)),
        JsonV::Null => JsonV::Object(seq![(key, v)]),
        _ => obj,
    }
}

/// Sets the member `key` of a list of members.
pub fn set_field(fields: &mut Vec<(String, Json)>, key: &str, v: Json)
    ensures
        fields_view(final(fields)@) == set_member(fields_view(old(fields)@), key@, v@),
{
    let ghost fv = fields_view(fields@);
    proof {
        lemma_fields_view(fields@);
    }
    match find_field(fields, key) {
        Some(i) => {
            fields.set(i, (String::from_str(key), v));
            proof {
                lemma_fields_view(fields@);
                assert(fields_view(fields@) =~= fv.update(i as int, (key@, v@)));
            }
        },
        None => {
            let ghost old_fields = fields@;
            fields.push((String::from_str(key), v));
            proof {
                lemma_fields_view_push(old_fields, fields@.last());
                assert(fields@ == old_fields.push(fields@.last()));
            }
        },
    }
}

/// An object with the given members.
pub fn object(fields: Vec<(String, Json)>) -> (r: Json)
    ensures
        r@ == JsonV::Object(fields_view(fields@)),
{
    Json::Object(fields)
}

/// A member, for building objects.
pub fn member(key: &str, v: Json) -> (r: (String, Json))
    ensures
        r.0@ == key@,
        r.1@ == v@,
{
    (String::from_str(key), v)
}

pub proof fn lemma_fields_view_one(a: (String, Json))
    ensures
        fields_view(seq![a]) == seq![(a.0@, json_view(a.1))],
{
    lemma_fields_view(seq![a]);
    assert(fields_view(seq![a]) =~= seq![(a.0@, json_view(a.1))]);
}

pub proof fn lemma_fields_view_two(a: (String, Json), b: (String, Json))
    ensures
        fields_view(seq![a, b]) == seq![(a.0@, json_view(a.1)), (b.0@, json_view(b.1))],
{
    lemma_fields_view(seq![a, b]);
    assert(fields_view(seq![a, b]) =~= seq![(a.0@, json_view(a.1)), (b.0@, json_view(b.1))]);
}

pub proof fn lemma_fields_view_three(a: (String, Json), b: (String, Json), c: (String, Json))
    ensures
        fields_view(seq![a, b, c]) == seq![(a.0@, json_view(a.1)), (b.0@, json_view(b.1)), (c.0@, json_view(c.1))],
{
    lemma_fields_view(seq![a, b, c]);
    assert(fields_view(seq![a, b, c]) =~= seq![(a.0@, json_view(a.1)), (b.0@, json_view(b.1)), (c.0@, json_view(c.1))]);
}

pub proof fn lemma_fields_view_four(a: (String, Json), b: (String, Json), c: (String, Json), d: (String, Json))
    ensures
        fields_view(seq![a, b, c, d]) == seq![(a.0@, json_view(a.1)), (b.0@, json_view(b.1)), (c.0@, json_view(c.1)), (d.0@, json_view(d.1))],
{
    lemma_fields_view(seq![a, b, c, d]);
    assert(fields_view(seq![a, b, c, d]) =~= seq![(a.0@, json_view(a.1)), (b.0@, json_view(b.1)), (c.0@, json_view(c.1)), (d.0@, json_view(d.1))]);
}

impl Json {
    /// `self[key] = v` on an object (or on `null`, which becomes an object).
    pub fn set(&mut self, key: &str, v: Json)
        requires
            *old(self) is Object || *old(self) is Null,
        ensures
            final(self)@ == with_member(old(self)@, key@, v@),
    {
        let ghost vv = v@;
        let mut tmp = Json::Null;
        core::mem::swap(&mut tmp, self);
        assert(tmp@ == old(self)@);
        match tmp {
            Json::Object(fields) => {
                let ghost fv = fields_view(fields@);
                assert(old(self)@ == JsonV::Object(fv));
                let mut fields = fields;
                set_field(&mut fields, key, v);
                assert(fields_view(fields@) == set_member(fv, key@, vv));
                *self = Json::Object(fields);
                assert(self@ == JsonV::Object(fields_view(fields@)));
                assert(self@ == with_member(old(self)@, key@, vv));
            },
            _ => {
                let f = member(key, v);
                let fields = vec![f];
                proof {
                    lemma_fields_view_one(f);
                    assert(fields@ =~= seq![f]);
                }
                *self = Json::Object(fields);
                assert(self@ == with_member(old(self)@, key@, vv));
            },
        }
    }
}

/// Reading a member right after setting it gives the value set, on an
/// object or on `null` (which becomes an object).
pub proof fn lemma_read_after_set(obj: JsonV, key: Seq<char>, v: JsonV)
    requires
        obj is Object || obj is Null,
    ensures
        jget(with_member(obj, key, v), key) == Some(v),
{
    match obj {
        JsonV::Object(fields) => {
            lemma_field_index_from(fields, key, 0);
            let i = field_index(fields, key);
            let nf = set_member(fields, key, v);
            if i >= 0 {
                assert forall|k: int| 0 <= k < i implies #[trigger] nf[k].0 != key by {
                    assert(nf[k] == fields[k]);
                }
                lemma_field_index_prefix(nf, key, i);
            } else {
                assert forall|k: int| 0 <= k < fields.len() implies #[trigger] nf[k].0 != key by {
                    assert(nf[k] == fields[k]);
                }
                lemma_field_index_prefix(nf, key, fields.len() as int);
            }
        },
        _ => {
            lemma_field_index_prefix(seq![(key, v)], key, 0);
        },
    }
}

/// Setting one member of an object leaves every other member as it was.
pub proof fn lemma_read_other_after_set(obj: JsonV, key: Seq<char>, other: Seq<char>, v: JsonV)
    requires
        obj is Object,
        key != other,
    ensures
        jget(with_member(obj, key, v), other) == jget(obj, other),
{
    let fields = obj->Object_0;
    let nf = set_member(fields, key, v);
    lemma_field_index_from(fields, key, 0);
    lemma_field_index_from(fields, other, 0);
    lemma_field_index_from(nf, other, 0);
    let i = field_index(fields, key);
    let j = field_index(fields, other);
    assert forall|k: int| 0 <= k < fields.len() && k != i implies #[trigger] nf[k] == fields[k] by {}
    assert forall|k: int| 0 <= k < nf.len() && nf[k].0 == other implies k < fields.len() && k != i
        && fields[k].0 == other by {
        if k >= fields.len() || k == i {
            assert(nf[k].0 == key);
        }
    }
    if j >= 0 {
        assert(nf[j] == fields[j]);
        lemma_field_index_prefix(nf, other, j);
    } else {
        let r = field_index(nf, other);
        if r >= 0 {
            assert(fields[r].0 == other);
        }
    }
}

/// The first member named `key` is at `i` when none before it is so named.
pub proof fn lemma_field_index_prefix(fields: Seq<(Seq<char>, JsonV)>, key: Seq<char>, i: int)
    requires
        0 <= i < fields.len(),
        fields[i].0 == key,
        forall|k: int| 0 <= k < i ==> #[trigger] fields[k].0 != key,
    ensures
        field_index(fields, key) == i,
{
    lemma_field_index_walk(fields, key, 0, i);
}

proof fn lemma_field_index_walk(fields: Seq<(Seq<char>, JsonV)>, key: Seq<char>, j: int, i: int)
    requires
        0 <= j <= i < fields.len(),
        fields[i].0 == key,
        forall|k: int| 0 <= k < i ==> #[trigger] fields[k].0 != key,
    ensures
        field_index_from(fields, key, j) == i,
    decreases i - j,
{
    if j < i {
        lemma_field_index_walk(fields, key, j + 1, i);
    }
}

} // verus!

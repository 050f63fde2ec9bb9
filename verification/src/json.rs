//! JSON values as plain data, and the way to and from JSON text.
use vstd::prelude::*;
use crate::text::{
    all_digits, comes_before, decimal, number, parse_number, parsed_number, precedes, same,
};

verus! {

/// A JSON value. A number is held as the text it is written with; the fields of
/// an object stand in the order of their names unless it was built otherwise.
#[derive(Debug, PartialEq)]
pub enum Json {
    Null,
    Bool(bool),
    Number(String),
    Str(String),
    Array(Vec<Json>),
    Object(Vec<(String, Json)>),
}

/// What a [`Json`] stands for.
pub enum JsonV {
    Null,
    Bool(bool),
    Number(Seq<char>),
    Str(Seq<char>),
    Array(Seq<JsonV>),
    Object(Seq<(Seq<char>, JsonV)>),
}

/// The meaning of `j`.
pub open spec fn json_view(j: Json) -> JsonV
    decreases j,
{
    match j {
        Json::Null => JsonV::Null,
        Json::Bool(b) => JsonV::Bool(b),
        Json::Number(t) => JsonV::Number(t@),
        Json::Str(t) => JsonV::Str(t@),
        Json::Array(items) => JsonV::Array(
            Seq::new(
                items@.len(),
                |i: int|
                    if 0 <= i < items@.len() {
                        json_view(items@[i])
                    } else {
                        JsonV::Null
                    },
            ),
        ),
        Json::Object(fields) => JsonV::Object(
            Seq::new(
                fields@.len(),
                |i: int|
                    if 0 <= i < fields@.len() {
                        (fields@[i].0@, json_view(fields@[i].1))
                    } else {
                        (Seq::empty(), JsonV::Null)
                    },
            ),
        ),
    }
}

impl View for Json {
    type V = JsonV;

    open spec fn view(&self) -> JsonV {
        json_view(*self)
    }
}

impl Clone for Json {
    fn clone(&self) -> (r: Json)
        ensures
            r@ == self@,
        decreases self,
    {
        match self {
            Json::Null => Json::Null,
            Json::Bool(b) => Json::Bool(*b),
            Json::Number(t) => Json::Number(t.clone()),
            Json::Str(t) => Json::Str(t.clone()),
            Json::Array(items) => {
                let mut out: Vec<Json> = Vec::new();
                let mut i: usize = 0;
                while i < items.len()
                    invariant
                        i <= items@.len(),
                        out@.len() == i,
                        *self == Json::Array(*items),
                        forall|k: int| 0 <= k < i ==> json_view(#[trigger] out@[k]) == json_view(items@[k]),
                    decreases items@.len() - i,
                {
                    assert(decreases_to!(*self => self->Array_0));
                    assert(decreases_to!(self->Array_0 => items@));
                    assert(decreases_to!(items@ => items@[i as int]));
                    let item = items[i].clone();
                    out.push(item);
                    i += 1;
                }
                let r = Json::Array(out);
                assert(r@->Array_0 =~= self@->Array_0);
                r
            },
            Json::Object(fields) => {
                let mut out: Vec<(String, Json)> = Vec::new();
                let mut i: usize = 0;
                while i < fields.len()
                    invariant
                        i <= fields@.len(),
                        out@.len() == i,
                        *self == Json::Object(*fields),
                        forall|k: int| 0 <= k < i ==> #[trigger] out@[k].0@ == fields@[k].0@ && json_view(out@[k].1) == json_view(fields@[k].1),
                    decreases fields@.len() - i,
                {
                    let name = fields[i].0.clone();
                    assert(decreases_to!(*self => self->Object_0));
                    assert(decreases_to!(self->Object_0 => fields@));
                    assert(decreases_to!(fields@ => fields@[i as int]));
                    assert(decreases_to!(fields@[i as int] => fields@[i as int].1));
                    let value = fields[i].1.clone();
                    out.push((name, value));
                    i += 1;
                }
                let r = Json::Object(out);
                assert(r@->Object_0 =~= self@->Object_0);
                r
            },
        }
    }
}

// ------------------------------------------------------------ reading a value

/// The position of the first field named `key`.
pub open spec fn key_at(fields: Seq<(Seq<char>, JsonV)>, key: Seq<char>) -> Option<int>
    decreases fields.len(),
{
    if fields.len() == 0 {
        None
    } else {
        match key_at(fields.drop_last(), key) {
            Some(i) => Some(i),
            None => if fields.last().0 == key {
                Some(fields.len() - 1)
            } else {
                None
            },
        }
    }
}

/// The value of the first field named `key`, if `v` is an object with one.
pub open spec fn field(v: JsonV, key: Seq<char>) -> Option<JsonV> {
    match v {
        JsonV::Object(fields) => match key_at(fields, key) {
            Some(i) => Some(fields[i].1),
            None => None,
        },
        _ => None,
    }
}

/// The value of the field named `key`; null where `v` has none.
pub open spec fn inside(v: JsonV, key: Seq<char>) -> JsonV {
    match field(v, key) {
        Some(f) => f,
        None => JsonV::Null,
    }
}

/// The text, if `v` is one.
pub open spec fn text_in(v: JsonV) -> Option<Seq<char>> {
    match v {
        JsonV::Str(t) => Some(t),
        _ => None,
    }
}

/// The text of the field named `key`.
pub open spec fn text_field(v: JsonV, key: Seq<char>) -> Option<Seq<char>> {
    match field(v, key) {
        Some(f) => text_in(f),
        None => None,
    }
}

/// The number, if `v` is one that is written as digits alone and fits 64 bits.
pub open spec fn whole_in(v: JsonV) -> Option<nat> {
    match v {
        JsonV::Number(t) => if all_digits(t) {
            parsed_number(t, u64::MAX as nat)
        } else {
            None
        },
        _ => None,
    }
}

/// The whole number in the field named `key`.
pub open spec fn whole_field(v: JsonV, key: Seq<char>) -> Option<nat> {
    match field(v, key) {
        Some(f) => whole_in(f),
        None => None,
    }
}

/// The truth value, if `v` is one.
pub open spec fn bool_in(v: JsonV) -> Option<bool> {
    match v {
        JsonV::Bool(b) => Some(b),
        _ => None,
    }
}

/// The items, if `v` is an array.
pub open spec fn items_in(v: JsonV) -> Option<Seq<JsonV>> {
    match v {
        JsonV::Array(items) => Some(items),
        _ => None,
    }
}

/// The items of the array in the field named `key`.
pub open spec fn items_field(v: JsonV, key: Seq<char>) -> Option<Seq<JsonV>> {
    match field(v, key) {
        Some(f) => items_in(f),
        None => None,
    }
}

/// The fields, if `v` is an object.
pub open spec fn fields_in(v: JsonV) -> Option<Seq<(Seq<char>, JsonV)>> {
    match v {
        JsonV::Object(fields) => Some(fields),
        _ => None,
    }
}

/// What a list of values stands for.
pub open spec fn json_views(s: Seq<Json>) -> Seq<JsonV> {
    s.map_values(|j: Json| j@)
}

/// What a list of fields stands for.
pub open spec fn field_views(s: Seq<(String, Json)>) -> Seq<(Seq<char>, JsonV)> {
    s.map_values(|f: (String, Json)| (f.0@, f.1@))
}

/// The view of an array is the views of its items, and likewise for an object.
pub proof fn lemma_json_views(j: Json)
    ensures
        j matches Json::Array(items) ==> j@ == JsonV::Array(json_views(items@)),
        j matches Json::Object(fields) ==> j@ == JsonV::Object(field_views(fields@)),
{
    match j {
        Json::Array(items) => {
            assert(j@->Array_0 =~= json_views(items@));
        },
        Json::Object(fields) => {
            assert(j@->Object_0 =~= field_views(fields@));
        },
        _ => {},
    }
}

/// Finds the first field named `key`.
pub fn find_key(fields: &Vec<(String, Json)>, key: &str) -> (r: Option<usize>)
    ensures
        match r {
            Some(i) => key_at(field_views(fields@), key@) == Some(i as int) && i < fields@.len(),
            None => key_at(field_views(fields@), key@) is None,
        },
{
    let ghost fs = field_views(fields@);
    let mut i: usize = 0;
    assert(fs.take(0) =~= Seq::empty());
    while i < fields.len()
        invariant
            i <= fields@.len(),
            fs == field_views(fields@),
            key_at(fs.take(i as int), key@) is None,
        decreases fields@.len() - i,
    {
        assert(fs.take(i + 1).drop_last() =~= fs.take(i as int));
        assert(fs[i as int] == (fields@[i as int].0@, fields@[i as int].1@));
        if same(fields[i].0.as_str(), key) {
            proof {
                lemma_key_at_prefix(fs, key@, i as int);
            }
            return Some(i);
        }
        i += 1;
    }
    assert(fs.take(i as int) =~= fs);
    None
}

proof fn lemma_key_at_prefix(fs: Seq<(Seq<char>, JsonV)>, key: Seq<char>, i: int)
    requires
        0 <= i < fs.len(),
        key_at(fs.take(i), key) is None,
        fs[i].0 == key,
    ensures
        key_at(fs, key) == Some(i),
    decreases fs.len() - i,
{
    lemma_key_at_grows(fs, key, i, fs.len() as int);
    assert(fs.take(fs.len() as int) =~= fs);
}

proof fn lemma_key_at_grows(fs: Seq<(Seq<char>, JsonV)>, key: Seq<char>, i: int, n: int)
    requires
        0 <= i < n <= fs.len(),
        key_at(fs.take(i), key) is None,
        fs[i].0 == key,
    ensures
        key_at(fs.take(n), key) == Some(i),
    decreases n,
{
    assert(fs.take(n).drop_last() =~= fs.take(n - 1));
    if n > i + 1 {
        lemma_key_at_grows(fs, key, i, n - 1);
    }
}

impl Json {
    /// The value of the field named `key`; `None` for anything but an object
    /// with such a field.
    pub fn get(&self, key: &str) -> (r: Option<&Json>)
        ensures
            match r {
                Some(j) => field(self@, key@) == Some(j@),
                None => field(self@, key@) is None,
            },
    {
        proof {
            lemma_json_views(*self);
        }
        match self {
            Json::Object(fields) => match find_key(fields, key) {
                Some(i) => {
                    assert(field_views(fields@)[i as int].1 == fields@[i as int].1@);
                    Some(&fields[i].1)
                },
                None => None,
            },
            _ => None,
        }
    }

    /// The value of the field named `key`; null for anything but an object with
    /// such a field.
    pub fn at(&self, key: &str) -> (r: &Json)
        ensures
            r@ == inside(self@, key@),
    {
        match self.get(key) {
            Some(j) => j,
            None => &Json::Null,
        }
    }

    /// The text, if this is one.
    pub fn as_str(&self) -> (r: Option<&str>)
        ensures
            match r {
                Some(t) => text_in(self@) == Some(t@),
                None => text_in(self@) is None,
            },
    {
        match self {
            Json::Str(t) => Some(t.as_str()),
            _ => None,
        }
    }

    /// The text of the field named `key`.
    pub fn str_at(&self, key: &str) -> (r: Option<&str>)
        ensures
            match r {
                Some(t) => text_field(self@, key@) == Some(t@),
                None => text_field(self@, key@) is None,
            },
    {
        match self.get(key) {
            Some(j) => j.as_str(),
            None => None,
        }
    }

    /// The number, if this is one without sign, fraction or exponent.
    pub fn as_u64(&self) -> (r: Option<u64>)
        ensures
            match r {
                Some(n) => whole_in(self@) == Some(n as nat),
                None => whole_in(self@) is None,
            },
    {
        match self {
            Json::Number(t) => {
                let v = crate::text::to_chars(t.as_str());
                if v.len() > 0 && v[0] == '+' {
                    assert(!crate::text::is_digit(t@[0]));
                    return None;
                }
                let r = parse_number(t.as_str(), u64::MAX);
                r
            },
            _ => None,
        }
    }

    /// The whole number in the field named `key`.
    pub fn u64_at(&self, key: &str) -> (r: Option<u64>)
        ensures
            match r {
                Some(n) => whole_field(self@, key@) == Some(n as nat),
                None => whole_field(self@, key@) is None,
            },
    {
        match self.get(key) {
            Some(j) => j.as_u64(),
            None => None,
        }
    }

    /// The truth value, if this is one.
    pub fn as_bool(&self) -> (r: Option<bool>)
        ensures
            r == bool_in(self@),
    {
        match self {
            Json::Bool(b) => Some(*b),
            _ => None,
        }
    }

    /// The items, if this is an array.
    pub fn as_array(&self) -> (r: Option<&Vec<Json>>)
        ensures
            match r {
                Some(items) => items_in(self@) == Some(json_views(items@)),
                None => items_in(self@) is None,
            },
    {
        proof {
            lemma_json_views(*self);
        }
        match self {
            Json::Array(items) => Some(items),
            _ => None,
        }
    }

    /// The items of the array in the field named `key`.
    pub fn array_at(&self, key: &str) -> (r: Option<&Vec<Json>>)
        ensures
            match r {
                Some(items) => items_field(self@, key@) == Some(json_views(items@)),
                None => items_field(self@, key@) is None,
            },
    {
        match self.get(key) {
            Some(j) => j.as_array(),
            None => None,
        }
    }

    /// The fields, if this is an object.
    pub fn as_object(&self) -> (r: Option<&Vec<(String, Json)>>)
        ensures
            match r {
                Some(fields) => fields_in(self@) == Some(field_views(fields@)),
                None => fields_in(self@) is None,
            },
    {
        proof {
            lemma_json_views(*self);
        }
        match self {
            Json::Object(fields) => Some(fields),
            _ => None,
        }
    }

    /// Decides whether two values are equal.
    pub fn equals(&self, other: &Json) -> (r: bool)
        ensures
            r == (self@ == other@),
        decreases self,
    {
        proof {
            lemma_json_views(*self);
            lemma_json_views(*other);
        }
        match (self, other) {
            (Json::Null, Json::Null) => true,
            (Json::Bool(a), Json::Bool(b)) => *a == *b,
            (Json::Number(a), Json::Number(b)) => same(a.as_str(), b.as_str()),
            (Json::Str(a), Json::Str(b)) => same(a.as_str(), b.as_str()),
            (Json::Array(a), Json::Array(b)) => {
                if a.len() != b.len() {
                    assert(json_views(a@).len() != json_views(b@).len());
                    return false;
                }
                let mut i: usize = 0;
                while i < a.len()
                    invariant
                        i <= a@.len() == b@.len(),
                        *self == Json::Array(*a),
                        self@ == JsonV::Array(json_views(a@)),
                        other@ == JsonV::Array(json_views(b@)),
                        forall|k: int| 0 <= k < i ==> (#[trigger] a@[k])@ == b@[k]@,
                    decreases a@.len() - i,
                {
                    assert(decreases_to!(*self => self->Array_0));
                    assert(decreases_to!(self->Array_0 => a@));
                    assert(decreases_to!(a@ => a@[i as int]));
                    if !a[i].equals(&b[i]) {
                        assert(json_views(a@)[i as int] != json_views(b@)[i as int]);
                        return false;
                    }
                    i += 1;
                }
                assert(json_views(a@) =~= json_views(b@));
                true
            },
            (Json::Object(a), Json::Object(b)) => {
                if a.len() != b.len() {
                    assert(field_views(a@).len() != field_views(b@).len());
                    return false;
                }
                let mut i: usize = 0;
                while i < a.len()
                    invariant
                        i <= a@.len() == b@.len(),
                        *self == Json::Object(*a),
                        self@ == JsonV::Object(field_views(a@)),
                        other@ == JsonV::Object(field_views(b@)),
                        forall|k: int|
                            0 <= k < i ==> (#[trigger] a@[k]).0@ == b@[k].0@ && a@[k].1@ == b@[k].1@,
                    decreases a@.len() - i,
                {
                    assert(decreases_to!(*self => self->Object_0));
                    assert(decreases_to!(self->Object_0 => a@));
                    assert(decreases_to!(a@ => a@[i as int]));
                    assert(decreases_to!(a@[i as int] => a@[i as int].1));
                    if !same(a[i].0.as_str(), b[i].0.as_str()) || !a[i].1.equals(&b[i].1) {
                        assert(field_views(a@)[i as int] != field_views(b@)[i as int]);
                        return false;
                    }
                    i += 1;
                }
                assert(field_views(a@) =~= field_views(b@));
                true
            },
            _ => false,
        }
    }
}

// ------------------------------------------------------------ building a value

/// A text.
pub fn js(t: &str) -> (r: Json)
    ensures
        r@ == JsonV::Str(t@),
{
    Json::Str(t.to_owned())
}

/// A whole number.
pub fn num(n: u64) -> (r: Json)
    ensures
        r@ == JsonV::Number(decimal(n as nat)),
{
    Json::Number(number(n))
}

/// A truth value.
pub fn boolean(b: bool) -> (r: Json)
    ensures
        r@ == JsonV::Bool(b),
{
    Json::Bool(b)
}

/// An array of these items.
pub fn arr(items: Vec<Json>) -> (r: Json)
    ensures
        r@ == JsonV::Array(json_views(items@)),
{
    let r = Json::Array(items);
    proof {
        lemma_json_views(r);
    }
    r
}

/// An object of these fields.
pub fn obj(fields: Vec<(String, Json)>) -> (r: Json)
    ensures
        r@ == JsonV::Object(field_views(fields@)),
{
    let r = Json::Object(fields);
    proof {
        lemma_json_views(r);
    }
    r
}

/// No fields yet.
pub fn no_fields() -> (r: Vec<(String, Json)>)
    ensures
        field_views(r@) == Seq::<(Seq<char>, JsonV)>::empty(),
{
    let r: Vec<(String, Json)> = Vec::new();
    assert(field_views(r@) =~= Seq::empty());
    r
}

/// Adds a field behind the others.
pub fn add_field(fields: &mut Vec<(String, Json)>, key: &str, value: Json)
    ensures
        field_views(final(fields)@) == field_views(old(fields)@).push((key@, value@)),
{
    let ghost before = field_views(fields@);
    let ghost v = value@;
    fields.push((key.to_owned(), value));
    assert(field_views(fields@) =~= before.push((key@, v)));
}

/// No items yet.
pub fn no_items() -> (r: Vec<Json>)
    ensures
        json_views(r@) == Seq::<JsonV>::empty(),
{
    let r: Vec<Json> = Vec::new();
    assert(json_views(r@) =~= Seq::empty());
    r
}

/// Adds an item behind the others.
pub fn add_item(items: &mut Vec<Json>, value: Json)
    ensures
        json_views(final(items)@) == json_views(old(items)@).push(value@),
{
    let ghost before = json_views(items@);
    let ghost v = value@;
    items.push(value);
    assert(json_views(items@) =~= before.push(v));
}

/// An object of one field.
pub fn object1(k1: &str, v1: Json) -> (r: Json)
    ensures
        r@ == JsonV::Object(
            seq![
                (k1@, v1@),
            ],
        ),
{
    let mut f = no_fields();
    add_field(&mut f, k1, v1);
    assert(field_views(f@) =~= seq![(k1@, v1@)]);
    obj(f)
}

/// An object of two fields.
pub fn object2(
    k1: &str,
    v1: Json,
    k2: &str,
    v2: Json,
) -> (r: Json)
    ensures
        r@ == JsonV::Object(
            seq![
                (k1@, v1@),
                (k2@, v2@),
            ],
        ),
{
    let mut f = no_fields();
    add_field(&mut f, k1, v1);
    add_field(&mut f, k2, v2);
    assert(field_views(f@) =~= seq![(k1@, v1@), (k2@, v2@)]);
    obj(f)
}

/// An object of three fields.
pub fn object3(
    k1: &str,
    v1: Json,
    k2: &str,
    v2: Json,
    k3: &str,
    v3: Json,
) -> (r: Json)
    ensures
        r@ == JsonV::Object(
            seq![
                (k1@, v1@),
                (k2@, v2@),
                (k3@, v3@),
            ],
        ),
{
    let mut f = no_fields();
    add_field(&mut f, k1, v1);
    add_field(&mut f, k2, v2);
    add_field(&mut f, k3, v3);
    assert(field_views(f@) =~= seq![(k1@, v1@), (k2@, v2@), (k3@, v3@)]);
    obj(f)
}

/// An object of four fields.
pub fn object4(
    k1: &str,
    v1: Json,
    k2: &str,
    v2: Json,
    k3: &str,
    v3: Json,
    k4: &str,
    v4: Json,
) -> (r: Json)
    ensures
        r@ == JsonV::Object(
            seq![
                (k1@, v1@),
                (k2@, v2@),
                (k3@, v3@),
                (k4@, v4@),
            ],
        ),
{
    let mut f = no_fields();
    add_field(&mut f, k1, v1);
    add_field(&mut f, k2, v2);
    add_field(&mut f, k3, v3);
    add_field(&mut f, k4, v4);
    assert(field_views(f@) =~= seq![(k1@, v1@), (k2@, v2@), (k3@, v3@), (k4@, v4@)]);
    obj(f)
}

/// An object of five fields.
pub fn object5(
    k1: &str,
    v1: Json,
    k2: &str,
    v2: Json,
    k3: &str,
    v3: Json,
    k4: &str,
    v4: Json,
    k5: &str,
    v5: Json,
) -> (r: Json)
    ensures
        r@ == JsonV::Object(
            seq![
                (k1@, v1@),
                (k2@, v2@),
                (k3@, v3@),
                (k4@, v4@),
                (k5@, v5@),
            ],
        ),
{
    let mut f = no_fields();
    add_field(&mut f, k1, v1);
    add_field(&mut f, k2, v2);
    add_field(&mut f, k3, v3);
    add_field(&mut f, k4, v4);
    add_field(&mut f, k5, v5);
    assert(field_views(f@) =~= seq![(k1@, v1@), (k2@, v2@), (k3@, v3@), (k4@, v4@), (k5@, v5@)]);
    obj(f)
}

/// An object of six fields.
pub fn object6(
    k1: &str,
    v1: Json,
    k2: &str,
    v2: Json,
    k3: &str,
    v3: Json,
    k4: &str,
    v4: Json,
    k5: &str,
    v5: Json,
    k6: &str,
    v6: Json,
) -> (r: Json)
    ensures
        r@ == JsonV::Object(
            seq![
                (k1@, v1@),
                (k2@, v2@),
                (k3@, v3@),
                (k4@, v4@),
                (k5@, v5@),
                (k6@, v6@),
            ],
        ),
{
    let mut f = no_fields();
    add_field(&mut f, k1, v1);
    add_field(&mut f, k2, v2);
    add_field(&mut f, k3, v3);
    add_field(&mut f, k4, v4);
    add_field(&mut f, k5, v5);
    add_field(&mut f, k6, v6);
    assert(field_views(f@) =~= seq![(k1@, v1@), (k2@, v2@), (k3@, v3@), (k4@, v4@), (k5@, v5@), (k6@, v6@)]);
    obj(f)
}

// ------------------------------------------------------------ changing an object

/// How many of the first fields come before `key` in the order of names.
pub open spec fn slot(fields: Seq<(Seq<char>, JsonV)>, key: Seq<char>) -> int
    decreases fields.len(),
{
    if fields.len() > 0 && precedes(fields[0].0, key) {
        1 + slot(fields.drop_first(), key)
    } else {
        0
    }
}

/// The fields with `key` set to `value`: in its place if there is such a field,
/// else where the order of names puts it.
pub open spec fn with_field(
    fields: Seq<(Seq<char>, JsonV)>,
    key: Seq<char>,
    value: JsonV,
) -> Seq<(Seq<char>, JsonV)> {
    match key_at(fields, key) {
        Some(i) => fields.update(i, (key, value)),
        None => fields.insert(slot(fields, key), (key, value)),
    }
}

/// Sets the field `key` of an object; see [`with_field`].
pub fn set_field(fields: &mut Vec<(String, Json)>, key: String, value: Json)
    ensures
        field_views(final(fields)@) == with_field(field_views(old(fields)@), key@, value@),
{
    let ghost fs = field_views(fields@);
    let ghost kv = key@;
    let ghost vv = value@;
    match find_key(fields, key.as_str()) {
        Some(i) => {
            fields.set(i, (key, value));
            assert(field_views(fields@) =~= fs.update(i as int, (kv, vv)));
        },
        None => {
            let mut i: usize = 0;
            assert(fs.skip(0) =~= fs);
            while i < fields.len() && comes_before(fields[i].0.as_str(), key.as_str())
                invariant
                    i <= fields@.len(),
                    fs == field_views(fields@),
                    kv == key@,
                    slot(fs, kv) == i + slot(fs.skip(i as int), kv),
                decreases fields@.len() - i,
            {
                assert(fs[i as int].0 == fields@[i as int].0@);
                assert(fs.skip(i as int).drop_first() =~= fs.skip(i + 1));
                i += 1;
            }
            assert(i < fields@.len() ==> fs[i as int].0 == fields@[i as int].0@);
            fields.insert(i, (key, value));
            assert(field_views(fields@) =~= fs.insert(i as int, (kv, vv)));
        },
    }
}

/// Where a key is found it stands; where it is not, no field has it.
pub proof fn lemma_key_at_range(fs: Seq<(Seq<char>, JsonV)>, key: Seq<char>)
    ensures
        key_at(fs, key) matches Some(i) ==> 0 <= i < fs.len() && fs[i].0 == key,
        key_at(fs, key) is None ==> forall|i: int| 0 <= i < fs.len() ==> (#[trigger] fs[i]).0 != key,
    decreases fs.len(),
{
    if fs.len() > 0 {
        lemma_key_at_range(fs.drop_last(), key);
        if key_at(fs, key) is None {
            assert forall|i: int| 0 <= i < fs.len() implies (#[trigger] fs[i]).0 != key by {
                if i < fs.len() - 1 {
                    assert(fs.drop_last()[i].0 != key);
                }
            }
        }
    }
}

proof fn lemma_key_at_first(fs: Seq<(Seq<char>, JsonV)>, key: Seq<char>, i: int)
    requires
        0 <= i < fs.len(),
        fs[i].0 == key,
        forall|k: int| 0 <= k < i ==> (#[trigger] fs[k]).0 != key,
    ensures
        key_at(fs, key) == Some(i),
    decreases fs.len(),
{
    lemma_key_at_range(fs.drop_last(), key);
    if i < fs.len() - 1 {
        assert forall|k: int| 0 <= k < i implies (#[trigger] fs.drop_last()[k]).0 != key by {
            assert(fs[k].0 != key);
        }
        lemma_key_at_first(fs.drop_last(), key, i);
    } else {
        if let Some(j) = key_at(fs.drop_last(), key) {
            assert(fs[j].0 == key);
        }
    }
}

proof fn lemma_key_before_is_absent(fs: Seq<(Seq<char>, JsonV)>, key: Seq<char>, i: int, k: int)
    requires
        key_at(fs, key) == Some(i),
        0 <= k < i,
    ensures
        fs[k].0 != key,
    decreases fs.len(),
{
    if fs.len() > 0 {
        lemma_key_at_range(fs.drop_last(), key);
        if let Some(j) = key_at(fs.drop_last(), key) {
            lemma_key_before_is_absent(fs.drop_last(), key, j, k);
        } else {
            assert(fs.drop_last()[k].0 != key);
        }
    }
}

proof fn lemma_slot_range(fs: Seq<(Seq<char>, JsonV)>, key: Seq<char>)
    ensures
        0 <= slot(fs, key) <= fs.len(),
    decreases fs.len(),
{
    if fs.len() > 0 && precedes(fs[0].0, key) {
        lemma_slot_range(fs.drop_first(), key);
    }
}

/// Setting a field leaves the value of every other field as it is.
pub proof fn lemma_other_field_stays(
    fs: Seq<(Seq<char>, JsonV)>,
    key: Seq<char>,
    value: JsonV,
    other: Seq<char>,
)
    requires
        other != key,
    ensures
        field(JsonV::Object(with_field(fs, key, value)), other) == field(JsonV::Object(fs), other),
{
    let after = with_field(fs, key, value);
    lemma_key_at_range(fs, key);
    lemma_key_at_range(fs, other);
    lemma_key_at_range(after, other);
    lemma_slot_range(fs, key);
    match key_at(fs, key) {
        Some(at) => {
            if let Some(i) = key_at(fs, other) {
                assert forall|k: int| 0 <= k < i implies (#[trigger] after[k]).0 != other by {
                    lemma_key_before_is_absent(fs, other, i, k);
                }
                lemma_key_at_first(after, other, i);
            } else if let Some(j) = key_at(after, other) {
                assert(fs[j].0 != other);
            }
        },
        None => {
            let at = slot(fs, key);
            if let Some(i) = key_at(fs, other) {
                let to = if i < at {
                    i
                } else {
                    i + 1
                };
                assert(after[to] == fs[i]);
                assert forall|k: int| 0 <= k < to implies (#[trigger] after[k]).0 != other by {
                    if k < at {
                        lemma_key_before_is_absent(fs, other, i, k);
                    } else if k > at {
                        lemma_key_before_is_absent(fs, other, i, k - 1);
                    }
                }
                lemma_key_at_first(after, other, to);
            } else if let Some(j) = key_at(after, other) {
                if j < at {
                    assert(fs[j].0 != other);
                } else if j > at {
                    assert(fs[j - 1].0 != other);
                }
            }
        },
    }
}

/// Setting a field gives it its value.
pub proof fn lemma_field_is_set(fs: Seq<(Seq<char>, JsonV)>, key: Seq<char>, value: JsonV)
    ensures
        field(JsonV::Object(with_field(fs, key, value)), key) == Some(value),
{
    let after = with_field(fs, key, value);
    lemma_key_at_range(fs, key);
    lemma_slot_range(fs, key);
    match key_at(fs, key) {
        Some(at) => {
            assert forall|k: int| 0 <= k < at implies (#[trigger] after[k]).0 != key by {
                lemma_key_before_is_absent(fs, key, at, k);
            }
            lemma_key_at_first(after, key, at);
        },
        None => {
            let at = slot(fs, key);
            assert forall|k: int| 0 <= k < at implies (#[trigger] after[k]).0 != key by {
                assert(fs[k].0 != key);
            }
            lemma_key_at_first(after, key, at);
        },
    }
}

// ------------------------------------------------------------ JSON text

/// A value as the `serde_json` crate holds it.
#[verifier::external_type_specification]
#[verifier::external_body]
pub struct ExValue(serde_json::Value);

/// What a `serde_json::Value` holds.
pub uninterp spec fn value_content(v: serde_json::Value) -> JsonV;

/// What `serde_json` reads from a text; `None` where it refuses the text.
pub uninterp spec fn parsed_json(text: Seq<char>) -> Option<JsonV>;

/// The text that `serde_json` writes for a value.
pub uninterp spec fn rendered_json(v: JsonV) -> Seq<char>;

/// What `serde_json` holds once a value has been handed to it: repeated names
/// fall together, names are put in order, number texts are read as numbers.
pub uninterp spec fn settled_json(v: JsonV) -> JsonV;

/// Whether `serde_json` holds the value as it stands: each object has its names
/// once and in order, each number is a whole one of 64 bits, in its own digits.
pub open spec fn canonical(v: JsonV) -> bool
    decreases v,
{
    match v {
        JsonV::Number(t) => whole_in(v) is Some && t == decimal(whole_in(v)->0),
        JsonV::Array(items) => forall|i: int|
            0 <= i < items.len() ==> canonical(#[trigger] items[i]),
        JsonV::Object(fields) => {
            &&& forall|i: int, j: int|
                0 <= i < j < fields.len() ==> precedes(
                    (#[trigger] fields[i]).0,
                    (#[trigger] fields[j]).0,
                )
            &&& forall|i: int| 0 <= i < fields.len() ==> canonical((#[trigger] fields[i]).1)
        },
        _ => true,
    }
}

/// The text that a value is written as.
pub open spec fn written(v: JsonV) -> Seq<char> {
    rendered_json(settled_json(v))
}

/// Calls `serde_json::from_str`. Its result depends on the text alone.
#[verifier::external_body]
fn read_value(text: &str) -> (r: Option<serde_json::Value>)
    ensures
        match r {
            Some(v) => parsed_json(text@) == Some(value_content(v)),
            None => parsed_json(text@) is None,
        },
{
    serde_json::from_str::<serde_json::Value>(text).ok()
}

/// Copies a `serde_json::Value` out, variant by variant; a number as the text
/// that its `Display` writes.
#[verifier::external_body]
fn copy_out(v: &serde_json::Value) -> (r: Json)
    ensures
        r@ == value_content(*v),
{
    match v {
        serde_json::Value::Null => Json::Null,
        serde_json::Value::Bool(b) => Json::Bool(*b),
        serde_json::Value::Number(n) => Json::Number(n.to_string()),
        serde_json::Value::String(t) => Json::Str(t.clone()),
        serde_json::Value::Array(items) => Json::Array(items.iter().map(copy_out).collect()),
        serde_json::Value::Object(fields) => Json::Object(
            fields.iter().map(|(k, v)| (k.clone(), copy_out(v))).collect(),
        ),
    }
}

/// Builds the `serde_json::Value` for a value, variant by variant; the result
/// depends on the value alone, and holds a [`canonical`] value as it stands. A
/// number whose text is no number becomes null.
#[verifier::external_body]
fn copy_in(j: &Json) -> (r: serde_json::Value)
    ensures
        value_content(r) == settled_json(j@),
        canonical(j@) ==> value_content(r) == j@,
{
    match j {
        Json::Null => serde_json::Value::Null,
        Json::Bool(b) => serde_json::Value::Bool(*b),
        Json::Number(t) => serde_json::from_str::<serde_json::Number>(t).map_or(
            serde_json::Value::Null,
            serde_json::Value::Number,
        ),
        Json::Str(t) => serde_json::Value::String(t.clone()),
        Json::Array(items) => serde_json::Value::Array(items.iter().map(copy_in).collect()),
        Json::Object(fields) => serde_json::Value::Object(
            fields.iter().map(|f| (f.0.clone(), copy_in(&f.1))).collect(),
        ),
    }
}

/// Calls `Display` of `serde_json::Value`, the compact form. Its result depends
/// on the content of the value alone.
#[verifier::external_body]
fn write_value(v: &serde_json::Value) -> (r: String)
    ensures
        r@ == rendered_json(value_content(*v)),
{
    v.to_string()
}

/// The text that `serde_json` writes for a value over several lines.
pub uninterp spec fn pretty_json(v: JsonV) -> Seq<char>;

/// Calls `serde_json::to_string_pretty`. The result depends on the content of
/// the value alone; on a `Value`, which has text for names alone, it does not
/// fail.
#[verifier::external_body]
fn write_pretty(v: &serde_json::Value) -> (r: String)
    ensures
        r@ == pretty_json(value_content(*v)),
{
    serde_json::to_string_pretty(v).unwrap_or_default()
}

/// Why `serde_json` refuses a text; `None` where it reads it.
pub uninterp spec fn json_refusal(text: Seq<char>) -> Option<Seq<char>>;

/// Calls `serde_json::from_str`, and `Display` of the error that it returns. The
/// result depends on the text alone; there is an error exactly where the text is
/// not read.
#[verifier::external_body]
pub(crate) fn why_not_json(text: &str) -> (r: Option<String>)
    ensures
        match r {
            Some(e) => json_refusal(text@) == Some(e@) && parsed_json(text@) is None,
            None => json_refusal(text@) is None && parsed_json(text@) is Some,
        },
{
    serde_json::from_str::<serde_json::Value>(text).err().map(|e| e.to_string())
}

/// The whole part that `serde_json` reads from the text of a number, brought
/// into the range of 64 bits; `None` where the text is no number.
pub uninterp spec fn whole_part(number: Seq<char>) -> Option<nat>;

/// Reads a number with `serde_json::from_str` and takes its floating-point value
/// with `serde_json::Number::as_f64`, cast to 64 bits. The result depends on the
/// text alone.
#[verifier::external_body]
fn read_whole_part(number: &str) -> (r: Option<u64>)
    ensures
        match r {
            Some(n) => whole_part(number@) == Some(n as nat),
            None => whole_part(number@) is None,
        },
{
    serde_json::from_str::<serde_json::Number>(number).ok()?.as_f64().map(|f| f as u64)
}

/// The number in `v`; one that is not written as a whole number loses its
/// fraction.
pub open spec fn number_in(v: JsonV) -> Option<nat> {
    match (whole_in(v), v) {
        (Some(n), _) => Some(n),
        (None, JsonV::Number(t)) => whole_part(t),
        _ => None,
    }
}

/// Reads a number, also from a provider that writes it with a fraction.
pub fn json_u64(v: &Json) -> (r: Option<u64>)
    ensures
        match r {
            Some(n) => number_in(v@) == Some(n as nat),
            None => number_in(v@) is None,
        },
{
    match v.as_u64() {
        Some(n) => Some(n),
        None => match v {
            Json::Number(t) => read_whole_part(t.as_str()),
            _ => None,
        },
    }
}

impl Json {
    /// Reads a JSON text; `None` where it is not one.
    pub fn parse(text: &str) -> (r: Option<Json>)
        ensures
            match r {
                Some(j) => parsed_json(text@) == Some(j@),
                None => parsed_json(text@) is None,
            },
    {
        match read_value(text) {
            Some(v) => Some(copy_out(&v)),
            None => None,
        }
    }

    /// The JSON text of this value, over several lines.
    pub fn render_pretty(&self) -> (r: String)
        ensures
            r@ == pretty_json(settled_json(self@)),
            canonical(self@) ==> r@ == pretty_json(self@),
    {
        write_pretty(&copy_in(self))
    }

    /// The compact JSON text of this value.
    pub fn render(&self) -> (r: String)
        ensures
            r@ == written(self@),
            canonical(self@) ==> r@ == rendered_json(self@),
    {
        write_value(&copy_in(self))
    }
}

// ------------------------------------------------------------ laws

/// A field is found under its name: the first that has it counts, and a name that no
/// field has is not found.
pub proof fn law_fields_are_found_by_name(fs: Seq<(Seq<char>, JsonV)>, i: int, key: Seq<char>)
    ensures
        0 <= i < fs.len() && (forall|k: int| 0 <= k < i ==> (#[trigger] fs[k]).0 != fs[i].0)
            ==> field(JsonV::Object(fs), fs[i].0) == Some(fs[i].1),
        (forall|k: int| 0 <= k < fs.len() ==> (#[trigger] fs[k]).0 != key) ==> field(
            JsonV::Object(fs),
            key,
        ) is None,
        field(JsonV::Object(fs), key) matches Some(v) ==> exists|k: int|
            0 <= k < fs.len() && #[trigger] fs[k] == (key, v),
{
    if 0 <= i < fs.len() && (forall|k: int| 0 <= k < i ==> (#[trigger] fs[k]).0 != fs[i].0) {
        lemma_key_at_first(fs, fs[i].0, i);
    }
    lemma_key_at_range(fs, key);
    if let Some(k) = key_at(fs, key) {
        assert(fs[k] == (key, fs[k].1));
    }
}

} // verus!

//! JSON values: what plugins send, and what the host sends them.

use vstd::prelude::*;

use crate::text::{opt_view, same, views};

verus! {

/// A JSON number: an integer in the range of `u64` or of `i64`, or the bits of a double.
#[derive(Clone, Copy, Debug, PartialEq, Eq, Structural)]
pub enum Number {
    /// An integer that is not negative.
    Pos(u64),
    /// A negative integer.
    Neg(i64),
    /// Any other number, by the bits of its binary64 form.
    Float(u64),
}

/// A JSON value.
#[derive(Debug)]
pub enum Json {
    Null,
    Bool(bool),
    Number(Number),
    Str(String),
    Array(Vec<Json>),
    Object(Vec<(String, Json)>),
}

/// What a JSON value is, whatever holds it in memory.
pub enum JsonView {
    Null,
    Bool(bool),
    Number(Number),
    Str(Seq<char>),
    Array(Seq<JsonView>),
    Object(Seq<(Seq<char>, JsonView)>),
}

/// The value of the first field called `key`.
pub open spec fn find_field(fields: Seq<(Seq<char>, JsonView)>, key: Seq<char>) -> Option<JsonView>
    decreases fields.len(),
{
    if fields.len() == 0 {
        None
    } else if fields[0].0 == key {
        Some(fields[0].1)
    } else {
        find_field(fields.drop_first(), key)
    }
}

/// The field `key` is the first with that key: the one at `n`, where `n` is one
/// past the end where there is none.
pub proof fn lemma_find_at(fields: Seq<(Seq<char>, JsonView)>, key: Seq<char>, n: int)
    requires
        0 <= n <= fields.len(),
        forall|i: int| 0 <= i < n ==> (#[trigger] fields[i]).0 != key,
        n < fields.len() ==> fields[n].0 == key,
    ensures
        find_field(fields, key) == (if n < fields.len() {
            Some(fields[n].1)
        } else {
            None
        }),
    decreases fields.len(),
{
    if n > 0 {
        let rest = fields.drop_first();
        assert forall|i: int| 0 <= i < n - 1 implies (#[trigger] rest[i]).0 != key by {
            assert(fields[i + 1].0 != key);
        }
        lemma_find_at(rest, key, n - 1);
    }
}

impl JsonView {
    /// The field `key` of an object; no other value has fields.
    pub open spec fn field(self, key: Seq<char>) -> Option<JsonView> {
        match self {
            JsonView::Object(fields) => find_field(fields, key),
            _ => None,
        }
    }

    /// The text of a string.
    pub open spec fn text(self) -> Option<Seq<char>> {
        match self {
            JsonView::Str(s) => Some(s),
            _ => None,
        }
    }

    /// The field `key`, where it is a string.
    pub open spec fn text_field(self, key: Seq<char>) -> Option<Seq<char>> {
        match self.field(key) {
            Some(v) => v.text(),
            None => None,
        }
    }

    /// The items of an array.
    pub open spec fn items(self) -> Option<Seq<JsonView>> {
        match self {
            JsonView::Array(s) => Some(s),
            _ => None,
        }
    }

    /// The field `key`, where it is an array.
    pub open spec fn items_field(self, key: Seq<char>) -> Option<Seq<JsonView>> {
        match self.field(key) {
            Some(v) => v.items(),
            None => None,
        }
    }

    /// The value of a number that fits `u64`.
    pub open spec fn unsigned(self) -> Option<u64> {
        match self {
            JsonView::Number(Number::Pos(n)) => Some(n),
            _ => None,
        }
    }

    /// The field `key`, where it is a number that fits `u64`.
    pub open spec fn unsigned_field(self, key: Seq<char>) -> Option<u64> {
        match self.field(key) {
            Some(v) => v.unsigned(),
            None => None,
        }
    }

    /// The value of a number that fits `i64`.
    pub open spec fn signed(self) -> Option<i64> {
        match self {
            JsonView::Number(Number::Pos(n)) => if n <= i64::MAX {
                Some(n as i64)
            } else {
                None
            },
            JsonView::Number(Number::Neg(n)) => Some(n),
            _ => None,
        }
    }

    /// The field `key`, where it is a number that fits `i64`.
    pub open spec fn signed_field(self, key: Seq<char>) -> Option<i64> {
        match self.field(key) {
            Some(v) => v.signed(),
            None => None,
        }
    }

    /// The value of a boolean.
    pub open spec fn truth(self) -> Option<bool> {
        match self {
            JsonView::Bool(b) => Some(b),
            _ => None,
        }
    }

    /// The field `key`, where it is a boolean.
    pub open spec fn truth_field(self, key: Seq<char>) -> Option<bool> {
        match self.field(key) {
            Some(v) => v.truth(),
            None => None,
        }
    }
}

/// The views of the items of an array.
pub open spec fn item_views(v: Seq<Json>) -> Seq<JsonView> {
    Seq::new(v.len(), |i: int| v[i]@)
}

/// The views of the fields of an object.
pub open spec fn field_views(v: Seq<(String, Json)>) -> Seq<(Seq<char>, JsonView)> {
    Seq::new(v.len(), |i: int| (v[i].0@, v[i].1@))
}

/// What `j` is, whatever holds it in memory.
pub open spec fn json_view(j: Json) -> JsonView
    decreases j,
{
    match j {
        Json::Null => JsonView::Null,
        Json::Bool(b) => JsonView::Bool(b),
        Json::Number(n) => JsonView::Number(n),
        Json::Str(s) => JsonView::Str(s@),
        Json::Array(v) => JsonView::Array(
            Seq::new(
                v@.len(),
                |i: int|
                    if 0 <= i < v@.len() {
                        json_view(v@[i])
                    } else {
                        JsonView::Null
                    },
            ),
        ),
        Json::Object(v) => JsonView::Object(
            Seq::new(
                v@.len(),
                |i: int|
                    if 0 <= i < v@.len() {
                        (v@[i].0@, json_view(v@[i].1))
                    } else {
                        (Seq::empty(), JsonView::Null)
                    },
            ),
        ),
    }
}

impl View for Json {
    type V = JsonView;

    open spec fn view(&self) -> JsonView {
        json_view(*self)
    }
}

/// The view of an array is the array of the views of its items.
pub broadcast proof fn array_view(v: Vec<Json>)
    ensures
        #[trigger] Json::Array(v)@ == JsonView::Array(item_views(v@)),
{
    reveal_with_fuel(json_view, 2);
    let w = Json::Array(v)@->Array_0;
    assert(w =~= item_views(v@));
}

/// The view of an object is the object of the views of its fields.
pub broadcast proof fn object_view(v: Vec<(String, Json)>)
    ensures
        #[trigger] Json::Object(v)@ == JsonView::Object(field_views(v@)),
{
    reveal_with_fuel(json_view, 2);
    let w = Json::Object(v)@->Object_0;
    assert(w =~= field_views(v@));
}

/// Items with the same views.
fn copied_items(v: &Vec<Json>) -> (w: Vec<Json>)
    ensures
        item_views(w@) == item_views(v@),
    decreases v,
{
    let mut w: Vec<Json> = Vec::new();
    let mut i: usize = 0;
    while i < v.len()
        invariant
            i <= v.len(),
            w@.len() == i,
            forall|j: int| 0 <= j < i ==> (#[trigger] w@[j])@ == v@[j]@,
        decreases v.len() - i,
    {
        assert(decreases_to!(v => v@[i as int]));
        let c = v[i].copied();
        w.push(c);
        i += 1;
    }
    assert(item_views(w@) =~= item_views(v@));
    w
}

/// Fields with the same names and views.
fn copied_fields(v: &Vec<(String, Json)>) -> (w: Vec<(String, Json)>)
    ensures
        field_views(w@) == field_views(v@),
    decreases v,
{
    let mut w: Vec<(String, Json)> = Vec::new();
    let mut i: usize = 0;
    while i < v.len()
        invariant
            i <= v.len(),
            w@.len() == i,
            forall|j: int|
                0 <= j < i ==> (#[trigger] w@[j]).0@ == v@[j].0@ && w@[j].1@ == v@[j].1@,
        decreases v.len() - i,
    {
        assert(decreases_to!(v => v@[i as int]));
        let c = v[i].1.copied();
        w.push((v[i].0.clone(), c));
        i += 1;
    }
    assert(field_views(w@) =~= field_views(v@));
    w
}

impl Clone for Json {
    fn clone(&self) -> (r: Self)
        ensures
            r@ == self@,
    {
        self.copied()
    }
}

impl Json {
    /// A value with the same view.
    pub fn copied(&self) -> (r: Json)
        ensures
            r@ == self@,
        decreases self,
    {
        broadcast use array_view, object_view;

        match self {
            Json::Null => Json::Null,
            Json::Bool(b) => Json::Bool(*b),
            Json::Number(n) => Json::Number(*n),
            Json::Str(s) => Json::Str(s.clone()),
            Json::Array(v) => Json::Array(copied_items(v)),
            Json::Object(v) => Json::Object(copied_fields(v)),
        }
    }

    /// The field `key` of an object.
    pub fn get(&self, key: &str) -> (r: Option<&Json>)
        ensures
            match r {
                Some(v) => self@.field(key@) == Some(v@),
                None => self@.field(key@) is None,
            },
    {
        broadcast use object_view;

        match self {
            Json::Object(v) => {
                let ghost all = field_views(v@);
                let mut i: usize = 0;
                assert(all.skip(0) =~= all);
                while i < v.len()
                    invariant
                        i <= v.len(),
                        *self == Json::Object(*v),
                        self@ == JsonView::Object(all),
                        all == field_views(v@),
                        find_field(all, key@) == find_field(all.skip(i as int), key@),
                    decreases v.len() - i,
                {
                    let ghost rest = all.skip(i as int);
                    if same(v[i].0.as_str(), key) {
                        assert(rest[0] == all[i as int]);
                        return Some(&v[i].1);
                    }
                    assert(rest.drop_first() =~= all.skip(i + 1));
                    i += 1;
                }
                None
            },
            _ => None,
        }
    }

    /// The text of a string.
    pub fn as_str(&self) -> (r: Option<&String>)
        ensures
            match r {
                Some(s) => self@.text() == Some(s@),
                None => self@.text() is None,
            },
    {
        match self {
            Json::Str(s) => Some(s),
            _ => None,
        }
    }

    /// A copy of the field `key`, where it is a string.
    pub fn get_str(&self, key: &str) -> (r: Option<String>)
        ensures
            opt_view(r) == self@.text_field(key@),
    {
        match self.get(key) {
            Some(v) => match v.as_str() {
                Some(s) => Some(s.clone()),
                None => None,
            },
            None => None,
        }
    }

    /// Whether the field `key` is the string `want`.
    pub fn field_is(&self, key: &str, want: &str) -> (r: bool)
        ensures
            r == (self@.text_field(key@) == Some(want@)),
    {
        match self.get(key) {
            Some(v) => match v.as_str() {
                Some(s) => same(s.as_str(), want),
                None => false,
            },
            None => false,
        }
    }

    /// The items of an array.
    pub fn as_array(&self) -> (r: Option<&Vec<Json>>)
        ensures
            match r {
                Some(v) => self@.items() == Some(item_views(v@)),
                None => self@.items() is None,
            },
    {
        broadcast use array_view;

        match self {
            Json::Array(v) => Some(v),
            _ => None,
        }
    }

    /// The items of the field `key`, where it is an array.
    pub fn get_array(&self, key: &str) -> (r: Option<&Vec<Json>>)
        ensures
            match r {
                Some(v) => self@.items_field(key@) == Some(item_views(v@)),
                None => self@.items_field(key@) is None,
            },
    {
        match self.get(key) {
            Some(v) => v.as_array(),
            None => None,
        }
    }

    /// The field `key`, where it is a number that fits `u64`.
    pub fn get_u64(&self, key: &str) -> (r: Option<u64>)
        ensures
            r == self@.unsigned_field(key@),
    {
        match self.get(key) {
            Some(Json::Number(Number::Pos(n))) => Some(*n),
            _ => None,
        }
    }

    /// The field `key`, where it is a number that fits `i64`.
    pub fn get_i64(&self, key: &str) -> (r: Option<i64>)
        ensures
            r == self@.signed_field(key@),
    {
        match self.get(key) {
            Some(Json::Number(Number::Pos(n))) => if *n <= i64::MAX as u64 {
                Some(*n as i64)
            } else {
                None
            },
            Some(Json::Number(Number::Neg(n))) => Some(*n),
            _ => None,
        }
    }

    /// The field `key`, where it is a boolean.
    pub fn get_bool(&self, key: &str) -> (r: Option<bool>)
        ensures
            r == self@.truth_field(key@),
    {
        match self.get(key) {
            Some(Json::Bool(b)) => Some(*b),
            _ => None,
        }
    }
}

/// Appends the field `key` to the fields of an object.
pub fn put_field(fields: &mut Vec<(String, Json)>, key: &str, value: Json)
    ensures
        field_views(final(fields)@) == field_views(old(fields)@).push((key@, value@)),
{
    fields.push((key.to_owned(), value));
    assert(field_views(fields@) =~= field_views(old(fields)@).push((key@, value@)));
}

/// An array of strings.
pub open spec fn text_array(v: Seq<Seq<char>>) -> JsonView {
    JsonView::Array(v.map_values(|s: Seq<char>| JsonView::Str(s)))
}

/// A string value.
pub fn text_value(s: &str) -> (r: Json)
    ensures
        r@ == JsonView::Str(s@),
{
    Json::Str(s.to_owned())
}

/// An array of strings.
pub fn strings_value(v: &Vec<String>) -> (r: Json)
    ensures
        r@ == text_array(views(v@)),
{
    broadcast use array_view;

    let mut w: Vec<Json> = Vec::new();
    let mut i: usize = 0;
    while i < v.len()
        invariant
            i <= v.len(),
            w@.len() == i,
            forall|j: int| 0 <= j < i ==> (#[trigger] w@[j])@ == JsonView::Str(v@[j]@),
        decreases v.len() - i,
    {
        w.push(Json::Str(v[i].clone()));
        i += 1;
    }
    assert(item_views(w@) =~= views(v@).map_values(|s: Seq<char>| JsonView::Str(s)));
    Json::Array(w)
}

/// An object with the given fields.
pub fn object(fields: Vec<(String, Json)>) -> (r: Json)
    ensures
        r@ == JsonView::Object(field_views(fields@)),
{
    broadcast use object_view;

    Json::Object(fields)
}

} // verus!

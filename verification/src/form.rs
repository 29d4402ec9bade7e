//! The values of a form while it is filled in.

use vstd::prelude::*;

use crate::json::{field_views, find_field, lemma_find_at, object_view, Json, JsonView};
use crate::table::Table;
use crate::text::copy_opt;
use crate::views::{seq_views, FieldKind, FieldView, FormData, FormField, FormValue, ValueView};

verus! {

/// The value that a field starts with: its own, else off for a toggle and the
/// empty text for the others.
pub open spec fn initial_value(field: FieldView) -> ValueView {
    match field.value {
        Some(v) => v,
        None => if field.kind == FieldKind::Toggle {
            ValueView::Bool(false)
        } else {
            ValueView::String(Seq::empty())
        },
    }
}

/// The values that the fields start with; of two fields with the same id the
/// later counts.
pub open spec fn initial_values(fields: Seq<FieldView>) -> Map<Seq<char>, ValueView>
    decreases fields.len(),
{
    if fields.len() == 0 {
        Map::empty()
    } else {
        initial_values(fields.drop_last()).insert(fields.last().id, initial_value(fields.last()))
    }
}

/// The value that a field starts with.
fn start_value(field: &FormField) -> (r: FormValue)
    ensures
        r@ == initial_value(field@),
{
    match &field.value {
        Some(v) => v.clone(),
        None => match field.kind {
            FieldKind::Toggle => FormValue::Bool(false),
            _ => {
                let s = String::new();
                assert(s@ =~= Seq::<char>::empty());
                FormValue::String(s)
            },
        },
    }
}

/// The values that the fields start with.
fn start_values(fields: &Vec<FormField>) -> (r: Table<String, FormValue>)
    ensures
        r@ == initial_values(seq_views(fields@)),
{
    let ghost all = seq_views(fields@);
    let mut r: Table<String, FormValue> = Table::new();
    assert(all.take(0) =~= Seq::<FieldView>::empty());
    let mut i: usize = 0;
    while i < fields.len()
        invariant
            i <= fields.len(),
            all == seq_views(fields@),
            r@ == initial_values(all.take(i as int)),
        decreases fields.len() - i,
    {
        assert(all.take(i + 1).drop_last() =~= all.take(i as int));
        assert(all.take(i + 1).last() == fields@[i as int]@);
        r.set(fields[i].id.clone(), start_value(&fields[i]));
        i += 1;
    }
    assert(all.take(all.len() as int) =~= all);
    r
}

/// What has been filled into a form: the values by field id.
pub struct FormState {
    values: Table<String, FormValue>,
}

impl View for FormState {
    type V = Map<Seq<char>, ValueView>;

    closed spec fn view(&self) -> Map<Seq<char>, ValueView> {
        self.values@
    }
}

impl FormState {
    /// The values of a form when it is first shown.
    pub fn new(fields: &Vec<FormField>) -> (r: Self)
        ensures
            r@ == initial_values(seq_views(fields@)),
    {
        FormState { values: start_values(fields) }
    }

    /// Turns a switch over. A field without a switch value counts as off.
    pub fn toggle(&mut self, field_id: &str)
        ensures
            final(self)@ == toggled(old(self)@, field_id@),
    {
        let id = field_id.to_owned();
        let on = match self.values.get(&id) {
            Some(FormValue::Bool(b)) => *b,
            _ => false,
        };
        self.values.set(id, FormValue::Bool(!on));
    }

    /// Chooses an option of a select field.
    pub fn select_field(&mut self, field_id: &str, option_id: &str)
        ensures
            final(self)@ == old(self)@.insert(field_id@, ValueView::String(option_id@)),
    {
        self.values.set(field_id.to_owned(), FormValue::String(option_id.to_owned()));
    }

    /// The value of a field.
    pub fn value(&self, field_id: &str) -> (r: Option<&FormValue>)
        ensures
            match r {
                Some(v) => self@.contains_key(field_id@) && self@[field_id@] == v@,
                None => !self@.contains_key(field_id@),
            },
    {
        self.values.get(&field_id.to_owned())
    }

    /// The values as they are submitted.
    pub fn submission(&self) -> (r: Json)
        ensures
            submits(r@, self@),
    {
        form_values_to_json(&self.values)
    }
}

/// The values with a switch turned over. A field without a switch value counts as off.
pub open spec fn toggled(values: Map<Seq<char>, ValueView>, id: Seq<char>) -> Map<
    Seq<char>,
    ValueView,
> {
    values.insert(
        id,
        ValueView::Bool(!(values.contains_key(id) && values[id] == ValueView::Bool(true))),
    )
}

/// The label of the button that submits a form.
pub fn submit_label(data: &FormData) -> (r: String)
    ensures
        r@ == (match data@.submit_label {
            Some(s) => s,
            None => "Submit"@,
        }),
{
    match copy_opt(&data.submit_label) {
        Some(s) => s,
        None => "Submit".to_owned(),
    }
}

/// A value in JSON.
pub open spec fn value_json(v: ValueView) -> JsonView {
    match v {
        ValueView::String(s) => JsonView::Str(s),
        ValueView::Bool(b) => JsonView::Bool(b),
    }
}

/// Whether a JSON value is an object with one field for each value, and no other.
pub open spec fn submits(j: JsonView, values: Map<Seq<char>, ValueView>) -> bool {
    &&& j is Object
    &&& forall|k: Seq<char>| #[trigger]
        j.field(k) == if values.contains_key(k) {
            Some(value_json(values[k]))
        } else {
            None
        }
    &&& forall|a: int, b: int|
        0 <= a < b < j->Object_0.len() ==> (#[trigger] j->Object_0[a]).0 != (
        #[trigger] j->Object_0[b]).0
}

/// The values as they are submitted.
pub fn form_values_to_json(values: &Table<String, FormValue>) -> (r: Json)
    ensures
        submits(r@, values@),
{
    broadcast use object_view;

    let keys = values.keys();
    let mut fields: Vec<(String, Json)> = Vec::new();
    let mut i: usize = 0;
    while i < keys.len()
        invariant
            i <= keys.len(),
            forall|k: Seq<char>| #[trigger]
                values@.contains_key(k) <==> exists|n: int|
                    0 <= n < keys@.len() && (#[trigger] keys@[n])@ == k,
            fields@.len() == i,
            forall|n: int|
                0 <= n < i ==> (#[trigger] fields@[n]).0@ == keys@[n]@ && fields@[n].1@
                    == value_json(values@[keys@[n]@]),
        decreases keys.len() - i,
    {
        assert(values@.contains_key(keys@[i as int]@));
        let value = match values.get(&keys[i]) {
            Some(FormValue::String(s)) => Json::Str(s.clone()),
            Some(FormValue::Bool(b)) => Json::Bool(*b),
            None => Json::Null,
        };
        fields.push((keys[i].clone(), value));
        i += 1;
    }
    let ghost shown = field_views(fields@);
    proof {
        assert forall|a: int, b: int| 0 <= a < b < shown.len() implies (#[trigger] shown[a]).0 != (
        #[trigger] shown[b]).0 by {
            assert(keys@[a]@ != keys@[b]@);
        }
        assert forall|k: Seq<char>| find_field(shown, k) == if values@.contains_key(k) {
            Some(value_json(values@[k]))
        } else {
            None
        } by {
            if values@.contains_key(k) {
                let n = choose|n: int| 0 <= n < keys@.len() && (#[trigger] keys@[n])@ == k;
                assert(shown[n].0 == k);
                lemma_find_at(shown, k, n);
            } else {
                assert forall|n: int| 0 <= n < shown.len() implies (#[trigger] shown[n]).0 != k by {
                    assert(keys@[n]@ == shown[n].0);
                }
                lemma_find_at(shown, k, shown.len() as int);
            }
        }
    }
    Json::Object(fields)
}

/// How a field is shown.
#[derive(Debug, PartialEq, Eq)]
pub enum FieldDisplay {
    /// A switch, on or off.
    Toggle(bool),
    /// The options, with the chosen one's id.
    Select(String),
    /// A text.
    Text(String),
}

/// What a [`FieldDisplay`] is.
pub enum DisplayView {
    Toggle(bool),
    Select(Seq<char>),
    Text(Seq<char>),
}

impl View for FieldDisplay {
    type V = DisplayView;

    open spec fn view(&self) -> DisplayView {
        match *self {
            FieldDisplay::Toggle(b) => DisplayView::Toggle(b),
            FieldDisplay::Select(s) => DisplayView::Select(s@),
            FieldDisplay::Text(s) => DisplayView::Text(s@),
        }
    }
}

/// How a field with the given value is shown: a text field without a text value
/// shows its placeholder.
pub open spec fn displayed(
    kind: FieldKind,
    placeholder: Option<Seq<char>>,
    value: Option<ValueView>,
) -> DisplayView {
    match kind {
        FieldKind::Toggle => DisplayView::Toggle(value == Some(ValueView::Bool(true))),
        FieldKind::Select => DisplayView::Select(
            match value {
                Some(ValueView::String(s)) => s,
                _ => Seq::empty(),
            },
        ),
        _ => DisplayView::Text(
            match value {
                Some(ValueView::String(s)) => s,
                _ => match placeholder {
                    Some(s) => s,
                    None => Seq::empty(),
                },
            },
        ),
    }
}

/// How a field with the given value is shown.
pub fn display_field(field: &FormField, value: Option<&FormValue>) -> (r: FieldDisplay)
    ensures
        r@ == displayed(
            field@.kind,
            field@.placeholder,
            match value {
                Some(v) => Some(v@),
                None => None,
            },
        ),
{
    let empty = String::new();
    assert(empty@ =~= Seq::<char>::empty());
    match field.kind {
        FieldKind::Toggle => FieldDisplay::Toggle(
            match value {
                Some(FormValue::Bool(b)) => *b,
                _ => false,
            },
        ),
        FieldKind::Select => FieldDisplay::Select(
            match value {
                Some(FormValue::String(s)) => s.clone(),
                _ => empty,
            },
        ),
        _ => FieldDisplay::Text(
            match value {
                Some(FormValue::String(s)) => s.clone(),
                _ => match copy_opt(&field.placeholder) {
                    Some(s) => s,
                    None => empty,
                },
            },
        ),
    }
}

/// Turning a switch over twice leaves it as it was.
pub proof fn toggling_twice_restores(values: Map<Seq<char>, ValueView>, id: Seq<char>)
    requires
        values.contains_key(id),
        values[id] is Bool,
    ensures
        toggled(toggled(values, id), id) == values,
{
    assert(toggled(toggled(values, id), id) =~= values);
}

} // verus!

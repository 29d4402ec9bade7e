//! What plugins show: the views that their commands return, read from JSON.

use vstd::prelude::*;

use crate::calendar::{CalendarData, CalendarView};
use crate::json::{item_views, Json, JsonView};
use crate::results::{ItemView, ResultItem};
use crate::text::{opt_view, same};

verus! {

/// The views of a list.
pub open spec fn seq_views<T: View>(v: Seq<T>) -> Seq<T::V> {
    v.map_values(|t: T| t@)
}

/// The view of an optional value.
pub open spec fn maybe<T: View>(o: Option<T>) -> Option<T::V> {
    match o {
        Some(t) => Some(t@),
        None => None,
    }
}

/// What `f` makes of those items that it makes something of, in order.
pub open spec fn collected<T>(items: Seq<JsonView>, f: spec_fn(JsonView) -> Option<T>) -> Seq<T>
    decreases items.len(),
{
    if items.len() == 0 {
        Seq::empty()
    } else {
        let rest = collected(items.drop_last(), f);
        match f(items.last()) {
            Some(t) => rest.push(t),
            None => rest,
        }
    }
}

/// What `f` makes of those items that it makes something of, in order.
fn collect<T: View, F: Fn(&Json) -> Option<T>>(
    items: &Vec<Json>,
    f: F,
    Ghost(g): Ghost<spec_fn(JsonView) -> Option<T::V>>,
) -> (r: Vec<T>)
    requires
        forall|j: &Json| #[trigger] f.requires((j,)),
        forall|j: &Json, o: Option<T>| #[trigger] f.ensures((j,), o) ==> maybe(o) == g(j@),
    ensures
        seq_views(r@) == collected(item_views(items@), g),
{
    let ghost all = item_views(items@);
    let mut r: Vec<T> = Vec::new();
    assert(all.take(0) =~= Seq::<JsonView>::empty());
    assert(seq_views(r@) =~= Seq::<T::V>::empty());
    let mut i: usize = 0;
    while i < items.len()
        invariant
            i <= items.len(),
            all == item_views(items@),
            forall|j: &Json| #[trigger] f.requires((j,)),
            forall|j: &Json, o: Option<T>| #[trigger] f.ensures((j,), o) ==> maybe(o) == g(j@),
            seq_views(r@) == collected(all.take(i as int), g),
        decreases items.len() - i,
    {
        assert(all.take(i + 1).drop_last() =~= all.take(i as int));
        assert(all.take(i + 1).last() == items@[i as int]@);
        let o = f(&items[i]);
        if let Some(t) = o {
            let ghost before = seq_views(r@);
            r.push(t);
            assert(seq_views(r@) =~= before.push(t@));
        }
        i += 1;
    }
    assert(all.take(all.len() as int) =~= all);
    r
}

/// One action that a plugin offers with a view.
#[derive(Debug, PartialEq, Eq)]
pub struct ActionRef {
    pub id: String,
    pub title: String,
    pub icon: Option<String>,
}

/// What an [`ActionRef`] is.
pub struct ActionView {
    pub id: Seq<char>,
    pub title: Seq<char>,
    pub icon: Option<Seq<char>>,
}

impl View for ActionRef {
    type V = ActionView;

    open spec fn view(&self) -> ActionView {
        ActionView { id: self.id@, title: self.title@, icon: opt_view(self.icon) }
    }
}

/// The field `key` as text, empty where it is none.
pub open spec fn text_or_blank(j: JsonView, key: Seq<char>) -> Seq<char> {
    match j.text_field(key) {
        Some(s) => s,
        None => Seq::empty(),
    }
}

/// The field `key` as text, empty where it is none.
fn get_text(j: &Json, key: &str) -> (r: String)
    ensures
        r@ == text_or_blank(j@, key@),
{
    match j.get_str(key) {
        Some(s) => s,
        None => {
            let s = String::new();
            assert(s@ =~= Seq::<char>::empty());
            s
        },
    }
}

/// The action that a JSON value describes; one without an id is none.
pub open spec fn action_in(j: JsonView) -> Option<ActionView> {
    match j.text_field("id"@) {
        Some(id) => Some(
            ActionView {
                id,
                title: text_or_blank(j, "title"@),
                icon: j.text_field("icon"@),
            },
        ),
        None => None,
    }
}

/// The action that a JSON value describes.
fn parse_action(j: &Json) -> (r: Option<ActionRef>)
    ensures
        maybe(r) == action_in(j@),
{
    match j.get_str("id") {
        Some(id) => Some(
            ActionRef { id, title: get_text(j, "title"), icon: j.get_str("icon") },
        ),
        None => None,
    }
}

/// The view itself: what is in the field `view` of a response, or else the value as it is.
pub open spec fn unwrapped(j: JsonView) -> JsonView {
    match j.field("view"@) {
        Some(v) => v,
        None => j,
    }
}

/// The view itself.
pub fn unwrap_view(view: &Json) -> (r: &Json)
    ensures
        r@ == unwrapped(view@),
{
    match view.get("view") {
        Some(v) => v,
        None => view,
    }
}

/// Whether a view is of the given type.
pub open spec fn is_type(j: JsonView, kind: Seq<char>) -> bool {
    unwrapped(j).text_field("type"@) == Some(kind)
}

/// The actions that a view offers.
pub open spec fn actions_in(j: JsonView) -> Seq<ActionView> {
    match unwrapped(j).field("actionPanel"@) {
        Some(panel) => match panel.items_field("actions"@) {
            Some(items) => collected(items, |a: JsonView| action_in(a)),
            None => Seq::empty(),
        },
        None => Seq::empty(),
    }
}

/// The actions that a view offers.
pub fn extract_actions(view: &Json) -> (r: Vec<ActionRef>)
    ensures
        seq_views(r@) == actions_in(view@),
{
    if let Some(panel) = unwrap_view(view).get("actionPanel") {
        if let Some(items) = panel.get_array("actions") {
            return collect(items, parse_action, Ghost(|a: JsonView| action_in(a)));
        }
    }
    let r: Vec<ActionRef> = Vec::new();
    assert(seq_views(r@) =~= Seq::<ActionView>::empty());
    r
}

/// One block of a detail view.
#[derive(Debug, PartialEq, Eq)]
pub enum DetailBlock {
    /// A paragraph of text.
    Text(String),
    /// Code.
    Code { value: String, language: Option<String> },
    /// A horizontal line.
    Separator,
}

/// What a [`DetailBlock`] is.
pub enum BlockView {
    Text(Seq<char>),
    Code { value: Seq<char>, language: Option<Seq<char>> },
    Separator,
}

impl View for DetailBlock {
    type V = BlockView;

    open spec fn view(&self) -> BlockView {
        match *self {
            DetailBlock::Text(s) => BlockView::Text(s@),
            DetailBlock::Code { value, language } => BlockView::Code {
                value: value@,
                language: opt_view(language),
            },
            DetailBlock::Separator => BlockView::Separator,
        }
    }
}

/// What a detail view shows.
#[derive(Debug, PartialEq, Eq)]
pub struct DetailData {
    pub title: String,
    pub subtitle: Option<String>,
    pub blocks: Vec<DetailBlock>,
}

/// What a [`DetailData`] is.
pub struct DetailView {
    pub title: Seq<char>,
    pub subtitle: Option<Seq<char>>,
    pub blocks: Seq<BlockView>,
}

impl View for DetailData {
    type V = DetailView;

    open spec fn view(&self) -> DetailView {
        DetailView {
            title: self.title@,
            subtitle: opt_view(self.subtitle),
            blocks: seq_views(self.blocks@),
        }
    }
}

/// The block that a JSON value describes; one of an unknown type is text.
pub open spec fn block_in(j: JsonView) -> BlockView {
    if j.text_field("type"@) == Some("code"@) {
        BlockView::Code { value: text_or_blank(j, "value"@), language: j.text_field("language"@) }
    } else if j.text_field("type"@) == Some("separator"@) {
        BlockView::Separator
    } else {
        BlockView::Text(text_or_blank(j, "value"@))
    }
}

/// The block that a JSON value describes.
fn parse_block(j: &Json) -> (r: Option<DetailBlock>)
    ensures
        maybe(r) == Some(block_in(j@)),
{
    if j.field_is("type", "code") {
        Some(DetailBlock::Code { value: get_text(j, "value"), language: j.get_str("language") })
    } else if j.field_is("type", "separator") {
        Some(DetailBlock::Separator)
    } else {
        Some(DetailBlock::Text(get_text(j, "value")))
    }
}

/// What `f` makes of the items of the field `key`; nothing where it is no array.
pub open spec fn collected_in<T>(
    j: JsonView,
    key: Seq<char>,
    f: spec_fn(JsonView) -> Option<T>,
) -> Seq<T> {
    match j.items_field(key) {
        Some(items) => collected(items, f),
        None => Seq::empty(),
    }
}

/// What `f` makes of the items of the field `key`.
fn collect_in<T: View, F: Fn(&Json) -> Option<T>>(
    j: &Json,
    key: &str,
    f: F,
    Ghost(g): Ghost<spec_fn(JsonView) -> Option<T::V>>,
) -> (r: Vec<T>)
    requires
        forall|j: &Json| #[trigger] f.requires((j,)),
        forall|j: &Json, o: Option<T>| #[trigger] f.ensures((j,), o) ==> maybe(o) == g(j@),
    ensures
        seq_views(r@) == collected_in(j@, key@, g),
{
    match j.get_array(key) {
        Some(items) => collect(items, f, Ghost(g)),
        None => {
            let r: Vec<T> = Vec::new();
            assert(seq_views(r@) =~= Seq::<T::V>::empty());
            r
        },
    }
}

/// What a detail view shows; one without a title shows nothing.
pub open spec fn detail_in(j: JsonView) -> Option<DetailView> {
    let view = unwrapped(j);
    if !is_type(j, "detail"@) {
        None
    } else {
        match view.text_field("title"@) {
            Some(title) => Some(
                DetailView {
                    title,
                    subtitle: view.text_field("subtitle"@),
                    blocks: collected_in(view, "content"@, |b: JsonView| Some(block_in(b))),
                },
            ),
            None => None,
        }
    }
}

/// Reads a detail view.
pub fn parse_detail_view(view: &Json) -> (r: Option<DetailData>)
    ensures
        maybe(r) == detail_in(view@),
{
    let view = unwrap_view(view);
    if !view.field_is("type", "detail") {
        return None;
    }
    match view.get_str("title") {
        Some(title) => Some(
            DetailData {
                title,
                subtitle: view.get_str("subtitle"),
                blocks: collect_in(
                    view,
                    "content",
                    parse_block,
                    Ghost(|b: JsonView| Some(block_in(b))),
                ),
            },
        ),
        None => None,
    }
}

/// The kind of a form field.
#[derive(Debug, Clone, Copy, PartialEq, Eq, Structural)]
pub enum FieldKind {
    Text,
    Multiline,
    Password,
    Toggle,
    Select,
}

impl FieldKind {
    /// The kind of the given name.
    pub open spec fn named(s: Seq<char>) -> Option<FieldKind> {
        if s == "text"@ {
            Some(FieldKind::Text)
        } else if s == "multiline"@ {
            Some(FieldKind::Multiline)
        } else if s == "password"@ {
            Some(FieldKind::Password)
        } else if s == "toggle"@ {
            Some(FieldKind::Toggle)
        } else if s == "select"@ {
            Some(FieldKind::Select)
        } else {
            None
        }
    }

    /// The kind of the given name.
    pub fn from_wire(value: &str) -> (r: Option<Self>)
        ensures
            r == FieldKind::named(value@),
    {
        if same(value, "text") {
            Some(FieldKind::Text)
        } else if same(value, "multiline") {
            Some(FieldKind::Multiline)
        } else if same(value, "password") {
            Some(FieldKind::Password)
        } else if same(value, "toggle") {
            Some(FieldKind::Toggle)
        } else if same(value, "select") {
            Some(FieldKind::Select)
        } else {
            None
        }
    }
}

/// One option of a select field.
#[derive(Debug, PartialEq, Eq)]
pub struct FormOption {
    pub id: String,
    pub label: String,
}

/// What a [`FormOption`] is.
pub struct OptionView {
    pub id: Seq<char>,
    pub label: Seq<char>,
}

impl View for FormOption {
    type V = OptionView;

    open spec fn view(&self) -> OptionView {
        OptionView { id: self.id@, label: self.label@ }
    }
}

/// The value of a form field: a text, or a switch.
#[derive(Debug, PartialEq, Eq)]
pub enum FormValue {
    String(String),
    Bool(bool),
}

/// What a [`FormValue`] is.
pub enum ValueView {
    String(Seq<char>),
    Bool(bool),
}

impl View for FormValue {
    type V = ValueView;

    open spec fn view(&self) -> ValueView {
        match *self {
            FormValue::String(s) => ValueView::String(s@),
            FormValue::Bool(b) => ValueView::Bool(b),
        }
    }
}

impl Clone for FormValue {
    fn clone(&self) -> (r: Self)
        ensures
            r == *self,
    {
        match self {
            FormValue::String(s) => FormValue::String(s.clone()),
            FormValue::Bool(b) => FormValue::Bool(*b),
        }
    }
}

impl FormValue {
    /// The value as text.
    pub fn to_string_value(&self) -> (r: String)
        ensures
            r@ == (match self@ {
                ValueView::String(s) => s,
                ValueView::Bool(b) => if b {
                    "true"@
                } else {
                    "false"@
                },
            }),
    {
        match self {
            FormValue::String(s) => s.clone(),
            FormValue::Bool(b) => if *b {
                "true".to_owned()
            } else {
                "false".to_owned()
            },
        }
    }
}

/// One field of a form.
#[derive(Debug, PartialEq, Eq)]
pub struct FormField {
    pub id: String,
    pub label: String,
    pub kind: FieldKind,
    pub placeholder: Option<String>,
    pub options: Vec<FormOption>,
    pub value: Option<FormValue>,
    pub required: bool,
}

/// What a [`FormField`] is.
pub struct FieldView {
    pub id: Seq<char>,
    pub label: Seq<char>,
    pub kind: FieldKind,
    pub placeholder: Option<Seq<char>>,
    pub options: Seq<OptionView>,
    pub value: Option<ValueView>,
    pub required: bool,
}

impl View for FormField {
    type V = FieldView;

    open spec fn view(&self) -> FieldView {
        FieldView {
            id: self.id@,
            label: self.label@,
            kind: self.kind,
            placeholder: opt_view(self.placeholder),
            options: seq_views(self.options@),
            value: maybe(self.value),
            required: self.required,
        }
    }
}

/// What a form view shows.
#[derive(Debug, PartialEq, Eq)]
pub struct FormData {
    pub title: Option<String>,
    pub fields: Vec<FormField>,
    pub submit_label: Option<String>,
}

/// What a [`FormData`] is.
pub struct FormView {
    pub title: Option<Seq<char>>,
    pub fields: Seq<FieldView>,
    pub submit_label: Option<Seq<char>>,
}

impl View for FormData {
    type V = FormView;

    open spec fn view(&self) -> FormView {
        FormView {
            title: opt_view(self.title),
            fields: seq_views(self.fields@),
            submit_label: opt_view(self.submit_label),
        }
    }
}

/// The option that a JSON value describes; one without an id is none.
pub open spec fn option_in(j: JsonView) -> Option<OptionView> {
    match j.text_field("id"@) {
        Some(id) => Some(OptionView { id, label: text_or_blank(j, "label"@) }),
        None => None,
    }
}

/// The option that a JSON value describes.
fn parse_option(j: &Json) -> (r: Option<FormOption>)
    ensures
        maybe(r) == option_in(j@),
{
    match j.get_str("id") {
        Some(id) => Some(FormOption { id, label: get_text(j, "label") }),
        None => None,
    }
}

/// The value that a field starts with: a boolean for a toggle, a text for the others.
pub open spec fn value_in(j: JsonView, kind: FieldKind) -> Option<ValueView> {
    if kind == FieldKind::Toggle {
        match j.truth_field("value"@) {
            Some(b) => Some(ValueView::Bool(b)),
            None => None,
        }
    } else {
        match j.text_field("value"@) {
            Some(s) => Some(ValueView::String(s)),
            None => None,
        }
    }
}

/// The form field that a JSON value describes. One without an id or of an
/// unknown type is none; one without a type is a text field.
pub open spec fn field_in(j: JsonView) -> Option<FieldView> {
    let name = match j.text_field("type"@) {
        Some(s) => s,
        None => "text"@,
    };
    match (j.text_field("id"@), FieldKind::named(name)) {
        (Some(id), Some(kind)) => Some(
            FieldView {
                id,
                label: text_or_blank(j, "label"@),
                kind,
                placeholder: j.text_field("placeholder"@),
                options: collected_in(j, "options"@, |o: JsonView| option_in(o)),
                value: value_in(j, kind),
                required: j.truth_field("required"@) == Some(true),
            },
        ),
        _ => None,
    }
}

/// Reads a form field.
pub fn parse_form_field(field: &Json) -> (r: Option<FormField>)
    ensures
        maybe(r) == field_in(field@),
{
    let id = match field.get_str("id") {
        Some(id) => id,
        None => {
            return None;
        },
    };
    let name = match field.get_str("type") {
        Some(name) => name,
        None => "text".to_owned(),
    };
    let kind = match FieldKind::from_wire(name.as_str()) {
        Some(kind) => kind,
        None => {
            return None;
        },
    };
    let value = match kind {
        FieldKind::Toggle => match field.get_bool("value") {
            Some(b) => Some(FormValue::Bool(b)),
            None => None,
        },
        _ => match field.get_str("value") {
            Some(s) => Some(FormValue::String(s)),
            None => None,
        },
    };
    let required = match field.get_bool("required") {
        Some(b) => b,
        None => false,
    };
    Some(
        FormField {
            id,
            label: get_text(field, "label"),
            kind,
            placeholder: field.get_str("placeholder"),
            options: collect_in(
                field,
                "options",
                parse_option,
                Ghost(|o: JsonView| option_in(o)),
            ),
            value,
            required,
        },
    )
}

/// What a form view shows.
pub open spec fn form_in(j: JsonView) -> Option<FormView> {
    let view = unwrapped(j);
    if is_type(j, "form"@) {
        Some(
            FormView {
                title: view.text_field("title"@),
                fields: collected_in(view, "fields"@, |f: JsonView| field_in(f)),
                submit_label: view.text_field("submitLabel"@),
            },
        )
    } else {
        None
    }
}

/// Reads a form view.
pub fn parse_form_view(view: &Json) -> (r: Option<FormData>)
    ensures
        maybe(r) == form_in(view@),
{
    let view = unwrap_view(view);
    if !view.field_is("type", "form") {
        return None;
    }
    Some(
        FormData {
            title: view.get_str("title"),
            fields: collect_in(
                view,
                "fields",
                parse_form_field,
                Ghost(|f: JsonView| field_in(f)),
            ),
            submit_label: view.get_str("submitLabel"),
        },
    )
}

/// One cell of a grid view.
#[derive(Debug, PartialEq, Eq)]
pub struct GridItem {
    pub id: String,
    pub title: String,
    pub subtitle: Option<String>,
    pub icon: Option<String>,
    pub badge: Option<String>,
}

/// What a [`GridItem`] is.
pub struct CellView {
    pub id: Seq<char>,
    pub title: Seq<char>,
    pub subtitle: Option<Seq<char>>,
    pub icon: Option<Seq<char>>,
    pub badge: Option<Seq<char>>,
}

impl View for GridItem {
    type V = CellView;

    open spec fn view(&self) -> CellView {
        CellView {
            id: self.id@,
            title: self.title@,
            subtitle: opt_view(self.subtitle),
            icon: opt_view(self.icon),
            badge: opt_view(self.badge),
        }
    }
}

/// What a grid view shows.
#[derive(Debug, PartialEq, Eq)]
pub struct GridData {
    pub columns: usize,
    pub items: Vec<GridItem>,
    /// The id of the selected cell.
    pub selected: Option<String>,
}

/// What a [`GridData`] is.
pub struct GridView {
    pub columns: int,
    pub items: Seq<CellView>,
    pub selected: Option<Seq<char>>,
}

impl View for GridData {
    type V = GridView;

    open spec fn view(&self) -> GridView {
        GridView {
            columns: self.columns as int,
            items: seq_views(self.items@),
            selected: opt_view(self.selected),
        }
    }
}

/// The cell that a JSON value describes; one without an id is none.
pub open spec fn cell_in(j: JsonView) -> Option<CellView> {
    match j.text_field("id"@) {
        Some(id) => Some(
            CellView {
                id,
                title: text_or_blank(j, "title"@),
                subtitle: j.text_field("subtitle"@),
                icon: j.text_field("icon"@),
                badge: j.text_field("badge"@),
            },
        ),
        None => None,
    }
}

/// The cell that a JSON value describes.
fn parse_cell(j: &Json) -> (r: Option<GridItem>)
    ensures
        maybe(r) == cell_in(j@),
{
    match j.get_str("id") {
        Some(id) => Some(
            GridItem {
                id,
                title: get_text(j, "title"),
                subtitle: j.get_str("subtitle"),
                icon: j.get_str("icon"),
                badge: j.get_str("badge"),
            },
        ),
        None => None,
    }
}

/// The number of columns of a grid: four by default, from one to eight.
pub open spec fn columns_in(j: JsonView) -> int {
    match j.unsigned_field("columns"@) {
        Some(n) => if n < 1 {
            1
        } else if n > 8 {
            8
        } else {
            n as int
        },
        None => 4,
    }
}

/// What a grid view shows.
pub open spec fn grid_in(j: JsonView) -> Option<GridView> {
    let view = unwrapped(j);
    if is_type(j, "grid"@) {
        Some(
            GridView {
                columns: columns_in(view),
                items: collected_in(view, "items"@, |c: JsonView| cell_in(c)),
                selected: view.text_field("selectedId"@),
            },
        )
    } else {
        None
    }
}

/// Reads a grid view.
pub fn parse_grid_view(view: &Json) -> (r: Option<GridData>)
    ensures
        maybe(r) == grid_in(view@),
{
    let view = unwrap_view(view);
    if !view.field_is("type", "grid") {
        return None;
    }
    let columns: usize = match view.get_u64("columns") {
        Some(n) => if n < 1 {
            1
        } else if n > 8 {
            8
        } else {
            n as usize
        },
        None => 4,
    };
    Some(
        GridData {
            columns,
            items: collect_in(view, "items", parse_cell, Ghost(|c: JsonView| cell_in(c))),
            selected: view.get_str("selectedId"),
        },
    )
}

/// Whether a view is a search view.
pub fn is_search_view(view: &Json) -> (r: bool)
    ensures
        r == is_type(view@, "search"@),
{
    unwrap_view(view).field_is("type", "search")
}

/// Whether a view is a detail or a form view.
pub fn is_detail_or_form_view(view: &Json) -> (r: bool)
    ensures
        r == (is_type(view@, "detail"@) || is_type(view@, "form"@)),
{
    let view = unwrap_view(view);
    view.field_is("type", "detail") || view.field_is("type", "form")
}

/// Whether a view of this type can be shown in a window of its own.
pub open spec fn hostable(j: JsonView) -> bool {
    is_type(j, "list"@) || is_type(j, "grid"@) || is_type(j, "search"@) || is_type(j, "detail"@)
        || is_type(j, "form"@)
}

/// Whether a view can be shown in a window of its own.
pub fn is_panel_view(view: &Json) -> (r: bool)
    ensures
        r == hostable(view@),
{
    let view = unwrap_view(view);
    view.field_is("type", "list") || view.field_is("type", "grid") || view.field_is(
        "type",
        "search",
    ) || view.field_is("type", "detail") || view.field_is("type", "form")
}

/// The items of a list view.
pub open spec fn list_in(j: JsonView) -> Option<Seq<JsonView>> {
    if is_type(j, "list"@) {
        unwrapped(j).items_field("items"@)
    } else {
        None
    }
}

/// The items of a list view.
pub fn plugin_view_items(view: &Json) -> (r: Option<&Vec<Json>>)
    ensures
        match r {
            Some(items) => list_in(view@) == Some(item_views(items@)),
            None => list_in(view@) is None,
        },
{
    let view = unwrap_view(view);
    if !view.field_is("type", "list") {
        return None;
    }
    view.get_array("items")
}

/// The row of a list item; one without an id is none.
pub open spec fn row_in(j: JsonView, plugin_id: Seq<char>, command: Seq<char>) -> Option<ItemView> {
    match j.text_field("id"@) {
        Some(item_id) => if item_id.len() == 0 {
            None
        } else {
            Some(
                ItemView::Plugin {
                    plugin_id,
                    command,
                    item_id,
                    title: text_or_blank(j, "title"@),
                    subtitle: text_or_blank(j, "subtitle"@),
                },
            )
        },
        None => None,
    }
}

/// The rows of a list view; any other view has none.
pub open spec fn rows_in_view(j: JsonView, plugin_id: Seq<char>, command: Seq<char>) -> Seq<
    ItemView,
> {
    match list_in(j) {
        Some(items) => collected(items, |i: JsonView| row_in(i, plugin_id, command)),
        None => Seq::empty(),
    }
}

/// The rows of a list view.
pub fn list_items(view: &Json, plugin_id: &str, command: &str) -> (r: Vec<ResultItem>)
    ensures
        seq_views(r@) == rows_in_view(view@, plugin_id@, command@),
{
    match plugin_view_items(view) {
        Some(items) => {
            let row = |item: &Json| -> (o: Option<ResultItem>)
                ensures
                    maybe(o) == row_in(item@, plugin_id@, command@),
                {
                    match item.get_str("id") {
                        Some(item_id) => if item_id.as_str().unicode_len() == 0 {
                            None
                        } else {
                            Some(
                                ResultItem::Plugin {
                                    plugin_id: plugin_id.to_owned(),
                                    command: command.to_owned(),
                                    item_id,
                                    title: get_text(item, "title"),
                                    subtitle: get_text(item, "subtitle"),
                                },
                            )
                        },
                        None => None,
                    }
                };
            collect(items, row, Ghost(|i: JsonView| row_in(i, plugin_id@, command@)))
        },
        None => {
            let r: Vec<ResultItem> = Vec::new();
            assert(seq_views(r@) =~= Seq::<ItemView>::empty());
            r
        },
    }
}

/// A calendar view, and the plugin command that it is of.
#[derive(Debug, PartialEq, Eq)]
pub struct ActiveCalendar {
    pub data: CalendarData,
    pub plugin_id: String,
    /// The command that returned the view.
    pub command: String,
    /// Whether the view may be shown in a window of its own.
    pub detachable: bool,
}

/// What an [`ActiveCalendar`] is.
pub struct ActiveView {
    pub data: CalendarView,
    pub plugin_id: Seq<char>,
    pub command: Seq<char>,
    pub detachable: bool,
}

impl View for ActiveCalendar {
    type V = ActiveView;

    open spec fn view(&self) -> ActiveView {
        ActiveView {
            data: self.data@,
            plugin_id: self.plugin_id@,
            command: self.command@,
            detachable: self.detachable,
        }
    }
}

impl Clone for ActiveCalendar {
    fn clone(&self) -> (r: Self)
        ensures
            r == *self,
    {
        ActiveCalendar {
            data: self.data.clone(),
            plugin_id: self.plugin_id.clone(),
            command: self.command.clone(),
            detachable: self.detachable,
        }
    }
}

/// `n` in 32 bits with a sign.
pub open spec fn wrapped_signed(n: int) -> int {
    (n + 0x8000_0000) % 0x1_0000_0000 - 0x8000_0000
}

/// The month that a number stands for: in 32 bits without a sign, from 1 to 12.
pub open spec fn clamped_month(n: int) -> int {
    let m = n % 0x1_0000_0000;
    if m < 1 {
        1
    } else if m > 12 {
        12
    } else {
        m
    }
}

/// The calendar that a view describes. One without a year, a month and today's
/// date is none; the week starts on Monday, and today is selected, by default.
pub open spec fn calendar_in(
    j: JsonView,
    plugin_id: Seq<char>,
    command: Seq<char>,
    detachable: bool,
) -> Option<ActiveView> {
    let view = unwrapped(j);
    if !is_type(j, "calendar"@) {
        None
    } else {
        match (
            view.signed_field("year"@),
            view.signed_field("month"@),
            view.text_field("today"@),
        ) {
            (Some(year), Some(month), Some(today)) => Some(
                ActiveView {
                    data: CalendarView {
                        year: wrapped_signed(year as int),
                        month: clamped_month(month as int),
                        today,
                        selected: match view.text_field("selected"@) {
                            Some(s) => s,
                            None => today,
                        },
                        start_of_week: match view.unsigned_field("startOfWeek"@) {
                            Some(n) => n as int % 256 % 7,
                            None => 1,
                        },
                    },
                    plugin_id,
                    command,
                    detachable,
                },
            ),
            _ => None,
        }
    }
}

/// `n` in 32 bits with a sign.
fn wrap_signed(n: i64) -> (r: i32)
    ensures
        r == wrapped_signed(n as int),
{
    let shifted: i128 = n as i128 + 0x8000_0000 + 0x1_0000_0000 * 0x1_0000_0000;
    let m: i128 = shifted % 0x1_0000_0000;
    assert(shifted as int % 0x1_0000_0000 == (n + 0x8000_0000) % 0x1_0000_0000);
    (m - 0x8000_0000) as i32
}

/// The month that a number stands for.
fn clamp_month(n: i64) -> (r: u32)
    ensures
        r == clamped_month(n as int),
{
    let shifted: i128 = n as i128 + 0x1_0000_0000 * 0x1_0000_0000;
    let m: i128 = shifted % 0x1_0000_0000;
    assert(shifted as int % 0x1_0000_0000 == n as int % 0x1_0000_0000);
    if m < 1 {
        1
    } else if m > 12 {
        12
    } else {
        m as u32
    }
}

/// Reads a calendar view.
pub fn parse_calendar_view(view: &Json, plugin_id: &str, command: &str, detachable: bool) -> (r:
    Option<ActiveCalendar>)
    ensures
        maybe(r) == calendar_in(view@, plugin_id@, command@, detachable),
{
    let view = unwrap_view(view);
    if !view.field_is("type", "calendar") {
        return None;
    }
    match (view.get_i64("year"), view.get_i64("month"), view.get_str("today")) {
        (Some(year), Some(month), Some(today)) => {
            let start_of_week: u8 = match view.get_u64("startOfWeek") {
                Some(n) => ((n % 256) % 7) as u8,
                None => 1,
            };
            let selected = match view.get_str("selected") {
                Some(s) => s,
                None => today.clone(),
            };
            Some(
                ActiveCalendar {
                    data: CalendarData {
                        year: wrap_signed(year),
                        month: clamp_month(month),
                        today,
                        selected,
                        start_of_week,
                    },
                    plugin_id: plugin_id.to_owned(),
                    command: command.to_owned(),
                    detachable,
                },
            )
        },
        _ => None,
    }
}

/// What a window of its own shows of a plugin.
#[derive(Debug, PartialEq, Eq)]
pub enum PanelKind {
    Calendar(ActiveCalendar),
    List(Vec<ResultItem>),
    Detail(DetailData),
    Form(FormData),
    Grid(GridData),
    Search,
}

/// What a [`PanelKind`] is.
pub enum PanelView {
    Calendar(ActiveView),
    List(Seq<ItemView>),
    Detail(DetailView),
    Form(FormView),
    Grid(GridView),
    Search,
}

impl View for PanelKind {
    type V = PanelView;

    open spec fn view(&self) -> PanelView {
        match *self {
            PanelKind::Calendar(c) => PanelView::Calendar(c@),
            PanelKind::List(v) => PanelView::List(seq_views(v@)),
            PanelKind::Detail(d) => PanelView::Detail(d@),
            PanelKind::Form(f) => PanelView::Form(f@),
            PanelKind::Grid(g) => PanelView::Grid(g@),
            PanelKind::Search => PanelView::Search,
        }
    }
}

/// What a window of its own shows of a view; `None` for a view that it cannot show.
pub open spec fn panel_in(
    j: JsonView,
    plugin_id: Seq<char>,
    command: Seq<char>,
    detachable: bool,
) -> Option<PanelView> {
    if let Some(c) = calendar_in(j, plugin_id, command, detachable) {
        Some(PanelView::Calendar(c))
    } else if list_in(j) is Some {
        Some(PanelView::List(rows_in_view(j, plugin_id, command)))
    } else if let Some(d) = detail_in(j) {
        Some(PanelView::Detail(d))
    } else if let Some(f) = form_in(j) {
        Some(PanelView::Form(f))
    } else if let Some(g) = grid_in(j) {
        Some(PanelView::Grid(g))
    } else if is_type(j, "search"@) {
        Some(PanelView::Search)
    } else {
        None
    }
}

/// Reads a view into what a window of its own shows, and the actions it offers.
pub fn parse_panel_view(view: &Json, plugin_id: &str, command: &str, detachable: bool) -> (r:
    Option<(PanelKind, Vec<ActionRef>)>)
    ensures
        match r {
            Some((kind, actions)) => panel_in(view@, plugin_id@, command@, detachable) == Some(
                kind@,
            ) && seq_views(actions@) == actions_in(view@),
            None => panel_in(view@, plugin_id@, command@, detachable) is None,
        },
{
    let kind = if let Some(active) = parse_calendar_view(view, plugin_id, command, detachable) {
        PanelKind::Calendar(active)
    } else if plugin_view_items(view).is_some() {
        PanelKind::List(list_items(view, plugin_id, command))
    } else if let Some(data) = parse_detail_view(view) {
        PanelKind::Detail(data)
    } else if let Some(data) = parse_form_view(view) {
        PanelKind::Form(data)
    } else if let Some(data) = parse_grid_view(view) {
        PanelKind::Grid(data)
    } else if is_search_view(view) {
        PanelKind::Search
    } else {
        return None;
    };
    Some((kind, extract_actions(view)))
}

} // verus!

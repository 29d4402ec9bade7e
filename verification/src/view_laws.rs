//! What is read from the JSON that plugins send, and what a window shows of it.

use vstd::prelude::*;

use crate::json::{find_field, lemma_find_at, JsonView, Number};
use crate::results::ItemView;
use crate::views::{
    action_in, actions_in, block_in, calendar_in, cell_in, collected, columns_in, detail_in,
    field_in, form_in, grid_in, hostable, is_type, list_in, option_in, panel_in, row_in,
    rows_in_view, text_or_blank, unwrapped, value_in, ActionView, BlockView, CellView, FieldKind,
    FieldView, OptionView, PanelView, ValueView,
};

verus! {

/// A field of an object is the first one with that name; nothing else has fields.
pub proof fn fields_are_found_by_name(fields: Seq<(Seq<char>, JsonView)>, key: Seq<char>, n: int)
    requires
        0 <= n <= fields.len(),
        forall|i: int| 0 <= i < n ==> (#[trigger] fields[i]).0 != key,
        n < fields.len() ==> fields[n].0 == key,
    ensures
        JsonView::Object(fields).field(key) == (if n < fields.len() {
            Some(fields[n].1)
        } else {
            None
        }),
        JsonView::Array(seq![]).field(key) is None,
        JsonView::Str(key).field(key) is None,
        JsonView::Null.field(key) is None,
{
    lemma_find_at(fields, key, n);
    assert(JsonView::Object(fields).field(key) == find_field(fields, key));
}

/// A field is read as what it is and as nothing else: a text, a list, a number, or
/// true or false.
pub proof fn fields_are_read_as_what_they_are(
    j: JsonView,
    key: Seq<char>,
    text: Seq<char>,
    items: Seq<JsonView>,
    n: u64,
    flag: bool,
)
    ensures
        j.text_field(key) == Some(text) <==> j.field(key) == Some(JsonView::Str(text)),
        j.items_field(key) == Some(items) <==> j.field(key) == Some(JsonView::Array(items)),
        j.unsigned_field(key) == Some(n) <==> j.field(key) == Some(
            JsonView::Number(Number::Pos(n)),
        ),
        j.truth_field(key) == Some(flag) <==> j.field(key) == Some(JsonView::Bool(flag)),
{
}

/// A number is read with its sign where it fits 64 bits with one.
pub proof fn signed_fields_keep_their_sign(j: JsonView, key: Seq<char>, n: i64)
    ensures
        j.field(key) == Some(JsonView::Number(Number::Neg(n))) ==> j.signed_field(key) == Some(n),
        n >= 0 && j.field(key) == Some(JsonView::Number(Number::Pos(n as u64))) ==> j.signed_field(
            key,
        ) == Some(n),
        j.signed_field(key) is Some ==> j.field(key) is Some && j.field(key)->0 is Number && !(
        j.field(key)->0->Number_0 is Float),
{
}

/// Whether what was made of a list was made of the items at the given places, in order.
pub open spec fn made_of<T>(
    made: Seq<T>,
    items: Seq<JsonView>,
    f: spec_fn(JsonView) -> Option<T>,
    places: Seq<int>,
) -> bool {
    &&& made.len() == places.len()
    &&& forall|i: int| 0 <= i < places.len() ==> 0 <= #[trigger] places[i] < items.len()
    &&& forall|i: int, j: int|
        0 <= i < j < places.len() ==> #[trigger] places[i] < #[trigger] places[j]
    &&& forall|i: int|
        0 <= i < items.len() ==> (#[trigger] places.contains(i) <==> f(items[i]) is Some)
    &&& forall|i: int| 0 <= i < places.len() ==> f(items[places[i]]) == Some(#[trigger] made[i])
}

/// Whether what was made of a list is what `f` makes of its items, one behind the other.
pub open spec fn made_in_order<T>(
    made: Seq<T>,
    items: Seq<JsonView>,
    f: spec_fn(JsonView) -> Option<T>,
) -> bool {
    exists|places: Seq<int>| made_of(made, items, f, places)
}

/// Of a list that a plugin sends every item is taken of which something can be made, in
/// order, and no other.
#[verifier::rlimit(40)]
pub proof fn items_are_taken_in_order<T>(items: Seq<JsonView>, f: spec_fn(JsonView) -> Option<T>)
    ensures
        made_in_order(collected(items, f), items, f),
    decreases items.len(),
{
    if items.len() == 0 {
        assert(made_of(collected(items, f), items, f, Seq::empty()));
    } else {
        let fewer = items.drop_last();
        let n = items.len() - 1;
        items_are_taken_in_order(fewer, f);
        let a = collected(fewer, f);
        let b = collected(items, f);
        let p0 = choose|places: Seq<int>| made_of(a, fewer, f, places);
        let p = if f(items[n]) is Some {
            p0.push(n)
        } else {
            p0
        };
        assert forall|i: int| 0 <= i < items.len() implies (#[trigger] p.contains(i) <==> f(
            items[i],
        ) is Some) by {
            if i < n {
                assert(fewer[i] == items[i]);
                assert(p0.contains(i) <==> f(fewer[i]) is Some);
                if p0.contains(i) {
                    let k = choose|k: int| 0 <= k < p0.len() && p0[k] == i;
                    assert(p[k] == i);
                }
                if p.contains(i) {
                    let k = choose|k: int| 0 <= k < p.len() && p[k] == i;
                    assert(p0[k] == i);
                }
            } else {
                if f(items[n]) is Some {
                    assert(p[p.len() - 1] == n);
                } else if p.contains(n) {
                    let k = choose|k: int| 0 <= k < p.len() && p[k] == n;
                    assert(p0[k] == n);
                }
            }
        }
        assert forall|i: int| 0 <= i < p.len() implies f(items[p[i]]) == Some(#[trigger] b[i]) by {
            if i < p0.len() {
                assert(b[i] == a[i] && p[i] == p0[i]);
                assert(fewer[p0[i]] == items[p0[i]]);
            }
        }
        assert(made_of(b, items, f, p));
    }
}

/// The text of a field, or nothing.
pub open spec fn text_in(j: JsonView, key: Seq<char>) -> Option<Seq<char>> {
    match j.field(key) {
        Some(JsonView::Str(s)) => Some(s),
        _ => None,
    }
}

/// The text of a field, empty where it is none.
pub open spec fn text_at(j: JsonView, key: Seq<char>) -> Seq<char> {
    match j.field(key) {
        Some(JsonView::Str(s)) => s,
        _ => Seq::empty(),
    }
}

/// The items of a field, none where it is no list.
pub open spec fn items_at(j: JsonView, key: Seq<char>) -> Seq<JsonView> {
    match j.field(key) {
        Some(JsonView::Array(items)) => items,
        _ => Seq::empty(),
    }
}

/// The view in a response: what its field `view` holds, or else the response itself.
pub open spec fn view_in(j: JsonView) -> JsonView {
    match j.field("view"@) {
        Some(v) => v,
        None => j,
    }
}

proof fn lemma_collected_at<T>(j: JsonView, key: Seq<char>, f: spec_fn(JsonView) -> Option<T>)
    ensures
        crate::views::collected_in(j, key, f) == collected(items_at(j, key), f),
{
    assert(collected(Seq::<JsonView>::empty(), f) =~= Seq::<T>::empty());
}

/// Whether `a` is the action that `j` describes.
pub open spec fn describes_action(j: JsonView, a: ActionView) -> bool {
    &&& text_in(j, "id"@) == Some(a.id)
    &&& a.title == text_at(j, "title"@)
    &&& a.icon == text_in(j, "icon"@)
}

/// A view offers the actions of its action panel that have an id, in order.
pub proof fn actions_are_those_of_the_panel(j: JsonView)
    ensures
        ({
            let panel = match view_in(j).field("actionPanel"@) {
                Some(p) => p,
                None => JsonView::Null,
            };
            made_in_order(
                actions_in(j),
                items_at(panel, "actions"@),
                |a: JsonView| action_in(a),
            )
        }),
        forall|a: JsonView| #[trigger]
            action_in(a) is Some <==> text_in(a, "id"@) is Some,
        forall|a: JsonView|
            (#[trigger] action_in(a)) matches Some(action) ==> describes_action(a, action),
{
    let f = |a: JsonView| action_in(a);
    let panel = match view_in(j).field("actionPanel"@) {
        Some(p) => p,
        None => JsonView::Null,
    };
    items_are_taken_in_order(items_at(panel, "actions"@), f);
    assert(collected(Seq::<JsonView>::empty(), f) =~= Seq::<ActionView>::empty());
    assert(actions_in(j) =~= collected(items_at(panel, "actions"@), f));
}

/// A view is of the type that it names, in a response or by itself.
pub proof fn views_name_their_type(j: JsonView, kind: Seq<char>)
    ensures
        is_type(j, kind) <==> view_in(j).field("type"@) == Some(JsonView::Str(kind)),
        unwrapped(j) == view_in(j),
        hostable(j) <==> is_type(j, "list"@) || is_type(j, "grid"@) || is_type(j, "search"@)
            || is_type(j, "detail"@) || is_type(j, "form"@),
{
}

/// Whether `b` is the block that `j` describes.
pub open spec fn describes_block(j: JsonView, b: BlockView) -> bool {
    if text_in(j, "type"@) == Some("code"@) {
        b == (BlockView::Code { value: text_at(j, "value"@), language: text_in(j, "language"@) })
    } else if text_in(j, "type"@) == Some("separator"@) {
        b is Separator
    } else {
        b == BlockView::Text(text_at(j, "value"@))
    }
}

/// A detail view is shown where it has a title, with its subtitle and every block of
/// its content, in order: code, separators, and else text.
pub proof fn details_show_title_and_content(j: JsonView)
    ensures
        detail_in(j) is Some <==> is_type(j, "detail"@) && text_in(view_in(j), "title"@) is Some,
        detail_in(j) matches Some(d) ==> {
            let items = items_at(view_in(j), "content"@);
            &&& text_in(view_in(j), "title"@) == Some(d.title)
            &&& d.subtitle == text_in(view_in(j), "subtitle"@)
            &&& d.blocks.len() == items.len()
            &&& forall|i: int|
                0 <= i < items.len() ==> describes_block(items[i], #[trigger] d.blocks[i])
        },
{
    let f = |b: JsonView| Some(block_in(b));
    lemma_collected_at(view_in(j), "content"@, f);
    lemma_all_taken(items_at(view_in(j), "content"@));
}

proof fn lemma_all_taken(items: Seq<JsonView>)
    ensures
        ({
            let made = collected(items, |b: JsonView| Some(block_in(b)));
            &&& made.len() == items.len()
            &&& forall|i: int|
                0 <= i < items.len() ==> #[trigger] made[i] == block_in(items[i])
        }),
    decreases items.len(),
{
    if items.len() > 0 {
        lemma_all_taken(items.drop_last());
    }
}

/// The kinds of form fields by name.
pub open spec fn kind_named(s: Seq<char>) -> Option<FieldKind> {
    if s == "text"@ {
        Some(FieldKind::Text)
    } else if s == "multiline"@ {
        Some(FieldKind::Multiline)
    } else if s == "password"@ {
        Some(FieldKind::Password)
    } else if s == "toggle"@ {
        Some(FieldKind::Toggle)
    } else if s == "select"@ {
        Some(FieldKind::Select)
    } else {
        None
    }
}

/// The kind of field that `j` describes; a text field where it names none.
pub open spec fn kind_in(j: JsonView) -> Option<FieldKind> {
    match text_in(j, "type"@) {
        Some(name) => kind_named(name),
        None => Some(FieldKind::Text),
    }
}

/// Whether `f` is the form field that `j` describes.
pub open spec fn describes_field(j: JsonView, f: FieldView) -> bool {
    &&& text_in(j, "id"@) == Some(f.id)
    &&& kind_in(j) == Some(f.kind)
    &&& f.label == text_at(j, "label"@)
    &&& f.placeholder == text_in(j, "placeholder"@)
    &&& f.required <==> j.field("required"@) == Some(JsonView::Bool(true))
    &&& f.value == (match j.field("value"@) {
        Some(JsonView::Bool(b)) => if f.kind == FieldKind::Toggle {
            Some(ValueView::Bool(b))
        } else {
            None
        },
        Some(JsonView::Str(s)) => if f.kind == FieldKind::Toggle {
            None
        } else {
            Some(ValueView::String(s))
        },
        _ => None,
    })
    &&& made_in_order(f.options, items_at(j, "options"@), |o: JsonView| option_in(o))
}

/// Whether `o` is the option that `j` describes.
pub open spec fn describes_option(j: JsonView, o: OptionView) -> bool {
    text_in(j, "id"@) == Some(o.id) && o.label == text_at(j, "label"@)
}

/// A form view shows its title, its button and, in order, its fields that have an id
/// and a known type; each with its label, its starting value and its options.
pub proof fn forms_show_their_fields(j: JsonView)
    ensures
        form_in(j) is Some <==> is_type(j, "form"@),
        form_in(j) matches Some(d) ==> {
            &&& d.title == text_in(view_in(j), "title"@)
            &&& d.submit_label == text_in(view_in(j), "submitLabel"@)
            &&& made_in_order(
                d.fields,
                items_at(view_in(j), "fields"@),
                |f: JsonView| field_in(f),
            )
        },
        forall|f: JsonView| #[trigger]
            field_in(f) is Some <==> text_in(f, "id"@) is Some && kind_in(f) is Some,
        forall|f: JsonView|
            (#[trigger] field_in(f)) matches Some(field) ==> describes_field(f, field),
        forall|o: JsonView| #[trigger] option_in(o) is Some <==> text_in(o, "id"@) is Some,
        forall|o: JsonView|
            (#[trigger] option_in(o)) matches Some(option) ==> describes_option(o, option),
{
    let g = |f: JsonView| field_in(f);
    lemma_collected_at(view_in(j), "fields"@, g);
    items_are_taken_in_order(items_at(view_in(j), "fields"@), g);
    assert forall|f: JsonView| (#[trigger] field_in(f)) matches Some(field) implies describes_field(
        f,
        field_in(f)->0,
    ) by {
        let h = |o: JsonView| option_in(o);
        lemma_collected_at(f, "options"@, h);
        items_are_taken_in_order(items_at(f, "options"@), h);
        assert(value_in(f, field_in(f)->0.kind) == field_in(f)->0.value);
    }
    assert forall|f: JsonView| #[trigger] field_in(f) is Some implies text_in(f, "id"@) is Some
        && kind_in(f) is Some by {}
}

/// Whether `c` is the cell that `j` describes.
pub open spec fn describes_cell(j: JsonView, c: CellView) -> bool {
    &&& text_in(j, "id"@) == Some(c.id)
    &&& c.title == text_at(j, "title"@)
    &&& c.subtitle == text_in(j, "subtitle"@)
    &&& c.icon == text_in(j, "icon"@)
    &&& c.badge == text_in(j, "badge"@)
}

/// A grid view shows its items that have an id, in order, in as many columns as it asks
/// for, from one to eight, or in four.
pub proof fn grids_show_their_items(j: JsonView)
    ensures
        grid_in(j) is Some <==> is_type(j, "grid"@),
        grid_in(j) matches Some(d) ==> {
            &&& d.selected == text_in(view_in(j), "selectedId"@)
            &&& made_in_order(d.items, items_at(view_in(j), "items"@), |c: JsonView| cell_in(c))
            &&& match view_in(j).field("columns"@) {
                Some(JsonView::Number(Number::Pos(n))) => d.columns == if n == 0 {
                    1
                } else if n > 8 {
                    8
                } else {
                    n as int
                },
                _ => d.columns == 4,
            }
        },
        forall|c: JsonView| #[trigger] cell_in(c) is Some <==> text_in(c, "id"@) is Some,
        forall|c: JsonView|
            (#[trigger] cell_in(c)) matches Some(cell) ==> describes_cell(c, cell),
{
    let g = |c: JsonView| cell_in(c);
    lemma_collected_at(view_in(j), "items"@, g);
    items_are_taken_in_order(items_at(view_in(j), "items"@), g);
    assert(columns_in(view_in(j)) >= 1);
}

/// A list view has a row for each of its items that has an id, in order, under the
/// plugin and the command that it came from; any other view has none.
pub proof fn lists_show_their_items(j: JsonView, plugin_id: Seq<char>, command: Seq<char>)
    ensures
        list_in(j) is Some <==> is_type(j, "list"@) && view_in(j).field("items"@) is Some
            && view_in(j).field("items"@)->0 is Array,
        list_in(j) is None ==> rows_in_view(j, plugin_id, command).len() == 0,
        list_in(j) is Some ==> made_in_order(
            rows_in_view(j, plugin_id, command),
            items_at(view_in(j), "items"@),
            |i: JsonView| row_in(i, plugin_id, command),
        ),
        forall|i: JsonView| #[trigger]
            row_in(i, plugin_id, command) == (if text_at(i, "id"@).len() == 0 {
                None
            } else {
                Some(
                    ItemView::Plugin {
                        plugin_id,
                        command,
                        item_id: text_at(i, "id"@),
                        title: text_at(i, "title"@),
                        subtitle: text_at(i, "subtitle"@),
                    },
                )
            }),
{
    let g = |i: JsonView| row_in(i, plugin_id, command);
    items_are_taken_in_order(items_at(view_in(j), "items"@), g);
    assert forall|i: JsonView| #[trigger] text_or_blank(i, "title"@) == text_at(i, "title"@) by {}
}

/// A calendar view is shown where it names a year, a month and today's date: that month,
/// with the day it selects, or else today, selected, and weeks that begin on the day it
/// names, or else on Monday.
pub proof fn calendars_show_their_month(
    j: JsonView,
    plugin_id: Seq<char>,
    command: Seq<char>,
    detachable: bool,
)
    ensures
        calendar_in(j, plugin_id, command, detachable) is Some <==> is_type(j, "calendar"@)
            && view_in(j).signed_field("year"@) is Some && view_in(j).signed_field(
            "month"@,
        ) is Some && text_in(view_in(j), "today"@) is Some,
        calendar_in(j, plugin_id, command, detachable) matches Some(c) ==> {
            let year = view_in(j).signed_field("year"@)->0;
            let month = view_in(j).signed_field("month"@)->0;
            &&& c.plugin_id == plugin_id && c.command == command && c.detachable == detachable
            &&& i32::MIN <= year <= i32::MAX ==> c.data.year == year
            &&& i32::MIN <= c.data.year <= i32::MAX && (c.data.year - year) % 0x1_0000_0000 == 0
            &&& 1 <= month <= 12 ==> c.data.month == month
            &&& 12 < month <= u32::MAX ==> c.data.month == 12
            &&& month == 0 ==> c.data.month == 1
            &&& 1 <= c.data.month <= 12
            &&& text_in(view_in(j), "today"@) == Some(c.data.today)
            &&& c.data.selected == (match text_in(view_in(j), "selected"@) {
                Some(s) => s,
                None => c.data.today,
            })
            &&& match view_in(j).field("startOfWeek"@) {
                Some(JsonView::Number(Number::Pos(n))) => c.data.start_of_week == n % 256 % 7,
                _ => c.data.start_of_week == 1,
            }
        },
{
}

proof fn lemma_types_differ()
    ensures
        "calendar"@ != "list"@,
        "calendar"@ != "detail"@,
        "calendar"@ != "form"@,
        "calendar"@ != "grid"@,
        "calendar"@ != "search"@,
        "list"@ != "detail"@,
        "list"@ != "form"@,
        "list"@ != "grid"@,
        "list"@ != "search"@,
        "detail"@ != "form"@,
        "detail"@ != "grid"@,
        "detail"@ != "search"@,
        "form"@ != "grid"@,
        "form"@ != "search"@,
        "grid"@ != "search"@,
{
    reveal_strlit("calendar");
    reveal_strlit("list");
    reveal_strlit("detail");
    reveal_strlit("form");
    reveal_strlit("grid");
    reveal_strlit("search");
    assert("calendar"@.len() == 8 && "detail"@.len() == 6 && "search"@.len() == 6);
    assert("list"@.len() == 4 && "form"@.len() == 4 && "grid"@.len() == 4);
    assert("detail"@[0] == 'd' && "search"@[0] == 's');
    assert("list"@[0] == 'l' && "form"@[0] == 'f' && "grid"@[0] == 'g');
}

/// A window shows a view as what it is: a calendar, the rows of a list, a detail, a
/// form, a grid or a search; what is none of these, or cannot be shown as it should, is
/// not shown.
pub proof fn windows_show_views_as_what_they_are(
    j: JsonView,
    plugin_id: Seq<char>,
    command: Seq<char>,
    detachable: bool,
)
    ensures
        ({
            let shown = panel_in(j, plugin_id, command, detachable);
            &&& is_type(j, "calendar"@) ==> shown == (match calendar_in(
                j,
                plugin_id,
                command,
                detachable,
            ) {
                Some(c) => Some(PanelView::Calendar(c)),
                None => None,
            })
            &&& is_type(j, "list"@) ==> shown == (if list_in(j) is Some {
                Some(PanelView::List(rows_in_view(j, plugin_id, command)))
            } else {
                None
            })
            &&& is_type(j, "detail"@) ==> shown == (match detail_in(j) {
                Some(d) => Some(PanelView::Detail(d)),
                None => None,
            })
            &&& is_type(j, "form"@) ==> form_in(j) is Some && shown == Some(
                PanelView::Form(form_in(j)->0),
            )
            &&& is_type(j, "grid"@) ==> grid_in(j) is Some && shown == Some(
                PanelView::Grid(grid_in(j)->0),
            )
            &&& is_type(j, "search"@) ==> shown == Some(PanelView::Search)
            &&& !is_type(j, "calendar"@) && !is_type(j, "list"@) && !is_type(j, "detail"@)
                && !is_type(j, "form"@) && !is_type(j, "grid"@) && !is_type(j, "search"@)
                ==> shown is None
        }),
{
    lemma_types_differ();
}

} // verus!

//! What keys, rows, actions and fields do in the window of a plugin view.

use vstd::prelude::*;

use crate::calendar::showing_month;
use crate::form::{displayed, initial_value, initial_values, submits, toggled, DisplayView};
use crate::host::CallView;
use crate::json::JsonView;
use crate::panel::{
    action_call, fresh_panel, list_px, panel_key, panel_px, row_call, with_month, PanelKey,
    PanelState,
};
use crate::results::{ItemView, ResultListState};
use crate::search_bar::{bar_key, BarEffect};
use crate::views::{ActionView, ActiveView, FieldKind, FieldView, PanelView, ValueView};

verus! {

proof fn lemma_key_names()
    ensures
        "up"@.len() == 2,
        "down"@.len() == 4 && "down"@[0] == 'd',
        "left"@.len() == 4 && "left"@[0] == 'l',
        "right"@.len() == 5 && "right"@[0] == 'r',
        "enter"@.len() == 5 && "enter"@[0] == 'e',
        "escape"@.len() == 6,
        "backspace"@.len() == 9,
{
    reveal_strlit("up");
    reveal_strlit("down");
    reveal_strlit("left");
    reveal_strlit("right");
    reveal_strlit("enter");
    reveal_strlit("escape");
    reveal_strlit("backspace");
}

/// Escape puts a window back whatever it shows. In a calendar the arrows move by days
/// and weeks and enter confirms the day; in a list up and down move by rows and enter
/// confirms the row; other keys are not the window's.
pub proof fn keys_move_in_calendars_and_lists(kind: PanelView, key: Seq<char>)
    ensures
        key == "escape"@ ==> panel_key(kind, key) == PanelKey::Dock,
        kind is Calendar ==> {
            &&& key == "up"@ ==> panel_key(kind, key) == PanelKey::MoveDay(-7i32)
            &&& key == "down"@ ==> panel_key(kind, key) == PanelKey::MoveDay(7)
            &&& key == "left"@ ==> panel_key(kind, key) == PanelKey::MoveDay(-1i32)
            &&& key == "right"@ ==> panel_key(kind, key) == PanelKey::MoveDay(1)
            &&& key == "enter"@ ==> panel_key(kind, key) == PanelKey::ConfirmDay
        },
        kind is List ==> {
            &&& key == "up"@ ==> panel_key(kind, key) == PanelKey::MoveRow(-1i32)
            &&& key == "down"@ ==> panel_key(kind, key) == PanelKey::MoveRow(1)
            &&& key == "enter"@ ==> panel_key(kind, key) == PanelKey::ConfirmRow
            &&& key == "left"@ || key == "right"@ ==> panel_key(kind, key) == PanelKey::Ignored
        },
        key != "escape"@ && !(kind is Calendar) && !(kind is List) ==> panel_key(kind, key)
            == PanelKey::Ignored,
        key != "escape"@ && key != "up"@ && key != "down"@ && key != "left"@ && key != "right"@
            && key != "enter"@ ==> panel_key(kind, key) == PanelKey::Ignored,
{
    lemma_key_names();
}

/// Confirming a plugin's row tells the plugin of its item, for the row's own command or
/// else for the window's; other rows tell nothing.
pub proof fn rows_go_to_their_plugin(row: ItemView, command: Seq<char>)
    ensures
        match row {
            ItemView::Plugin { plugin_id, command: own, item_id, .. } => {
                &&& own.len() > 0 ==> row_call(row, command) == Some(
                    CallView::Item { plugin_id, command: own, item_id },
                )
                &&& own.len() == 0 ==> row_call(row, command) == Some(
                    CallView::Item { plugin_id, command, item_id },
                )
            },
            _ => row_call(row, command) is None,
        },
{
}

/// Running an action of a list tells the plugin the item of the selected row; in a
/// detail or a form it tells no item; other views run no action.
pub proof fn actions_go_to_the_plugin(p: PanelState, action_id: Seq<char>, n: int)
    ensures
        p.kind is Detail || p.kind is Form ==> action_call(p, action_id) == Some(
            CallView::Action { plugin_id: p.plugin_id, action_id, item_id: None },
        ),
        p.kind matches PanelView::List(items) ==> {
            &&& p.list.selected == Some(n as usize) && 0 <= n < items.len() && n <= usize::MAX ==> (
            match items[n] {
                ItemView::Plugin { item_id, .. } => action_call(p, action_id) == Some(
                    CallView::Action {
                        plugin_id: p.plugin_id,
                        action_id,
                        item_id: Some(item_id),
                    },
                ),
                _ => action_call(p, action_id) == Some(
                    CallView::Action { plugin_id: p.plugin_id, action_id, item_id: None },
                ),
            })
            &&& p.list.selected is None ==> action_call(p, action_id) == Some(
                CallView::Action { plugin_id: p.plugin_id, action_id, item_id: None },
            )
        },
        p.kind is Calendar || p.kind is Grid || p.kind is Search ==> action_call(
            p,
            action_id,
        ) is None,
{
}

/// A window that takes a view forgets all that was selected, filled in or found before:
/// it begins with the view's own day, its first row and its fields' own values.
pub proof fn windows_start_afresh(
    plugin_id: Seq<char>,
    command: Seq<char>,
    kind: PanelView,
    actions: Seq<ActionView>,
)
    ensures
        ({
            let p = fresh_panel(plugin_id, command, kind, actions);
            &&& p.plugin_id == plugin_id && p.command == command && p.kind == kind && p.actions
                == actions
            &&& p.search_results is None && p.search_rows.len() == 0
            &&& kind matches PanelView::Calendar(c) ==> p.selection == c.data.selected
            &&& !(kind is Calendar) ==> p.selection.len() == 0
            &&& kind matches PanelView::List(items) ==> items.len() <= usize::MAX ==> p.list.len
                == items.len() && p.list.selected == (if items.len() > 0 {
                Some(0usize)
            } else {
                None
            })
            &&& !(kind is List) ==> p.list == (ResultListState { len: 0, selected: None })
            &&& kind matches PanelView::Form(f) ==> p.filled == initial_values(f.fields)
        }),
{
}

/// The nominal heights of windows: the title bar, the space around, and what the view
/// takes, with the navigation above a calendar.
pub proof fn windows_have_their_heights(kind: PanelView)
    ensures
        panel_px(kind) == 56 + (match kind {
            PanelView::Calendar(_) => 350,
            PanelView::List(items) => if items.len() < 8 {
                42 * items.len()
            } else {
                336
            },
            PanelView::Detail(_) => 260,
            PanelView::Form(_) => 260,
            PanelView::Grid(_) => 320,
            PanelView::Search => 360,
        }),
        forall|n: int|
            0 <= n ==> #[trigger] list_px(n) == if n < 8 {
                42 * n
            } else {
                336
            },
{
}

/// Another month of a calendar is shown with its day selected in the window too.
pub proof fn months_select_their_day(p: PanelState, c: ActiveView, year: int, month: int)
    ensures
        ({
            let next = with_month(p, c, year, month);
            &&& next == (PanelState { kind: next.kind, selection: next.selection, ..p })
            &&& match next.kind {
                PanelView::Calendar(d) => {
                    &&& d.data == showing_month(c.data, year, month)
                    &&& d.data.year == year && d.data.month == month
                    &&& next.selection == d.data.selected
                    &&& d.plugin_id == c.plugin_id && d.command == c.command && d.detachable
                        == c.detachable
                },
                _ => false,
            }
        }),
{
}

/// Whether `fields[i]` is the last field with its id.
pub open spec fn is_last_field(fields: Seq<FieldView>, i: int) -> bool {
    &&& 0 <= i < fields.len()
    &&& forall|j: int| i < j < fields.len() ==> (#[trigger] fields[j]).id != fields[i].id
}

/// A form begins with a value for each of its fields and no other: the one it came
/// with, or else off for a switch and nothing for a text.
#[verifier::rlimit(40)]
pub proof fn forms_start_with_their_values(fields: Seq<FieldView>)
    ensures
        forall|i: int| #[trigger]
            is_last_field(fields, i) ==> initial_values(fields).contains_key(fields[i].id)
                && initial_values(fields)[fields[i].id] == (match fields[i].value {
                Some(v) => v,
                None => if fields[i].kind == FieldKind::Toggle {
                    ValueView::Bool(false)
                } else {
                    ValueView::String(Seq::empty())
                },
            }),
        forall|k: Seq<char>| #[trigger]
            initial_values(fields).contains_key(k) ==> exists|i: int| #[trigger]
                is_last_field(fields, i) && fields[i].id == k,
    decreases fields.len(),
{
    if fields.len() > 0 {
        let rest = fields.drop_last();
        let n = fields.len() - 1;
        forms_start_with_their_values(rest);
        assert(initial_value(fields[n]) == initial_values(fields)[fields[n].id]);
        assert forall|i: int| #[trigger] is_last_field(fields, i) implies initial_values(
            fields,
        ).contains_key(fields[i].id) && initial_values(fields)[fields[i].id] == (
        match fields[i].value {
            Some(v) => v,
            None => if fields[i].kind == FieldKind::Toggle {
                ValueView::Bool(false)
            } else {
                ValueView::String(Seq::empty())
            },
        }) by {
            if i < n {
                assert(fields[n].id != fields[i].id);
                assert(is_last_field(rest, i)) by {
                    assert forall|j: int| i < j < rest.len() implies (#[trigger] rest[j]).id
                        != rest[i].id by {
                        assert(fields[j].id != fields[i].id);
                    }
                }
            }
        }
        assert forall|k: Seq<char>| #[trigger] initial_values(fields).contains_key(
            k,
        ) implies exists|i: int| #[trigger] is_last_field(fields, i) && fields[i].id == k by {
            if k == fields[n].id {
                assert(is_last_field(fields, n));
            } else {
                assert(initial_values(rest).contains_key(k));
                let i = choose|i: int| #[trigger] is_last_field(rest, i) && rest[i].id == k;
                assert(is_last_field(fields, i)) by {
                    assert forall|j: int| i < j < fields.len() implies (#[trigger] fields[j]).id
                        != fields[i].id by {
                        if j < n {
                            assert(rest[j].id != rest[i].id);
                        }
                    }
                }
            }
        }
    }
}

/// A switch that is on is turned off, and one that is off, or was never set, is turned
/// on; all other values stay.
pub proof fn switches_are_turned_over(
    values: Map<Seq<char>, ValueView>,
    id: Seq<char>,
    other: Seq<char>,
)
    ensures
        toggled(values, id).contains_key(id),
        values.contains_key(id) && values[id] == ValueView::Bool(true) ==> toggled(values, id)[id]
            == ValueView::Bool(false),
        !(values.contains_key(id) && values[id] == ValueView::Bool(true)) ==> toggled(
            values,
            id,
        )[id] == ValueView::Bool(true),
        other != id ==> toggled(values, id).contains_key(other) == values.contains_key(other)
            && toggled(values, id)[other] == values[other],
{
}

/// What is submitted is an object with every value under the id of its field, a text as
/// a text and a switch as true or false, and with nothing else.
pub proof fn submissions_carry_every_value(
    j: JsonView,
    values: Map<Seq<char>, ValueView>,
    id: Seq<char>,
)
    requires
        submits(j, values),
    ensures
        j is Object,
        match j.field(id) {
            Some(JsonView::Str(s)) => values.contains_key(id) && values[id] == ValueView::String(s),
            Some(JsonView::Bool(b)) => values.contains_key(id) && values[id] == ValueView::Bool(b),
            Some(_) => false,
            None => !values.contains_key(id),
        },
{
}

/// A switch is shown on where its value is, a select field by the option that was
/// chosen, and any other field by its text, or else by its placeholder.
pub proof fn fields_show_their_values(
    kind: FieldKind,
    placeholder: Option<Seq<char>>,
    value: Option<ValueView>,
)
    ensures
        kind == FieldKind::Toggle ==> displayed(kind, placeholder, value) == DisplayView::Toggle(
            value matches Some(ValueView::Bool(b)) && b,
        ),
        kind == FieldKind::Select ==> displayed(kind, placeholder, value) == DisplayView::Select(
            match value {
                Some(ValueView::String(s)) => s,
                _ => Seq::empty(),
            },
        ),
        kind != FieldKind::Toggle && kind != FieldKind::Select ==> displayed(
            kind,
            placeholder,
            value,
        ) == DisplayView::Text(
            match (value, placeholder) {
                (Some(ValueView::String(s)), _) => s,
                (_, Some(s)) => s,
                _ => Seq::empty(),
            },
        ),
{
}

/// In a search bar a key of one character types it, backspace takes the last one, and
/// either asks for a search; enter submits; shortcuts, control characters and other
/// named keys do nothing.
pub proof fn search_bars_take_characters(value: Seq<char>, key: Seq<char>, c: char)
    ensures
        bar_key(value, key, true) == (value, BarEffect::Nothing),
        c as u32 > 0x1F && !(0x7F <= c as u32 <= 0x9F) ==> bar_key(value, seq![c], false) == (
            value.push(c),
            BarEffect::Input,
        ),
        bar_key(value.push(c), "backspace"@, false) == (value, BarEffect::Input),
        bar_key(Seq::empty(), "backspace"@, false) == (Seq::<char>::empty(), BarEffect::Input),
        bar_key(value, "enter"@, false) == (value, BarEffect::Submit),
        key.len() != 1 && key != "backspace"@ && key != "enter"@ ==> bar_key(value, key, false) == (
            value,
            BarEffect::Nothing,
        ),
        c as u32 <= 0x1F || 0x7F <= c as u32 <= 0x9F ==> bar_key(value, seq![c], false) == (
            value,
            BarEffect::Nothing,
        ),
{
    lemma_key_names();
    assert(value.push(c).drop_last() =~= value);
}

} // verus!

//! What rows, keys and plugin answers do in the launcher.

use vstd::prelude::*;

use crate::engine::AppView;
use crate::host::{CallView, EventView};
use crate::hotkeys::{pressed_hotkey, HotkeyView};
use crate::input::InputView;
use crate::json::JsonView;
use crate::launcher::{
    answer_of, builtin_rows, calendar_shown, command_rows, confirmed, detach_target, event_done,
    hit_place, key_action, key_done, launcher_px, loading_rows, merged_rows, next_detachable,
    one_line, rendered, searched, with_pair, without_pair, ConfirmView, EffectView, KeyAction,
    LauncherView, PanelEffectView, StrokeView,
};
use crate::link::openable;
use crate::protocol::ErrorView;
use crate::results::{moved_row, row_ensured, rows_in, top_row, ItemView, ResultListState};
use crate::route::HitView;
use crate::text::trimmed;
use crate::views::{calendar_in, hostable, is_type};

verus! {

/// Whether hit `i` is the first of the given plugin and command.
pub open spec fn first_hit(
    hits: Seq<HitView>,
    plugin_id: Seq<char>,
    command: Seq<char>,
    i: int,
) -> bool {
    &&& 0 <= i < hits.len()
    &&& hits[i].plugin_id == plugin_id && hits[i].command == command
    &&& forall|j: int|
        0 <= j < i ==> !((#[trigger] hits[j]).plugin_id == plugin_id && hits[j].command == command)
}

proof fn lemma_place(hits: Seq<HitView>, plugin_id: Seq<char>, command: Seq<char>, i: int)
    requires
        0 <= i <= hits.len(),
        forall|j: int|
            0 <= j < i ==> !((#[trigger] hits[j]).plugin_id == plugin_id && hits[j].command
                == command),
    ensures
        match hit_place(hits, plugin_id, command, i) {
            Some(k) => first_hit(hits, plugin_id, command, k),
            None => forall|k: int| !first_hit(hits, plugin_id, command, k),
        },
    decreases hits.len() - i,
{
    if i < hits.len() && !(hits[i].plugin_id == plugin_id && hits[i].command == command) {
        lemma_place(hits, plugin_id, command, i + 1);
    }
}

/// A plugin's answer is that of its first command of that name among the commands that
/// take part.
pub proof fn answers_are_found_by_command(
    st: LauncherView,
    plugin_id: Seq<char>,
    command: Seq<char>,
)
    ensures
        forall|i: int| #[trigger]
            first_hit(st.hits, plugin_id, command, i) ==> answer_of(st, plugin_id, command)
                == st.views[i],
        (forall|i: int| !first_hit(st.hits, plugin_id, command, i)) ==> answer_of(
            st,
            plugin_id,
            command,
        ) is None,
{
    lemma_place(st.hits, plugin_id, command, 0);
    assert forall|i: int| #[trigger] first_hit(st.hits, plugin_id, command, i) implies answer_of(
        st,
        plugin_id,
        command,
    ) == st.views[i] by {
        let k = hit_place(st.hits, plugin_id, command, 0)->0;
        if i < k {
            assert(!(st.hits[i].plugin_id == plugin_id && st.hits[i].command == command));
        } else if k < i {
            assert(!(st.hits[k].plugin_id == plugin_id && st.hits[k].command == command));
        }
    }
}

/// Confirming an application starts it, a result of the calculator copies it, an
/// address opens it, and a row of a plugin's list is told to that plugin; a command
/// that has not answered does nothing. None of this changes the launcher.
pub proof fn confirming_does_what_the_row_says(st: LauncherView, row: ItemView)
    ensures
        match row {
            ItemView::App(app) => confirmed(st, row) == (st, ConfirmView::Launch(app.path)),
            ItemView::Action { title, .. } => confirmed(st, row) == (st, ConfirmView::Copy(title)),
            ItemView::Link { url, .. } => confirmed(st, row) == (st, ConfirmView::OpenUrl(url)),
            ItemView::Plugin { plugin_id, command, item_id, .. } => confirmed(st, row) == (
                st,
                ConfirmView::Call(CallView::Item { plugin_id, command, item_id }),
            ),
            ItemView::Loading { .. } => confirmed(st, row) == (st, ConfirmView::Nothing),
            _ => true,
        },
{
}

/// Confirming a command that has answered opens a window on its answer; confirming a
/// calendar brings its window to the front where it has one, and else shows the
/// calendar that was answered. A command without an answer does nothing.
pub proof fn confirming_a_command_opens_its_view(st: LauncherView, row: ItemView, i: int)
    ensures
        match row {
            ItemView::Command { plugin_id, command, .. } => first_hit(
                st.hits,
                plugin_id,
                command,
                i,
            ) ==> confirmed(st, row) == (
                st,
                match st.views[i] {
                    Some(view) => ConfirmView::OpenPanel {
                        plugin_id,
                        command,
                        view,
                        detachable: st.hits[i].detachable,
                    },
                    None => ConfirmView::Nothing,
                },
            ),
            ItemView::Calendar { plugin_id, command, .. } => first_hit(
                st.hits,
                plugin_id,
                command,
                i,
            ) ==> (match st.views[i] {
                Some(view) => if st.windows.contains((plugin_id, command)) {
                    confirmed(st, row) == (st, ConfirmView::Focus { plugin_id, command })
                } else {
                    match calendar_in(view, plugin_id, command, st.hits[i].detachable) {
                        Some(active) => confirmed(st, row) == (
                            LauncherView { calendar: Some(active), ..st },
                            ConfirmView::ShowCalendar,
                        ),
                        None => confirmed(st, row) == (st, ConfirmView::Nothing),
                    }
                },
                None => confirmed(st, row) == (st, ConfirmView::Nothing),
            }),
            _ => true,
        },
{
    match row {
        ItemView::Command { plugin_id, command, .. } => {
            answers_are_found_by_command(st, plugin_id, command);
            lemma_place(st.hits, plugin_id, command, 0);
            lemma_first_is_one(st.hits, plugin_id, command, i);
        },
        ItemView::Calendar { plugin_id, command, .. } => {
            answers_are_found_by_command(st, plugin_id, command);
            lemma_place(st.hits, plugin_id, command, 0);
            lemma_first_is_one(st.hits, plugin_id, command, i);
        },
        _ => {},
    }
}

proof fn lemma_first_is_one(hits: Seq<HitView>, plugin_id: Seq<char>, command: Seq<char>, i: int)
    ensures
        first_hit(hits, plugin_id, command, i) ==> hit_place(hits, plugin_id, command, 0) == Some(
            i,
        ),
{
    lemma_place(hits, plugin_id, command, 0);
    if first_hit(hits, plugin_id, command, i) {
        let k = hit_place(hits, plugin_id, command, 0)->0;
        if i < k {
            assert(!(hits[i].plugin_id == plugin_id && hits[i].command == command));
        } else if k < i {
            assert(!(hits[k].plugin_id == plugin_id && hits[k].command == command));
        }
    }
}

/// A new query shows the value of an expression first, under the query without the
/// white space around it, then the address to open, then all applications that were
/// found, in their order. The first eight plugin commands take part, none of which has
/// been called or has answered, under generations of their own.
pub proof fn queries_start_afresh(
    st: LauncherView,
    answer: Option<Seq<char>>,
    label: Seq<char>,
    command_label: Seq<char>,
    apps: Seq<AppView>,
    hits: Seq<HitView>,
    n: int,
)
    requires
        st.plugin_gen < u64::MAX,
        st.icon_gen < u64::MAX,
    ensures
        ({
            let now = searched(st, answer, label, command_label, apps, hits);
            let values: int = if answer is Some {
                1
            } else {
                0
            };
            let links: int = if openable(st.input.query) is Some {
                1
            } else {
                0
            };
            &&& now.builtin == values + links
            &&& now.base.len() == values + links + apps.len()
            &&& answer is Some ==> now.base[0] == (ItemView::Action {
                title: answer->0,
                subtitle: trimmed(st.input.query),
            })
            &&& openable(st.input.query) is Some ==> now.base[values] == (ItemView::Link {
                url: openable(st.input.query)->0,
                label,
                command_label,
            })
            &&& 0 <= n < apps.len() ==> now.base[values + links + n] == ItemView::App(apps[n])
            &&& now.hits.len() == (if hits.len() < 8 {
                hits.len() as int
            } else {
                8
            })
            &&& 0 <= n < now.hits.len() ==> now.hits[n] == hits[n] && now.views[n] is None
            &&& now.views.len() == now.hits.len()
            &&& now.pending.len() == 0
            &&& now.search_results == Map::<(Seq<char>, Seq<char>), JsonView>::empty()
            &&& now.plugin_gen == st.plugin_gen + 1 && now.icon_gen == st.icon_gen + 1
            &&& now.input == st.input && now.windows == st.windows && now.calendar == st.calendar
            &&& now.search_gen == st.search_gen
        }),
{
    let builtin = builtin_rows(st.input.query, answer, label, command_label);
}

/// Whether `places` are places of a list of the given length, in rising order.
pub open spec fn rising_places(places: Seq<int>, len: nat) -> bool {
    &&& forall|i: int| 0 <= i < places.len() ==> 0 <= #[trigger] places[i] < len
    &&& forall|i: int, j: int|
        0 <= i < j < places.len() ==> #[trigger] places[i] < #[trigger] places[j]
}

/// Whether the rows are those of the commands that have answered, in their order.
pub open spec fn answered_rows(
    rows: Seq<ItemView>,
    hits: Seq<HitView>,
    views: Seq<Option<JsonView>>,
    label: Seq<char>,
    places: Seq<int>,
) -> bool {
    &&& rising_places(places, hits.len())
    &&& rows.len() == places.len()
    &&& forall|i: int|
        0 <= i < hits.len() ==> (#[trigger] places.contains(i) <==> views[i] is Some)
    &&& forall|i: int|
        0 <= i < places.len() ==> #[trigger] rows[i] == (ItemView::Command {
            plugin_id: hits[places[i]].plugin_id,
            command: hits[places[i]].command,
            title: hits[places[i]].title,
            subtitle: label,
        })
}

/// Whether the rows are those of all the commands that have answered, in their order.
pub open spec fn are_answered_rows(
    rows: Seq<ItemView>,
    hits: Seq<HitView>,
    views: Seq<Option<JsonView>>,
    label: Seq<char>,
) -> bool {
    exists|places: Seq<int>| answered_rows(rows, hits, views, label, places)
}

spec fn answered_places(views: Seq<Option<JsonView>>, n: int) -> Seq<int>
    decreases n,
{
    if n <= 0 {
        Seq::empty()
    } else {
        let rest = answered_places(views, n - 1);
        if views[n - 1] is Some {
            rest.push(n - 1)
        } else {
            rest
        }
    }
}

#[verifier::rlimit(40)]
proof fn lemma_answered(
    hits: Seq<HitView>,
    views: Seq<Option<JsonView>>,
    label: Seq<char>,
    n: int,
)
    requires
        0 <= n <= hits.len(),
        n <= 8,
        views.len() == hits.len(),
    ensures
        ({
            let rows = command_rows(hits, views, label, n);
            let places = answered_places(views, n);
            &&& places.len() <= n
            &&& answered_rows(rows, hits.take(n), views.take(n), label, places)
        }),
    decreases n,
{
    if n > 0 {
        lemma_answered(hits, views, label, n - 1);
        let m = n - 1;
        let p0 = answered_places(views, m);
        let p = answered_places(views, n);
        let r0 = command_rows(hits, views, label, m);
        let r = command_rows(hits, views, label, n);
        assert(r0.len() < 8);
        assert forall|i: int| 0 <= i < n implies (#[trigger] p.contains(i) <==> views.take(n)[i]
            is Some) by {
            if i < m {
                assert(p0.contains(i) <==> views.take(m)[i] is Some);
                if p0.contains(i) {
                    let k = choose|k: int| 0 <= k < p0.len() && p0[k] == i;
                    assert(p[k] == i);
                }
                if p.contains(i) {
                    let k = choose|k: int| 0 <= k < p.len() && p[k] == i;
                    assert(p0[k] == i);
                }
            } else {
                if views[m] is Some {
                    assert(p[p.len() - 1] == m);
                } else if p.contains(m) {
                    let k = choose|k: int| 0 <= k < p.len() && p[k] == m;
                    assert(p0[k] == m);
                }
            }
        }
        assert forall|i: int| 0 <= i < p.len() implies #[trigger] r[i] == (ItemView::Command {
            plugin_id: hits.take(n)[p[i]].plugin_id,
            command: hits.take(n)[p[i]].command,
            title: hits.take(n)[p[i]].title,
            subtitle: label,
        }) by {
            if i < p0.len() {
                assert(r[i] == r0[i] && p[i] == p0[i]);
                assert(hits.take(m)[p[i]] == hits.take(n)[p[i]]);
            }
        }
    }
}

/// Every plugin command that has answered has a row, in the order of the commands,
/// under its title; before them comes one row for a command that was called and has
/// not answered. They stand between the built-in rows and the applications, and the
/// first row of all is selected.
pub proof fn rows_show_what_has_answered(st: LauncherView, label: Seq<char>)
    requires
        st.valid(),
        st.hits.len() <= 8,
    ensures
        ({
            let now = rendered(st, label);
            let waits: int = if st.pending.len() > 0 {
                1
            } else {
                0
            };
            let from = st.builtin + waits;
            let to = now.rows.len() - (st.base.len() - st.builtin);
            &&& from <= to
            &&& now.rows.take(st.builtin) == st.base.take(st.builtin)
            &&& now.rows.skip(to) == st.base.skip(st.builtin)
            &&& st.pending.len() > 0 ==> now.rows[st.builtin] == (ItemView::Loading {
                command: st.pending[0].1,
            })
            &&& are_answered_rows(now.rows.subrange(from, to), st.hits, st.views, label)
            &&& now.list.selected == (if now.rows.len() > 0 {
                Some(0usize)
            } else {
                None
            })
            &&& now.rows.len() <= usize::MAX ==> now.list.len == now.rows.len()
            &&& now.hits == st.hits && now.views == st.views && now.pending == st.pending
            &&& now.input == st.input && now.base == st.base && now.windows == st.windows
        }),
{
    let now = rendered(st, label);
    let n = st.hits.len() as int;
    let l = loading_rows(st.pending);
    let c = command_rows(st.hits, st.views, label, n);
    let from = st.builtin + l.len();
    let to = now.rows.len() - (st.base.len() - st.builtin);
    lemma_answered(st.hits, st.views, label, n);
    assert(st.hits.take(n) =~= st.hits);
    assert(st.views.take(n) =~= st.views);
    assert(now.rows == merged_rows(st, label));
    assert(now.rows.subrange(from, to) =~= c);
    assert(now.rows.take(st.builtin) =~= st.base.take(st.builtin));
    assert(now.rows.skip(to) =~= st.base.skip(st.builtin));
    if st.pending.len() > 0 {
        assert(now.rows[st.builtin] == l[0]);
    }
    assert(answered_rows(
        now.rows.subrange(from, to),
        st.hits,
        st.views,
        label,
        answered_places(st.views, n),
    ));
}

/// The calendar stays open while one of its plugin's commands has a calendar for the
/// query, and is shown unless it has a window of its own; its selected day is then the
/// one it came with.
pub proof fn calendars_stay_while_they_are_answered(st: LauncherView, label: Seq<char>)
    ensures
        ({
            let now = rendered(st, label);
            let answered = st.calendar matches Some(active) && exists|i: int|
                0 <= i < st.hits.len() && (#[trigger] st.hits[i]).plugin_id == active.plugin_id
                    && st.views[i] is Some && calendar_in(
                    st.views[i]->0,
                    st.hits[i].plugin_id,
                    st.hits[i].command,
                    st.hits[i].detachable,
                ) is Some;
            &&& now.calendar == (if answered {
                st.calendar
            } else {
                None
            })
            &&& calendar_shown(now) <==> answered && !st.windows.contains(
                (st.calendar->0.plugin_id, st.calendar->0.command),
            )
            &&& now.calendar_selected == (if calendar_shown(now) {
                st.calendar->0.data.selected
            } else {
                st.calendar_selected
            })
        }),
{
    if let Some(active) = st.calendar {
        if exists|i: int|
            0 <= i < st.hits.len() && (#[trigger] st.hits[i]).plugin_id == active.plugin_id
                && st.views[i] is Some && calendar_in(
                st.views[i]->0,
                st.hits[i].plugin_id,
                st.hits[i].command,
                st.hits[i].detachable,
            ) is Some {
            let i = choose|i: int|
                0 <= i < st.hits.len() && (#[trigger] st.hits[i]).plugin_id == active.plugin_id
                    && st.views[i] is Some && calendar_in(
                    st.views[i]->0,
                    st.hits[i].plugin_id,
                    st.hits[i].command,
                    st.hits[i].detachable,
                ) is Some;
            assert(crate::launcher::shows_calendar(st, active, i));
        }
        if crate::launcher::calendar_stays(st, active) {
            let i = choose|i: int| #[trigger] crate::launcher::shows_calendar(st, active, i);
            assert(st.hits[i].plugin_id == active.plugin_id);
        }
    }
}

/// Whether command `i` may have, and has, a view for a window of its own.
pub open spec fn may_detach(st: LauncherView, i: int) -> bool {
    0 <= i < st.hits.len() && st.hits[i].detachable && st.views[i] is Some && hostable(
        st.views[i]->0,
    )
}

proof fn lemma_next_detachable(st: LauncherView, from: int)
    requires
        0 <= from,
    ensures
        match next_detachable(st, from) {
            Some(i) => from <= i && may_detach(st, i) && forall|j: int|
                from <= j < i ==> !#[trigger] may_detach(st, j),
            None => forall|j: int| from <= j ==> !#[trigger] may_detach(st, j),
        },
    decreases st.hits.len() - from,
{
    if from < st.hits.len() && !may_detach(st, from) {
        lemma_next_detachable(st, from + 1);
    }
}

/// A window of its own is offered for the view of the only command that may have one;
/// where there are several, or none, it is offered for none.
pub proof fn only_one_view_is_offered_a_window(st: LauncherView, i: int)
    ensures
        may_detach(st, i) && (forall|j: int| #[trigger] may_detach(st, j) ==> j == i)
            ==> detach_target(st) == Some((st.hits[i].plugin_id, st.hits[i].command)),
        (forall|j: int| !#[trigger] may_detach(st, j)) ==> detach_target(st) is None,
        (exists|j: int| #[trigger] may_detach(st, j) && may_detach(st, i) && j != i)
            ==> detach_target(st) is None,
{
    lemma_next_detachable(st, 0);
    if let Some(a) = next_detachable(st, 0) {
        lemma_next_detachable(st, a + 1);
        if exists|j: int| #[trigger] may_detach(st, j) && may_detach(st, i) && j != i {
            let j = choose|j: int| #[trigger] may_detach(st, j) && may_detach(st, i) && j != i;
            assert(may_detach(st, i) && may_detach(st, j));
            if i > a {
                assert(may_detach(st, i));
            } else {
                assert(may_detach(st, j));
            }
        }
        if may_detach(st, i) && (forall|j: int| #[trigger] may_detach(st, j) ==> j == i) {
            assert(a == i);
            if let Some(b) = next_detachable(st, a + 1) {
                assert(may_detach(st, b));
            }
        }
    }
}

/// The launcher is as high as its bar and what it shows below it: the calendar, or a
/// row of 42 pixels for each row, up to eight.
pub proof fn launcher_is_as_high_as_its_rows(st: LauncherView)
    ensures
        launcher_px(st) == 68 + if calendar_shown(st) {
            324
        } else if st.rows.len() < 8 {
            42 * st.rows.len()
        } else {
            336
        },
{
}

proof fn lemma_key_names()
    ensures
        "up"@.len() == 2,
        "end"@.len() == 3,
        "down"@.len() == 4 && "down"@[0] == 'd',
        "left"@.len() == 4 && "left"@[0] == 'l',
        "home"@.len() == 4 && "home"@[0] == 'h',
        "right"@.len() == 5 && "right"@[0] == 'r',
        "enter"@.len() == 5 && "enter"@[0] == 'e',
        "space"@.len() == 5 && "space"@[0] == 's',
        "delete"@.len() == 6 && "delete"@[0] == 'd',
        "escape"@.len() == 6 && "escape"@[0] == 'e',
        "backspace"@.len() == 9,
        "a"@.len() == 1 && "a"@[0] == 'a',
        "c"@.len() == 1 && "c"@[0] == 'c',
        "x"@.len() == 1 && "x"@[0] == 'x',
        "v"@.len() == 1 && "v"@[0] == 'v',
{
    reveal_strlit("up");
    reveal_strlit("end");
    reveal_strlit("down");
    reveal_strlit("left");
    reveal_strlit("home");
    reveal_strlit("right");
    reveal_strlit("enter");
    reveal_strlit("space");
    reveal_strlit("delete");
    reveal_strlit("escape");
    reveal_strlit("backspace");
    reveal_strlit("a");
    reveal_strlit("c");
    reveal_strlit("x");
    reveal_strlit("v");
}

/// Whether a key types a character: the first one of its text, unless control, alt or
/// the Windows key is held or it is a control character.
pub open spec fn types(k: StrokeView, c: char) -> bool {
    &&& !k.control && !k.alt && !k.platform
    &&& k.key_char matches Some(s) && s.len() > 0 && s[0] == c
    &&& c as u32 > 0x1F && !(0x7F <= c as u32 <= 0x9F)
}

/// While a text is composed, all keys are the input method's. Else a key that types a
/// character types it, whatever is shown.
pub proof fn typing_comes_before_all_else(
    st: LauncherView,
    k: StrokeView,
    settings: Option<HotkeyView>,
    c: char,
)
    ensures
        st.input.marked is Some ==> key_done(st, key_action(st, k, settings)) == (
            st,
            EffectView::Handled,
        ),
        st.input.marked is None && types(k, c) ==> key_done(st, key_action(st, k, settings)) == (
            LauncherView { input: st.input.inserted(seq![c]), ..st },
            EffectView::Search,
        ),
{
}

/// Whether a key types nothing and no text is composed.
pub open spec fn is_command_key(st: LauncherView, k: StrokeView) -> bool {
    st.input.marked is None && forall|c: char| !types(k, c)
}

proof fn lemma_types_nothing(k: StrokeView)
    requires
        forall|c: char| !types(k, c),
    ensures
        crate::launcher::typed_char(k) is None,
{
    if let Some(s) = k.key_char {
        if s.len() > 0 {
            assert(!types(k, s[0]));
        }
    }
}

/// With control held, `a` selects everything, `c` copies what is selected, `x` cuts it
/// out, and `v` pastes.
pub proof fn shortcuts_edit_the_query(
    st: LauncherView,
    k: StrokeView,
    settings: Option<HotkeyView>,
)
    requires
        is_command_key(st, k),
        k.control && !k.alt && !k.platform,
    ensures
        k.key == "a"@ ==> key_action(st, k, settings) == KeyAction::SelectAll,
        k.key == "c"@ ==> key_action(st, k, settings) == KeyAction::Copy,
        k.key == "x"@ ==> key_action(st, k, settings) == KeyAction::Cut,
        k.key == "v"@ ==> key_action(st, k, settings) == KeyAction::Paste,
{
    lemma_types_nothing(k);
    lemma_key_names();
}

/// Whether a key is one of the four editing shortcuts.
pub open spec fn is_shortcut(k: StrokeView) -> bool {
    k.control && !k.alt && !k.platform && (k.key == "a"@ || k.key == "c"@ || k.key == "x"@ || k.key
        == "v"@)
}

/// The hotkey of the settings opens them.
pub proof fn settings_hotkey_opens_the_settings(
    st: LauncherView,
    k: StrokeView,
    settings: Option<HotkeyView>,
)
    requires
        is_command_key(st, k),
        !is_shortcut(k),
        settings is Some,
        pressed_hotkey(k.control, k.alt, k.shift, k.platform, k.key) == settings,
    ensures
        key_done(st, key_action(st, k, settings)) == (st, EffectView::OpenSettings),
{
    lemma_types_nothing(k);
}

/// The remaining keys: the arrows and enter move and confirm the day of a calendar that
/// is shown, else the row and the caret; the others edit the query or hide the
/// launcher; all others are ignored.
pub proof fn named_keys_move_and_confirm(
    st: LauncherView,
    k: StrokeView,
    settings: Option<HotkeyView>,
)
    requires
        is_command_key(st, k),
        !is_shortcut(k),
        settings is None || pressed_hotkey(k.control, k.alt, k.shift, k.platform, k.key)
            != settings,
    ensures
        ({
            let action = key_action(st, k, settings);
            let day = calendar_shown(st);
            &&& k.key == "up"@ ==> action == if day {
                KeyAction::MoveDay(-7i32)
            } else {
                KeyAction::MoveRow(-1i32)
            }
            &&& k.key == "down"@ ==> action == if day {
                KeyAction::MoveDay(7)
            } else {
                KeyAction::MoveRow(1)
            }
            &&& k.key == "left"@ ==> action == if day {
                KeyAction::MoveDay(-1i32)
            } else {
                KeyAction::MoveCaret(-1i32)
            }
            &&& k.key == "right"@ ==> action == if day {
                KeyAction::MoveDay(1)
            } else {
                KeyAction::MoveCaret(1)
            }
            &&& k.key == "enter"@ ==> action == if day {
                KeyAction::ConfirmDay
            } else {
                KeyAction::ConfirmRow
            }
            &&& k.key == "space"@ ==> action == KeyAction::Insert(' ')
            &&& k.key == "backspace"@ ==> action == KeyAction::Backspace
            &&& k.key == "delete"@ ==> action == KeyAction::Delete
            &&& k.key == "home"@ ==> action == KeyAction::CaretHome
            &&& k.key == "end"@ ==> action == KeyAction::CaretEnd
            &&& k.key == "escape"@ ==> action == KeyAction::Hide
            &&& !(k.key == "up"@ || k.key == "down"@ || k.key == "left"@ || k.key == "right"@
                || k.key == "enter"@ || k.key == "space"@ || k.key == "backspace"@ || k.key
                == "delete"@ || k.key == "home"@ || k.key == "end"@ || k.key == "escape"@)
                ==> action == KeyAction::Ignored
        }),
{
    lemma_types_nothing(k);
    lemma_key_names();
}

/// What the keys do: the launcher after them, and what is left to do. Only the query,
/// the selected day or the selected row changes.
pub proof fn keys_change_what_they_are_for(st: LauncherView, delta: i32)
    requires
        st.input.valid(),
    ensures
        key_done(st, KeyAction::Copy) == (match st.input.selection {
            Some((a, b)) => if a < b {
                (st, EffectView::Copy(st.input.query.subrange(a, b)))
            } else {
                (st, EffectView::Handled)
            },
            None => (st, EffectView::Handled),
        }),
        key_done(st, KeyAction::Cut) == (match st.input.selection {
            Some((a, b)) => if a < b {
                (
                    LauncherView {
                        input: InputView {
                            query: st.input.query.take(a) + st.input.query.skip(b),
                            cursor: a,
                            selection: None,
                            marked: st.input.marked,
                        },
                        ..st
                    },
                    EffectView::Cut(st.input.query.subrange(a, b)),
                )
            } else {
                (st, EffectView::Handled)
            },
            None => (st, EffectView::Handled),
        }),
        key_done(st, KeyAction::Paste) == (st, EffectView::Paste),
        key_done(st, KeyAction::Hide) == (st, EffectView::Hide),
        key_done(st, KeyAction::Ignored) == (st, EffectView::Ignored),
        key_done(st, KeyAction::Backspace) == (
            LauncherView { input: crate::input::backspaced(st.input), ..st },
            EffectView::Search,
        ),
        key_done(st, KeyAction::Delete) == (
            LauncherView { input: crate::input::deleted(st.input), ..st },
            EffectView::Search,
        ),
        key_done(st, KeyAction::SelectAll) == (
            LauncherView { input: crate::input::all_selected(st.input), ..st },
            EffectView::Redraw,
        ),
        key_done(st, KeyAction::CaretHome) == (
            LauncherView { input: InputView { cursor: 0, selection: None, ..st.input }, ..st },
            EffectView::Redraw,
        ),
        key_done(st, KeyAction::CaretEnd) == (
            LauncherView {
                input: InputView {
                    cursor: st.input.query.len() as int,
                    selection: None,
                    ..st.input
                },
                ..st
            },
            EffectView::Redraw,
        ),
        ({
            let (next, effect) = key_done(st, KeyAction::MoveCaret(delta));
            let to = st.input.cursor + delta;
            &&& effect == EffectView::Redraw
            &&& next == LauncherView { input: next.input, ..st }
            &&& next.input == InputView { cursor: next.input.cursor, selection: None, ..st.input }
            &&& next.input.cursor == if to < 0 {
                0
            } else if to > st.input.query.len() {
                st.input.query.len() as int
            } else {
                to
            }
        }),
        key_done(st, KeyAction::MoveRow(delta)) == (
            LauncherView { list: moved_row(st.list, delta as int), ..st },
            EffectView::Redraw,
        ),
        key_done(st, KeyAction::ConfirmRow) == (match st.list.selected {
            Some(i) => if i < st.list.len {
                (st, EffectView::ConfirmRow(i))
            } else {
                (st, EffectView::Handled)
            },
            None => (st, EffectView::Handled),
        }),
        key_done(st, KeyAction::ConfirmDay) == (match st.calendar {
            Some(active) => (
                st,
                EffectView::Call(
                    CallView::Item {
                        plugin_id: active.plugin_id,
                        command: active.command,
                        item_id: st.calendar_selected,
                    },
                ),
            ),
            None => (st, EffectView::Handled),
        }),
        ({
            let (next, effect) = key_done(st, KeyAction::MoveDay(delta));
            &&& effect == EffectView::Redraw
            &&& next == LauncherView { calendar_selected: next.calendar_selected, ..st }
            &&& st.calendar matches Some(active) ==> next.calendar_selected
                == crate::calendar::moved_selection(
                active.data.year,
                active.data.month,
                st.calendar_selected,
                delta as int,
            )
        }),
{
    if let Some((a, b)) = st.input.selection {
        assert(st.input.query.take(a) + Seq::<char>::empty() + st.input.query.skip(b)
            =~= st.input.query.take(a) + st.input.query.skip(b));
    }
}

/// A text is put on one line: a line break, of one character or two, becomes a space,
/// and every other character stays as it is.
pub proof fn line_breaks_become_spaces(s: Seq<char>, c: char)
    ensures
        one_line(Seq::empty()) == Seq::<char>::empty(),
        c != '\r' && c != '\n' ==> one_line(s.push(c)) == one_line(s).push(c),
        one_line(s.push('\r')) == one_line(s).push(' '),
        s.len() == 0 || s.last() != '\r' ==> one_line(s.push('\n')) == one_line(s).push(' '),
        one_line(s.push('\r').push('\n')) == one_line(s).push(' '),
{
    assert(s.push(c).drop_last() =~= s);
    assert(s.push('\r').drop_last() =~= s);
    assert(s.push('\n').drop_last() =~= s);
    let t = s.push('\r').push('\n');
    assert(t.take(t.len() - 2) =~= s);
}

/// A text that was put on one line has no line break left.
pub proof fn one_line_has_no_breaks(s: Seq<char>)
    ensures
        forall|i: int|
            0 <= i < one_line(s).len() ==> #[trigger] one_line(s)[i] != '\r' && one_line(s)[i]
                != '\n',
        one_line(s).len() <= s.len(),
    decreases s.len(),
{
    if s.len() > 0 {
        if s.len() >= 2 && s[s.len() - 2] == '\r' && s.last() == '\n' {
            one_line_has_no_breaks(s.take(s.len() - 2));
        } else {
            one_line_has_no_breaks(s.drop_last());
        }
    }
}

/// A pair that is added is there, once, one that is taken out is not, and all others
/// stay.
#[verifier::rlimit(40)]
pub proof fn pairs_come_and_go(
    v: Seq<(Seq<char>, Seq<char>)>,
    p: (Seq<char>, Seq<char>),
    q: (Seq<char>, Seq<char>),
)
    ensures
        with_pair(v, p).contains(p),
        !without_pair(v, p).contains(p),
        q != p ==> with_pair(v, p).contains(q) == v.contains(q),
        q != p ==> without_pair(v, p).contains(q) == v.contains(q),
        v.no_duplicates() ==> with_pair(v, p).no_duplicates(),
        with_pair(v, p).len() == v.len() + if v.contains(p) {
            0int
        } else {
            1
        },
    decreases v.len(),
{
    if !v.contains(p) {
        let w = v.push(p);
        assert(w[v.len() as int] == p);
        if v.contains(q) {
            let k = choose|k: int| 0 <= k < v.len() && v[k] == q;
            assert(w[k] == q);
        }
        if w.contains(q) && q != p {
            let k = choose|k: int| 0 <= k < w.len() && w[k] == q;
            assert(v[k] == q);
        }
    }
    if v.len() > 0 {
        let rest = v.drop_last();
        pairs_come_and_go(rest, p, q);
        let a = without_pair(rest, p);
        let b = without_pair(v, p);
        if b.contains(p) {
            let k = choose|k: int| 0 <= k < b.len() && b[k] == p;
            if k < a.len() {
                assert(a[k] == p);
            }
        }
        if q != p {
            if v.contains(q) {
                let k = choose|k: int| 0 <= k < v.len() && v[k] == q;
                if k < rest.len() {
                    assert(rest[k] == q);
                    assert(rest.contains(q));
                    let m = choose|m: int| 0 <= m < a.len() && a[m] == q;
                    assert(b[m] == q);
                } else {
                    assert(b[b.len() - 1] == q);
                }
            }
            if b.contains(q) {
                let k = choose|k: int| 0 <= k < b.len() && b[k] == q;
                if k < a.len() {
                    assert(a[k] == q);
                    assert(a.contains(q));
                    let m = choose|m: int| 0 <= m < rest.len() && rest[m] == q;
                    assert(v[m] == q);
                } else {
                    assert(v[v.len() - 1] == q);
                }
            }
        }
    }
}

/// The answer of a command of the current query is kept as that command's view, and
/// the command is not waited for any more; a failure is told, and leaves the views as
/// they are.
pub proof fn current_answers_are_kept(
    st: LauncherView,
    plugin_id: Seq<char>,
    command: Seq<char>,
    result: Result<JsonView, ErrorView>,
    i: int,
)
    requires
        st.valid(),
        first_hit(st.hits, plugin_id, command, i),
    ensures
        ({
            let event = EventView::CommandResult {
                gen: st.plugin_gen,
                plugin_id,
                command,
                result,
            };
            let (next, effect) = event_done(st, event);
            &&& effect.rerender
            &&& effect.panel is Nothing
            &&& !next.pending.contains((plugin_id, command))
            &&& forall|q: (Seq<char>, Seq<char>)|
                q != (plugin_id, command) ==> #[trigger] next.pending.contains(q)
                    == st.pending.contains(q)
            &&& next == (LauncherView { pending: next.pending, views: next.views, ..st })
            &&& match result {
                Ok(view) => next.views == st.views.update(i, Some(view)) && effect.log is None,
                Err(e) => next.views == st.views && effect.log is Some,
            }
        }),
{
    lemma_first_is_one(st.hits, plugin_id, command, i);
    pairs_come_and_go(st.pending, (plugin_id, command), (plugin_id, command));
    assert forall|q: (Seq<char>, Seq<char>)| q != (plugin_id, command) implies (
    #[trigger] without_pair(st.pending, (plugin_id, command)).contains(q)) == st.pending.contains(
        q,
    ) by {
        pairs_come_and_go(st.pending, (plugin_id, command), q);
    }
}

/// The results of the current search go to the window of their search view, as they
/// came.
pub proof fn current_results_go_to_their_window(
    st: LauncherView,
    plugin_id: Seq<char>,
    command: Seq<char>,
    query: Seq<char>,
    view: JsonView,
)
    ensures
        ({
            let event = EventView::SearchResult {
                gen: st.search_gen,
                plugin_id,
                command,
                query,
                result: Ok(view),
            };
            let (next, effect) = event_done(st, event);
            &&& effect.rerender && effect.log is None
            &&& effect.panel == (PanelEffectView::Results {
                gen: st.search_gen,
                plugin_id,
                command,
                view,
            })
            &&& next == (LauncherView {
                search_results: st.search_results.insert((plugin_id, command), view),
                ..st
            })
        }),
{
}

/// The selection moves by as many rows as asked, as far as the list goes; where nothing
/// is selected, it moves down from before the first row.
pub proof fn selection_moves_by_rows(list: ResultListState, delta: int)
    requires
        list.valid(),
        list.len > 0,
    ensures
        ({
            let from: int = match list.selected {
                Some(i) => i as int,
                None => -1,
            };
            let to = moved_row(list, delta).selected;
            &&& to is Some
            &&& 0 <= from + delta < list.len ==> to->0 == from + delta
            &&& from + delta < 0 ==> to->0 == 0
            &&& from + delta >= list.len ==> to->0 == list.len - 1
        }),
        moved_row(list, delta).len == list.len,
        list.selected is Some ==> row_ensured(list) == list,
        list.selected is None ==> row_ensured(list) == (ResultListState {
            len: list.len,
            selected: Some(0),
        }),
{
}

/// As many rows are shown as fit the height, at least one; the list scrolls only as far
/// as it must to show the selected row, which is then the last one shown.
pub proof fn rows_fill_the_height(len: int, selected: int, height: int)
    requires
        0 <= selected < len,
        0 <= height,
    ensures
        ({
            let rows = rows_in(height);
            let top = top_row(len, selected, rows);
            &&& rows >= 1
            &&& height >= 42 ==> rows * 42 <= height < (rows + 1) * 42
            &&& height < 42 ==> rows == 1
            &&& 0 <= top <= selected < top + rows
            &&& selected < rows ==> top == 0
            &&& selected >= rows ==> selected == top + rows - 1
        }),
{
}

/// What does not answer the current query or the current search is dropped: nothing is
/// drawn, told or opened.
pub proof fn stale_answers_do_nothing(
    st: LauncherView,
    gen: u64,
    plugin_id: Seq<char>,
    command: Seq<char>,
    query: Seq<char>,
    result: Result<JsonView, ErrorView>,
)
    ensures
        gen != st.plugin_gen ==> ({
            let (next, effect) = event_done(
                st,
                EventView::CommandResult { gen, plugin_id, command, result },
            );
            next == st && !effect.rerender && effect.log is None && effect.panel is Nothing
        }),
        gen != st.search_gen ==> ({
            let (next, effect) = event_done(
                st,
                EventView::SearchResult { gen, plugin_id, command, query, result },
            );
            next == st && !effect.rerender && effect.log is None && effect.panel is Nothing
        }),
{
}

/// What is told in the log: toasts by their message, processes by their plugin or as the
/// shared pool, and failures by the plugin, the message and the code.
pub proof fn events_are_logged(
    st: LauncherView,
    params: JsonView,
    id: Seq<char>,
    command: Seq<char>,
    query: Seq<char>,
    e: ErrorView,
)
    ensures
        event_done(st, EventView::Toast { params }).0 == st,
        event_done(st, EventView::Toast { params }).1.log == Some(
            "[steward] plugin toast: "@ + (match params.text_field("message"@) {
                Some(s) => s,
                None => Seq::empty(),
            }),
        ),
        event_done(st, EventView::RuntimeCrashed { plugin_id: Some(id) }).1.log == Some(
            "[steward] plugin runtime "@ + id + " crashed; restart scheduled"@,
        ),
        event_done(st, EventView::RuntimeCrashed { plugin_id: None }).1.log == Some(
            "[steward] plugin runtime "@ + "(shared pool)"@ + " crashed; restart scheduled"@,
        ),
        event_done(st, EventView::RuntimeRestarted { plugin_id: Some(id) }).1.log == Some(
            "[steward] plugin runtime "@ + id + " restarted"@,
        ),
        event_done(st, EventView::RuntimeRestarted { plugin_id: None }).1.log == Some(
            "[steward] plugin runtime "@ + "(shared pool)"@ + " restarted"@,
        ),
        event_done(
            st,
            EventView::SearchResult {
                gen: st.search_gen,
                plugin_id: id,
                command,
                query,
                result: Err(e),
            },
        ) == (
            st,
            crate::launcher::EventEffectView {
                rerender: false,
                log: Some(
                    "[steward] plugin "@ + id + " search failed: "@ + (e.message + " ("@
                        + crate::calendar::signed_text(e.code as int) + ")"@),
                ),
                panel: PanelEffectView::Nothing,
            },
        ),
{
}

/// A view that a row leads to is drawn; a detail or a form gets a window too, in place of
/// the one its command had.
pub proof fn item_views_are_shown(
    st: LauncherView,
    plugin_id: Seq<char>,
    command: Seq<char>,
    item_id: Seq<char>,
    view: JsonView,
    i: int,
)
    requires
        st.valid(),
        first_hit(st.hits, plugin_id, command, i),
    ensures
        ({
            let (next, effect) = event_done(
                st,
                EventView::ItemView { plugin_id, command, item_id, view },
            );
            &&& next == (LauncherView { views: st.views.update(i, Some(view)), ..st })
            &&& effect.rerender && effect.log is None
            &&& effect.panel == (if is_type(view, "detail"@) || is_type(view, "form"@) {
                PanelEffectView::Open {
                    plugin_id,
                    command,
                    view,
                    detachable: st.hits[i].detachable,
                }
            } else {
                PanelEffectView::Nothing
            })
        }),
{
    lemma_first_is_one(st.hits, plugin_id, command, i);
}

} // verus!

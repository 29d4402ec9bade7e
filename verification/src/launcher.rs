//! The launcher: its query, the rows it shows, and what keys, rows and plugin
//! answers do.
//!
//! The launcher draws nothing and calls no plugin. Its owner runs the query
//! through the calculator, the application index and the plugin host, hands the
//! outcome in, and does what the launcher answers with.

use vstd::prelude::*;

use crate::calendar::{move_selected, moved_selection};
use crate::engine::{app_views, AppEntry, AppView};
use crate::host::{CallView, EventView, HostEvent, QueuedCall};
use crate::hotkeys::{
    keystroke_to_hotkey, opt_hotkey, pressed_hotkey, same_hotkey, Hotkey, HotkeyView,
};
use crate::input::{
    all_selected, backspaced, deleted, text_selected, InputView, SearchInput,
};
use crate::json::{Json, JsonView};
use crate::link::{openable, try_openable};
use crate::panel::{list_height, list_px, CALENDAR_GRID_HEIGHT};
use crate::protocol::{opt_json, ErrorView, RpcError};
use crate::results::{moved_row, row_views, ItemView, ResultItem, ResultListState};
use crate::route::{hit_views, HitView, RouteHit};
use crate::search::first;
use crate::table::Table;
use crate::text::{chars_of, opt_view, same, trim, trimmed};
use crate::views::{
    calendar_in, hostable, is_detail_or_form_view, is_panel_view, is_type, maybe,
    parse_calendar_view, ActiveCalendar, ActiveView,
};

verus! {

/// Height of the input bar, in logical pixels.
pub const LAUNCHER_HEIGHT: u32 = 60;

/// Width of the launcher, in logical pixels.
pub const LAUNCHER_WIDTH: u32 = 760;

/// The margin around the input bar, in logical pixels.
pub const LAUNCHER_MARGIN: u32 = 4;

/// The most results shown before the drop-down scrolls.
pub const MAX_RESULT_ROWS: usize = 8;

/// The most plugin commands that take part in a query.
pub const MAX_PLUGIN_ROWS: usize = 8;

/// The views of pairs of strings.
pub open spec fn pair_views(v: Seq<(String, String)>) -> Seq<(Seq<char>, Seq<char>)> {
    v.map_values(|p: (String, String)| (p.0@, p.1@))
}

/// The view of an optional pair of strings.
pub open spec fn opt_pair(o: Option<(String, String)>) -> Option<(Seq<char>, Seq<char>)> {
    match o {
        Some((a, b)) => Some((a@, b@)),
        None => None,
    }
}

/// The views of plugin answers.
pub open spec fn answer_views(v: Seq<Option<Json>>) -> Seq<Option<JsonView>> {
    v.map_values(|o: Option<Json>| opt_json(o))
}

/// The launcher.
pub struct Launcher {
    input: SearchInput,
    base_items: Vec<ResultItem>,
    builtin_count: usize,
    hits: Vec<RouteHit>,
    views: Vec<Option<Json>>,
    pending: Vec<(String, String)>,
    plugin_gen: u64,
    search_gen: u64,
    search_results: Table<(String, String), Json>,
    icon_gen: u64,
    calendar: Option<ActiveCalendar>,
    calendar_selected: String,
    windows: Vec<(String, String)>,
    target: Option<(String, String)>,
    rows: Vec<ResultItem>,
    list: ResultListState,
    anchor: Option<usize>,
}

/// What a [`Launcher`] is.
pub struct LauncherView {
    /// The query.
    pub input: InputView,
    /// The rows of the query itself: built-in ones, then applications.
    pub base: Seq<ItemView>,
    /// How many of these are built in.
    pub builtin: int,
    /// The plugin commands that take part in the query.
    pub hits: Seq<HitView>,
    /// What each of them has answered.
    pub views: Seq<Option<JsonView>>,
    /// The plugin commands that were called and have not answered.
    pub pending: Seq<(Seq<char>, Seq<char>)>,
    /// The generation of the query.
    pub plugin_gen: u64,
    /// The generation of the last search in a search view.
    pub search_gen: u64,
    /// The latest results of each search view of the query, by plugin and command.
    pub search_results: Map<(Seq<char>, Seq<char>), JsonView>,
    /// The generation of the icons that are being loaded.
    pub icon_gen: u64,
    /// The calendar that was opened.
    pub calendar: Option<ActiveView>,
    /// The day that is selected in it.
    pub calendar_selected: Seq<char>,
    /// The plugin views that have windows of their own.
    pub windows: Seq<(Seq<char>, Seq<char>)>,
    /// The plugin view that can be given a window of its own.
    pub target: Option<(Seq<char>, Seq<char>)>,
    /// The rows shown.
    pub rows: Seq<ItemView>,
    /// Which of them is selected.
    pub list: ResultListState,
    /// Where the mouse began to select text, while it does.
    pub anchor: Option<int>,
}

impl View for Launcher {
    type V = LauncherView;

    closed spec fn view(&self) -> LauncherView {
        LauncherView {
            input: self.input@,
            base: row_views(self.base_items@),
            builtin: self.builtin_count as int,
            hits: hit_views(self.hits@),
            views: answer_views(self.views@),
            pending: pair_views(self.pending@),
            plugin_gen: self.plugin_gen,
            search_gen: self.search_gen,
            search_results: self.search_results@,
            icon_gen: self.icon_gen,
            calendar: maybe(self.calendar),
            calendar_selected: self.calendar_selected@,
            windows: pair_views(self.windows@),
            target: opt_pair(self.target),
            rows: row_views(self.rows@),
            list: self.list,
            anchor: match self.anchor {
                Some(i) => Some(i as int),
                None => None,
            },
        }
    }
}

impl LauncherView {
    /// The query is valid, the built-in rows are among the query's rows, every
    /// plugin command has a place for its answer, and the list has the rows shown.
    pub open spec fn valid(self) -> bool {
        &&& self.input.valid()
        &&& 0 <= self.builtin <= self.base.len()
        &&& self.views.len() == self.hits.len()
        &&& self.list.len == self.rows.len()
    }
}

/// The rows of the first `n` plugin commands that have answered.
pub open spec fn command_rows(
    hits: Seq<HitView>,
    views: Seq<Option<JsonView>>,
    label: Seq<char>,
    n: int,
) -> Seq<ItemView>
    decreases n,
{
    if n <= 0 {
        Seq::empty()
    } else {
        let rest = command_rows(hits, views, label, n - 1);
        if views[n - 1] is Some && rest.len() < MAX_PLUGIN_ROWS {
            rest.push(
                ItemView::Command {
                    plugin_id: hits[n - 1].plugin_id,
                    command: hits[n - 1].command,
                    title: hits[n - 1].title,
                    subtitle: label,
                },
            )
        } else {
            rest
        }
    }
}

/// The row that tells of a plugin command that has not answered.
pub open spec fn loading_rows(pending: Seq<(Seq<char>, Seq<char>)>) -> Seq<ItemView> {
    if pending.len() > 0 {
        seq![ItemView::Loading { command: pending[0].1 }]
    } else {
        Seq::empty()
    }
}

/// Whether the query still has the view of the calendar that was opened.
pub open spec fn calendar_stays(st: LauncherView, active: ActiveView) -> bool {
    exists|i: int| #[trigger] shows_calendar(st, active, i)
}

/// Whether plugin command `i` is the calendar's plugin, and has answered with a calendar.
pub open spec fn shows_calendar(st: LauncherView, active: ActiveView, i: int) -> bool {
    &&& 0 <= i < st.hits.len()
    &&& st.hits[i].plugin_id == active.plugin_id
    &&& st.views[i] matches Some(view) && calendar_in(
        view,
        st.hits[i].plugin_id,
        st.hits[i].command,
        st.hits[i].detachable,
    ) is Some
}

/// The first plugin command, from the `i`th on, whose view can be given a
/// window of its own.
pub open spec fn next_detachable(st: LauncherView, i: int) -> Option<int>
    decreases st.hits.len() - i,
{
    if i < 0 || i >= st.hits.len() {
        None
    } else if st.hits[i].detachable && st.views[i] is Some && hostable(st.views[i]->0) {
        Some(i)
    } else {
        next_detachable(st, i + 1)
    }
}

/// The plugin view that can be given a window of its own: the only one there is.
pub open spec fn detach_target(st: LauncherView) -> Option<(Seq<char>, Seq<char>)> {
    match next_detachable(st, 0) {
        Some(i) => match next_detachable(st, i + 1) {
            Some(_) => None,
            None => Some((st.hits[i].plugin_id, st.hits[i].command)),
        },
        None => None,
    }
}

/// The calendar that stays open.
pub open spec fn open_calendar(st: LauncherView) -> Option<ActiveView> {
    match st.calendar {
        Some(active) => if calendar_stays(st, active) {
            Some(active)
        } else {
            None
        },
        None => None,
    }
}

/// Whether the calendar is shown in place of the rows: it is open, and not in a
/// window of its own.
pub open spec fn calendar_shown(st: LauncherView) -> bool {
    match st.calendar {
        Some(active) => !st.windows.contains((active.plugin_id, active.command)),
        None => false,
    }
}

/// The rows of the query: the built-in ones, then a command that has not
/// answered, then the plugin commands that have, then the applications.
pub open spec fn merged_rows(st: LauncherView, label: Seq<char>) -> Seq<ItemView> {
    st.base.take(st.builtin) + loading_rows(st.pending) + command_rows(
        st.hits,
        st.views,
        label,
        st.hits.len() as int,
    ) + st.base.skip(st.builtin)
}

/// The launcher with its rows put together anew.
pub open spec fn rendered(st: LauncherView, label: Seq<char>) -> LauncherView {
    let calendar = open_calendar(st);
    let rows = merged_rows(st, label);
    let now = LauncherView { calendar, ..st };
    LauncherView {
        calendar_selected: if calendar_shown(now) {
            calendar->0.data.selected
        } else {
            st.calendar_selected
        },
        target: detach_target(st),
        rows,
        list: ResultListState {
            len: rows.len() as usize,
            selected: if rows.len() > 0 {
                Some(0usize)
            } else {
                None
            },
        },
        ..now
    }
}

/// The height of the launcher.
pub open spec fn launcher_px(st: LauncherView) -> int {
    LAUNCHER_HEIGHT + 2 * LAUNCHER_MARGIN + if calendar_shown(st) {
        CALENDAR_GRID_HEIGHT as int
    } else {
        list_px(st.rows.len() as int)
    }
}

/// The rows that are built in: the value of the query, where it is an
/// expression, and the address to open, where it is one.
pub open spec fn builtin_rows(
    query: Seq<char>,
    answer: Option<Seq<char>>,
    label: Seq<char>,
    command_label: Seq<char>,
) -> Seq<ItemView> {
    (match answer {
        Some(title) => seq![ItemView::Action { title, subtitle: trimmed(query) }],
        None => Seq::empty(),
    }) + (match openable(query) {
        Some(url) => seq![ItemView::Link { url, label, command_label }],
        None => Seq::empty(),
    })
}

/// The launcher at the start of a new query: the rows of the query itself, the
/// plugin commands that take part, none of which has been called, and no
/// results of a search view.
pub open spec fn searched(
    st: LauncherView,
    answer: Option<Seq<char>>,
    label: Seq<char>,
    command_label: Seq<char>,
    apps: Seq<AppView>,
    hits: Seq<HitView>,
) -> LauncherView {
    let builtin = builtin_rows(st.input.query, answer, label, command_label);
    let taking_part = first(hits, MAX_PLUGIN_ROWS as int);
    LauncherView {
        base: builtin + apps.map_values(|a: AppView| ItemView::App(a)),
        builtin: builtin.len() as int,
        hits: taking_part,
        views: Seq::new(taking_part.len(), |i: int| None),
        pending: Seq::empty(),
        search_results: Map::empty(),
        plugin_gen: (st.plugin_gen + 1) as u64,
        icon_gen: (st.icon_gen + 1) as u64,
        ..st
    }
}

/// Appends all of `b` to `a`.
fn append_rows(a: &mut Vec<ResultItem>, b: Vec<ResultItem>)
    ensures
        row_views(final(a)@) == row_views(old(a)@) + row_views(b@),
{
    let ghost added = row_views(b@);
    let mut b = b;
    a.append(&mut b);
    assert(row_views(a@) =~= row_views(old(a)@) + added);
}

/// Copies of `v[from..to]`.
fn copy_rows(v: &Vec<ResultItem>, from: usize, to: usize) -> (r: Vec<ResultItem>)
    requires
        from <= to <= v.len(),
    ensures
        row_views(r@) == row_views(v@).subrange(from as int, to as int),
{
    let mut r: Vec<ResultItem> = Vec::new();
    let mut i: usize = from;
    while i < to
        invariant
            from <= i <= to <= v.len(),
            r@.len() == i - from,
            forall|j: int| 0 <= j < i - from ==> (#[trigger] r@[j])@ == v@[j + from]@,
        decreases to - i,
    {
        r.push(v[i].clone());
        i += 1;
    }
    assert(row_views(r@) =~= row_views(v@).subrange(from as int, to as int));
    r
}

/// Whether a pair is among `v`.
fn has_pair(v: &Vec<(String, String)>, a: &str, b: &str) -> (r: bool)
    ensures
        r == pair_views(v@).contains((a@, b@)),
{
    let mut i: usize = 0;
    while i < v.len()
        invariant
            i <= v.len(),
            forall|j: int| 0 <= j < i ==> #[trigger] pair_views(v@)[j] != (a@, b@),
        decreases v.len() - i,
    {
        assert(pair_views(v@)[i as int] == (v@[i as int].0@, v@[i as int].1@));
        if same(v[i].0.as_str(), a) && same(v[i].1.as_str(), b) {
            return true;
        }
        i += 1;
    }
    false
}

/// The pairs other than the given one, in order.
pub open spec fn without_pair(
    v: Seq<(Seq<char>, Seq<char>)>,
    p: (Seq<char>, Seq<char>),
) -> Seq<(Seq<char>, Seq<char>)>
    decreases v.len(),
{
    if v.len() == 0 {
        v
    } else {
        let rest = without_pair(v.drop_last(), p);
        if v.last() == p {
            rest
        } else {
            rest.push(v.last())
        }
    }
}

/// The pairs other than the given one, in order.
fn drop_pair(v: &Vec<(String, String)>, a: &str, b: &str) -> (r: Vec<(String, String)>)
    ensures
        pair_views(r@) == without_pair(pair_views(v@), (a@, b@)),
{
    let ghost all = pair_views(v@);
    let mut r: Vec<(String, String)> = Vec::new();
    assert(all.take(0) =~= Seq::<(Seq<char>, Seq<char>)>::empty());
    assert(pair_views(r@) =~= Seq::<(Seq<char>, Seq<char>)>::empty());
    let mut i: usize = 0;
    while i < v.len()
        invariant
            i <= v.len(),
            all == pair_views(v@),
            pair_views(r@) == without_pair(all.take(i as int), (a@, b@)),
        decreases v.len() - i,
    {
        assert(all.take(i + 1).drop_last() =~= all.take(i as int));
        assert(all.take(i + 1).last() == (v@[i as int].0@, v@[i as int].1@));
        if !(same(v[i].0.as_str(), a) && same(v[i].1.as_str(), b)) {
            let ghost before = pair_views(r@);
            r.push((v[i].0.clone(), v[i].1.clone()));
            assert(pair_views(r@) =~= before.push((v@[i as int].0@, v@[i as int].1@)));
        }
        i += 1;
    }
    assert(all.take(all.len() as int) =~= all);
    r
}

/// The pairs with one more, where it is not there yet.
pub open spec fn with_pair(
    v: Seq<(Seq<char>, Seq<char>)>,
    p: (Seq<char>, Seq<char>),
) -> Seq<(Seq<char>, Seq<char>)> {
    if v.contains(p) {
        v
    } else {
        v.push(p)
    }
}

/// Adds a pair, where it is not there yet.
fn add_pair(v: &mut Vec<(String, String)>, a: &str, b: &str)
    ensures
        pair_views(final(v)@) == with_pair(pair_views(old(v)@), (a@, b@)),
{
    if !has_pair(v, a, b) {
        v.push((a.to_owned(), b.to_owned()));
        assert(pair_views(v@) =~= pair_views(old(v)@).push((a@, b@)));
    }
}

impl Launcher {
    /// A launcher with an empty query.
    pub fn new() -> (r: Self)
        ensures
            r@.valid(),
            r@ == (LauncherView {
                input: InputView { query: Seq::empty(), cursor: 0, marked: None, selection: None },
                base: Seq::empty(),
                builtin: 0,
                hits: Seq::empty(),
                views: Seq::empty(),
                pending: Seq::empty(),
                plugin_gen: 0,
                search_gen: 0,
                search_results: Map::empty(),
                icon_gen: 0,
                calendar: None,
                calendar_selected: Seq::empty(),
                windows: Seq::empty(),
                target: None,
                rows: Seq::empty(),
                list: ResultListState { len: 0, selected: None },
                anchor: None,
            }),
    {
        let query = String::new();
        assert(query@ =~= Seq::<char>::empty());
        let r = Launcher {
            input: SearchInput { query, cursor: 0, marked: None, selection: None },
            base_items: Vec::new(),
            builtin_count: 0,
            hits: Vec::new(),
            views: Vec::new(),
            pending: Vec::new(),
            plugin_gen: 0,
            search_gen: 0,
            search_results: Table::new(),
            icon_gen: 0,
            calendar: None,
            calendar_selected: String::new(),
            windows: Vec::new(),
            target: None,
            rows: Vec::new(),
            list: ResultListState::new(),
            anchor: None,
        };
        proof {
            let v = r@;
            assert(v.base =~= Seq::empty() && v.hits =~= Seq::empty() && v.views =~= Seq::empty());
            assert(v.pending =~= Seq::empty() && v.windows =~= Seq::empty());
            assert(v.rows =~= Seq::empty() && v.calendar_selected =~= Seq::empty());
        }
        r
    }

    /// The query buffer.
    pub fn input(&self) -> (r: &SearchInput)
        ensures
            r@ == self@.input,
    {
        &self.input
    }

    /// The rows shown.
    pub fn rows(&self) -> (r: &Vec<ResultItem>)
        ensures
            row_views(r@) == self@.rows,
    {
        &self.rows
    }

    /// How many rows there are, and which is selected.
    pub fn list(&self) -> (r: ResultListState)
        ensures
            r == self@.list,
    {
        self.list
    }

    /// The plugin commands that take part in the query.
    pub fn hits(&self) -> (r: &Vec<RouteHit>)
        ensures
            hit_views(r@) == self@.hits,
    {
        &self.hits
    }

    /// The generation of the query.
    pub fn plugin_gen(&self) -> (r: u64)
        ensures
            r == self@.plugin_gen,
    {
        self.plugin_gen
    }

    /// The generation of the last search in a search view.
    pub fn search_gen(&self) -> (r: u64)
        ensures
            r == self@.search_gen,
    {
        self.search_gen
    }

    /// The latest results of a plugin's search view, for a window that is opened
    /// on it.
    pub fn search_result(&self, plugin_id: &str, command: &str) -> (r: Option<&Json>)
        ensures
            match r {
                Some(v) => self@.search_results.contains_key((plugin_id@, command@))
                    && self@.search_results[(plugin_id@, command@)] == v@,
                None => !self@.search_results.contains_key((plugin_id@, command@)),
            },
    {
        self.search_results.get(&(plugin_id.to_owned(), command.to_owned()))
    }

    /// The generation of the icons that are being loaded.
    pub fn icon_gen(&self) -> (r: u64)
        ensures
            r == self@.icon_gen,
    {
        self.icon_gen
    }

    /// The calendar that was opened.
    pub fn calendar(&self) -> (r: &Option<ActiveCalendar>)
        ensures
            maybe(*r) == self@.calendar,
    {
        &self.calendar
    }

    /// The day that is selected in the calendar.
    pub fn calendar_selected(&self) -> (r: &String)
        ensures
            r@ == self@.calendar_selected,
    {
        &self.calendar_selected
    }

    /// The plugin view that can be given a window of its own.
    pub fn target(&self) -> (r: &Option<(String, String)>)
        ensures
            opt_pair(*r) == self@.target,
    {
        &self.target
    }

    /// Whether a plugin's view has a window of its own.
    pub fn plugin_window_open(&self, plugin_id: &str, command: &str) -> (r: bool)
        ensures
            r == self@.windows.contains((plugin_id@, command@)),
    {
        has_pair(&self.windows, plugin_id, command)
    }

    /// Whether the open calendar has a window of its own.
    pub fn is_active_panel_detached(&self) -> (r: bool)
        ensures
            r == (self@.calendar matches Some(active) && self@.windows.contains(
                (active.plugin_id, active.command),
            )),
    {
        match &self.calendar {
            Some(active) => self.plugin_window_open(
                active.plugin_id.as_str(),
                active.command.as_str(),
            ),
            None => false,
        }
    }

    /// Whether the calendar is shown in place of the rows.
    pub fn shows_calendar(&self) -> (r: bool)
        ensures
            r == calendar_shown(self@),
    {
        self.calendar.is_some() && !self.is_active_panel_detached()
    }

    /// The height of the launcher, in logical pixels.
    pub fn height(&self) -> (r: u32)
        ensures
            r == launcher_px(self@),
    {
        let below: u32 = if self.shows_calendar() {
            CALENDAR_GRID_HEIGHT
        } else {
            list_height(self.rows.len())
        };
        LAUNCHER_HEIGHT + 2 * LAUNCHER_MARGIN + below
    }

    /// Starts a new query: takes the value of the expression that the query is,
    /// where it is one, the applications it finds, and the plugin commands it
    /// reaches. `label` and `command_label` are for the row of an address.
    pub fn begin_search(
        &mut self,
        answer: Option<String>,
        label: &str,
        command_label: &str,
        apps: Vec<AppEntry>,
        hits: Vec<RouteHit>,
    )
        requires
            old(self)@.plugin_gen < u64::MAX,
            old(self)@.icon_gen < u64::MAX,
        ensures
            final(self)@ == searched(
                old(self)@,
                opt_view(answer),
                label@,
                command_label@,
                app_views(apps@),
                hit_views(hits@),
            ),
            old(self)@.valid() ==> final(self)@.valid(),
    {
        let ghost given = hit_views(hits@);
        let ghost found = app_views(apps@);
        let ghost builtin = builtin_rows(
            self@.input.query,
            opt_view(answer),
            label@,
            command_label@,
        );
        let mut items: Vec<ResultItem> = Vec::new();
        if let Some(title) = answer {
            items.push(
                ResultItem::Action { title, subtitle: trim(self.input.query.as_str()) },
            );
        }
        if let Some(url) = try_openable(self.input.query.as_str()) {
            items.push(
                ResultItem::Link {
                    url,
                    label: label.to_owned(),
                    command_label: command_label.to_owned(),
                },
            );
        }
        assert(row_views(items@) =~= builtin);
        self.builtin_count = items.len();
        let mut i: usize = 0;
        while i < apps.len()
            invariant
                i <= apps.len(),
                found == app_views(apps@),
                row_views(items@) == builtin + found.take(i as int).map_values(
                    |a: AppView| ItemView::App(a),
                ),
            decreases apps.len() - i,
        {
            let ghost before = row_views(items@);
            items.push(ResultItem::App(apps[i].clone()));
            i += 1;
            proof {
                assert(row_views(items@) =~= before.push(ItemView::App(found[i - 1])));
                assert(row_views(items@) =~= builtin + found.take(i as int).map_values(
                    |a: AppView| ItemView::App(a),
                ));
            }
        }
        assert(found.take(found.len() as int) =~= found);
        self.base_items = items;
        let mut hits = hits;
        hits.truncate(MAX_PLUGIN_ROWS);
        assert(hit_views(hits@) =~= first(given, MAX_PLUGIN_ROWS as int));
        let mut views: Vec<Option<Json>> = Vec::new();
        while views.len() < hits.len()
            invariant
                views@.len() <= hits@.len(),
                forall|j: int| 0 <= j < views@.len() ==> #[trigger] views@[j] is None,
            decreases hits.len() - views.len(),
        {
            views.push(None);
        }
        assert(answer_views(views@) =~= Seq::new(hits@.len(), |i: int| None));
        self.hits = hits;
        self.views = views;
        self.pending = Vec::new();
        self.search_results.clear();
        assert(pair_views(self.pending@) =~= Seq::<(Seq<char>, Seq<char>)>::empty());
        self.plugin_gen = self.plugin_gen + 1;
        self.icon_gen = self.icon_gen + 1;
    }

    /// Takes note that the plugin command `index` of the query was called.
    pub fn mark_called(&mut self, index: usize)
        requires
            index < old(self)@.hits.len(),
        ensures
            final(self)@ == (LauncherView {
                pending: with_pair(
                    old(self)@.pending,
                    (
                        old(self)@.hits[index as int].plugin_id,
                        old(self)@.hits[index as int].command,
                    ),
                ),
                ..old(self)@
            }),
            old(self)@.valid() ==> final(self)@.valid(),
    {
        let plugin_id = self.hits[index].plugin_id.clone();
        let command = self.hits[index].command.clone();
        add_pair(&mut self.pending, plugin_id.as_str(), command.as_str());
    }

    /// The rows of the plugin commands that have answered.
    fn plugin_rows(&self, label: &str) -> (r: Vec<ResultItem>)
        requires
            self@.valid(),
        ensures
            row_views(r@) == command_rows(
                self@.hits,
                self@.views,
                label@,
                self@.hits.len() as int,
            ),
    {
        let ghost hits = self@.hits;
        let ghost views = self@.views;
        let mut r: Vec<ResultItem> = Vec::new();
        assert(row_views(r@) =~= Seq::<ItemView>::empty());
        let mut i: usize = 0;
        while i < self.hits.len()
            invariant
                i <= self.hits.len(),
                self@.valid(),
                hits == self@.hits,
                views == self@.views,
                row_views(r@) == command_rows(hits, views, label@, i as int),
            decreases self.hits.len() - i,
        {
            assert(views[i as int] == opt_json(self.views@[i as int]));
            assert(hits[i as int] == self.hits@[i as int]@);
            if self.views[i].is_some() && r.len() < MAX_PLUGIN_ROWS {
                let ghost before = row_views(r@);
                let row = ResultItem::Command {
                    plugin_id: self.hits[i].plugin_id.clone(),
                    command: self.hits[i].command.clone(),
                    title: self.hits[i].title.clone(),
                    subtitle: label.to_owned(),
                };
                r.push(row);
                assert(row_views(r@) =~= before.push(row@));
            }
            i += 1;
        }
        r
    }

    /// Whether the query still has the view of the calendar that was opened.
    fn calendar_stays(&self, active: &ActiveCalendar) -> (r: bool)
        requires
            self@.valid(),
        ensures
            r == calendar_stays(self@, active@),
    {
        let mut i: usize = 0;
        while i < self.hits.len()
            invariant
                i <= self.hits.len(),
                self@.valid(),
                forall|j: int| 0 <= j < i ==> !#[trigger] shows_calendar(self@, active@, j),
            decreases self.hits.len() - i,
        {
            let hit = &self.hits[i];
            assert(self@.views[i as int] == opt_json(self.views@[i as int]));
            assert(self@.hits[i as int] == hit@);
            if same(hit.plugin_id.as_str(), active.plugin_id.as_str()) {
                if let Some(view) = &self.views[i] {
                    if parse_calendar_view(
                        view,
                        hit.plugin_id.as_str(),
                        hit.command.as_str(),
                        hit.detachable,
                    ).is_some() {
                        assert(shows_calendar(self@, active@, i as int));
                        return true;
                    }
                }
            }
            i += 1;
        }
        false
    }

    /// The first plugin command, from the `i`th on, whose view can be given a
    /// window of its own.
    fn detachable_from(&self, start: usize) -> (r: Option<usize>)
        requires
            self@.valid(),
        ensures
            match r {
                Some(i) => next_detachable(self@, start as int) == Some(i as int) && i
                    < self@.hits.len(),
                None => next_detachable(self@, start as int) is None,
            },
    {
        let mut i: usize = start;
        while i < self.hits.len()
            invariant
                start <= i,
                self@.valid(),
                next_detachable(self@, start as int) == next_detachable(self@, i as int),
            decreases self.hits.len() - i,
        {
            assert(self@.views[i as int] == opt_json(self.views@[i as int]));
            assert(self@.hits[i as int] == self.hits@[i as int]@);
            if self.hits[i].detachable {
                if let Some(view) = &self.views[i] {
                    if is_panel_view(view) {
                        return Some(i);
                    }
                }
            }
            i += 1;
        }
        None
    }

    /// The plugin view that can be given a window of its own.
    fn find_target(&self) -> (r: Option<(String, String)>)
        requires
            self@.valid(),
        ensures
            opt_pair(r) == detach_target(self@),
    {
        let n: usize = self.hits.len();
        match self.detachable_from(0) {
            Some(i) => {
                assert(i < n);
                if self.detachable_from(i + 1).is_some() {
                    None
                } else {
                    Some((self.hits[i].plugin_id.clone(), self.hits[i].command.clone()))
                }
            },
            None => None,
        }
    }

    /// Puts the rows together anew. `label` is for the rows of plugin commands.
    pub fn render_merged(&mut self, label: &str)
        requires
            old(self)@.valid(),
        ensures
            final(self)@ == rendered(old(self)@, label@),
            final(self)@.valid(),
    {
        let ghost st = self@;
        let stays = match &self.calendar {
            Some(active) => self.calendar_stays(active),
            None => false,
        };
        let mut rows = copy_rows(&self.base_items, 0, self.builtin_count);
        if self.pending.len() > 0 {
            let ghost before = row_views(rows@);
            let row = ResultItem::Loading { command: self.pending[0].1.clone() };
            rows.push(row);
            assert(row_views(rows@) =~= before + loading_rows(st.pending));
        } else {
            assert(row_views(rows@) + loading_rows(st.pending) =~= row_views(rows@));
        }
        append_rows(&mut rows, self.plugin_rows(label));
        append_rows(
            &mut rows,
            copy_rows(&self.base_items, self.builtin_count, self.base_items.len()),
        );
        proof {
            assert(st.base.subrange(0, st.builtin) =~= st.base.take(st.builtin));
            assert(st.base.subrange(st.builtin, st.base.len() as int) =~= st.base.skip(st.builtin));
            assert(row_views(rows@) == merged_rows(st, label@));
        }
        self.target = self.find_target();
        if !stays {
            self.calendar = None;
        }
        if self.shows_calendar() {
            if let Some(active) = &self.calendar {
                self.calendar_selected = active.data.selected.clone();
            }
        }
        let mut list = self.list;
        list.set_results(rows.len());
        self.list = list;
        self.rows = rows;
    }
}

/// A key that was pressed.
#[derive(Debug)]
pub struct Keystroke {
    /// The name of the key, such as `a` or `enter`.
    pub key: String,
    /// What the key types.
    pub key_char: Option<String>,
    pub control: bool,
    pub alt: bool,
    pub shift: bool,
    /// The Windows or command key.
    pub platform: bool,
}

/// What a [`Keystroke`] is.
pub struct StrokeView {
    pub key: Seq<char>,
    pub key_char: Option<Seq<char>>,
    pub control: bool,
    pub alt: bool,
    pub shift: bool,
    pub platform: bool,
}

impl View for Keystroke {
    type V = StrokeView;

    open spec fn view(&self) -> StrokeView {
        StrokeView {
            key: self.key@,
            key_char: opt_view(self.key_char),
            control: self.control,
            alt: self.alt,
            shift: self.shift,
            platform: self.platform,
        }
    }
}

/// What a key asks for.
#[derive(Debug, Clone, Copy, PartialEq, Eq, Structural)]
pub enum KeyAction {
    /// The key belongs to the input method.
    Compose,
    /// Type a character.
    Insert(char),
    SelectAll,
    Copy,
    Cut,
    Paste,
    OpenSettings,
    /// Move the selected day by some days.
    MoveDay(i32),
    ConfirmDay,
    Backspace,
    Delete,
    /// Move the selected row.
    MoveRow(i32),
    ConfirmRow,
    /// Move the caret.
    MoveCaret(i32),
    CaretHome,
    CaretEnd,
    Hide,
    /// The key is not the launcher's.
    Ignored,
}

/// The control characters.
pub open spec fn is_control(c: char) -> bool {
    c as u32 <= 0x1F || 0x7F <= c as u32 <= 0x9F
}

/// The character that a key types: not one with control, alt or the Windows
/// key held, and no control character.
pub open spec fn typed_char(k: StrokeView) -> Option<char> {
    if k.control || k.alt || k.platform {
        None
    } else {
        match k.key_char {
            Some(s) => if s.len() > 0 && !is_control(s[0]) {
                Some(s[0])
            } else {
                None
            },
            None => None,
        }
    }
}

/// Whether a key is pressed with control alone.
pub open spec fn shortcut(k: StrokeView, key: Seq<char>) -> bool {
    k.control && !k.alt && !k.platform && k.key == key
}

/// What a key asks for, while a calendar is shown: some days on, or the
/// selected day.
pub open spec fn calendar_key(key: Seq<char>) -> Option<KeyAction> {
    if key == "up"@ {
        Some(KeyAction::MoveDay((-7) as i32))
    } else if key == "down"@ {
        Some(KeyAction::MoveDay(7))
    } else if key == "left"@ {
        Some(KeyAction::MoveDay((-1) as i32))
    } else if key == "right"@ {
        Some(KeyAction::MoveDay(1))
    } else if key == "enter"@ {
        Some(KeyAction::ConfirmDay)
    } else {
        None
    }
}

/// What a key asks for, by its name alone.
pub open spec fn plain_key(key: Seq<char>) -> KeyAction {
    if key == "space"@ {
        KeyAction::Insert(' ')
    } else if key == "backspace"@ {
        KeyAction::Backspace
    } else if key == "delete"@ {
        KeyAction::Delete
    } else if key == "up"@ {
        KeyAction::MoveRow((-1) as i32)
    } else if key == "down"@ {
        KeyAction::MoveRow(1)
    } else if key == "enter"@ {
        KeyAction::ConfirmRow
    } else if key == "left"@ {
        KeyAction::MoveCaret((-1) as i32)
    } else if key == "right"@ {
        KeyAction::MoveCaret(1)
    } else if key == "home"@ {
        KeyAction::CaretHome
    } else if key == "end"@ {
        KeyAction::CaretEnd
    } else if key == "escape"@ {
        KeyAction::Hide
    } else {
        KeyAction::Ignored
    }
}

/// Whether a key is the hotkey of the settings.
pub open spec fn opens_settings(k: StrokeView, settings: Option<HotkeyView>) -> bool {
    settings is Some && pressed_hotkey(k.control, k.alt, k.shift, k.platform, k.key) == settings
}

/// What a key asks for. While a text is composed the input method has all keys.
/// Else a key that types a character types it; then come the shortcuts, the
/// hotkey of the settings, the keys of a calendar that is shown, and the rest.
pub open spec fn key_action(
    st: LauncherView,
    k: StrokeView,
    settings: Option<HotkeyView>,
) -> KeyAction {
    if st.input.marked is Some {
        KeyAction::Compose
    } else if typed_char(k) is Some {
        KeyAction::Insert(typed_char(k)->0)
    } else if shortcut(k, "a"@) {
        KeyAction::SelectAll
    } else if shortcut(k, "c"@) {
        KeyAction::Copy
    } else if shortcut(k, "x"@) {
        KeyAction::Cut
    } else if shortcut(k, "v"@) {
        KeyAction::Paste
    } else if opens_settings(k, settings) {
        KeyAction::OpenSettings
    } else if calendar_shown(st) && calendar_key(k.key) is Some {
        calendar_key(k.key)->0
    } else {
        plain_key(k.key)
    }
}

/// What is left for the owner of the launcher to do after a key.
#[derive(Debug)]
pub enum KeyEffect {
    /// Nothing, and the key is not the launcher's.
    Ignored,
    /// Nothing.
    Handled,
    /// Draw the launcher anew.
    Redraw,
    /// Run the query.
    Search,
    /// Put a text on the clipboard.
    Copy(String),
    /// Put a text on the clipboard, and run the query.
    Cut(String),
    /// Read the clipboard, hand its text in ([`Launcher::paste`]) and run the query.
    Paste,
    /// Open the settings.
    OpenSettings,
    /// Make a call.
    Call(QueuedCall),
    /// Do what the row asks for ([`Launcher::confirm`]).
    ConfirmRow(usize),
    /// Hide the launcher.
    Hide,
}

/// What a [`KeyEffect`] is.
pub enum EffectView {
    Ignored,
    Handled,
    Redraw,
    Search,
    Copy(Seq<char>),
    Cut(Seq<char>),
    Paste,
    OpenSettings,
    Call(CallView),
    ConfirmRow(usize),
    Hide,
}

impl View for KeyEffect {
    type V = EffectView;

    open spec fn view(&self) -> EffectView {
        match *self {
            KeyEffect::Ignored => EffectView::Ignored,
            KeyEffect::Handled => EffectView::Handled,
            KeyEffect::Redraw => EffectView::Redraw,
            KeyEffect::Search => EffectView::Search,
            KeyEffect::Copy(s) => EffectView::Copy(s@),
            KeyEffect::Cut(s) => EffectView::Cut(s@),
            KeyEffect::Paste => EffectView::Paste,
            KeyEffect::OpenSettings => EffectView::OpenSettings,
            KeyEffect::Call(c) => EffectView::Call(c@),
            KeyEffect::ConfirmRow(i) => EffectView::ConfirmRow(i),
            KeyEffect::Hide => EffectView::Hide,
        }
    }
}

/// The launcher with another query.
pub open spec fn with_input(st: LauncherView, input: InputView) -> LauncherView {
    LauncherView { input, ..st }
}

/// The launcher after a key, and what is left to do.
pub open spec fn key_done(st: LauncherView, action: KeyAction) -> (LauncherView, EffectView) {
    let input = st.input;
    let n = input.query.len() as int;
    match action {
        KeyAction::Compose => (st, EffectView::Handled),
        KeyAction::Insert(c) => (with_input(st, input.inserted(seq![c])), EffectView::Search),
        KeyAction::SelectAll => (
            with_input(st, all_selected(input)),
            EffectView::Redraw,
        ),
        KeyAction::Copy => match text_selected(input) {
            Some(text) => (st, EffectView::Copy(text)),
            None => (st, EffectView::Handled),
        },
        KeyAction::Cut => match text_selected(input) {
            Some(text) => (with_input(st, input.unselected()), EffectView::Cut(text)),
            None => (st, EffectView::Handled),
        },
        KeyAction::Paste => (st, EffectView::Paste),
        KeyAction::OpenSettings => (st, EffectView::OpenSettings),
        KeyAction::MoveDay(delta) => (
            LauncherView {
                calendar_selected: match st.calendar {
                    Some(active) => moved_selection(
                        active.data.year,
                        active.data.month,
                        st.calendar_selected,
                        delta as int,
                    ),
                    None => st.calendar_selected,
                },
                ..st
            },
            EffectView::Redraw,
        ),
        KeyAction::ConfirmDay => match st.calendar {
            Some(active) => (
                st,
                EffectView::Call(
                    CallView::Item {
                        plugin_id: active.plugin_id,
                        command: active.command,
                        item_id: st.calendar_selected,
                    },
                ),
            ),
            None => (st, EffectView::Handled),
        },
        KeyAction::Backspace => (with_input(st, backspaced(input)), EffectView::Search),
        KeyAction::Delete => (with_input(st, deleted(input)), EffectView::Search),
        KeyAction::MoveRow(delta) => (
            LauncherView { list: moved_row(st.list, delta as int), ..st },
            EffectView::Redraw,
        ),
        KeyAction::ConfirmRow => match st.list.selected {
            Some(i) => if i < st.list.len {
                (st, EffectView::ConfirmRow(i))
            } else {
                (st, EffectView::Handled)
            },
            None => (st, EffectView::Handled),
        },
        KeyAction::MoveCaret(delta) => (
            with_input(
                st,
                InputView {
                    cursor: crate::input::larger(
                        0,
                        crate::input::smaller(input.cursor + delta, n),
                    ),
                    selection: None,
                    ..input
                },
            ),
            EffectView::Redraw,
        ),
        KeyAction::CaretHome => (
            with_input(st, InputView { cursor: 0, selection: None, ..input }),
            EffectView::Redraw,
        ),
        KeyAction::CaretEnd => (
            with_input(st, InputView { cursor: n, selection: None, ..input }),
            EffectView::Redraw,
        ),
        KeyAction::Hide => (st, EffectView::Hide),
        KeyAction::Ignored => (st, EffectView::Ignored),
    }
}

/// A text on one line: line breaks become spaces.
pub open spec fn one_line(s: Seq<char>) -> Seq<char>
    decreases s.len(),
{
    if s.len() == 0 {
        s
    } else if s.len() >= 2 && s[s.len() - 2] == '\r' && s.last() == '\n' {
        one_line(s.take(s.len() - 2)).push(' ')
    } else if s.last() == '\r' || s.last() == '\n' {
        one_line(s.drop_last()).push(' ')
    } else {
        one_line(s.drop_last()).push(s.last())
    }
}

/// A text on one line: each line break becomes a space.
pub fn single_line(text: &str) -> (r: String)
    ensures
        r@ == one_line(text@),
{
    let v = chars_of(text);
    let mut r = String::new();
    assert(v@.take(0) =~= Seq::<char>::empty());
    assert(r@ =~= Seq::<char>::empty());
    let mut i: usize = 0;
    while i < v.len()
        invariant
            i <= v.len(),
            v@ == text@,
            r@ == one_line(v@.take(i as int)),
            i > 0 && v@[i - 1] == '\r' ==> !(i < v.len() && v@[i as int] == '\n'),
        decreases v.len() - i,
    {
        let c = v[i];
        if c == '\r' && i + 1 < v.len() && v[i + 1] == '\n' {
            r.push(' ');
            proof {
                let next = v@.take(i + 2);
                assert(next.take(next.len() - 2) =~= v@.take(i as int));
            }
            i += 2;
        } else if c == '\r' || c == '\n' {
            r.push(' ');
            proof {
                let next = v@.take(i + 1);
                assert(next.drop_last() =~= v@.take(i as int));
            }
            i += 1;
        } else {
            r.push(c);
            proof {
                let next = v@.take(i + 1);
                assert(next.drop_last() =~= v@.take(i as int));
            }
            i += 1;
        }
    }
    assert(v@.take(v@.len() as int) =~= v@);
    r
}

/// What a key asks for, while a calendar is shown.
fn decide_calendar_key(key: &str) -> (r: Option<KeyAction>)
    ensures
        r == calendar_key(key@),
{
    if same(key, "up") {
        Some(KeyAction::MoveDay(-7))
    } else if same(key, "down") {
        Some(KeyAction::MoveDay(7))
    } else if same(key, "left") {
        Some(KeyAction::MoveDay(-1))
    } else if same(key, "right") {
        Some(KeyAction::MoveDay(1))
    } else if same(key, "enter") {
        Some(KeyAction::ConfirmDay)
    } else {
        None
    }
}

/// What a key asks for, by its name alone.
fn decide_plain_key(key: &str) -> (r: KeyAction)
    ensures
        r == plain_key(key@),
{
    if same(key, "space") {
        KeyAction::Insert(' ')
    } else if same(key, "backspace") {
        KeyAction::Backspace
    } else if same(key, "delete") {
        KeyAction::Delete
    } else if same(key, "up") {
        KeyAction::MoveRow(-1)
    } else if same(key, "down") {
        KeyAction::MoveRow(1)
    } else if same(key, "enter") {
        KeyAction::ConfirmRow
    } else if same(key, "left") {
        KeyAction::MoveCaret(-1)
    } else if same(key, "right") {
        KeyAction::MoveCaret(1)
    } else if same(key, "home") {
        KeyAction::CaretHome
    } else if same(key, "end") {
        KeyAction::CaretEnd
    } else if same(key, "escape") {
        KeyAction::Hide
    } else {
        KeyAction::Ignored
    }
}

/// The character that a key types.
fn char_typed(k: &Keystroke) -> (r: Option<char>)
    ensures
        r == typed_char(k@),
{
    if k.control || k.alt || k.platform {
        return None;
    }
    match &k.key_char {
        Some(s) => {
            if s.as_str().unicode_len() == 0 {
                return None;
            }
            let c = s.as_str().get_char(0);
            if c as u32 <= 0x1F || (0x7F <= c as u32 && c as u32 <= 0x9F) {
                None
            } else {
                Some(c)
            }
        },
        None => None,
    }
}

impl Launcher {
    /// What a key asks for. `settings` is the hotkey of the settings.
    pub fn decide_key(&self, k: &Keystroke, settings: &Option<Hotkey>) -> (r: KeyAction)
        ensures
            r == key_action(self@, k@, opt_hotkey(*settings)),
    {
        if self.input.marked.is_some() {
            return KeyAction::Compose;
        }
        if let Some(c) = char_typed(k) {
            return KeyAction::Insert(c);
        }
        let key = k.key.as_str();
        if k.control && !k.alt && !k.platform {
            if same(key, "a") {
                return KeyAction::SelectAll;
            }
            if same(key, "c") {
                return KeyAction::Copy;
            }
            if same(key, "x") {
                return KeyAction::Cut;
            }
            if same(key, "v") {
                return KeyAction::Paste;
            }
        }
        if let Some(hotkey) = keystroke_to_hotkey(k.control, k.alt, k.shift, k.platform, key) {
            if let Some(settings) = settings {
                if same_hotkey(&hotkey, settings) {
                    return KeyAction::OpenSettings;
                }
            }
        }
        if self.shows_calendar() {
            if let Some(action) = decide_calendar_key(key) {
                return action;
            }
        }
        decide_plain_key(key)
    }

    /// Does what a key asks for, and tells what is left to do.
    pub fn perform_key(&mut self, action: KeyAction) -> (r: KeyEffect)
        requires
            old(self)@.valid(),
        ensures
            (final(self)@, r@) == key_done(old(self)@, action),
            final(self)@.valid(),
    {
        match action {
            KeyAction::Compose => KeyEffect::Handled,
            KeyAction::Insert(c) => {
                self.input.insert_char(c);
                KeyEffect::Search
            },
            KeyAction::SelectAll => {
                self.input.select_all();
                KeyEffect::Redraw
            },
            KeyAction::Copy => match self.input.selected_text() {
                Some(text) => KeyEffect::Copy(text),
                None => KeyEffect::Handled,
            },
            KeyAction::Cut => match self.input.selected_text() {
                Some(text) => {
                    let _ = self.input.delete_selection();
                    KeyEffect::Cut(text)
                },
                None => KeyEffect::Handled,
            },
            KeyAction::Paste => KeyEffect::Paste,
            KeyAction::OpenSettings => KeyEffect::OpenSettings,
            KeyAction::MoveDay(delta) => {
                if let Some(active) = &self.calendar {
                    let data = &active.data;
                    if let Some(iso) = move_selected(
                        self.calendar_selected.as_str(),
                        data.year,
                        data.month,
                        delta,
                    ) {
                        self.calendar_selected = iso;
                    }
                }
                KeyEffect::Redraw
            },
            KeyAction::ConfirmDay => match &self.calendar {
                Some(active) => KeyEffect::Call(
                    QueuedCall::Item {
                        plugin_id: active.plugin_id.clone(),
                        command: active.command.clone(),
                        item_id: self.calendar_selected.clone(),
                    },
                ),
                None => KeyEffect::Handled,
            },
            KeyAction::Backspace => {
                self.input.backspace();
                KeyEffect::Search
            },
            KeyAction::Delete => {
                self.input.delete();
                KeyEffect::Search
            },
            KeyAction::MoveRow(delta) => {
                let mut list = self.list;
                let _ = list.select_relative(delta);
                self.list = list;
                KeyEffect::Redraw
            },
            KeyAction::ConfirmRow => match self.list.confirm_selected() {
                Some(i) => KeyEffect::ConfirmRow(i),
                None => KeyEffect::Handled,
            },
            KeyAction::MoveCaret(delta) => {
                self.input.move_cursor(delta);
                KeyEffect::Redraw
            },
            KeyAction::CaretHome => {
                self.input.set_cursor(0);
                KeyEffect::Redraw
            },
            KeyAction::CaretEnd => {
                self.input.set_cursor(self.input.char_count());
                KeyEffect::Redraw
            },
            KeyAction::Hide => KeyEffect::Hide,
            KeyAction::Ignored => KeyEffect::Ignored,
        }
    }

    /// Handles a key: decides what it asks for, does it, and tells what is left to do.
    pub fn handle_key(&mut self, k: &Keystroke, settings: &Option<Hotkey>) -> (r: KeyEffect)
        requires
            old(self)@.valid(),
        ensures
            (final(self)@, r@) == key_done(
                old(self)@,
                key_action(old(self)@, k@, opt_hotkey(*settings)),
            ),
            final(self)@.valid(),
    {
        let action = self.decide_key(k, settings);
        self.perform_key(action)
    }

    /// Puts a text from the clipboard in at the caret, on one line.
    pub fn paste(&mut self, text: &str)
        requires
            old(self)@.valid(),
        ensures
            final(self)@ == with_input(
                old(self)@,
                if one_line(text@).len() == 0 {
                    old(self)@.input
                } else {
                    old(self)@.input.inserted(one_line(text@))
                },
            ),
            final(self)@.valid(),
    {
        let line = single_line(text);
        self.input.insert_str(line.as_str());
    }

    /// The input method or the platform replaces text.
    pub fn replace_text(&mut self, range: Option<core::ops::Range<usize>>, text: &str)
        requires
            old(self)@.valid(),
        ensures
            final(self)@ == with_input(
                old(self)@,
                crate::input::committed(
                    old(self)@.input,
                    crate::input::range_view(range),
                    text@,
                ),
            ),
            final(self)@.valid(),
    {
        self.input.replace_utf16(range, text);
    }

    /// The input method replaces text and goes on composing it.
    pub fn compose_text(
        &mut self,
        range: Option<core::ops::Range<usize>>,
        text: &str,
        selected: Option<core::ops::Range<usize>>,
    )
        requires
            old(self)@.valid(),
        ensures
            final(self)@ == with_input(
                old(self)@,
                crate::input::composed(
                    old(self)@.input,
                    crate::input::range_view(range),
                    text@,
                    crate::input::range_view(selected),
                ),
            ),
            final(self)@.valid(),
    {
        self.input.replace_and_mark_utf16(range, text, selected);
    }

    /// The input method ends the composition.
    pub fn unmark_text(&mut self)
        requires
            old(self)@.valid(),
        ensures
            final(self)@ == with_input(
                old(self)@,
                InputView { marked: None, ..old(self)@.input },
            ),
            final(self)@.valid(),
    {
        self.input.unmark_text();
    }

    /// The mouse begins to select text: the caret goes where it is.
    pub fn begin_mouse_selection(&mut self, index: usize)
        requires
            old(self)@.valid(),
        ensures
            final(self)@ == (LauncherView {
                anchor: Some(index as int),
                ..with_input(
                    old(self)@,
                    InputView {
                        cursor: crate::input::smaller(
                            index as int,
                            old(self)@.input.query.len() as int,
                        ),
                        selection: None,
                        ..old(self)@.input
                    },
                )
            }),
            final(self)@.valid(),
    {
        self.input.set_cursor(index);
        self.anchor = Some(index);
    }

    /// The mouse moves while it selects text.
    pub fn update_mouse_selection(&mut self, index: usize)
        requires
            old(self)@.valid(),
        ensures
            final(self)@ == (match old(self)@.anchor {
                Some(anchor) => {
                    let input = old(self)@.input;
                    let n = input.query.len() as int;
                    let a = crate::input::smaller(anchor, n);
                    let h = crate::input::smaller(index as int, n);
                    with_input(
                        old(self)@,
                        InputView {
                            cursor: h,
                            selection: if a == h {
                                None
                            } else {
                                Some((crate::input::smaller(a, h), crate::input::larger(a, h)))
                            },
                            ..input
                        },
                    )
                },
                None => old(self)@,
            }),
            final(self)@.valid(),
    {
        if let Some(anchor) = self.anchor {
            self.input.select_anchor_to(anchor, index);
        }
    }

    /// The mouse has selected text.
    pub fn end_mouse_selection(&mut self)
        ensures
            final(self)@ == (LauncherView { anchor: None, ..old(self)@ }),
            old(self)@.valid() ==> final(self)@.valid(),
    {
        self.anchor = None;
    }

    /// Empties the query, after a row was confirmed.
    pub fn reset(&mut self)
        requires
            old(self)@.valid(),
        ensures
            final(self)@ == (LauncherView {
                anchor: None,
                ..with_input(
                    old(self)@,
                    InputView { query: Seq::empty(), cursor: 0, marked: None, selection: None },
                )
            }),
            final(self)@.valid(),
    {
        self.input.clear();
        self.anchor = None;
    }

    /// A plugin view was given a window of its own.
    pub fn panel_opened(&mut self, plugin_id: &str, command: &str)
        ensures
            final(self)@ == (LauncherView {
                windows: with_pair(old(self)@.windows, (plugin_id@, command@)),
                ..old(self)@
            }),
            old(self)@.valid() ==> final(self)@.valid(),
    {
        add_pair(&mut self.windows, plugin_id, command);
    }

    /// The window of a plugin view was closed. Tells whether there was one.
    pub fn panel_closed(&mut self, plugin_id: &str, command: &str) -> (r: bool)
        ensures
            final(self)@ == (LauncherView {
                windows: without_pair(old(self)@.windows, (plugin_id@, command@)),
                ..old(self)@
            }),
            r == old(self)@.windows.contains((plugin_id@, command@)),
            old(self)@.valid() ==> final(self)@.valid(),
    {
        let open = has_pair(&self.windows, plugin_id, command);
        self.windows = drop_pair(&self.windows, plugin_id, command);
        open
    }

    /// Counts a search in a search view, and gives its generation.
    pub fn next_search_gen(&mut self) -> (r: u64)
        requires
            old(self)@.search_gen < u64::MAX,
        ensures
            r == old(self)@.search_gen + 1,
            final(self)@ == (LauncherView { search_gen: r, ..old(self)@ }),
            old(self)@.valid() ==> final(self)@.valid(),
    {
        self.search_gen = self.search_gen + 1;
        self.search_gen
    }
}

/// What confirming a row asks for.
#[derive(Debug)]
pub enum ConfirmAction {
    /// Launch an application, and count the use.
    Launch(String),
    /// Put a text on the clipboard.
    Copy(String),
    /// Open an address in the browser.
    OpenUrl(String),
    /// Make a call.
    Call(QueuedCall),
    /// Bring the window of a plugin view to the front.
    Focus { plugin_id: String, command: String },
    /// Draw the launcher anew: a calendar was opened.
    ShowCalendar,
    /// Give a plugin view a window of its own.
    OpenPanel { plugin_id: String, command: String, view: Json, detachable: bool },
    Nothing,
}

/// What a [`ConfirmAction`] is.
pub enum ConfirmView {
    Launch(Seq<char>),
    Copy(Seq<char>),
    OpenUrl(Seq<char>),
    Call(CallView),
    Focus { plugin_id: Seq<char>, command: Seq<char> },
    ShowCalendar,
    OpenPanel { plugin_id: Seq<char>, command: Seq<char>, view: JsonView, detachable: bool },
    Nothing,
}

impl View for ConfirmAction {
    type V = ConfirmView;

    open spec fn view(&self) -> ConfirmView {
        match *self {
            ConfirmAction::Launch(s) => ConfirmView::Launch(s@),
            ConfirmAction::Copy(s) => ConfirmView::Copy(s@),
            ConfirmAction::OpenUrl(s) => ConfirmView::OpenUrl(s@),
            ConfirmAction::Call(c) => ConfirmView::Call(c@),
            ConfirmAction::Focus { plugin_id, command } => ConfirmView::Focus {
                plugin_id: plugin_id@,
                command: command@,
            },
            ConfirmAction::ShowCalendar => ConfirmView::ShowCalendar,
            ConfirmAction::OpenPanel { plugin_id, command, view, detachable } => {
                ConfirmView::OpenPanel {
                    plugin_id: plugin_id@,
                    command: command@,
                    view: view@,
                    detachable,
                }
            },
            ConfirmAction::Nothing => ConfirmView::Nothing,
        }
    }
}

impl ConfirmAction {
    /// Whether the launcher hides afterwards: it does unless a plugin is to
    /// answer or to be shown.
    pub fn hides(&self) -> (r: bool)
        ensures
            r == (self@ is Launch || self@ is Copy || self@ is OpenUrl),
    {
        matches!(
            self,
            ConfirmAction::Launch(_) | ConfirmAction::Copy(_) | ConfirmAction::OpenUrl(_)
        )
    }
}

/// The first plugin command of the query with the given plugin and command.
pub open spec fn hit_place(hits: Seq<HitView>, plugin_id: Seq<char>, command: Seq<char>, i: int) -> Option<
    int,
>
    decreases hits.len() - i,
{
    if i < 0 || i >= hits.len() {
        None
    } else if hits[i].plugin_id == plugin_id && hits[i].command == command {
        Some(i)
    } else {
        hit_place(hits, plugin_id, command, i + 1)
    }
}

/// What a plugin command of the query has answered.
pub open spec fn answer_of(st: LauncherView, plugin_id: Seq<char>, command: Seq<char>) -> Option<
    JsonView,
> {
    match hit_place(st.hits, plugin_id, command, 0) {
        Some(i) => st.views[i],
        None => None,
    }
}

/// The launcher after a row was confirmed, and what that asks for.
pub open spec fn confirmed(st: LauncherView, row: ItemView) -> (LauncherView, ConfirmView) {
    match row {
        ItemView::App(app) => (st, ConfirmView::Launch(app.path)),
        ItemView::Action { title, .. } => (st, ConfirmView::Copy(title)),
        ItemView::Link { url, .. } => (st, ConfirmView::OpenUrl(url)),
        ItemView::Plugin { plugin_id, command, item_id, .. } => (
            st,
            ConfirmView::Call(CallView::Item { plugin_id, command, item_id }),
        ),
        ItemView::Calendar { plugin_id, command, .. } => match answer_of(st, plugin_id, command) {
            Some(view) => if st.windows.contains((plugin_id, command)) {
                (st, ConfirmView::Focus { plugin_id, command })
            } else {
                let i = hit_place(st.hits, plugin_id, command, 0)->0;
                match calendar_in(view, plugin_id, command, st.hits[i].detachable) {
                    Some(active) => (
                        LauncherView { calendar: Some(active), ..st },
                        ConfirmView::ShowCalendar,
                    ),
                    None => (st, ConfirmView::Nothing),
                }
            },
            None => (st, ConfirmView::Nothing),
        },
        ItemView::Command { plugin_id, command, .. } => match answer_of(st, plugin_id, command) {
            Some(view) => {
                let i = hit_place(st.hits, plugin_id, command, 0)->0;
                (
                    st,
                    ConfirmView::OpenPanel {
                        plugin_id,
                        command,
                        view,
                        detachable: st.hits[i].detachable,
                    },
                )
            },
            None => (st, ConfirmView::Nothing),
        },
        ItemView::Loading { .. } => (st, ConfirmView::Nothing),
    }
}

/// What is to be done about the windows of plugin views.
#[derive(Debug)]
pub enum PanelEffect {
    Nothing,
    /// Hand the results of a search to the window of the view, where it has one.
    Results { gen: u64, plugin_id: String, command: String, view: Json },
    /// Close the window of the view, where it has one, and open one for this view.
    Open { plugin_id: String, command: String, view: Json, detachable: bool },
}

/// What a [`PanelEffect`] is.
pub enum PanelEffectView {
    Nothing,
    Results { gen: u64, plugin_id: Seq<char>, command: Seq<char>, view: JsonView },
    Open { plugin_id: Seq<char>, command: Seq<char>, view: JsonView, detachable: bool },
}

impl View for PanelEffect {
    type V = PanelEffectView;

    open spec fn view(&self) -> PanelEffectView {
        match *self {
            PanelEffect::Nothing => PanelEffectView::Nothing,
            PanelEffect::Results { gen, plugin_id, command, view } => PanelEffectView::Results {
                gen,
                plugin_id: plugin_id@,
                command: command@,
                view: view@,
            },
            PanelEffect::Open { plugin_id, command, view, detachable } => PanelEffectView::Open {
                plugin_id: plugin_id@,
                command: command@,
                view: view@,
                detachable,
            },
        }
    }
}

/// What is left to do after an event of the plugin host.
#[derive(Debug)]
pub struct EventEffect {
    /// Whether the rows are to be put together anew.
    pub rerender: bool,
    /// What is to be logged.
    pub log: Option<String>,
    pub panel: PanelEffect,
}

/// What an [`EventEffect`] is.
pub struct EventEffectView {
    pub rerender: bool,
    pub log: Option<Seq<char>>,
    pub panel: PanelEffectView,
}

impl View for EventEffect {
    type V = EventEffectView;

    open spec fn view(&self) -> EventEffectView {
        EventEffectView {
            rerender: self.rerender,
            log: opt_view(self.log),
            panel: self.panel@,
        }
    }
}

/// An event that leaves nothing to do.
pub open spec fn no_effect() -> EventEffectView {
    EventEffectView { rerender: false, log: None, panel: PanelEffectView::Nothing }
}

/// An event that is logged only.
pub open spec fn logged(text: Seq<char>) -> EventEffectView {
    EventEffectView { log: Some(text), ..no_effect() }
}

/// The text of an error and its code.
pub open spec fn error_text(e: ErrorView) -> Seq<char> {
    e.message + " ("@ + crate::calendar::signed_text(e.code as int) + ")"@
}

/// The name of a runtime process.
pub open spec fn process_name(plugin_id: Option<Seq<char>>) -> Seq<char> {
    match plugin_id {
        Some(s) => s,
        None => "(shared pool)"@,
    }
}

/// The launcher after an event of the plugin host, and what is left to do. What
/// answers a query or a search that is not the current one any more is dropped.
pub open spec fn event_done(st: LauncherView, event: EventView) -> (LauncherView, EventEffectView) {
    match event {
        EventView::CommandResult { gen, plugin_id, command, result } => match hit_place(
            st.hits,
            plugin_id,
            command,
            0,
        ) {
            Some(i) => if gen != st.plugin_gen {
                (st, no_effect())
            } else {
                let now = LauncherView {
                    pending: without_pair(st.pending, (plugin_id, command)),
                    ..st
                };
                match result {
                    Ok(view) => (
                        LauncherView { views: st.views.update(i, Some(view)), ..now },
                        EventEffectView { rerender: true, ..no_effect() },
                    ),
                    Err(e) => (
                        now,
                        EventEffectView {
                            rerender: true,
                            ..logged(
                                "[steward] plugin "@ + plugin_id + " command "@ + command
                                    + " failed: "@ + error_text(e),
                            )
                        },
                    ),
                }
            },
            None => (st, no_effect()),
        },
        EventView::SearchResult { gen, plugin_id, command, result, .. } => if gen
            != st.search_gen {
            (st, no_effect())
        } else {
            match result {
                Ok(view) => (
                    LauncherView {
                        search_results: st.search_results.insert((plugin_id, command), view),
                        ..st
                    },
                    EventEffectView {
                        rerender: true,
                        panel: PanelEffectView::Results { gen, plugin_id, command, view },
                        ..no_effect()
                    },
                ),
                Err(e) => (
                    st,
                    logged(
                        "[steward] plugin "@ + plugin_id + " search failed: "@ + error_text(e),
                    ),
                ),
            }
        },
        EventView::Toast { params } => (
            st,
            logged(
                "[steward] plugin toast: "@ + crate::views::text_or_blank(params, "message"@),
            ),
        ),
        EventView::RuntimeCrashed { plugin_id } => (
            st,
            logged(
                "[steward] plugin runtime "@ + process_name(plugin_id)
                    + " crashed; restart scheduled"@,
            ),
        ),
        EventView::RuntimeRestarted { plugin_id } => (
            st,
            logged("[steward] plugin runtime "@ + process_name(plugin_id) + " restarted"@),
        ),
        EventView::ItemView { plugin_id, command, item_id, view } => match hit_place(
            st.hits,
            plugin_id,
            command,
            0,
        ) {
            Some(i) => (
                LauncherView { views: st.views.update(i, Some(view)), ..st },
                EventEffectView {
                    rerender: true,
                    panel: if is_type(view, "detail"@) || is_type(view, "form"@) {
                        PanelEffectView::Open {
                            plugin_id,
                            command,
                            view,
                            detachable: st.hits[i].detachable,
                        }
                    } else {
                        PanelEffectView::Nothing
                    },
                    ..no_effect()
                },
            ),
            None => (
                st,
                logged(
                    "[steward] item "@ + item_id + " returned a view for an unknown command "@
                        + plugin_id + "/"@ + command,
                ),
            ),
        },
    }
}

/// Appends the text of an error and its code.
fn push_error(s: &mut String, e: &RpcError)
    ensures
        final(s)@ == old(s)@ + error_text(e@),
{
    s.append(e.message.as_str());
    s.append(" (");
    if e.code < 0 {
        s.push('-');
        let magnitude: u64 = (-(e.code as i128)) as u64;
        crate::text::push_decimal(s, magnitude);
    } else {
        crate::text::push_decimal(s, e.code as u64);
    }
    s.append(")");
    assert(s@ =~= old(s)@ + error_text(e@));
}

/// An event that leaves nothing to do.
fn nothing_left() -> (r: EventEffect)
    ensures
        r@ == no_effect(),
{
    EventEffect { rerender: false, log: None, panel: PanelEffect::Nothing }
}

/// An event that is logged only.
fn log_only(text: String) -> (r: EventEffect)
    ensures
        r@ == logged(text@),
{
    EventEffect { rerender: false, log: Some(text), panel: PanelEffect::Nothing }
}

impl Launcher {
    /// The first plugin command of the query with the given plugin and command.
    fn find_hit(&self, plugin_id: &str, command: &str) -> (r: Option<usize>)
        ensures
            match r {
                Some(i) => hit_place(self@.hits, plugin_id@, command@, 0) == Some(i as int) && i
                    < self@.hits.len() && self@.hits[i as int].plugin_id == plugin_id@
                    && self@.hits[i as int].command == command@,
                None => hit_place(self@.hits, plugin_id@, command@, 0) is None,
            },
    {
        let mut i: usize = 0;
        while i < self.hits.len()
            invariant
                i <= self.hits.len(),
                hit_place(self@.hits, plugin_id@, command@, 0) == hit_place(
                    self@.hits,
                    plugin_id@,
                    command@,
                    i as int,
                ),
            decreases self.hits.len() - i,
        {
            assert(self@.hits[i as int] == self.hits@[i as int]@);
            if same(self.hits[i].plugin_id.as_str(), plugin_id) && same(
                self.hits[i].command.as_str(),
                command,
            ) {
                return Some(i);
            }
            i += 1;
        }
        None
    }

    /// What a plugin command of the query has answered.
    pub fn plugin_view(&self, plugin_id: &str, command: &str) -> (r: Option<Json>)
        requires
            self@.valid(),
        ensures
            opt_json(r) == answer_of(self@, plugin_id@, command@),
    {
        match self.find_hit(plugin_id, command) {
            Some(i) => {
                assert(self@.views[i as int] == opt_json(self.views@[i as int]));
                match &self.views[i] {
                    Some(view) => Some(view.clone()),
                    None => None,
                }
            },
            None => None,
        }
    }

    /// The plugin view for the window of the open calendar: whose it is, and
    /// what it is.
    pub fn calendar_panel(&self) -> (r: Option<(String, String, Json, bool)>)
        requires
            self@.valid(),
        ensures
            match r {
                Some((plugin_id, command, view, detachable)) => self@.calendar matches Some(active)
                    && plugin_id@ == active.plugin_id && command@ == active.command && detachable
                    == active.detachable && answer_of(self@, active.plugin_id, active.command)
                    == Some(view@),
                None => self@.calendar matches Some(active) ==> answer_of(
                    self@,
                    active.plugin_id,
                    active.command,
                ) is None,
            },
    {
        match &self.calendar {
            Some(active) => match self.plugin_view(
                active.plugin_id.as_str(),
                active.command.as_str(),
            ) {
                Some(view) => Some(
                    (active.plugin_id.clone(), active.command.clone(), view, active.detachable),
                ),
                None => None,
            },
            None => None,
        }
    }

    /// Confirms a row, and tells what that asks for. There is nothing behind the
    /// last row.
    pub fn confirm(&mut self, index: usize) -> (r: ConfirmAction)
        requires
            old(self)@.valid(),
        ensures
            (final(self)@, r@) == (if index < old(self)@.rows.len() {
                confirmed(old(self)@, old(self)@.rows[index as int])
            } else {
                (old(self)@, ConfirmView::Nothing)
            }),
            final(self)@.valid(),
    {
        if index >= self.rows.len() {
            return ConfirmAction::Nothing;
        }
        let row = self.rows[index].clone();
        assert(row@ == self@.rows[index as int]);
        match row {
            ResultItem::App(app) => ConfirmAction::Launch(app.path),
            ResultItem::Action { title, .. } => ConfirmAction::Copy(title),
            ResultItem::Link { url, .. } => ConfirmAction::OpenUrl(url),
            ResultItem::Plugin { plugin_id, command, item_id, .. } => ConfirmAction::Call(
                QueuedCall::Item { plugin_id, command, item_id },
            ),
            ResultItem::Calendar { plugin_id, command, .. } => {
                let i: usize = match self.find_hit(plugin_id.as_str(), command.as_str()) {
                    Some(i) => i,
                    None => {
                        return ConfirmAction::Nothing;
                    },
                };
                assert(self@.views[i as int] == opt_json(self.views@[i as int]));
                let view = match &self.views[i] {
                    Some(view) => view.clone(),
                    None => {
                        return ConfirmAction::Nothing;
                    },
                };
                if self.plugin_window_open(plugin_id.as_str(), command.as_str()) {
                    return ConfirmAction::Focus { plugin_id, command };
                }
                assert(self@.hits[i as int] == self.hits@[i as int]@);
                match parse_calendar_view(
                    &view,
                    plugin_id.as_str(),
                    command.as_str(),
                    self.hits[i].detachable,
                ) {
                    Some(active) => {
                        self.calendar = Some(active);
                        ConfirmAction::ShowCalendar
                    },
                    None => ConfirmAction::Nothing,
                }
            },
            ResultItem::Command { plugin_id, command, .. } => {
                let i: usize = match self.find_hit(plugin_id.as_str(), command.as_str()) {
                    Some(i) => i,
                    None => {
                        return ConfirmAction::Nothing;
                    },
                };
                assert(self@.views[i as int] == opt_json(self.views@[i as int]));
                assert(self@.hits[i as int] == self.hits@[i as int]@);
                match &self.views[i] {
                    Some(view) => ConfirmAction::OpenPanel {
                        plugin_id,
                        command,
                        view: view.clone(),
                        detachable: self.hits[i].detachable,
                    },
                    None => ConfirmAction::Nothing,
                }
            },
            ResultItem::Loading { .. } => ConfirmAction::Nothing,
        }
    }

    /// Stores what a plugin command has answered.
    fn store(&mut self, i: usize, view: Json)
        requires
            old(self)@.valid(),
            i < old(self)@.hits.len(),
        ensures
            final(self)@ == (LauncherView {
                views: old(self)@.views.update(i as int, Some(view@)),
                ..old(self)@
            }),
            final(self)@.valid(),
    {
        let ghost before = answer_views(self.views@);
        self.views[i] = Some(view);
        assert(answer_views(self.views@) =~= before.update(i as int, Some(view@)));
    }

    /// Takes an event of the plugin host, and tells what is left to do.
    pub fn on_event(&mut self, event: HostEvent) -> (r: EventEffect)
        requires
            old(self)@.valid(),
        ensures
            (final(self)@, r@) == event_done(old(self)@, event@),
            final(self)@.valid(),
    {
        match event {
            HostEvent::CommandResult { gen, plugin_id, command, result } => {
                if gen != self.plugin_gen {
                    return nothing_left();
                }
                let i: usize = match self.find_hit(plugin_id.as_str(), command.as_str()) {
                    Some(i) => i,
                    None => {
                        return nothing_left();
                    },
                };
                self.pending = drop_pair(&self.pending, plugin_id.as_str(), command.as_str());
                match result {
                    Ok(view) => {
                        self.store(i, view);
                        EventEffect { rerender: true, log: None, panel: PanelEffect::Nothing }
                    },
                    Err(e) => {
                        let mut text = "[steward] plugin ".to_owned();
                        text.append(plugin_id.as_str());
                        text.append(" command ");
                        text.append(command.as_str());
                        text.append(" failed: ");
                        push_error(&mut text, &e);
                        EventEffect { rerender: true, log: Some(text), panel: PanelEffect::Nothing }
                    },
                }
            },
            HostEvent::SearchResult { gen, plugin_id, command, result, .. } => {
                if gen != self.search_gen {
                    return nothing_left();
                }
                match result {
                    Ok(view) => {
                        self.search_results.set(
                            (plugin_id.clone(), command.clone()),
                            view.clone(),
                        );
                        EventEffect {
                            rerender: true,
                            log: None,
                            panel: PanelEffect::Results { gen, plugin_id, command, view },
                        }
                    },
                    Err(e) => {
                        let mut text = "[steward] plugin ".to_owned();
                        text.append(plugin_id.as_str());
                        text.append(" search failed: ");
                        push_error(&mut text, &e);
                        log_only(text)
                    },
                }
            },
            HostEvent::Toast { params } => {
                let mut text = "[steward] plugin toast: ".to_owned();
                let ghost start = text@;
                match params.get_str("message") {
                    Some(message) => text.append(message.as_str()),
                    None => {
                        assert(start + Seq::<char>::empty() =~= start);
                    },
                }
                log_only(text)
            },
            HostEvent::RuntimeCrashed { plugin_id } => {
                let mut text = "[steward] plugin runtime ".to_owned();
                match plugin_id {
                    Some(id) => text.append(id.as_str()),
                    None => text.append("(shared pool)"),
                }
                text.append(" crashed; restart scheduled");
                log_only(text)
            },
            HostEvent::RuntimeRestarted { plugin_id } => {
                let mut text = "[steward] plugin runtime ".to_owned();
                match plugin_id {
                    Some(id) => text.append(id.as_str()),
                    None => text.append("(shared pool)"),
                }
                text.append(" restarted");
                log_only(text)
            },
            HostEvent::ItemView { plugin_id, command, item_id, view } => {
                match self.find_hit(plugin_id.as_str(), command.as_str()) {
                    Some(i) => {
                        assert(self@.hits[i as int] == self.hits@[i as int]@);
                        let detachable = self.hits[i].detachable;
                        let panel = if is_detail_or_form_view(&view) {
                            PanelEffect::Open {
                                plugin_id,
                                command,
                                view: view.clone(),
                                detachable,
                            }
                        } else {
                            PanelEffect::Nothing
                        };
                        self.store(i, view);
                        EventEffect { rerender: true, log: None, panel }
                    },
                    None => {
                        let mut text = "[steward] item ".to_owned();
                        text.append(item_id.as_str());
                        text.append(" returned a view for an unknown command ");
                        text.append(plugin_id.as_str());
                        text.append("/");
                        text.append(command.as_str());
                        log_only(text)
                    },
                }
            },
        }
    }
}

/// An answer of a query that is not the current one any more changes nothing.
pub proof fn stale_answers_are_dropped(
    st: LauncherView,
    gen: u64,
    plugin_id: Seq<char>,
    command: Seq<char>,
    query: Seq<char>,
    result: Result<JsonView, ErrorView>,
)
    ensures
        gen != st.plugin_gen ==> event_done(
            st,
            EventView::CommandResult { gen, plugin_id, command, result },
        ) == (st, no_effect()),
        gen != st.search_gen ==> event_done(
            st,
            EventView::SearchResult { gen, plugin_id, command, query, result },
        ) == (st, no_effect()),
{
}

/// The results of a search view are kept until its next ones or the next query,
/// and those of other search views stay beside them.
pub proof fn search_results_are_kept(
    st: LauncherView,
    plugin_id: Seq<char>,
    command: Seq<char>,
    query: Seq<char>,
    view: JsonView,
    other: (Seq<char>, Seq<char>),
)
    ensures
        ({
            let after = event_done(
                st,
                EventView::SearchResult {
                    gen: st.search_gen,
                    plugin_id,
                    command,
                    query,
                    result: Ok(view),
                },
            ).0;
            &&& after.search_results.contains_key((plugin_id, command))
            &&& after.search_results[(plugin_id, command)] == view
            &&& other != (plugin_id, command) ==> after.search_results.contains_key(other)
                == st.search_results.contains_key(other) && after.search_results[other]
                == st.search_results[other]
        }),
{
}

/// A place that is found is that of a hit.
proof fn lemma_hit_place(hits: Seq<HitView>, plugin_id: Seq<char>, command: Seq<char>, i: int)
    requires
        0 <= i,
    ensures
        hit_place(hits, plugin_id, command, i) matches Some(k) ==> i <= k < hits.len(),
    decreases hits.len() - i,
{
    if i < hits.len() {
        lemma_hit_place(hits, plugin_id, command, i + 1);
    }
}

/// A view that a row leads to takes the place of its command's view, whether or
/// not a window is opened on it.
pub proof fn item_views_replace_the_view(
    st: LauncherView,
    plugin_id: Seq<char>,
    command: Seq<char>,
    item_id: Seq<char>,
    view: JsonView,
)
    requires
        st.valid(),
        hit_place(st.hits, plugin_id, command, 0) is Some,
    ensures
        answer_of(
            event_done(st, EventView::ItemView { plugin_id, command, item_id, view }).0,
            plugin_id,
            command,
        ) == Some(view),
{
    lemma_hit_place(st.hits, plugin_id, command, 0);
}

/// A new query has a generation of its own: whatever an earlier query still
/// gets answered is dropped.
pub proof fn new_query_drops_earlier_answers(
    st: LauncherView,
    answer: Option<Seq<char>>,
    label: Seq<char>,
    command_label: Seq<char>,
    apps: Seq<AppView>,
    hits: Seq<HitView>,
    gen: u64,
    plugin_id: Seq<char>,
    command: Seq<char>,
    result: Result<JsonView, ErrorView>,
)
    requires
        st.plugin_gen < u64::MAX,
        gen <= st.plugin_gen,
    ensures
        ({
            let now = searched(st, answer, label, command_label, apps, hits);
            event_done(now, EventView::CommandResult { gen, plugin_id, command, result }) == (
                now,
                no_effect(),
            )
        }),
{
}

proof fn lemma_command_rows(
    hits: Seq<HitView>,
    views: Seq<Option<JsonView>>,
    label: Seq<char>,
    n: int,
)
    ensures
        command_rows(hits, views, label, n).len() <= MAX_PLUGIN_ROWS,
        forall|i: int|
            0 <= i < command_rows(hits, views, label, n).len() ==> (#[trigger] command_rows(
                hits,
                views,
                label,
                n,
            )[i]) is Command,
    decreases n,
{
    if n > 0 {
        lemma_command_rows(hits, views, label, n - 1);
    }
}

/// Plugin rows stand between the built-in rows and the applications: the
/// built-in rows come first, the applications last, both in their own order,
/// and between them there is nothing but plugin rows, no more than the bound
/// and one for a command that has not answered.
pub proof fn plugin_rows_stand_in_between(st: LauncherView, label: Seq<char>)
    requires
        st.valid(),
    ensures
        ({
            let rows = rendered(st, label).rows;
            let after = st.base.len() - st.builtin;
            &&& rows.take(st.builtin) == st.base.take(st.builtin)
            &&& rows.skip(rows.len() - after) == st.base.skip(st.builtin)
            &&& rows.len() <= st.base.len() + MAX_PLUGIN_ROWS + 1
            &&& forall|i: int|
                st.builtin <= i < rows.len() - after ==> (#[trigger] rows[i]) is Command || rows[i]
                    is Loading
        }),
{
    let rows = rendered(st, label).rows;
    let after = st.base.len() - st.builtin;
    let commands = command_rows(st.hits, st.views, label, st.hits.len() as int);
    lemma_command_rows(st.hits, st.views, label, st.hits.len() as int);
    assert(rows.take(st.builtin) =~= st.base.take(st.builtin));
    assert(rows.skip(rows.len() - after) =~= st.base.skip(st.builtin));
    let l = loading_rows(st.pending);
    assert forall|i: int| st.builtin <= i < rows.len() - after implies (#[trigger] rows[i])
        is Command || rows[i] is Loading by {
        if i < st.builtin + l.len() {
            assert(rows[i] == l[i - st.builtin]);
        } else {
            assert(rows[i] == commands[i - st.builtin - l.len()]);
        }
    }
}

/// No query shows more than [`MAX_PLUGIN_ROWS`] rows of plugin commands.
pub proof fn plugin_rows_are_bounded(
    hits: Seq<HitView>,
    views: Seq<Option<JsonView>>,
    label: Seq<char>,
    n: int,
)
    ensures
        command_rows(hits, views, label, n).len() <= MAX_PLUGIN_ROWS,
    decreases n,
{
    if n > 0 {
        plugin_rows_are_bounded(hits, views, label, n - 1);
    }
}

} // verus!

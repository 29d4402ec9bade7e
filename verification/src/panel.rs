//! A window of its own for a plugin's view: what it shows, what keys and clicks
//! in it do, and how high it is.

use vstd::prelude::*;

use crate::calendar::{move_selected, moved_selection, shifted_month, showing_month};
use crate::form::{initial_values, submits, toggled, FormState};
use crate::host::{CallView, QueuedCall};
use crate::json::{Json, JsonView};
use crate::protocol::opt_json;
use crate::results::{
    moved_row, row_ensured, ItemView, ResultItem, ResultListState, RESULT_ROW_HEIGHT, VISIBLE_ROWS,
};
use crate::text::same;
use crate::views::{
    list_items, rows_in_view, seq_views, ActionRef, ActionView, ActiveView, FormField, PanelKind,
    PanelView, ValueView,
};

verus! {

/// Height of the title bar, in logical pixels.
pub const PANEL_TITLEBAR_HEIGHT: u32 = 32;

/// Height of the month navigation above a calendar, in logical pixels.
pub const PANEL_NAV_HEIGHT: u32 = 26;

/// Nominal height of a detail or a form, in logical pixels.
pub const DETAIL_FORM_PANEL_HEIGHT: u32 = 260;

/// Nominal height of a grid, in logical pixels.
pub const GRID_PANEL_HEIGHT: u32 = 320;

/// Nominal height of a search view, in logical pixels.
pub const SEARCH_PANEL_HEIGHT: u32 = 360;

/// Height of a calendar: the heading, the weekdays and six weeks, in logical pixels.
pub const CALENDAR_GRID_HEIGHT: u32 = 324;

/// Space around what a window shows, in logical pixels.
pub const PLUGIN_WIDGET_PADDING: u32 = 12;

/// The least height for what a window shows, in logical pixels.
pub const MIN_CONTENT_HEIGHT: u32 = 120;

/// The height that the search bar takes above the results, in logical pixels.
pub const SEARCH_BAR_HEIGHT: u32 = 48;

/// The least height of the results of a search, in logical pixels.
pub const MIN_RESULTS_HEIGHT: u32 = 80;

/// Height of a list with `count` rows, of which no more than [`VISIBLE_ROWS`] show.
pub open spec fn list_px(count: int) -> int {
    RESULT_ROW_HEIGHT * if count < VISIBLE_ROWS {
        count
    } else {
        VISIBLE_ROWS as int
    }
}

/// Height of a list with `count` rows, of which no more than [`VISIBLE_ROWS`] show.
pub fn list_height(count: usize) -> (r: u32)
    ensures
        r == list_px(count as int),
{
    if count < VISIBLE_ROWS {
        RESULT_ROW_HEIGHT * (count as u32)
    } else {
        RESULT_ROW_HEIGHT * 8
    }
}

/// The nominal height of a window.
pub open spec fn panel_px(kind: PanelView) -> int {
    let content = match kind {
        PanelView::Calendar(_) => CALENDAR_GRID_HEIGHT as int,
        PanelView::List(items) => list_px(items.len() as int),
        PanelView::Detail(_) | PanelView::Form(_) => DETAIL_FORM_PANEL_HEIGHT as int,
        PanelView::Grid(_) => GRID_PANEL_HEIGHT as int,
        PanelView::Search => SEARCH_PANEL_HEIGHT as int,
    };
    let nav = if kind is Calendar {
        PANEL_NAV_HEIGHT as int
    } else {
        0
    };
    content + 2 * PLUGIN_WIDGET_PADDING + PANEL_TITLEBAR_HEIGHT + nav
}

/// The nominal height of a window.
pub fn panel_height(kind: &PanelKind) -> (r: u32)
    ensures
        r == panel_px(kind@),
{
    let (content, nav): (u32, u32) = match kind {
        PanelKind::Calendar(_) => (CALENDAR_GRID_HEIGHT, PANEL_NAV_HEIGHT),
        PanelKind::List(items) => (list_height(items.len()), 0),
        PanelKind::Detail(_) | PanelKind::Form(_) => (DETAIL_FORM_PANEL_HEIGHT, 0),
        PanelKind::Grid(_) => (GRID_PANEL_HEIGHT, 0),
        PanelKind::Search => (SEARCH_PANEL_HEIGHT, 0),
    };
    content + 2 * PLUGIN_WIDGET_PADDING + PANEL_TITLEBAR_HEIGHT + nav
}

/// The height left for what a window of the given height shows.
pub fn content_height(kind: &PanelKind, window_height: u32) -> (r: u32)
    ensures
        ({
            let nav = if kind@ is Calendar {
                PANEL_NAV_HEIGHT as int
            } else {
                0
            };
            let left = window_height - PANEL_TITLEBAR_HEIGHT - nav - 2 * PLUGIN_WIDGET_PADDING;
            r == if left < MIN_CONTENT_HEIGHT {
                MIN_CONTENT_HEIGHT as int
            } else {
                left
            }
        }),
{
    let nav: u32 = match kind {
        PanelKind::Calendar(_) => PANEL_NAV_HEIGHT,
        _ => 0,
    };
    let fixed: u32 = PANEL_TITLEBAR_HEIGHT + nav + 2 * PLUGIN_WIDGET_PADDING;
    if window_height < fixed + MIN_CONTENT_HEIGHT {
        MIN_CONTENT_HEIGHT
    } else {
        window_height - fixed
    }
}

/// The height left for the results of a search below its bar, in a window whose
/// content has the given height.
pub fn results_height(content_height: u32) -> (r: u32)
    ensures
        r == if content_height - SEARCH_BAR_HEIGHT < MIN_RESULTS_HEIGHT {
            MIN_RESULTS_HEIGHT as int
        } else {
            content_height - SEARCH_BAR_HEIGHT
        },
{
    if content_height < SEARCH_BAR_HEIGHT + MIN_RESULTS_HEIGHT {
        MIN_RESULTS_HEIGHT
    } else {
        content_height - SEARCH_BAR_HEIGHT
    }
}

/// What a key does in a window.
#[derive(Debug, Clone, Copy, PartialEq, Eq, Structural)]
pub enum PanelKey {
    /// Moves the selected day by some days.
    MoveDay(i32),
    /// Confirms the selected day.
    ConfirmDay,
    /// Moves the selected row.
    MoveRow(i32),
    /// Confirms the selected row.
    ConfirmRow,
    /// Closes the window, which puts the view back into the launcher.
    Dock,
    /// Nothing.
    Ignored,
}

/// What a key does, by what the window shows.
pub open spec fn panel_key(kind: PanelView, key: Seq<char>) -> PanelKey {
    if key == "escape"@ {
        PanelKey::Dock
    } else if kind is Calendar {
        if key == "up"@ {
            PanelKey::MoveDay((-7) as i32)
        } else if key == "down"@ {
            PanelKey::MoveDay(7)
        } else if key == "left"@ {
            PanelKey::MoveDay((-1) as i32)
        } else if key == "right"@ {
            PanelKey::MoveDay(1)
        } else if key == "enter"@ {
            PanelKey::ConfirmDay
        } else {
            PanelKey::Ignored
        }
    } else if kind is List {
        if key == "up"@ {
            PanelKey::MoveRow((-1) as i32)
        } else if key == "down"@ {
            PanelKey::MoveRow(1)
        } else if key == "enter"@ {
            PanelKey::ConfirmRow
        } else {
            PanelKey::Ignored
        }
    } else {
        PanelKey::Ignored
    }
}

/// A window of its own for a plugin's view.
pub struct PluginPanel {
    plugin_id: String,
    command: String,
    kind: PanelKind,
    actions: Vec<ActionRef>,
    selection: String,
    list: ResultListState,
    form: FormState,
    search_results: Option<Json>,
    search_rows: Vec<ResultItem>,
}

/// What a [`PluginPanel`] is.
pub struct PanelState {
    pub plugin_id: Seq<char>,
    pub command: Seq<char>,
    pub kind: PanelView,
    pub actions: Seq<ActionView>,
    /// The selected day of a calendar.
    pub selection: Seq<char>,
    /// The rows of a list.
    pub list: ResultListState,
    /// What has been filled into a form.
    pub filled: Map<Seq<char>, ValueView>,
    /// The view that a search was last answered with.
    pub search_results: Option<JsonView>,
    /// The rows that a search found.
    pub search_rows: Seq<ItemView>,
}

impl View for PluginPanel {
    type V = PanelState;

    closed spec fn view(&self) -> PanelState {
        PanelState {
            plugin_id: self.plugin_id@,
            command: self.command@,
            kind: self.kind@,
            actions: seq_views(self.actions@),
            selection: self.selection@,
            list: self.list,
            filled: self.form@,
            search_results: opt_json(self.search_results),
            search_rows: seq_views(self.search_rows@),
        }
    }
}

/// A window that has just taken a view: nothing is filled in or found yet, the
/// first row of a list is selected, and the day that the calendar says.
pub open spec fn fresh_panel(
    plugin_id: Seq<char>,
    command: Seq<char>,
    kind: PanelView,
    actions: Seq<ActionView>,
) -> PanelState {
    PanelState {
        plugin_id,
        command,
        kind,
        actions,
        selection: match kind {
            PanelView::Calendar(c) => c.data.selected,
            _ => Seq::empty(),
        },
        list: match kind {
            PanelView::List(items) => ResultListState {
                len: items.len() as usize,
                selected: if items.len() > 0 {
                    Some(0usize)
                } else {
                    None
                },
            },
            _ => ResultListState { len: 0, selected: None },
        },
        filled: match kind {
            PanelView::Form(f) => initial_values(f.fields),
            _ => initial_values(Seq::empty()),
        },
        search_results: None,
        search_rows: Seq::empty(),
    }
}

/// The view of an optional call.
pub open spec fn opt_call(o: Option<QueuedCall>) -> Option<CallView> {
    match o {
        Some(c) => Some(c@),
        None => None,
    }
}

/// The call that confirming a row makes: the item goes to the row's command, or
/// to the window's where the row names none.
pub open spec fn row_call(row: ItemView, command: Seq<char>) -> Option<CallView> {
    match row {
        ItemView::Plugin { plugin_id, command: own, item_id, .. } => Some(
            CallView::Item {
                plugin_id,
                command: if own.len() == 0 {
                    command
                } else {
                    own
                },
                item_id,
            },
        ),
        _ => None,
    }
}

/// The item of the selected row, where it is a plugin's.
pub open spec fn selected_item(p: PanelState) -> Option<Seq<char>> {
    match (p.kind, p.list.selected) {
        (PanelView::List(items), Some(i)) => if i < items.len() {
            match items[i as int] {
                ItemView::Plugin { item_id, .. } => Some(item_id),
                _ => None,
            }
        } else {
            None
        },
        _ => None,
    }
}

/// The call that running an action makes: in a list it is about the selected
/// row, in a detail view or a form about nothing in particular; a calendar,
/// a grid and a search run none.
pub open spec fn action_call(p: PanelState, action_id: Seq<char>) -> Option<CallView> {
    match p.kind {
        PanelView::List(_) | PanelView::Detail(_) | PanelView::Form(_) => Some(
            CallView::Action { plugin_id: p.plugin_id, action_id, item_id: selected_item(p) },
        ),
        _ => None,
    }
}

impl PluginPanel {
    /// A window that shows a view.
    pub fn new(
        plugin_id: String,
        command: String,
        kind: PanelKind,
        actions: Vec<ActionRef>,
    ) -> (r: Self)
        ensures
            r@ == fresh_panel(plugin_id@, command@, kind@, seq_views(actions@)),
    {
        let selection = match &kind {
            PanelKind::Calendar(active) => active.data.selected.clone(),
            _ => {
                let s = String::new();
                assert(s@ =~= Seq::<char>::empty());
                s
            },
        };
        let mut list = ResultListState::new();
        if let PanelKind::List(items) = &kind {
            list.set_results(items.len());
        }
        let form = match &kind {
            PanelKind::Form(data) => FormState::new(&data.fields),
            _ => {
                let none: Vec<FormField> = Vec::new();
                assert(seq_views(none@) =~= Seq::empty());
                FormState::new(&none)
            },
        };
        let search_rows: Vec<ResultItem> = Vec::new();
        assert(seq_views(search_rows@) =~= Seq::<ItemView>::empty());
        PluginPanel {
            plugin_id,
            command,
            kind,
            actions,
            selection,
            list,
            form,
            search_results: None,
            search_rows,
        }
    }

    /// Shows another view.
    pub fn set_view(&mut self, kind: PanelKind, actions: Vec<ActionRef>)
        ensures
            final(self)@ == fresh_panel(
                old(self)@.plugin_id,
                old(self)@.command,
                kind@,
                seq_views(actions@),
            ),
    {
        *self =
        PluginPanel::new(self.plugin_id.clone(), self.command.clone(), kind, actions);
    }

    /// What the window shows.
    pub fn kind(&self) -> (r: &PanelKind)
        ensures
            r@ == self@.kind,
    {
        &self.kind
    }

    /// The selected day of a calendar.
    pub fn selection(&self) -> (r: &String)
        ensures
            r@ == self@.selection,
    {
        &self.selection
    }

    /// The rows of a list: how many, and which is selected.
    pub fn list(&self) -> (r: ResultListState)
        ensures
            r == self@.list,
    {
        self.list
    }

    /// What has been filled into a form.
    pub fn form(&self) -> (r: &FormState)
        ensures
            r@ == self@.filled,
    {
        &self.form
    }

    /// The view that a search was last answered with.
    pub fn search_results(&self) -> (r: Option<&Json>)
        ensures
            match r {
                Some(view) => self@.search_results == Some(view@),
                None => self@.search_results is None,
            },
    {
        self.search_results.as_ref()
    }

    /// The rows that a search found.
    pub fn search_rows(&self) -> (r: &Vec<ResultItem>)
        ensures
            seq_views(r@) == self@.search_rows,
    {
        &self.search_rows
    }

    /// The actions to show: those of the view, but none beside a calendar or a search.
    pub fn shown_actions(&self) -> (r: Option<&Vec<ActionRef>>)
        ensures
            match r {
                Some(v) => !(self@.kind is Calendar) && !(self@.kind is Search) && self@.actions.len()
                    > 0 && seq_views(v@) == self@.actions,
                None => self@.kind is Calendar || self@.kind is Search || self@.actions.len() == 0,
            },
    {
        match &self.kind {
            PanelKind::Calendar(_) | PanelKind::Search => None,
            _ => if self.actions.len() > 0 {
                Some(&self.actions)
            } else {
                None
            },
        }
    }

    /// What a key does.
    pub fn handle_key(&self, key: &str) -> (r: PanelKey)
        ensures
            r == panel_key(self@.kind, key@),
    {
        if same(key, "escape") {
            return PanelKey::Dock;
        }
        match &self.kind {
            PanelKind::Calendar(_) => if same(key, "up") {
                PanelKey::MoveDay(-7)
            } else if same(key, "down") {
                PanelKey::MoveDay(7)
            } else if same(key, "left") {
                PanelKey::MoveDay(-1)
            } else if same(key, "right") {
                PanelKey::MoveDay(1)
            } else if same(key, "enter") {
                PanelKey::ConfirmDay
            } else {
                PanelKey::Ignored
            },
            PanelKind::List(_) => if same(key, "up") {
                PanelKey::MoveRow(-1)
            } else if same(key, "down") {
                PanelKey::MoveRow(1)
            } else if same(key, "enter") {
                PanelKey::ConfirmRow
            } else {
                PanelKey::Ignored
            },
            _ => PanelKey::Ignored,
        }
    }

    /// Moves the selected day, within the month that is shown. What is no date
    /// stays.
    pub fn move_selection(&mut self, delta: i32)
        ensures
            final(self)@ == (PanelState {
                selection: match old(self)@.kind {
                    PanelView::Calendar(c) => moved_selection(
                        c.data.year,
                        c.data.month,
                        old(self)@.selection,
                        delta as int,
                    ),
                    _ => old(self)@.selection,
                },
                ..old(self)@
            }),
    {
        if let PanelKind::Calendar(active) = &self.kind {
            let data = &active.data;
            if let Some(iso) = move_selected(
                self.selection.as_str(),
                data.year,
                data.month,
                delta,
            ) {
                self.selection = iso;
            }
        }
    }

    /// The call that confirming a day makes.
    pub fn confirm_date(&self) -> (r: QueuedCall)
        ensures
            r@ == (CallView::Item {
                plugin_id: self@.plugin_id,
                command: self@.command,
                item_id: self@.selection,
            }),
    {
        self.pick(self.selection.as_str())
    }

    /// The call that choosing a day of a calendar or a cell of a grid makes.
    pub fn pick(&self, id: &str) -> (r: QueuedCall)
        ensures
            r@ == (CallView::Item {
                plugin_id: self@.plugin_id,
                command: self@.command,
                item_id: id@,
            }),
    {
        QueuedCall::Item {
            plugin_id: self.plugin_id.clone(),
            command: self.command.clone(),
            item_id: id.to_owned(),
        }
    }

    /// Moves the selected row of a list.
    pub fn select_relative(&mut self, delta: i32)
        ensures
            final(self)@ == (PanelState {
                list: moved_row(old(self)@.list, delta as int),
                ..old(self)@
            }),
    {
        let mut list = self.list;
        let _ = list.select_relative(delta);
        self.list = list;
    }

    /// The call that confirming a row makes. The rows that a search found are
    /// only shown.
    pub fn confirm_row(&self, index: usize) -> (r: Option<QueuedCall>)
        ensures
            opt_call(r) == (match self@.kind {
                PanelView::List(items) => if index < items.len() {
                    row_call(items[index as int], self@.command)
                } else {
                    None
                },
                _ => None,
            }),
    {
        match &self.kind {
            PanelKind::List(items) => {
                if index < items.len() {
                    match &items[index] {
                        ResultItem::Plugin { plugin_id, command, item_id, .. } => {
                            let to = if command.as_str().unicode_len() == 0 {
                                self.command.clone()
                            } else {
                                command.clone()
                            };
                            Some(
                                QueuedCall::Item {
                                    plugin_id: plugin_id.clone(),
                                    command: to,
                                    item_id: item_id.clone(),
                                },
                            )
                        },
                        _ => None,
                    }
                } else {
                    None
                }
            },
            _ => None,
        }
    }

    /// Confirms the selected row of a list, or the first where none is selected.
    pub fn confirm_selected(&mut self) -> (r: Option<QueuedCall>)
        ensures
            final(self)@ == (PanelState { list: row_ensured(old(self)@.list), ..old(self)@ }),
            opt_call(r) == (match (old(self)@.kind, row_ensured(old(self)@.list).selected) {
                (PanelView::List(items), Some(i)) => if i < items.len() && i
                    < old(self)@.list.len {
                    row_call(items[i as int], old(self)@.command)
                } else {
                    None
                },
                _ => None,
            }),
    {
        let mut list = self.list;
        list.ensure_selected();
        self.list = list;
        match list.confirm_selected() {
            Some(i) => self.confirm_row(i),
            None => None,
        }
    }

    /// The call that running an action makes.
    pub fn run_action(&self, action_id: &str) -> (r: Option<QueuedCall>)
        ensures
            opt_call(r) == action_call(self@, action_id@),
    {
        let item_id = match &self.kind {
            PanelKind::List(items) => match self.list.selected {
                Some(i) => if i < items.len() {
                    match &items[i] {
                        ResultItem::Plugin { item_id, .. } => Some(item_id.clone()),
                        _ => None,
                    }
                } else {
                    None
                },
                None => None,
            },
            PanelKind::Detail(_) | PanelKind::Form(_) => None,
            PanelKind::Calendar(_) | PanelKind::Grid(_) | PanelKind::Search => {
                return None;
            },
        };
        Some(
            QueuedCall::Action {
                plugin_id: self.plugin_id.clone(),
                action_id: action_id.to_owned(),
                item_id,
            },
        )
    }

    /// Turns a switch of a form over.
    pub fn toggle_field(&mut self, field_id: &str)
        ensures
            final(self)@ == (PanelState {
                filled: toggled(old(self)@.filled, field_id@),
                ..old(self)@
            }),
    {
        self.form.toggle(field_id);
    }

    /// Chooses an option of a form's select field.
    pub fn select_option(&mut self, field_id: &str, option_id: &str)
        ensures
            final(self)@ == (PanelState {
                filled: old(self)@.filled.insert(field_id@, ValueView::String(option_id@)),
                ..old(self)@
            }),
    {
        self.form.select_field(field_id, option_id);
    }

    /// The call that submitting a form makes: it carries every value.
    pub fn submit(&self) -> (r: Option<QueuedCall>)
        ensures
            match r {
                Some(call) => self@.kind is Form && match call@ {
                    CallView::Submit { plugin_id, values } => plugin_id == self@.plugin_id
                        && submits(values, self@.filled),
                    _ => false,
                },
                None => !(self@.kind is Form),
            },
    {
        match &self.kind {
            PanelKind::Form(_) => Some(
                QueuedCall::Submit {
                    plugin_id: self.plugin_id.clone(),
                    values: self.form.submission(),
                },
            ),
            _ => None,
        }
    }

    /// The call that typing into a search view makes, under the search
    /// generation `gen`.
    pub fn search(&self, gen: u64, query: &str) -> (r: Option<QueuedCall>)
        ensures
            opt_call(r) == (if self@.kind is Search {
                Some(
                    CallView::Search {
                        gen,
                        plugin_id: self@.plugin_id,
                        command: self@.command,
                        query: query@,
                    },
                )
            } else {
                None
            }),
    {
        match &self.kind {
            PanelKind::Search => Some(
                QueuedCall::Search {
                    gen,
                    plugin_id: self.plugin_id.clone(),
                    command: self.command.clone(),
                    query: query.to_owned(),
                },
            ),
            _ => None,
        }
    }

    /// Takes the results of a search, and shows their rows in a search view. Those
    /// of another generation than the current one are dropped.
    pub fn apply_search_result(&mut self, gen: u64, current_gen: u64, result: &Json)
        ensures
            final(self)@ == (if gen == current_gen {
                PanelState {
                    search_results: Some(result@),
                    search_rows: if old(self)@.kind is Search {
                        rows_in_view(result@, old(self)@.plugin_id, old(self)@.command)
                    } else {
                        old(self)@.search_rows
                    },
                    ..old(self)@
                }
            } else {
                old(self)@
            }),
    {
        if gen != current_gen {
            return ;
        }
        self.search_results = Some(result.clone());
        let searches = match &self.kind {
            PanelKind::Search => true,
            _ => false,
        };
        if searches {
            self.search_rows = list_items(result, self.plugin_id.as_str(), self.command.as_str());
        }
    }

    /// Shows the month of a calendar `delta` months away, with the same day
    /// selected as far as the month has it.
    pub fn navigate_month(&mut self, delta: i32)
        requires
            old(self)@.kind matches PanelView::Calendar(c) ==> i32::MIN <= shifted_month(
                c.data.year,
                c.data.month,
                delta as int,
            ).0 <= i32::MAX,
        ensures
            final(self)@ == (match old(self)@.kind {
                PanelView::Calendar(c) => {
                    let (y, m) = shifted_month(c.data.year, c.data.month, delta as int);
                    with_month(old(self)@, c, y, m)
                },
                _ => old(self)@,
            }),
    {
        let mut selected: Option<String> = None;
        if let PanelKind::Calendar(active) = &mut self.kind {
            active.data.navigate_month(delta);
            selected = Some(active.data.selected.clone());
        }
        if let Some(iso) = selected {
            self.selection = iso;
        }
    }

    /// Shows the same month of a calendar `delta` years away.
    pub fn navigate_year(&mut self, delta: i32)
        requires
            old(self)@.kind matches PanelView::Calendar(c) ==> i32::MIN <= c.data.year + delta
                <= i32::MAX,
        ensures
            final(self)@ == (match old(self)@.kind {
                PanelView::Calendar(c) => with_month(
                    old(self)@,
                    c,
                    c.data.year + delta,
                    c.data.month,
                ),
                _ => old(self)@,
            }),
    {
        let mut selected: Option<String> = None;
        if let PanelKind::Calendar(active) = &mut self.kind {
            active.data.navigate_year(delta);
            selected = Some(active.data.selected.clone());
        }
        if let Some(iso) = selected {
            self.selection = iso;
        }
    }
}

/// The window with another month of its calendar shown.
pub open spec fn with_month(p: PanelState, c: ActiveView, year: int, month: int) -> PanelState {
    let data = showing_month(c.data, year, month);
    PanelState {
        kind: PanelView::Calendar(ActiveView { data, ..c }),
        selection: data.selected,
        ..p
    }
}

/// A window has room for what it shows: at its nominal height a calendar has its
/// whole grid, and a list all of its rows up to [`VISIBLE_ROWS`].
pub proof fn windows_have_room(kind: PanelView)
    ensures
        kind is Calendar ==> panel_px(kind) >= CALENDAR_GRID_HEIGHT,
        kind matches PanelView::List(items) ==> panel_px(kind) >= list_px(items.len() as int) && (
        items.len() <= VISIBLE_ROWS ==> panel_px(kind) >= RESULT_ROW_HEIGHT * items.len()),
{
}

} // verus!

//! The rows of the launcher's results list, and which of them is selected.

use core::ops::Range;

use vstd::prelude::*;

use crate::engine::{AppEntry, AppView};

verus! {

/// Rows visible at once in the drop-down.
pub const VISIBLE_ROWS: usize = 8;

/// Height of a result row, in logical pixels.
pub const RESULT_ROW_HEIGHT: u32 = 42;

/// A row of the results list.
#[derive(Debug, PartialEq, Eq)]
pub enum ResultItem {
    /// An application.
    App(AppEntry),
    /// A calculator result: the value, and the expression.
    Action { title: String, subtitle: String },
    /// An address to open in the browser.
    Link { url: String, label: String, command_label: String },
    /// An item of a plugin's list view.
    Plugin {
        plugin_id: String,
        command: String,
        item_id: String,
        title: String,
        subtitle: String,
    },
    /// A plugin's calendar view.
    Calendar { plugin_id: String, command: String, title: String, subtitle: String },
    /// A plugin command whose view opens in a window of its own.
    Command { plugin_id: String, command: String, title: String, subtitle: String },
    /// A plugin command that has not answered yet.
    Loading { command: String },
}

/// What a [`ResultItem`] is.
pub enum ItemView {
    App(AppView),
    Action { title: Seq<char>, subtitle: Seq<char> },
    Link { url: Seq<char>, label: Seq<char>, command_label: Seq<char> },
    Plugin {
        plugin_id: Seq<char>,
        command: Seq<char>,
        item_id: Seq<char>,
        title: Seq<char>,
        subtitle: Seq<char>,
    },
    Calendar { plugin_id: Seq<char>, command: Seq<char>, title: Seq<char>, subtitle: Seq<char> },
    Command { plugin_id: Seq<char>, command: Seq<char>, title: Seq<char>, subtitle: Seq<char> },
    Loading { command: Seq<char> },
}

impl View for ResultItem {
    type V = ItemView;

    open spec fn view(&self) -> ItemView {
        match *self {
            ResultItem::App(app) => ItemView::App(app@),
            ResultItem::Action { title, subtitle } => ItemView::Action {
                title: title@,
                subtitle: subtitle@,
            },
            ResultItem::Link { url, label, command_label } => ItemView::Link {
                url: url@,
                label: label@,
                command_label: command_label@,
            },
            ResultItem::Plugin { plugin_id, command, item_id, title, subtitle } => ItemView::Plugin {
                plugin_id: plugin_id@,
                command: command@,
                item_id: item_id@,
                title: title@,
                subtitle: subtitle@,
            },
            ResultItem::Calendar { plugin_id, command, title, subtitle } => ItemView::Calendar {
                plugin_id: plugin_id@,
                command: command@,
                title: title@,
                subtitle: subtitle@,
            },
            ResultItem::Command { plugin_id, command, title, subtitle } => ItemView::Command {
                plugin_id: plugin_id@,
                command: command@,
                title: title@,
                subtitle: subtitle@,
            },
            ResultItem::Loading { command } => ItemView::Loading { command: command@ },
        }
    }
}

/// The views of a list of rows.
pub open spec fn row_views(v: Seq<ResultItem>) -> Seq<ItemView> {
    v.map_values(|r: ResultItem| r@)
}

impl Clone for ResultItem {
    fn clone(&self) -> (r: Self)
        ensures
            r == *self,
    {
        match self {
            ResultItem::App(app) => ResultItem::App(app.clone()),
            ResultItem::Action { title, subtitle } => ResultItem::Action {
                title: title.clone(),
                subtitle: subtitle.clone(),
            },
            ResultItem::Link { url, label, command_label } => ResultItem::Link {
                url: url.clone(),
                label: label.clone(),
                command_label: command_label.clone(),
            },
            ResultItem::Plugin { plugin_id, command, item_id, title, subtitle } => {
                ResultItem::Plugin {
                    plugin_id: plugin_id.clone(),
                    command: command.clone(),
                    item_id: item_id.clone(),
                    title: title.clone(),
                    subtitle: subtitle.clone(),
                }
            },
            ResultItem::Calendar { plugin_id, command, title, subtitle } => ResultItem::Calendar {
                plugin_id: plugin_id.clone(),
                command: command.clone(),
                title: title.clone(),
                subtitle: subtitle.clone(),
            },
            ResultItem::Command { plugin_id, command, title, subtitle } => ResultItem::Command {
                plugin_id: plugin_id.clone(),
                command: command.clone(),
                title: title.clone(),
                subtitle: subtitle.clone(),
            },
            ResultItem::Loading { command } => ResultItem::Loading { command: command.clone() },
        }
    }
}

/// The results list: how many rows there are, and which is selected.
#[derive(Debug, Clone, Copy, PartialEq, Eq, Structural)]
pub struct ResultListState {
    /// The number of rows.
    pub len: usize,
    /// The selected row.
    pub selected: Option<usize>,
}

/// The rows that fit a height: at least one.
pub open spec fn rows_in(max_height: int) -> int {
    if max_height < RESULT_ROW_HEIGHT {
        1
    } else {
        max_height / RESULT_ROW_HEIGHT as int
    }
}

/// The first row that is shown, of `len` rows with room for `rows`, such that
/// row `selected` is shown and no more is scrolled than that takes.
pub open spec fn top_row(len: int, selected: int, rows: int) -> int {
    let shown = if len == 0 {
        0
    } else if selected < len {
        selected
    } else {
        len - 1
    };
    if shown < rows {
        0
    } else {
        shown - (rows - 1)
    }
}

/// The list with the selection moved by `delta` rows, within the list. Where
/// nothing is selected, moving down selects the first row.
pub open spec fn moved_row(list: ResultListState, delta: int) -> ResultListState {
    let current = match list.selected {
        Some(i) => i as int,
        None => -1,
    };
    let target = if current + delta < 0 {
        0
    } else if current + delta > list.len - 1 {
        list.len - 1
    } else {
        current + delta
    };
    if list.len == 0 {
        list
    } else {
        ResultListState { selected: Some(target as usize), ..list }
    }
}

/// The list with the first row selected where none was and there is one.
pub open spec fn row_ensured(list: ResultListState) -> ResultListState {
    if list.selected is None && list.len > 0 {
        ResultListState { selected: Some(0usize), ..list }
    } else {
        list
    }
}

impl ResultListState {
    /// A list without rows.
    pub fn new() -> (r: Self)
        ensures
            r == (ResultListState { len: 0, selected: None }),
    {
        ResultListState { len: 0, selected: None }
    }

    /// Takes `len` new rows; the first is selected where there is one.
    pub fn set_results(&mut self, len: usize)
        ensures
            *final(self) == (ResultListState {
                len,
                selected: if len > 0 {
                    Some(0usize)
                } else {
                    None
                },
            }),
    {
        self.len = len;
        self.selected = if len > 0 {
            Some(0)
        } else {
            None
        };
    }

    /// The number of rows.
    pub fn visible_count(&self) -> (r: usize)
        ensures
            r == self.len,
    {
        self.len
    }

    /// Moves the selection by `delta` rows, within the list, and gives the new
    /// row. Where nothing is selected, moving down selects the first row.
    pub fn select_relative(&mut self, delta: i32) -> (r: Option<usize>)
        ensures
            *final(self) == moved_row(*old(self), delta as int),
            r == (if old(self).len == 0 {
                None
            } else {
                final(self).selected
            }),
    {
        if self.len == 0 {
            return None;
        }
        let current: i128 = match self.selected {
            Some(i) => i as i128,
            None => -1,
        };
        let target: i128 = current + delta as i128;
        let index: usize = if target < 0 {
            0
        } else if target > self.len as i128 - 1 {
            self.len - 1
        } else {
            target as usize
        };
        self.selected = Some(index);
        Some(index)
    }

    /// Selects the first row where none is selected and there is one.
    pub fn ensure_selected(&mut self)
        ensures
            *final(self) == row_ensured(*old(self)),
    {
        if self.selected.is_none() && self.len > 0 {
            self.selected = Some(0);
        }
    }

    /// The row that Enter confirms.
    pub fn confirm_selected(&self) -> (r: Option<usize>)
        ensures
            r == (match self.selected {
                Some(i) => if i < self.len {
                    Some(i)
                } else {
                    None
                },
                None => None,
            }),
    {
        match self.selected {
            Some(i) => if i < self.len {
                Some(i)
            } else {
                None
            },
            None => None,
        }
    }

    /// The rows to show in the given height: as many as fit, such that the
    /// selected row is among them, at the bottom once the list scrolls.
    pub fn visible_range(&self, max_height: u32) -> (r: Range<usize>)
        ensures
            ({
                let rows = rows_in(max_height as int);
                let selected = match self.selected {
                    Some(i) => i as int,
                    None => 0,
                };
                let top = top_row(self.len as int, selected, rows);
                &&& r.start == top
                &&& r.end == (if top + rows < self.len {
                    top + rows
                } else {
                    self.len as int
                })
            }),
    {
        let rows: usize = if max_height < RESULT_ROW_HEIGHT {
            1
        } else {
            (max_height / RESULT_ROW_HEIGHT) as usize
        };
        let selected: usize = match self.selected {
            Some(i) => i,
            None => 0,
        };
        let shown: usize = if self.len == 0 {
            0
        } else if selected < self.len {
            selected
        } else {
            self.len - 1
        };
        let top: usize = if shown < rows {
            0
        } else {
            shown - (rows - 1)
        };
        let end: usize = if self.len - top > rows {
            top + rows
        } else {
            self.len
        };
        top..end
    }
}

impl ResultListState {
    /// The selected row is one of the list.
    pub open spec fn valid(self) -> bool {
        self.selected matches Some(i) ==> i < self.len
    }
}

/// However the selection is moved, it stays on a row of the list, and a list
/// with rows has one selected then.
pub proof fn selection_stays_in_the_list(list: ResultListState, delta: int)
    requires
        list.valid(),
    ensures
        moved_row(list, delta).valid(),
        row_ensured(list).valid(),
        moved_row(list, delta).len == list.len,
        list.len > 0 ==> moved_row(list, delta).selected is Some && row_ensured(list).selected is Some,
{
}

/// The selected row is always among the rows shown.
pub proof fn selected_row_is_shown(len: int, selected: int, rows: int)
    requires
        0 <= selected < len,
        1 <= rows,
    ensures
        ({
            let top = top_row(len, selected, rows);
            0 <= top <= selected < top + rows
        }),
{
}

} // verus!

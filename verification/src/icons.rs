//! Where the icons of rows come from, and which icons of the found applications
//! are extracted when.

use vstd::prelude::*;

use crate::launcher::MAX_RESULT_ROWS;
use crate::results::{ItemView, ResultItem};
use crate::table::Table;
use crate::text::{same, views};

verus! {

/// Where the icon of a row comes from.
#[derive(Debug, PartialEq, Eq)]
pub enum IconSource {
    /// The executable with this path.
    App(String),
    /// The manifest of this plugin.
    Plugin(String),
}

/// What an [`IconSource`] is.
pub enum IconSourceView {
    App(Seq<char>),
    Plugin(Seq<char>),
}

impl View for IconSource {
    type V = IconSourceView;

    open spec fn view(&self) -> IconSourceView {
        match self {
            IconSource::App(path) => IconSourceView::App(path@),
            IconSource::Plugin(id) => IconSourceView::Plugin(id@),
        }
    }
}

/// Where the icon of a row comes from: applications have their own, the rows of
/// a plugin that of the plugin, and built-in rows none.
pub open spec fn icon_from(row: ItemView) -> Option<IconSourceView> {
    match row {
        ItemView::App(app) => Some(IconSourceView::App(app.path)),
        ItemView::Plugin { plugin_id, .. } => Some(IconSourceView::Plugin(plugin_id)),
        ItemView::Calendar { plugin_id, .. } => Some(IconSourceView::Plugin(plugin_id)),
        ItemView::Command { plugin_id, .. } => Some(IconSourceView::Plugin(plugin_id)),
        _ => None,
    }
}

/// Where the icon of a row comes from.
pub fn icon_source(row: &ResultItem) -> (r: Option<IconSource>)
    ensures
        match r {
            Some(source) => icon_from(row@) == Some(source@),
            None => icon_from(row@) is None,
        },
{
    match row {
        ResultItem::App(app) => Some(IconSource::App(app.path.clone())),
        ResultItem::Plugin { plugin_id, .. } => Some(IconSource::Plugin(plugin_id.clone())),
        ResultItem::Calendar { plugin_id, .. } => Some(IconSource::Plugin(plugin_id.clone())),
        ResultItem::Command { plugin_id, .. } => Some(IconSource::Plugin(plugin_id.clone())),
        _ => None,
    }
}

/// The icons to extract for a list of applications.
#[derive(Debug)]
pub struct IconPlan {
    /// The rows whose icon is extracted at once, in their order.
    pub now: Vec<usize>,
    /// The paths whose icon is extracted in the background, in their order.
    pub later: Vec<String>,
}

/// Whether an icon is at hand for a path.
pub open spec fn at_hand(known: Map<Seq<char>, bool>, path: Seq<char>) -> bool {
    known.contains_key(path) && known[path]
}

/// Whether `s` holds `x`.
pub open spec fn listed(s: Seq<Seq<char>>, x: Seq<char>) -> bool {
    exists|i: int| 0 <= i < s.len() && #[trigger] s[i] == x
}

/// The first rows without an icon at hand: those in view, tried again where
/// there was none.
pub open spec fn rows_now(paths: Seq<Seq<char>>, known: Map<Seq<char>, bool>, n: int) -> Seq<int>
    decreases n,
{
    if n <= 0 {
        Seq::empty()
    } else if n <= MAX_RESULT_ROWS && !at_hand(known, paths[n - 1]) {
        rows_now(paths, known, n - 1).push(n - 1)
    } else {
        rows_now(paths, known, n - 1)
    }
}

/// The rows in view.
pub open spec fn in_view(paths: Seq<Seq<char>>) -> Seq<Seq<char>> {
    if paths.len() <= MAX_RESULT_ROWS {
        paths
    } else {
        paths.take(MAX_RESULT_ROWS as int)
    }
}

/// The paths out of view that were never tried, and are not in view either.
pub open spec fn paths_later(
    paths: Seq<Seq<char>>,
    known: Map<Seq<char>, bool>,
    n: int,
) -> Seq<Seq<char>>
    decreases n,
{
    if n <= MAX_RESULT_ROWS {
        Seq::empty()
    } else if !known.contains_key(paths[n - 1]) && !listed(in_view(paths), paths[n - 1]) {
        paths_later(paths, known, n - 1).push(paths[n - 1])
    } else {
        paths_later(paths, known, n - 1)
    }
}

/// Whether one of the first paths is `path`.
fn is_listed(paths: &Vec<String>, n: usize, path: &str) -> (r: bool)
    requires
        n <= paths.len(),
    ensures
        r == listed(views(paths@).take(n as int), path@),
{
    let ghost first = views(paths@).take(n as int);
    let mut i: usize = 0;
    while i < n
        invariant
            i <= n <= paths.len(),
            first == views(paths@).take(n as int),
            forall|j: int| 0 <= j < i ==> #[trigger] first[j] != path@,
        decreases n - i,
    {
        assert(first[i as int] == paths@[i as int]@);
        if same(paths[i].as_str(), path) {
            return true;
        }
        i += 1;
    }
    false
}

/// The icons to extract for the paths of applications: `known` tells for each
/// path that was tried whether there was an icon.
pub fn icon_plan(paths: &Vec<String>, known: &Table<String, bool>) -> (r: IconPlan)
    ensures
        r.now@.map_values(|i: usize| i as int) == rows_now(
            views(paths@),
            known@,
            paths@.len() as int,
        ),
        views(r.later@) == paths_later(views(paths@), known@, paths@.len() as int),
{
    let ghost all = views(paths@);
    let mut now: Vec<usize> = Vec::new();
    let mut later: Vec<String> = Vec::new();
    let shown: usize = if paths.len() <= MAX_RESULT_ROWS {
        paths.len()
    } else {
        MAX_RESULT_ROWS
    };
    assert(all.take(shown as int) =~= in_view(all));
    assert(now@.map_values(|i: usize| i as int) =~= Seq::<int>::empty());
    assert(views(later@) =~= Seq::<Seq<char>>::empty());
    let mut n: usize = 0;
    while n < paths.len()
        invariant
            n <= paths.len(),
            all == views(paths@),
            shown <= paths.len(),
            all.take(shown as int) == in_view(all),
            now@.map_values(|i: usize| i as int) == rows_now(all, known@, n as int),
            views(later@) == paths_later(all, known@, n as int),
        decreases paths.len() - n,
    {
        assert(all[n as int] == paths@[n as int]@);
        let entry = known.get(&paths[n]);
        if n < MAX_RESULT_ROWS {
            let have = match entry {
                Some(found) => *found,
                None => false,
            };
            if !have {
                let ghost before = now@;
                now.push(n);
                assert(now@.map_values(|i: usize| i as int) =~= before.map_values(
                    |i: usize| i as int,
                ).push(n as int));
            }
        } else if entry.is_none() && !is_listed(paths, shown, paths[n].as_str()) {
            let ghost before = later@;
            later.push(paths[n].clone());
            assert(views(later@) =~= views(before).push(all[n as int]));
        }
        n += 1;
    }
    IconPlan { now, later }
}

proof fn lemma_now(paths: Seq<Seq<char>>, known: Map<Seq<char>, bool>, n: int, i: int)
    requires
        0 <= i < n <= paths.len(),
        i < MAX_RESULT_ROWS,
        !at_hand(known, paths[i]),
    ensures
        rows_now(paths, known, n).contains(i),
    decreases n,
{
    if i == n - 1 {
        let s = rows_now(paths, known, n - 1);
        assert(s.push(n - 1)[s.len() as int] == i);
    } else {
        lemma_now(paths, known, n - 1, i);
        let s = rows_now(paths, known, n - 1);
        let j = choose|j: int| 0 <= j < s.len() && s[j] == i;
        assert(s.push(n - 1)[j] == i);
    }
}

proof fn lemma_later(paths: Seq<Seq<char>>, known: Map<Seq<char>, bool>, n: int, i: int)
    requires
        MAX_RESULT_ROWS <= i < n <= paths.len(),
        !known.contains_key(paths[i]),
        !listed(in_view(paths), paths[i]),
    ensures
        listed(paths_later(paths, known, n), paths[i]),
    decreases n,
{
    let s = paths_later(paths, known, n - 1);
    if i == n - 1 {
        assert(s.push(paths[i])[s.len() as int] == paths[i]);
    } else {
        lemma_later(paths, known, n - 1, i);
        let j = choose|j: int| 0 <= j < s.len() && s[j] == paths[i];
        assert(s.push(paths[n - 1])[j] == paths[i]);
    }
}

/// No path is forgotten: each one was tried before, or stands in a row that is
/// tried at once, or is tried in the background.
pub proof fn every_icon_is_tried(paths: Seq<Seq<char>>, known: Map<Seq<char>, bool>, i: int)
    requires
        0 <= i < paths.len(),
    ensures
        ({
            let now = rows_now(paths, known, paths.len() as int);
            let later = paths_later(paths, known, paths.len() as int);
            known.contains_key(paths[i]) || listed(later, paths[i]) || exists|j: int|
                0 <= j < paths.len() && paths[j] == paths[i] && #[trigger] now.contains(j)
        }),
{
    let n = paths.len() as int;
    if !known.contains_key(paths[i]) {
        if listed(in_view(paths), paths[i]) {
            let j = choose|j: int| 0 <= j < in_view(paths).len() && in_view(paths)[j] == paths[i];
            assert(paths[j] == paths[i]);
            lemma_now(paths, known, n, j);
        } else if i < MAX_RESULT_ROWS {
            assert(in_view(paths)[i] == paths[i]);
        } else {
            lemma_later(paths, known, n, i);
        }
    }
}

} // verus!

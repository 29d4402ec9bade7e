//! Installed applications from Start Menu shortcuts.

use vstd::prelude::*;

use crate::engine::{app_views, AppEntry, AppView};
use crate::search::{ascii_lowercase, contains_text, to_ascii_lowercase};
use crate::text::{chars_of, same, string_of, views};

verus! {

/// A shortcut that was found: its path, and what it points to where that is known.
#[derive(Debug)]
pub struct Shortcut {
    pub path: String,
    pub target: Option<String>,
}

/// What a [`Shortcut`] is.
pub struct ShortcutView {
    pub path: Seq<char>,
    pub target: Option<Seq<char>>,
}

impl View for Shortcut {
    type V = ShortcutView;

    open spec fn view(&self) -> ShortcutView {
        ShortcutView { path: self.path@, target: crate::text::opt_view(self.target) }
    }
}

/// The views of a list of shortcuts.
pub open spec fn shortcut_views(v: Seq<Shortcut>) -> Seq<ShortcutView> {
    v.map_values(|s: Shortcut| s@)
}

/// A source of installed applications.
pub trait AppScanner {
    /// The applications that a scan gives.
    spec fn apps(&self) -> Seq<AppView>;

    /// Lists the applications.
    fn scan(&self) -> (r: Vec<AppEntry>)
        ensures
            app_views(r@) == self.apps(),
    ;
}

/// The separators of path components.
pub open spec fn is_separator(c: char) -> bool {
    c == '/' || c == '\\'
}

/// Whether a path begins with `\\?\`, and so is taken as it is written.
pub open spec fn is_verbatim(p: Seq<char>) -> bool {
    p.len() >= 4 && p[0] == '\\' && p[1] == '\\' && p[2] == '?' && p[3] == '\\'
}

/// The separators of the components of a path: in a verbatim one `/` is none.
pub open spec fn separates(c: char, verbatim: bool) -> bool {
    if verbatim {
        c == '\\'
    } else {
        is_separator(c)
    }
}

/// Where the component that begins at `i` ends.
pub open spec fn component_end(p: Seq<char>, i: int, verbatim: bool) -> int
    decreases p.len() - i,
{
    if 0 <= i < p.len() && !separates(p[i], verbatim) {
        component_end(p, i + 1, verbatim)
    } else {
        i
    }
}

/// Whether a drive such as `C:` stands at `i`.
pub open spec fn drive_at(p: Seq<char>, i: int) -> bool {
    i + 2 <= p.len() && is_letter(p[i]) && p[i + 1] == ':'
}

/// Where the prefix of a path ends: a drive such as `C:`, or two separators with
/// a server and a share behind them.
pub open spec fn prefix_end(p: Seq<char>) -> int {
    if is_verbatim(p) {
        verbatim_prefix_end(p)
    } else if drive_at(p, 0) {
        2
    } else if p.len() >= 2 && is_separator(p[0]) && is_separator(p[1]) {
        let server = component_end(p, 2, false);
        let share = component_end(p, server + 1, false);
        if 2 < server < p.len() && share > server + 1 {
            share
        } else {
            0
        }
    } else {
        0
    }
}

/// Where the prefix of a verbatim path ends: behind the opening, `UNC\` with a
/// server and a share, a drive that is a component of its own, or any one
/// component.
pub open spec fn verbatim_prefix_end(p: Seq<char>) -> int {
    if p.len() >= 8 && p[4] == 'U' && p[5] == 'N' && p[6] == 'C' && is_separator(p[7]) {
        let server = component_end(p, 8, true);
        let share = component_end(p, server + 1, true);
        if server < p.len() && share > server + 1 {
            share
        } else {
            server
        }
    } else if drive_at(p, 4) && (p.len() == 6 || is_separator(p[6])) {
        6
    } else {
        component_end(p, 4, true)
    }
}

/// Where the components of a path begin: behind the prefix and the separator of
/// the root.
pub open spec fn body_start(p: Seq<char>) -> int {
    let n = prefix_end(p);
    if 0 <= n < p.len() && is_separator(p[n]) {
        n + 1
    } else {
        n
    }
}

/// The ASCII letters.
pub open spec fn is_letter(c: char) -> bool {
    ('a' <= c && c <= 'z') || ('A' <= c && c <= 'Z')
}

/// The path without the separators at its end, nor the components `.` there where
/// it is not verbatim.
pub open spec fn without_tail(p: Seq<char>, verbatim: bool) -> Seq<char>
    decreases p.len(),
{
    if p.len() > 0 && separates(p.last(), verbatim) {
        without_tail(p.drop_last(), verbatim)
    } else if !verbatim && p.len() > 1 && p.last() == '.' && is_separator(p[p.len() - 2]) {
        without_tail(p.drop_last(), verbatim)
    } else {
        p
    }
}

/// Where the last component of a path of the length `n` begins.
pub open spec fn name_start(p: Seq<char>, n: int, verbatim: bool) -> int
    decreases n,
{
    if n <= 0 || separates(p[n - 1], verbatim) {
        n
    } else {
        name_start(p, n - 1, verbatim)
    }
}

/// The last component of a path; `None` where there is none but the prefix, or it
/// is `.` or `..`.
pub open spec fn file_name(p: Seq<char>) -> Option<Seq<char>> {
    let verbatim = is_verbatim(p);
    let q = without_tail(p.skip(body_start(p)), verbatim);
    let name = q.skip(name_start(q, q.len() as int, verbatim));
    if name.len() == 0 || name == seq!['.'] || name == seq!['.', '.'] {
        None
    } else {
        Some(name)
    }
}

/// The last dot of a name that is not its first character.
pub open spec fn dot_place(name: Seq<char>, n: int) -> Option<int>
    decreases n,
{
    if n <= 1 {
        None
    } else if name[n - 1] == '.' {
        Some(n - 1)
    } else {
        dot_place(name, n - 1)
    }
}

/// The extension of a path: what follows the last dot of its last component.
pub open spec fn extension(p: Seq<char>) -> Option<Seq<char>> {
    match file_name(p) {
        Some(name) => match dot_place(name, name.len() as int) {
            Some(i) => Some(name.skip(i + 1)),
            None => None,
        },
        None => None,
    }
}

/// The last component of a path without its extension.
pub open spec fn file_stem(p: Seq<char>) -> Option<Seq<char>> {
    match file_name(p) {
        Some(name) => match dot_place(name, name.len() as int) {
            Some(i) => Some(name.take(i)),
            None => Some(name),
        },
        None => None,
    }
}

/// Whether the path has the given extension, whatever its case.
pub open spec fn has_extension(p: Seq<char>, want: Seq<char>) -> bool {
    match extension(p) {
        Some(e) => ascii_lowercase(e) == want,
        None => false,
    }
}

/// The paths of a list of applications.
pub open spec fn app_paths(apps: Seq<AppView>) -> Seq<Seq<char>> {
    apps.map_values(|a: AppView| a.path)
}

/// The applications that shortcuts lead to: those that point to an executable,
/// each target once, under the name of its first shortcut.
pub open spec fn shortcut_apps(links: Seq<ShortcutView>) -> Seq<AppView>
    decreases links.len(),
{
    if links.len() == 0 {
        Seq::empty()
    } else {
        let rest = shortcut_apps(links.drop_last());
        let link = links.last();
        match link.target {
            Some(target) => if has_extension(target, "exe"@) && !app_paths(rest).contains(target) {
                rest.push(
                    AppView {
                        name: match file_stem(link.path) {
                            Some(stem) => stem,
                            None => target,
                        },
                        path: target,
                    },
                )
            } else {
                rest
            },
            None => rest,
        }
    }
}

/// Whether `c` separates components.
fn separator(c: char) -> (r: bool)
    ensures
        r == is_separator(c),
{
    c == '/' || c == '\\'
}

/// Whether `c` separates the components of a path.
fn separates_components(c: char, verbatim: bool) -> (r: bool)
    ensures
        r == separates(c, verbatim),
{
    c == '\\' || (!verbatim && c == '/')
}

/// Where the component that begins at `i` ends.
fn end_of_component(v: &Vec<char>, i: usize, verbatim: bool) -> (r: usize)
    requires
        i <= v.len(),
    ensures
        r == component_end(v@, i as int, verbatim),
        i <= r <= v.len(),
{
    let mut n: usize = i;
    while n < v.len() && !separates_components(v[n], verbatim)
        invariant
            i <= n <= v.len(),
            component_end(v@, i as int, verbatim) == component_end(v@, n as int, verbatim),
        ensures
            i <= n <= v.len(),
            component_end(v@, i as int, verbatim) == n,
        decreases v.len() - n,
    {
        n += 1;
    }
    n
}

/// Whether a drive stands at `i`.
fn has_drive(v: &Vec<char>, i: usize) -> (r: bool)
    requires
        i <= v.len(),
    ensures
        r == drive_at(v@, i as int),
{
    if v.len() - i < 2 {
        return false;
    }
    let c = v[i];
    (('a' <= c && c <= 'z') || ('A' <= c && c <= 'Z')) && v[i + 1] == ':'
}

/// Whether a path is taken as it is written.
fn verbatim_path(v: &Vec<char>) -> (r: bool)
    ensures
        r == is_verbatim(v@),
{
    v.len() >= 4 && v[0] == '\\' && v[1] == '\\' && v[2] == '?' && v[3] == '\\'
}

/// Where the prefix of a verbatim path ends.
fn skip_verbatim_prefix(v: &Vec<char>) -> (r: usize)
    requires
        is_verbatim(v@),
    ensures
        r == verbatim_prefix_end(v@),
        r <= v.len(),
{
    if v.len() >= 8 && v[4] == 'U' && v[5] == 'N' && v[6] == 'C' && separator(v[7]) {
        let server: usize = end_of_component(v, 8, true);
        if server < v.len() {
            let share: usize = end_of_component(v, server + 1, true);
            if share > server + 1 {
                return share;
            }
        }
        return server;
    }
    if has_drive(v, 4) && (v.len() == 6 || separator(v[6])) {
        return 6;
    }
    end_of_component(v, 4, true)
}

/// Where the prefix of a path ends.
fn skip_prefix(v: &Vec<char>) -> (r: usize)
    ensures
        r == prefix_end(v@),
        r <= v.len(),
{
    if verbatim_path(v) {
        return skip_verbatim_prefix(v);
    }
    if has_drive(v, 0) {
        return 2;
    }
    if v.len() >= 2 && separator(v[0]) && separator(v[1]) {
        let server: usize = end_of_component(v, 2, false);
        if server > 2 && server < v.len() {
            let share: usize = end_of_component(v, server + 1, false);
            if share > server + 1 {
                return share;
            }
        }
    }
    0
}

/// Where the components of a path begin.
fn skip_root(v: &Vec<char>) -> (r: usize)
    ensures
        r == body_start(v@),
        r <= v.len(),
{
    let n: usize = skip_prefix(v);
    if n < v.len() && separator(v[n]) {
        n + 1
    } else {
        n
    }
}

/// Where the last component of a path begins and ends.
fn name_range(v: &Vec<char>, verbatim: bool) -> (r: (usize, usize))
    ensures
        r.0 <= r.1 <= v.len(),
        without_tail(v@, verbatim) == v@.take(r.1 as int),
        r.0 == name_start(v@.take(r.1 as int), r.1 as int, verbatim),
{
    let mut end: usize = v.len();
    assert(v@.take(end as int) =~= v@);
    while end > 0 && (separates_components(v[end - 1], verbatim) || (!verbatim && end > 1 && v[end
        - 1] == '.' && separator(v[end - 2])))
        invariant
            end <= v.len(),
            without_tail(v@, verbatim) == without_tail(v@.take(end as int), verbatim),
        ensures
            end <= v.len(),
            without_tail(v@, verbatim) == v@.take(end as int),
        decreases end,
    {
        assert(v@.take(end as int).drop_last() =~= v@.take(end - 1));
        end -= 1;
    }
    let ghost q = v@.take(end as int);
    let mut start: usize = end;
    while start > 0 && !separates_components(v[start - 1], verbatim)
        invariant
            start <= end <= v.len(),
            q == v@.take(end as int),
            name_start(q, end as int, verbatim) == name_start(q, start as int, verbatim),
        ensures
            start <= end,
            name_start(q, end as int, verbatim) == start,
        decreases start,
    {
        start -= 1;
    }
    (start, end)
}

/// The last component of a path.
fn name_of(path: &str) -> (r: Option<Vec<char>>)
    ensures
        match r {
            Some(name) => file_name(path@) == Some(name@),
            None => file_name(path@) is None,
        },
{
    let all = chars_of(path);
    let begin: usize = skip_root(&all);
    let rest = string_of(&all, begin, all.len());
    let v = chars_of(rest.as_str());
    assert(v@ =~= path@.skip(begin as int));
    let (start, end) = name_range(&v, verbatim_path(&all));
    let text = string_of(&v, start, end);
    let name = chars_of(text.as_str());
    proof {
        let q = v@.take(end as int);
        assert(name@ =~= q.skip(start as int));
    }
    if name.len() == 0 {
        return None;
    }
    if name.len() == 1 && name[0] == '.' {
        assert(name@ =~= seq!['.']);
        return None;
    }
    if name.len() == 2 && name[0] == '.' && name[1] == '.' {
        assert(name@ =~= seq!['.', '.']);
        return None;
    }
    proof {
        if name@ == seq!['.', '.'] {
            assert(name@[0] == '.' && name@[1] == '.');
        }
        if name@ == seq!['.'] {
            assert(name@[0] == '.');
        }
    }
    Some(name)
}

/// The last dot of a name that is not its first character.
fn last_dot(name: &Vec<char>) -> (r: Option<usize>)
    ensures
        match r {
            Some(i) => dot_place(name@, name.len() as int) == Some(i as int) && i < name.len(),
            None => dot_place(name@, name.len() as int) is None,
        },
{
    let mut n: usize = name.len();
    while n > 1
        invariant
            n <= name.len(),
            dot_place(name@, name.len() as int) == dot_place(name@, n as int),
        decreases n,
    {
        if name[n - 1] == '.' {
            return Some(n - 1);
        }
        n -= 1;
    }
    None
}

/// Whether a path has the given extension, which is in lower case, whatever
/// the case of its own.
pub fn path_has_extension(path: &str, want: &str) -> (r: bool)
    ensures
        r == has_extension(path@, want@),
{
    match name_of(path) {
        Some(name) => match last_dot(&name) {
            Some(i) => {
                let e = string_of(&name, i + 1, name.len());
                assert(e@ =~= name@.skip(i + 1));
                let lower = to_ascii_lowercase(e.as_str());
                same(lower.as_str(), want)
            },
            None => false,
        },
        None => false,
    }
}

/// The last component of a path without its extension.
pub fn stem_of(path: &str) -> (r: Option<String>)
    ensures
        crate::text::opt_view(r) == file_stem(path@),
{
    match name_of(path) {
        Some(name) => {
            let n: usize = match last_dot(&name) {
                Some(i) => i,
                None => name.len(),
            };
            let s = string_of(&name, 0, n);
            assert(s@ =~= name@.take(n as int));
            assert(name@.take(name@.len() as int) =~= name@);
            Some(s)
        },
        None => None,
    }
}

/// The Start Menu scanner: lists the applications of the shortcuts it was given.
#[derive(Debug)]
pub struct WinAppsScanner {
    shortcuts: Vec<Shortcut>,
}

impl WinAppsScanner {
    /// The shortcuts of the scanner.
    pub closed spec fn shortcuts(&self) -> Seq<ShortcutView> {
        shortcut_views(self.shortcuts@)
    }

    /// A scanner for the given shortcuts.
    pub fn new(shortcuts: Vec<Shortcut>) -> (r: Self)
        ensures
            r.shortcuts() == shortcut_views(shortcuts@),
    {
        WinAppsScanner { shortcuts }
    }
}

impl AppScanner for WinAppsScanner {
    open spec fn apps(&self) -> Seq<AppView> {
        shortcut_apps(self.shortcuts())
    }

    fn scan(&self) -> (r: Vec<AppEntry>) {
        let ghost all = self.shortcuts();
        let mut seen: Vec<String> = Vec::new();
        let mut apps: Vec<AppEntry> = Vec::new();
        let mut i: usize = 0;
        proof {
            assert(all.take(0) =~= Seq::<ShortcutView>::empty());
            assert(app_views(apps@) =~= Seq::<AppView>::empty());
            assert(views(seen@) =~= app_paths(app_views(apps@)));
        }
        while i < self.shortcuts.len()
            invariant
                i <= self.shortcuts.len(),
                all == shortcut_views(self.shortcuts@),
                app_views(apps@) == shortcut_apps(all.take(i as int)),
                views(seen@) == app_paths(app_views(apps@)),
            decreases self.shortcuts.len() - i,
        {
            let link = &self.shortcuts[i];
            assert(all.take(i + 1).drop_last() =~= all.take(i as int));
            assert(all.take(i + 1).last() == link@);
            if let Some(target) = &link.target {
                if path_has_extension(target.as_str(), "exe") && !contains_text(
                    &seen,
                    target.as_str(),
                ) {
                    let name = match stem_of(link.path.as_str()) {
                        Some(stem) => stem,
                        None => target.clone(),
                    };
                    let ghost before = app_views(apps@);
                    let ghost paths = views(seen@);
                    let app = AppEntry { name, path: target.clone() };
                    seen.push(target.clone());
                    apps.push(app);
                    proof {
                        assert(app_views(apps@) =~= before.push(app@));
                        assert(views(seen@) =~= paths.push(target@));
                        assert(views(seen@) =~= app_paths(app_views(apps@)));
                    }
                }
            }
            i += 1;
        }
        assert(all.take(all.len() as int) =~= all);
        apps
    }
}

/// A scanner that finds nothing, for platforms without a Start Menu.
#[derive(Debug)]
pub struct NoopScanner;

impl AppScanner for NoopScanner {
    open spec fn apps(&self) -> Seq<AppView> {
        Seq::empty()
    }

    fn scan(&self) -> (r: Vec<AppEntry>) {
        let r: Vec<AppEntry> = Vec::new();
        assert(app_views(r@) =~= Seq::<AppView>::empty());
        r
    }
}

/// The scanner of a platform.
#[derive(Debug)]
pub enum PlatformScanner {
    StartMenu(WinAppsScanner),
    Nothing(NoopScanner),
}

impl AppScanner for PlatformScanner {
    open spec fn apps(&self) -> Seq<AppView> {
        match *self {
            PlatformScanner::StartMenu(scanner) => scanner.apps(),
            PlatformScanner::Nothing(scanner) => scanner.apps(),
        }
    }

    fn scan(&self) -> (r: Vec<AppEntry>) {
        match self {
            PlatformScanner::StartMenu(scanner) => scanner.scan(),
            PlatformScanner::Nothing(scanner) => scanner.scan(),
        }
    }
}

/// The scanner of the platform: the Start Menu scanner where shortcuts could be
/// looked for, else one that finds nothing.
pub fn platform_scanner(shortcuts: Option<Vec<Shortcut>>) -> (r: PlatformScanner)
    ensures
        r.apps() == (match shortcuts {
            Some(shortcuts) => shortcut_apps(shortcut_views(shortcuts@)),
            None => Seq::empty(),
        }),
{
    match shortcuts {
        Some(shortcuts) => PlatformScanner::StartMenu(WinAppsScanner::new(shortcuts)),
        None => PlatformScanner::Nothing(NoopScanner),
    }
}

/// A scan lists executables only, and none twice.
pub proof fn scan_lists_each_executable_once(links: Seq<ShortcutView>)
    ensures
        app_paths(shortcut_apps(links)).no_duplicates(),
        forall|i: int|
            0 <= i < shortcut_apps(links).len() ==> has_extension(
                (#[trigger] shortcut_apps(links)[i]).path,
                "exe"@,
            ),
    decreases links.len(),
{
    if links.len() > 0 {
        let before = shortcut_apps(links.drop_last());
        scan_lists_each_executable_once(links.drop_last());
        let now = shortcut_apps(links);
        if now != before {
            let target = links.last().target->0;
            assert(app_paths(now) =~= app_paths(before).push(target));
        }
    }
}

} // verus!

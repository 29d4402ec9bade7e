//! What is kept between runs: when applications were last scanned, which of
//! them are still there, and what goes into the clipboard history.

use vstd::prelude::*;

use crate::engine::{app_views, AppEntry, AppView};
use crate::text::{
    all_digits, byte_len, chars_of, is_whitespace, number, parse_digits, same, string_of, trim_end,
    utf8_len, views,
};

verus! {

/// How long a scan of the applications is trusted, in seconds.
pub const SCAN_CACHE_TTL: u64 = 86_400;

/// The setting that holds the time of the last scan.
pub const LAST_SCAN_SETTING: &'static str = "last_scan";

/// The longest clipboard text that is recorded, in bytes.
pub const MAX_TEXT_LEN: usize = 100_000;

/// The number of clipboard texts that are kept.
pub const CLIPBOARD_HISTORY_LIMIT: i64 = 50;

/// The number that a setting writes down in decimal, with an optional plus.
pub open spec fn stored_number(s: Seq<char>) -> Option<int> {
    let d = if s.len() > 0 && s[0] == '+' {
        s.skip(1)
    } else {
        s
    };
    if d.len() > 0 && all_digits(d) && number(d) <= u64::MAX {
        Some(number(d))
    } else {
        None
    }
}

/// The number that a setting writes down.
fn read_number(s: &str) -> (r: Option<u64>)
    ensures
        match r {
            Some(n) => stored_number(s@) == Some(n as int),
            None => stored_number(s@) is None,
        },
{
    let v = chars_of(s);
    let mut start: usize = 0;
    if v.len() > 0 && v[0] == '+' {
        start = 1;
        assert(s@.skip(1) =~= v@.subrange(1, v.len() as int));
    } else {
        assert(s@ =~= v@.subrange(0, v.len() as int));
    }
    parse_digits(&v, start, v.len(), u64::MAX)
}

/// Whether the applications that a scan found can be trusted at the time `now`,
/// in nanoseconds since 1970. `last_scan` is the stored time of the scan, in
/// seconds; a time that is yet to come is not trusted.
pub open spec fn scan_is_fresh(last_scan: Option<Seq<char>>, now: int) -> bool {
    match last_scan {
        Some(s) => match stored_number(s) {
            Some(t) => 0 <= now - t * 1_000_000_000 < SCAN_CACHE_TTL * 1_000_000_000,
            None => false,
        },
        None => false,
    }
}

/// Whether the applications that a scan found can be trusted.
pub fn is_cache_fresh(last_scan: Option<&str>, now: u128) -> (r: bool)
    ensures
        r == scan_is_fresh(
            match last_scan {
                Some(s) => Some(s@),
                None => None,
            },
            now as int,
        ),
{
    match last_scan {
        Some(s) => match read_number(s) {
            Some(t) => {
                let at: u128 = t as u128 * 1_000_000_000;
                now >= at && now - at < SCAN_CACHE_TTL as u128 * 1_000_000_000
            },
            None => false,
        },
        None => false,
    }
}

/// The paths of applications.
pub open spec fn paths_of(apps: Seq<AppView>) -> Seq<Seq<char>> {
    apps.map_values(|a: AppView| a.path)
}

/// The stored paths that a scan did not find, in order.
pub open spec fn unseen(stored: Seq<Seq<char>>, found: Seq<Seq<char>>) -> Seq<Seq<char>>
    decreases stored.len(),
{
    if stored.len() == 0 {
        stored
    } else {
        let rest = unseen(stored.drop_last(), found);
        if found.contains(stored.last()) {
            rest
        } else {
            rest.push(stored.last())
        }
    }
}

/// Whether a path is that of one of the applications.
fn has_path(apps: &Vec<AppEntry>, path: &str) -> (r: bool)
    ensures
        r == paths_of(app_views(apps@)).contains(path@),
{
    let ghost paths = paths_of(app_views(apps@));
    let mut i: usize = 0;
    while i < apps.len()
        invariant
            i <= apps.len(),
            paths == paths_of(app_views(apps@)),
            forall|j: int| 0 <= j < i ==> #[trigger] paths[j] != path@,
        decreases apps.len() - i,
    {
        if same(apps[i].path.as_str(), path) {
            assert(paths[i as int] == path@);
            return true;
        }
        i += 1;
    }
    false
}

/// The stored paths that a scan did not find: these are to be removed.
pub fn stale_paths(stored: &Vec<String>, found: &Vec<AppEntry>) -> (r: Vec<String>)
    ensures
        views(r@) == unseen(views(stored@), paths_of(app_views(found@))),
{
    let ghost all = views(stored@);
    let ghost paths = paths_of(app_views(found@));
    let mut r: Vec<String> = Vec::new();
    assert(all.take(0) =~= Seq::<Seq<char>>::empty());
    assert(views(r@) =~= Seq::<Seq<char>>::empty());
    let mut i: usize = 0;
    while i < stored.len()
        invariant
            i <= stored.len(),
            all == views(stored@),
            paths == paths_of(app_views(found@)),
            views(r@) == unseen(all.take(i as int), paths),
        decreases stored.len() - i,
    {
        assert(all.take(i + 1).drop_last() =~= all.take(i as int));
        assert(all.take(i + 1).last() == stored@[i as int]@);
        if !has_path(found, stored[i].as_str()) {
            let ghost before = views(r@);
            r.push(stored[i].clone());
            assert(views(r@) =~= before.push(stored@[i as int]@));
        }
        i += 1;
    }
    assert(all.take(all.len() as int) =~= all);
    r
}

proof fn lemma_unseen(stored: Seq<Seq<char>>, found: Seq<Seq<char>>, p: Seq<char>)
    ensures
        unseen(stored, found).contains(p) <==> stored.contains(p) && !found.contains(p),
    decreases stored.len(),
{
    if stored.len() > 0 {
        let before = stored.drop_last();
        lemma_unseen(before, found, p);
        let u = unseen(before, found);
        let now = unseen(stored, found);
        if stored.contains(p) {
            let i = choose|i: int| 0 <= i < stored.len() && stored[i] == p;
            if i < before.len() {
                assert(before[i] == p);
            }
        }
        if before.contains(p) {
            let i = choose|i: int| 0 <= i < before.len() && before[i] == p;
            assert(stored[i] == p);
        }
        if u.contains(p) {
            let i = choose|i: int| 0 <= i < u.len() && u[i] == p;
            assert(now[i] == p);
        }
        if now.contains(p) {
            let i = choose|i: int| 0 <= i < now.len() && now[i] == p;
            if i < u.len() {
                assert(u[i] == p);
            }
        }
        if p == stored.last() && !found.contains(p) {
            assert(now[now.len() - 1] == p);
            assert(stored[stored.len() - 1] == p);
        }
    }
}

/// Once the applications that a scan found are stored and the stale paths are
/// removed, exactly the paths that the scan found are stored.
pub proof fn scan_leaves_what_it_found(
    stored: Seq<Seq<char>>,
    found: Seq<Seq<char>>,
    p: Seq<char>,
)
    ensures
        ((stored.contains(p) || found.contains(p)) && !unseen(stored + found, found).contains(p))
            <==> found.contains(p),
{
    lemma_unseen(stored + found, found, p);
    let both = stored + found;
    if stored.contains(p) {
        let i = choose|i: int| 0 <= i < stored.len() && stored[i] == p;
        assert(both[i] == p);
    }
}

/// Records clipboard texts, each change once.
pub struct ClipboardRecorder {
    last: Option<String>,
}

impl View for ClipboardRecorder {
    type V = Option<Seq<char>>;

    /// The text that was recorded last.
    closed spec fn view(&self) -> Option<Seq<char>> {
        crate::text::opt_view(self.last)
    }
}

/// The text to record of what is on the clipboard: without white space at its
/// end, not empty, not too long, and not the text that was recorded last.
pub open spec fn recorded(last: Option<Seq<char>>, text: Seq<char>) -> Option<Seq<char>> {
    let t = trim_end(text);
    if t.len() > 0 && byte_len(t) <= MAX_TEXT_LEN && last != Some(t) {
        Some(t)
    } else {
        None
    }
}

/// `s` without the white space at its end.
fn trimmed_end(s: &str) -> (r: String)
    ensures
        r@ == trim_end(s@),
{
    let v = chars_of(s);
    let mut n: usize = v.len();
    assert(v@.take(n as int) =~= v@);
    while n > 0 && is_whitespace(v[n - 1])
        invariant
            n <= v.len(),
            trim_end(v@) == trim_end(v@.take(n as int)),
        ensures
            n <= v.len(),
            trim_end(v@) == v@.take(n as int),
        decreases n,
    {
        assert(v@.take(n as int).drop_last() =~= v@.take(n - 1));
        n -= 1;
    }
    let r = string_of(&v, 0, n);
    assert(r@ =~= v@.take(n as int));
    r
}

impl ClipboardRecorder {
    /// A recorder that has recorded nothing.
    pub fn new() -> (r: Self)
        ensures
            r@ is None,
    {
        ClipboardRecorder { last: None }
    }

    /// Takes what is on the clipboard, and gives the text to record.
    pub fn observe(&mut self, text: &str) -> (r: Option<String>)
        ensures
            crate::text::opt_view(r) == recorded(old(self)@, text@),
            final(self)@ == (match recorded(old(self)@, text@) {
                Some(t) => Some(t),
                None => old(self)@,
            }),
    {
        let t = trimmed_end(text);
        if t.as_str().unicode_len() == 0 || utf8_len(t.as_str()) > MAX_TEXT_LEN {
            return None;
        }
        if let Some(last) = &self.last {
            if same(last.as_str(), t.as_str()) {
                return None;
            }
        }
        self.last = Some(t.clone());
        Some(t)
    }
}

/// Copying the same text again records nothing.
pub proof fn duplicates_are_recorded_once(last: Option<Seq<char>>, text: Seq<char>)
    requires
        recorded(last, text) is Some,
    ensures
        recorded(recorded(last, text), text) is None,
{
}

} // verus!

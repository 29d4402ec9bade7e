//! What the launcher asks of the desktop: how targets are opened, how icons and
//! paths are prepared, and when the launcher hides by itself.

use vstd::prelude::*;

use crate::search::{ascii_lowercase, to_ascii_lowercase};
use crate::text::{chars_of, find, find_from, has_prefix, same, starts_with, string_of};

verus! {

/// How an application is started.
#[derive(Debug, Clone, Copy, PartialEq, Eq, Structural)]
pub enum LaunchRoute {
    /// By the shell, which resolves shortcuts and its own names.
    Shell,
    /// As a process of its own, in its own directory; by the shell where that fails.
    Process,
}

/// Whether `s` ends with `t`.
pub open spec fn has_suffix(s: Seq<char>, t: Seq<char>) -> bool {
    t.len() <= s.len() && s.skip(s.len() - t.len()) == t
}

/// Whether a target can only be opened by the shell: its own names, and shortcuts.
pub open spec fn needs_shell(path: Seq<char>) -> bool {
    has_prefix(path, "shell:"@) || has_suffix(ascii_lowercase(path), ".lnk"@)
}

/// Whether `s` ends with `t`.
pub fn ends_with(s: &str, t: &str) -> (r: bool)
    ensures
        r == has_suffix(s@, t@),
{
    let v = chars_of(s);
    let w = chars_of(t);
    if w.len() > v.len() {
        return false;
    }
    let tail = string_of(&v, v.len() - w.len(), v.len());
    assert(tail@ =~= s@.skip(s@.len() - t@.len()));
    same(tail.as_str(), t)
}

/// How an application is started.
pub fn launch_route(path: &str) -> (r: LaunchRoute)
    ensures
        r == (if needs_shell(path@) {
            LaunchRoute::Shell
        } else {
            LaunchRoute::Process
        }),
{
    if starts_with(path, "shell:") {
        return LaunchRoute::Shell;
    }
    let lower = to_ascii_lowercase(path);
    if ends_with(lower.as_str(), ".lnk") {
        LaunchRoute::Shell
    } else {
        LaunchRoute::Process
    }
}

/// The address to hand to the browser: one without a scheme gets `http://` in
/// front, or the shell would take it for a path.
pub open spec fn browser_url(url: Seq<char>) -> Seq<char> {
    if find_from(url, "://"@, 0) is Some {
        url
    } else {
        "http://"@ + url
    }
}

/// The address to hand to the browser.
pub fn url_to_open(url: &str) -> (r: String)
    ensures
        r@ == browser_url(url@),
{
    let v = chars_of(url);
    let mark = chars_of("://");
    if find(&v, &mark).is_some() {
        url.to_owned()
    } else {
        let mut r = "http://".to_owned();
        r.append(url);
        r
    }
}

/// The place of the first `%`, from `i` on.
pub open spec fn percent_place(s: Seq<char>, i: int) -> Option<int>
    decreases s.len() - i,
{
    if i < 0 || i >= s.len() {
        None
    } else if s[i] == '%' {
        Some(i)
    } else {
        percent_place(s, i + 1)
    }
}

/// The views of variables.
pub open spec fn var_views(v: Seq<(String, String)>) -> Seq<(Seq<char>, Seq<char>)> {
    v.map_values(|p: (String, String)| (p.0@, p.1@))
}

/// The value of a variable, whatever the case of its name.
pub open spec fn var_value(vars: Seq<(Seq<char>, Seq<char>)>, name: Seq<char>) -> Option<Seq<char>>
    decreases vars.len(),
{
    if vars.len() == 0 {
        None
    } else if ascii_lowercase(vars[0].0) == ascii_lowercase(name) {
        Some(vars[0].1)
    } else {
        var_value(vars.drop_first(), name)
    }
}

/// The text from `i` on, with `%NAME%` replaced by the value of the variable. A
/// percent sign that does not begin the name of a known variable stays.
pub open spec fn expanded(s: Seq<char>, vars: Seq<(Seq<char>, Seq<char>)>, i: int) -> Seq<char>
    decreases s.len() - i,
{
    if i < 0 || i >= s.len() {
        Seq::empty()
    } else if s[i] != '%' {
        seq![s[i]] + expanded(s, vars, i + 1)
    } else {
        match percent_place(s, i + 1) {
            Some(e) => if i < e < s.len() && var_value(vars, s.subrange(i + 1, e)) is Some {
                var_value(vars, s.subrange(i + 1, e))->0 + expanded(s, vars, e + 1)
            } else {
                seq!['%'] + expanded(s, vars, i + 1)
            },
            None => seq!['%'] + expanded(s, vars, i + 1),
        }
    }
}

/// The place of the first `%`, from `i` on.
fn next_percent(v: &Vec<char>, i: usize) -> (r: Option<usize>)
    requires
        i <= v.len(),
    ensures
        match r {
            Some(e) => percent_place(v@, i as int) == Some(e as int) && i <= e < v.len(),
            None => percent_place(v@, i as int) is None,
        },
{
    let mut e: usize = i;
    while e < v.len()
        invariant
            i <= e <= v.len(),
            percent_place(v@, i as int) == percent_place(v@, e as int),
        decreases v.len() - e,
    {
        if v[e] == '%' {
            return Some(e);
        }
        e += 1;
    }
    None
}

/// The value of a variable, whatever the case of its name.
fn lookup(vars: &Vec<(String, String)>, name: &str) -> (r: Option<String>)
    ensures
        crate::text::opt_view(r) == var_value(var_views(vars@), name@),
{
    let ghost all = var_views(vars@);
    let want = to_ascii_lowercase(name);
    assert(all.skip(0) =~= all);
    let mut i: usize = 0;
    while i < vars.len()
        invariant
            i <= vars.len(),
            all == var_views(vars@),
            want@ == ascii_lowercase(name@),
            var_value(all, name@) == var_value(all.skip(i as int), name@),
        decreases vars.len() - i,
    {
        let ghost rest = all.skip(i as int);
        assert(rest[0] == (vars@[i as int].0@, vars@[i as int].1@));
        assert(rest.drop_first() =~= all.skip(i + 1));
        let have = to_ascii_lowercase(vars[i].0.as_str());
        if same(have.as_str(), want.as_str()) {
            return Some(vars[i].1.clone());
        }
        i += 1;
    }
    None
}

/// The text with `%NAME%` replaced by the values of variables, as far as they
/// are known.
pub fn expand_env_vars(text: &str, vars: &Vec<(String, String)>) -> (r: String)
    ensures
        r@ == expanded(text@, var_views(vars@), 0),
{
    let ghost env = var_views(vars@);
    let v = chars_of(text);
    let mut r = String::new();
    assert(r@ + expanded(text@, env, 0) =~= expanded(text@, env, 0));
    let mut i: usize = 0;
    while i < v.len()
        invariant
            i <= v.len(),
            v@ == text@,
            env == var_views(vars@),
            expanded(text@, env, 0) == r@ + expanded(text@, env, i as int),
        decreases v.len() - i,
    {
        let ghost before = r@;
        let c = v[i];
        if c == '%' {
            if let Some(e) = next_percent(&v, i + 1) {
                let name = string_of(&v, i + 1, e);
                if let Some(value) = lookup(vars, name.as_str()) {
                    r.append(value.as_str());
                    proof {
                        assert(before + (value@ + expanded(text@, env, e + 1)) =~= r@ + expanded(
                            text@,
                            env,
                            e + 1,
                        ));
                    }
                    i = e + 1;
                    continue ;
                }
            }
        }
        r.push(c);
        proof {
            assert(before + (seq![c] + expanded(text@, env, i + 1)) =~= r@ + expanded(
                text@,
                env,
                i + 1,
            ));
        }
        i += 1;
    }
    assert(r@ + Seq::<char>::empty() =~= r@);
    r
}

/// Pixels with red and blue changed places. What is left of an incomplete pixel
/// is zero.
pub open spec fn swapped(pixels: Seq<u8>) -> Seq<u8> {
    Seq::new(
        pixels.len(),
        |i: int|
            if i >= pixels.len() / 4 * 4 {
                0
            } else if i % 4 == 0 {
                pixels[i + 2]
            } else if i % 4 == 2 {
                pixels[i - 2]
            } else {
                pixels[i]
            },
    )
}

/// Pixels of blue, green, red and alpha as pixels of red, green, blue and alpha.
pub fn bgra_to_rgba(bgra: &Vec<u8>) -> (r: Vec<u8>)
    ensures
        r@ == swapped(bgra@),
{
    let n: usize = bgra.len();
    let whole: usize = n / 4 * 4;
    let mut r: Vec<u8> = Vec::new();
    let mut i: usize = 0;
    while i < n
        invariant
            i <= n,
            n == bgra.len(),
            whole == n / 4 * 4,
            whole <= n,
            r@ == swapped(bgra@).take(i as int),
        decreases n - i,
    {
        let b: u8 = if i >= whole {
            0
        } else if i % 4 == 0 {
            bgra[i + 2]
        } else if i % 4 == 2 {
            bgra[i - 2]
        } else {
            bgra[i]
        };
        r.push(b);
        i += 1;
        assert(r@ =~= swapped(bgra@).take(i as int));
    }
    assert(r@ =~= swapped(bgra@));
    r
}

/// Changing red and blue twice gives the pixels as they were.
pub proof fn swapping_twice_restores(pixels: Seq<u8>)
    requires
        pixels.len() % 4 == 0,
    ensures
        swapped(swapped(pixels)) == pixels,
{
    let once = swapped(pixels);
    assert forall|i: int| 0 <= i < pixels.len() implies swapped(once)[i] == pixels[i] by {
        if i % 4 == 0 {
            assert(once[i + 2] == pixels[i]);
        } else if i % 4 == 2 {
            assert(once[i - 2] == pixels[i]);
        }
    }
    assert(swapped(once) =~= pixels);
}

/// Watches which window is in front while the launcher is shown.
#[derive(Debug, Clone, Copy, PartialEq, Eq, Structural)]
pub struct ForegroundWatch {
    /// The window that was in front at the last look; `None` before the first
    /// look since the launcher was shown.
    pub last: Option<u64>,
}

impl ForegroundWatch {
    /// A watch that has not looked yet.
    pub fn new() -> (r: Self)
        ensures
            r.last is None,
    {
        ForegroundWatch { last: None }
    }

    /// Takes a look: whether the launcher is shown, which window it is, which
    /// window is in front, and whether the mouse is over the launcher. Tells
    /// whether the launcher hides: it does when another window comes to the
    /// front, but not at the first look, and not while the mouse is over it.
    pub fn look(&mut self, shown: bool, launcher: u64, front: u64, mouse_over: bool) -> (r: bool)
        ensures
            final(self).last == (if shown {
                Some(front)
            } else {
                None
            }),
            r == (shown && (old(self).last matches Some(previous) && previous != front) && front
                != launcher && !mouse_over),
    {
        if !shown {
            self.last = None;
            return false;
        }
        let moved = match self.last {
            Some(previous) => previous != front,
            None => false,
        };
        self.last = Some(front);
        moved && front != launcher && !mouse_over
    }
}

/// What summoning the launcher does.
#[derive(Debug, Clone, Copy, PartialEq, Eq, Structural)]
pub enum Summon {
    Hide,
    Show,
    /// Open the window, then show it.
    Open,
}

/// What summoning the launcher does: it opens it where there is no window,
/// hides it where it is shown, and shows it where it is not.
pub fn toggle_launcher(open: bool, shown: bool) -> (r: Summon)
    ensures
        r == (if !open {
            Summon::Open
        } else if shown {
            Summon::Hide
        } else {
            Summon::Show
        }),
{
    if !open {
        Summon::Open
    } else if shown {
        Summon::Hide
    } else {
        Summon::Show
    }
}

} // verus!

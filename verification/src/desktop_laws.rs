//! Which icons are extracted when, and how applications and addresses are opened.

use vstd::prelude::*;

use crate::desktop::{
    browser_url, expanded, has_suffix, needs_shell, percent_place, swapped, var_value,
};
use crate::icons::{icon_from, in_view, listed, paths_later, rows_now, IconSourceView};
use crate::results::ItemView;
use crate::search::ascii_lowercase;
use crate::text::{find_from, has_prefix};
use crate::text_laws::{stands_at, texts_are_found_where_they_first_stand};

verus! {

/// An application has its own icon, a row of a plugin that of the plugin, and other rows
/// have none.
pub proof fn rows_have_icons(row: ItemView)
    ensures
        match row {
            ItemView::App(app) => icon_from(row) == Some(IconSourceView::App(app.path)),
            ItemView::Plugin { plugin_id, .. } => icon_from(row) == Some(
                IconSourceView::Plugin(plugin_id),
            ),
            ItemView::Calendar { plugin_id, .. } => icon_from(row) == Some(
                IconSourceView::Plugin(plugin_id),
            ),
            ItemView::Command { plugin_id, .. } => icon_from(row) == Some(
                IconSourceView::Plugin(plugin_id),
            ),
            _ => icon_from(row) is None,
        },
{
}

/// The icons that are extracted at once are those of the first eight rows for which none
/// is at hand, in order.
pub proof fn rows_in_view_get_their_icons_at_once(
    paths: Seq<Seq<char>>,
    known: Map<Seq<char>, bool>,
    n: int,
)
    requires
        0 <= n <= paths.len(),
    ensures
        ({
            let now = rows_now(paths, known, n);
            &&& forall|i: int|
                now.contains(i) <==> 0 <= i < n && i < 8 && !(known.contains_key(paths[i])
                    && known[paths[i]])
            &&& forall|i: int, j: int| 0 <= i < j < now.len() ==> #[trigger] now[i] < #[trigger] now[j]
        }),
    decreases n,
{
    if n > 0 {
        rows_in_view_get_their_icons_at_once(paths, known, n - 1);
        let a = rows_now(paths, known, n - 1);
        let b = rows_now(paths, known, n);
        assert forall|i: int| b.contains(i) <==> 0 <= i < n && i < 8 && !(known.contains_key(
            paths[i],
        ) && known[paths[i]]) by {
            if b.contains(i) {
                let k = choose|k: int| 0 <= k < b.len() && b[k] == i;
                if k < a.len() {
                    assert(a[k] == i);
                    assert(a.contains(i));
                }
            }
            if a.contains(i) {
                let k = choose|k: int| 0 <= k < a.len() && a[k] == i;
                assert(b[k] == i);
            }
            if i == n - 1 && i < 8 && !(known.contains_key(paths[i]) && known[paths[i]]) {
                assert(b[b.len() - 1] == i);
            }
        }
        assert forall|i: int, j: int| 0 <= i < j < b.len() implies #[trigger] b[i]
            < #[trigger] b[j] by {
            assert(b[i] == a[i]);
            assert(a.contains(a[i]));
        }
    }
}

/// The icons that are extracted in the background are those of the rows further down that
/// were never tried and are not in view, in order.
#[verifier::rlimit(40)]
pub proof fn rows_out_of_view_get_their_icons_later(
    paths: Seq<Seq<char>>,
    known: Map<Seq<char>, bool>,
    n: int,
) -> (places: Seq<int>)
    requires
        0 <= n <= paths.len(),
    ensures
        ({
            let later = paths_later(paths, known, n);
            &&& later.len() == places.len()
            &&& forall|i: int| 0 <= i < places.len() ==> #[trigger] later[i] == paths[places[i]]
            &&& forall|i: int, j: int|
                0 <= i < j < places.len() ==> #[trigger] places[i] < #[trigger] places[j]
            &&& forall|i: int| 0 <= i < places.len() ==> 8 <= #[trigger] places[i] < n
            &&& forall|i: int|
                8 <= i < n ==> (#[trigger] places.contains(i) <==> !known.contains_key(paths[i])
                    && !(exists|k: int| 0 <= k < 8 && #[trigger] paths[k] == paths[i]))
        }),
    decreases n,
{
    if n <= 8 {
        Seq::empty()
    } else {
        let p0 = rows_out_of_view_get_their_icons_later(paths, known, n - 1);
        let m = n - 1;
        let a = paths_later(paths, known, m);
        let b = paths_later(paths, known, n);
        let shown = in_view(paths);
        assert(listed(shown, paths[m]) <==> exists|k: int|
            0 <= k < 8 && #[trigger] paths[k] == paths[m]) by {
            if listed(shown, paths[m]) {
                let k = choose|k: int| 0 <= k < shown.len() && #[trigger] shown[k] == paths[m];
                assert(paths[k] == paths[m]);
            }
            if exists|k: int| 0 <= k < 8 && #[trigger] paths[k] == paths[m] {
                let k = choose|k: int| 0 <= k < 8 && #[trigger] paths[k] == paths[m];
                assert(shown[k] == paths[m]);
            }
        }
        let taken = !known.contains_key(paths[m]) && !listed(shown, paths[m]);
        let p = if taken {
            p0.push(m)
        } else {
            p0
        };
        assert forall|i: int| 8 <= i < n implies (#[trigger] p.contains(i) <==> !known.contains_key(
            paths[i],
        ) && !(exists|k: int| 0 <= k < 8 && #[trigger] paths[k] == paths[i])) by {
            if i < m {
                assert(p0.contains(i) <==> !known.contains_key(paths[i]) && !(exists|k: int|
                    0 <= k < 8 && #[trigger] paths[k] == paths[i]));
                if p0.contains(i) {
                    let k = choose|k: int| 0 <= k < p0.len() && p0[k] == i;
                    assert(p[k] == i);
                }
                if p.contains(i) {
                    let k = choose|k: int| 0 <= k < p.len() && p[k] == i;
                    assert(p0[k] == i);
                }
            } else {
                if taken {
                    assert(p[p.len() - 1] == m);
                } else if p.contains(m) {
                    let k = choose|k: int| 0 <= k < p.len() && p[k] == m;
                    assert(p0[k] == m);
                }
            }
        }
        assert forall|i: int| 0 <= i < p.len() implies #[trigger] b[i] == paths[p[i]] by {
            if i < p0.len() {
                assert(b[i] == a[i] && p[i] == p0[i]);
            }
        }
        p
    }
}

/// What the shell has to open is what begins with `shell:`, and shortcuts, whatever the
/// case of their extension.
pub proof fn shell_opens_shortcuts(path: Seq<char>, rest: Seq<char>)
    ensures
        needs_shell("shell:"@ + rest),
        needs_shell(path) <==> has_prefix(path, "shell:"@) || (path.len() >= 4 && {
            let n = path.len();
            &&& path[n - 4] == '.'
            &&& path[n - 3] == 'l' || path[n - 3] == 'L'
            &&& path[n - 2] == 'n' || path[n - 2] == 'N'
            &&& path[n - 1] == 'k' || path[n - 1] == 'K'
        }),
{
    reveal_strlit("shell:");
    assert(("shell:"@ + rest).take(6) =~= "shell:"@);
    reveal_strlit(".lnk");
    let lower = ascii_lowercase(path);
    let n = path.len() as int;
    assert(".lnk"@.len() == 4);
    if n >= 4 {
        let tail = lower.skip(n - 4);
        assert(tail[0] == lower[n - 4] && tail[1] == lower[n - 3] && tail[2] == lower[n - 2]
            && tail[3] == lower[n - 1]);
        lemma_lower(path[n - 4], '.');
        lemma_lower(path[n - 3], 'l');
        lemma_lower(path[n - 2], 'n');
        lemma_lower(path[n - 1], 'k');
        if has_suffix(lower, ".lnk"@) {
            assert(tail == ".lnk"@);
        }
        if path[n - 4] == '.' && (path[n - 3] == 'l' || path[n - 3] == 'L') && (path[n - 2] == 'n'
            || path[n - 2] == 'N') && (path[n - 1] == 'k' || path[n - 1] == 'K') {
            assert(tail =~= ".lnk"@);
        }
    }
}

proof fn lemma_lower(c: char, d: char)
    requires
        d == '.' || d == 'l' || d == 'n' || d == 'k',
    ensures
        crate::search::ascii_lower(c) == d <==> c == d || (d == 'l' && c == 'L') || (d == 'n' && c
            == 'N') || (d == 'k' && c == 'K'),
{
    if 'A' <= c && c <= 'Z' {
        let e = crate::search::ascii_lower(c);
        assert(e as u32 == c as u32 + 32);
        if e == 'l' {
            lemma_same_char(c, 'L');
        }
        if e == 'n' {
            lemma_same_char(c, 'N');
        }
        if e == 'k' {
            lemma_same_char(c, 'K');
        }
    }
}

proof fn lemma_same_char(a: char, b: char)
    requires
        a as u32 == b as u32,
    ensures
        a == b,
{
}

/// An address with a scheme is handed to the browser as it is, any other over http.
pub proof fn addresses_go_to_the_browser(url: Seq<char>)
    ensures
        (exists|i: int| #[trigger] stands_at(url, "://"@, i)) ==> browser_url(url) == url,
        (forall|i: int| !#[trigger] stands_at(url, "://"@, i)) ==> browser_url(url) == "http://"@
            + url,
{
    texts_are_found_where_they_first_stand(url, "://"@, 0);
    if exists|i: int| #[trigger] stands_at(url, "://"@, i) {
        let i = choose|i: int| #[trigger] stands_at(url, "://"@, i);
        if find_from(url, "://"@, 0) is None {
            assert(!stands_at(url, "://"@, i));
        }
    }
}

/// A variable is found by its name whatever the case of its letters, the first of that
/// name.
pub proof fn variables_are_found_by_name(
    vars: Seq<(Seq<char>, Seq<char>)>,
    name: Seq<char>,
    n: int,
)
    requires
        0 <= n <= vars.len(),
        forall|i: int|
            0 <= i < n ==> ascii_lowercase((#[trigger] vars[i]).0) != ascii_lowercase(name),
        n < vars.len() ==> ascii_lowercase(vars[n].0) == ascii_lowercase(name),
    ensures
        var_value(vars, name) == (if n < vars.len() {
            Some(vars[n].1)
        } else {
            None
        }),
    decreases vars.len(),
{
    if n > 0 {
        let rest = vars.drop_first();
        assert forall|i: int| 0 <= i < n - 1 implies ascii_lowercase((#[trigger] rest[i]).0)
            != ascii_lowercase(name) by {
            assert(rest[i] == vars[i + 1]);
        }
        variables_are_found_by_name(rest, name, n - 1);
    }
}

proof fn lemma_percent_shift(a: Seq<char>, s: Seq<char>, i: int)
    requires
        0 <= i,
    ensures
        percent_place(a + s, a.len() + i) == (match percent_place(s, i) {
            Some(e) => Some(a.len() + e),
            None => None,
        }),
        percent_place(s, i) matches Some(e) ==> i <= e < s.len(),
    decreases s.len() - i,
{
    if i < s.len() {
        assert((a + s)[a.len() + i] == s[i]);
        if s[i] != '%' {
            lemma_percent_shift(a, s, i + 1);
        }
    }
}

proof fn lemma_expanded_shift(
    a: Seq<char>,
    s: Seq<char>,
    vars: Seq<(Seq<char>, Seq<char>)>,
    i: int,
)
    requires
        0 <= i,
    ensures
        expanded(a + s, vars, a.len() + i) == expanded(s, vars, i),
    decreases s.len() - i,
{
    let t = a + s;
    let n = a.len() as int;
    if i < s.len() {
        assert(t[n + i] == s[i]);
        lemma_expanded_shift(a, s, vars, i + 1);
        if s[i] == '%' {
            lemma_percent_shift(a, s, i + 1);
            if let Some(e) = percent_place(s, i + 1) {
                assert(t.subrange(n + i + 1, n + e) =~= s.subrange(i + 1, e));
                lemma_expanded_shift(a, s, vars, e + 1);
            }
        }
    }
}

/// Text without a percent sign stays as it is.
pub proof fn plain_text_is_not_expanded(
    plain: Seq<char>,
    rest: Seq<char>,
    vars: Seq<(Seq<char>, Seq<char>)>,
)
    requires
        forall|i: int| 0 <= i < plain.len() ==> #[trigger] plain[i] != '%',
    ensures
        expanded(plain + rest, vars, 0) == plain + expanded(rest, vars, 0),
    decreases plain.len(),
{
    let t = plain + rest;
    if plain.len() == 0 {
        assert(t =~= rest);
        assert(plain + expanded(rest, vars, 0) =~= expanded(rest, vars, 0));
    } else {
        let more = plain.drop_first();
        assert(t[0] == plain[0]);
        assert forall|i: int| 0 <= i < more.len() implies #[trigger] more[i] != '%' by {
            assert(more[i] == plain[i + 1]);
        }
        plain_text_is_not_expanded(more, rest, vars);
        lemma_expanded_shift(seq![plain[0]], more + rest, vars, 0);
        assert(seq![plain[0]] + (more + rest) =~= t);
        assert(seq![plain[0]] + (more + expanded(rest, vars, 0)) =~= plain + expanded(
            rest,
            vars,
            0,
        ));
    }
}

/// A name between percent signs is replaced by the value of the variable where it is
/// known; where it is not, the first percent sign stays as it is.
pub proof fn known_variables_are_expanded(
    name: Seq<char>,
    rest: Seq<char>,
    vars: Seq<(Seq<char>, Seq<char>)>,
)
    requires
        forall|i: int| 0 <= i < name.len() ==> #[trigger] name[i] != '%',
    ensures
        expanded(seq!['%'] + name + seq!['%'] + rest, vars, 0) == (match var_value(vars, name) {
            Some(value) => value + expanded(rest, vars, 0),
            None => seq!['%'] + name + expanded(seq!['%'] + rest, vars, 0),
        }),
        expanded(seq!['%'] + name, vars, 0) == seq!['%'] + name,
{
    let open = seq!['%'];
    let t = open + name + open + rest;
    let n = name.len() as int;
    assert(t[0] == '%');
    lemma_next_percent(t, 1, n + 1);
    assert(t.subrange(1, n + 1) =~= name);
    match var_value(vars, name) {
        Some(value) => {
            lemma_expanded_shift(open + name + open, rest, vars, 0);
        },
        None => {
            lemma_expanded_shift(open, name + (open + rest), vars, 0);
            assert(open + (name + (open + rest)) =~= t);
            plain_text_is_not_expanded(name, open + rest, vars);
            assert(open + (name + expanded(open + rest, vars, 0)) =~= open + name + expanded(
                open + rest,
                vars,
                0,
            ));
        },
    }
    let u = open + name;
    assert(u[0] == '%');
    lemma_no_percent(u, 1);
    lemma_expanded_shift(open, name, vars, 0);
    plain_text_is_not_expanded(name, Seq::empty(), vars);
    assert(name + Seq::<char>::empty() =~= name);
    assert(name + expanded(Seq::empty(), vars, 0) =~= name);
}

proof fn lemma_next_percent(s: Seq<char>, i: int, e: int)
    requires
        0 <= i <= e < s.len(),
        s[e] == '%',
        forall|k: int| i <= k < e ==> #[trigger] s[k] != '%',
    ensures
        percent_place(s, i) == Some(e),
    decreases e - i,
{
    if i < e {
        lemma_next_percent(s, i + 1, e);
    }
}

proof fn lemma_no_percent(s: Seq<char>, i: int)
    requires
        0 <= i,
        forall|k: int| i <= k < s.len() ==> #[trigger] s[k] != '%',
    ensures
        percent_place(s, i) is None,
    decreases s.len() - i,
{
    if i < s.len() {
        lemma_no_percent(s, i + 1);
    }
}

/// Each pixel has red and blue changed, and green and alpha as they were.
pub proof fn pixels_change_red_and_blue(pixels: Seq<u8>, k: int)
    requires
        0 <= k,
        4 * k + 3 < pixels.len(),
    ensures
        swapped(pixels).len() == pixels.len(),
        swapped(pixels)[4 * k] == pixels[4 * k + 2],
        swapped(pixels)[4 * k + 1] == pixels[4 * k + 1],
        swapped(pixels)[4 * k + 2] == pixels[4 * k],
        swapped(pixels)[4 * k + 3] == pixels[4 * k + 3],
{
    assert(4 * k + 3 < pixels.len() / 4 * 4);
    assert((4 * k) % 4 == 0 && (4 * k + 1) % 4 == 1 && (4 * k + 2) % 4 == 2 && (4 * k + 3) % 4
        == 3);
}

} // verus!

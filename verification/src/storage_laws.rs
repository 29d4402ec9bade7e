//! What scans keep, change and drop, and what is recorded.

use vstd::prelude::*;

use crate::engine::AppView;
use crate::manifest::{ManifestView, MetaView};
use crate::registry::{kept, scanned, FoundView};
use crate::scanner::{
    body_start, component_end, dot_place, extension, file_name, file_stem, has_extension,
    is_verbatim, name_start, prefix_end, separates, shortcut_apps, without_tail, ShortcutView,
};
use crate::storage::{recorded, scan_is_fresh, stored_number, unseen};
use crate::text::{
    byte_len, decimal, decimal_writes_the_number, is_digit, is_white, number, trim_end,
};

verus! {

/// A directory without a valid manifest is reported with the reason, and changes
/// nothing that is known.
pub proof fn failed_plugins_are_reported(
    cached: Map<Seq<char>, MetaView>,
    found: Seq<FoundView>,
    now: i64,
    dir: Seq<char>,
    reason: Seq<char>,
)
    ensures
        ({
            let before = scanned(cached, found, now);
            let after = scanned(
                cached,
                found.push(FoundView { dir, manifest: Err(reason) }),
                now,
            );
            &&& after.failed == before.failed.push(dir + ": "@ + reason)
            &&& after.cached == before.cached && after.write == before.write
            &&& after.seen == before.seen
            &&& after.inserted == before.inserted && after.updated == before.updated
            &&& after.unchanged == before.unchanged
        }),
{
    let f = FoundView { dir, manifest: Err(reason) };
    assert(found.push(f).drop_last() =~= found);
    assert(found.push(f).last() == f);
}

/// Whether a plugin is known with all of a manifest, below a directory, as of now.
pub open spec fn known_as(meta: MetaView, dir: Seq<char>, m: ManifestView, now: i64) -> bool {
    &&& meta.manifest == m
    &&& meta.dir == dir
    &&& meta.icon == m.icon
    &&& meta.scanned_at == now
    &&& meta.entry == (if dir.len() == 0 || dir.last() == '/' {
        dir + "dist/index.js"@
    } else {
        dir + seq!['/'] + "dist/index.js"@
    })
}

/// A plugin that was not known, or was known at another version, is then known by what
/// was found, and is written down; one that was known at the same version stays as it
/// was known. All others stay.
pub proof fn found_plugins_are_taken_in(
    cached: Map<Seq<char>, MetaView>,
    found: Seq<FoundView>,
    now: i64,
    dir: Seq<char>,
    m: ManifestView,
    other: Seq<char>,
)
    ensures
        ({
            let before = scanned(cached, found, now);
            let after = scanned(cached, found.push(FoundView { dir, manifest: Ok(m) }), now);
            let known = before.cached.contains_key(m.id);
            let same = known && before.cached[m.id].manifest.version == m.version;
            &&& after.seen == before.seen.push(dir)
            &&& after.failed == before.failed
            &&& after.cached.contains_key(m.id)
            &&& other != m.id ==> after.cached.contains_key(other) == before.cached.contains_key(
                other,
            ) && after.cached[other] == before.cached[other]
            &&& same ==> after.cached == before.cached && after.write == before.write
            &&& !same ==> known_as(after.cached[m.id], dir, m, now) && after.write
                == before.write.push(after.cached[m.id])
            &&& after.unchanged == before.unchanged + if same {
                1int
            } else {
                0
            }
            &&& after.updated == before.updated + if known && !same {
                1int
            } else {
                0
            }
            &&& after.inserted == before.inserted + if known {
                0int
            } else {
                1
            }
        }),
{
    let f = FoundView { dir, manifest: Ok(m) };
    assert(found.push(f).drop_last() =~= found);
    assert(found.push(f).last() == f);
    assert(dir.push('/') + "dist/index.js"@ =~= dir + seq!['/'] + "dist/index.js"@);
}

/// A scan begins with what was known, and with nothing found.
pub proof fn scans_begin_with_what_is_known(cached: Map<Seq<char>, MetaView>, now: i64)
    ensures
        ({
            let s = scanned(cached, Seq::empty(), now);
            &&& s.cached == cached
            &&& s.write.len() == 0 && s.seen.len() == 0 && s.failed.len() == 0
            &&& s.inserted == 0 && s.updated == 0 && s.unchanged == 0
        }),
{
}

/// Of the plugins that are known, exactly those stay whose directory is there and was
/// found with a valid manifest, and they stay as they are.
pub proof fn plugins_stay_with_their_directory(
    cached: Map<Seq<char>, MetaView>,
    found: Seq<FoundView>,
    now: i64,
    present: Seq<Seq<char>>,
    id: Seq<char>,
)
    ensures
        ({
            let s = scanned(cached, found, now);
            let left = kept(s, present);
            &&& left.contains_key(id) <==> s.cached.contains_key(id) && present.contains(
                s.cached[id].dir,
            ) && s.seen.contains(s.cached[id].dir)
            &&& left.contains_key(id) ==> left[id] == s.cached[id]
        }),
{
}

/// A number that was stored in decimal, with or without a plus, is read back; what is no
/// number is not read.
pub proof fn stored_numbers_are_read_back(n: nat, s: Seq<char>)
    ensures
        n <= u64::MAX ==> stored_number(decimal(n)) == Some(n as int) && stored_number(
            seq!['+'] + decimal(n),
        ) == Some(n as int),
        (exists|i: int| 0 < i < s.len() && !is_digit(#[trigger] s[i])) ==> stored_number(s) is None,
        s.len() == 0 ==> stored_number(s) is None,
        s.len() > 0 && !is_digit(s[0]) && s[0] != '+' ==> stored_number(s) is None,
{
    decimal_writes_the_number(n);
    let d = decimal(n);
    assert(is_digit(d[0]));
    assert((seq!['+'] + d).skip(1) =~= d);
    if exists|i: int| 0 < i < s.len() && !is_digit(#[trigger] s[i]) {
        let i = choose|i: int| 0 < i < s.len() && !is_digit(#[trigger] s[i]);
        if s[0] == '+' {
            assert(s.skip(1)[i - 1] == s[i]);
        }
    }
}

/// What a scan found is trusted for a day from the time of the scan, and not before it;
/// without a stored time it is not trusted.
pub proof fn scans_are_trusted_for_a_day(t: nat, now: int)
    requires
        t <= u64::MAX,
    ensures
        scan_is_fresh(Some(decimal(t)), now) <==> t * 1_000_000_000 <= now < (t + 86_400)
            * 1_000_000_000,
        !scan_is_fresh(None, now),
{
    stored_numbers_are_read_back(t, Seq::empty());
}

/// Whether `left` are items of `all`, in the order in which they stood.
pub open spec fn left_in_order(
    left: Seq<Seq<char>>,
    all: Seq<Seq<char>>,
    places: Seq<int>,
) -> bool {
    &&& left.len() == places.len()
    &&& forall|i: int| 0 <= i < places.len() ==> 0 <= #[trigger] places[i] < all.len()
    &&& forall|i: int, j: int|
        0 <= i < j < places.len() ==> #[trigger] places[i] < #[trigger] places[j]
    &&& forall|i: int| 0 <= i < places.len() ==> #[trigger] left[i] == all[places[i]]
}

/// The paths to remove are those stored that a scan did not find, each as often as it
/// is stored, in their order.
#[verifier::rlimit(40)]
pub proof fn missed_paths_are_removed(stored: Seq<Seq<char>>, found: Seq<Seq<char>>) -> (places: Seq<
    int,
>)
    ensures
        left_in_order(unseen(stored, found), stored, places),
        forall|i: int|
            0 <= i < stored.len() ==> (#[trigger] places.contains(i) <==> !found.contains(
                stored[i],
            )),
    decreases stored.len(),
{
    if stored.len() == 0 {
        Seq::empty()
    } else {
        let fewer = stored.drop_last();
        let n = stored.len() - 1;
        let p0 = missed_paths_are_removed(fewer, found);
        let a = unseen(fewer, found);
        let b = unseen(stored, found);
        let p = if found.contains(stored[n]) {
            p0
        } else {
            p0.push(n)
        };
        assert forall|i: int| 0 <= i < stored.len() implies (#[trigger] p.contains(i)
            <==> !found.contains(stored[i])) by {
            if i < n {
                assert(fewer[i] == stored[i]);
                assert(p0.contains(i) <==> !found.contains(fewer[i]));
                if p0.contains(i) {
                    let k = choose|k: int| 0 <= k < p0.len() && p0[k] == i;
                    assert(p[k] == i);
                }
                if p.contains(i) {
                    let k = choose|k: int| 0 <= k < p.len() && p[k] == i;
                    assert(p0[k] == i);
                }
            } else {
                if !found.contains(stored[n]) {
                    assert(p[p.len() - 1] == n);
                } else if p.contains(n) {
                    let k = choose|k: int| 0 <= k < p.len() && p[k] == n;
                    assert(p0[k] == n);
                }
            }
        }
        assert forall|i: int| 0 <= i < p.len() implies #[trigger] b[i] == stored[p[i]] by {
            if i < p0.len() {
                assert(b[i] == a[i] && p[i] == p0[i]);
                assert(fewer[p0[i]] == stored[p0[i]]);
            }
        }
        p
    }
}

proof fn lemma_end(s: Seq<char>)
    ensures
        trim_end(s).len() <= s.len(),
        trim_end(s) == s.take(trim_end(s).len() as int),
        trim_end(s).len() > 0 ==> !is_white(trim_end(s).last()),
        forall|i: int| trim_end(s).len() <= i < s.len() ==> is_white(#[trigger] s[i]),
    decreases s.len(),
{
    if s.len() > 0 && is_white(s.last()) {
        let d = s.drop_last();
        lemma_end(d);
        assert(trim_end(s) =~= s.take(trim_end(s).len() as int));
        assert forall|i: int| trim_end(s).len() <= i < s.len() implies is_white(#[trigger] s[i]) by {
            if i < d.len() {
                assert(d[i] == s[i]);
            }
        }
    } else {
        assert(s.take(s.len() as int) =~= s);
    }
}

/// A text on the clipboard is recorded without the white space at its end, unless
/// nothing is left, it takes more than 100000 bytes, or it is what was recorded last.
pub proof fn clipboard_texts_are_recorded(
    last: Option<Seq<char>>,
    text: Seq<char>,
    white: Seq<char>,
)
    requires
        text.len() > 0 ==> !is_white(text[text.len() - 1]),
        forall|i: int| 0 <= i < white.len() ==> is_white(#[trigger] white[i]),
    ensures
        recorded(last, text + white) == (if text.len() == 0 || byte_len(text) > 100_000 || last
            == Some(text) {
            None
        } else {
            Some(text)
        }),
{
    let s = text + white;
    lemma_end(s);
    let t = trim_end(s);
    if t.len() < text.len() {
        assert(s[text.len() - 1] == text[text.len() - 1]);
        assert(is_white(s[text.len() - 1]));
    }
    if t.len() > text.len() {
        assert(t.last() == s[t.len() - 1]);
        assert(s[t.len() - 1] == white[t.len() - 1 - text.len()]);
    }
    assert(t =~= text);
}

/// The characters that separate the parts of a path that is not verbatim.
pub open spec fn is_slash(c: char) -> bool {
    c == '/' || c == '\\'
}

/// Whether a text can be the name of a file: it is not empty, holds no separator, and
/// is not `.` or `..`.
pub open spec fn is_plain_name(name: Seq<char>) -> bool {
    &&& name.len() > 0
    &&& forall|i: int| 0 <= i < name.len() ==> !is_slash(#[trigger] name[i])
    &&& name != seq!['.'] && name != seq!['.', '.']
}

proof fn lemma_no_tail(q: Seq<char>, verbatim: bool)
    requires
        q.len() > 0,
        !separates(q.last(), verbatim),
        !(q.len() > 1 && q.last() == '.' && separates(q[q.len() - 2], false)),
    ensures
        without_tail(q, verbatim) == q,
{
}

proof fn lemma_name_start(q: Seq<char>, n: int, m: int, verbatim: bool)
    requires
        0 <= m <= n <= q.len(),
        forall|i: int| m <= i < n ==> !separates(#[trigger] q[i], verbatim),
        m == 0 || separates(q[m - 1], verbatim),
    ensures
        name_start(q, n, verbatim) == m,
    decreases n,
{
    if n > m {
        assert(!separates(q[n - 1], verbatim));
        lemma_name_start(q, n - 1, m, verbatim);
    }
}

/// The name of a file is what stands behind the last separator of its path; behind a
/// drive too.
pub proof fn files_are_named_behind_the_last_separator(dir: Seq<char>, name: Seq<char>, slash: char)
    requires
        is_plain_name(name),
        is_slash(slash),
        !is_verbatim(dir.push(slash) + name),
        prefix_end(dir.push(slash) + name) <= dir.len(),
    ensures
        file_name(dir.push(slash) + name) == Some(name),
{
    let p = dir.push(slash) + name;
    let from = body_start(p);
    let at = dir.len() as int;
    assert(p[at] == slash);
    assert forall|i: int| at < i < p.len() implies !separates(#[trigger] p[i], false) by {
        assert(p[i] == name[i - at - 1]);
    }
    assert(from <= at + 1);
    lemma_prefix_bound(p);
    let q = p.skip(from);
    let m = at + 1 - from;
    assert(q.last() == p[p.len() - 1]);
    assert forall|i: int| m <= i < q.len() implies !separates(#[trigger] q[i], false) by {
        assert(q[i] == p[i + from]);
    }
    assert(q.skip(m) =~= name);
    if q.len() > 1 && q.last() == '.' && separates(q[q.len() - 2], false) {
        assert(q[q.len() - 2] == p[p.len() - 2]);
        if name.len() > 1 {
            assert(!separates(p[p.len() - 2], false));
        }
        assert(name.len() == 1);
        assert(name =~= seq!['.']);
    }
    lemma_no_tail(q, false);
    if m > 0 {
        assert(q[m - 1] == slash);
    }
    lemma_name_start(q, q.len() as int, m, false);
}

/// So it is in every path that does not begin with two separators, as those of servers
/// do.
pub proof fn ordinary_paths_end_in_their_name(dir: Seq<char>, name: Seq<char>, slash: char)
    requires
        is_plain_name(name),
        is_slash(slash),
        !(dir.len() >= 2 && is_slash(dir[0]) && is_slash(dir[1])),
        !(dir.len() == 1 && is_slash(dir[0])),
    ensures
        file_name(dir.push(slash) + name) == Some(name),
{
    let p = dir.push(slash) + name;
    assert(p[dir.len() as int] == slash);
    if dir.len() >= 2 {
        assert(p[0] == dir[0] && p[1] == dir[1]);
    } else if dir.len() == 1 {
        assert(p[0] == dir[0] && p[1] == slash);
    } else {
        assert(p[1] == name[0]);
        assert(!is_slash(name[0]));
    }
    files_are_named_behind_the_last_separator(dir, name, slash);
}

proof fn lemma_component_bound(p: Seq<char>, i: int, verbatim: bool)
    requires
        0 <= i <= p.len(),
    ensures
        i <= component_end(p, i, verbatim) <= p.len(),
    decreases p.len() - i,
{
    if i < p.len() && !separates(p[i], verbatim) {
        lemma_component_bound(p, i + 1, verbatim);
    }
}

proof fn lemma_prefix_bound(p: Seq<char>)
    ensures
        0 <= prefix_end(p) <= p.len(),
        0 <= body_start(p) <= p.len(),
{
    if p.len() >= 2 {
        lemma_component_bound(p, 2, false);
        let server = component_end(p, 2, false);
        if server < p.len() {
            lemma_component_bound(p, server + 1, false);
        }
    }
    if p.len() >= 8 {
        lemma_component_bound(p, 8, true);
        let server = component_end(p, 8, true);
        if server < p.len() {
            lemma_component_bound(p, server + 1, true);
        }
    }
    if p.len() >= 4 {
        lemma_component_bound(p, 4, true);
    }
}

/// Behind a drive the name of a file follows too.
pub proof fn names_follow_a_drive(drive: char, name: Seq<char>)
    requires
        is_plain_name(name),
        ('a' <= drive && drive <= 'z') || ('A' <= drive && drive <= 'Z'),
    ensures
        file_name(seq![drive, ':'] + name) == Some(name),
        file_name(seq![drive, ':']) is None,
{
    let p = seq![drive, ':'] + name;
    assert(p[0] == drive && p[1] == ':' && p[2] == name[0]);
    assert(!is_slash(name[0]));
    assert(prefix_end(p) == 2);
    assert(body_start(p) == 2);
    assert(p.skip(2) =~= name);
    assert forall|i: int| 0 <= i < name.len() implies !separates(#[trigger] name[i], false) by {
        assert(!is_slash(name[i]));
    }
    if name.len() > 1 {
        assert(!is_slash(name[name.len() - 2]));
    }
    lemma_no_tail(name, false);
    lemma_name_start(name, name.len() as int, 0, false);
    assert(name.skip(0) =~= name);
    let d = seq![drive, ':'];
    assert(prefix_end(d) == 2);
    assert(d.skip(2) =~= Seq::<char>::empty());
    assert(without_tail(Seq::<char>::empty(), false) =~= Seq::<char>::empty());
}

/// A path without a separator and a colon is the name of a file by itself.
pub proof fn plain_names_are_file_names(name: Seq<char>)
    requires
        is_plain_name(name),
        forall|i: int| 0 <= i < name.len() ==> #[trigger] name[i] != ':',
    ensures
        file_name(name) == Some(name),
{
    assert(!is_slash(name[0]));
    if name.len() >= 2 {
        assert(name[1] != ':');
    }
    assert(prefix_end(name) == 0);
    assert(body_start(name) == 0);
    assert(name.skip(0) =~= name);
    assert forall|i: int| 0 <= i < name.len() implies !separates(#[trigger] name[i], false) by {
        assert(!is_slash(name[i]));
    }
    if name.len() > 1 {
        assert(!is_slash(name[name.len() - 2]));
    }
    lemma_no_tail(name, false);
    lemma_name_start(name, name.len() as int, 0, false);
}

proof fn lemma_dot(name: Seq<char>, n: int)
    requires
        0 <= n <= name.len(),
    ensures
        match dot_place(name, n) {
            Some(i) => 1 <= i < n && name[i] == '.' && forall|j: int|
                i < j < n ==> #[trigger] name[j] != '.',
            None => forall|j: int| 1 <= j < n ==> #[trigger] name[j] != '.',
        },
    decreases n,
{
    if n > 1 && name[n - 1] != '.' {
        lemma_dot(name, n - 1);
    }
}

/// The extension of a file is what follows the last dot of its name, unless that is the
/// first character; the rest before that dot is its stem. A name without such a dot has
/// no extension, and is its own stem.
pub proof fn extensions_follow_the_last_dot(p: Seq<char>)
    requires
        file_name(p) is Some,
    ensures
        match (file_stem(p), extension(p)) {
            (Some(stem), Some(e)) => {
                &&& file_name(p) == Some(stem + seq!['.'] + e)
                &&& stem.len() > 0
                &&& forall|i: int| 0 <= i < e.len() ==> #[trigger] e[i] != '.'
            },
            (Some(stem), None) => {
                &&& file_name(p) == Some(stem)
                &&& forall|i: int| 1 <= i < stem.len() ==> #[trigger] stem[i] != '.'
            },
            _ => false,
        },
{
    let name = file_name(p)->0;
    lemma_dot(name, name.len() as int);
    if let Some(i) = dot_place(name, name.len() as int) {
        let stem = name.take(i);
        let e = name.skip(i + 1);
        assert(name =~= stem + seq!['.'] + e);
        assert forall|k: int| 0 <= k < e.len() implies #[trigger] e[k] != '.' by {
            assert(e[k] == name[i + 1 + k]);
        }
    }
}

/// A path that names no file has neither stem nor extension.
pub proof fn directories_have_no_extension(p: Seq<char>, want: Seq<char>)
    ensures
        file_name(p) is None ==> file_stem(p) is None && extension(p) is None && !has_extension(
            p,
            want,
        ),
{
}

/// A path has an extension whatever the case of its letters.
pub proof fn extensions_go_by_letters_in_any_case(p: Seq<char>, want: Seq<char>)
    requires
        extension(p) is Some,
    ensures
        has_extension(p, want) <==> {
            let e = extension(p)->0;
            &&& e.len() == want.len()
            &&& forall|i: int|
                0 <= i < e.len() ==> (#[trigger] want[i]) as u32 == e[i] as u32 + if 'A' <= e[i]
                    && e[i] <= 'Z' {
                    32int
                } else {
                    0
                }
        },
{
    let e = extension(p)->0;
    let lower = crate::search::ascii_lowercase(e);
    if e.len() == want.len() && (forall|i: int|
        0 <= i < e.len() ==> (#[trigger] want[i]) as u32 == e[i] as u32 + if 'A' <= e[i] && e[i]
            <= 'Z' {
            32int
        } else {
            0
        }) {
        assert forall|i: int| 0 <= i < e.len() implies lower[i] == want[i] by {
            lemma_same_char(lower[i], want[i]);
        }
        assert(lower =~= want);
    }
    if lower == want {
        assert forall|i: int| 0 <= i < e.len() implies (#[trigger] want[i]) as u32 == e[i] as u32
            + if 'A' <= e[i] && e[i] <= 'Z' {
            32int
        } else {
            0
        } by {
            assert(lower[i] == want[i]);
        }
    }
}

proof fn lemma_same_char(a: char, b: char)
    requires
        a as u32 == b as u32,
    ensures
        a == b,
{
}

/// Whether shortcut `i` is the first that points to its target, and that is an
/// executable.
pub open spec fn is_first_to(links: Seq<ShortcutView>, i: int) -> bool {
    &&& 0 <= i < links.len()
    &&& links[i].target is Some && has_extension(links[i].target->0, "exe"@)
    &&& forall|j: int| 0 <= j < i ==> (#[trigger] links[j]).target != links[i].target
}

/// Whether the applications are those of the shortcuts at the given places.
pub open spec fn apps_of(
    apps: Seq<AppView>,
    links: Seq<ShortcutView>,
    places: Seq<int>,
) -> bool {
    &&& apps.len() == places.len()
    &&& forall|i: int| 0 <= i < places.len() ==> is_first_to(links, #[trigger] places[i])
    &&& forall|i: int, j: int|
        0 <= i < j < places.len() ==> #[trigger] places[i] < #[trigger] places[j]
    &&& forall|i: int| #[trigger] is_first_to(links, i) ==> places.contains(i)
    &&& forall|i: int|
        0 <= i < places.len() ==> (#[trigger] apps[i]).path == links[places[i]].target->0
            && apps[i].name == (match file_stem(links[places[i]].path) {
            Some(stem) => stem,
            None => apps[i].path,
        })
}

/// Every executable that a shortcut points to is listed once, in the order of the
/// shortcuts, under the name of the first shortcut that points to it; nothing else is
/// listed.
#[verifier::rlimit(40)]
pub proof fn shortcuts_lead_to_their_targets(links: Seq<ShortcutView>) -> (places: Seq<int>)
    ensures
        apps_of(shortcut_apps(links), links, places),
    decreases links.len(),
{
    if links.len() == 0 {
        let none = Seq::<int>::empty();
        assert forall|i: int| #[trigger] is_first_to(links, i) implies none.contains(i) by {}
        none
    } else {
        let fewer = links.drop_last();
        let n = links.len() - 1;
        let p0 = shortcuts_lead_to_their_targets(fewer);
        let a = shortcut_apps(fewer);
        let b = shortcut_apps(links);
        let link = links[n];
        let paths = crate::scanner::app_paths(a);
        assert forall|i: int| 0 <= i < n implies is_first_to(links, i) == is_first_to(fewer, i) by {
            assert(fewer[i] == links[i]);
            if is_first_to(fewer, i) {
                assert forall|j: int| 0 <= j < i implies (#[trigger] links[j]).target
                    != links[i].target by {
                    assert(fewer[j] == links[j]);
                }
            }
            if is_first_to(links, i) {
                assert forall|j: int| 0 <= j < i implies (#[trigger] fewer[j]).target
                    != fewer[i].target by {
                    assert(fewer[j] == links[j]);
                }
            }
        }
        let fresh = is_first_to(links, n);
        if link.target is Some && has_extension(link.target->0, "exe"@) {
            let t = link.target->0;
            if paths.contains(t) {
                let k = choose|k: int| 0 <= k < paths.len() && paths[k] == t;
                assert(a[k].path == t);
                assert(is_first_to(fewer, p0[k]));
                assert(links[p0[k]].target == link.target) by {
                    assert(fewer[p0[k]] == links[p0[k]]);
                }
                assert(!fresh);
            } else {
                assert forall|j: int| 0 <= j < n implies (#[trigger] links[j]).target
                    != link.target by {
                    if links[j].target == link.target {
                        lemma_some_first(fewer, j);
                        let f = choose|f: int| #[trigger]
                            is_first_to(fewer, f) && fewer[f].target == fewer[j].target;
                        assert(p0.contains(f));
                        let k = choose|k: int| 0 <= k < p0.len() && p0[k] == f;
                        assert(a[k].path == fewer[p0[k]].target->0);
                        assert(paths[k] == t);
                    }
                }
                assert(fresh);
            }
        }
        let p = if fresh {
            p0.push(n)
        } else {
            p0
        };
        assert forall|i: int| #[trigger] is_first_to(links, i) implies p.contains(i) by {
            if i < n {
                assert(is_first_to(fewer, i));
                let k = choose|k: int| 0 <= k < p0.len() && p0[k] == i;
                assert(p[k] == i);
            } else {
                assert(p[p.len() - 1] == n);
            }
        }
        assert forall|i: int| 0 <= i < p.len() implies is_first_to(links, #[trigger] p[i]) by {
            if i < p0.len() {
                assert(is_first_to(fewer, p0[i]));
            }
        }
        assert forall|i: int| 0 <= i < p.len() implies (#[trigger] b[i]).path
            == links[p[i]].target->0 && b[i].name == (match file_stem(links[p[i]].path) {
            Some(stem) => stem,
            None => b[i].path,
        }) by {
            if i < p0.len() {
                assert(b[i] == a[i]);
                assert(is_first_to(fewer, p0[i]));
                assert(fewer[p0[i]] == links[p0[i]]);
            }
        }
        assert forall|i: int, j: int| 0 <= i < j < p.len() implies #[trigger] p[i]
            < #[trigger] p[j] by {
            assert(is_first_to(fewer, p0[i]));
        }
        p
    }
}

proof fn lemma_some_first(links: Seq<ShortcutView>, j: int)
    requires
        0 <= j < links.len(),
        links[j].target is Some,
        has_extension(links[j].target->0, "exe"@),
    ensures
        exists|f: int| #[trigger] is_first_to(links, f) && links[f].target == links[j].target,
    decreases j,
{
    if exists|k: int| 0 <= k < j && (#[trigger] links[k]).target == links[j].target {
        let k = choose|k: int| 0 <= k < j && (#[trigger] links[k]).target == links[j].target;
        lemma_some_first(links, k);
    } else {
        assert(is_first_to(links, j));
    }
}

/// The name at the end of what stands behind a prefix.
proof fn lemma_name_behind(p: Seq<char>, from: int, middle: Seq<char>, name: Seq<char>, verbatim: bool)
    requires
        body_start(p) == from,
        0 <= from <= p.len(),
        is_verbatim(p) == verbatim,
        p.skip(from) == middle + name,
        middle.len() == 0 || separates(middle.last(), verbatim),
        name.len() > 0,
        forall|i: int| 0 <= i < name.len() ==> !separates(#[trigger] name[i], verbatim),
        name != seq!['.'] && name != seq!['.', '.'],
    ensures
        file_name(p) == Some(name),
{
    let q = middle + name;
    let m = middle.len() as int;
    assert(q.last() == name.last());
    assert(!separates(name[name.len() - 1], verbatim));
    if !verbatim && q.len() > 1 && q.last() == '.' && separates(q[q.len() - 2], false) {
        if name.len() > 1 {
            assert(q[q.len() - 2] == name[name.len() - 2]);
        }
        assert(name =~= seq!['.']);
    }
    assert(without_tail(q, verbatim) == q);
    assert forall|i: int| m <= i < q.len() implies !separates(#[trigger] q[i], verbatim) by {
        assert(q[i] == name[i - m]);
    }
    if m > 0 {
        assert(q[m - 1] == middle.last());
    }
    lemma_name_start(q, q.len() as int, m, verbatim);
    assert(q.skip(m) =~= name);
}

proof fn lemma_component(p: Seq<char>, i: int, e: int, verbatim: bool)
    requires
        0 <= i <= e <= p.len(),
        forall|k: int| i <= k < e ==> !separates(#[trigger] p[k], verbatim),
        e < p.len() ==> separates(p[e], verbatim),
    ensures
        component_end(p, i, verbatim) == e,
    decreases e - i,
{
    if i < e {
        lemma_component(p, i + 1, e, verbatim);
    }
}

/// A path to a share of a server names the share first, and a file behind it; a share by
/// itself is no file.
pub proof fn shares_are_no_files(
    server: Seq<char>,
    share: Seq<char>,
    middle: Seq<char>,
    name: Seq<char>,
)
    requires
        server.len() > 0 && server != seq!['?'],
        share.len() > 0,
        forall|i: int| 0 <= i < server.len() ==> !is_slash(#[trigger] server[i]),
        forall|i: int| 0 <= i < share.len() ==> !is_slash(#[trigger] share[i]),
        middle.len() == 0 || is_slash(middle.last()),
        is_plain_name(name),
    ensures
        file_name(
            seq!['\\', '\\'] + server + seq!['\\'] + share + seq!['\\'] + middle + name,
        ) == Some(name),
        file_name(seq!['\\', '\\'] + server + seq!['\\'] + share) is None,
{
    let head = seq!['\\', '\\'] + server + seq!['\\'] + share;
    let p = head + seq!['\\'] + middle + name;
    let a = 2 + server.len() as int;
    let b = a + 1 + share.len();
    assert(head.take(head.len() as int) =~= head);
    assert(p.take(head.len() as int) =~= head);
    lemma_share(head, head, server, share);
    lemma_share(p, head, server, share);
    assert(p[b] == '\\');
    assert(body_start(p) == b + 1);
    assert(p.skip(b + 1) =~= middle + name);
    assert forall|i: int| 0 <= i < name.len() implies !separates(#[trigger] name[i], false) by {
        assert(!is_slash(name[i]));
    }
    lemma_name_behind(p, b + 1, middle, name, false);
    assert(body_start(head) == head.len());
    assert(head.skip(b) =~= Seq::<char>::empty());
    assert(without_tail(Seq::<char>::empty(), false) =~= Seq::<char>::empty());
}

proof fn lemma_share(p: Seq<char>, head: Seq<char>, server: Seq<char>, share: Seq<char>)
    requires
        server.len() > 0 && server != seq!['?'],
        share.len() > 0,
        forall|i: int| 0 <= i < server.len() ==> !is_slash(#[trigger] server[i]),
        forall|i: int| 0 <= i < share.len() ==> !is_slash(#[trigger] share[i]),
        head == seq!['\\', '\\'] + server + seq!['\\'] + share,
        head.len() <= p.len(),
        p.take(head.len() as int) == head,
        head.len() < p.len() ==> p[head.len() as int] == '\\',
    ensures
        !is_verbatim(p),
        prefix_end(p) == head.len(),
{
    let a = 2 + server.len() as int;
    let b = a + 1 + share.len();
    assert forall|i: int| 0 <= i < head.len() implies p[i] == head[i] by {
        assert(p.take(head.len() as int)[i] == p[i]);
    }
    assert(p[0] == '\\' && p[1] == '\\' && p[2] == server[0] && p[a] == '\\');
    assert forall|k: int| 2 <= k < a implies !separates(#[trigger] p[k], false) by {
        assert(p[k] == head[k] && head[k] == server[k - 2]);
    }
    assert forall|k: int| a + 1 <= k < b implies !separates(#[trigger] p[k], false) by {
        assert(p[k] == head[k] && head[k] == share[k - a - 1]);
    }
    if is_verbatim(p) {
        if server.len() > 1 {
            assert(p[3] == head[3] && head[3] == server[1]);
            assert(is_slash(server[1]));
        }
        assert(server =~= seq!['?']);
    }
    lemma_component(p, 2, a, false);
    lemma_component(p, a + 1, b, false);
}

/// Where the server or the share is missing there is no share, and what stands last is the
/// file.
#[verifier::rlimit(40)]
pub proof fn shares_need_a_server_and_a_name(server: Seq<char>, name: Seq<char>)
    requires
        is_plain_name(server) && server != seq!['?'],
        is_plain_name(name),
    ensures
        file_name(seq!['\\', '\\', '\\'] + name) == Some(name),
        file_name(seq!['\\', '\\'] + server) == Some(server),
        file_name(seq!['\\', '\\'] + server + seq!['\\', '\\'] + name) == Some(name),
{
    assert forall|i: int| 0 <= i < name.len() implies !separates(#[trigger] name[i], false) by {
        assert(!is_slash(name[i]));
    }
    assert forall|i: int| 0 <= i < server.len() implies !separates(#[trigger] server[i], false) by {
        assert(!is_slash(server[i]));
    }
    let a = 2 + server.len() as int;

    let p = seq!['\\', '\\', '\\'] + name;
    assert(p[0] == '\\' && p[1] == '\\' && p[2] == '\\');
    lemma_component(p, 2, 2, false);
    assert(body_start(p) == 1);
    assert(p.skip(1) =~= seq!['\\', '\\'] + name);
    lemma_name_behind(p, 1, seq!['\\', '\\'], name, false);

    let q = seq!['\\', '\\'] + server;
    assert(q[0] == '\\' && q[1] == '\\' && q[2] == server[0]);
    assert forall|k: int| 2 <= k < a implies !separates(#[trigger] q[k], false) by {
        assert(q[k] == server[k - 2]);
    }
    assert(is_verbatim(q) ==> separates(q[3], false));
    lemma_component(q, 2, a, false);
    assert(body_start(q) == 1);
    assert(q.skip(1) =~= seq!['\\'] + server);
    lemma_name_behind(q, 1, seq!['\\'], server, false);

    let r = seq!['\\', '\\'] + server + seq!['\\', '\\'] + name;
    assert(r[0] == '\\' && r[1] == '\\' && r[2] == server[0] && r[a] == '\\' && r[a + 1]
        == '\\');
    assert forall|k: int| 2 <= k < a implies !separates(#[trigger] r[k], false) by {
        assert(r[k] == server[k - 2]);
    }
    if is_verbatim(r) {
        if server.len() > 1 {
            assert(r[3] == server[1]);
        }
        assert(server =~= seq!['?']);
    }
    lemma_component(r, 2, a, false);
    lemma_component(r, a + 1, a + 1, false);
    assert(body_start(r) == 1);
    let middle = seq!['\\'] + server + seq!['\\', '\\'];
    assert(r.skip(1) =~= middle + name);
    lemma_name_behind(r, 1, middle, name, false);
}

/// In a verbatim path only the backslash separates, so that a slash is part of a name.
pub proof fn verbatim_paths_keep_their_slashes(
    drive: char,
    middle: Seq<char>,
    name: Seq<char>,
)
    requires
        ('a' <= drive && drive <= 'z') || ('A' <= drive && drive <= 'Z'),
        middle.len() == 0 || middle.last() == '\\',
        name.len() > 0,
        forall|i: int| 0 <= i < name.len() ==> #[trigger] name[i] != '\\',
        name != seq!['.'] && name != seq!['.', '.'],
    ensures
        file_name(seq!['\\', '\\', '?', '\\', drive, ':', '\\'] + middle + name) == Some(name),
{
    let p = seq!['\\', '\\', '?', '\\', drive, ':', '\\'] + middle + name;
    assert(p[0] == '\\' && p[1] == '\\' && p[2] == '?' && p[3] == '\\' && p[4] == drive && p[5]
        == ':' && p[6] == '\\');
    assert(prefix_end(p) == 6);
    assert(p.skip(7) =~= middle + name);
    lemma_name_behind(p, 7, middle, name, true);
}

} // verus!

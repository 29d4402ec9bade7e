//! What a query finds among the installed applications, and by which texts.

use vstd::prelude::*;

use crate::engine::{found, ranked, AppView};
use crate::order::{falling_order, falling_order_exists};
use crate::search::{
    ascii_lower, ascii_lowercase, best_score, better, distinct, extended, first,
    forms, fuzzy_score, has_readings, matcher_score, part, pinyin_forms, readings, search_forms,
    worthwhile, Form,
};
use crate::text::{blank, byte_len, is_white, lowercase};

verus! {

/// Whether `i` is among the entries that were found, with the given score.
pub open spec fn lists(found: Seq<(int, u16)>, i: int, score: u16) -> bool {
    found.contains((i, score))
}

proof fn lemma_best_score(haystacks: Seq<Seq<char>>, needle: Seq<char>)
    ensures
        best_score(haystacks, needle) is Some <==> exists|k: int|
            0 <= k < haystacks.len() && fuzzy_score(#[trigger] haystacks[k], needle) is Some,
        best_score(haystacks, needle) matches Some(score) ==> {
            &&& forall|k: int|
                0 <= k < haystacks.len() && fuzzy_score(#[trigger] haystacks[k], needle) is Some
                    ==> fuzzy_score(haystacks[k], needle)->0 <= score
            &&& exists|k: int|
                0 <= k < haystacks.len() && fuzzy_score(#[trigger] haystacks[k], needle) == Some(
                    score,
                )
        },
    decreases haystacks.len(),
{
    if haystacks.len() > 0 {
        let rest = haystacks.drop_last();
        let n = haystacks.len() - 1;
        lemma_best_score(rest, needle);
        let last = fuzzy_score(haystacks[n], needle);
        assert(forall|k: int| 0 <= k < n ==> #[trigger] rest[k] == haystacks[k]);
        if best_score(rest, needle) is Some {
            let k = choose|k: int|
                0 <= k < rest.len() && fuzzy_score(#[trigger] rest[k], needle) == best_score(
                    rest,
                    needle,
                );
            assert(fuzzy_score(haystacks[k], needle) == best_score(rest, needle));
        }
        if best_score(haystacks, needle) is Some && last is Some {
            assert(fuzzy_score(haystacks[n], needle) is Some);
        }
        assert(better(best_score(rest, needle), last) == best_score(haystacks, needle));
        assert forall|k: int|
            0 <= k < haystacks.len() && fuzzy_score(
                #[trigger] haystacks[k],
                needle,
            ) is Some implies best_score(haystacks, needle) is Some && fuzzy_score(
            haystacks[k],
            needle,
        )->0 <= best_score(haystacks, needle)->0 by {
            if k < n {
                assert(rest[k] == haystacks[k]);
            }
        }
    }
}

proof fn lemma_found(entries: Seq<AppView>, query: Seq<char>, n: int)
    requires
        !blank(query),
        0 <= n <= entries.len(),
    ensures
        forall|i: int, score: u16| #[trigger]
            lists(found(entries, query, n), i, score) <==> 0 <= i < n && best_score(
                search_forms(entries[i].name),
                lowercase(query),
            ) == Some(score),
        forall|p: int|
            0 <= p < found(entries, query, n).len() ==> 0 <= (#[trigger] found(entries, query, n)[p]).0
                < n,
        forall|p: int, q: int|
            0 <= p < q < found(entries, query, n).len() ==> (#[trigger] found(
                entries,
                query,
                n,
            )[p]).0 < (#[trigger] found(entries, query, n)[q]).0,
    decreases n,
{
    if n > 0 {
        lemma_found(entries, query, n - 1);
        let a = found(entries, query, n - 1);
        let b = found(entries, query, n);
        assert forall|i: int, score: u16| #[trigger] lists(b, i, score) <==> 0 <= i < n
            && best_score(search_forms(entries[i].name), lowercase(query)) == Some(score) by {
            if lists(b, i, score) {
                let p = choose|p: int| 0 <= p < b.len() && b[p] == (i, score);
                if p < a.len() {
                    assert(a[p] == (i, score));
                    assert(lists(a, i, score));
                }
            }
            if 0 <= i < n && best_score(search_forms(entries[i].name), lowercase(query)) == Some(
                score,
            ) {
                if i < n - 1 {
                    assert(lists(a, i, score));
                    let p = choose|p: int| 0 <= p < a.len() && a[p] == (i, score);
                    assert(b[p] == (i, score));
                } else {
                    assert(b[b.len() - 1] == (i, score));
                }
            }
        }
        assert forall|p: int, q: int| 0 <= p < q < b.len() implies (#[trigger] b[p]).0 < (
        #[trigger] b[q]).0 by {
            assert(a[p] == b[p]);
            if q < a.len() {
                assert(a[q] == b[q]);
            }
        }
    } else {
        assert forall|i: int, score: u16| #[trigger]
            lists(found(entries, query, n), i, score) implies 0 <= i < n by {}
    }
}

/// A query that is not blank finds an entry exactly where the lower-cased query
/// matches some search form of its name, with the best score that it has in any of
/// them; each entry once, in index order.
pub proof fn entries_are_found_by_their_forms(entries: Seq<AppView>, query: Seq<char>, i: int)
    requires
        !blank(query),
        0 <= i < entries.len(),
    ensures
        ({
            let all = found(entries, query, entries.len() as int);
            let names = search_forms(entries[i].name);
            &&& (exists|score: u16| lists(all, i, score)) <==> exists|k: int|
                0 <= k < names.len() && fuzzy_score(#[trigger] names[k], lowercase(query)) is Some
            &&& forall|score: u16| #[trigger]
                lists(all, i, score) ==> {
                    &&& forall|k: int|
                        0 <= k < names.len() && fuzzy_score(
                            #[trigger] names[k],
                            lowercase(query),
                        ) is Some ==> fuzzy_score(names[k], lowercase(query))->0 <= score
                    &&& exists|k: int|
                        0 <= k < names.len() && fuzzy_score(#[trigger] names[k], lowercase(query))
                            == Some(score)
                }
            &&& forall|p: int|
                0 <= p < all.len() ==> 0 <= (#[trigger] all[p]).0 < entries.len()
            &&& forall|p: int, q: int|
                0 <= p < q < all.len() ==> (#[trigger] all[p]).0 < (#[trigger] all[q]).0
        }),
{
    let all = found(entries, query, entries.len() as int);
    let names = search_forms(entries[i].name);
    lemma_found(entries, query, entries.len() as int);
    lemma_best_score(names, lowercase(query));
    if exists|k: int|
        0 <= k < names.len() && fuzzy_score(#[trigger] names[k], lowercase(query)) is Some {
        assert(lists(all, i, best_score(names, lowercase(query))->0));
    }
}

/// A blank query finds every entry, in index order.
pub proof fn blank_query_finds_everything(entries: Seq<AppView>, query: Seq<char>, n: int)
    requires
        blank(query),
        0 <= n <= entries.len(),
    ensures
        found(entries, query, n) == Seq::new(n as nat, |i: int| (i, 0u16)),
    decreases n,
{
    if n > 0 {
        blank_query_finds_everything(entries, query, n - 1);
        assert(found(entries, query, n) =~= Seq::new(n as nat, |i: int| (i, 0u16)));
    } else {
        assert(found(entries, query, n) =~= Seq::new(n as nat, |i: int| (i, 0u16)));
    }
}

/// A needle is scored by the matcher with its capitals in lower case, wherever one
/// of the two texts is short enough and their lengths can be multiplied; else it
/// does not match.
pub proof fn needles_are_scored_by_the_matcher(
    haystack: Seq<char>,
    needle: Seq<char>,
    folded: Seq<char>,
)
    requires
        folded.len() == needle.len(),
        forall|i: int|
            0 <= i < needle.len() ==> (#[trigger] folded[i]) as u32 == needle[i] as u32 + if 'A'
                <= needle[i] && needle[i] <= 'Z' {
                32int
            } else {
                0
            },
    ensures
        haystack.len() <= 2520 && haystack.len() * byte_len(folded) <= usize::MAX ==> fuzzy_score(
            haystack,
            needle,
        ) == matcher_score(haystack, folded),
        byte_len(folded) <= 2520 && haystack.len() <= u32::MAX && haystack.len() * byte_len(folded)
            <= usize::MAX ==> fuzzy_score(haystack, needle) == matcher_score(haystack, folded),
        haystack.len() > 2520 && byte_len(folded) > 2520 ==> fuzzy_score(haystack, needle) is None,
{
    let lower = ascii_lowercase(needle);
    assert forall|i: int| 0 <= i < needle.len() implies lower[i] == folded[i] by {
        lemma_same_char(lower[i], folded[i]);
    }
    assert(lower =~= folded);
}

proof fn lemma_same_char(a: char, b: char)
    requires
        a as u32 == b as u32,
    ensures
        a == b,
{
}

/// The entries that were found are all listed, by falling key, and those with equal
/// keys in the order in which they were found.
pub proof fn found_entries_fall_in_rank(
    entries: Seq<AppView>,
    found: Seq<(int, u16)>,
    keys: Seq<int>,
)
    requires
        keys.len() == found.len(),
    ensures
        ({
            let order = falling_order(keys);
            let listed = ranked(entries, found, keys);
            &&& listed.len() == found.len() && order.len() == found.len()
            &&& forall|p: int|
                0 <= p < order.len() ==> 0 <= (#[trigger] order[p]) < found.len() && listed[p]
                    == entries[found[order[p]].0]
            &&& forall|k: int| 0 <= k < found.len() ==> order.contains(k)
            &&& forall|p: int, q: int|
                0 <= p < q < order.len() ==> keys[#[trigger] order[p]] > keys[#[trigger] order[q]]
                    || (keys[order[p]] == keys[order[q]] && order[p] < order[q])
        }),
{
    falling_order_exists(keys);
    let order = falling_order(keys);
    assert forall|p: int, q: int| 0 <= p < q < order.len() implies keys[#[trigger] order[p]]
        > keys[#[trigger] order[q]] || (keys[order[p]] == keys[order[q]] && order[p]
        < order[q]) by {
        assert(crate::order::ahead(keys, order[p], order[q]));
    }
}

/// What a character can add to a search form: one of its readings, or the first
/// letter of one; nothing, where it is white space; else itself, a capital in lower
/// case.
pub open spec fn can_add(c: char, added: Option<Seq<char>>, initials: bool) -> bool {
    match (readings(c), added) {
        (Some(rs), Some(s)) => exists|k: int|
            0 <= k < rs.len() && s == (if initials && (#[trigger] rs[k]).len() > 0 {
                seq![rs[k][0]]
            } else {
                rs[k]
            }),
        (None, Some(s)) => !is_white(c) && s.len() == 1 && s[0] as u32 == c as u32 + if 'A' <= c
            && c <= 'Z' {
            32int
        } else {
            0
        },
        (None, None) => is_white(c),
        (Some(_), None) => false,
    }
}

/// The parts one behind the other, with spaces between them or without.
pub open spec fn joined(parts: Seq<Option<Seq<char>>>, spaced: bool) -> Seq<char>
    decreases parts.len(),
{
    if parts.len() == 0 {
        Seq::empty()
    } else {
        let before = joined(parts.drop_last(), spaced);
        match parts.last() {
            Some(s) => if spaced && before.len() > 0 {
                before + seq![' '] + s
            } else {
                before + s
            },
            None => before,
        }
    }
}

/// Whether a text spells a name character by character.
pub open spec fn spells(
    text: Seq<char>,
    name: Seq<char>,
    parts: Seq<Option<Seq<char>>>,
    form: Form,
) -> bool {
    &&& parts.len() == name.len()
    &&& forall|i: int|
        0 <= i < name.len() ==> can_add(name[i], #[trigger] parts[i], form is Initials)
    &&& text == joined(parts, form is Spaced)
}

proof fn lemma_spells_more(
    text: Seq<char>,
    name: Seq<char>,
    parts: Seq<Option<Seq<char>>>,
    form: Form,
    c: char,
    added: Option<Seq<char>>,
)
    requires
        spells(text, name, parts, form),
        can_add(c, added, form is Initials),
    ensures
        spells(
            match added {
                Some(s) => extended(text, s, form),
                None => text,
            },
            name.push(c),
            parts.push(added),
            form,
        ),
{
    let more = parts.push(added);
    assert(more.drop_last() =~= parts);
    assert forall|i: int| 0 <= i < name.push(c).len() implies can_add(
        name.push(c)[i],
        #[trigger] more[i],
        form is Initials,
    ) by {
        if i < name.len() {
            assert(more[i] == parts[i]);
        }
    }
    if let Some(s) = added {
        assert(text.push(' ') + s =~= text + seq![' '] + s);
    }
}

#[verifier::rlimit(40)]
proof fn lemma_forms_spell(name: Seq<char>, form: Form, k: int)
    requires
        0 <= k < forms(name, form).len(),
    ensures
        exists|parts: Seq<Option<Seq<char>>>| #[trigger]
            spells(forms(name, form)[k], name, parts, form),
    decreases name.len(),
{
    if name.len() == 0 {
        assert(spells(forms(name, form)[k], name, Seq::empty(), form));
    } else {
        let fewer = name.drop_last();
        let c = name.last();
        let so_far = forms(fewer, form);
        assert(fewer.push(c) =~= name);
        match readings(c) {
            Some(rs) => {
                lemma_place_in(k, so_far.len() as int, rs.len() as int);
                let a = k / rs.len() as int;
                let b = k % rs.len() as int;
                lemma_forms_spell(fewer, form, a);
                let parts = choose|parts: Seq<Option<Seq<char>>>| #[trigger]
                    spells(so_far[a], fewer, parts, form);
                let s = part(rs[b], form);
                if form is Initials && rs[b].len() > 0 {
                    assert(s =~= seq![rs[b][0]]);
                }
                assert(can_add(c, Some(s), form is Initials));
                lemma_spells_more(so_far[a], fewer, parts, form, c, Some(s));
                assert(forms(name, form)[k] == extended(so_far[a], s, form));
                assert(spells(forms(name, form)[k], name, parts.push(Some(s)), form));
            },
            None => {
                lemma_forms_spell(fewer, form, k);
                let parts = choose|parts: Seq<Option<Seq<char>>>| #[trigger]
                    spells(so_far[k], fewer, parts, form);
                if is_white(c) {
                    lemma_spells_more(so_far[k], fewer, parts, form, c, None);
                    assert(spells(forms(name, form)[k], name, parts.push(None), form));
                } else {
                    let s = seq![ascii_lower(c)];
                    assert(can_add(c, Some(s), form is Initials));
                    lemma_spells_more(so_far[k], fewer, parts, form, c, Some(s));
                    assert(forms(name, form)[k] == extended(so_far[k], s, form));
                    assert(spells(forms(name, form)[k], name, parts.push(Some(s)), form));
                }
            },
        }
    }
}

proof fn lemma_place_in(k: int, a: int, b: int)
    requires
        0 <= k < a * b,
        0 <= a,
        0 <= b,
    ensures
        b > 0,
        0 <= k / b < a,
        0 <= k % b < b,
{
    if b == 0 {
        assert(a * b == 0) by (nonlinear_arith)
            requires
                b == 0,
        ;
    }
    vstd::arithmetic::div_mod::lemma_fundamental_div_mod(k, b);
    assert(0 <= k / b < a) by (nonlinear_arith)
        requires
            0 <= k < a * b,
            b > 0,
            k == b * (k / b) + k % b,
            0 <= k % b < b,
    ;
}

proof fn lemma_distinct_from(s: Seq<Seq<char>>)
    ensures
        forall|t: Seq<char>| #[trigger] distinct(s).contains(t) <==> s.contains(t),
        distinct(s).no_duplicates(),
        s.len() > 0 ==> distinct(s).len() > 0 && distinct(s)[0] == s[0],
        distinct(s).len() <= s.len(),
    decreases s.len(),
{
    if s.len() > 0 {
        let rest = s.drop_last();
        let d = distinct(rest);
        lemma_distinct_from(rest);
        assert forall|t: Seq<char>| #[trigger] distinct(s).contains(t) <==> s.contains(t) by {
            if s.contains(t) {
                let i = choose|i: int| 0 <= i < s.len() && s[i] == t;
                if i < rest.len() {
                    assert(rest[i] == t);
                    assert(d.contains(t));
                    let k = choose|k: int| 0 <= k < d.len() && d[k] == t;
                    assert(distinct(s)[k] == t);
                } else if !d.contains(t) {
                    assert(distinct(s)[d.len() as int] == t);
                } else {
                    let k = choose|k: int| 0 <= k < d.len() && d[k] == t;
                    assert(distinct(s)[k] == t);
                }
            }
            if distinct(s).contains(t) {
                let k = choose|k: int| 0 <= k < distinct(s).len() && distinct(s)[k] == t;
                if k < d.len() {
                    assert(d[k] == t);
                    assert(d.contains(t));
                    let i = choose|i: int| 0 <= i < rest.len() && rest[i] == t;
                    assert(s[i] == t);
                } else {
                    assert(s[s.len() - 1] == t);
                }
            }
        }
        if rest.len() == 0 {
            assert(d.len() == 0);
        }
    }
}

proof fn lemma_worthwhile(s: Seq<Seq<char>>, name: Seq<char>)
    ensures
        forall|t: Seq<char>| #[trigger]
            worthwhile(s, name).contains(t) <==> s.contains(t) && t.len() > 0 && t
                != ascii_lowercase(name),
        worthwhile(s, name).len() <= s.len(),
    decreases s.len(),
{
    if s.len() > 0 {
        let rest = s.drop_last();
        let w = worthwhile(rest, name);
        lemma_worthwhile(rest, name);
        assert forall|t: Seq<char>| #[trigger] worthwhile(s, name).contains(t) <==> s.contains(t)
            && t.len() > 0 && t != ascii_lowercase(name) by {
            if s.contains(t) && t.len() > 0 && t != ascii_lowercase(name) {
                let i = choose|i: int| 0 <= i < s.len() && s[i] == t;
                if i < rest.len() {
                    assert(rest[i] == t);
                    assert(rest.contains(t));
                    assert(w.contains(t));
                    let k = choose|k: int| 0 <= k < w.len() && w[k] == t;
                    assert(worthwhile(s, name)[k] == t);
                } else {
                    assert(worthwhile(s, name)[w.len() as int] == t);
                }
            }
            if worthwhile(s, name).contains(t) {
                let k = choose|k: int|
                    0 <= k < worthwhile(s, name).len() && worthwhile(s, name)[k] == t;
                if k < w.len() {
                    assert(w[k] == t);
                    assert(w.contains(t));
                    let i = choose|i: int| 0 <= i < rest.len() && rest[i] == t;
                    assert(s[i] == t);
                } else {
                    assert(s[s.len() - 1] == t);
                }
            }
        }
    }
}

/// An application is searched for by its name itself, and beside it only by texts
/// that spell the name in pinyin: in full, in full with spaces, or by first letters.
/// No text comes twice, and there are at most twelve beside the name.
pub proof fn search_forms_spell_the_name(name: Seq<char>, k: int)
    requires
        0 <= k < search_forms(name).len(),
    ensures
        search_forms(name)[0] == name,
        search_forms(name).no_duplicates(),
        search_forms(name).len() <= 13,
        k > 0 ==> (exists|i: int| 0 <= i < name.len() && readings(#[trigger] name[i]) is Some)
            && search_forms(name)[k].len() > 0 && exists|
            parts: Seq<Option<Seq<char>>>,
            form: Form,
        | #[trigger] spells(search_forms(name)[k], name, parts, form),
{
    let pinyin = pinyin_forms(name);
    let s = seq![name] + pinyin;
    lemma_distinct_from(s);
    assert(s[0] == name);
    let t = search_forms(name)[k];
    let all = forms(name, Form::Full) + forms(name, Form::Spaced) + forms(name, Form::Initials);
    lemma_worthwhile(all, name);
    lemma_distinct_from(worthwhile(all, name));
    if k > 0 {
        assert(t != name);
        assert(search_forms(name).contains(t));
        let i = choose|i: int| 0 <= i < s.len() && s[i] == t;
        assert(t == pinyin[i - 1]);
        let d = distinct(worthwhile(all, name));
        assert(d[i - 1] == t);
        assert(d.contains(t));
        assert(worthwhile(all, name).contains(t));
        let j = choose|j: int| 0 <= j < all.len() && all[j] == t;
        let a = forms(name, Form::Full).len() as int;
        let b = forms(name, Form::Spaced).len() as int;
        if j < a {
            lemma_forms_spell(name, Form::Full, j);
        } else if j < a + b {
            lemma_forms_spell(name, Form::Spaced, j - a);
        } else {
            lemma_forms_spell(name, Form::Initials, j - a - b);
        }
    }
}

/// A name without a pinyin reading, such as one in Latin letters, is searched for
/// as it is and by nothing else.
pub proof fn latin_names_are_searched_as_they_are(name: Seq<char>)
    requires
        forall|i: int| 0 <= i < name.len() ==> readings(#[trigger] name[i]) is None,
    ensures
        search_forms(name) == seq![name],
{
    assert(!has_readings(name));
    let s = seq![name] + pinyin_forms(name);
    assert(s =~= seq![name]);
    lemma_distinct_from(s);
    assert(search_forms(name) =~= seq![name]);
}

/// Whether a text spells a name by the first reading of each of its characters.
pub open spec fn spells_by_first(
    text: Seq<char>,
    name: Seq<char>,
    parts: Seq<Option<Seq<char>>>,
    form: Form,
) -> bool {
    &&& spells(text, name, parts, form)
    &&& forall|i: int|
        0 <= i < name.len() && readings(name[i]) is Some ==> (#[trigger] parts[i]) == Some(
            if form is Initials && readings(name[i])->0[0].len() > 0 {
                seq![readings(name[i])->0[0][0]]
            } else {
                readings(name[i])->0[0]
            },
        )
}

#[verifier::rlimit(40)]
proof fn lemma_first_form(name: Seq<char>, form: Form)
    requires
        forall|i: int|
            0 <= i < name.len() && readings(#[trigger] name[i]) is Some ==> readings(
                name[i],
            )->0.len() > 0,
    ensures
        1 <= forms(name, form).len() <= 12,
        exists|parts: Seq<Option<Seq<char>>>| #[trigger]
            spells_by_first(forms(name, form)[0], name, parts, form),
        (forall|i: int|
            0 <= i < name.len() && readings(#[trigger] name[i]) is Some ==> readings(
                name[i],
            )->0.len() == 1) ==> forms(name, form).len() == 1,
    decreases name.len(),
{
    if name.len() == 0 {
        assert(spells_by_first(forms(name, form)[0], name, Seq::empty(), form));
    } else {
        let fewer = name.drop_last();
        let c = name.last();
        let so_far = forms(fewer, form);
        assert(fewer.push(c) =~= name);
        assert forall|i: int| 0 <= i < fewer.len() && readings(#[trigger] fewer[i]) is Some implies
            readings(fewer[i])->0.len() > 0 by {
            assert(fewer[i] == name[i]);
        }
        lemma_first_form(fewer, form);
        let parts = choose|parts: Seq<Option<Seq<char>>>| #[trigger]
            spells_by_first(so_far[0], fewer, parts, form);
        let text = forms(name, form)[0];
        assert(c == name[name.len() - 1]);
        let added = match readings(c) {
            Some(rs) => {
                let n = rs.len() as int;
                assert(n > 0);
                assert(so_far.len() * n >= 1) by (nonlinear_arith)
                    requires
                        so_far.len() >= 1,
                        n >= 1,
                ;
                assert(0int / n == 0 && 0int % n == 0) by (nonlinear_arith)
                    requires
                        n >= 1,
                ;
                let s = part(rs[0], form);
                if form is Initials && rs[0].len() > 0 {
                    assert(s =~= seq![rs[0][0]]);
                }
                assert(can_add(c, Some(s), form is Initials));
                assert(text == extended(so_far[0], s, form));
                if n == 1 {
                    assert(so_far.len() * n == so_far.len()) by (nonlinear_arith)
                        requires
                            n == 1,
                    ;
                }
                Some(s)
            },
            None => if is_white(c) {
                None
            } else {
                assert(can_add(c, Some(seq![ascii_lower(c)]), form is Initials));
                Some(seq![ascii_lower(c)])
            },
        };
        lemma_spells_more(so_far[0], fewer, parts, form, c, added);
        let more = parts.push(added);
        assert forall|i: int| 0 <= i < name.len() && readings(name[i]) is Some implies (
        #[trigger] more[i]) == Some(
            if form is Initials && readings(name[i])->0[0].len() > 0 {
                seq![readings(name[i])->0[0][0]]
            } else {
                readings(name[i])->0[0]
            },
        ) by {
            if i < fewer.len() {
                assert(more[i] == parts[i]);
                assert(fewer[i] == name[i]);
            }
        }
        assert(spells_by_first(text, name, more, form));
        if forall|i: int|
            0 <= i < name.len() && readings(#[trigger] name[i]) is Some ==> readings(
                name[i],
            )->0.len() == 1 {
            assert forall|i: int|
                0 <= i < fewer.len() && readings(#[trigger] fewer[i]) is Some implies readings(
                fewer[i],
            )->0.len() == 1 by {
                assert(fewer[i] == name[i]);
            }
        }
    }
}

/// Whether `forms` holds a text that spells the name by first readings.
pub open spec fn holds_first_spelling(texts: Seq<Seq<char>>, name: Seq<char>, form: Form) -> bool {
    exists|text: Seq<char>, parts: Seq<Option<Seq<char>>>|
        texts.contains(text) && #[trigger] spells_by_first(text, name, parts, form)
}

/// A name with pinyin readings is found by its most common reading in full; where
/// none of its characters has more than one reading, also by that reading with
/// spaces and by its first letters. Left out is only what is empty, or the name
/// itself in lower case.
pub proof fn names_are_found_by_pinyin(name: Seq<char>)
    requires
        exists|i: int| 0 <= i < name.len() && readings(#[trigger] name[i]) is Some,
        forall|i: int|
            0 <= i < name.len() && readings(#[trigger] name[i]) is Some ==> readings(
                name[i],
            )->0.len() > 0,
    ensures
        ({
            let kept = search_forms(name).push(Seq::empty()).push(ascii_lowercase(name));
            &&& holds_first_spelling(kept, name, Form::Full)
            &&& (forall|i: int|
                0 <= i < name.len() && readings(#[trigger] name[i]) is Some ==> readings(
                    name[i],
                )->0.len() == 1) ==> holds_first_spelling(kept, name, Form::Spaced)
                && holds_first_spelling(kept, name, Form::Initials)
        }),
{
    let kept = search_forms(name).push(Seq::empty()).push(ascii_lowercase(name));
    let full = forms(name, Form::Full);
    let spaced = forms(name, Form::Spaced);
    let initials = forms(name, Form::Initials);
    let all = full + spaced + initials;
    assert(has_readings(name));
    lemma_first_form(name, Form::Full);
    lemma_first_form(name, Form::Spaced);
    lemma_first_form(name, Form::Initials);
    assert(all[0] == full[0]);
    lemma_kept(name, all, 0);
    let parts = choose|parts: Seq<Option<Seq<char>>>| #[trigger]
        spells_by_first(full[0], name, parts, Form::Full);
    assert(kept.contains(full[0]) && spells_by_first(full[0], name, parts, Form::Full));
    if forall|i: int|
        0 <= i < name.len() && readings(#[trigger] name[i]) is Some ==> readings(name[i])->0.len()
            == 1 {
        assert(all.len() == 3 && all[1] == spaced[0] && all[2] == initials[0]);
        lemma_kept(name, all, 1);
        lemma_kept(name, all, 2);
        let p1 = choose|parts: Seq<Option<Seq<char>>>| #[trigger]
            spells_by_first(spaced[0], name, parts, Form::Spaced);
        assert(kept.contains(spaced[0]) && spells_by_first(spaced[0], name, p1, Form::Spaced));
        let p2 = choose|parts: Seq<Option<Seq<char>>>| #[trigger]
            spells_by_first(initials[0], name, parts, Form::Initials);
        assert(kept.contains(initials[0]) && spells_by_first(
            initials[0],
            name,
            p2,
            Form::Initials,
        ));
    }
}

/// One of the first twelve texts is kept, unless it is not worth searching.
proof fn lemma_kept(name: Seq<char>, all: Seq<Seq<char>>, k: int)
    requires
        has_readings(name),
        all == forms(name, Form::Full) + forms(name, Form::Spaced) + forms(name, Form::Initials),
        0 <= k < all.len(),
        k < 12,
    ensures
        search_forms(name).push(Seq::empty()).push(ascii_lowercase(name)).contains(all[k]),
{
    let kept = search_forms(name).push(Seq::empty()).push(ascii_lowercase(name));
    let t = all[k];
    let n = search_forms(name).len() as int;
    if t.len() == 0 {
        assert(t =~= Seq::<char>::empty());
        assert(kept[n] == t);
    } else if t == ascii_lowercase(name) {
        assert(kept[n + 1] == t);
    } else {
        let some = all.take(k + 1);
        assert(some[k] == t);
        lemma_worthwhile(some, name);
        assert(some.contains(t));
        let w = worthwhile(some, name);
        lemma_distinct_from(w);
        assert(w.contains(t));
        assert(distinct(w).contains(t));
        lemma_worthwhile_starts(all, name, k + 1);
        let whole = worthwhile(all, name);
        lemma_distinct_starts(whole, w.len() as int);
        let d = distinct(whole);
        let p = choose|p: int| 0 <= p < distinct(w).len() && distinct(w)[p] == t;
        assert(d[p] == t) by {
            assert(distinct(w) == d.take(distinct(w).len() as int));
        }
        let pinyin = pinyin_forms(name);
        assert(pinyin[p] == t);
        let s = seq![name] + pinyin;
        assert(s[p + 1] == t);
        lemma_distinct_from(s);
        assert(search_forms(name).contains(t));
        let q = choose|q: int| 0 <= q < n && search_forms(name)[q] == t;
        assert(kept[q] == t);
    }
}

proof fn lemma_worthwhile_starts(s: Seq<Seq<char>>, name: Seq<char>, k: int)
    requires
        0 <= k <= s.len(),
    ensures
        worthwhile(s.take(k), name).len() <= worthwhile(s, name).len(),
        worthwhile(s.take(k), name) == worthwhile(s, name).take(
            worthwhile(s.take(k), name).len() as int,
        ),
    decreases s.len(),
{
    if k == s.len() {
        assert(s.take(k) =~= s);
        assert(worthwhile(s, name).take(worthwhile(s, name).len() as int) =~= worthwhile(s, name));
    } else {
        let t = s.drop_last();
        lemma_worthwhile_starts(t, name, k);
        assert(t.take(k) =~= s.take(k));
        let n = worthwhile(s.take(k), name).len() as int;
        assert(worthwhile(s, name).take(n) =~= worthwhile(t, name).take(n));
    }
}

proof fn lemma_distinct_starts(s: Seq<Seq<char>>, k: int)
    requires
        0 <= k <= s.len(),
    ensures
        distinct(s.take(k)).len() <= distinct(s).len(),
        distinct(s.take(k)) == distinct(s).take(distinct(s.take(k)).len() as int),
    decreases s.len(),
{
    if k == s.len() {
        assert(s.take(k) =~= s);
        assert(distinct(s).take(distinct(s).len() as int) =~= distinct(s));
    } else {
        let t = s.drop_last();
        lemma_distinct_starts(t, k);
        assert(t.take(k) =~= s.take(k));
        let n = distinct(s.take(k)).len() as int;
        assert(distinct(s).take(n) =~= distinct(t).take(n));
    }
}

/// In how many ways a name can be read.
pub open spec fn choices(name: Seq<char>) -> nat
    decreases name.len(),
{
    if name.len() == 0 {
        1
    } else {
        choices(name.drop_last()) * (match readings(name.last()) {
            Some(rs) => rs.len(),
            None => 1,
        })
    }
}

#[verifier::rlimit(40)]
proof fn lemma_every_form(
    name: Seq<char>,
    form: Form,
    text: Seq<char>,
    parts: Seq<Option<Seq<char>>>,
)
    requires
        spells(text, name, parts, form),
        choices(name) <= 12,
    ensures
        forms(name, form).len() == choices(name),
        forms(name, form).contains(text),
    decreases name.len(),
{
    if name.len() == 0 {
        assert(parts.len() == 0);
        assert(text =~= Seq::<char>::empty());
        assert(forms(name, form)[0] == text);
    } else {
        let fewer = name.drop_last();
        let c = name.last();
        let some = parts.drop_last();
        let so_far = forms(fewer, form);
        let before = joined(some, form is Spaced);
        assert forall|i: int| 0 <= i < fewer.len() implies can_add(
            fewer[i],
            #[trigger] some[i],
            form is Initials,
        ) by {
            assert(some[i] == parts[i]);
            assert(can_add(name[i], parts[i], form is Initials));
        }
        assert(spells(before, fewer, some, form));
        let n = parts.len() - 1;
        assert(can_add(name[n], parts[n], form is Initials));
        let r: nat = match readings(c) {
            Some(rs) => rs.len(),
            None => 1,
        };
        assert(r >= 1);
        assert(choices(fewer) <= choices(fewer) * r) by (nonlinear_arith)
            requires
                r >= 1,
        ;
        lemma_every_form(fewer, form, before, some);
        let a = choose|a: int| 0 <= a < so_far.len() && so_far[a] == before;
        match readings(c) {
            Some(rs) => {
                let s = parts[n]->0;
                let b = choose|b: int|
                    0 <= b < rs.len() && s == (if form is Initials && (#[trigger] rs[b]).len() > 0 {
                        seq![rs[b][0]]
                    } else {
                        rs[b]
                    });
                assert(part(rs[b], form) =~= s);
                let k = a * rs.len() + b;
                assert(0 <= k < so_far.len() * rs.len()) by (nonlinear_arith)
                    requires
                        0 <= a < so_far.len(),
                        0 <= b < rs.len(),
                        k == a * rs.len() + b,
                ;
                vstd::arithmetic::div_mod::lemma_fundamental_div_mod_converse(
                    k,
                    rs.len() as int,
                    a,
                    b,
                );
                assert(forms(name, form)[k] == extended(before, s, form));
                assert(before.push(' ') + s =~= before + seq![' '] + s);
                assert(forms(name, form)[k] =~= text);
            },
            None => {
                if is_white(c) {
                    assert(forms(name, form)[a] == text);
                } else {
                    let s = parts[n]->0;
                    lemma_same_char(s[0], ascii_lower(c));
                    assert(s =~= seq![ascii_lower(c)]);
                    assert(forms(name, form)[a] == extended(before, s, form));
                    assert(before.push(' ') + s =~= before + seq![' '] + s);
                    assert(forms(name, form)[a] =~= text);
                }
            },
        }
    }
}

/// A name that can be read in at most four ways is found by each of them, in full, with
/// spaces and by first letters; one that can be read in at most twelve, by each in full.
/// Left out is only what is empty, or the name itself in lower case.
pub proof fn every_reading_is_searched(
    name: Seq<char>,
    form: Form,
    text: Seq<char>,
    parts: Seq<Option<Seq<char>>>,
)
    requires
        exists|i: int| 0 <= i < name.len() && readings(#[trigger] name[i]) is Some,
        spells(text, name, parts, form),
        choices(name) <= 4 || (choices(name) <= 12 && form is Full),
        text.len() > 0,
        text != ascii_lowercase(name),
    ensures
        search_forms(name).contains(text),
{
    let full = forms(name, Form::Full);
    let spaced = forms(name, Form::Spaced);
    let initials = forms(name, Form::Initials);
    let all = full + spaced + initials;
    assert(has_readings(name));
    lemma_every_form(name, form, text, parts);
    lemma_count(name, Form::Full, parts);
    lemma_count(name, Form::Spaced, parts);
    let k = choose|k: int| 0 <= k < forms(name, form).len() && forms(name, form)[k] == text;
    let n = choices(name) as int;
    let at = match form {
        Form::Full => k,
        Form::Spaced => n + k,
        Form::Initials => 2 * n + k,
    };
    assert(all[at] == text);
    lemma_kept(name, all, at);
    let kept = search_forms(name).push(Seq::empty()).push(ascii_lowercase(name));
    let q = choose|q: int| 0 <= q < kept.len() && kept[q] == text;
    assert(search_forms(name)[q] == text);
}

proof fn lemma_count(name: Seq<char>, form: Form, parts: Seq<Option<Seq<char>>>)
    requires
        choices(name) <= 12,
        parts.len() == name.len(),
        forall|i: int| 0 <= i < name.len() ==> !(readings(name[i]) is Some && (
        #[trigger] parts[i]) is None),
        forall|i: int|
            0 <= i < name.len() && readings(name[i]) is Some && (#[trigger] parts[i]) is Some
                ==> readings(name[i])->0.len() > 0,
    ensures
        forms(name, form).len() == choices(name),
    decreases name.len(),
{
    if name.len() > 0 {
        let fewer = name.drop_last();
        let c = name.last();
        let some = parts.drop_last();
        let n = name.len() - 1;
        assert(parts[n] == parts.last());
        let r: nat = match readings(c) {
            Some(rs) => rs.len(),
            None => 1,
        };
        assert(name[n] == c);
        assert(r >= 1);
        assert(choices(fewer) <= choices(fewer) * r) by (nonlinear_arith)
            requires
                r >= 1,
        ;
        assert forall|i: int| 0 <= i < fewer.len() implies !(readings(fewer[i]) is Some && (
        #[trigger] some[i]) is None) by {
            assert(some[i] == parts[i]);
            assert(fewer[i] == name[i]);
        }
        assert forall|i: int|
            0 <= i < fewer.len() && readings(fewer[i]) is Some && (#[trigger] some[i])
                is Some implies readings(fewer[i])->0.len() > 0 by {
            assert(some[i] == parts[i]);
            assert(fewer[i] == name[i]);
        }
        lemma_count(fewer, form, some);
    }
}

} // verus!
